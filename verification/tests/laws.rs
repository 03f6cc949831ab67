use std::cell::RefCell;
use std::rc::Rc;
use yew::app::App;
use yew::component::{Component, Context, Outcome, Runtime, ShouldRender, Slot};
use yew::html::{AnyScope, Html, Properties};
use yew::scheduler::{ComponentRunnable, ComponentTask, UpdateTask};
use yew::surface::{Patch, Surface, SurfaceHandle};
use yew::virtual_dom::{VComp, VList, VNode, VTag, VText};

// A counter: each message adds to it, and says whether to render.

#[derive(Clone, PartialEq, Default)]
struct Log {
    events: Rc<RefCell<Vec<String>>>,
    /// Sent from inside `rendered`, once.
    from_rendered: RefCell<Option<(i64, bool)>>,
}

impl Properties for Log {
    type Builder = ();

    fn builder() -> Self::Builder {}
}

struct Counter {
    counter: i64,
}

impl Component for Counter {
    type Message = (i64, bool);
    type Properties = Log;

    fn create(_ctx: &mut Context<'_, Self>) -> Self {
        Counter { counter: 0 }
    }

    fn update(&mut self, ctx: &mut Context<'_, Self>, msg: Self::Message) -> ShouldRender {
        self.counter += msg.0;
        ctx.props
            .events
            .borrow_mut()
            .push(format!("update({})", msg.0));
        msg.1
    }

    fn view(&self, ctx: &mut Context<'_, Self>) -> Html<Self> {
        ctx.props.events.borrow_mut().push("view".into());
        let mut span = VTag::new("span");
        span.add_child(VNode::VText(VText::new(self.counter.to_string())));
        let mut div = VTag::new("div");
        div.add_child(VNode::VTag(Box::new(span)));
        VNode::VTag(Box::new(div))
    }

    fn rendered(&mut self, ctx: &mut Context<'_, Self>, first_render: bool) {
        ctx.props
            .events
            .borrow_mut()
            .push(format!("rendered({}) begins", first_render));
        if let Some(msg) = ctx.props.from_rendered.borrow_mut().take() {
            ctx.link.send_message(msg);
        }
        ctx.props
            .events
            .borrow_mut()
            .push(format!("rendered({}) ends", first_render));
    }

    fn destroy(&mut self, ctx: &mut Context<'_, Self>) {
        ctx.props.events.borrow_mut().push("destroy".into());
    }
}

fn count(events: &Rc<RefCell<Vec<String>>>, what: &str) -> usize {
    events.borrow().iter().filter(|e| e.as_str() == what).count()
}

fn html_of(surface: &Surface, node: SurfaceHandle) -> String {
    if surface.is_text(node) {
        return surface.text(node).clone();
    }
    let mut out = format!("<{}", surface.tag(node));
    for attribute in surface.attributes(node) {
        out.push_str(&format!(" {}=\"{}\"", attribute.name, attribute.value));
    }
    out.push('>');
    for child in surface.children(node) {
        out.push_str(&html_of(surface, *child));
    }
    out.push_str(&format!("</{}>", surface.tag(node)));
    out
}

fn mounted(log: Log) -> (Runtime<Counter>, SurfaceHandle, yew::html::Scope<Counter>) {
    let mut runtime: Runtime<Counter> = Runtime::new(10_000);
    let root = runtime.surface.create_element("main");
    let scope = App::new(1).mount_with_props(&mut runtime, root, log);
    (runtime, root, scope)
}

#[test]
fn end_to_end_counter() {
    let log = Log::default();
    let events = log.events.clone();
    let (mut runtime, root, scope) = mounted(log);
    assert_eq!(
        html_of(&runtime.surface, root),
        "<main><div><span>0</span></div></main>"
    );
    assert_eq!(count(&events, "rendered(true) ends"), 1);

    for _ in 0..5 {
        scope.send_message(&mut runtime.scheduler, (1, true));
        runtime.start();
    }

    assert_eq!(
        html_of(&runtime.surface, root),
        "<main><div><span>5</span></div></main>"
    );
    assert_eq!(count(&events, "rendered(false) ends"), 5);
    assert_eq!(count(&events, "rendered(true) ends"), 1);
    assert_eq!(count(&events, "view"), 6);
    assert!(runtime.scheduler.is_idle());
}

#[test]
fn end_to_end_counter_reuses_the_nodes() {
    let (mut runtime, root, scope) = mounted(Log::default());
    let div = runtime.surface.children(root)[0];
    let span = runtime.surface.children(div)[0];
    let text = runtime.surface.children(span)[0];
    let created = runtime.surface.len();
    runtime.surface.take_patches();

    scope.send_message(&mut runtime.scheduler, (7, true));
    runtime.start();

    assert_eq!(runtime.surface.len(), created);
    assert_eq!(runtime.surface.children(root), &vec![div]);
    assert_eq!(runtime.surface.children(div), &vec![span]);
    assert_eq!(runtime.surface.children(span), &vec![text]);
    assert_eq!(runtime.surface.text(text), "7");
    assert_eq!(
        runtime.surface.patches(),
        &vec![Patch::SetText { node: text }]
    );
}

#[test]
fn batch_renders_once() {
    let log = Log::default();
    let events = log.events.clone();
    let (mut runtime, root, scope) = mounted(log);
    events.borrow_mut().clear();

    scope.send_message_batch(
        &mut runtime.scheduler,
        vec![(1, false), (10, true), (100, false)],
    );
    runtime.start();

    assert_eq!(
        &events.borrow()[..],
        &[
            "update(1)".to_string(),
            "update(10)".to_string(),
            "update(100)".to_string(),
            "view".to_string(),
            "rendered(false) begins".to_string(),
            "rendered(false) ends".to_string(),
        ]
    );
    assert_eq!(
        html_of(&runtime.surface, root),
        "<main><div><span>111</span></div></main>"
    );
}

#[test]
fn batch_outcome_tells_what_each_message_answered() {
    let (mut runtime, _root, scope) = mounted(Log::default());
    let id = scope.get_id();
    let outcome = ComponentRunnable {
        scope: id,
        task: ComponentTask::Update(UpdateTask::MessageBatch(vec![
            (1, false),
            (1, true),
            (1, false),
        ])),
    }
    .run(&mut runtime);
    match outcome {
        Outcome::Updated {
            results,
            should_render,
        } => {
            assert_eq!(results, vec![false, true, false]);
            assert!(should_render);
        }
        _ => panic!("the batch was not handled"),
    }

    let outcome = ComponentRunnable {
        scope: id,
        task: ComponentTask::Update(UpdateTask::Message((1, false))),
    }
    .run(&mut runtime);
    assert!(matches!(outcome, Outcome::Deferred));
}

#[test]
fn batch_without_a_render_renders_nothing() {
    let log = Log::default();
    let events = log.events.clone();
    let (mut runtime, root, scope) = mounted(log);
    events.borrow_mut().clear();

    scope.send_message_batch(&mut runtime.scheduler, vec![(1, false), (1, false)]);
    runtime.start();

    assert_eq!(
        &events.borrow()[..],
        &["update(1)".to_string(), "update(1)".to_string()]
    );
    assert_eq!(
        html_of(&runtime.surface, root),
        "<main><div><span>0</span></div></main>"
    );
}

#[test]
fn empty_batch_sends_nothing() {
    let (mut runtime, _root, scope) = mounted(Log::default());
    scope.send_message_batch(&mut runtime.scheduler, vec![]);
    assert!(runtime.scheduler.is_idle());
    assert_eq!(runtime.start(), 0);
}

#[test]
fn message_sent_from_rendered_waits_for_rendered_to_return() {
    let log = Log {
        from_rendered: RefCell::new(Some((5, true))),
        ..Log::default()
    };
    let events = log.events.clone();
    let (runtime, root, _scope) = mounted(log);

    assert_eq!(
        &events.borrow()[..],
        &[
            "view".to_string(),
            "rendered(true) begins".to_string(),
            "rendered(true) ends".to_string(),
            "update(5)".to_string(),
            "view".to_string(),
            "rendered(false) begins".to_string(),
            "rendered(false) ends".to_string(),
        ]
    );
    assert_eq!(
        html_of(&runtime.surface, root),
        "<main><div><span>5</span></div></main>"
    );
}

#[test]
fn updates_during_a_render_are_replayed_in_order() {
    let log = Log::default();
    let events = log.events.clone();
    let (mut runtime, root, scope) = mounted(log);
    events.borrow_mut().clear();

    // The first message computes a view; the others arrive before it is applied.
    scope.send_message(&mut runtime.scheduler, (1, true));
    scope.send_message(&mut runtime.scheduler, (20, true));
    scope.send_message(&mut runtime.scheduler, (300, false));
    runtime.start();

    assert_eq!(
        &events.borrow()[..],
        &[
            "update(1)".to_string(),
            "view".to_string(),
            "rendered(false) begins".to_string(),
            "rendered(false) ends".to_string(),
            "update(20)".to_string(),
            "view".to_string(),
            "rendered(false) begins".to_string(),
            "rendered(false) ends".to_string(),
            "update(300)".to_string(),
        ]
    );
    assert_eq!(
        html_of(&runtime.surface, root),
        "<main><div><span>21</span></div></main>"
    );
}

#[test]
fn stale_update_after_destroy_is_absorbed() {
    let log = Log::default();
    let events = log.events.clone();
    let (mut runtime, root, mut scope) = mounted(log);
    events.borrow_mut().clear();

    scope.send_message(&mut runtime.scheduler, (1, true));
    scope.destroy(&mut runtime.scheduler);
    runtime.start();

    assert_eq!(&events.borrow()[..], &["destroy".to_string()]);
    assert!(matches!(runtime.components[scope.get_id()], Slot::Destroyed));
    assert_eq!(html_of(&runtime.surface, root), "<main></main>");

    // Whatever comes for the component now changes nothing.
    let patches = runtime.surface.patches().len();
    for task in [
        ComponentTask::Update(UpdateTask::First),
        ComponentTask::Update(UpdateTask::Message((1, true))),
        ComponentTask::Render(true),
        ComponentTask::Rendered(true),
        ComponentTask::Destroy,
    ] {
        let outcome = ComponentRunnable {
            scope: scope.get_id(),
            task,
        }
        .run(&mut runtime);
        assert!(matches!(outcome, Outcome::Skipped));
    }
    assert_eq!(&events.borrow()[..], &["destroy".to_string()]);
    assert!(runtime.scheduler.is_idle());
    assert_eq!(runtime.surface.patches().len(), patches);
}

#[test]
fn task_for_a_component_that_never_was_is_absorbed() {
    let mut runtime: Runtime<Counter> = Runtime::new(10);
    let outcome = ComponentRunnable {
        scope: 42,
        task: ComponentTask::Update(UpdateTask::Message((1, true))),
    }
    .run(&mut runtime);
    assert!(matches!(outcome, Outcome::Skipped));
    assert!(runtime.components.is_empty());
    assert!(runtime.scheduler.is_idle());
}

#[test]
fn locked_scheduler_starts_nothing() {
    let mut runtime: Runtime<Counter> = Runtime::new(10);
    let root = runtime.surface.create_element("main");
    let lock = runtime.scheduler.lock();
    assert!(lock.acquired);
    let inner = runtime.scheduler.lock();
    assert!(!inner.acquired);
    App::new(1).mount_with_props(&mut runtime, root, Log::default());
    assert_eq!(runtime.start(), 0);
    assert!(runtime.components.is_empty());
    runtime.scheduler.unlock(inner);
    assert!(runtime.scheduler.is_locked());
    assert_eq!(runtime.start(), 0);
    runtime.scheduler.unlock(lock);
    assert!(!runtime.scheduler.is_locked());
    assert!(runtime.start() > 0);
    assert_eq!(
        html_of(&runtime.surface, root),
        "<main><div><span>0</span></div></main>"
    );
}

#[test]
fn start_runs_no_more_tasks_than_allowed() {
    let mut runtime: Runtime<Counter> = Runtime::new(2);
    let root = runtime.surface.create_element("main");
    App::new(1).mount_with_props(&mut runtime, root, Log::default());
    // Creating and updating ran; rendering and reporting wait.
    assert!(!runtime.scheduler.is_idle());
    assert_eq!(html_of(&runtime.surface, root), "<main></main>");
    assert_eq!(runtime.start(), 2);
    assert!(runtime.scheduler.is_idle());
    assert_eq!(
        html_of(&runtime.surface, root),
        "<main><div><span>0</span></div></main>"
    );
}

// Diffing without components.

struct Plain;

impl Component for Plain {
    type Message = ();
    type Properties = ();

    fn create(_ctx: &mut Context<'_, Self>) -> Self {
        Plain
    }

    fn view(&self, _ctx: &mut Context<'_, Self>) -> Html<Self> {
        VNode::VList(VList::new(true))
    }
}

fn text(content: &str) -> VNode<Plain> {
    VNode::VText(VText::new(content.to_string()))
}

fn tag(name: &str, children: Vec<VNode<Plain>>) -> VNode<Plain> {
    let mut vtag = VTag::new(name);
    vtag.add_children(children);
    VNode::VTag(Box::new(vtag))
}

fn list(children: Vec<VNode<Plain>>) -> VNode<Plain> {
    let mut vlist = VList::new(false);
    for child in children {
        vlist.add_child(child);
    }
    VNode::VList(vlist)
}

fn apply(
    runtime: &mut Runtime<Plain>,
    parent: SurfaceHandle,
    node: &mut VNode<Plain>,
    ancestor: Option<VNode<Plain>>,
) -> Option<SurfaceHandle> {
    node.apply(
        &mut runtime.surface,
        &mut runtime.scheduler,
        &Rc::new(AnyScope::root(0, 0)),
        parent,
        None,
        ancestor,
    )
}

fn page() -> VNode<Plain> {
    let mut link = VTag::new("a");
    link.add_attribute("href", "/home");
    link.add_child(text("home"));
    tag(
        "div",
        vec![
            VNode::VTag(Box::new(link)),
            list(vec![text("x"), tag("b", vec![text("y")])]),
            list(vec![]),
            text("z"),
        ],
    )
}

#[test]
fn diff_against_the_same_tree_changes_nothing() {
    let mut runtime: Runtime<Plain> = Runtime::new(10);
    let root = runtime.surface.create_element("main");
    let mut first = page();
    apply(&mut runtime, root, &mut first, None);
    let html = html_of(&runtime.surface, root);
    assert_eq!(
        html,
        "<main><div><a href=\"/home\">home</a>x<b>y</b>z</div></main>"
    );
    let nodes = runtime.surface.len();
    runtime.surface.take_patches();

    let mut second = page();
    apply(&mut runtime, root, &mut second, Some(first));

    assert!(runtime.surface.patches().is_empty());
    assert_eq!(runtime.surface.len(), nodes);
    assert_eq!(html_of(&runtime.surface, root), html);
}

#[test]
fn list_that_becomes_empty_keeps_its_place() {
    let mut runtime: Runtime<Plain> = Runtime::new(10);
    let root = runtime.surface.create_element("main");

    let mut first = list(vec![
        tag("a", vec![]),
        list(vec![tag("x", vec![])]),
        tag("b", vec![]),
    ]);
    apply(&mut runtime, root, &mut first, None);
    assert_eq!(
        html_of(&runtime.surface, root),
        "<main><a></a><x></x><b></b></main>"
    );
    let a = runtime.surface.children(root)[0];
    let b = runtime.surface.children(root)[2];

    let mut second = list(vec![tag("a", vec![]), list(vec![]), tag("b", vec![])]);
    apply(&mut runtime, root, &mut second, Some(first));

    let children = runtime.surface.children(root).clone();
    assert_eq!(children.len(), 3);
    assert_eq!(children[0], a);
    assert_eq!(children[2], b);
    assert!(runtime.surface.is_text(children[1]));
    assert_eq!(runtime.surface.text(children[1]), "");

    // The place is still there for what comes next.
    let mut third = list(vec![
        tag("a", vec![]),
        list(vec![tag("y", vec![]), tag("z", vec![])]),
        tag("b", vec![]),
    ]);
    apply(&mut runtime, root, &mut third, Some(second));
    assert_eq!(
        html_of(&runtime.surface, root),
        "<main><a></a><y></y><z></z><b></b></main>"
    );
    assert_eq!(runtime.surface.children(root)[0], a);
    assert_eq!(runtime.surface.children(root)[3], b);
}

#[test]
fn empty_list_without_siblings_shows_nothing() {
    let mut runtime: Runtime<Plain> = Runtime::new(10);
    let root = runtime.surface.create_element("main");
    let mut node: VNode<Plain> = VNode::VList(VList::new(true));
    let first = apply(&mut runtime, root, &mut node, None);
    assert_eq!(first, None);
    assert!(runtime.surface.children(root).is_empty());

    let mut node: VNode<Plain> = VNode::VList(VList::default());
    let first = apply(&mut runtime, root, &mut node, None);
    assert_eq!(first, Some(runtime.surface.children(root)[0]));
    assert_eq!(runtime.surface.children(root).len(), 1);
}

#[test]
fn a_different_tag_replaces_and_the_same_tag_is_kept() {
    let mut runtime: Runtime<Plain> = Runtime::new(10);
    let root = runtime.surface.create_element("main");
    let mut first = list(vec![tag("p", vec![text("one")]), tag("p", vec![text("two")])]);
    apply(&mut runtime, root, &mut first, None);
    let kept = runtime.surface.children(root)[1];
    let replaced = runtime.surface.children(root)[0];

    let mut second = list(vec![
        tag("h1", vec![text("one")]),
        tag("p", vec![text("three")]),
        text("tail"),
    ]);
    apply(&mut runtime, root, &mut second, Some(first));

    assert_eq!(
        html_of(&runtime.surface, root),
        "<main><h1>one</h1><p>three</p>tail</main>"
    );
    assert_eq!(runtime.surface.children(root)[1], kept);
    assert_ne!(runtime.surface.children(root)[0], replaced);
    assert_eq!(runtime.surface.parent(replaced), None);
}

#[test]
fn surplus_ancestors_are_detached() {
    let mut runtime: Runtime<Plain> = Runtime::new(10);
    let root = runtime.surface.create_element("main");
    let mut first = list(vec![text("a"), text("b"), text("c"), text("d")]);
    apply(&mut runtime, root, &mut first, None);
    let old = runtime.surface.children(root).clone();

    let mut second = list(vec![text("A")]);
    apply(&mut runtime, root, &mut second, Some(first));

    assert_eq!(runtime.surface.children(root), &vec![old[0]]);
    assert_eq!(runtime.surface.text(old[0]), "A");
    for node in &old[1..] {
        assert_eq!(runtime.surface.parent(*node), None);
    }
}

#[test]
fn an_outside_node_is_always_inserted_anew() {
    let mut runtime: Runtime<Plain> = Runtime::new(10);
    let root = runtime.surface.create_element("main");
    let canvas = runtime.surface.create_element("canvas");
    let mut first: VNode<Plain> = list(vec![text("a"), VNode::VRef(canvas), text("b")]);
    apply(&mut runtime, root, &mut first, None);
    assert_eq!(
        html_of(&runtime.surface, root),
        "<main>a<canvas></canvas>b</main>"
    );
    runtime.surface.take_patches();

    let mut second: VNode<Plain> = list(vec![text("a"), VNode::VRef(canvas), text("b")]);
    apply(&mut runtime, root, &mut second, Some(first));
    assert_eq!(
        html_of(&runtime.surface, root),
        "<main>a<canvas></canvas>b</main>"
    );
    let b = runtime.surface.children(root)[2];
    assert_eq!(
        runtime.surface.patches(),
        &vec![
            Patch::Remove {
                parent: root,
                node: canvas
            },
            Patch::InsertBefore {
                parent: root,
                node: canvas,
                next_sibling: Some(b)
            },
        ]
    );
}

#[test]
fn detach_returns_the_node_that_followed() {
    let mut runtime: Runtime<Plain> = Runtime::new(10);
    let root = runtime.surface.create_element("main");
    let mut first = list(vec![text("a")]);
    apply(&mut runtime, root, &mut first, None);
    let tail = runtime.surface.create_text("tail");
    assert!(runtime.surface.insert_before(root, tail, None));

    let next = first.detach(&mut runtime.surface, &mut runtime.scheduler, root);
    assert_eq!(next, Some(tail));
    assert_eq!(runtime.surface.children(root), &vec![tail]);
    assert_eq!(first.first(), None);
}

#[test]
fn a_component_of_another_type_replaces_and_the_same_type_is_kept() {
    let mut runtime: Runtime<Plain> = Runtime::new(100);
    let root = runtime.surface.create_element("main");
    let mut first: VNode<Plain> = VNode::VComp(VComp::new(1, Rc::new(()), None));
    apply(&mut runtime, root, &mut first, None);
    runtime.start();
    assert!(matches!(runtime.components[0], Slot::Live(_)));

    let mut second: VNode<Plain> = VNode::VComp(VComp::new(1, Rc::new(()), None));
    apply(&mut runtime, root, &mut second, Some(first));
    runtime.start();
    assert_eq!(runtime.components.len(), 1);
    assert!(matches!(runtime.components[0], Slot::Live(_)));

    let mut third: VNode<Plain> = VNode::VComp(VComp::new(2, Rc::new(()), None));
    apply(&mut runtime, root, &mut third, Some(second));
    runtime.start();
    assert_eq!(runtime.components.len(), 2);
    assert!(matches!(runtime.components[0], Slot::Destroyed));
    assert!(matches!(runtime.components[1], Slot::Live(_)));
    assert_eq!(runtime.surface.children(root).len(), 2);
}

fn waiting(runtime: &mut Runtime<Plain>) -> Vec<(usize, String)> {
    let mut out = Vec::new();
    while let Some(next) = runtime.scheduler.next_runnable() {
        let what = match next.task {
            ComponentTask::Create(task) => format!("create under {}", task.scope.get_parent().unwrap().get_id()),
            ComponentTask::Update(UpdateTask::First) => "first update".to_string(),
            ComponentTask::Update(UpdateTask::Properties(_, _)) => "properties".to_string(),
            ComponentTask::Update(_) => "message".to_string(),
            ComponentTask::Render(_) => "render".to_string(),
            ComponentTask::Rendered(_) => "rendered".to_string(),
            ComponentTask::Destroy => "destroy".to_string(),
        };
        out.push((next.scope, what));
    }
    out
}

#[test]
fn a_tree_submits_the_tasks_of_its_components() {
    let mut runtime: Runtime<Plain> = Runtime::new(100);
    let root = runtime.surface.create_element("main");
    let comp = |type_id: u64| -> VNode<Plain> { VNode::VComp(VComp::new(type_id, Rc::new(()), None)) };

    // Two new components: each is created and updated for the first time.
    let mut first = tag("div", vec![comp(1), text("between"), list(vec![comp(2)])]);
    apply(&mut runtime, root, &mut first, None);
    let mut tasks = waiting(&mut runtime);
    tasks.sort();
    assert_eq!(
        tasks,
        vec![
            (0, "create under 0".to_string()),
            (0, "first update".to_string()),
            (1, "create under 0".to_string()),
            (1, "first update".to_string()),
        ]
    );

    // One is kept and handed properties, one is told to end, one is new.
    let mut second = tag("div", vec![comp(1), comp(3), list(vec![text("plain")])]);
    apply(&mut runtime, root, &mut second, Some(first));
    let mut tasks = waiting(&mut runtime);
    tasks.sort();
    let kept = tasks.iter().find(|(_, what)| what == "properties").unwrap().0;
    let gone = tasks.iter().find(|(_, what)| what == "destroy").unwrap().0;
    assert_ne!(kept, gone);
    assert!(kept < 2 && gone < 2);
    assert_eq!(
        tasks,
        vec![
            (gone.min(kept), if gone < kept { "destroy" } else { "properties" }.to_string()),
            (gone.max(kept), if gone < kept { "properties" } else { "destroy" }.to_string()),
            (2, "create under 0".to_string()),
            (2, "first update".to_string()),
        ]
    );

    // Detaching the tree tells the components that it holds to end.
    second.detach(&mut runtime.surface, &mut runtime.scheduler, root);
    let mut tasks = waiting(&mut runtime);
    tasks.sort();
    assert_eq!(
        tasks,
        vec![(kept, "destroy".to_string()), (2, "destroy".to_string())]
    );
}

#[test]
fn an_element_is_given_its_attributes_and_listeners() {
    let mut runtime: Runtime<Plain> = Runtime::new(10);
    let root = runtime.surface.create_element("main");
    let mut button: VTag<Plain> = VTag::new("button");
    button.add_attribute("type", "submit");
    button.add_attribute("type", "button");
    button.add_attribute("name", "go");
    button.add_listener(yew::surface::Listener { kind: "click".to_string(), handler: 7 });
    button.add_listener(yew::surface::Listener { kind: "focus".to_string(), handler: 8 });
    let mut first = VNode::VTag(Box::new(button));
    let element = apply(&mut runtime, root, &mut first, None).unwrap();
    let shown: Vec<(String, String)> = runtime
        .surface
        .attributes(element)
        .iter()
        .map(|attribute| (attribute.name.clone(), attribute.value.clone()))
        .collect();
    assert_eq!(
        shown,
        vec![
            ("type".to_string(), "button".to_string()),
            ("name".to_string(), "go".to_string())
        ]
    );
    let heard: Vec<(String, u64)> = runtime
        .surface
        .listeners(element)
        .iter()
        .map(|listener| (listener.kind.clone(), listener.handler))
        .collect();
    assert_eq!(heard, vec![("click".to_string(), 7), ("focus".to_string(), 8)]);

    // The same tag keeps the element, and takes the new listeners.
    let mut button: VTag<Plain> = VTag::new("button");
    button.add_listener(yew::surface::Listener { kind: "blur".to_string(), handler: 9 });
    let mut second = VNode::VTag(Box::new(button));
    assert_eq!(apply(&mut runtime, root, &mut second, Some(first)), Some(element));
    assert!(runtime.surface.attributes(element).is_empty());
    assert_eq!(runtime.surface.listeners(element).len(), 1);
    assert_eq!(runtime.surface.listeners(element)[0].kind, "blur");
    assert_eq!(runtime.surface.listeners(element)[0].handler, 9);
}

fn show<T: yew::virtual_dom::VDiff<Plain>>(
    runtime: &mut Runtime<Plain>,
    parent: SurfaceHandle,
    node: &mut T,
) -> Option<SurfaceHandle> {
    node.apply(
        &mut runtime.surface,
        &mut runtime.scheduler,
        &Rc::new(AnyScope::root(0, 0)),
        parent,
        None,
        None,
    )
}

fn take_out<T: yew::virtual_dom::VDiff<Plain>>(
    runtime: &mut Runtime<Plain>,
    parent: SurfaceHandle,
    node: &mut T,
) -> Option<SurfaceHandle> {
    node.detach(&mut runtime.surface, &mut runtime.scheduler, parent)
}

#[test]
fn every_kind_of_node_is_shown_and_detached() {
    let mut runtime: Runtime<Plain> = Runtime::new(100);
    let root = runtime.surface.create_element("main");

    let mut vtext = VText::new("text".to_string());
    let shown = show(&mut runtime, root, &mut vtext).unwrap();
    assert_eq!(runtime.surface.text(shown), "text");

    let mut vtag: VTag<Plain> = VTag::new("p");
    vtag.add_child(text("inside"));
    let element = show(&mut runtime, root, &mut vtag).unwrap();
    assert_eq!(html_of(&runtime.surface, element), "<p>inside</p>");

    let mut vlist: VList<Plain> = VList::new(false);
    vlist.add_child(text("one"));
    vlist.add_child(text("two"));
    let first = show(&mut runtime, root, &mut vlist).unwrap();
    assert_eq!(runtime.surface.text(first), "one");

    let mut vcomp: VComp<Plain> = VComp::new(4, Rc::new(()), None);
    let fence = show(&mut runtime, root, &mut vcomp).unwrap();
    assert_eq!(vcomp.node_ref, Some(fence));
    assert!(vcomp.scope.is_some());

    let mut node = tag("i", vec![]);
    let last = show(&mut runtime, root, &mut node).unwrap();
    assert_eq!(runtime.surface.children(root).len(), 7);
    assert_eq!(runtime.surface.children(root)[6], last);

    assert_eq!(take_out(&mut runtime, root, &mut vlist), Some(fence));
    assert_eq!(take_out(&mut runtime, root, &mut vtext), Some(element));
    assert_eq!(take_out(&mut runtime, root, &mut vcomp), Some(last));
    assert!(vcomp.scope.is_none());
    assert_eq!(take_out(&mut runtime, root, &mut node), None);
    assert_eq!(take_out(&mut runtime, root, &mut vtag), None);
    assert!(runtime.surface.children(root).is_empty());
}

#[test]
fn a_component_that_says_nothing_ignores_messages_and_shows_new_properties() {
    let scope: yew::html::Scope<Plain> = yew::html::Scope::new(1, None, 0);
    let mut ctx = Context {
        link: yew::component::ComponentLink::new(&scope),
        props: &(),
    };
    let mut plain = Plain;
    assert!(!plain.update(&mut ctx, ()));
    assert!(ctx.link.sent.is_empty());
    assert!(plain.changed(&mut ctx, &()));
    assert!(ctx.link.sent.is_empty());
    plain.rendered(&mut ctx, true);
    plain.destroy(&mut ctx);
    assert!(ctx.link.sent.is_empty());
}

#[test]
fn detaching_an_element_or_a_component_returns_what_followed() {
    let mut runtime: Runtime<Plain> = Runtime::new(100);
    let root = runtime.surface.create_element("main");
    let mut element = tag("p", vec![text("inside")]);
    let mut component: VNode<Plain> = VNode::VComp(VComp::new(3, Rc::new(()), None));
    let mut last = text("last");
    let last_node = apply(&mut runtime, root, &mut last, None).unwrap();
    let first_fence = component
        .apply(
            &mut runtime.surface,
            &mut runtime.scheduler,
            &Rc::new(AnyScope::root(0, 0)),
            root,
            Some(last_node),
            None,
        )
        .unwrap();
    let element_node = element
        .apply(
            &mut runtime.surface,
            &mut runtime.scheduler,
            &Rc::new(AnyScope::root(0, 0)),
            root,
            Some(first_fence),
            None,
        )
        .unwrap();
    assert_eq!(runtime.surface.children(root)[0], element_node);
    assert_eq!(runtime.surface.children(root).len(), 4);

    assert_eq!(
        element.detach(&mut runtime.surface, &mut runtime.scheduler, root),
        Some(first_fence)
    );
    assert_eq!(
        component.detach(&mut runtime.surface, &mut runtime.scheduler, root),
        Some(last_node)
    );
    assert_eq!(last.detach(&mut runtime.surface, &mut runtime.scheduler, root), None);
    assert!(runtime.surface.children(root).is_empty());
}

#[test]
fn a_node_of_another_kind_gets_new_nodes_at_the_same_place() {
    let mut runtime: Runtime<Plain> = Runtime::new(100);
    let root = runtime.surface.create_element("main");
    let mut first = list(vec![text("a"), tag("p", vec![]), text("c")]);
    apply(&mut runtime, root, &mut first, None);
    let before = runtime.surface.children(root).clone();
    let made = runtime.surface.len();

    let mut second = list(vec![text("a"), text("b"), text("c")]);
    apply(&mut runtime, root, &mut second, Some(first));
    let after = runtime.surface.children(root).clone();
    assert_eq!(after.len(), 3);
    assert_eq!(after[0], before[0]);
    assert_eq!(after[2], before[2]);
    // The node in the middle was made for the text: it is no node that was there.
    assert_eq!(after[1], made);
    assert!(runtime.surface.parent(before[1]).is_none());
    assert_eq!(runtime.surface.text(after[1]), "b");
}

struct Rogue;

impl Component for Rogue {
    type Message = u8;
    type Properties = ();

    fn create(_ctx: &mut Context<'_, Self>) -> Self {
        Rogue
    }

    fn update(&mut self, ctx: &mut Context<'_, Self>, msg: u8) -> ShouldRender {
        if msg == 0 {
            // Tasks that are no updates, slipped in between two messages.
            ctx.link.sent.push(ComponentRunnable {
                scope: 0,
                task: ComponentTask::Destroy,
            });
            ctx.link.send_message(1);
            ctx.link.sent.push(ComponentRunnable {
                scope: 0,
                task: ComponentTask::Render(false),
            });
            ctx.link.send_message(2);
        }
        false
    }

    fn view(&self, _ctx: &mut Context<'_, Self>) -> Html<Self> {
        VNode::VList(VList::new(true))
    }
}

#[test]
fn nothing_but_updates_is_taken_from_a_component() {
    let mut runtime: Runtime<Rogue> = Runtime::new(100);
    let root = runtime.surface.create_element("main");
    let mut scope = App::new(1).mount(&mut runtime, root);
    scope.send_message(&mut runtime.scheduler, 0);
    assert_eq!(runtime.step().is_some(), true);
    let mut waiting = Vec::new();
    while let Some(next) = runtime.scheduler.next_runnable() {
        match next.task {
            ComponentTask::Update(UpdateTask::Message(msg)) => waiting.push(msg),
            _ => panic!("only the two messages were to be submitted"),
        }
    }
    assert_eq!(waiting, vec![1, 2]);
    assert!(matches!(runtime.components[0], Slot::Live(_)));
}

#[test]
fn new_properties_bring_the_anchor_of_the_component() {
    let mut runtime: Runtime<Plain> = Runtime::new(100);
    let root = runtime.surface.create_element("main");
    let anchor = runtime.surface.create_text("anchor");
    App::new(1).mount(&mut runtime, root);
    let props = Rc::new(());
    runtime.scheduler.push(ComponentRunnable {
        scope: 0,
        task: ComponentTask::Update(UpdateTask::Properties(props.clone(), Some(anchor))),
    });
    assert!(matches!(
        runtime.step(),
        Some(Outcome::Updated { should_render: false, .. })
    ));
    match &runtime.components[0] {
        Slot::Live(state) => {
            assert_eq!(state.next_sibling, Some(anchor));
            assert!(Rc::ptr_eq(&state.props, &props));
        }
        _ => panic!("the component lives"),
    }
}
