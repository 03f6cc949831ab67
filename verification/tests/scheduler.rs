use std::rc::Rc;
use yew::callback::Callback;
use yew::component::{
    AnyLink, Component, ComponentLink, Context, MessageHandler, Renderable, Runtime,
    SendAsMessage, ShouldRender,
};
use yew::component::lifecycle::should_render_after;
use yew::html::{
    AnyScope, EmptyBuilder, Href, Html, IntoOptPropValue, IntoPropValue, Properties, Scope,
};
use yew::html::conversion::ImplicitClone;
use yew::scheduler::{
    ComponentRunnable, ComponentRunnableType, ComponentTask, CreateTask, Scheduler, UpdateTask,
};
use yew::virtual_dom::{Key, Transformer, VChild, VComp, VList, VNode, VText};
use yew::app::App;

#[derive(Default)]
struct Model {
    seen: Vec<u32>,
}

impl Component for Model {
    type Message = u32;
    type Properties = ();

    fn create(_ctx: &mut Context<'_, Self>) -> Self {
        Model::default()
    }

    fn update(&mut self, _ctx: &mut Context<'_, Self>, msg: u32) -> ShouldRender {
        self.seen.push(msg);
        false
    }

    fn view(&self, _ctx: &mut Context<'_, Self>) -> Html<Self> {
        VNode::VText(VText::new(format!("{:?}", self.seen)))
    }
}

impl MessageHandler<&'static str> for Model {
    fn handle(&mut self, _ctx: &mut Context<'_, Self>, msg: &'static str) -> ShouldRender {
        self.seen.push(msg.len() as u32);
        true
    }
}

fn task(scope: usize, task: ComponentTask<Model>) -> ComponentRunnable<Model> {
    ComponentRunnable { scope, task }
}

fn kinds(scheduler: &mut Scheduler<Model>) -> Vec<(usize, ComponentRunnableType)> {
    let mut out = Vec::new();
    while let Some(next) = scheduler.next_runnable() {
        out.push((next.scope, next.task.run_type()));
    }
    out
}

#[test]
fn tasks_run_by_category_and_age() {
    let mut scheduler: Scheduler<Model> = Scheduler::new();
    assert!(scheduler.is_idle());
    assert!(scheduler.next_runnable().is_none());
    let scope: Scope<Model> = Scope::new(1, None, 0);
    scheduler.push(task(1, ComponentTask::Rendered(true)));
    scheduler.push(task(2, ComponentTask::Rendered(false)));
    scheduler.push(task(3, ComponentTask::Render(true)));
    scheduler.push(task(4, ComponentTask::Update(UpdateTask::Message(1))));
    scheduler.push(task(5, ComponentTask::Update(UpdateTask::First)));
    scheduler.push(task(
        6,
        ComponentTask::Create(CreateTask {
            parent: 0,
            next_sibling: None,
            props: Rc::new(()),
            scope,
        }),
    ));
    scheduler.push(task(7, ComponentTask::Destroy));
    scheduler.push(task(8, ComponentTask::Render(false)));
    scheduler.push(task(9, ComponentTask::Destroy));
    assert!(!scheduler.is_idle());

    assert_eq!(
        kinds(&mut scheduler),
        vec![
            (7, ComponentRunnableType::Destroy),
            (9, ComponentRunnableType::Destroy),
            (6, ComponentRunnableType::Create),
            (4, ComponentRunnableType::Update),
            (5, ComponentRunnableType::Update),
            (3, ComponentRunnableType::Render),
            (8, ComponentRunnableType::Render),
            // Those that report a render run youngest first.
            (2, ComponentRunnableType::Rendered),
            (1, ComponentRunnableType::Rendered),
        ]
    );
    assert!(scheduler.is_idle());
}

#[test]
fn batch_keeps_its_order() {
    let mut scheduler: Scheduler<Model> = Scheduler::new();
    scheduler.push(task(0, ComponentTask::Update(UpdateTask::Message(0))));
    scheduler.push_batch(vec![
        task(1, ComponentTask::Update(UpdateTask::Message(1))),
        task(2, ComponentTask::Destroy),
        task(3, ComponentTask::Update(UpdateTask::Message(3))),
    ]);
    scheduler.push_batch(vec![]);
    let order: Vec<usize> = kinds(&mut scheduler).into_iter().map(|(s, _)| s).collect();
    assert_eq!(order, vec![2, 0, 1, 3]);
}

#[test]
fn scopes_are_given_out_in_turn() {
    let mut scheduler: Scheduler<Model> = Scheduler::new();
    assert_eq!(scheduler.scopes(), 0);
    assert_eq!(scheduler.new_scope(), Some(0));
    assert_eq!(scheduler.new_scope(), Some(1));
    assert_eq!(scheduler.scopes(), 2);
}

#[test]
fn mounting_submits_create_and_first_update() {
    let mut scheduler: Scheduler<Model> = Scheduler::new();
    let scope: Scope<Model> = Scope::new(5, None, 3);
    scheduler.push(task(9, ComponentTask::Update(UpdateTask::Message(0))));
    let scope = scope.mount_in_place(&mut scheduler, 0, None, Rc::new(()));
    assert!(!scheduler.is_locked());
    assert_eq!(*scope.get_type_id(), 5);
    assert_eq!(scope.get_id(), 3);
    assert!(scope.get_parent().is_none());
    assert_eq!(
        kinds(&mut scheduler),
        vec![(3, ComponentRunnableType::Create), (9, ComponentRunnableType::Update), (3, ComponentRunnableType::Update)]
    );
}

#[test]
fn any_is_true_if_one_is() {
    assert!(!should_render_after(&vec![]));
    assert!(!should_render_after(&vec![false, false]));
    assert!(should_render_after(&vec![false, true, false]));
    assert!(should_render_after(&vec![true]));
}

#[test]
fn callbacks_send_what_the_function_returns() {
    let mut runtime: Runtime<Model> = Runtime::new(100);
    let root = runtime.surface.create_element("main");
    let scope = App::new(1).mount(&mut runtime, root);

    let double = scope.callback(|input: u32| input * 2);
    double.emit(&mut runtime.scheduler, 4);
    double.emit(&mut runtime.scheduler, 5);
    let once = scope.callback(|input: u32| input + 1);
    once.emit_once(&mut runtime.scheduler, 1);
    let many: Callback<Model, _> = Callback::new(scope.get_id(), |input: u32| vec![input, input]);
    many.emit_batch(&mut runtime.scheduler, 7);
    let none = scope.callback(|_: ()| Vec::<u32>::new());
    none.emit_batch(&mut runtime.scheduler, ());
    // Nothing runs while the messages are sent.
    assert!(scope.get_component(&runtime).unwrap().seen.is_empty());
    assert_eq!(runtime.start(), 4);
    assert_eq!(
        scope.get_component(&runtime).unwrap().seen,
        vec![8, 10, 2, 7, 7]
    );

    // A callback may outlive its component.
    let mut scope = scope;
    scope.destroy(&mut runtime.scheduler);
    runtime.start();
    double.emit(&mut runtime.scheduler, 1);
    assert_eq!(runtime.start(), 1);
    assert!(scope.get_component(&runtime).is_none());
}

#[test]
fn batch_callbacks_send_one_message_or_none_or_a_batch() {
    let mut runtime: Runtime<Model> = Runtime::new(100);
    let root = runtime.surface.create_element("main");
    let scope = App::new(1).mount(&mut runtime, root);
    runtime.start();
    let link = ComponentLink::new(&scope);

    let even = link.batch_callback(|input: u32| if input % 2 == 0 { Some(input) } else { None });
    even.emit_batch(&mut runtime.scheduler, 3);
    assert!(runtime.scheduler.is_idle());
    even.emit_batch(&mut runtime.scheduler, 4);
    assert_eq!(
        kinds(&mut runtime.scheduler),
        vec![(scope.get_id(), ComponentRunnableType::Update)]
    );
    even.emit_batch(&mut runtime.scheduler, 6);

    let twice = link.batch_callback(|input: u32| vec![input, input + 1]);
    twice.emit_batch(&mut runtime.scheduler, 10);
    let moved = vec![20u32, 21];
    let once = link.batch_callback_once(move |_: ()| moved);
    once.emit_batch_once(&mut runtime.scheduler, ());
    let last = link.callback_once(|input: u32| input);
    last.emit_once(&mut runtime.scheduler, 30);
    let other = scope.batch_callback(|input: u32| vec![input]);
    other.emit_batch(&mut runtime.scheduler, 40);
    let gone = scope.callback_once(|input: u32| input);
    gone.emit_once(&mut runtime.scheduler, 50);

    // A batch is one task, whatever it holds.
    assert_eq!(runtime.start(), 6);
    assert_eq!(
        scope.get_component(&runtime).unwrap().seen,
        vec![6, 10, 11, 20, 21, 30, 40, 50]
    );
}

#[test]
fn a_link_sends_to_its_own_component() {
    let mut runtime: Runtime<Model> = Runtime::new(100);
    let root = runtime.surface.create_element("main");
    let scope = App::new(1).mount(&mut runtime, root);
    let mut link = ComponentLink::new(&scope);
    link.send_self(1);
    link.send_self_batch(vec![2, 3]);
    link.send_self_batch(vec![]);
    assert_eq!(link.sent.len(), 2);
    let back = link.send_back(|input: u32| input + 10);
    let batch = link.send_back_batch(|input: u32| vec![input + 20, input + 30]);
    runtime.scheduler.push_batch(link.sent);
    back.emit(&mut runtime.scheduler, 4);
    batch.emit_batch(&mut runtime.scheduler, 5);
    assert_eq!(runtime.start(), 4);
    assert_eq!(
        scope.get_component(&runtime).unwrap().seen,
        vec![1, 2, 3, 14, 25, 35]
    );
}

#[test]
fn links_collect_what_is_sent() {
    let scope: Scope<Model> = Scope::new(
        2,
        Some(Rc::new(AnyScope::root(1, 0))),
        4,
    );
    assert_eq!(scope.to_any().get_id(), 4);
    assert_eq!(*scope.clone().get_parent().unwrap().get_type_id(), 1);
    let mut link = ComponentLink::new(&scope);
    assert_eq!(link.get_parent().unwrap().get_id(), 0);
    assert_eq!(*link.to_any().get_type_id(), 2);
    link.send_message(1);
    link.send_message_batch(vec![]);
    link.send_message_batch(vec![2, 3]);
    let parent: AnyLink = link.get_parent().unwrap().clone();
    link.send_to(&parent, 4);
    Some(5).send(&mut link);
    None::<u32>.send(&mut link);
    vec![6, 7].send(&mut link);
    Vec::<u32>::new().send(&mut link);
    let callback = link.callback(|input: u32| input);
    assert_eq!(callback.target, 4);

    let sent: Vec<(usize, Vec<u32>)> = link
        .sent
        .iter()
        .map(|task| {
            (
                task.scope,
                match &task.task {
                    ComponentTask::Update(UpdateTask::Message(m)) => vec![*m],
                    ComponentTask::Update(UpdateTask::MessageBatch(ms)) => ms.clone(),
                    _ => panic!("links send updates"),
                },
            )
        })
        .collect();
    assert_eq!(
        sent,
        vec![
            (4, vec![1]),
            (4, vec![2, 3]),
            (0, vec![4]),
            (4, vec![5]),
            (4, vec![6, 7])
        ]
    );
    let fresh = link.fresh();
    assert!(fresh.sent.is_empty());
    assert_eq!(fresh.id, 4);
}

#[test]
fn scopes_downcast_where_the_type_is_the_one_asked_for() {
    let any = AnyScope::root(3, 8);
    let scope: Scope<Model> = any.clone().downcast(3);
    assert_eq!(scope.get_id(), 8);
    assert_eq!(*scope.get_type_id(), 3);
    assert_eq!(any.get_id(), 8);
    assert!(any.get_parent().is_none());
    let link = AnyLink::from_scope(&AnyScope {
        type_id: 9,
        parent: Some(Rc::new(any)),
        id: 11,
    });
    assert_eq!(link.get_id(), 11);
    assert_eq!(*link.get_type_id(), 9);
    assert_eq!(link.get_parent().unwrap().get_id(), 8);
    assert!(link.find(3).is_some());
    assert!(link.find(4).is_none());
}

#[test]
fn renderable_is_the_view() {
    let mut runtime: Runtime<Model> = Runtime::new(100);
    let root = runtime.surface.create_element("main");
    let scope = App::new(1).mount(&mut runtime, root);
    let mut ctx = Context {
        link: ComponentLink::new(&scope),
        props: &(),
    };
    let model = Model { seen: vec![1] };
    match model.render(&mut ctx) {
        VNode::VText(text) => assert_eq!(text.text, "[1]"),
        _ => panic!("the model shows a text"),
    }
    let mut model = model;
    assert!(model.handle(&mut ctx, "four"));
    assert_eq!(model.seen, vec![1, 4]);
}

#[test]
fn small_things_of_html() {
    <() as Properties>::builder().build();
    let _builder: EmptyBuilder = <() as Properties>::builder();

    assert_eq!(Href::new("a/b".to_string()).to_string(), "a/b");
    assert_eq!(Href::from_str("/c").to_string(), "/c");

    let same: u8 = 3u8.into_prop_value();
    assert_eq!(same, 3);
    let some: Option<u8> = 3u8.into_prop_value();
    assert_eq!(some, Some(3));
    let opt: Option<u8> = 4u8.into_opt_prop_value();
    assert_eq!(opt, Some(4));
    let none: Option<u8> = None::<u8>.into_opt_prop_value();
    assert_eq!(none, None);

    assert_eq!("text".to_string().implicit_clone(), "text");
    assert_eq!(Key::new("k").implicit_clone().key, "k");
    assert_eq!(AnyScope::root(1, 2).implicit_clone().get_id(), 2);
}

#[test]
fn borrowed_values_are_cloned_for_a_property() {
    let text = "text".to_string();
    let cloned: String = (&text).into_prop_value();
    assert_eq!(cloned, "text");
    let some: Option<String> = (&text).into_prop_value();
    assert_eq!(some, Some("text".to_string()));
    let opt: Option<String> = (&text).into_opt_prop_value();
    assert_eq!(opt, Some("text".to_string()));
    let owned: String = "literal".into_prop_value();
    assert_eq!(owned, "literal");
    let opt: Option<String> = "literal".into_opt_prop_value();
    assert_eq!(opt, Some("literal".to_string()));

    let shared = Rc::new(5u8);
    let other = shared.implicit_clone();
    assert!(Rc::ptr_eq(&shared, &other));
    assert_eq!(Some("a".to_string()).implicit_clone(), Some("a".to_string()));
    assert_eq!(None::<String>.implicit_clone(), None);
    let scope: Scope<Model> = Scope::new(4, None, 9);
    assert_eq!(scope.implicit_clone().get_id(), 9);
}

#[test]
fn values_are_transformed_for_a_property() {
    let same: u8 = <VComp<Model> as Transformer<u8, u8>>::transform(3);
    assert_eq!(same, 3);
    let from_ref: u8 = <VComp<Model> as Transformer<&u8, u8>>::transform(&4);
    assert_eq!(from_ref, 4);
    let owned: String = <VComp<Model> as Transformer<&str, String>>::transform("abc");
    assert_eq!(owned, "abc");
    let some: Option<u8> = <VComp<Model> as Transformer<u8, Option<u8>>>::transform(5);
    assert_eq!(some, Some(5));
    let some: Option<u8> = <VComp<Model> as Transformer<&u8, Option<u8>>>::transform(&6);
    assert_eq!(some, Some(6));
    let some: Option<String> = <VComp<Model> as Transformer<&str, Option<String>>>::transform("d");
    assert_eq!(some, Some("d".to_string()));
    let some: Option<String> =
        <VComp<Model> as Transformer<Option<&str>, Option<String>>>::transform(Some("e"));
    assert_eq!(some, Some("e".to_string()));
    let none: Option<String> =
        <VComp<Model> as Transformer<Option<&str>, Option<String>>>::transform(None);
    assert_eq!(none, None);
}

#[test]
fn typed_handles_turn_into_untyped_ones() {
    let parent = Rc::new(AnyScope::root(1, 0));
    let scope: Scope<Model> = Scope::new(2, Some(parent), 5);
    let link = ComponentLink::new(&scope);
    let any = AnyScope::from(scope);
    assert_eq!(*any.get_type_id(), 2);
    assert_eq!(any.get_id(), 5);
    assert_eq!(any.get_parent().unwrap().get_id(), 0);
    let any = AnyLink::from(link);
    assert_eq!(*any.get_type_id(), 2);
    assert_eq!(any.get_id(), 5);
    assert_eq!(any.get_parent().unwrap().get_id(), 0);

    let update: ComponentTask<Model> = UpdateTask::Message(3).into();
    assert_eq!(update.run_type(), ComponentRunnableType::Update);
    match update {
        ComponentTask::Update(UpdateTask::Message(3)) => {}
        _ => panic!("the update was expected"),
    }
    let scope: Scope<Model> = Scope::new(2, None, 6);
    let create = ComponentTask::from(CreateTask {
        parent: 4,
        next_sibling: Some(1),
        props: Rc::new(()),
        scope,
    });
    match create {
        ComponentTask::Create(task) => {
            assert_eq!(task.parent, 4);
            assert_eq!(task.next_sibling, Some(1));
            assert_eq!(task.scope.get_id(), 6);
        }
        _ => panic!("the first task was expected"),
    }
}

#[test]
fn child_becomes_a_virtual_component() {
    let child: VChild<Model> = VChild::new(7, (), Some(Key::new("k")));
    let vcomp = child.into_vcomp();
    assert_eq!(vcomp.type_id, 7);
    assert_eq!(vcomp.key.as_ref().unwrap().key, "k");
    assert!(vcomp.scope.is_none());
    assert!(vcomp.node_ref.is_none());
    let node = VNode::VComp(vcomp);
    assert_eq!(node.key().unwrap().key, "k");
    assert!(VNode::<Model>::VList(VList::default()).key().is_none());
    assert!(node.first().is_none());
}
