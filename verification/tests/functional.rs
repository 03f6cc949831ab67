use std::cell::RefCell;
use std::rc::Rc;
use yew::app::App;
use yew::component::{AnyLink, Component, ComponentLink, Context, Runtime};
use yew::functional::{
    get_current_scope, use_context, use_effect, use_effect_with_deps, use_hook, use_reducer,
    use_reducer_with_init, use_ref, use_state, ContextProvider, HookState, HookUpdater, MsgQueue,
    UseEffect, UseEffectDeps,
};
use yew::html::{AnyScope, Html, Properties};
use yew::scheduler::ComponentTask;
use yew::virtual_dom::{VComp, VList, VNode};

type Hooks = HookState<i32, &'static str>;

fn hooks() -> Hooks {
    HookState::new(AnyScope::root(7, 3))
}

#[test]
fn queue_hands_out_in_order_and_empties() {
    let mut queue: MsgQueue<u8> = MsgQueue::new();
    queue.push(1);
    queue.push(2);
    queue.push(3);
    assert_eq!(queue.drain(), vec![1, 2, 3]);
    assert_eq!(queue.drain(), Vec::<u8>::new());
}

#[test]
fn hooks_are_found_again_by_their_order() {
    let mut state = hooks();
    let first = use_hook(&mut state, || 10);
    let second = use_hook(&mut state, || 20);
    assert_eq!((first.hook, second.hook), (0, 1));
    assert_eq!(state.hooks, vec![10, 20]);

    state.reset();
    assert_eq!(state.counter, 0);
    let first = use_hook(&mut state, || 99);
    let second = use_hook(&mut state, || 99);
    let third = use_hook(&mut state, || 30);
    assert_eq!((first.hook, second.hook, third.hook), (0, 1, 2));
    assert_eq!(state.hooks, vec![10, 20, 30]);
    assert_eq!(*state.value(&second), 20);
    assert_eq!(state.counter, 3);
}

#[test]
fn use_state_works() {
    // Each render counts up until five is reached.
    let mut state = hooks();
    let mut renders = 0;
    loop {
        state.reset();
        let counter = use_state(&mut state, || 0);
        renders += 1;
        let current = *state.value(&counter.updater);
        if current < 5 {
            assert!(counter.set(&mut state, current + 1));
        } else {
            break;
        }
    }
    assert_eq!(state.hooks, vec![5]);
    assert_eq!(renders, 6);
}

#[test]
fn use_ref_works() {
    let mut state = hooks();
    for _ in 0..5 {
        state.reset();
        let reference = use_ref(&mut state, || 0);
        let current = *state.value(&reference.updater);
        reference.set(&mut state, current + 1);
    }
    assert!(state.hooks[0] > 4);
}

#[test]
fn use_reducer_works() {
    let mut state = hooks();
    let reducer = use_reducer_with_init(
        &mut state,
        |prev: &i32, action: i32| prev + action,
        0,
        |initial: i32| initial + 10,
    );
    assert_eq!(state.hooks, vec![10]);
    assert!(reducer.dispatch(&mut state, 1));
    assert_eq!(state.hooks, vec![11]);

    state.reset();
    let again = use_reducer_with_init(
        &mut state,
        |prev: &i32, action: i32| prev + action,
        0,
        |initial: i32| initial + 1000,
    );
    assert_eq!(again.updater, reducer.updater);
    assert_eq!(state.hooks, vec![11]);

    let plain = use_reducer(&mut state, |prev: &i32, action: i32| prev * action, 3);
    assert!(plain.dispatch(&mut state, 4));
    assert_eq!(state.hooks, vec![11, 12]);
}

#[test]
fn handles_of_hooks_that_are_not_there_do_nothing() {
    let mut state = hooks();
    let handle = use_state(&mut state, || 1);
    let mut other = hooks();
    assert!(!handle.set(&mut other, 5));
    assert!(other.hooks.is_empty());
    let updater = HookUpdater { hook: 4 };
    assert!(!updater.callback(&mut state, |v: &i32| (v + 1, true)));
    assert_eq!(state.hooks, vec![1]);
}

#[test]
fn callback_changes_the_hook_and_post_render_waits() {
    let mut state = hooks();
    let hook = use_hook(&mut state, || 1);
    assert!(hook.callback(&mut state, |v: &i32| (v + 41, true)));
    assert!(!hook.callback(&mut state, |v: &i32| (v * 2, false)));
    assert_eq!(state.hooks, vec![84]);

    hook.post_render(&mut state, "first");
    hook.post_render(&mut state, "second");
    assert_eq!(state.hooks, vec![84]);
    assert_eq!(state.after_render(), vec!["first", "second"]);
    assert!(state.after_render().is_empty());
}

#[test]
fn current_scope_is_that_of_the_hooks() {
    let state = hooks();
    let scope = get_current_scope(&Some(state)).unwrap();
    assert_eq!(*scope.get_type_id(), 7);
    assert_eq!(scope.get_id(), 3);
    assert!(scope.get_parent().is_none());
    assert!(get_current_scope::<i32, ()>(&None).is_none());
}

#[test]
fn use_effect_works() {
    let log: Rc<RefCell<Vec<String>>> = Rc::default();
    let mut hook = UseEffect::new();
    for run in 0..3 {
        let effect_log = log.clone();
        use_effect(&mut hook, move || {
            effect_log.borrow_mut().push(format!("effect {}", run));
            let destructor_log = effect_log.clone();
            move || destructor_log.borrow_mut().push(format!("destructor {}", run))
        });
    }
    hook.tear_down();
    hook.tear_down();
    assert_eq!(
        &log.borrow()[..],
        &[
            "effect 0",
            "destructor 0",
            "effect 1",
            "destructor 1",
            "effect 2",
            "destructor 2"
        ]
    );
}

#[test]
fn use_effect_with_deps_runs_when_the_deps_change() {
    let log: Rc<RefCell<Vec<String>>> = Rc::default();
    let mut hook = UseEffectDeps {
        destructor: None,
        deps: 1,
    };
    for deps in [1, 1, 2, 2, 1] {
        let effect_log = log.clone();
        use_effect_with_deps(
            &mut hook,
            move |deps: &i32| {
                let deps = *deps;
                effect_log.borrow_mut().push(format!("effect {}", deps));
                let destructor_log = effect_log.clone();
                move || destructor_log.borrow_mut().push(format!("destructor {}", deps))
            },
            deps,
        );
    }
    assert_eq!(
        &log.borrow()[..],
        &[
            "effect 1",
            "destructor 1",
            "effect 2",
            "destructor 2",
            "effect 1"
        ]
    );
    assert_eq!(hook.deps, 1);
}

// A tree of components of three types, for contexts.

const THEME: u64 = 100;
const PANEL: u64 = 200;
const BUTTON: u64 = 300;

#[derive(Clone, PartialEq)]
struct Props {
    type_id: u64,
    name: &'static str,
}

impl Properties for Props {
    type Builder = ();

    fn builder() -> Self::Builder {}
}

struct Model {
    type_id: u64,
    heard: Rc<RefCell<Vec<String>>>,
}


impl Component for Model {
    type Message = String;
    type Properties = Props;

    fn create(ctx: &mut Context<'_, Self>) -> Self {
        Model {
            type_id: ctx.props.type_id,
            heard: Rc::default(),
        }
    }

    fn update(&mut self, _ctx: &mut Context<'_, Self>, msg: String) -> bool {
        self.heard.borrow_mut().push(msg);
        false
    }

    fn view(&self, _ctx: &mut Context<'_, Self>) -> Html<Self> {
        let child = match self.type_id {
            THEME => Some((PANEL, "panel")),
            PANEL => Some((BUTTON, "button")),
            _ => None,
        };
        match child {
            Some((type_id, name)) => {
                VNode::VComp(VComp::new(type_id, Rc::new(Props { type_id, name }), None))
            }
            None => VNode::VList(VList::new(true)),
        }
    }
}

fn tree() -> Runtime<Model> {
    let mut runtime: Runtime<Model> = Runtime::new(1000);
    let root = runtime.surface.create_element("main");
    App::new(THEME).mount_with_props(
        &mut runtime,
        root,
        Props {
            type_id: THEME,
            name: "theme",
        },
    );
    assert_eq!(runtime.components.len(), 3);
    runtime
}

fn link_of(runtime: &Runtime<Model>, id: usize) -> AnyLink {
    match &runtime.components[id] {
        yew::component::Slot::Live(state) => state.link.to_any(),
        _ => panic!("the component does not live"),
    }
}

#[test]
fn use_context_finds_the_nearest_provider() {
    let runtime = tree();
    let button = link_of(&runtime, 2);
    assert_eq!(*button.get_type_id(), BUTTON);
    assert_eq!(*button.get_parent().unwrap().get_type_id(), PANEL);
    assert_eq!(
        *button.get_parent().unwrap().get_parent().unwrap().get_type_id(),
        THEME
    );
    assert!(button
        .get_parent()
        .unwrap()
        .get_parent()
        .unwrap()
        .get_parent()
        .is_none());

    let subscribe = |consumer: usize| format!("subscribe {}", consumer);
    let mut consumer: ComponentLink<Model> = button.clone().downcast(BUTTON);
    assert_eq!(use_context(&runtime, &mut consumer, THEME, subscribe).unwrap().name, "theme");
    assert_eq!(use_context(&runtime, &mut consumer, PANEL, subscribe).unwrap().name, "panel");
    assert_eq!(use_context(&runtime, &mut consumer, BUTTON, subscribe).unwrap().name, "button");
    assert!(use_context(&runtime, &mut consumer, 999, subscribe).is_none());
    // Each provider that was found was sent the subscription of the consumer.
    let told: Vec<(usize, String)> = consumer
        .sent
        .iter()
        .map(|task| match &task.task {
            ComponentTask::Update(yew::scheduler::UpdateTask::Message(msg)) => {
                (task.scope, msg.clone())
            }
            _ => panic!("a message was expected"),
        })
        .collect();
    assert_eq!(
        told,
        vec![
            (0, "subscribe 2".to_string()),
            (1, "subscribe 2".to_string()),
            (2, "subscribe 2".to_string()),
        ]
    );

    let mut panel: ComponentLink<Model> = link_of(&runtime, 1).downcast(PANEL);
    assert!(use_context(&runtime, &mut panel, BUTTON, subscribe).is_none());
    assert!(panel.sent.is_empty());
    assert_eq!(button.find(THEME).unwrap().get_id(), 0);
}

#[test]
fn a_provider_that_is_gone_is_still_sent_the_subscription() {
    let mut runtime = tree();
    let mut consumer: ComponentLink<Model> = link_of(&runtime, 2).downcast(BUTTON);
    runtime.scheduler.push(yew::scheduler::ComponentRunnable {
        scope: 0,
        task: ComponentTask::Destroy,
    });
    runtime.start();
    assert!(use_context(&runtime, &mut consumer, THEME, |_| "late".to_string()).is_none());
    assert_eq!(consumer.sent.len(), 1);
    assert_eq!(consumer.sent[0].scope, 0);
}

#[test]
fn downcast_keeps_the_link() {
    let runtime = tree();
    let button = link_of(&runtime, 2);
    let parent = button.get_parent().unwrap().clone();
    let typed: ComponentLink<Model> = parent.downcast(PANEL);
    assert_eq!(typed.id, 1);
    assert_eq!(typed.type_id, PANEL);
    assert_eq!(*typed.get_parent().unwrap().get_type_id(), THEME);
    assert_eq!(typed.get_props(&runtime).unwrap().name, "panel");
    assert_eq!(typed.get_component(&runtime).unwrap().type_id, PANEL);
}

#[test]
fn provider_tells_the_consumers_that_live() {
    let mut runtime = tree();
    let mut provider = ContextProvider::new();
    provider.subscribe_consumer(&runtime, 1);
    provider.subscribe_consumer(&runtime, 2);
    provider.subscribe_consumer(&runtime, 17);

    // The consumer that never lived gives its place to the next one.
    provider.subscribe_consumer(&runtime, 0);

    let mut link: ComponentLink<Model> = link_of(&runtime, 0).downcast(THEME);
    provider.notify_consumers(&runtime, &mut link, || "dark".to_string());
    let targets: Vec<usize> = link.sent.iter().map(|task| task.scope).collect();
    assert_eq!(targets, vec![1, 2, 0]);
    assert!(link
        .sent
        .iter()
        .all(|task| matches!(&task.task, ComponentTask::Update(_))));

    runtime.scheduler.push_batch(link.sent);
    runtime.start();
    for id in 0..3 {
        assert_eq!(
            &runtime.get_component(id).unwrap().heard.borrow()[..],
            &["dark".to_string()]
        );
    }
}

#[test]
fn provider_tells_of_another_context_only() {
    let runtime = tree();
    let mut provider = ContextProvider::new();
    provider.subscribe_consumer(&runtime, 2);
    provider.subscribe_consumer(&runtime, 1);
    let mut link: ComponentLink<Model> = link_of(&runtime, 0).downcast(THEME);
    let light = yew::functional::ContextProviderProps { context: Rc::new("light".to_string()) };
    let same = yew::functional::ContextProviderProps { context: Rc::new("light".to_string()) };
    let dark = yew::functional::ContextProviderProps { context: Rc::new("dark".to_string()) };

    assert!(provider.changed(&runtime, &mut link, &light, &same, || "told".to_string()));
    assert!(link.sent.is_empty());

    assert!(provider.changed(&runtime, &mut link, &light, &dark, || "told".to_string()));
    let targets: Vec<usize> = link.sent.iter().map(|task| task.scope).collect();
    assert_eq!(targets, vec![2, 1]);
}

#[test]
fn links_and_contexts_are_cloned_without_what_was_sent() {
    let runtime = tree();
    let mut link: ComponentLink<Model> = link_of(&runtime, 1).downcast(PANEL);
    link.send_message("kept".to_string());
    let other = link.clone();
    assert_eq!(link.sent.len(), 1);
    assert!(other.sent.is_empty());
    assert_eq!(other.to_any().get_id(), 1);
    assert_eq!(*other.to_any().get_type_id(), PANEL);
    assert_eq!(other.get_parent().unwrap().get_id(), 0);

    let props = Props { type_id: PANEL, name: "panel" };
    let ctx = Context { link, props: &props };
    let again = ctx.clone();
    assert_eq!(again.props.name, "panel");
    assert!(again.link.sent.is_empty());
    assert_eq!(again.link.to_any().get_id(), 1);
    assert_eq!(ctx.link.sent.len(), 1);
}
