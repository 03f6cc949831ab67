use std::cell::{Cell, RefCell};
use std::rc::Rc;
use yew::app::App;
use yew::component::{Component, Context, Runtime, ShouldRender};
use yew::html::{Html, Properties};
use yew::surface::{Surface, SurfaceHandle};
use yew::virtual_dom::{VComp, VNode, VText};

const PARENT: u64 = 1;
const CHILD: u64 = 2;

struct Props {
    child: bool,
    label: String,
    log: Rc<RefCell<Vec<String>>>,
    compared: Rc<Cell<usize>>,
}

impl PartialEq for Props {
    fn eq(&self, other: &Props) -> bool {
        self.compared.set(self.compared.get() + 1);
        self.child == other.child && self.label == other.label
    }
}

impl Properties for Props {
    type Builder = ();

    fn builder() -> Self::Builder {}
}

enum Msg {
    /// The child gets new properties that say `label`.
    Label(String),
    /// The child gets the properties that it has, once more.
    Same,
}

struct Nested {
    for_child: Rc<Props>,
}

impl Component for Nested {
    type Message = Msg;
    type Properties = Props;

    fn create(ctx: &mut Context<'_, Self>) -> Self {
        Nested {
            for_child: Rc::new(Props {
                child: true,
                label: ctx.props.label.clone(),
                log: ctx.props.log.clone(),
                compared: ctx.props.compared.clone(),
            }),
        }
    }

    fn update(&mut self, ctx: &mut Context<'_, Self>, msg: Msg) -> ShouldRender {
        if let Msg::Label(label) = msg {
            self.for_child = Rc::new(Props {
                child: true,
                label,
                log: ctx.props.log.clone(),
                compared: ctx.props.compared.clone(),
            });
        }
        true
    }

    fn changed(&mut self, ctx: &mut Context<'_, Self>, new_props: &Props) -> ShouldRender {
        ctx.props
            .log
            .borrow_mut()
            .push(format!("changed({} -> {})", ctx.props.label, new_props.label));
        true
    }

    fn view(&self, ctx: &mut Context<'_, Self>) -> Html<Self> {
        if ctx.props.child {
            ctx.props.log.borrow_mut().push("child view".into());
            VNode::VText(VText::new(ctx.props.label.clone()))
        } else {
            VNode::VComp(VComp::new(CHILD, self.for_child.clone(), None))
        }
    }
}

fn text_of(surface: &Surface, node: SurfaceHandle) -> String {
    if surface.is_text(node) {
        return surface.text(node).clone();
    }
    surface
        .children(node)
        .iter()
        .map(|child| text_of(surface, *child))
        .collect()
}

#[test]
fn new_properties_reach_the_child_only_if_they_differ() {
    let log: Rc<RefCell<Vec<String>>> = Rc::default();
    let compared: Rc<Cell<usize>> = Rc::default();
    let mut runtime: Runtime<Nested> = Runtime::new(1000);
    let root = runtime.surface.create_element("main");
    let scope = App::new(PARENT).mount_with_props(
        &mut runtime,
        root,
        Props {
            child: false,
            label: "a".into(),
            log: log.clone(),
            compared: compared.clone(),
        },
    );
    assert_eq!(text_of(&runtime.surface, root), "a");
    assert_eq!(&log.borrow()[..], &["child view".to_string()]);
    assert_eq!(compared.get(), 0);
    log.borrow_mut().clear();

    // The very same properties: they are not even compared.
    scope.send_message(&mut runtime.scheduler, Msg::Same);
    runtime.start();
    assert_eq!(compared.get(), 0);
    assert!(log.borrow().is_empty());

    // Other properties that are equal: compared, and nothing more.
    scope.send_message(&mut runtime.scheduler, Msg::Label("a".into()));
    runtime.start();
    assert_eq!(compared.get(), 1);
    assert!(log.borrow().is_empty());
    assert_eq!(text_of(&runtime.surface, root), "a");

    // Properties that differ: the child is asked, and renders.
    scope.send_message(&mut runtime.scheduler, Msg::Label("b".into()));
    runtime.start();
    assert_eq!(compared.get(), 2);
    assert_eq!(
        &log.borrow()[..],
        &["changed(a -> b)".to_string(), "child view".to_string()]
    );
    assert_eq!(text_of(&runtime.surface, root), "b");
    assert_eq!(runtime.get_props(1).unwrap().label, "b");
    assert_eq!(runtime.surface.children(root).len(), 3);
}
