use std::cell::RefCell;
use std::ops::Deref;
use std::rc::Rc;
use yew::app::App;
use yew::component::{Component, Context, Runtime, ShouldRender};
use yew::html::{Html, Properties};
use yew::virtual_dom::{VComp, VList, VNode};

const COMP: u64 = 1;
const CHILD: u64 = 2;

#[derive(Clone, PartialEq, Default)]
struct Props {
    lifecycle: Rc<RefCell<Vec<String>>>,
    create_message: Option<bool>,
    update_message: RefCell<Option<bool>>,
    view_message: RefCell<Option<bool>>,
    rendered_message: RefCell<Option<bool>>,
    child: bool,
}

impl Properties for Props {
    type Builder = ();

    fn builder() -> Self::Builder {}
}

struct Comp {
    child: bool,
}

impl Component for Comp {
    type Message = bool;
    type Properties = Props;

    fn create(ctx: &mut Context<'_, Self>) -> Self {
        if ctx.props.child {
            return Comp { child: true };
        }
        ctx.props.lifecycle.borrow_mut().push("create".into());
        if let Some(msg) = ctx.props.create_message {
            ctx.link.send_message(msg);
        }
        Comp { child: false }
    }

    fn rendered(&mut self, ctx: &mut Context<'_, Self>, first_render: bool) {
        if self.child {
            ctx.props.lifecycle.borrow_mut().push("child rendered".into());
            return;
        }
        if let Some(msg) = ctx.props.rendered_message.borrow_mut().take() {
            ctx.link.send_message(msg);
        }
        ctx.props
            .lifecycle
            .borrow_mut()
            .push(format!("rendered({})", first_render));
    }

    fn update(&mut self, ctx: &mut Context<'_, Self>, msg: Self::Message) -> ShouldRender {
        if self.child {
            return false;
        }
        if let Some(msg) = ctx.props.update_message.borrow_mut().take() {
            ctx.link.send_message(msg);
        }
        ctx.props
            .lifecycle
            .borrow_mut()
            .push(format!("update({})", msg));
        msg
    }

    fn changed(&mut self, ctx: &mut Context<'_, Self>, _: &Self::Properties) -> ShouldRender {
        if !self.child {
            ctx.props.lifecycle.borrow_mut().push("change".into());
        }
        false
    }

    fn view(&self, ctx: &mut Context<'_, Self>) -> Html<Self> {
        if self.child {
            return VNode::VList(VList::new(true));
        }
        if let Some(msg) = ctx.props.view_message.borrow_mut().take() {
            ctx.link.send_message(msg);
        }
        ctx.props.lifecycle.borrow_mut().push("view".into());
        let child = Props {
            lifecycle: ctx.props.lifecycle.clone(),
            child: true,
            ..Props::default()
        };
        VNode::VComp(VComp::new(CHILD, Rc::new(child), None))
    }

    fn destroy(&mut self, ctx: &mut Context<'_, Self>) {
        if !self.child {
            ctx.props.lifecycle.borrow_mut().push("destroy".into());
        }
    }
}

fn test_lifecycle(props: Props, expected: &[String]) {
    let mut runtime: Runtime<Comp> = Runtime::new(1000);
    let lifecycle = props.lifecycle.clone();
    let el = runtime.surface.create_element("div");

    lifecycle.borrow_mut().clear();
    App::new(COMP).mount_with_props(&mut runtime, el, props);

    assert_eq!(&lifecycle.borrow_mut().deref()[..], expected);
}

fn all_lifecycles() {
    let lifecycle: Rc<RefCell<Vec<String>>> = Rc::default();

    test_lifecycle(
        Props {
            lifecycle: lifecycle.clone(),
            ..Props::default()
        },
        &[
            "create".to_string(),
            "view".to_string(),
            "child rendered".to_string(),
            "rendered(true)".to_string(),
        ],
    );

    test_lifecycle(
        Props {
            lifecycle: lifecycle.clone(),
            create_message: Some(false),
            ..Props::default()
        },
        &[
            "create".to_string(),
            "view".to_string(),
            "child rendered".to_string(),
            "rendered(true)".to_string(),
            "update(false)".to_string(),
        ],
    );

    test_lifecycle(
        Props {
            lifecycle: lifecycle.clone(),
            view_message: RefCell::new(Some(true)),
            ..Props::default()
        },
        &[
            "create".to_string(),
            "view".to_string(),
            "child rendered".to_string(),
            "rendered(true)".to_string(),
            "update(true)".to_string(),
            "view".to_string(),
            "rendered(false)".to_string(),
        ],
    );

    test_lifecycle(
        Props {
            lifecycle: lifecycle.clone(),
            view_message: RefCell::new(Some(false)),
            ..Props::default()
        },
        &[
            "create".to_string(),
            "view".to_string(),
            "child rendered".to_string(),
            "rendered(true)".to_string(),
            "update(false)".to_string(),
        ],
    );

    test_lifecycle(
        Props {
            lifecycle: lifecycle.clone(),
            rendered_message: RefCell::new(Some(false)),
            ..Props::default()
        },
        &[
            "create".to_string(),
            "view".to_string(),
            "child rendered".to_string(),
            "rendered(true)".to_string(),
            "update(false)".to_string(),
        ],
    );

    test_lifecycle(
        Props {
            lifecycle: lifecycle.clone(),
            rendered_message: RefCell::new(Some(true)),
            ..Props::default()
        },
        &[
            "create".to_string(),
            "view".to_string(),
            "child rendered".to_string(),
            "rendered(true)".to_string(),
            "update(true)".to_string(),
            "view".to_string(),
            "rendered(false)".to_string(),
        ],
    );

    test_lifecycle(
        Props {
            lifecycle,
            create_message: Some(true),
            update_message: RefCell::new(Some(true)),
            ..Props::default()
        },
        &[
            "create".to_string(),
            "view".to_string(),
            "child rendered".to_string(),
            "rendered(true)".to_string(),
            "update(true)".to_string(),
            "view".to_string(),
            "rendered(false)".to_string(),
            "update(true)".to_string(),
            "view".to_string(),
            "rendered(false)".to_string(),
        ],
    );
}

#[test]
fn lifecycle_tests() {
    all_lifecycles();
}

#[test]
fn lifecyle_tests() {
    all_lifecycles();
}
