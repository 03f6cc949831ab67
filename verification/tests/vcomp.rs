use std::rc::Rc;
use yew::component::{Component, Context, Runtime};
use yew::html::{AnyScope, Html, Properties};
use yew::surface::{Surface, SurfaceHandle};
use yew::virtual_dom::{Key, VChild, VComp, VList, VNode, VTag, VText};

const COMP: u64 = 10;

struct Comp;

#[derive(Clone, Default, PartialEq)]
struct Props {
    field_1: u32,
    field_2: u32,
}

#[derive(Default)]
struct PropsBuilder {
    props: Props,
}

impl PropsBuilder {
    fn field_1(mut self, value: u32) -> Self {
        self.props.field_1 = value;
        self
    }

    fn field_2(mut self, value: u32) -> Self {
        self.props.field_2 = value;
        self
    }

    fn build(self) -> Props {
        self.props
    }
}

impl Properties for Props {
    type Builder = PropsBuilder;

    fn builder() -> Self::Builder {
        PropsBuilder::default()
    }
}

impl Component for Comp {
    type Message = ();
    type Properties = Props;

    fn create(_ctx: &mut Context<'_, Self>) -> Self {
        Comp
    }

    fn view(&self, _ctx: &mut Context<'_, Self>) -> Html<Self> {
        VNode::VTag(Box::new(VTag::new("div")))
    }
}

fn comp(props: Props, key: Option<Key>) -> VNode<Comp> {
    VNode::VComp(VComp::new(COMP, Rc::new(props), key))
}

fn html_of(surface: &Surface, node: SurfaceHandle) -> String {
    if surface.is_text(node) {
        return surface.text(node).clone();
    }
    let mut out = format!("<{}", surface.tag(node));
    for attribute in surface.attributes(node) {
        out.push_str(&format!(" {}=\"{}\"", attribute.name, attribute.value));
    }
    out.push('>');
    out.push_str(&inner_html(surface, node));
    out.push_str(&format!("</{}>", surface.tag(node)));
    out
}

fn inner_html(surface: &Surface, element: SurfaceHandle) -> String {
    let mut out = String::new();
    for child in surface.children(element) {
        out.push_str(&html_of(surface, *child));
    }
    out
}

#[test]
fn update_loop() {
    let mut runtime: Runtime<Comp> = Runtime::new(100);
    let parent_scope = Rc::new(AnyScope::root(COMP, 0));
    let parent_element = runtime.surface.create_element("div");

    let mut ancestor = comp(Props::default(), None);
    ancestor.apply(
        &mut runtime.surface,
        &mut runtime.scheduler,
        &parent_scope,
        parent_element,
        None,
        None,
    );
    runtime.start();

    for _ in 0..10000 {
        let mut node = comp(Props::default(), None);
        node.apply(
            &mut runtime.surface,
            &mut runtime.scheduler,
            &parent_scope,
            parent_element,
            None,
            Some(ancestor),
        );
        runtime.start();
        ancestor = node;
    }
    assert_eq!(inner_html(&runtime.surface, parent_element), "<div></div>");
    assert_eq!(runtime.surface.children(parent_element).len(), 3);
}

#[test]
fn set_properties_to_component() {
    comp(Props::builder().build(), None);

    comp(Props::builder().field_1(1).build(), None);

    comp(Props::builder().field_2(2).build(), None);

    comp(Props::builder().field_1(1).field_2(2).build(), None);

    let props = Props {
        field_1: 1,
        field_2: 1,
    };

    comp(props, None);
}

#[test]
fn set_component_key() {
    let test_key: Key = Key::new("test");
    let check_key = |vnode: VNode<Comp>| {
        assert_eq!(vnode.key().map(|key| key.key.clone()), Some(test_key.key.clone()));
    };

    let props = Props {
        field_1: 1,
        field_2: 1,
    };
    let props_2 = props.clone();

    check_key(comp(Props::builder().build(), Some(test_key.clone())));
    check_key(comp(Props::builder().field_1(1).build(), Some(test_key.clone())));
    check_key(comp(Props::builder().field_1(1).build(), Some(test_key.clone())));
    check_key(comp(props, Some(test_key.clone())));
    check_key(comp(props_2, Some(test_key.clone())));
}

#[test]
fn set_component_node_ref() {
    let mut surface = Surface::new();
    let test_node = surface.create_text("test");
    let check_node_ref = |vnode: VNode<Comp>| {
        assert_eq!(vnode.first(), Some(test_node));
    };
    let comp_at = |props: Props| {
        let mut vcomp = VComp::new(COMP, Rc::new(props), None);
        vcomp.node_ref = Some(test_node);
        VNode::VComp(vcomp)
    };

    let props = Props {
        field_1: 1,
        field_2: 1,
    };
    let props_2 = props.clone();

    check_node_ref(comp_at(Props::builder().build()));
    check_node_ref(comp_at(Props::builder().field_1(1).build()));
    check_node_ref(comp_at(Props::builder().field_1(1).build()));
    check_node_ref(comp_at(props));
    check_node_ref(comp_at(props_2));
}

#[test]
fn virtual_components_are_equal_by_their_type() {
    let one: VComp<Comp> = VComp::new(COMP, Rc::new(Props::default()), None);
    let other: VComp<Comp> = VComp::new(
        COMP,
        Rc::new(Props { field_1: 5, field_2: 6 }),
        Some(Key::new("k")),
    );
    let stranger: VComp<Comp> = VComp::new(COMP + 1, Rc::new(Props::default()), None);
    assert!(one == other);
    assert!(one != stranger);
}

#[test]
fn nodes_are_made_of_their_kinds() {
    let child: VChild<Comp> = VChild::new(COMP, Props { field_1: 3, field_2: 4 }, Some(Key::new("k")));
    let vcomp = VComp::from(child);
    assert_eq!(vcomp.type_id, COMP);
    assert_eq!(vcomp.props.field_1, 3);
    assert_eq!(vcomp.props.field_2, 4);
    assert_eq!(vcomp.key.as_ref().unwrap().key, "k");
    assert!(vcomp.scope.is_none() && vcomp.node_ref.is_none() && vcomp.end_ref.is_none());
    match VNode::from(vcomp) {
        VNode::VComp(vcomp) => assert_eq!(vcomp.props.field_1, 3),
        _ => panic!("a component was expected"),
    }
    let child: VChild<Comp> = VChild::new(COMP, Props { field_1: 8, field_2: 9 }, None);
    match VNode::from(child) {
        VNode::VComp(vcomp) => {
            assert_eq!(vcomp.props.field_2, 9);
            assert!(vcomp.key.is_none());
        }
        _ => panic!("a component was expected"),
    }
    match VNode::<Comp>::from(VText::new("text".to_string())) {
        VNode::VText(vtext) => assert_eq!(vtext.text, "text"),
        _ => panic!("a text was expected"),
    }
    let mut vtag: VTag<Comp> = VTag::new("p");
    vtag.add_attribute("id", "x");
    match VNode::from(vtag) {
        VNode::VTag(vtag) => {
            assert_eq!(vtag.tag, "p");
            assert_eq!(vtag.attributes.len(), 1);
        }
        _ => panic!("an element was expected"),
    }
    let mut vlist: VList<Comp> = VList::new(true);
    vlist.add_child(VNode::VRef(7));
    match VNode::from(vlist) {
        VNode::VList(vlist) => {
            assert!(vlist.no_siblings);
            assert_eq!(vlist.children.len(), 1);
        }
        _ => panic!("a fragment was expected"),
    }
}

#[test]
fn virtual_components_and_children_are_cloned() {
    let mut vcomp: VComp<Comp> = VComp::new(
        COMP,
        Rc::new(Props { field_1: 3, field_2: 4 }),
        Some(Key::new("k")),
    );
    vcomp.node_ref = Some(5);
    let clone = vcomp.clone();
    assert_eq!(clone.type_id, COMP);
    assert!(Rc::ptr_eq(&clone.props, &vcomp.props));
    assert_eq!(clone.key.as_ref().unwrap().key, "k");
    assert_eq!(clone.node_ref, Some(5));
    assert!(clone.scope.is_none());

    let child: VChild<Comp> = VChild::new(COMP, Props { field_1: 1, field_2: 2 }, Some(Key::new("c")));
    let other = child.clone();
    assert!(other == child);
    assert_eq!(other.type_id, COMP);
    assert_eq!(other.props.field_2, 2);
    assert_eq!(other.key.as_ref().unwrap().key, "c");
}

#[test]
fn vchild_partialeq() {
    let vchild1: VChild<Comp> = VChild::new(
        COMP,
        Props {
            field_1: 1,
            field_2: 1,
        },
        None,
    );

    let vchild2: VChild<Comp> = VChild::new(
        COMP,
        Props {
            field_1: 1,
            field_2: 1,
        },
        None,
    );

    let vchild3: VChild<Comp> = VChild::new(
        COMP,
        Props {
            field_1: 2,
            field_2: 2,
        },
        None,
    );

    assert!(vchild1 == vchild2);
    assert!(vchild1 != vchild3);
    assert!(vchild2 != vchild3);
}

#[test]
fn reset_node_ref() {
    let mut runtime: Runtime<Comp> = Runtime::new(100);
    let context = Rc::new(AnyScope::root(0, 0));
    let parent = runtime.surface.create_element("div");

    let mut elem: VNode<Comp> = comp(Props::default(), None);
    elem.apply(
        &mut runtime.surface,
        &mut runtime.scheduler,
        &context,
        parent,
        None,
        None,
    );
    runtime.start();
    assert_eq!(elem.first(), runtime.surface.children(parent).first().copied());
    elem.detach(&mut runtime.surface, &mut runtime.scheduler, parent);
    runtime.start();
    assert!(elem.first().is_none());
    assert!(runtime.surface.children(parent).is_empty());
}

// A component that shows its children as a fragment. The children are kept as
// a layout, of which each view builds its nodes anew.

const A: u64 = 1;
const B: u64 = 2;

#[derive(Clone, PartialEq)]
enum Layout {
    Text(&'static str),
    Comp(u64, Vec<Layout>),
    List(Vec<Layout>),
}

#[derive(Clone, PartialEq)]
struct CompProps {
    children: Vec<Layout>,
}

impl Properties for CompProps {
    type Builder = ();

    fn builder() -> Self::Builder {}
}

struct Fragment;

impl Component for Fragment {
    type Message = ();
    type Properties = CompProps;

    fn create(_ctx: &mut Context<'_, Self>) -> Self {
        Fragment
    }

    fn view(&self, ctx: &mut Context<'_, Self>) -> Html<Self> {
        build_list(&ctx.props.children)
    }
}

fn build_list(children: &[Layout]) -> VNode<Fragment> {
    let mut list = VList::new(false);
    for child in children {
        list.add_child(build(child));
    }
    VNode::VList(list)
}

fn build(layout: &Layout) -> VNode<Fragment> {
    match layout {
        Layout::Text(text) => VNode::VText(VText::new(text.to_string())),
        Layout::Comp(type_id, children) => VNode::VComp(VComp::new(
            *type_id,
            Rc::new(CompProps {
                children: children.clone(),
            }),
            None,
        )),
        Layout::List(children) => build_list(children),
    }
}

struct TestLayout {
    name: &'static str,
    node: Layout,
    expected: &'static str,
}

struct Bench {
    runtime: Runtime<Fragment>,
    parent_scope: Rc<AnyScope>,
    parent_element: SurfaceHandle,
    end_node: SurfaceHandle,
}

impl Bench {
    fn new() -> Self {
        let mut runtime: Runtime<Fragment> = Runtime::new(100_000);
        let parent_element = runtime.surface.create_element("div");
        let end_node = runtime.surface.create_text("END");
        assert!(runtime.surface.insert_before(parent_element, end_node, None));
        Bench {
            runtime,
            parent_scope: Rc::new(AnyScope::root(0, 0)),
            parent_element,
            end_node,
        }
    }

    fn apply(&mut self, node: &mut VNode<Fragment>, ancestor: Option<VNode<Fragment>>) {
        node.apply(
            &mut self.runtime.surface,
            &mut self.runtime.scheduler,
            &self.parent_scope,
            self.parent_element,
            Some(self.end_node),
            ancestor,
        );
        let ran = self.runtime.start();
        assert!(ran < 100_000);
    }

    fn html(&self) -> String {
        inner_html(&self.runtime.surface, self.parent_element)
    }
}

fn diff_layouts(layouts: Vec<TestLayout>) {
    let mut bench = Bench::new();

    // Tests each layout independently
    for layout in layouts.iter() {
        // Apply the layout
        let mut node = build(&layout.node);
        bench.apply(&mut node, None);
        assert_eq!(
            bench.html(),
            format!("{}END", layout.expected),
            "Independent apply failed for layout '{}'",
            layout.name
        );

        // Diff with no changes
        let mut node_clone = build(&layout.node);
        bench.apply(&mut node_clone, Some(node));
        assert_eq!(
            bench.html(),
            format!("{}END", layout.expected),
            "Independent reapply failed for layout '{}'",
            layout.name
        );

        // Detach
        let mut empty_node: VNode<Fragment> = VNode::VText(VText::new("".into()));
        bench.apply(&mut empty_node, Some(node_clone));
        assert_eq!(
            bench.html(),
            "END",
            "Independent detach failed for layout '{}'",
            layout.name
        );
        empty_node.detach(
            &mut bench.runtime.surface,
            &mut bench.runtime.scheduler,
            bench.parent_element,
        );
    }

    // Sequentially apply each layout
    let mut ancestor: Option<VNode<Fragment>> = None;
    for layout in layouts.iter() {
        let mut next_node = build(&layout.node);
        bench.apply(&mut next_node, ancestor);
        assert_eq!(
            bench.html(),
            format!("{}END", layout.expected),
            "Sequential apply failed for layout '{}'",
            layout.name
        );
        ancestor = Some(next_node);
    }

    // Sequentially detach each layout
    for layout in layouts.iter().rev() {
        let mut next_node = build(&layout.node);
        bench.apply(&mut next_node, ancestor);
        assert_eq!(
            bench.html(),
            format!("{}END", layout.expected),
            "Sequential detach failed for layout '{}'",
            layout.name
        );
        ancestor = Some(next_node);
    }

    // Detach last layout
    let mut empty_node: VNode<Fragment> = VNode::VText(VText::new("".into()));
    bench.apply(&mut empty_node, ancestor);
    assert_eq!(bench.html(), "END", "Failed to detach last layout");

    // Nothing is left of the layouts but the text that took their place.
    assert_eq!(
        bench.runtime.surface.children(bench.parent_element).len(),
        2
    );
}

fn c(type_id: u64, children: Vec<Layout>) -> Layout {
    Layout::Comp(type_id, children)
}

fn l(children: Vec<Layout>) -> Layout {
    Layout::List(children)
}

fn t(text: &'static str) -> Layout {
    Layout::Text(text)
}

#[test]
fn diff() {
    let layout1 = TestLayout {
        name: "1",
        node: c(A, vec![c(B, vec![]), t("C")]),
        expected: "C",
    };

    let layout2 = TestLayout {
        name: "2",
        node: c(A, vec![t("A")]),
        expected: "A",
    };

    let layout3 = TestLayout {
        name: "3",
        node: c(B, vec![c(A, vec![]), t("B")]),
        expected: "B",
    };

    let layout4 = TestLayout {
        name: "4",
        node: c(B, vec![c(A, vec![t("A")]), t("B")]),
        expected: "AB",
    };

    let layout5 = TestLayout {
        name: "5",
        node: c(B, vec![l(vec![c(A, vec![t("A")])]), t("B")]),
        expected: "AB",
    };

    let layout6 = TestLayout {
        name: "6",
        node: c(B, vec![l(vec![c(A, vec![t("A")]), t("B")]), t("C")]),
        expected: "ABC",
    };

    let layout7 = TestLayout {
        name: "7",
        node: c(
            B,
            vec![
                l(vec![c(A, vec![t("A")]), c(A, vec![t("B")])]),
                t("C"),
            ],
        ),
        expected: "ABC",
    };

    let layout8 = TestLayout {
        name: "8",
        node: c(
            B,
            vec![
                l(vec![c(A, vec![t("A")]), c(A, vec![c(A, vec![t("B")])])]),
                t("C"),
            ],
        ),
        expected: "ABC",
    };

    let layout9 = TestLayout {
        name: "9",
        node: c(
            B,
            vec![
                l(vec![l(vec![t("A")]), c(A, vec![c(A, vec![t("B")])])]),
                t("C"),
            ],
        ),
        expected: "ABC",
    };

    let layout10 = TestLayout {
        name: "10",
        node: c(
            B,
            vec![
                l(vec![c(A, vec![c(A, vec![t("A")])]), l(vec![t("B")])]),
                t("C"),
            ],
        ),
        expected: "ABC",
    };

    let layout11 = TestLayout {
        name: "11",
        node: c(
            B,
            vec![
                l(vec![l(vec![c(A, vec![c(A, vec![t("A")]), t("B")])])]),
                t("C"),
            ],
        ),
        expected: "ABC",
    };

    let layout12 = TestLayout {
        name: "12",
        node: c(
            B,
            vec![
                l(vec![
                    c(A, vec![]),
                    l(vec![
                        c(
                            A,
                            vec![l(vec![
                                c(A, vec![t("A")]),
                                l(vec![]),
                                c(
                                    A,
                                    vec![
                                        c(A, vec![]),
                                        l(vec![]),
                                        t("B"),
                                        l(vec![]),
                                        c(A, vec![]),
                                    ],
                                ),
                            ])],
                        ),
                        l(vec![]),
                    ]),
                    c(A, vec![]),
                ]),
                t("C"),
                c(A, vec![]),
                l(vec![]),
            ],
        ),
        expected: "ABC",
    };

    diff_layouts(vec![
        layout1, layout2, layout3, layout4, layout5, layout6, layout7, layout8, layout9, layout10,
        layout11, layout12,
    ]);
}

// A component that shows its children as the items of a list.

struct List;

#[derive(Clone, PartialEq)]
struct ListProps {
    children: Vec<&'static str>,
}

impl Properties for ListProps {
    type Builder = ();

    fn builder() -> Self::Builder {}
}

impl Component for List {
    type Message = ();
    type Properties = ListProps;

    fn create(_ctx: &mut Context<'_, Self>) -> Self {
        List
    }

    fn view(&self, ctx: &mut Context<'_, Self>) -> Html<Self> {
        let mut ul = VTag::new("ul");
        for item in ctx.props.children.iter() {
            let mut span = VTag::new("span");
            span.add_child(VNode::VText(VText::new(item.to_string())));
            let mut li = VTag::new("li");
            li.add_child(VNode::VTag(Box::new(span)));
            ul.add_child(VNode::VTag(Box::new(li)));
        }
        VNode::VTag(Box::new(ul))
    }
}

fn get_html(mut node: VNode<List>, runtime: &mut Runtime<List>, parent: SurfaceHandle) -> String {
    // clear parent
    yew::app::clear_element(&mut runtime.surface, parent);

    node.apply(
        &mut runtime.surface,
        &mut runtime.scheduler,
        &Rc::new(AnyScope::root(0, 0)),
        parent,
        None,
        None,
    );
    runtime.start();
    inner_html(&runtime.surface, parent)
}

#[test]
fn all_ways_of_passing_children_work() {
    let mut runtime: Runtime<List> = Runtime::new(1000);
    let parent = runtime.surface.create_element("div");

    let children = vec!["a", "b", "c"];
    let expected_html = "\
        <ul>\
            <li><span>a</span></li>\
            <li><span>b</span></li>\
            <li><span>c</span></li>\
        </ul>";

    let list = |children: &Vec<&'static str>| {
        VNode::VComp(VComp::new(
            1,
            Rc::new(ListProps {
                children: children.clone(),
            }),
            None,
        ))
    };

    let prop_method = list(&children);
    assert_eq!(get_html(prop_method, &mut runtime, parent), expected_html);

    let children_renderer_method = list(&children);
    assert_eq!(
        get_html(children_renderer_method, &mut runtime, parent),
        expected_html
    );

    let direct_method = list(&children);
    assert_eq!(get_html(direct_method, &mut runtime, parent), expected_html);

    let for_method = list(&children);
    assert_eq!(get_html(for_method, &mut runtime, parent), expected_html);
}
