use yew::virtual_dom::{Classes, VTag};
use yew::component::{Component, Context};
use yew::html::Html;
use yew::virtual_dom::{VList, VNode};

struct Plain;

impl Component for Plain {
    type Message = ();
    type Properties = ();

    fn create(_ctx: &mut Context<'_, Self>) -> Self {
        Plain
    }

    fn view(&self, _ctx: &mut Context<'_, Self>) -> Html<Self> {
        VNode::VList(VList::new(true))
    }
}

#[test]
fn classes_start_empty() {
    let classes = Classes::new();
    assert_eq!(classes.len(), 0);
    assert_eq!(classes.to_string(), "");
    assert!(!classes.contains("a"));
}

#[test]
fn push_keeps_each_class_once_in_order() {
    let mut classes = Classes::new();
    classes.push("b");
    classes.push("a");
    classes.push("b");
    classes.push("c");
    assert_eq!(classes.len(), 3);
    assert!(classes.contains("a"));
    assert!(classes.contains("b"));
    assert!(!classes.contains("d"));
    assert_eq!(classes.to_string(), "b a c");
}

#[test]
fn extend_is_the_union_in_order() {
    let left = Classes::from_str("x y");
    let right = Classes::from_str("y z x w");
    let both = left.extend(right);
    assert_eq!(both.to_string(), "x y z w");
    assert_eq!(both.len(), 4);
}

#[test]
fn from_str_splits_at_whitespace() {
    let classes = Classes::from_str("  btn \t btn-primary\nbtn  wide ");
    assert_eq!(classes.to_string(), "btn btn-primary wide");
    assert_eq!(Classes::from_str("   ").len(), 0);
    assert_eq!(Classes::from_str("one").to_string(), "one");
}

#[test]
fn from_vec_keeps_the_first_of_each() {
    let classes = Classes::from_vec(vec!["a".to_string(), "b".to_string(), "a".to_string()]);
    assert_eq!(classes.to_string(), "a b");
}

#[test]
fn classes_become_the_class_attribute() {
    let mut vtag: VTag<Plain> = VTag::new("div");
    vtag.add_attribute("id", "main");
    vtag.set_classes(&Classes::from_str("a b"));
    vtag.set_classes(&Classes::from_str("c"));
    vtag.add_attribute("id", "other");
    let attributes: Vec<(String, String)> = vtag
        .attributes
        .iter()
        .map(|a| (a.name.clone(), a.value.clone()))
        .collect();
    assert_eq!(
        attributes,
        vec![
            ("id".to_string(), "other".to_string()),
            ("class".to_string(), "c".to_string())
        ]
    );
    assert_eq!(vtag.tag(), "div");
}

#[test]
fn classes_are_cloned_compared_and_empty_by_default() {
    let classes = Classes::from_str("a b c");
    let copy = classes.clone();
    assert_eq!(copy.to_string(), "a b c");
    assert!(copy == classes);
    // The order does not tell two sets apart.
    assert!(Classes::from_str("c a b") == classes);
    assert!(Classes::from_str("a b") != classes);
    assert!(Classes::from_str("a b d") != classes);
    assert!(Classes::default() == Classes::new());
    assert_eq!(Classes::default().len(), 0);
    assert!(Classes::default() != classes);
    assert!(format!("{:?}", classes).contains("b"));
}
