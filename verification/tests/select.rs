use yew::component::{Component, Context};
use yew::components::select::{Msg as Chosen, Props as Choices, Select};
use yew::html::Html;
use yew::virtual_dom::{VList, VNode, VTag};

struct Host;

impl Component for Host {
    type Message = ();
    type Properties = ();

    fn create(_ctx: &mut Context<'_, Self>) -> Self {
        Host
    }

    fn view(&self, _ctx: &mut Context<'_, Self>) -> Html<Self> {
        VNode::VList(VList::new(true))
    }
}

fn fruits(selected: Option<&str>, disabled: bool) -> Select<String> {
    Select::create(Choices {
        selected: selected.map(|name| name.to_string()),
        disabled,
        options: vec!["apple".to_string(), "pear".to_string(), "plum".to_string()],
    })
}

fn element(node: &VNode<Host>) -> &VTag<Host> {
    match node {
        VNode::VTag(vtag) => vtag,
        _ => panic!("an element was expected"),
    }
}

fn shown(entry: &VTag<Host>) -> String {
    assert_eq!(entry.tag, "option");
    assert_eq!(entry.children.children.len(), 1);
    match &entry.children.children[0] {
        VNode::VText(vtext) => vtext.text.clone(),
        _ => panic!("a text was expected"),
    }
}

fn marks_of(vtag: &VTag<Host>) -> Vec<(String, String)> {
    vtag.attributes
        .iter()
        .map(|attribute| (attribute.name.clone(), attribute.value.clone()))
        .collect()
}

fn mark(name: &str) -> (String, String) {
    (name.to_string(), name.to_string())
}

#[test]
fn select_hands_out_the_option_in_front_of_the_place() {
    let mut select = fruits(None, false);
    assert_eq!(
        select.update(Chosen::Selected(Some(1))),
        (true, Some("apple".to_string()))
    );
    assert_eq!(
        select.update(Chosen::Selected(Some(3))),
        (true, Some("plum".to_string()))
    );
    assert_eq!(select.props.options.len(), 3);
    assert!(select.props.selected.is_none());
}

#[test]
fn select_makes_a_message_of_a_change() {
    let mut select = fruits(None, false);
    let msg = Select::<String>::on_change(Some(2));
    assert!(matches!(msg, Chosen::Selected(Some(2))));
    assert_eq!(select.update(msg), (true, Some("pear".to_string())));
    assert!(matches!(Select::<String>::on_change(None), Chosen::Selected(None)));
}

#[test]
fn select_hands_out_nothing_for_no_choice() {
    let mut select = fruits(Some("pear"), false);
    assert_eq!(select.update(Chosen::Selected(None)), (true, None));
    assert_eq!(select.update(Chosen::Selected(Some(0))), (true, None));
    assert_eq!(select.update(Chosen::Selected(Some(4))), (true, None));
    assert_eq!(select.update(Chosen::Selected(Some(usize::MAX))), (true, None));
    assert_eq!(select.props.selected, Some("pear".to_string()));
}

#[test]
fn select_takes_new_properties() {
    let mut select = fruits(None, false);
    let changed = select.change(Choices {
        selected: Some("fig".to_string()),
        disabled: true,
        options: vec!["fig".to_string()],
    });
    assert!(changed);
    assert_eq!(select.props.selected, Some("fig".to_string()));
    assert!(select.props.disabled);
    assert_eq!(select.props.options, vec!["fig".to_string()]);
    assert_eq!(
        select.update(Chosen::Selected(Some(1))),
        (true, Some("fig".to_string()))
    );
    assert_eq!(select.update(Chosen::Selected(Some(2))), (true, None));
}

#[test]
fn select_shows_an_entry_for_each_option() {
    let select = fruits(Some("pear"), false);
    let html: Html<Host> = select.view(11);
    let root = element(&html);
    assert_eq!(root.tag, "select");
    assert!(root.reference.is_none());
    assert_eq!(root.listeners.len(), 1);
    assert_eq!(root.listeners[0].kind, "change");
    assert_eq!(root.listeners[0].handler, 11);
    assert!(marks_of(root).is_empty());
    let entries: Vec<&VTag<Host>> = root.children.children.iter().map(element).collect();
    assert_eq!(entries.len(), 4);
    assert_eq!(shown(entries[0]), "\u{21aa}");
    assert_eq!(marks_of(entries[0]), vec![mark("disabled")]);
    assert_eq!(shown(entries[1]), "apple");
    assert!(marks_of(entries[1]).is_empty());
    assert_eq!(shown(entries[2]), "pear");
    assert_eq!(marks_of(entries[2]), vec![mark("selected")]);
    assert_eq!(shown(entries[3]), "plum");
    assert!(marks_of(entries[3]).is_empty());
}

#[test]
fn select_without_a_choice_marks_the_first_entry() {
    let select = fruits(None, true);
    let html: Html<Host> = select.view(11);
    let root = element(&html);
    assert_eq!(marks_of(root), vec![mark("disabled")]);
    let entries: Vec<&VTag<Host>> = root.children.children.iter().map(element).collect();
    assert_eq!(entries.len(), 4);
    assert_eq!(
        marks_of(entries[0]),
        vec![mark("disabled"), mark("selected")]
    );
    for entry in &entries[1..] {
        assert!(marks_of(entry).is_empty());
    }
}

#[test]
fn select_with_no_options_shows_one_entry() {
    let select: Select<u32> = Select::create(Choices {
        selected: Some(7),
        disabled: false,
        options: Vec::new(),
    });
    let html: Html<Host> = select.view(11);
    let root = element(&html);
    assert_eq!(root.children.children.len(), 1);
    assert_eq!(marks_of(element(&root.children.children[0])), vec![mark("disabled")]);
}
