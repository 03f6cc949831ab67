use yew::app::clear_element;
use yew::surface::{
    clone_attributes, clone_listeners, same_attributes, same_listeners, Attribute,
    Listener, Patch, Surface,
};

fn attribute(name: &str, value: &str) -> Attribute {
    Attribute {
        name: name.to_string(),
        value: value.to_string(),
    }
}

fn listener(kind: &str, handler: u64) -> Listener {
    Listener {
        kind: kind.to_string(),
        handler,
    }
}

#[test]
fn created_nodes_are_detached() {
    let mut surface = Surface::new();
    assert_eq!(surface.len(), 0);
    let div = surface.create_element("div");
    let text = surface.create_text("hello");
    assert_eq!((div, text), (0, 1));
    assert_eq!(surface.len(), 2);
    assert!(surface.contains(div) && surface.contains(text));
    assert!(!surface.contains(2));
    assert!(surface.is_element(div) && !surface.is_text(div));
    assert!(surface.is_text(text) && !surface.is_element(text));
    assert!(!surface.is_element(2) && !surface.is_text(2));
    assert_eq!(surface.tag(div), "div");
    assert_eq!(surface.tag(text), "");
    assert_eq!(surface.text(text), "hello");
    assert_eq!(surface.text(div), "");
    assert_eq!(surface.parent(div), None);
    assert!(surface.children(div).is_empty());
    assert!(surface.attributes(div).is_empty());
    assert!(surface.listeners(div).is_empty());
    assert_eq!(
        surface.patches(),
        &vec![
            Patch::CreateElement { node: div },
            Patch::CreateText { node: text }
        ]
    );
    assert_eq!(surface.take_patches().len(), 2);
    assert!(surface.patches().is_empty());
    assert_eq!(surface.len(), 2);
}

#[test]
fn insert_before_places_the_node() {
    let mut surface = Surface::new();
    let root = surface.create_element("ul");
    let a = surface.create_element("li");
    let b = surface.create_element("li");
    let c = surface.create_element("li");
    let stray = surface.create_element("li");
    assert!(surface.insert_before(root, b, None));
    assert!(surface.insert_before(root, a, Some(b)));
    // An anchor that is no child of the parent counts as none.
    assert!(surface.insert_before(root, c, Some(stray)));
    assert_eq!(surface.children(root), &vec![a, b, c]);
    assert_eq!(surface.parent(a), Some(root));
    assert_eq!(surface.next_sibling(a), Some(b));
    assert_eq!(surface.next_sibling(b), Some(c));
    assert_eq!(surface.next_sibling(c), None);
    assert_eq!(surface.next_sibling(root), None);
    assert_eq!(surface.next_sibling(99), None);
    assert_eq!(
        &surface.patches()[5..],
        &[
            Patch::InsertBefore {
                parent: root,
                node: b,
                next_sibling: None
            },
            Patch::InsertBefore {
                parent: root,
                node: a,
                next_sibling: Some(b)
            },
            Patch::InsertBefore {
                parent: root,
                node: c,
                next_sibling: None
            },
        ]
    );
}

#[test]
fn insert_before_moves_an_attached_node() {
    let mut surface = Surface::new();
    let root = surface.create_element("div");
    let other = surface.create_element("div");
    let a = surface.create_text("a");
    let b = surface.create_text("b");
    assert!(surface.insert_before(root, a, None));
    assert!(surface.insert_before(root, b, None));
    assert!(surface.insert_before(other, a, None));
    assert_eq!(surface.children(root), &vec![b]);
    assert_eq!(surface.children(other), &vec![a]);
    assert_eq!(surface.parent(a), Some(other));
    // Within one parent, too.
    assert!(surface.insert_before(root, a, Some(b)));
    assert!(surface.insert_before(root, b, Some(a)));
    assert_eq!(surface.children(root), &vec![b, a]);
    // In front of itself a node stays the last one.
    assert!(surface.insert_before(root, a, Some(a)));
    assert_eq!(surface.children(root), &vec![b, a]);
}

#[test]
fn insert_before_refuses_what_the_tree_cannot_hold() {
    let mut surface = Surface::new();
    let root = surface.create_element("div");
    let inner = surface.create_element("p");
    let text = surface.create_text("t");
    assert!(surface.insert_before(root, inner, None));
    assert!(surface.insert_before(inner, text, None));
    let before = surface.patches().len();

    // Below a text node, below a node that is not there, a node that is not there.
    assert!(!surface.insert_before(text, root, None));
    assert!(!surface.insert_before(77, inner, None));
    assert!(!surface.insert_before(root, 77, None));
    // A node below itself, or below a node that stands below it.
    assert!(!surface.insert_before(root, root, None));
    assert!(!surface.insert_before(inner, root, None));

    assert_eq!(surface.patches().len(), before);
    assert_eq!(surface.children(root), &vec![inner]);
    assert_eq!(surface.children(inner), &vec![text]);
    assert_eq!(surface.parent(root), None);
}

#[test]
fn remove_returns_the_next_sibling() {
    let mut surface = Surface::new();
    let root = surface.create_element("div");
    let a = surface.add_text(root, "a", None);
    let c = surface.add_text(root, "c", None);
    let b = surface.add_element(root, "b", Some(c));
    assert_eq!(surface.children(root), &vec![a, b, c]);
    assert_eq!(surface.tag(b), "b");
    assert_eq!(surface.text(a), "a");

    assert_eq!(surface.remove(root, a), Some(b));
    assert_eq!(surface.remove(root, c), None);
    assert_eq!(surface.children(root), &vec![b]);
    assert_eq!(surface.parent(a), None);

    // No child of the parent: nothing happens.
    let before = surface.patches().len();
    assert_eq!(surface.remove(root, a), None);
    assert_eq!(surface.remove(b, root), None);
    assert_eq!(surface.remove(root, 55), None);
    assert_eq!(surface.patches().len(), before);
    assert_eq!(surface.children(root), &vec![b]);
}

#[test]
fn content_is_set_only_where_it_differs() {
    let mut surface = Surface::new();
    let div = surface.create_element("div");
    let text = surface.create_text("a");
    surface.take_patches();

    surface.set_text(text, "a");
    surface.set_text(div, "x");
    surface.set_text(9, "x");
    assert!(surface.patches().is_empty());
    surface.set_text(text, "b");
    assert_eq!(surface.text(text), "b");
    assert_eq!(surface.patches(), &vec![Patch::SetText { node: text }]);
    surface.take_patches();

    let attributes = vec![attribute("id", "x"), attribute("class", "y")];
    surface.set_attributes(text, &attributes);
    surface.set_attributes(div, &vec![]);
    assert!(surface.patches().is_empty());
    surface.set_attributes(div, &attributes);
    surface.set_attributes(div, &attributes);
    assert_eq!(surface.patches(), &vec![Patch::SetAttributes { node: div }]);
    assert!(same_attributes(surface.attributes(div), &attributes));
    surface.take_patches();

    let listeners = vec![listener("click", 1)];
    surface.set_listeners(text, &listeners);
    surface.set_listeners(div, &listeners);
    surface.set_listeners(div, &listeners);
    assert_eq!(surface.patches(), &vec![Patch::SetListeners { node: div }]);
    assert!(same_listeners(surface.listeners(div), &listeners));
}

#[test]
fn lists_of_attributes_compare_by_value_and_order() {
    let a = vec![attribute("id", "x"), attribute("class", "y")];
    let b = vec![attribute("class", "y"), attribute("id", "x")];
    assert!(same_attributes(&a, &clone_attributes(&a)));
    assert!(!same_attributes(&a, &b));
    assert!(!same_attributes(&a, &a[..1].iter().map(|x| x.clone()).collect()));
    assert!(!same_attributes(&a, &vec![attribute("id", "x"), attribute("class", "z")]));
    assert!(same_attributes(&vec![], &vec![]));

    let l = vec![listener("click", 1), listener("input", 2)];
    assert!(same_listeners(&l, &clone_listeners(&l)));
    assert!(!same_listeners(&l, &vec![listener("click", 1), listener("input", 3)]));
    assert!(!same_listeners(&l, &vec![listener("click", 1), listener("keyup", 2)]));
    assert!(!same_listeners(&l, &vec![listener("click", 1)]));
}

#[test]
fn structural_patches_are_told_apart() {
    assert!(Patch::CreateElement { node: 0 }.is_structural());
    assert!(Patch::CreateText { node: 0 }.is_structural());
    assert!(Patch::InsertBefore {
        parent: 0,
        node: 1,
        next_sibling: None
    }
    .is_structural());
    assert!(Patch::Remove { parent: 0, node: 1 }.is_structural());
    assert!(!Patch::SetText { node: 0 }.is_structural());
    assert!(!Patch::SetAttributes { node: 0 }.is_structural());
    assert!(!Patch::SetListeners { node: 0 }.is_structural());
}

#[test]
fn clear_element_takes_every_child_out() {
    let mut surface = Surface::new();
    let root = surface.create_element("div");
    let a = surface.add_text(root, "a", None);
    let b = surface.add_element(root, "b", None);
    let inner = surface.add_text(b, "inner", None);
    clear_element(&mut surface, root);
    assert!(surface.children(root).is_empty());
    assert_eq!(surface.parent(a), None);
    assert_eq!(surface.parent(b), None);
    assert_eq!(surface.parent(inner), Some(b));
    clear_element(&mut surface, root);
    assert!(surface.children(root).is_empty());
}
