//! A widget for choosing one of a list of options, which keeps track of the
//! chosen value in its own type.

use crate::component::{Component, ShouldRender};
use crate::html::Html;
use crate::surface::{attributes_view, listeners_view, Listener};
use crate::virtual_dom::{VNode, VTag, VText};
use std::fmt::Display;
use vstd::prelude::*;
use vstd::std_specs::cmp::PartialEqSpec;

verus! {

/// The message of the widget.
pub enum Msg {
    /// The option at this place was chosen. The first place is that of the
    /// entry that stands for no choice.
    Selected(Option<usize>),
}

/// Properties that borrow their values.
pub struct LifetimeProps<'a, T: Default + 'a> {
    pub value: &'a T,
    pub required_value: &'a T,
}

/// The properties of the widget.
pub struct Props<T> {
    /// The value that is chosen at first.
    pub selected: Option<T>,
    /// Whether the widget is disabled.
    pub disabled: bool,
    /// The values to choose from.
    pub options: Vec<T>,
}

/// The widget.
pub struct Select<T> {
    pub props: Props<T>,
}

/// Whether a node is an entry of the widget: an `option` element that holds
/// a text, and nothing else.
pub open spec fn is_entry<C: Component>(node: VNode<C>) -> bool {
    &&& node matches VNode::VTag(entry)
    &&& entry.tag@ == "option"@
    &&& entry.reference.is_none()
    &&& entry.children.children@.len() == 1
    &&& entry.children.children@[0] is VText
}

/// The attributes of an element that carries the marks `marks`, each as an
/// attribute whose value is its name.
pub open spec fn marked(marks: Seq<Seq<char>>) -> Seq<(Seq<char>, Seq<char>)> {
    Seq::new(marks.len(), |i: int| (marks[i], marks[i]))
}

/// The marks of an element that is disabled, or chosen, or both, or neither.
pub open spec fn marks(disabled: bool, chosen: bool) -> Seq<Seq<char>> {
    (if disabled {
        seq!["disabled"@]
    } else {
        Seq::empty()
    }) + (if chosen {
        seq!["selected"@]
    } else {
        Seq::empty()
    })
}

/// The attributes of a node that is an element.
pub open spec fn attributes_of<C: Component>(node: VNode<C>) -> Seq<(Seq<char>, Seq<char>)> {
    attributes_view(node->VTag_0.attributes@)
}

/// The text that an entry of the widget shows.
pub open spec fn entry_text<C: Component>(node: VNode<C>) -> String {
    node->VTag_0.children.children@[0]->VText_0.text
}

impl<T: PartialEq + Clone> Select<T> {
    /// Creates the widget.
    pub fn create(props: Props<T>) -> (select: Select<T>)
        ensures
            select.props == props,
    {
        Select { props }
    }

    /// Handles a message. Returns that the widget is to be rendered again,
    /// and the value that was chosen, for the host of the widget to handle: the
    /// option in front of the place chosen, as the first place stands for no choice.
    pub fn update(&mut self, msg: Msg) -> (result: (ShouldRender, Option<T>))
        ensures
            final(self).props == old(self).props,
            result.0,
            match msg {
                Msg::Selected(Some(place)) => if 1 <= place <= old(self).props.options@.len() {
                    result.1 matches Some(value) && cloned(
                        old(self).props.options@[place - 1],
                        value,
                    )
                } else {
                    result.1.is_none()
                },
                Msg::Selected(None) => result.1.is_none(),
            },
    {
        let chosen = match msg {
            Msg::Selected(Some(place)) => {
                if 1 <= place && place <= self.props.options.len() {
                    Some(self.props.options[place - 1].clone())
                } else {
                    None
                }
            },
            Msg::Selected(None) => None,
        };
        (true, chosen)
    }

    /// The message for a change of the element: `selected_index` is the place
    /// of the entry that is chosen now, if one is.
    pub fn on_change(selected_index: Option<usize>) -> (msg: Msg)
        ensures
            msg == Msg::Selected(selected_index),
    {
        Msg::Selected(selected_index)
    }

    /// Takes new properties, and asks for a render.
    pub fn change(&mut self, props: Props<T>) -> (should_render: ShouldRender)
        ensures
            should_render,
            final(self).props == props,
    {
        self.props = props;
        true
    }
}

impl<T: PartialEq + Clone + Display> Select<T> {
    /// The view of the widget: a `select` element, disabled if the widget is,
    /// which listens for a change with the handler `onchange`, with an entry
    /// that stands for no choice, and behind it an entry for each option, which
    /// shows the option as text and is marked where it is the chosen one.
    pub fn view<C: Component>(&self, onchange: u64) -> (html: Html<C>)
        ensures
            html matches VNode::VTag(select) && {
                &&& select.tag@ == "select"@
                &&& select.reference.is_none()
                &&& attributes_view(select.attributes@) == marked(marks(self.props.disabled, false))
                &&& listeners_view(select.listeners@) == seq![("change"@, onchange)]
                &&& select.children.children@.len() == self.props.options@.len() + 1
                &&& attributes_of(select.children.children@[0]) == marked(
                    marks(true, self.props.selected.is_none()),
                )
                &&& T::obeys_eq_spec() ==> forall|i: int|
                    0 <= i < self.props.options@.len() ==> attributes_of(
                        #[trigger] select.children.children@[i + 1],
                    ) == marked(
                        marks(
                            false,
                            self.props.selected matches Some(selected) && selected.eq_spec(
                                &self.props.options@[i],
                            ),
                        ),
                    )
                &&& forall|i: int|
                    0 <= i < select.children.children@.len() ==> is_entry(
                        #[trigger] select.children.children@[i],
                    )
                &&& forall|i: int|
                    0 <= i < self.props.options@.len()
                        ==> vstd::string::to_string_from_display_ensures(
                        &self.props.options@[i],
                        entry_text(#[trigger] select.children.children@[i + 1]),
                    )
            },
    {
        proof {
            reveal_strlit("disabled");
            reveal_strlit("selected");
            assert("disabled"@[0] != "selected"@[0]);
            let one = seq![("disabled"@, "disabled"@)];
            assert(VTag::<C>::first_named(one, "selected"@, 1) == 1);
            assert(VTag::<C>::first_named(one, "selected"@, 0) == 1);
        }
        let mut select: VTag<C> = VTag::new("select");
        if self.props.disabled {
            select.add_attribute("disabled", "disabled");
        }
        select.add_listener(Listener { kind: "change".to_string(), handler: onchange });
        assert(listeners_view(select.listeners@) =~= seq![("change"@, onchange)]);
        assert(attributes_view(select.attributes@) =~= marked(marks(self.props.disabled, false)));
        let mut none: VTag<C> = VTag::new("option");
        none.add_attribute("disabled", "disabled");
        assert(attributes_view(none.attributes@) =~= seq![("disabled"@, "disabled"@)]);
        if self.props.selected.is_none() {
            none.add_attribute("selected", "selected");
            assert(attributes_view(none.attributes@) =~= seq![
                ("disabled"@, "disabled"@),
                ("selected"@, "selected"@),
            ]);
        }
        assert(attributes_view(none.attributes@) =~= marked(
            marks(true, self.props.selected.is_none()),
        ));
        none.add_child(VNode::VText(VText::new("\u{21aa}".to_string())));
        select.add_child(VNode::VTag(Box::new(none)));
        let mut i: usize = 0;
        while i < self.props.options.len()
            invariant
                i <= self.props.options@.len(),
                select.tag@ == "select"@,
                select.reference.is_none(),
                attributes_view(select.attributes@) == marked(marks(self.props.disabled, false)),
                listeners_view(select.listeners@) == seq![("change"@, onchange)],
                select.children.children@.len() == i + 1,
                attributes_of(select.children.children@[0]) == marked(
                    marks(true, self.props.selected.is_none()),
                ),
                T::obeys_eq_spec() ==> forall|k: int|
                    0 <= k < i ==> attributes_of(#[trigger] select.children.children@[k + 1])
                        == marked(
                        marks(
                            false,
                            self.props.selected matches Some(selected) && selected.eq_spec(
                                &self.props.options@[k],
                            ),
                        ),
                    ),
                forall|k: int|
                    0 <= k < select.children.children@.len() ==> is_entry(
                        #[trigger] select.children.children@[k],
                    ),
                forall|k: int|
                    0 <= k < i ==> vstd::string::to_string_from_display_ensures(
                        &self.props.options@[k],
                        entry_text(#[trigger] select.children.children@[k + 1]),
                    ),
            decreases self.props.options@.len() - i,
        {
            let value = &self.props.options[i];
            let mut entry: VTag<C> = VTag::new("option");
            let chosen = match &self.props.selected {
                Some(selected) => selected == value,
                None => false,
            };
            if chosen {
                entry.add_attribute("selected", "selected");
            }
            assert(attributes_view(entry.attributes@) =~= marked(marks(false, chosen)));
            entry.add_child(VNode::VText(VText::new(value.to_string())));
            select.add_child(VNode::VTag(Box::new(entry)));
            i += 1;
        }
        VNode::VTag(Box::new(select))
    }
}

} // verus!
