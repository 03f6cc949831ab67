//! Classes: the set of names that an element carries in its `class` attribute.

use indexmap::IndexSet;
use vstd::prelude::*;
use vstd::std_specs::cmp::PartialEqSpecImpl;
use vstd::string::StringExecFns;

verus! {

#[verifier::external_type_specification]
#[verifier::external_body]
#[verifier::reject_recursive_types(T)]
#[verifier::reject_recursive_types(S)]
pub struct ExIndexSet<T, S>(IndexSet<T, S>);

/// The names that a set holds, in the order in which they were first inserted.
pub uninterp spec fn class_names(set: IndexSet<String>) -> Seq<Seq<char>>;

/// The words of a text: its stretches of characters that are no whitespace, in order.
pub uninterp spec fn words(text: Seq<char>) -> Seq<Seq<char>>;

/// An empty set.
///
/// Calls `IndexSet::new`, which creates a set that holds nothing.
#[verifier::external_body]
fn names_new() -> (set: IndexSet<String>)
    ensures
        class_names(set) == Seq::<Seq<char>>::empty(),
{
    IndexSet::new()
}

/// Inserts a name, unless the set holds it.
///
/// Calls `IndexSet::insert`. Where the set holds an equal value, the set stays
/// as it is, its order included, and `false` is returned; else the value becomes
/// the last one of the set and `true` is returned. Two strings are equal where
/// they spell the same.
#[verifier::external_body]
fn names_insert(set: &mut IndexSet<String>, name: String) -> (added: bool)
    ensures
        added == !class_names(*old(set)).contains(name@),
        class_names(*final(set)) == (if added {
            class_names(*old(set)).push(name@)
        } else {
            class_names(*old(set))
        }),
{
    set.insert(name)
}

/// Whether the set holds a name.
///
/// Calls `IndexSet::contains`, which says whether the set holds a value equal to
/// the one asked for.
#[verifier::external_body]
fn names_contains(set: &IndexSet<String>, name: &str) -> (found: bool)
    ensures
        found == class_names(*set).contains(name@),
{
    set.contains(name)
}

/// The number of names in the set.
///
/// Calls `IndexSet::len`.
#[verifier::external_body]
fn names_len(set: &IndexSet<String>) -> (len: usize)
    ensures
        len == class_names(*set).len(),
{
    set.len()
}

/// The name at a place of the set.
///
/// Calls `IndexSet::get_index`, which returns the value at a place that is less
/// than the length of the set, in the order of insertion, and nothing else.
#[verifier::external_body]
fn names_get(set: &IndexSet<String>, index: usize) -> (name: Option<&String>)
    ensures
        match name {
            Some(name) => index < class_names(*set).len() && name@ == class_names(
                *set,
            )[index as int],
            None => index >= class_names(*set).len(),
        },
{
    set.get_index(index)
}

/// The words of a text.
///
/// Calls `str::split_whitespace`, which hands out the stretches of the text
/// between whitespace, in order, none of them empty.
#[verifier::external_body]
fn split_whitespace(text: &str) -> (found: Vec<String>)
    ensures
        found@.len() == words(text@).len(),
        forall|i: int| 0 <= i < found@.len() ==> (#[trigger] found@[i])@ == words(text@)[i],
{
    text.split_whitespace().map(String::from).collect()
}

/// A copy of the set.
///
/// Calls `IndexSet::clone`, which clones the entries of the set in their order.
#[verifier::external_body]
fn names_clone(set: &IndexSet<String>) -> (copy: IndexSet<String>)
    ensures
        class_names(copy) == class_names(*set),
{
    set.clone()
}

/// Whether two sets hold the same names.
///
/// Calls `==` of `IndexSet`, which is true where the two sets have the same
/// length and the second holds every value of the first, whatever their order.
#[verifier::external_body]
fn names_eq(a: &IndexSet<String>, b: &IndexSet<String>) -> (equal: bool)
    ensures
        equal == same_names(class_names(*a), class_names(*b)),
{
    a == b
}

/// Whether two lists of names are of one length, and the second holds every
/// name of the first.
pub open spec fn same_names(a: Seq<Seq<char>>, b: Seq<Seq<char>>) -> bool {
    a.len() == b.len() && forall|i: int| 0 <= i < a.len() ==> b.contains(#[trigger] a[i])
}

/// A set of class names. A name is held once, at the place at which it was
/// first added.
#[derive(Debug)]
pub struct Classes {
    set: IndexSet<String>,
}

impl Clone for Classes {
    fn clone(&self) -> (classes: Classes)
        ensures
            classes@ == self@,
    {
        Classes { set: names_clone(&self.set) }
    }
}

impl Default for Classes {
    /// An empty set of classes.
    fn default() -> (classes: Classes)
        ensures
            classes@ == Seq::<Seq<char>>::empty(),
    {
        Classes { set: names_new() }
    }
}

impl PartialEq for Classes {
    /// Two sets are equal where they hold the same classes, in whatever order.
    fn eq(&self, other: &Classes) -> (equal: bool) {
        names_eq(&self.set, &other.set)
    }
}

impl PartialEqSpecImpl for Classes {
    open spec fn obeys_eq_spec() -> bool {
        true
    }

    open spec fn eq_spec(&self, other: &Classes) -> bool {
        same_names(self@, other@)
    }
}

impl View for Classes {
    type V = Seq<Seq<char>>;

    closed spec fn view(&self) -> Seq<Seq<char>> {
        class_names(self.set)
    }
}

/// `names` with `name` added at the end, unless `names` holds it.
pub open spec fn with_name(names: Seq<Seq<char>>, name: Seq<char>) -> Seq<Seq<char>> {
    if names.contains(name) {
        names
    } else {
        names.push(name)
    }
}

/// `names` with each of the first `count` of `added` added in turn, unless it
/// is held by then.
pub open spec fn with_names(names: Seq<Seq<char>>, added: Seq<Seq<char>>, count: int) -> Seq<
    Seq<char>,
>
    decreases count,
{
    if 0 < count <= added.len() {
        with_name(with_names(names, added, count - 1), added[count - 1])
    } else {
        names
    }
}

/// The first `count` of `names`, with a space between one and the next.
pub open spec fn joined(names: Seq<Seq<char>>, count: int) -> Seq<char>
    decreases count,
{
    if 1 < count <= names.len() {
        joined(names, count - 1) + seq![' '] + names[count - 1]
    } else if count == 1 && names.len() >= 1 {
        names[0]
    } else {
        Seq::empty()
    }
}

impl Classes {
    /// Creates an empty set of classes.
    pub fn new() -> (classes: Classes)
        ensures
            classes@ == Seq::<Seq<char>>::empty(),
    {
        Classes { set: names_new() }
    }

    /// Adds a class to the set. A class that the set holds is not added again.
    pub fn push(&mut self, class: &str)
        ensures
            final(self)@ == with_name(old(self)@, class@),
    {
        names_insert(&mut self.set, class.to_owned());
    }

    /// Whether the set holds a class.
    pub fn contains(&self, class: &str) -> (found: bool)
        ensures
            found == self@.contains(class@),
    {
        names_contains(&self.set, class)
    }

    /// The number of classes in the set.
    pub fn len(&self) -> (len: usize)
        ensures
            len == self@.len(),
    {
        names_len(&self.set)
    }

    /// Adds the classes of `other` to this set, in their order, and returns the set.
    pub fn extend(self, other: Classes) -> (classes: Classes)
        ensures
            classes@ == with_names(self@, other@, other@.len() as int),
    {
        let mut classes = self;
        let count = names_len(&other.set);
        let mut i: usize = 0;
        while i < count
            invariant
                i <= count,
                count == other@.len(),
                classes@ == with_names(self@, other@, i as int),
            decreases count - i,
        {
            match names_get(&other.set, i) {
                Some(name) => {
                    names_insert(&mut classes.set, name.clone());
                },
                None => {},
            }
            i += 1;
        }
        classes
    }

    /// The classes, with a space between one and the next: the value of the
    /// `class` attribute.
    pub fn to_string(&self) -> (text: String)
        ensures
            text@ == joined(self@, self@.len() as int),
    {
        let mut text = String::new();
        let count = names_len(&self.set);
        let mut i: usize = 0;
        while i < count
            invariant
                i <= count,
                count == self@.len(),
                text@ == joined(self@, i as int),
            decreases count - i,
        {
            match names_get(&self.set, i) {
                Some(name) => {
                    if i > 0 {
                        proof {
                            reveal_strlit(" ");
                            assert(" "@ =~= seq![' ']);
                        }
                        text.append(" ");
                        text.append(name.as_str());
                    } else {
                        text.append(name.as_str());
                        assert(text@ =~= self@[0]);
                    }
                },
                None => {},
            }
            i += 1;
        }
        text
    }

    /// The set of the words of `text`, each held once, at the place at which
    /// it comes first.
    pub fn from_str(text: &str) -> (classes: Classes)
        ensures
            classes@ == with_names(Seq::empty(), words(text@), words(text@).len() as int),
    {
        let found = split_whitespace(text);
        let mut classes = Classes::new();
        let mut i: usize = 0;
        while i < found.len()
            invariant
                i <= found@.len(),
                found@.len() == words(text@).len(),
                forall|k: int| 0 <= k < found@.len() ==> (#[trigger] found@[k])@ == words(text@)[k],
                classes@ == with_names(Seq::empty(), words(text@), i as int),
            decreases found@.len() - i,
        {
            names_insert(&mut classes.set, found[i].clone());
            i += 1;
        }
        classes
    }

    /// The set of `names`, each held once, at the place at which it comes first.
    pub fn from_vec(names: Vec<String>) -> (classes: Classes)
        ensures
            classes@ == with_names(
                Seq::empty(),
                Seq::new(names@.len(), |i: int| names@[i]@),
                names@.len() as int,
            ),
    {
        let mut classes = Classes::new();
        let mut i: usize = 0;
        while i < names.len()
            invariant
                i <= names@.len(),
                classes@ == with_names(
                    Seq::empty(),
                    Seq::new(names@.len(), |i: int| names@[i]@),
                    i as int,
                ),
            decreases names@.len() - i,
        {
            names_insert(&mut classes.set, names[i].clone());
            i += 1;
        }
        classes
    }
}

} // verus!
