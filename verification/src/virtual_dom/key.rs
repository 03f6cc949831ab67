//! Keys: what tells apart two virtual components of the same type.

use vstd::prelude::*;

verus! {

/// The key of a virtual node.
#[derive(Debug)]
pub struct Key {
    pub key: String,
}

impl View for Key {
    type V = Seq<char>;

    open spec fn view(&self) -> Seq<char> {
        self.key@
    }
}

impl Clone for Key {
    fn clone(&self) -> (r: Self)
        ensures
            r@ == self@,
    {
        Key { key: self.key.clone() }
    }
}

impl Key {
    /// The key that `key` spells.
    pub fn new(key: &str) -> (r: Key)
        ensures
            r@ == key@,
    {
        Key { key: key.to_owned() }
    }
}

/// What an optional key spells.
pub open spec fn key_view(key: Option<Key>) -> Option<Seq<char>> {
    match key {
        Some(k) => Some(k@),
        None => None,
    }
}

/// Whether two optional keys are both absent or spell the same.
pub fn same_key(a: &Option<Key>, b: &Option<Key>) -> (r: bool)
    ensures
        r == (key_view(*a) == key_view(*b)),
{
    match (a, b) {
        (Some(x), Some(y)) => x.key == y.key,
        (None, None) => true,
        _ => false,
    }
}

} // verus!
