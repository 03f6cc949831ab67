//! The virtual nodes that describe what a component wants to show, and the
//! engine that reconciles them with what the surface holds.
//!
//! A virtual node is a description. Applying it to the surface makes the surface
//! match the description, reusing what an ancestor (the node applied before at the
//! same place) left there: an element of the same tag, a text node, a component of
//! the same type. What cannot be reused is detached.

pub mod classes;
pub mod key;
pub mod vcomp;
pub mod vdiff;
pub mod vlist;
pub mod vnode;
pub mod vtag;
pub mod vtext;

pub use classes::Classes;
pub use key::Key;
pub use vcomp::{Transformer, VChild, VComp};
pub use vdiff::VDiff;
pub use vlist::VList;
pub use vnode::VNode;
pub use vtag::VTag;
pub use vtext::VText;
