//! The items that a component author works with: properties, scopes and the
//! type of a rendered view.

pub mod conversion;
pub mod scope;

pub use crate::component::{Component, ComponentLink, Context, ShouldRender};
pub use conversion::{ImplicitClone, IntoOptPropValue, IntoPropValue};
pub use scope::{AnyScope, Scope, ScopeId, TypeIdentity};

use crate::virtual_dom::VNode;
use vstd::prelude::*;

verus! {

/// What `view` returns.
pub type Html<C> = VNode<C>;

/// The inputs of a component, built step by step by a builder of their own.
pub trait Properties {
    /// The builder that constructs the properties.
    type Builder;

    /// Where building properties starts.
    fn builder() -> Self::Builder;
}

/// The builder of the properties of a component that has none.
#[derive(Debug)]
pub struct EmptyBuilder;

impl Properties for () {
    type Builder = EmptyBuilder;

    fn builder() -> (builder: EmptyBuilder) {
        EmptyBuilder
    }
}

impl EmptyBuilder {
    /// Builds the empty properties.
    pub fn build(self) -> (props: ())
        ensures
            props == (),
    {
    }
}


/// The value of an `href` attribute.
#[derive(Debug)]
pub struct Href {
    link: String,
}

impl View for Href {
    type V = Seq<char>;

    closed spec fn view(&self) -> Seq<char> {
        self.link@
    }
}

impl Href {
    /// The reference that `link` spells.
    pub fn new(link: String) -> (href: Href)
        ensures
            href@ == link@,
    {
        Href { link }
    }

    /// The reference that `link` spells.
    pub fn from_str(link: &str) -> (href: Href)
        ensures
            href@ == link@,
    {
        Href { link: link.to_owned() }
    }

    /// What the reference spells.
    pub fn to_string(&self) -> (link: String)
        ensures
            link@ == self@,
    {
        self.link.clone()
    }
}

} // verus!
