//! Conversions of the values that are written for a property into the type
//! that the property has.

use crate::component::Component;
use crate::html::scope::{share, AnyScope, Scope};
use crate::virtual_dom::key::Key;
use std::rc::Rc;
use vstd::prelude::*;

verus! {

/// The types whose values may be cloned without being asked: a clone of them is
/// cheap, or there is no way round it.
pub trait ImplicitClone: Clone {
    /// A clone of the value.
    fn implicit_clone(&self) -> (clone: Self)
        ensures
            cloned(*self, clone),
    ;
}

impl ImplicitClone for String {
    fn implicit_clone(&self) -> (clone: String) {
        self.clone()
    }
}

impl ImplicitClone for Key {
    fn implicit_clone(&self) -> (clone: Key) {
        self.clone()
    }
}

impl ImplicitClone for AnyScope {
    fn implicit_clone(&self) -> (clone: AnyScope) {
        self.clone()
    }
}

impl<C: Component> ImplicitClone for Scope<C> {
    fn implicit_clone(&self) -> (clone: Scope<C>) {
        self.clone()
    }
}

impl<T: ImplicitClone> ImplicitClone for Option<T> {
    fn implicit_clone(&self) -> (clone: Option<T>) {
        self.clone()
    }
}

impl<T> ImplicitClone for Rc<T> {
    fn implicit_clone(&self) -> (clone: Rc<T>) {
        share(self)
    }
}

/// The values that can be written for a property of the type `T`.
pub trait IntoPropValue<T> {
    /// Whether `value` is the value of the property that this value stands for.
    spec fn gives(self, value: T) -> bool;

    /// Converts the value into the value of the property.
    fn into_prop_value(self) -> (value: T)
        ensures
            self.gives(value),
    ;
}

impl<T> IntoPropValue<T> for T {
    open spec fn gives(self, value: T) -> bool {
        value == self
    }

    fn into_prop_value(self) -> (value: T) {
        self
    }
}

impl<T: ImplicitClone> IntoPropValue<T> for &T {
    open spec fn gives(self, value: T) -> bool {
        cloned(*self, value)
    }

    fn into_prop_value(self) -> (value: T) {
        self.implicit_clone()
    }
}

impl<T> IntoPropValue<Option<T>> for T {
    open spec fn gives(self, value: Option<T>) -> bool {
        value == Some(self)
    }

    fn into_prop_value(self) -> (value: Option<T>) {
        Some(self)
    }
}

impl<T: ImplicitClone> IntoPropValue<Option<T>> for &T {
    open spec fn gives(self, value: Option<T>) -> bool {
        value matches Some(clone) && cloned(*self, clone)
    }

    fn into_prop_value(self) -> (value: Option<T>) {
        Some(self.implicit_clone())
    }
}

impl IntoPropValue<String> for &'static str {
    open spec fn gives(self, value: String) -> bool {
        value@ == self@
    }

    fn into_prop_value(self) -> (value: String) {
        self.to_string()
    }
}

/// The values that can be written for an optional property of the type `T`.
pub trait IntoOptPropValue<T> {
    /// Whether `value` is the value of the property that this value stands for.
    spec fn gives_opt(self, value: Option<T>) -> bool;

    /// Converts the value into the value of the optional property.
    fn into_opt_prop_value(self) -> (value: Option<T>)
        ensures
            self.gives_opt(value),
    ;
}

impl<T, V> IntoOptPropValue<V> for T where T: IntoPropValue<Option<V>> {
    open spec fn gives_opt(self, value: Option<V>) -> bool {
        self.gives(value)
    }

    fn into_opt_prop_value(self) -> (value: Option<V>) {
        self.into_prop_value()
    }
}

impl IntoOptPropValue<String> for &'static str {
    open spec fn gives_opt(self, value: Option<String>) -> bool {
        value matches Some(text) && text@ == self@
    }

    fn into_opt_prop_value(self) -> (value: Option<String>) {
        Some(self.to_string())
    }
}

} // verus!
