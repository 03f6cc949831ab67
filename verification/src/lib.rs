//! A component-based UI runtime: a cooperative lifecycle scheduler and a
//! virtual-DOM diff/patch engine, with machine-checked contracts.
//!
//! State is organised as a tree of components. Each component describes what it
//! wants to show as a tree of virtual nodes; the runtime reconciles that tree with
//! the one it rendered before and applies the difference to the [`surface`]. All
//! lifecycle work runs as discrete tasks under one [`scheduler`].

pub mod app;
pub mod callback;
pub mod component;
pub mod components;
pub mod functional;
pub mod html;
pub mod scheduler;
pub mod surface;
pub mod virtual_dom;
