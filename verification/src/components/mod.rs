//! Widgets for components to build their views with.

pub mod select;

pub use select::Select;
