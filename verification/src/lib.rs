//! A singly-owned cons list of `i32` values and its one-line textual
//! rendering, together with the decimal notation the rendering is built on.

pub mod decimal;
pub mod list;

pub use list::List;
