//! Environment input management for an interactive tensor-program demo.
//!
//! - [`shape`]: parsing and writing user-typed shape texts such as `(2,3)`.
//! - [`tensor`]: dense arrays generated from a shape and a fill strategy.
//! - [`row`]: one user-editable variable declaration and its validity gate.
//! - [`env`]: the name-to-array mapping and the aggregator that owns it.
//! - [`session`]: preset selection, saved user state, and event handling.
//! - [`fmt`]: display of interpreter results, total over the result kinds.

pub mod env;
pub mod fmt;
pub mod row;
pub mod session;
pub mod shape;
pub mod tensor;
