//! Implicit variant discrimination: decoding loosely typed, self-describing
//! values into a tagged union without an explicit discriminant field.
pub mod content;
pub mod error;
pub mod shape;
pub mod keyed;
pub mod positional;
pub mod union;
pub mod laws;
pub mod internal;
pub mod schema;
pub mod access;
