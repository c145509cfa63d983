//! A JSON value tree that borrows its strings from the parsed input.
//!
//! The tree is built once, by a parser, and then read: by `get` with a
//! position or a key, by the typed accessors, or as a whole, through its
//! structural rendering or its conversion to an owned value.
pub mod binary64;
pub mod equality;
pub mod index;
pub mod number;
pub mod owned;
pub mod render;
pub mod text;
pub mod value;

pub use crate::index::Index;
pub use crate::number::Number;
pub use crate::value::Value;
