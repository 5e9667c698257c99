//! A minimal JSON value scanner that works on a borrowed text buffer.
//!
//! Nothing is copied and no tree is built: a [`JSONValue`] is a typed window
//! into the caller's text, and the children of an object or an array are found
//! again by scanning that window each time one is asked for.
//!
//! - [`grammar`] says, over byte sequences, what the scanner accepts.
//! - [`scanner`] is the scanner itself, proved against the grammar.
//! - [`value`] holds the value type, [`JSONValue::parse`] and the readers of
//!   scalars; [`navigate`] holds the lookups in arrays and objects, stated
//!   over the lists of children that [`children`] defines.
//! - [`integer`] reads the text of a number as a machine integer.
//! - [`text`] cuts a `&str` at byte positions that are shown to lie between
//!   characters.
//! - [`extent`], [`frame`] and [`laws`] hold what is proved of every scan.
//!
//! Nesting is followed by recursion, one call for each level of objects and
//! arrays, and no limit is set on it.

pub mod children;
pub mod error;
pub mod extent;
pub mod frame;
pub mod grammar;
pub mod integer;
pub mod laws;
pub mod navigate;
pub mod scanner;
pub mod text;
pub mod value;

pub use error::JSONError;
pub use text::trim_start;
pub use value::{JSONValue, JSONValueType};
