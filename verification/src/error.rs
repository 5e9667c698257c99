//! The reasons for which scanning or reading a value fails.

use vstd::prelude::*;

verus! {

/// Why an operation on JSON text failed. Every failure is final for the call
/// that reports it; nothing is retried or repaired.
#[derive(Copy, Clone, PartialEq, Eq, Debug, Structural)]
pub enum JSONError {
    /// The input ended where an object, an array or a string still needed a
    /// separator or its closing delimiter.
    UnexpectedEndOfStream,
    /// The key position of an object member held a value that is not a string.
    InvalidObjectKey,
    /// A `:`, a `,` or a closing delimiter was expected and something else was
    /// found.
    InvalidToken,
    /// A `-` stood inside a number, or a byte that is no digit was met while
    /// reading an integer.
    NumberFormatError,
    /// A value began with `t`, `f` or `n` without being `true`, `false` or
    /// `null`.
    UnrecognizedLiteral,
    /// The first significant byte starts no value, or the input was empty
    /// where a value had to stand.
    UnexpectedToken,
    /// An accessor was called on a value of another kind.
    TypeMismatch,
    /// No member of the object has the requested key.
    KeyNotFound,
    /// The array has no item at the requested index.
    IndexOutOfBounds,
}

} // verus!
