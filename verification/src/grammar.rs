//! The grammar that the scanner accepts, as functions on byte sequences.
//!
//! Text is read as its UTF-8 bytes. Every byte that the grammar gives a
//! meaning to is ASCII, and in UTF-8 an ASCII byte never occurs inside the
//! encoding of another character, so nothing is lost by looking at bytes.
//!
//! The functions here take a sequence `s` and a position `pos` in it and say
//! how many bytes the thing that starts at `pos` takes up. Positions are
//! absolute; lengths are counted from the position given.

use vstd::prelude::*;
use crate::error::JSONError;
use crate::value::JSONValueType;

verus! {

pub const SPACE: u8 = 0x20;

pub const TAB: u8 = 0x09;

pub const LINE_FEED: u8 = 0x0a;

pub const CARRIAGE_RETURN: u8 = 0x0d;

pub const QUOTE: u8 = 0x22;

pub const BACKSLASH: u8 = 0x5c;

pub const COMMA: u8 = 0x2c;

pub const COLON: u8 = 0x3a;

pub const MINUS: u8 = 0x2d;

pub const DOT: u8 = 0x2e;

pub const OPEN_BRACE: u8 = 0x7b;

pub const CLOSE_BRACE: u8 = 0x7d;

pub const OPEN_BRACKET: u8 = 0x5b;

pub const CLOSE_BRACKET: u8 = 0x5d;

pub const DIGIT_ZERO: u8 = 0x30;

pub const DIGIT_NINE: u8 = 0x39;

pub const UPPER_E: u8 = 0x45;

pub const LOWER_A: u8 = 0x61;

pub const LOWER_E: u8 = 0x65;

pub const LOWER_F: u8 = 0x66;

pub const LOWER_L: u8 = 0x6c;

pub const LOWER_N: u8 = 0x6e;

pub const LOWER_R: u8 = 0x72;

pub const LOWER_S: u8 = 0x73;

pub const LOWER_T: u8 = 0x74;

pub const LOWER_U: u8 = 0x75;

/// The four bytes that JSON treats as insignificant between tokens: space,
/// horizontal tab, line feed and carriage return.
pub open spec fn is_whitespace(b: u8) -> bool {
    b == SPACE || b == TAB || b == LINE_FEED || b == CARRIAGE_RETURN
}

/// An ASCII decimal digit.
pub open spec fn is_digit(b: u8) -> bool {
    DIGIT_ZERO <= b <= DIGIT_NINE
}

/// A byte that may stand in the text of a number: a digit, `-`, `.`, `e` or
/// `E`.
pub open spec fn is_number_byte(b: u8) -> bool {
    is_digit(b) || b == MINUS || b == DOT || b == LOWER_E || b == UPPER_E
}

/// The number of whitespace bytes that `s` holds from `pos` on, up to the
/// first byte that is not whitespace or the end of `s`.
pub open spec fn whitespace_len(s: Seq<u8>, pos: int) -> nat
    decreases s.len() - pos,
{
    if 0 <= pos < s.len() && is_whitespace(s[pos]) {
        1 + whitespace_len(s, pos + 1)
    } else {
        0
    }
}

/// The length of the longest run of number bytes that starts at `pos`.
pub open spec fn number_len(s: Seq<u8>, pos: int) -> nat
    decreases s.len() - pos,
{
    if 0 <= pos < s.len() && is_number_byte(s[pos]) {
        1 + number_len(s, pos + 1)
    } else {
        0
    }
}

/// Whether a `-` stands among the `len` bytes from `pos` on, anywhere but at
/// `pos` itself.
pub open spec fn has_inner_minus(s: Seq<u8>, pos: int, len: nat) -> bool {
    exists|i: int| pos < i < pos + len && #[trigger] s[i] == MINUS
}

/// The number of bytes from `pos` up to and including the quote that closes a
/// string whose opening quote has already been passed; `None` if `s` ends
/// before such a quote.
///
/// `escaped` says whether the byte at `pos` is escaped. A backslash that is
/// not itself escaped escapes the one byte after it, so in `\\"` the quote is
/// not escaped.
pub open spec fn string_tail_len(s: Seq<u8>, pos: int, escaped: bool) -> Option<nat>
    decreases s.len() - pos,
{
    if !(0 <= pos < s.len()) {
        None
    } else if s[pos] == QUOTE && !escaped {
        Some(1)
    } else {
        match string_tail_len(s, pos + 1, s[pos] == BACKSLASH && !escaped) {
            Some(n) => Some(n + 1),
            None => None,
        }
    }
}

/// Whether the four bytes from `pos` on spell `true`.
pub open spec fn is_true_at(s: Seq<u8>, pos: int) -> bool {
    &&& 0 <= pos
    &&& pos + 4 <= s.len()
    &&& s[pos] == LOWER_T
    &&& s[pos + 1] == LOWER_R
    &&& s[pos + 2] == LOWER_U
    &&& s[pos + 3] == LOWER_E
}

/// Whether the five bytes from `pos` on spell `false`.
pub open spec fn is_false_at(s: Seq<u8>, pos: int) -> bool {
    &&& 0 <= pos
    &&& pos + 5 <= s.len()
    &&& s[pos] == LOWER_F
    &&& s[pos + 1] == LOWER_A
    &&& s[pos + 2] == LOWER_L
    &&& s[pos + 3] == LOWER_S
    &&& s[pos + 4] == LOWER_E
}

/// Whether the four bytes from `pos` on spell `null`.
pub open spec fn is_null_at(s: Seq<u8>, pos: int) -> bool {
    &&& 0 <= pos
    &&& pos + 4 <= s.len()
    &&& s[pos] == LOWER_N
    &&& s[pos + 1] == LOWER_U
    &&& s[pos + 2] == LOWER_L
    &&& s[pos + 3] == LOWER_L
}

/// What one scan finds at a position: the kind of the value, the number of
/// whitespace bytes before it, and the number of bytes of the value itself.
pub struct Scanned {
    pub kind: JSONValueType,
    pub skipped: nat,
    pub len: nat,
}

impl Scanned {
    /// The bytes that the scan used up: the whitespace and the value.
    pub open spec fn consumed(self) -> nat {
        self.skipped + self.len
    }
}

/// The value that starts at the first byte of `s` from `pos` on that is not
/// whitespace, or the reason why there is none.
///
/// The first significant byte decides the kind. An object or an array runs to
/// its own closing delimiter, found by scanning each member in turn; a string
/// runs to the first quote that is not escaped; a number is the longest run of
/// number bytes and may hold `-` only in its first place; `true`, `false` and
/// `null` must be spelled out in full.
pub open spec fn scan_value(s: Seq<u8>, pos: int) -> Result<Scanned, JSONError>
    decreases s.len() - pos, 0int,
{
    let skipped = whitespace_len(s, pos);
    let start = pos + skipped;
    if pos < 0 || start >= s.len() {
        Err(JSONError::UnexpectedToken)
    } else if s[start] == OPEN_BRACE {
        match scan_members(s, start + 1) {
            Ok(n) => Ok(Scanned { kind: JSONValueType::Object, skipped, len: 1 + n }),
            Err(e) => Err(e),
        }
    } else if s[start] == OPEN_BRACKET {
        match scan_items(s, start + 1) {
            Ok(n) => Ok(Scanned { kind: JSONValueType::Array, skipped, len: 1 + n }),
            Err(e) => Err(e),
        }
    } else if s[start] == QUOTE {
        match string_tail_len(s, start + 1, false) {
            Some(n) => Ok(Scanned { kind: JSONValueType::String, skipped, len: 1 + n }),
            None => Err(JSONError::UnexpectedEndOfStream),
        }
    } else if is_digit(s[start]) || s[start] == MINUS {
        let len = number_len(s, start);
        if has_inner_minus(s, start, len) {
            Err(JSONError::NumberFormatError)
        } else {
            Ok(Scanned { kind: JSONValueType::Number, skipped, len })
        }
    } else if s[start] == LOWER_T {
        if is_true_at(s, start) {
            Ok(Scanned { kind: JSONValueType::Bool, skipped, len: 4 })
        } else {
            Err(JSONError::UnrecognizedLiteral)
        }
    } else if s[start] == LOWER_F {
        if is_false_at(s, start) {
            Ok(Scanned { kind: JSONValueType::Bool, skipped, len: 5 })
        } else {
            Err(JSONError::UnrecognizedLiteral)
        }
    } else if s[start] == LOWER_N {
        if is_null_at(s, start) {
            Ok(Scanned { kind: JSONValueType::Null, skipped, len: 4 })
        } else {
            Err(JSONError::UnrecognizedLiteral)
        }
    } else {
        Err(JSONError::UnexpectedToken)
    }
}

/// Whether `text` is the text of one value of kind `kind`: scanned from its
/// first byte it is that value, with nothing before it and nothing after.
pub open spec fn is_value_text(text: Seq<u8>, kind: JSONValueType) -> bool {
    scan_value(text, 0) == Ok::<Scanned, JSONError>(Scanned { kind, skipped: 0, len: text.len() })
}

/// The number of bytes from `pos`, which stands just after the `[` of an array
/// or after a `,` in it, up to and including the `]` that closes the array.
///
/// Either the next significant byte is `]`, or a value stands here and is
/// followed by `,` and the rest of the array, or by `]`.
pub open spec fn scan_items(s: Seq<u8>, pos: int) -> Result<nat, JSONError>
    decreases s.len() - pos, 1int,
{
    let next = pos + whitespace_len(s, pos);
    if pos < 0 {
        Err(JSONError::UnexpectedToken)
    } else if next < s.len() && s[next] == CLOSE_BRACKET {
        Ok((whitespace_len(s, pos) + 1) as nat)
    } else {
        match scan_value(s, pos) {
            Err(e) => Err(e),
            Ok(item) => {
                let after = pos + item.consumed();
                let sep = after + whitespace_len(s, after);
                if sep >= s.len() {
                    Err(JSONError::UnexpectedEndOfStream)
                } else if s[sep] == COMMA {
                    match scan_items(s, sep + 1) {
                        Ok(n) => Ok((sep + 1 - pos + n) as nat),
                        Err(e) => Err(e),
                    }
                } else if s[sep] == CLOSE_BRACKET {
                    Ok((sep + 1 - pos) as nat)
                } else {
                    Err(JSONError::InvalidToken)
                }
            },
        }
    }
}

/// The number of bytes from `pos`, which stands just after the `{` of an
/// object or after a `,` in it, up to and including the `}` that closes the
/// object.
///
/// Either the next significant byte is `}`, or a member stands here: a string,
/// a `:` and a value, followed by `,` and the rest of the object, or by `}`.
pub open spec fn scan_members(s: Seq<u8>, pos: int) -> Result<nat, JSONError>
    decreases s.len() - pos, 1int,
{
    let next = pos + whitespace_len(s, pos);
    if pos < 0 {
        Err(JSONError::UnexpectedToken)
    } else if next < s.len() && s[next] == CLOSE_BRACE {
        Ok((whitespace_len(s, pos) + 1) as nat)
    } else {
        match scan_value(s, pos) {
            Err(e) => Err(e),
            Ok(key) => {
                let colon = pos + key.consumed() + whitespace_len(s, pos + key.consumed());
                if key.kind != JSONValueType::String {
                    Err(JSONError::InvalidObjectKey)
                } else if colon >= s.len() {
                    Err(JSONError::UnexpectedEndOfStream)
                } else if s[colon] != COLON {
                    Err(JSONError::InvalidToken)
                } else {
                    match scan_value(s, colon + 1) {
                        Err(e) => Err(e),
                        Ok(value) => {
                            let after = colon + 1 + value.consumed();
                            let sep = after + whitespace_len(s, after);
                            if sep >= s.len() {
                                Err(JSONError::UnexpectedEndOfStream)
                            } else if s[sep] == COMMA {
                                match scan_members(s, sep + 1) {
                                    Ok(n) => Ok((sep + 1 - pos + n) as nat),
                                    Err(e) => Err(e),
                                }
                            } else if s[sep] == CLOSE_BRACE {
                                Ok((sep + 1 - pos) as nat)
                            } else {
                                Err(JSONError::InvalidToken)
                            }
                        },
                    }
                }
            },
        }
    }
}

} // verus!
