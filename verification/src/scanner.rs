//! The scanner: one pass over the bytes of a text that finds where the next
//! value starts, what kind it has and where it ends.
//!
//! Nothing is allocated. Objects and arrays are measured by scanning their
//! members one after another, so the depth of the call stack follows the depth
//! of nesting in the text, not its length.

use vstd::prelude::*;
use crate::error::JSONError;
use crate::grammar::{
    has_inner_minus, is_digit, is_false_at, is_null_at, is_true_at, is_whitespace, number_len,
    scan_items, scan_members, scan_value, string_tail_len, whitespace_len, Scanned, BACKSLASH,
    CARRIAGE_RETURN, CLOSE_BRACE, CLOSE_BRACKET, COLON, COMMA, DIGIT_NINE, DIGIT_ZERO, DOT,
    LINE_FEED, LOWER_A, LOWER_E, LOWER_F, LOWER_L, LOWER_N, LOWER_R, LOWER_S, LOWER_T, LOWER_U,
    MINUS, OPEN_BRACE, OPEN_BRACKET, QUOTE, SPACE, TAB, UPPER_E,
};
use crate::value::JSONValueType;

verus! {

/// Where a value lies in a buffer: `start` is the index of its first byte and
/// `end` the index just past its last one.
#[derive(Copy, Clone, Debug)]
pub struct Extent {
    pub kind: JSONValueType,
    pub start: usize,
    pub end: usize,
}

impl Extent {
    /// The same find as the grammar states it for a scan that began at `pos`.
    pub open spec fn scanned_from(self, pos: int) -> Scanned {
        Scanned {
            kind: self.kind,
            skipped: (self.start - pos) as nat,
            len: (self.end - self.start) as nat,
        }
    }
}

pub fn is_whitespace_byte(b: u8) -> (r: bool)
    ensures
        r == is_whitespace(b),
{
    b == SPACE || b == TAB || b == LINE_FEED || b == CARRIAGE_RETURN
}

pub fn is_digit_byte(b: u8) -> (r: bool)
    ensures
        r == is_digit(b),
{
    DIGIT_ZERO <= b && b <= DIGIT_NINE
}

/// The index of the first byte from `pos` on that is not whitespace, or the
/// length of `bytes` if there is none.
pub fn skip_whitespace(bytes: &[u8], pos: usize) -> (end: usize)
    requires
        pos <= bytes.len(),
    ensures
        end == pos + whitespace_len(bytes@, pos as int),
        end <= bytes.len(),
{
    let mut i: usize = pos;
    while i < bytes.len() && is_whitespace_byte(bytes[i])
        invariant
            pos <= i <= bytes.len(),
            whitespace_len(bytes@, pos as int) == (i - pos) + whitespace_len(bytes@, i as int),
        decreases bytes.len() - i,
    {
        i += 1;
    }
    i
}

/// Finds the end of a string whose opening quote stands just before `pos`:
/// the index just past the first quote that is not escaped.
pub fn scan_string_tail(bytes: &[u8], pos: usize) -> (r: Option<usize>)
    requires
        pos <= bytes.len(),
    ensures
        match r {
            Some(end) => pos < end <= bytes.len() && string_tail_len(bytes@, pos as int, false)
                == Some((end - pos) as nat),
            None => string_tail_len(bytes@, pos as int, false) is None,
        },
{
    let mut i: usize = pos;
    let mut escaped: bool = false;
    while i < bytes.len()
        invariant
            pos <= i <= bytes.len(),
            string_tail_len(bytes@, pos as int, false) == match string_tail_len(
                bytes@,
                i as int,
                escaped,
            ) {
                Some(n) => Some((n + (i - pos)) as nat),
                None => None,
            },
        decreases bytes.len() - i,
    {
        let b: u8 = bytes[i];
        if b == QUOTE && !escaped {
            return Some(i + 1);
        }
        escaped = b == BACKSLASH && !escaped;
        i += 1;
    }
    None
}

/// Finds the end of the number that starts at `start`: the index just past the
/// longest run of number bytes, unless a `-` stands inside the run.
pub fn scan_number(bytes: &[u8], start: usize) -> (r: Result<usize, JSONError>)
    requires
        start <= bytes.len(),
    ensures
        match r {
            Ok(end) => {
                &&& start <= end <= bytes.len()
                &&& end - start == number_len(bytes@, start as int)
                &&& !has_inner_minus(bytes@, start as int, number_len(bytes@, start as int))
            },
            Err(e) => {
                &&& e == JSONError::NumberFormatError
                &&& has_inner_minus(bytes@, start as int, number_len(bytes@, start as int))
            },
        },
{
    let mut i: usize = start;
    while i < bytes.len()
        invariant
            start <= i <= bytes.len(),
            number_len(bytes@, start as int) == (i - start) + number_len(bytes@, i as int),
            forall|j: int| start < j < i ==> bytes@[j] != MINUS,
        ensures
            start <= i <= bytes.len(),
            number_len(bytes@, start as int) == i - start,
            forall|j: int| start < j < i ==> bytes@[j] != MINUS,
        decreases bytes.len() - i,
    {
        let b: u8 = bytes[i];
        if b == MINUS {
            if i > start {
                assert(bytes@[i as int] == MINUS);
                return Err(JSONError::NumberFormatError);
            }
        } else if !(is_digit_byte(b) || b == DOT || b == LOWER_E || b == UPPER_E) {
            break;
        }
        i += 1;
    }
    Ok(i)
}

/// Whether `bytes` spells `true` from `pos` on.
pub fn spells_true(bytes: &[u8], pos: usize) -> (r: bool)
    requires
        pos <= bytes.len(),
    ensures
        r == is_true_at(bytes@, pos as int),
{
    bytes.len() - pos >= 4 && bytes[pos] == LOWER_T && bytes[pos + 1] == LOWER_R && bytes[pos + 2]
        == LOWER_U && bytes[pos + 3] == LOWER_E
}

/// Whether `bytes` spells `false` from `pos` on.
pub fn spells_false(bytes: &[u8], pos: usize) -> (r: bool)
    requires
        pos <= bytes.len(),
    ensures
        r == is_false_at(bytes@, pos as int),
{
    bytes.len() - pos >= 5 && bytes[pos] == LOWER_F && bytes[pos + 1] == LOWER_A && bytes[pos + 2]
        == LOWER_L && bytes[pos + 3] == LOWER_S && bytes[pos + 4] == LOWER_E
}

/// Whether `bytes` spells `null` from `pos` on.
pub fn spells_null(bytes: &[u8], pos: usize) -> (r: bool)
    requires
        pos <= bytes.len(),
    ensures
        r == is_null_at(bytes@, pos as int),
{
    bytes.len() - pos >= 4 && bytes[pos] == LOWER_N && bytes[pos + 1] == LOWER_U && bytes[pos + 2]
        == LOWER_L && bytes[pos + 3] == LOWER_L
}

/// Scans the value that starts at the first significant byte from `pos` on.
pub fn scan_value_at(bytes: &[u8], pos: usize) -> (r: Result<Extent, JSONError>)
    requires
        pos <= bytes.len(),
    ensures
        match r {
            Ok(found) => {
                &&& pos <= found.start < found.end <= bytes.len()
                &&& scan_value(bytes@, pos as int) == Ok::<Scanned, JSONError>(
                    found.scanned_from(pos as int),
                )
            },
            Err(e) => scan_value(bytes@, pos as int) == Err::<Scanned, JSONError>(e),
        },
    decreases bytes.len() - pos, 0int,
{
    let start: usize = skip_whitespace(bytes, pos);
    if start >= bytes.len() {
        return Err(JSONError::UnexpectedToken);
    }
    let first: u8 = bytes[start];
    if first == OPEN_BRACE {
        match scan_members_at(bytes, start + 1) {
            Ok(end) => Ok(Extent { kind: JSONValueType::Object, start, end }),
            Err(e) => Err(e),
        }
    } else if first == OPEN_BRACKET {
        match scan_items_at(bytes, start + 1) {
            Ok(end) => Ok(Extent { kind: JSONValueType::Array, start, end }),
            Err(e) => Err(e),
        }
    } else if first == QUOTE {
        match scan_string_tail(bytes, start + 1) {
            Some(end) => Ok(Extent { kind: JSONValueType::String, start, end }),
            None => Err(JSONError::UnexpectedEndOfStream),
        }
    } else if is_digit_byte(first) || first == MINUS {
        match scan_number(bytes, start) {
            Ok(end) => Ok(Extent { kind: JSONValueType::Number, start, end }),
            Err(e) => Err(e),
        }
    } else if first == LOWER_T {
        if spells_true(bytes, start) {
            Ok(Extent { kind: JSONValueType::Bool, start, end: start + 4 })
        } else {
            Err(JSONError::UnrecognizedLiteral)
        }
    } else if first == LOWER_F {
        if spells_false(bytes, start) {
            Ok(Extent { kind: JSONValueType::Bool, start, end: start + 5 })
        } else {
            Err(JSONError::UnrecognizedLiteral)
        }
    } else if first == LOWER_N {
        if spells_null(bytes, start) {
            Ok(Extent { kind: JSONValueType::Null, start, end: start + 4 })
        } else {
            Err(JSONError::UnrecognizedLiteral)
        }
    } else {
        Err(JSONError::UnexpectedToken)
    }
}

/// Scans the items of an array from `pos`, which stands just after its `[`,
/// and returns the index just past its `]`.
pub fn scan_items_at(bytes: &[u8], pos: usize) -> (r: Result<usize, JSONError>)
    requires
        pos <= bytes.len(),
    ensures
        match r {
            Ok(end) => pos < end <= bytes.len() && scan_items(bytes@, pos as int) == Ok::<
                nat,
                JSONError,
            >((end - pos) as nat),
            Err(e) => scan_items(bytes@, pos as int) == Err::<nat, JSONError>(e),
        },
    decreases bytes.len() - pos, 1int,
{
    let mut cur: usize = pos;
    loop
        invariant
            pos <= cur <= bytes.len(),
            scan_items(bytes@, pos as int) == match scan_items(bytes@, cur as int) {
                Ok(n) => Ok::<nat, JSONError>((n + (cur - pos)) as nat),
                Err(e) => Err(e),
            },
        decreases bytes.len() - cur,
    {
        let next: usize = skip_whitespace(bytes, cur);
        if next < bytes.len() && bytes[next] == CLOSE_BRACKET {
            return Ok(next + 1);
        }
        let item: Extent = match scan_value_at(bytes, cur) {
            Ok(found) => found,
            Err(e) => { return Err(e); },
        };
        let sep: usize = skip_whitespace(bytes, item.end);
        if sep >= bytes.len() {
            return Err(JSONError::UnexpectedEndOfStream);
        }
        if bytes[sep] == COMMA {
            cur = sep + 1;
        } else if bytes[sep] == CLOSE_BRACKET {
            return Ok(sep + 1);
        } else {
            return Err(JSONError::InvalidToken);
        }
    }
}

/// Scans the members of an object from `pos`, which stands just after its
/// `{`, and returns the index just past its `}`.
pub fn scan_members_at(bytes: &[u8], pos: usize) -> (r: Result<usize, JSONError>)
    requires
        pos <= bytes.len(),
    ensures
        match r {
            Ok(end) => pos < end <= bytes.len() && scan_members(bytes@, pos as int) == Ok::<
                nat,
                JSONError,
            >((end - pos) as nat),
            Err(e) => scan_members(bytes@, pos as int) == Err::<nat, JSONError>(e),
        },
    decreases bytes.len() - pos, 1int,
{
    let mut cur: usize = pos;
    loop
        invariant
            pos <= cur <= bytes.len(),
            scan_members(bytes@, pos as int) == match scan_members(bytes@, cur as int) {
                Ok(n) => Ok::<nat, JSONError>((n + (cur - pos)) as nat),
                Err(e) => Err(e),
            },
        decreases bytes.len() - cur,
    {
        let next: usize = skip_whitespace(bytes, cur);
        if next < bytes.len() && bytes[next] == CLOSE_BRACE {
            return Ok(next + 1);
        }
        let key: Extent = match scan_value_at(bytes, cur) {
            Ok(found) => found,
            Err(e) => { return Err(e); },
        };
        if key.kind != JSONValueType::String {
            return Err(JSONError::InvalidObjectKey);
        }
        let colon: usize = skip_whitespace(bytes, key.end);
        if colon >= bytes.len() {
            return Err(JSONError::UnexpectedEndOfStream);
        }
        if bytes[colon] != COLON {
            return Err(JSONError::InvalidToken);
        }
        let value: Extent = match scan_value_at(bytes, colon + 1) {
            Ok(found) => found,
            Err(e) => { return Err(e); },
        };
        let sep: usize = skip_whitespace(bytes, value.end);
        if sep >= bytes.len() {
            return Err(JSONError::UnexpectedEndOfStream);
        }
        if bytes[sep] == COMMA {
            cur = sep + 1;
        } else if bytes[sep] == CLOSE_BRACE {
            return Ok(sep + 1);
        } else {
            return Err(JSONError::InvalidToken);
        }
    }
}

} // verus!
