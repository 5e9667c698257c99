//! Cutting a `&str` at byte positions.
//!
//! A `&str` may only be cut between two characters. The scanner works on
//! bytes, so every cut it asks for has to be shown to fall on such a boundary:
//! it does whenever an ASCII byte stands on either side of it.

use vstd::prelude::*;
use vstd::string::StringSliceAdditionalSpecFns;
use crate::extent::lemma_whitespace_len;
use crate::grammar::whitespace_len;
use crate::scanner::skip_whitespace;
use vstd::utf8::{
    is_char_boundary, is_continuation_byte, is_leading_byte_width_1, length_of_first_scalar,
    pop_first_scalar, valid_utf8,
};

verus! {

/// An ASCII byte in UTF-8 text is a character of its own: a character begins
/// at it and another one, or the end of the text, follows it.
pub proof fn lemma_ascii_byte_is_char(bytes: Seq<u8>, i: int)
    requires
        valid_utf8(bytes),
        0 <= i < bytes.len(),
        bytes[i] < 0x80,
    ensures
        is_char_boundary(bytes, i),
        is_char_boundary(bytes, i + 1),
{
    broadcast use vstd::utf8::group_utf8_lib;

    assert(!is_continuation_byte(bytes[i]));
    assert(is_char_boundary(bytes, i));
    if i + 1 < bytes.len() {
        let tail = bytes.subrange(i, bytes.len() as int);
        assert(valid_utf8(tail));
        assert(tail[0] == bytes[i]);
        assert(is_leading_byte_width_1(tail[0]));
        assert(length_of_first_scalar(tail) == 1);
        let rest = pop_first_scalar(tail);
        assert(valid_utf8(rest));
        assert(rest.len() > 0);
        assert(rest[0] == bytes[i + 1]);
        assert(!is_continuation_byte(rest[0]));
    }
}

/// The part of `s` between the byte positions `from` and `to`.
pub fn slice_str<'a>(s: &'a str, from: usize, to: usize) -> (part: &'a str)
    requires
        from <= to <= s.spec_bytes().len(),
        is_char_boundary(s.spec_bytes(), from as int),
        is_char_boundary(s.spec_bytes(), to as int),
    ensures
        part.spec_bytes() == s.spec_bytes().subrange(from as int, to as int),
{
    broadcast use vstd::utf8::group_utf8_lib;

    let (_, tail) = s.split_at(from);
    let ghost all = s.spec_bytes();
    assert(tail.spec_bytes() == all.subrange(from as int, all.len() as int));
    assert(valid_utf8(tail.spec_bytes()));
    assert(is_char_boundary(tail.spec_bytes(), to - from)) by {
        if to < all.len() {
            assert(tail.spec_bytes()[to - from] == all[to as int]);
            assert(!is_continuation_byte(all[to as int]));
        } else {
            assert(to - from == tail.spec_bytes().len());
        }
    }
    let (part, _) = tail.split_at(to - from);
    assert(part.spec_bytes() =~= all.subrange(from as int, to as int));
    part
}

/// Strips the whitespace that `value` begins with. Returns what is left and
/// the number of bytes that were stripped.
pub fn trim_start<'a>(value: &'a str) -> (r: (&'a str, usize))
    ensures
        r.1 == whitespace_len(value.spec_bytes(), 0),
        r.0.spec_bytes() == value.spec_bytes().skip(r.1 as int),
{
    broadcast use vstd::utf8::group_utf8_lib;

    let bytes = value.as_bytes();
    let stripped: usize = skip_whitespace(bytes, 0);
    proof {
        lemma_whitespace_len(bytes@, 0);
        if 0 < stripped {
            lemma_ascii_byte_is_char(bytes@, stripped - 1);
        }
    }
    (slice_str(value, stripped, bytes.len()), stripped)
}

/// Whether the bytes of `bytes` from `from` up to `to` are exactly `other`.
pub fn range_equals(bytes: &[u8], from: usize, to: usize, other: &[u8]) -> (r: bool)
    requires
        from <= to <= bytes.len(),
    ensures
        r == (bytes@.subrange(from as int, to as int) == other@),
{
    let ghost part = bytes@.subrange(from as int, to as int);
    if to - from != other.len() {
        return false;
    }
    let mut i: usize = 0;
    while i < other.len()
        invariant
            from <= to <= bytes.len(),
            to - from == other.len(),
            i <= other.len(),
            part == bytes@.subrange(from as int, to as int),
            forall|j: int| 0 <= j < i ==> part[j] == other@[j],
        decreases other.len() - i,
    {
        if bytes[from + i] != other[i] {
            assert(part[i as int] != other@[i as int]);
            return false;
        }
        i += 1;
    }
    assert(part =~= other@);
    true
}

} // verus!
