//! Where a scanned value lies: facts about the bytes that a successful scan
//! covers.

use vstd::prelude::*;
use crate::grammar::{
    is_number_byte, is_whitespace, number_len, scan_items, scan_members, scan_value,
    string_tail_len, whitespace_len, Scanned, CLOSE_BRACE, CLOSE_BRACKET, MINUS, OPEN_BRACE,
    OPEN_BRACKET, QUOTE,
};
use crate::value::JSONValueType;

verus! {

/// Leading whitespace ends inside `s`, at a byte that is not whitespace or at
/// the end, and everything before that byte is whitespace.
pub proof fn lemma_whitespace_len(s: Seq<u8>, pos: int)
    requires
        0 <= pos <= s.len(),
    ensures
        pos + whitespace_len(s, pos) <= s.len(),
        pos + whitespace_len(s, pos) < s.len() ==> !is_whitespace(
            s[pos + whitespace_len(s, pos)],
        ),
        forall|i: int| pos <= i < pos + whitespace_len(s, pos) ==> is_whitespace(#[trigger] s[i]),
        whitespace_len(s, pos + whitespace_len(s, pos)) == 0,
    decreases s.len() - pos,
{
    if pos < s.len() && is_whitespace(s[pos]) {
        lemma_whitespace_len(s, pos + 1);
    }
}

/// A run of number bytes ends inside `s`, at a byte that is no number byte or
/// at the end, and every byte of the run is a number byte.
pub proof fn lemma_number_len(s: Seq<u8>, pos: int)
    requires
        0 <= pos <= s.len(),
    ensures
        pos + number_len(s, pos) <= s.len(),
        pos + number_len(s, pos) < s.len() ==> !is_number_byte(s[pos + number_len(s, pos)]),
        forall|i: int| pos <= i < pos + number_len(s, pos) ==> is_number_byte(#[trigger] s[i]),
    decreases s.len() - pos,
{
    if pos < s.len() && is_number_byte(s[pos]) {
        lemma_number_len(s, pos + 1);
    }
}

/// The rest of a string ends inside `s`, and its last byte is a quote.
pub proof fn lemma_string_tail_len(s: Seq<u8>, pos: int, escaped: bool)
    requires
        string_tail_len(s, pos, escaped) is Some,
    ensures
        0 <= pos,
        string_tail_len(s, pos, escaped)->0 >= 1,
        pos + string_tail_len(s, pos, escaped)->0 <= s.len(),
        s[pos + string_tail_len(s, pos, escaped)->0 - 1] == QUOTE,
    decreases s.len() - pos,
{
    if s[pos] == QUOTE && !escaped {
    } else {
        lemma_string_tail_len(s, pos + 1, s[pos] == crate::grammar::BACKSLASH && !escaped);
    }
}

/// What is known of the bytes that a scanned value covers.
pub open spec fn lies_within(v: Scanned, s: Seq<u8>, pos: int) -> bool {
    let start = pos + v.skipped;
    let end = start + v.len;
    &&& 0 <= pos
    &&& v.skipped == whitespace_len(s, pos)
    &&& v.len >= 1
    &&& end <= s.len()
    &&& s[start] < 0x80
    &&& s[end - 1] < 0x80
    &&& !is_whitespace(s[start])
    &&& v.kind == JSONValueType::Number ==> end == s.len() || !is_number_byte(s[end])
    &&& v.kind == JSONValueType::Object ==> v.len >= 2 && s[start] == OPEN_BRACE && s[end - 1]
        == CLOSE_BRACE
    &&& v.kind == JSONValueType::Array ==> v.len >= 2 && s[start] == OPEN_BRACKET && s[end - 1]
        == CLOSE_BRACKET
    &&& v.kind == JSONValueType::String ==> v.len >= 2 && s[start] == QUOTE && s[end - 1] == QUOTE
}

/// A value that was scanned lies inside the text: it starts at the first
/// significant byte, is not empty, ends within `s`, and begins and ends with
/// an ASCII byte.
pub proof fn lemma_scan_value_extent(s: Seq<u8>, pos: int)
    requires
        scan_value(s, pos) is Ok,
    ensures
        lies_within(scan_value(s, pos)->Ok_0, s, pos),
    decreases s.len() - pos, 0int,
{
    let start = pos + whitespace_len(s, pos);
    lemma_whitespace_len(s, pos);
    if s[start] == OPEN_BRACE {
        lemma_scan_members_extent(s, start + 1);
    } else if s[start] == OPEN_BRACKET {
        lemma_scan_items_extent(s, start + 1);
    } else if s[start] == QUOTE {
        lemma_string_tail_len(s, start + 1, false);
    } else if crate::grammar::is_digit(s[start]) || s[start] == MINUS {
        lemma_number_len(s, start);
    } else {
    }
}

/// The items of an array end within the text, at the `]` that closes it.
pub proof fn lemma_scan_items_extent(s: Seq<u8>, pos: int)
    requires
        scan_items(s, pos) is Ok,
    ensures
        0 <= pos,
        scan_items(s, pos)->Ok_0 >= 1,
        pos + scan_items(s, pos)->Ok_0 <= s.len(),
        s[pos + scan_items(s, pos)->Ok_0 - 1] == CLOSE_BRACKET,
    decreases s.len() - pos, 1int,
{
    let next = pos + whitespace_len(s, pos);
    if pos <= s.len() {
        lemma_whitespace_len(s, pos);
    }
    if next < s.len() && s[next] == CLOSE_BRACKET {
    } else {
        lemma_scan_value_extent(s, pos);
        let item = scan_value(s, pos)->Ok_0;
        let after = pos + item.consumed();
        lemma_whitespace_len(s, after);
        let sep = after + whitespace_len(s, after);
        if s[sep] == crate::grammar::COMMA {
            lemma_scan_items_extent(s, sep + 1);
        }
    }
}

/// The members of an object end within the text, at the `}` that closes it.
pub proof fn lemma_scan_members_extent(s: Seq<u8>, pos: int)
    requires
        scan_members(s, pos) is Ok,
    ensures
        0 <= pos,
        scan_members(s, pos)->Ok_0 >= 1,
        pos + scan_members(s, pos)->Ok_0 <= s.len(),
        s[pos + scan_members(s, pos)->Ok_0 - 1] == CLOSE_BRACE,
    decreases s.len() - pos, 1int,
{
    let next = pos + whitespace_len(s, pos);
    if pos <= s.len() {
        lemma_whitespace_len(s, pos);
    }
    if next < s.len() && s[next] == CLOSE_BRACE {
    } else {
        lemma_scan_value_extent(s, pos);
        let key = scan_value(s, pos)->Ok_0;
        lemma_whitespace_len(s, pos + key.consumed());
        let colon = pos + key.consumed() + whitespace_len(s, pos + key.consumed());
        lemma_scan_value_extent(s, colon + 1);
        let value = scan_value(s, colon + 1)->Ok_0;
        let after = colon + 1 + value.consumed();
        lemma_whitespace_len(s, after);
        let sep = after + whitespace_len(s, after);
        if s[sep] == crate::grammar::COMMA {
            lemma_scan_members_extent(s, sep + 1);
        }
    }
}

} // verus!
