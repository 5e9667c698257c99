//! What holds of every scan: the value that is found does not depend on what
//! stands around it, and its text has the form that its kind asks for.

use vstd::prelude::*;
use crate::error::JSONError;
use crate::extent::{lemma_number_len, lemma_scan_value_extent, lemma_whitespace_len};
use crate::frame::{bytes_match, lemma_scan_value_same, number_may_end, same_bytes};
use crate::grammar::{
    is_false_at, is_null_at, is_number_byte, is_true_at, is_value_text, is_whitespace,
    scan_value, string_tail_len, whitespace_len, Scanned, CLOSE_BRACE, CLOSE_BRACKET, MINUS,
    OPEN_BRACE, OPEN_BRACKET, QUOTE,
};
use crate::value::JSONValueType;

verus! {

/// Whether every byte of `s` is whitespace.
pub open spec fn all_whitespace(s: Seq<u8>) -> bool {
    forall|i: int| 0 <= i < s.len() ==> is_whitespace(#[trigger] s[i])
}

/// Whitespace made of `lead` alone, before a byte that is not whitespace, has
/// the length of `lead`.
proof fn lemma_whitespace_lead(lead: Seq<u8>, tail: Seq<u8>, from: int)
    requires
        all_whitespace(lead),
        0 <= from <= lead.len(),
        tail.len() > 0,
        !is_whitespace(tail[0]),
    ensures
        whitespace_len(lead + tail, from) == lead.len() - from,
    decreases lead.len() - from,
{
    let s = lead + tail;
    if from < lead.len() {
        assert(s[from] == lead[from]);
        lemma_whitespace_lead(lead, tail, from + 1);
    } else {
        assert(s[from] == tail[0]);
    }
}

/// A scan finds the value whatever stands around it, and leaves exactly what
/// follows the value.
///
/// Let a text be made of any amount of whitespace `lead`, then the text
/// `value` of one value, then any bytes `rest`. A scan of the whole from its
/// start skips `lead`, finds `value` with its kind, and has used up the bytes
/// of `lead` and `value` and no more: what is left after them is `rest`.
///
/// A number ends where its run of number bytes ends, so for a number `rest`
/// must not go on with a number byte.
pub proof fn lemma_scan_leaves_rest(
    lead: Seq<u8>,
    value: Seq<u8>,
    rest: Seq<u8>,
    kind: JSONValueType,
)
    requires
        all_whitespace(lead),
        is_value_text(value, kind),
        kind == JSONValueType::Number ==> number_may_end(rest, 0),
    ensures
        scan_value(lead + value + rest, 0) == Ok::<Scanned, JSONError>(
            Scanned { kind, skipped: lead.len(), len: value.len() },
        ),
        (lead + value + rest).subrange(lead.len() as int, (lead.len() + value.len()) as int)
            == value,
        (lead + value + rest).skip((lead.len() + value.len()) as int) == rest,
{
    let whole = lead + value + rest;
    let at = lead.len() as int;
    let n = value.len() as int;
    lemma_scan_value_extent(value, 0);
    assert(same_bytes(value, 0, whole, at, n)) by {
        reveal(bytes_match);
    }
    if rest.len() > 0 {
        assert(whole[at + n] == rest[0]);
    }
    lemma_scan_value_same(value, 0, whole, at);
    assert(whole =~= lead + (value + rest));
    assert((value + rest)[0] == value[0]);
    lemma_whitespace_lead(lead, value + rest, 0);
    lemma_whitespace_len(whole, 0);
    assert(whole.subrange(at, at + n) =~= value);
    assert(whole.skip(at + n) =~= rest);
}

/// The form that the text of a value has, by its kind.
///
/// A string begins with a quote and ends with the first quote after it that
/// is not escaped. A number is made of number bytes and holds `-` in its
/// first place at most. An object begins with `{` and ends with `}`, an array
/// begins with `[` and ends with `]`. A boolean is `true` or `false`, and
/// null is `null`.
pub open spec fn has_form(text: Seq<u8>, kind: JSONValueType) -> bool {
    let last = text.len() - 1;
    match kind {
        JSONValueType::String => {
            &&& text.len() >= 2
            &&& text[0] == QUOTE
            &&& text[last] == QUOTE
            &&& string_tail_len(text, 1, false) == Some(last as nat)
        },
        JSONValueType::Number => {
            &&& text.len() >= 1
            &&& forall|i: int| 0 <= i < text.len() ==> is_number_byte(#[trigger] text[i])
            &&& forall|i: int| 0 < i < text.len() ==> #[trigger] text[i] != MINUS
        },
        JSONValueType::Object => {
            &&& text.len() >= 2
            &&& text[0] == OPEN_BRACE
            &&& text[last] == CLOSE_BRACE
        },
        JSONValueType::Array => {
            &&& text.len() >= 2
            &&& text[0] == OPEN_BRACKET
            &&& text[last] == CLOSE_BRACKET
        },
        JSONValueType::Bool => {
            ||| text.len() == 4 && is_true_at(text, 0)
            ||| text.len() == 5 && is_false_at(text, 0)
        },
        JSONValueType::Null => text.len() == 4 && is_null_at(text, 0),
    }
}

/// The text of a value is never empty and has the form of its kind.
pub proof fn lemma_value_text_has_form(text: Seq<u8>, kind: JSONValueType)
    requires
        is_value_text(text, kind),
    ensures
        text.len() > 0,
        has_form(text, kind),
{
    lemma_scan_value_extent(text, 0);
    if kind == JSONValueType::Number {
        lemma_number_len(text, 0);
    }
}

} // verus!
