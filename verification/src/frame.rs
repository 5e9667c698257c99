//! A scan looks only at the bytes it covers: the same bytes at another place,
//! or in another text, scan to the same value.

use vstd::prelude::*;
use crate::error::JSONError;
use crate::extent::{
    lemma_scan_items_extent, lemma_scan_members_extent, lemma_scan_value_extent,
    lemma_string_tail_len, lemma_whitespace_len,
};
use crate::grammar::{
    has_inner_minus, is_digit, is_number_byte, is_whitespace, number_len, scan_items,
    scan_members, scan_value, string_tail_len, whitespace_len, Scanned, BACKSLASH, CLOSE_BRACE,
    CLOSE_BRACKET, COMMA, MINUS, OPEN_BRACE, OPEN_BRACKET, QUOTE,
};
use crate::value::JSONValueType;

verus! {

/// Each of the `n` bytes of `s` from `pos` on is the byte of `t` as far from
/// `q`.
#[verifier::opaque]
pub open spec fn bytes_match(s: Seq<u8>, pos: int, t: Seq<u8>, q: int, n: int) -> bool {
    forall|j: int| pos <= j < pos + n ==> #[trigger] s[j] == t[j - pos + q]
}

/// The `n` bytes of `s` from `pos` on are the `n` bytes of `t` from `q` on.
pub open spec fn same_bytes(s: Seq<u8>, pos: int, t: Seq<u8>, q: int, n: int) -> bool {
    &&& 0 <= pos
    &&& 0 <= q
    &&& 0 <= n
    &&& pos + n <= s.len()
    &&& q + n <= t.len()
    &&& bytes_match(s, pos, t, q, n)
}

/// Shared bytes lie inside both texts, and the byte at `j` is one of them.
pub proof fn lemma_same_byte(s: Seq<u8>, pos: int, t: Seq<u8>, q: int, n: int, j: int)
    requires
        same_bytes(s, pos, t, q, n),
        pos <= j < pos + n,
    ensures
        0 <= pos <= j < s.len(),
        0 <= q <= j - pos + q < t.len(),
        s[j] == t[j - pos + q],
{
    reveal(bytes_match);
}

/// A part of the shared bytes is shared.
pub proof fn lemma_same_bytes_part(
    s: Seq<u8>,
    pos: int,
    t: Seq<u8>,
    q: int,
    n: int,
    from: int,
    m: int,
)
    requires
        same_bytes(s, pos, t, q, n),
        pos <= from,
        0 <= m,
        from + m <= pos + n,
    ensures
        same_bytes(s, from, t, from - pos + q, m),
{
    reveal(bytes_match);
    assert forall|j: int| from <= j < from + m implies #[trigger] s[j] == t[j - from + (from - pos
        + q)] by {
        assert(s[j] == t[j - pos + q]);
    }
}

/// Whitespace that ends inside the shared bytes is as long in `t` as in `s`,
/// and the same byte follows it.
pub proof fn lemma_whitespace_same(s: Seq<u8>, pos: int, t: Seq<u8>, q: int, n: int)
    requires
        same_bytes(s, pos, t, q, n),
        whitespace_len(s, pos) < n,
    ensures
        whitespace_len(t, q) == whitespace_len(s, pos),
        s[pos + whitespace_len(s, pos)] == t[q + whitespace_len(s, pos)],
    decreases n,
{
    lemma_same_byte(s, pos, t, q, n, pos);
    if is_whitespace(s[pos]) {
        lemma_same_bytes_part(s, pos, t, q, n, pos + 1, n - 1);
        lemma_whitespace_same(s, pos + 1, t, q + 1, n - 1);
    }
}

/// Whether `t` lets a number that ends at `end` end there too: `t` ends at
/// `end`, or goes on with a byte that no number holds.
pub open spec fn number_may_end(t: Seq<u8>, end: int) -> bool {
    end == t.len() || !is_number_byte(t[end])
}

/// A run of number bytes that fills the shared bytes, and that `t` does not
/// continue, is as long in `t` as in `s`.
pub proof fn lemma_number_len_same(s: Seq<u8>, pos: int, t: Seq<u8>, q: int, n: int)
    requires
        same_bytes(s, pos, t, q, n),
        number_len(s, pos) == n,
        number_may_end(t, q + n),
    ensures
        number_len(t, q) == n,
    decreases n,
{
    if n > 0 {
        lemma_same_byte(s, pos, t, q, n, pos);
        lemma_same_bytes_part(s, pos, t, q, n, pos + 1, n - 1);
        lemma_number_len_same(s, pos + 1, t, q + 1, n - 1);
    }
}

/// Shared bytes hold `-` in the same places.
pub proof fn lemma_inner_minus_same(s: Seq<u8>, pos: int, t: Seq<u8>, q: int, n: int)
    requires
        same_bytes(s, pos, t, q, n),
    ensures
        has_inner_minus(t, q, n as nat) == has_inner_minus(s, pos, n as nat),
{
    if has_inner_minus(s, pos, n as nat) {
        let i = choose|i: int| pos < i < pos + n && #[trigger] s[i] == MINUS;
        lemma_same_byte(s, pos, t, q, n, i);
        assert(t[i - pos + q] == MINUS);
    }
    if has_inner_minus(t, q, n as nat) {
        let i = choose|i: int| q < i < q + n && #[trigger] t[i] == MINUS;
        lemma_same_byte(s, pos, t, q, n, i - q + pos);
        assert(s[i - q + pos] == MINUS);
    }
}

/// A string that closes at the end of the shared bytes closes at the same
/// place in `t`.
pub proof fn lemma_string_tail_same(
    s: Seq<u8>,
    pos: int,
    t: Seq<u8>,
    q: int,
    n: int,
    escaped: bool,
)
    requires
        same_bytes(s, pos, t, q, n),
        string_tail_len(s, pos, escaped) == Some(n as nat),
    ensures
        string_tail_len(t, q, escaped) == Some(n as nat),
    decreases n,
{
    lemma_string_tail_len(s, pos, escaped);
    lemma_same_byte(s, pos, t, q, n, pos);
    if s[pos] == QUOTE && !escaped {
    } else {
        lemma_same_bytes_part(s, pos, t, q, n, pos + 1, n - 1);
        lemma_string_tail_same(s, pos + 1, t, q + 1, n - 1, s[pos] == BACKSLASH && !escaped);
    }
}

/// A value scanned in `s` is scanned alike in `t` wherever `t` holds the
/// bytes that the scan of `s` covered, as long as `t` does not continue a
/// number.
pub proof fn lemma_scan_value_same(s: Seq<u8>, pos: int, t: Seq<u8>, q: int)
    requires
        scan_value(s, pos) is Ok,
        same_bytes(s, pos, t, q, scan_value(s, pos)->Ok_0.consumed() as int),
        scan_value(s, pos)->Ok_0.kind == JSONValueType::Number ==> number_may_end(
            t,
            q + scan_value(s, pos)->Ok_0.consumed(),
        ),
    ensures
        scan_value(t, q) == scan_value(s, pos),
    decreases s.len() - pos, 0int,
{
    let v = scan_value(s, pos)->Ok_0;
    let n = v.consumed() as int;
    lemma_scan_value_extent(s, pos);
    lemma_whitespace_same(s, pos, t, q, n);
    let start = pos + v.skipped;
    let there = q + v.skipped;
    lemma_same_byte(s, pos, t, q, n, start);
    lemma_same_bytes_part(s, pos, t, q, n, start, v.len as int);
    lemma_same_bytes_part(s, pos, t, q, n, start + 1, v.len - 1);
    if s[start] == OPEN_BRACE {
        lemma_scan_members_same(s, start + 1, t, there + 1);
    } else if s[start] == OPEN_BRACKET {
        lemma_scan_items_same(s, start + 1, t, there + 1);
    } else if s[start] == QUOTE {
        lemma_string_tail_same(s, start + 1, t, there + 1, v.len - 1, false);
    } else if is_digit(s[start]) || s[start] == MINUS {
        lemma_number_len_same(s, start, t, there, v.len as int);
        lemma_inner_minus_same(s, start, t, there, v.len as int);
    } else {
        lemma_same_byte(s, start, t, there, v.len as int, start + 1);
        lemma_same_byte(s, start, t, there, v.len as int, start + 2);
        lemma_same_byte(s, start, t, there, v.len as int, start + 3);
        if v.len == 5 {
            lemma_same_byte(s, start, t, there, v.len as int, start + 4);
        }
    }
}

/// What follows a value inside an array or an object: whitespace and one
/// byte that separates or closes. Both are the same in `t`.
proof fn lemma_separator_same(s: Seq<u8>, pos: int, t: Seq<u8>, q: int, n: int, after: int)
    requires
        same_bytes(s, pos, t, q, n),
        pos <= after,
        after + whitespace_len(s, after) < pos + n,
    ensures
        whitespace_len(t, after - pos + q) == whitespace_len(s, after),
        t[after + whitespace_len(s, after) - pos + q] == s[after + whitespace_len(s, after)],
        same_bytes(
            s,
            after + whitespace_len(s, after) + 1,
            t,
            after + whitespace_len(s, after) + 1 - pos + q,
            pos + n - (after + whitespace_len(s, after) + 1),
        ),
{
    let rest = pos + n - after;
    lemma_same_bytes_part(s, pos, t, q, n, after, rest);
    lemma_whitespace_same(s, after, t, after - pos + q, rest);
    let sep = after + whitespace_len(s, after);
    lemma_same_bytes_part(s, pos, t, q, n, sep + 1, pos + n - (sep + 1));
}

/// A value inside an array or an object, with more of the shared bytes after
/// it, is scanned alike in `t`.
proof fn lemma_inner_value_same(s: Seq<u8>, pos: int, t: Seq<u8>, q: int, n: int, at: int)
    requires
        same_bytes(s, pos, t, q, n),
        pos <= at,
        scan_value(s, at) is Ok,
        at + scan_value(s, at)->Ok_0.consumed() < pos + n,
    ensures
        scan_value(t, at - pos + q) == scan_value(s, at),
    decreases s.len() - at, 1int,
{
    let v = scan_value(s, at)->Ok_0;
    lemma_scan_value_extent(s, at);
    lemma_same_bytes_part(s, pos, t, q, n, at, v.consumed() as int);
    lemma_same_byte(s, pos, t, q, n, at + v.consumed());
    lemma_scan_value_same(s, at, t, at - pos + q);
}

/// The items of an array scanned in `s` are scanned alike in `t` wherever `t`
/// holds the same bytes.
pub proof fn lemma_scan_items_same(s: Seq<u8>, pos: int, t: Seq<u8>, q: int)
    requires
        scan_items(s, pos) is Ok,
        same_bytes(s, pos, t, q, scan_items(s, pos)->Ok_0 as int),
    ensures
        scan_items(t, q) == scan_items(s, pos),
    decreases s.len() - pos, 2int,
{
    let n = scan_items(s, pos)->Ok_0 as int;
    lemma_scan_items_extent(s, pos);
    lemma_whitespace_len(s, pos);
    let next = pos + whitespace_len(s, pos);
    if next < s.len() && s[next] == CLOSE_BRACKET {
        lemma_whitespace_same(s, pos, t, q, n);
    } else {
        let item = scan_value(s, pos)->Ok_0;
        lemma_scan_value_extent(s, pos);
        let after = pos + item.consumed();
        lemma_whitespace_len(s, after);
        let sep = after + whitespace_len(s, after);
        if s[sep] == COMMA {
            lemma_scan_items_extent(s, sep + 1);
        }
        lemma_whitespace_same(s, pos, t, q, n);
        lemma_inner_value_same(s, pos, t, q, n, pos);
        lemma_separator_same(s, pos, t, q, n, after);
        if s[sep] == COMMA {
            lemma_scan_items_same(s, sep + 1, t, sep + 1 - pos + q);
        }
    }
}

/// The members of an object scanned in `s` are scanned alike in `t` wherever
/// `t` holds the same bytes.
pub proof fn lemma_scan_members_same(s: Seq<u8>, pos: int, t: Seq<u8>, q: int)
    requires
        scan_members(s, pos) is Ok,
        same_bytes(s, pos, t, q, scan_members(s, pos)->Ok_0 as int),
    ensures
        scan_members(t, q) == scan_members(s, pos),
    decreases s.len() - pos, 2int,
{
    let n = scan_members(s, pos)->Ok_0 as int;
    lemma_scan_members_extent(s, pos);
    lemma_whitespace_len(s, pos);
    let next = pos + whitespace_len(s, pos);
    if next < s.len() && s[next] == CLOSE_BRACE {
        lemma_whitespace_same(s, pos, t, q, n);
    } else {
        let key = scan_value(s, pos)->Ok_0;
        lemma_scan_value_extent(s, pos);
        let key_end = pos + key.consumed();
        lemma_whitespace_len(s, key_end);
        let colon = key_end + whitespace_len(s, key_end);
        let value = scan_value(s, colon + 1)->Ok_0;
        lemma_scan_value_extent(s, colon + 1);
        let after = colon + 1 + value.consumed();
        lemma_whitespace_len(s, after);
        let sep = after + whitespace_len(s, after);
        if s[sep] == COMMA {
            lemma_scan_members_extent(s, sep + 1);
        }
        lemma_whitespace_same(s, pos, t, q, n);
        lemma_inner_value_same(s, pos, t, q, n, pos);
        lemma_separator_same(s, pos, t, q, n, key_end);
        lemma_inner_value_same(s, pos, t, q, n, colon + 1);
        lemma_separator_same(s, pos, t, q, n, after);
        if s[sep] == COMMA {
            lemma_scan_members_same(s, sep + 1, t, sep + 1 - pos + q);
        }
    }
}

/// A value that was scanned somewhere in a text scans to itself when its bytes
/// are taken out of the text: the whole of them, with nothing skipped.
pub proof fn lemma_scan_value_alone(s: Seq<u8>, pos: int)
    requires
        scan_value(s, pos) is Ok,
    ensures
        ({
            let v = scan_value(s, pos)->Ok_0;
            let text = s.subrange(pos + v.skipped, pos + v.consumed());
            scan_value(text, 0) == Ok::<Scanned, JSONError>(
                Scanned { kind: v.kind, skipped: 0, len: text.len() },
            )
        }),
{
    let v = scan_value(s, pos)->Ok_0;
    let start = pos + v.skipped;
    let text = s.subrange(start, start + v.len);
    lemma_scan_value_extent(s, pos);
    lemma_whitespace_len(s, pos);
    assert(scan_value(s, start) == Ok::<Scanned, JSONError>(
        Scanned { kind: v.kind, skipped: 0, len: v.len },
    ));
    assert(same_bytes(s, start, text, 0, v.len as int)) by {
        reveal(bytes_match);
    }
    lemma_scan_value_same(s, start, text, 0);
}

} // verus!
