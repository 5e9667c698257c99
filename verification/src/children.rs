//! The children of a composite value: the items of an array and the members
//! of an object, as the places where they lie in the text of their parent.

use vstd::prelude::*;
use crate::grammar::{
    scan_value, whitespace_len, Scanned, CLOSE_BRACE, CLOSE_BRACKET, COLON, COMMA,
};
use crate::value::JSONValueType;

verus! {

/// The place of a value in a text: its kind, the index of its first byte and
/// the number of its bytes.
pub struct Span {
    pub kind: JSONValueType,
    pub start: int,
    pub len: nat,
}

impl Span {
    /// The index just past the last byte.
    pub open spec fn end(self) -> int {
        self.start + self.len
    }

    /// The bytes that the span covers in `s`.
    pub open spec fn of(self, s: Seq<u8>) -> Seq<u8> {
        s.subrange(self.start, self.end())
    }
}

impl Scanned {
    /// The place of a value that a scan from `pos` found.
    pub open spec fn span_from(self, pos: int) -> Span {
        Span { kind: self.kind, start: pos + self.skipped, len: self.len }
    }
}

/// One member of an object: the place of its key, quotes included, and the
/// place of its value.
pub struct Member {
    pub key: Span,
    pub value: Span,
}

impl Member {
    /// The bytes of the key between its quotes, escapes left as written.
    pub open spec fn key_text(self, s: Seq<u8>) -> Seq<u8> {
        s.subrange(self.key.start + 1, self.key.end() - 1)
    }
}

/// The items that an array holds from `pos` on, in the order in which they
/// are written. `pos` stands just after the `[` or after a `,`. The list ends
/// at the `]` that closes the array, or where the text stops being an array.
#[verifier::opaque]
pub open spec fn items_from(s: Seq<u8>, pos: int) -> Seq<Span>
    decreases s.len() - pos,
{
    let next = pos + whitespace_len(s, pos);
    if pos < 0 || (next < s.len() && s[next] == CLOSE_BRACKET) {
        Seq::empty()
    } else {
        match scan_value(s, pos) {
            Err(_) => Seq::empty(),
            Ok(item) => {
                let after = pos + item.consumed();
                let sep = after + whitespace_len(s, after);
                if sep < s.len() && s[sep] == COMMA {
                    seq![item.span_from(pos)] + items_from(s, sep + 1)
                } else {
                    seq![item.span_from(pos)]
                }
            },
        }
    }
}

/// The members that an object holds from `pos` on, in the order in which
/// they are written. `pos` stands just after the `{` or after a `,`. The list
/// ends at the `}` that closes the object, or where the text stops being an
/// object.
#[verifier::opaque]
pub open spec fn members_from(s: Seq<u8>, pos: int) -> Seq<Member>
    decreases s.len() - pos,
{
    let next = pos + whitespace_len(s, pos);
    if pos < 0 || (next < s.len() && s[next] == CLOSE_BRACE) {
        Seq::empty()
    } else {
        match scan_value(s, pos) {
            Err(_) => Seq::empty(),
            Ok(key) => {
                let colon = pos + key.consumed() + whitespace_len(s, pos + key.consumed());
                if key.kind != JSONValueType::String || colon >= s.len() || s[colon] != COLON {
                    Seq::empty()
                } else {
                    match scan_value(s, colon + 1) {
                        Err(_) => Seq::empty(),
                        Ok(value) => {
                            let member = Member {
                                key: key.span_from(pos),
                                value: value.span_from(colon + 1),
                            };
                            let after = colon + 1 + value.consumed();
                            let sep = after + whitespace_len(s, after);
                            if sep < s.len() && s[sep] == COMMA {
                                seq![member] + members_from(s, sep + 1)
                            } else {
                                seq![member]
                            }
                        },
                    }
                }
            },
        }
    }
}

/// The items of the array whose text is `s`.
pub open spec fn array_items(s: Seq<u8>) -> Seq<Span> {
    items_from(s, 1)
}

/// The members of the object whose text is `s`.
pub open spec fn object_members(s: Seq<u8>) -> Seq<Member> {
    members_from(s, 1)
}

/// If what is left of `all` after `i` elements is `head` and then `rest`,
/// then `head` is the element at `i` and `rest` is what is left after it.
pub proof fn lemma_skip_step<T>(all: Seq<T>, i: int, head: T, rest: Seq<T>)
    requires
        0 <= i <= all.len(),
        all.skip(i) == seq![head] + rest,
    ensures
        i < all.len(),
        all[i] == head,
        all.skip(i + 1) == rest,
        all.len() == i + 1 + rest.len(),
{
    let tail = all.skip(i);
    assert(tail.len() == 1 + rest.len());
    assert(tail[0] == head);
    assert forall|k: int| 0 <= k < rest.len() implies all.skip(i + 1)[k] == rest[k] by {
        assert(tail[k + 1] == rest[k]);
    }
    assert(all.skip(i + 1) =~= rest);
}

} // verus!
