//! Finding a child of an array or an object.
//!
//! A composite value keeps no list of its children. Each lookup walks the
//! text of the parent from its start and scans past the children that come
//! before the one asked for, so reaching the k-th child costs k scans.

use vstd::prelude::*;
use vstd::string::StringSliceAdditionalSpecFns;
use crate::children::{
    array_items, items_from, lemma_skip_step, members_from, object_members, Member, Span,
};
use crate::error::JSONError;
use crate::extent::lemma_scan_value_extent;
use crate::grammar::{scan_value, Scanned, CLOSE_BRACE, CLOSE_BRACKET, COLON, COMMA};
use crate::scanner::{scan_value_at, skip_whitespace, Extent};
use crate::text::range_equals;
use crate::value::{JSONValue, JSONValueType};

verus! {

/// One child met on the walk through a composite value, and the position at
/// which the walk goes on if another child follows.
struct Step<T> {
    child: T,
    next: Option<usize>,
}

/// The place in the text of an extent that a scan from `pos` found.
spec fn span_of(found: Extent, pos: int) -> Span {
    found.scanned_from(pos).span_from(pos)
}

/// Scans the item of an array that stands at `pos`, if one does.
fn step_item(bytes: &[u8], pos: usize) -> (r: Option<Step<Extent>>)
    requires
        pos <= bytes.len(),
    ensures
        match r {
            None => items_from(bytes@, pos as int) == Seq::<Span>::empty(),
            Some(step) => {
                let item = step.child;
                &&& pos <= item.start < item.end <= bytes.len()
                &&& scan_value(bytes@, pos as int) == Ok::<Scanned, JSONError>(
                    item.scanned_from(pos as int),
                )
                &&& match step.next {
                    Some(next) => {
                        &&& pos < next <= bytes.len()
                        &&& items_from(bytes@, pos as int) == seq![span_of(item, pos as int)]
                            + items_from(bytes@, next as int)
                    },
                    None => items_from(bytes@, pos as int) == seq![span_of(item, pos as int)]
                        + Seq::<Span>::empty(),
                }
            },
        },
{
    reveal(items_from);
    let first: usize = skip_whitespace(bytes, pos);
    if first < bytes.len() && bytes[first] == CLOSE_BRACKET {
        return None;
    }
    let item: Extent = match scan_value_at(bytes, pos) {
        Ok(found) => found,
        Err(_) => { return None; },
    };
    let sep: usize = skip_whitespace(bytes, item.end);
    let next: Option<usize> = if sep < bytes.len() && bytes[sep] == COMMA {
        Some(sep + 1)
    } else {
        None
    };
    proof {
        let rest = match next {
            Some(n) => items_from(bytes@, n as int),
            None => Seq::<Span>::empty(),
        };
        assert(items_from(bytes@, pos as int) =~= seq![span_of(item, pos as int)] + rest);
    }
    Some(Step { child: item, next })
}

/// The member that a walk through an object found: where the scan of its key
/// and the scan of its value began, and what each scan found.
struct MemberExtent {
    key_from: usize,
    key: Extent,
    value_from: usize,
    value: Extent,
}

impl MemberExtent {
    /// The places of the key and of the value in the text.
    spec fn member(self) -> Member {
        Member {
            key: span_of(self.key, self.key_from as int),
            value: span_of(self.value, self.value_from as int),
        }
    }
}

/// Scans the member of an object that stands at `pos`, if one does.
fn step_member(bytes: &[u8], pos: usize) -> (r: Option<Step<MemberExtent>>)
    requires
        pos <= bytes.len(),
    ensures
        match r {
            None => members_from(bytes@, pos as int) == Seq::<Member>::empty(),
            Some(step) => {
                let found = step.child;
                &&& found.key_from == pos
                &&& pos <= found.key.start
                &&& found.key.start + 2 <= found.key.end
                &&& found.key.end <= found.value_from <= found.value.start < found.value.end
                    <= bytes.len()
                &&& found.key.kind == JSONValueType::String
                &&& scan_value(bytes@, found.value_from as int) == Ok::<Scanned, JSONError>(
                    found.value.scanned_from(found.value_from as int),
                )
                &&& match step.next {
                    Some(next) => {
                        &&& pos < next <= bytes.len()
                        &&& members_from(bytes@, pos as int) == seq![found.member()]
                            + members_from(bytes@, next as int)
                    },
                    None => members_from(bytes@, pos as int) == seq![found.member()]
                        + Seq::<Member>::empty(),
                }
            },
        },
{
    reveal(members_from);
    let first: usize = skip_whitespace(bytes, pos);
    if first < bytes.len() && bytes[first] == CLOSE_BRACE {
        return None;
    }
    let key: Extent = match scan_value_at(bytes, pos) {
        Ok(found) => found,
        Err(_) => { return None; },
    };
    if key.kind != JSONValueType::String {
        return None;
    }
    let colon: usize = skip_whitespace(bytes, key.end);
    if !(colon < bytes.len() && bytes[colon] == COLON) {
        return None;
    }
    let value: Extent = match scan_value_at(bytes, colon + 1) {
        Ok(found) => found,
        Err(_) => { return None; },
    };
    let sep: usize = skip_whitespace(bytes, value.end);
    let next: Option<usize> = if sep < bytes.len() && bytes[sep] == COMMA {
        Some(sep + 1)
    } else {
        None
    };
    let found = MemberExtent { key_from: pos, key, value_from: colon + 1, value };
    proof {
        lemma_scan_value_extent(bytes@, pos as int);
        let rest = match next {
            Some(n) => members_from(bytes@, n as int),
            None => Seq::<Member>::empty(),
        };
        assert(members_from(bytes@, pos as int) =~= seq![found.member()] + rest);
    }
    Some(Step { child: found, next })
}

/// Whether the member at index `i` of `members` has the key `key`, and no
/// member before it has.
pub open spec fn is_first_with_key(
    text: Seq<u8>,
    members: Seq<Member>,
    key: Seq<u8>,
    i: int,
) -> bool {
    &&& 0 <= i < members.len()
    &&& members[i].key_text(text) == key
    &&& forall|j: int| 0 <= j < i ==> (#[trigger] members[j]).key_text(text) != key
}

impl<'a> JSONValue<'a> {
    /// The item at index `n` of an array, counted from zero. The array is
    /// scanned from its start, one item after another, until the item is
    /// reached.
    pub fn get_nth_array_item(&self, n: usize) -> (r: Result<JSONValue<'a>, JSONError>)
        ensures
            self.value_type != JSONValueType::Array ==> (r matches Err(e) && e
                == JSONError::TypeMismatch),
            self.value_type == JSONValueType::Array ==> match r {
                Ok(item) => {
                    &&& n < array_items(self@).len()
                    &&& item.lies_at(self@, array_items(self@)[n as int])
                    &&& item.wf()
                },
                Err(e) => n >= array_items(self@).len() && e == JSONError::IndexOutOfBounds,
            },
    {
        if self.value_type != JSONValueType::Array {
            return Err(JSONError::TypeMismatch);
        }
        let bytes = self.contents.as_bytes();
        let ghost all = array_items(self@);
        if bytes.len() == 0 {
            proof {
                reveal(items_from);
            }
            return Err(JSONError::IndexOutOfBounds);
        }
        let mut pos: usize = 1;
        let mut i: usize = 0;
        loop
            invariant
                self.value_type == JSONValueType::Array,
                bytes@ == self@,
                all == array_items(self@),
                1 <= pos <= bytes.len(),
                i <= n,
                i <= all.len(),
                all.skip(i as int) == items_from(self@, pos as int),
            decreases bytes.len() - pos,
        {
            let step = match step_item(bytes, pos) {
                Some(step) => step,
                None => {
                    assert(all.skip(i as int).len() == 0);
                    return Err(JSONError::IndexOutOfBounds);
                },
            };
            let item = step.child;
            proof {
                let rest = match step.next {
                    Some(next) => items_from(self@, next as int),
                    None => Seq::<Span>::empty(),
                };
                lemma_skip_step(all, i as int, span_of(item, pos as int), rest);
            }
            if i == n {
                return Ok(JSONValue::cut(self.contents, pos, item));
            }
            match step.next {
                Some(next) => {
                    pos = next;
                    i += 1;
                },
                None => { return Err(JSONError::IndexOutOfBounds); },
            }
        }
    }

    /// The value of the first member of an object whose key is `key`. The key
    /// is compared with the text between the quotes as it is written, escapes
    /// not decoded. The object is scanned from its start, one member after
    /// another, until the key is met.
    pub fn get_key_value(&self, key: &str) -> (r: Result<JSONValue<'a>, JSONError>)
        ensures
            self.value_type != JSONValueType::Object ==> (r matches Err(e) && e
                == JSONError::TypeMismatch),
            self.value_type == JSONValueType::Object ==> match r {
                Ok(value) => exists|i: int|
                    {
                        &&& is_first_with_key(self@, object_members(self@), key.spec_bytes(), i)
                        &&& value.lies_at(self@, #[trigger] object_members(self@)[i].value)
                        &&& value.wf()
                    },
                Err(e) => {
                    &&& e == JSONError::KeyNotFound
                    &&& forall|i: int|
                        0 <= i < object_members(self@).len() ==> (#[trigger] object_members(
                            self@,
                        )[i]).key_text(self@) != key.spec_bytes()
                },
            },
    {
        if self.value_type != JSONValueType::Object {
            return Err(JSONError::TypeMismatch);
        }
        let bytes = self.contents.as_bytes();
        let wanted = key.as_bytes();
        let ghost all = object_members(self@);
        if bytes.len() == 0 {
            proof {
                reveal(members_from);
            }
            return Err(JSONError::KeyNotFound);
        }
        let mut pos: usize = 1;
        let ghost mut i: int = 0;
        loop
            invariant
                self.value_type == JSONValueType::Object,
                bytes@ == self@,
                wanted@ == key.spec_bytes(),
                all == object_members(self@),
                1 <= pos <= bytes.len(),
                0 <= i <= all.len(),
                all.skip(i) == members_from(self@, pos as int),
                forall|j: int| 0 <= j < i ==> (#[trigger] all[j]).key_text(self@) != wanted@,
            decreases bytes.len() - pos,
        {
            let step = match step_member(bytes, pos) {
                Some(step) => step,
                None => {
                    assert(all.skip(i).len() == 0);
                    return Err(JSONError::KeyNotFound);
                },
            };
            let found = step.child;
            proof {
                let rest = match step.next {
                    Some(next) => members_from(self@, next as int),
                    None => Seq::<Member>::empty(),
                };
                lemma_skip_step(all, i, found.member(), rest);
            }
            if range_equals(bytes, found.key.start + 1, found.key.end - 1, wanted) {
                let value = JSONValue::cut(self.contents, found.value_from, found.value);
                assert(is_first_with_key(self@, all, wanted@, i));
                assert(value.lies_at(self@, all[i].value));
                return Ok(value);
            }
            match step.next {
                Some(next) => {
                    pos = next;
                    proof {
                        i = i + 1;
                    }
                },
                None => { return Err(JSONError::KeyNotFound); },
            }
        }
    }
}

} // verus!
