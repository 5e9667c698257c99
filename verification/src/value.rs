//! Values: a kind and the text that spells the value.

use vstd::prelude::*;
use vstd::string::StringSliceAdditionalSpecFns;
use crate::children::Span;
use crate::error::JSONError;
use crate::extent::lemma_scan_value_extent;
use crate::frame::lemma_scan_value_alone;
use crate::grammar::{is_value_text, scan_value, Scanned};
use crate::integer::{integer_value, read_integer_text, wrap_isize};
use crate::scanner::{scan_value_at, Extent};
use crate::text::{lemma_ascii_byte_is_char, slice_str};

verus! {

/// The six kinds of JSON value.
#[derive(Copy, Clone, PartialEq, Eq, Debug, Structural)]
pub enum JSONValueType {
    String,
    Number,
    Object,
    Array,
    Bool,
    Null,
}

/// One JSON value: a window into the text it was scanned from, and its kind.
///
/// `contents` is exactly the text of the value: the quotes of a string and the
/// brackets of an object or an array are part of it, the whitespace around
/// the value and any separator after it are not. The value owns nothing and
/// stores no children; an object or an array is scanned again each time one of
/// its children is asked for.
#[derive(Copy, Clone, Debug)]
pub struct JSONValue<'a> {
    pub contents: &'a str,
    pub value_type: JSONValueType,
}

impl<'a> View for JSONValue<'a> {
    type V = Seq<u8>;

    /// The UTF-8 bytes of the value's text.
    open spec fn view(&self) -> Seq<u8> {
        self.contents.spec_bytes()
    }
}

impl<'a> JSONValue<'a> {
    /// A value is well formed when its text, scanned from its first byte, is
    /// one value of its kind that takes up the whole text. Every value that
    /// this library hands out is well formed.
    pub open spec fn wf(&self) -> bool {
        is_value_text(self@, self.value_type)
    }

    /// Whether this value is the one that lies at `span` in `text`: it has
    /// the kind of the span and its text is the bytes that the span covers.
    pub open spec fn lies_at(&self, text: Seq<u8>, span: Span) -> bool {
        &&& self.value_type == span.kind
        &&& self@ == span.of(text)
    }

    /// Cuts the value that the scanner found at `found` out of `text`.
    pub(crate) fn cut(text: &'a str, pos: usize, found: Extent) -> (value: JSONValue<'a>)
        requires
            pos <= found.start < found.end <= text.spec_bytes().len(),
            scan_value(text.spec_bytes(), pos as int) == Ok::<Scanned, JSONError>(
                found.scanned_from(pos as int),
            ),
        ensures
            value.lies_at(text.spec_bytes(), found.scanned_from(pos as int).span_from(pos as int)),
            value.wf(),
    {
        broadcast use vstd::utf8::encode_utf8_valid_utf8;

        proof {
            let s = text.spec_bytes();
            lemma_scan_value_extent(s, pos as int);
            lemma_ascii_byte_is_char(s, found.start as int);
            lemma_ascii_byte_is_char(s, found.end - 1);
            lemma_scan_value_alone(s, pos as int);
        }
        JSONValue { contents: slice_str(text, found.start, found.end), value_type: found.kind }
    }

    /// Scans the first value in `contents` and returns it with the number of
    /// bytes of `contents` that were used up: the whitespace before the value
    /// and the value itself. What follows the value is not looked at, so
    /// `contents` may be cut at the returned count to go on with what comes
    /// next.
    pub fn parse(contents: &'a str) -> (r: Result<(JSONValue<'a>, usize), JSONError>)
        ensures
            match scan_value(contents.spec_bytes(), 0) {
                Ok(found) => {
                    &&& r matches Ok((value, consumed))
                    &&& value.lies_at(contents.spec_bytes(), found.span_from(0))
                    &&& value.wf()
                    &&& consumed == found.consumed()
                },
                Err(e) => r matches Err(failure) && failure == e,
            },
    {
        let bytes = contents.as_bytes();
        match scan_value_at(bytes, 0) {
            Ok(found) => Ok((JSONValue::cut(contents, 0, found), found.end)),
            Err(e) => Err(e),
        }
    }

    /// Reads a number as a decimal integer: digits, with a `-` before them
    /// for a negative number. A number with a fraction or an exponent is not
    /// an integer and is refused. A value too large for an `isize` is not
    /// refused: it wraps around modulo the word size.
    pub fn read_integer(&self) -> (r: Result<isize, JSONError>)
        ensures
            self.value_type != JSONValueType::Number ==> r == Err::<isize, JSONError>(
                JSONError::TypeMismatch,
            ),
            self.value_type == JSONValueType::Number ==> match integer_value(self@) {
                Some(x) => r == Ok::<isize, JSONError>(wrap_isize(x)),
                None => r == Err::<isize, JSONError>(JSONError::NumberFormatError),
            },
    {
        if self.value_type != JSONValueType::Number {
            return Err(JSONError::TypeMismatch);
        }
        read_integer_text(self.contents.as_bytes())
    }

    /// The text of a string between its quotes, as it is written: escape
    /// sequences are handed back as they stand and are not decoded.
    pub fn read_string(&self) -> (r: Result<&'a str, JSONError>)
        requires
            self.value_type == JSONValueType::String ==> self.wf(),
        ensures
            self.value_type != JSONValueType::String ==> r == Err::<&str, JSONError>(
                JSONError::TypeMismatch,
            ),
            self.value_type == JSONValueType::String ==> (r matches Ok(text) && text.spec_bytes()
                == self@.subrange(1, self@.len() - 1)),
    {
        broadcast use vstd::utf8::encode_utf8_valid_utf8;

        if self.value_type != JSONValueType::String {
            return Err(JSONError::TypeMismatch);
        }
        let len: usize = self.contents.as_bytes().len();
        proof {
            lemma_scan_value_extent(self@, 0);
            lemma_ascii_byte_is_char(self@, 0);
            lemma_ascii_byte_is_char(self@, len - 1);
        }
        Ok(slice_str(self.contents, 1, len - 1))
    }
}

} // verus!
