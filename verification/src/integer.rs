//! Reading the text of a number as an integer.
//!
//! The digits are taken at their decimal value, whatever their count. The
//! result is a machine word, so a value that does not fit is reduced modulo
//! the word size: it wraps around, as two's complement arithmetic does. No
//! overflow is reported.

use vstd::prelude::*;
use vstd::arithmetic::div_mod::{lemma_fundamental_div_mod, lemma_fundamental_div_mod_converse};
use crate::error::JSONError;
use crate::grammar::{is_digit, DIGIT_ZERO, MINUS};
use crate::scanner::is_digit_byte;

verus! {

/// The number of values that a machine word can hold.
pub open spec fn word_range() -> int {
    usize::MAX + 1
}

/// The `isize` that differs from `x` by a multiple of the word range: `x`
/// itself where it fits, and else what is left of it after wrapping around.
pub open spec fn wrap_isize(x: int) -> isize {
    let low = x % word_range();
    if low > isize::MAX {
        (low - word_range()) as isize
    } else {
        low as isize
    }
}

/// The value of a run of decimal digits, the most significant one first.
pub open spec fn digits_value(s: Seq<u8>) -> nat
    decreases s.len(),
{
    if s.len() == 0 {
        0
    } else {
        (digits_value(s.drop_last()) * 10 + (s.last() - DIGIT_ZERO)) as nat
    }
}

/// Whether every byte of `s` is a decimal digit.
pub open spec fn all_digits(s: Seq<u8>) -> bool {
    forall|i: int| 0 <= i < s.len() ==> is_digit(#[trigger] s[i])
}

/// The digits of an integer text: the text without its leading `-`, if it has
/// one.
pub open spec fn integer_digits(s: Seq<u8>) -> Seq<u8> {
    if s.len() > 0 && s[0] == MINUS {
        s.skip(1)
    } else {
        s
    }
}

/// The integer that `s` spells: decimal digits, with a `-` before them for a
/// negative number. `None` if anything else stands in `s`.
pub open spec fn integer_value(s: Seq<u8>) -> Option<int> {
    if !all_digits(integer_digits(s)) {
        None
    } else if s.len() > 0 && s[0] == MINUS {
        Some(-(digits_value(integer_digits(s)) as int))
    } else {
        Some(digits_value(integer_digits(s)) as int)
    }
}

/// Two integers that differ by a multiple of the word range wrap to the same
/// word, and a word wraps to itself.
pub proof fn lemma_wrap_isize(x: int, word: isize, k: int)
    requires
        x == word + k * word_range(),
    ensures
        wrap_isize(x) == word,
{
    let range = word_range();
    assert(range == 2 * (isize::MAX + 1));
    assert(isize::MIN == -(isize::MAX + 1));
    if word >= 0 {
        assert(x == k * range + word);
        lemma_fundamental_div_mod_converse(x, range, k, word as int);
    } else {
        assert(x == (k - 1) * range + (word + range)) by (nonlinear_arith)
            requires
                x == word + k * range,
        ;
        lemma_fundamental_div_mod_converse(x, range, k - 1, word + range);
    }
}

/// Multiplying a word by ten with wrap-around changes the product by a
/// multiple of the word range; the multiple is returned.
proof fn lemma_wrapping_times_ten(word: isize) -> (k: int)
    ensures
        word * 10 == word.wrapping_mul(10) + k * word_range(),
{
    let range = word_range();
    assert(range == 2 * (isize::MAX + 1));
    assert(isize::MIN == -(isize::MAX + 1));
    let product = word * 10;
    lemma_fundamental_div_mod(product, range);
    let q = product / range;
    let low = product % range;
    assert(0 <= low < range) by {
        vstd::arithmetic::div_mod::lemma_mod_bound(product, range);
    }
    let k = if low > isize::MAX { q + 1 } else { q };
    assert(product == word.wrapping_mul(10) + k * range) by (nonlinear_arith)
        requires
            product == range * q + low,
            low > isize::MAX ==> k == q + 1 && word.wrapping_mul(10) == low - range,
            low <= isize::MAX ==> k == q && word.wrapping_mul(10) == low,
    ;
    k
}

/// Adding two words with wrap-around changes the sum by a multiple of the
/// word range; the multiple is returned.
proof fn lemma_wrapping_sum(a: isize, b: isize) -> (k: int)
    ensures
        a + b == a.wrapping_add(b) + k * word_range(),
{
    let range = word_range();
    assert(range == 2 * (isize::MAX + 1));
    assert(isize::MIN == -(isize::MAX + 1));
    if a + b > isize::MAX {
        assert(a.wrapping_add(b) == a + b - range);
        assert(1 * range == range);
        1
    } else if a + b < isize::MIN {
        assert(a.wrapping_add(b) == a + b + range);
        assert((-1) * range == -range);
        -1
    } else {
        assert(0 * range == 0);
        0
    }
}

/// Taking a word from zero with wrap-around changes the difference by a
/// multiple of the word range; the multiple is returned.
proof fn lemma_wrapping_negation(word: isize) -> (k: int)
    ensures
        -word == 0isize.wrapping_sub(word) + k * word_range(),
{
    let range = word_range();
    assert(range == 2 * (isize::MAX + 1));
    assert(isize::MIN == -(isize::MAX + 1));
    if 0 - word > isize::MAX {
        assert(0isize.wrapping_sub(word) == 0 - word - range);
        assert(1 * range == range);
        1
    } else {
        assert(0isize.wrapping_sub(word) == 0 - word);
        assert(0 * range == 0);
        0
    }
}

/// Reads `bytes` as a decimal integer with an optional leading `-`. A value
/// too large for an `isize` wraps around.
pub fn read_integer_text(bytes: &[u8]) -> (r: Result<isize, JSONError>)
    ensures
        match integer_value(bytes@) {
            Some(x) => r == Ok::<isize, JSONError>(wrap_isize(x)),
            None => r == Err::<isize, JSONError>(JSONError::NumberFormatError),
        },
{
    let negative: bool = bytes.len() > 0 && bytes[0] == MINUS;
    let first: usize = if negative { 1 } else { 0 };
    let ghost digits = integer_digits(bytes@);
    let ghost range = word_range();
    let mut magnitude: isize = 0;
    let mut i: usize = first;
    let ghost mut k: int = 0;
    assert(bytes@.subrange(first as int, first as int) =~= Seq::<u8>::empty());
    assert(digits =~= bytes@.skip(first as int));
    while i < bytes.len()
        invariant
            first <= i <= bytes.len(),
            digits == bytes@.skip(first as int),
            digits == integer_digits(bytes@),
            range == word_range(),
            forall|j: int| first <= j < i ==> is_digit(bytes@[j]),
            digits_value(bytes@.subrange(first as int, i as int)) == magnitude + k * range,
        decreases bytes.len() - i,
    {
        let b: u8 = bytes[i];
        if !is_digit_byte(b) {
            assert(digits[i - first] == b);
            return Err(JSONError::NumberFormatError);
        }
        let digit: isize = (b - DIGIT_ZERO) as isize;
        let shifted: isize = magnitude.wrapping_mul(10);
        let next: isize = shifted.wrapping_add(digit);
        proof {
            let before = bytes@.subrange(first as int, i as int);
            let now = bytes@.subrange(first as int, i + 1);
            assert(now.drop_last() =~= before);
            assert(now.last() == b);
            let k_shift = lemma_wrapping_times_ten(magnitude);
            let k_add = lemma_wrapping_sum(shifted, digit);
            let k_next = 10 * k + k_shift + k_add;
            assert(digits_value(now) == next + k_next * range) by (nonlinear_arith)
                requires
                    digits_value(now) == digits_value(before) * 10 + digit,
                    digits_value(before) == magnitude + k * range,
                    magnitude * 10 == shifted + k_shift * range,
                    shifted + digit == next + k_add * range,
                    k_next == 10 * k + k_shift + k_add,
            ;
            k = k_next;
        }
        magnitude = next;
        i += 1;
    }
    proof {
        assert(bytes@.subrange(first as int, bytes.len() as int) =~= digits);
        assert(all_digits(digits)) by {
            assert forall|j: int| 0 <= j < digits.len() implies is_digit(#[trigger] digits[j]) by {
                assert(digits[j] == bytes@[j + first]);
            }
        }
    }
    if negative {
        let negated: isize = 0isize.wrapping_sub(magnitude);
        proof {
            let k_neg = lemma_wrapping_negation(magnitude);
            let value = -(digits_value(digits) as int);
            assert(value == negated + (k_neg - k) * range) by (nonlinear_arith)
                requires
                    value == -(magnitude + k * range),
                    -magnitude == negated + k_neg * range,
            ;
            lemma_wrap_isize(value, negated, k_neg - k);
        }
        Ok(negated)
    } else {
        proof {
            lemma_wrap_isize(digits_value(digits) as int, magnitude, k);
        }
        Ok(magnitude)
    }
}

} // verus!
