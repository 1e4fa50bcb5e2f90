//! The parse phase: reading a digit string, most significant digit first,
//! into an unsigned value bounded to 128 bits.

use vstd::prelude::*;

use crate::digits::char_digit;
use crate::digits::digit_value;
use crate::digits::lemma_char_digit_nonneg;
use crate::num::ConversionError;
use crate::num::NumSystem;

verus! {

/// The unbounded value a digit string denotes under radix `r`, most
/// significant digit first; the empty string denotes 0.
pub open spec fn str_value(s: Seq<char>, r: int) -> int
    decreases s.len(),
{
    if s.len() == 0 {
        0
    } else {
        str_value(s.drop_last(), r) * r + char_digit(s.last())
    }
}

/// The index of the leftmost character that is not a digit of radix `r`,
/// or the length of the string when every character is one.
pub open spec fn first_bad(s: Seq<char>, r: int) -> int
    decreases s.len(),
{
    if s.len() == 0 {
        0
    } else if char_digit(s[0]) >= r {
        0
    } else {
        1 + first_bad(s.subrange(1, s.len() as int), r)
    }
}

/// What parsing a digit string under radix `r` yields. Scanning left to
/// right, the first character that is no digit of `r` fails the parse with
/// `InvalidDigit`, unless the digits before it already carry the
/// accumulated value past the 128-bit range, which fails with
/// `NumberOverflow` first; a fully valid string whose value fits yields
/// that value, so in particular the empty string yields 0.
pub open spec fn parse_spec(s: Seq<char>, r: int) -> Result<int, ConversionError> {
    let j = first_bad(s, r);
    if str_value(s.take(j), r) > u128::MAX as int {
        Err(ConversionError::NumberOverflow)
    } else if j < s.len() {
        Err(ConversionError::InvalidDigit(s[j]))
    } else {
        Ok(str_value(s, r))
    }
}

/// `first_bad` points at the first character that is not a digit of the
/// radix: everything before it is a digit, and what it points at, if it is
/// inside the string, is not.
pub proof fn lemma_first_bad_bounds(s: Seq<char>, r: int)
    ensures
        0 <= first_bad(s, r) <= s.len(),
        forall|k: int| 0 <= k < first_bad(s, r) ==> char_digit(s[k]) < r,
        first_bad(s, r) < s.len() ==> char_digit(s[first_bad(s, r)]) >= r,
    decreases s.len(),
{
    if s.len() == 0 {
    } else if char_digit(s[0]) >= r {
    } else {
        let t = s.subrange(1, s.len() as int);
        lemma_first_bad_bounds(t, r);
        assert forall|k: int| 0 <= k < first_bad(s, r) implies char_digit(s[k]) < r by {
            if k >= 1 {
                assert(s[k] == t[k - 1]);
            }
        }
        if first_bad(s, r) < s.len() {
            assert(s[first_bad(s, r)] == t[first_bad(t, r)]);
        }
    }
}

/// Any index with only digits of the radix to its left, and no digit of the
/// radix at it, is what `first_bad` points at.
pub proof fn lemma_first_bad_is(s: Seq<char>, r: int, i: int)
    requires
        0 <= i <= s.len(),
        forall|k: int| 0 <= k < i ==> char_digit(s[k]) < r,
        i < s.len() ==> char_digit(s[i]) >= r,
    ensures
        first_bad(s, r) == i,
    decreases i,
{
    if i == 0 {
    } else {
        let t = s.subrange(1, s.len() as int);
        assert(char_digit(s[0]) < r);
        assert forall|k: int| 0 <= k < i - 1 implies char_digit(t[k]) < r by {
            assert(t[k] == s[k + 1]);
        }
        if i - 1 < t.len() {
            assert(t[i - 1] == s[i]);
        }
        lemma_first_bad_is(t, r, i - 1);
    }
}

/// A digit string never denotes a negative value.
pub proof fn lemma_str_value_nonneg(s: Seq<char>, r: int)
    requires
        r >= 0,
    ensures
        str_value(s, r) >= 0,
    decreases s.len(),
{
    if s.len() > 0 {
        lemma_str_value_nonneg(s.drop_last(), r);
        lemma_char_digit_nonneg(s.last());
        assert(str_value(s.drop_last(), r) * r >= 0) by (nonlinear_arith)
            requires
                str_value(s.drop_last(), r) >= 0,
                r >= 0,
        ;
    }
}

/// Extending a digit string by one digit multiplies its value by the radix
/// and adds the digit.
pub proof fn lemma_str_value_step(s: Seq<char>, r: int, i: int)
    requires
        0 <= i < s.len(),
    ensures
        str_value(s.take(i + 1), r) == str_value(s.take(i), r) * r + char_digit(s[i]),
{
    let p = s.take(i + 1);
    assert(p.drop_last() =~= s.take(i));
    assert(p.last() == s[i]);
}

/// The value of a digit string never shrinks as the string grows to the
/// right.
pub proof fn lemma_str_value_prefix_monotone(s: Seq<char>, r: int, i: int, j: int)
    requires
        r >= 1,
        0 <= i <= j <= s.len(),
    ensures
        str_value(s.take(i), r) <= str_value(s.take(j), r),
    decreases j - i,
{
    if i < j {
        lemma_str_value_prefix_monotone(s, r, i, j - 1);
        lemma_str_value_step(s, r, j - 1);
        lemma_str_value_nonneg(s.take(j - 1), r);
        lemma_char_digit_nonneg(s[j - 1]);
        assert(str_value(s.take(j - 1), r) * r >= str_value(s.take(j - 1), r)) by (nonlinear_arith)
            requires
                str_value(s.take(j - 1), r) >= 0,
                r >= 1,
        ;
    }
}

/// Reads a digit string under the radix of `src` into a 128-bit value,
/// exactly as `parse_spec` describes.
pub fn parse_digits(s: &str, src: NumSystem) -> (res: Result<u128, ConversionError>)
    ensures
        match res {
            Ok(v) => parse_spec(s@, src.radix()) == Ok::<int, ConversionError>(v as int),
            Err(e) => parse_spec(s@, src.radix()) == Err::<int, ConversionError>(e),
        },
{
    let radix = src.radix_value();
    let ghost r = src.radix();
    let n = s.unicode_len();
    let mut acc: u128 = 0;
    let mut i: usize = 0;
    while i < n
        invariant
            n == s@.len(),
            0 <= i <= n,
            r == src.radix(),
            radix as int == r,
            2 <= r <= 16,
            forall|k: int| 0 <= k < i ==> char_digit(s@[k]) < r,
            acc as int == str_value(s@.take(i as int), r),
        decreases n - i,
    {
        let c = s.get_char(i);
        let d = digit_value(c);
        if d as u128 >= radix {
            proof {
                lemma_first_bad_is(s@, r, i as int);
            }
            return Err(ConversionError::InvalidDigit(c));
        }
        proof {
            lemma_str_value_step(s@, r, i as int);
        }
        let shifted = match acc.checked_mul(radix) {
            Some(m) => m,
            None => {
                proof {
                    lemma_overflow_past(s@, r, i as int, acc as int, d as int);
                }
                return Err(ConversionError::NumberOverflow);
            },
        };
        acc = match shifted.checked_add(d as u128) {
            Some(a) => a,
            None => {
                proof {
                    lemma_overflow_past(s@, r, i as int, acc as int, d as int);
                }
                return Err(ConversionError::NumberOverflow);
            },
        };
        i = i + 1;
    }
    proof {
        lemma_first_bad_is(s@, r, n as int);
        assert(s@.take(n as int) =~= s@);
    }
    Ok(acc)
}

/// Once one more digit would carry the accumulated value past the 128-bit
/// range, the parse ends in `NumberOverflow`: every longer prefix of the
/// string, and in particular the prefix `parse_spec` examines, is past the
/// range as well.
proof fn lemma_overflow_past(s: Seq<char>, r: int, i: int, acc: int, d: int)
    requires
        r >= 1,
        0 <= i < s.len(),
        forall|k: int| 0 <= k < i ==> char_digit(s[k]) < r,
        char_digit(s[i]) < r,
        acc == str_value(s.take(i), r),
        d == char_digit(s[i]),
        acc * r + d > u128::MAX as int,
    ensures
        parse_spec(s, r) == Err::<int, ConversionError>(ConversionError::NumberOverflow),
{
    lemma_first_bad_bounds(s, r);
    let j = first_bad(s, r);
    assert(j >= i + 1) by {
        if j < i + 1 {
            assert(char_digit(s[j]) < r);
        }
    }
    lemma_str_value_step(s, r, i);
    lemma_str_value_prefix_monotone(s, r, i + 1, j);
}

} // verus!
