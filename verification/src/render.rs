//! The render phase: writing an unsigned value in the digits of a target
//! radix, most significant digit first.

use vstd::prelude::*;

use vstd::arithmetic::div_mod::lemma_basic_div;
use vstd::arithmetic::div_mod::lemma_div_decreases;
use vstd::arithmetic::div_mod::lemma_div_pos_is_pos;
use vstd::arithmetic::div_mod::lemma_fundamental_div_mod;

use crate::digits::char_digit;
use crate::digits::char_of_digit;
use crate::digits::digit_char;
use crate::digits::lemma_digit_char_roundtrip;
use crate::num::NumSystem;
use crate::parse::str_value;
use crate::text::push_char;

verus! {

/// The digit string of a positive value under radix `r`, most significant
/// digit first; 0 (like any non-positive value or unusable radix) has the
/// empty string, so that a rendered value never carries leading zeros.
pub open spec fn digits_of(v: int, r: int) -> Seq<char>
    decreases v,
    when v <= 0 || r >= 2
    via digits_of_decreases
{
    if v <= 0 || r < 2 {
        Seq::empty()
    } else {
        digits_of(v / r, r).push(digit_char(v % r))
    }
}

#[via_fn]
proof fn digits_of_decreases(v: int, r: int) {
    if v >= 1 && r >= 2 {
        lemma_div_decreases(v, r);
        lemma_div_pos_is_pos(v, r);
    }
}

/// The rendering of a value under radix `r`: its digit string, except that
/// 0 is written as the single digit `0` rather than as nothing.
pub open spec fn render_spec(v: int, r: int) -> Seq<char> {
    if v == 0 {
        seq!['0']
    } else {
        digits_of(v, r)
    }
}

/// The digit string of a value reads back as that value: every character
/// in it is a digit of the radix, and the leading digit of a positive
/// value is never zero.
#[verifier::rlimit(30)]
pub proof fn lemma_digits_of_correct(v: int, r: int)
    requires
        2 <= r <= 16,
        0 <= v,
    ensures
        str_value(digits_of(v, r), r) == v,
        forall|k: int| 0 <= k < digits_of(v, r).len() ==> char_digit(#[trigger] digits_of(v, r)[k]) < r,
        v >= 1 ==> digits_of(v, r).len() >= 1 && char_digit(digits_of(v, r)[0]) >= 1,
    decreases v,
{
    if v >= 1 {
        lemma_fundamental_div_mod(v, r);
        lemma_div_pos_is_pos(v, r);
        lemma_div_decreases(v, r);
        let q = v / r;
        let d = v % r;
        lemma_digit_char_roundtrip(d);
        lemma_digits_of_correct(q, r);
        let s = digits_of(v, r);
        assert(s == digits_of(q, r).push(digit_char(d)));
        assert(s.len() == digits_of(q, r).len() + 1);
        assert(s.last() == digit_char(d));
        assert(s.drop_last() =~= digits_of(q, r));
        assert(str_value(s, r) == str_value(digits_of(q, r), r) * r + char_digit(digit_char(d)));
        assert(str_value(s, r) == q * r + d);
        assert forall|k: int| 0 <= k < s.len() implies char_digit(s[k]) < r by {
            if k < s.len() - 1 {
                assert(s[k] == digits_of(q, r)[k]);
            } else {
                assert(s[k] == digit_char(d));
            }
        }
        if v < r {
            lemma_basic_div(v, r);
            assert(s.len() == 1);
            assert(char_digit(s[0]) == d);
        } else {
            assert(q >= 1) by {
                if q == 0 {
                    assert(v == d);
                }
            }
            assert(s[0] == digits_of(q, r)[0]);
        }
        assert(v == r * q + d);
        assert(q * r == r * q) by (nonlinear_arith);
        assert(str_value(digits_of(v, r), r) == v);
    } else {
        assert(digits_of(v, r) =~= Seq::<char>::empty());
        assert(str_value(digits_of(v, r), r) == 0);
    }
}

/// Writes a 128-bit value in the radix of `target`, exactly as
/// `render_spec` describes.
pub fn render_value(v: u128, target: NumSystem) -> (s: String)
    ensures
        s@ == render_spec(v as int, target.radix()),
{
    let radix = target.radix_value();
    let ghost r = target.radix();
    if v == 0 {
        let s = String::from_str("0");
        proof {
            reveal_strlit("0");
            assert(s@ =~= render_spec(0, r));
        }
        return s;
    }
    let mut rev: Vec<char> = Vec::new();
    let mut n = v;
    proof {
        assert(digits_of(v as int, r) =~= digits_of(n as int, r) + rev@.reverse());
    }
    while n > 0
        invariant
            r == target.radix(),
            radix as int == r,
            2 <= r <= 16,
            digits_of(v as int, r) == digits_of(n as int, r) + rev@.reverse(),
        decreases n,
    {
        let ghost s0 = rev@;
        let d = (n % radix) as u8;
        let c = char_of_digit(d);
        rev.push(c);
        proof {
            lemma_div_decreases(n as int, r);
            assert(rev@.reverse() =~= seq![c] + s0.reverse());
            assert(digits_of(n as int, r) =~= digits_of(n as int / r, r).push(c));
            assert(
                digits_of(n as int / r, r) + (seq![c] + s0.reverse())
                    =~= (digits_of(n as int / r, r).push(c)) + s0.reverse()
            );
        }
        n = n / radix;
    }
    proof {
        assert(digits_of(v as int, r) =~= rev@.reverse());
    }
    let mut out = String::new();
    let mut i = rev.len();
    while i > 0
        invariant
            i <= rev@.len(),
            out@.len() + i == rev@.len(),
            forall|k: int| 0 <= k < out@.len() ==> out@[k] == rev@[rev@.len() - 1 - k],
        decreases i,
    {
        i = i - 1;
        let c = rev[i];
        push_char(&mut out, c);
    }
    proof {
        assert(out@ =~= rev@.reverse());
        assert(out@ =~= render_spec(v as int, r));
    }
    out
}

} // verus!
