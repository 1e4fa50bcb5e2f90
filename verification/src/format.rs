//! Output formatting: left-padding a digit string with zeros to a minimum
//! width, and grouping its digits with spaces, counted from the
//! least-significant end.

use vstd::prelude::*;

use vstd::arithmetic::div_mod::lemma_fundamental_div_mod;
use vstd::arithmetic::div_mod::lemma_mod_bound;
use vstd::arithmetic::div_mod::lemma_mod_multiples_basic;
use vstd::arithmetic::div_mod::lemma_mod_sub_multiples_vanish;
use vstd::arithmetic::div_mod::lemma_small_mod;

use crate::text::push_char;

verus! {

/// A digit string left-padded with zeros to width `w`: one that is already
/// wide enough is kept as it is.
pub open spec fn pad_spec(s: Seq<char>, w: int) -> Seq<char> {
    if s.len() >= w {
        s
    } else {
        Seq::new((w - s.len()) as nat, |i: int| '0') + s
    }
}

/// The tail of a grouped digit string: `t` split into groups of exactly
/// `g` characters, each group preceded by one space.
pub open spec fn group_tail(t: Seq<char>, g: int) -> Seq<char>
    decreases t.len(),
{
    if t.len() == 0 || g < 1 {
        Seq::empty()
    } else if t.len() <= g {
        seq![' '] + t
    } else {
        seq![' '] + t.take(g) + group_tail(t.skip(g), g)
    }
}

/// A digit string grouped by `g`: a space is inserted after every `g`
/// characters counted from the rightmost one, so the leftmost group keeps
/// the remainder and may be shorter, and no space leads or trails. A
/// grouping of 0 leaves the string as it is.
pub open spec fn group_spec(s: Seq<char>, g: int) -> Seq<char> {
    if g < 1 || s.len() == 0 {
        s
    } else {
        let head = ((s.len() - 1) % g) + 1;
        s.take(head) + group_tail(s.skip(head), g)
    }
}

/// Law: padding is idempotent, and a padded string is exactly as long as
/// the wider of the input and the requested width.
pub proof fn lemma_pad_idempotent(s: Seq<char>, w: int)
    ensures
        pad_spec(pad_spec(s, w), w) == pad_spec(s, w),
        pad_spec(s, w).len() == if s.len() >= w {
            s.len() as int
        } else {
            w
        },
{
}

/// Pads a number string with leading zeros to reach the given width, as
/// `pad_spec` describes: an input at least `width` long is returned
/// unchanged, a shorter one gets exactly `width - len` zeros in front, so
/// the result is `max(len, width)` long.
pub fn pad_width(num: &str, width: u32) -> (r: String)
    ensures
        r@ == pad_spec(num@, width as int),
        r@.len() == if num@.len() >= width {
            num@.len()
        } else {
            width as nat
        },
{
    let n = num.unicode_len();
    if n >= width as usize {
        return String::from_str(num);
    }
    let ghost zeros = Seq::new((width - n) as nat, |i: int| '0');
    let mut r = String::new();
    let mut k: usize = 0;
    while k < width as usize - n
        invariant
            n == num@.len(),
            n < width,
            zeros == Seq::new((width - n) as nat, |i: int| '0'),
            0 <= k <= width - n,
            r@ == zeros.take(k as int),
        decreases width as usize - n - k,
    {
        push_char(&mut r, '0');
        proof {
            assert(r@ =~= zeros.take(k as int + 1));
        }
        k = k + 1;
    }
    proof {
        assert(zeros.take((width - n) as int) =~= zeros);
    }
    r.append(num);
    r
}

/// Groups the digits of a number string with a space every `grouping`
/// characters, counted from the rightmost one, as `group_spec` describes;
/// a grouping of 0 returns the input unchanged.
pub fn group_digits(num: &str, grouping: u32) -> (r: String)
    ensures
        r@ == group_spec(num@, grouping as int),
        grouping == 0 ==> r@ == num@,
{
    let n = num.unicode_len();
    if grouping == 0 || n == 0 {
        return String::from_str(num);
    }
    let g = grouping as usize;
    let ghost gi = g as int;
    proof {
        lemma_mod_bound(n as int - 1, gi);
        if n as int - 1 < gi {
            lemma_small_mod((n - 1) as nat, gi as nat);
        }
    }
    let head = ((n - 1) % g) + 1;
    let mut r = String::new();
    let mut j: usize = 0;
    while j < head
        invariant
            n == num@.len(),
            0 < head <= n,
            0 <= j <= head,
            r@ == num@.take(j as int),
        decreases head - j,
    {
        push_char(&mut r, num.get_char(j));
        proof {
            assert(r@ =~= num@.take(j as int + 1));
        }
        j = j + 1;
    }
    proof {
        let q = (n as int - 1) / gi;
        lemma_fundamental_div_mod(n as int - 1, gi);
        assert(n as int - 1 == gi * q + (n as int - 1) % gi);
        assert(n - head == gi * q);
        lemma_mod_multiples_basic(q, gi);
        assert(gi * q == q * gi) by (nonlinear_arith);
        assert((n - head) % gi == 0);
        assert(group_spec(num@, gi) == num@.take(head as int) + group_tail(
            num@.skip(head as int),
            gi,
        ));
    }
    let mut i: usize = head;
    while i < n
        invariant
            n == num@.len(),
            gi == g,
            1 <= g,
            head <= i <= n,
            (n - i) % gi == 0,
            group_spec(num@, gi) == r@ + group_tail(num@.skip(i as int), gi),
        decreases n - i,
    {
        proof {
            assert(n - i >= gi) by {
                if n - i < gi {
                    lemma_small_mod((n - i) as nat, gi as nat);
                }
            }
        }
        let ghost i0 = i as int;
        let ghost r_before = r@;
        let stop = i + g;
        push_char(&mut r, ' ');
        proof {
            assert(r@ =~= r_before + seq![' '] + num@.subrange(i0, i0));
        }
        while i < stop
            invariant
                n == num@.len(),
                gi == g,
                1 <= g,
                stop == i0 + gi,
                0 <= i0 <= i <= stop,
                stop <= n,
                r@ == r_before + seq![' '] + num@.subrange(i0, i as int),
            decreases stop - i,
        {
            push_char(&mut r, num.get_char(i));
            proof {
                assert(r@ =~= r_before + seq![' '] + num@.subrange(i0, i as int + 1));
            }
            i = i + 1;
        }
        proof {
            let t = num@.skip(i0);
            assert(t.take(gi) =~= num@.subrange(i0, i0 + gi));
            assert(t.skip(gi) =~= num@.skip(i0 + gi));
            assert(group_tail(t, gi) =~= seq![' '] + num@.subrange(i0, i0 + gi) + group_tail(
                num@.skip(i0 + gi),
                gi,
            ));
            assert(r_before + group_tail(t, gi) =~= r@ + group_tail(num@.skip(i as int), gi));
            lemma_mod_sub_multiples_vanish(n - i0, gi);
            assert((n - i) % gi == 0) by {
                assert(n - i == -gi + (n - i0));
            }
        }
    }
    proof {
        assert(num@.skip(n as int) =~= Seq::<char>::empty());
        assert(r@ + group_tail(Seq::<char>::empty(), gi) =~= r@);
    }
    r
}

} // verus!
