//! Prefix resolution and the radix conversion it guards: a recognized
//! `0b`/`0o`/`0x` marker must confirm the declared source radix, the digits
//! are parsed into a 128-bit value, and the value is rendered in the
//! target radix.

use vstd::prelude::*;

use crate::digits::char_digit;
use crate::num::ConversionError;
use crate::num::NumSystem;
use crate::parse::lemma_first_bad_is;
use crate::parse::parse_digits;
use crate::parse::parse_spec;
use crate::parse::str_value;
use crate::render::lemma_digits_of_correct;
use crate::render::render_spec;
use crate::render::render_value;

verus! {

/// The number system a recognized two-character prefix announces: `0x` for
/// hexadecimal, `0o` for octal, `0b` for binary, with the letter in either
/// case.
pub open spec fn prefix_system(s: Seq<char>) -> Option<NumSystem> {
    if s.len() >= 2 && s[0] == '0' {
        if s[1] == 'x' || s[1] == 'X' {
            Some(NumSystem::Hex)
        } else if s[1] == 'o' || s[1] == 'O' {
            Some(NumSystem::Oct)
        } else if s[1] == 'b' || s[1] == 'B' {
            Some(NumSystem::Bin)
        } else {
            None
        }
    } else {
        None
    }
}

/// How the prefix resolver treats the raw input: a recognized prefix that
/// confirms the declared source radix is stripped, one that contradicts it
/// fails with `InvalidBase`, and an input without a recognized prefix is
/// taken whole.
pub open spec fn resolve_prefix_spec(s: Seq<char>, src: NumSystem) -> Result<
    Seq<char>,
    ConversionError,
> {
    match prefix_system(s) {
        Some(sys) => if sys == src {
            Ok(s.skip(2))
        } else {
            Err(ConversionError::InvalidBase)
        },
        None => Ok(s),
    }
}

/// Conversion of a bare digit string, its prefix already resolved: parse
/// under the source radix, render under the target radix.
pub open spec fn convert_digits_spec(
    digits: Seq<char>,
    src: NumSystem,
    tgt: NumSystem,
) -> Result<Seq<char>, ConversionError> {
    match parse_spec(digits, src.radix()) {
        Ok(v) => Ok(render_spec(v, tgt.radix())),
        Err(e) => Err(e),
    }
}

/// The whole conversion pipeline on a raw input string. A prefix-only
/// input — a recognized matching prefix with nothing after it — is a
/// structurally defective literal and is rejected with `InvalidBase`
/// rather than read as a silent zero: zero must be written as a digit.
/// A bare empty input carries no prefix and still parses as 0.
pub open spec fn convert_spec(s: Seq<char>, src: NumSystem, tgt: NumSystem) -> Result<
    Seq<char>,
    ConversionError,
> {
    match resolve_prefix_spec(s, src) {
        Ok(digits) => if prefix_system(s) is Some && digits.len() == 0 {
            Err(ConversionError::InvalidBase)
        } else {
            convert_digits_spec(digits, src, tgt)
        },
        Err(e) => Err(e),
    }
}

/// Converts a number string from the source radix to the target radix,
/// exactly as `convert_spec` describes: a `0b`/`0o`/`0x` prefix must match
/// the declared source radix and is stripped, at least one digit must
/// follow a prefix, every remaining character must be a digit of that
/// radix, and the denoted value must fit in 128 bits; the result carries
/// no prefix, no leading zeros, and upper-case hexadecimal digits.
pub fn convert_base(num: &str, src: NumSystem, target: NumSystem) -> (res: Result<
    String,
    ConversionError,
>)
    ensures
        match res {
            Ok(out) => convert_spec(num@, src, target) == Ok::<Seq<char>, ConversionError>(out@),
            Err(e) => convert_spec(num@, src, target) == Err::<Seq<char>, ConversionError>(e),
        },
{
    let n = num.unicode_len();
    let prefix: Option<NumSystem> = if n >= 2 && num.get_char(0) == '0' {
        let c = num.get_char(1);
        if c == 'x' || c == 'X' {
            Some(NumSystem::Hex)
        } else if c == 'o' || c == 'O' {
            Some(NumSystem::Oct)
        } else if c == 'b' || c == 'B' {
            Some(NumSystem::Bin)
        } else {
            None
        }
    } else {
        None
    };
    let digits: &str = match prefix {
        Some(sys) => {
            if sys == src {
                if n == 2 {
                    // A prefix with no digits behind it: reject, never
                    // read it as zero.
                    proof {
                        assert(num@.skip(2).len() == 0);
                    }
                    return Err(ConversionError::InvalidBase);
                }
                let stripped = num.substring_char(2, n);
                proof {
                    assert(stripped@ =~= num@.skip(2));
                }
                stripped
            } else {
                return Err(ConversionError::InvalidBase);
            }
        },
        None => num,
    };
    let value = match parse_digits(digits, src) {
        Ok(v) => v,
        Err(e) => {
            return Err(e);
        },
    };
    Ok(render_value(value, target))
}

/// Law: a value representable in 128 bits survives a round trip between
/// any two radices. Rendering `v` under the source radix and converting
/// that string yields exactly the rendering of `v` under the target radix,
/// and converting the result back reproduces the first rendering.
pub proof fn lemma_convert_round_trip(v: int, r1: NumSystem, r2: NumSystem)
    requires
        0 <= v <= u128::MAX as int,
    ensures
        convert_spec(render_spec(v, r1.radix()), r1, r2) == Ok::<Seq<char>, ConversionError>(
            render_spec(v, r2.radix()),
        ),
        convert_spec(render_spec(v, r2.radix()), r2, r1) == Ok::<Seq<char>, ConversionError>(
            render_spec(v, r1.radix()),
        ),
{
    lemma_convert_render(v, r1, r2);
    lemma_convert_render(v, r2, r1);
}

/// Law: converting the digit `0`, bare or behind the matching prefix of
/// the source radix, yields the digit `0` for every pair of radices.
pub proof fn lemma_convert_zero(r1: NumSystem, r2: NumSystem)
    ensures
        convert_spec(seq!['0'], r1, r2) == Ok::<Seq<char>, ConversionError>(seq!['0']),
        forall|s: Seq<char>|
            prefix_system(s) == Some(r1) && s.skip(2) == seq!['0']
                ==> #[trigger] convert_spec(s, r1, r2) == Ok::<Seq<char>, ConversionError>(
                seq!['0'],
            ),
{
    lemma_parse_render_inverse(0, r1);
    assert(prefix_system(seq!['0']) is None);
    assert(render_spec(0, r1.radix()) == seq!['0']);
    assert forall|s: Seq<char>|
        prefix_system(s) == Some(r1) && s.skip(2) == seq!['0'] implies #[trigger] convert_spec(
        s,
        r1,
        r2,
    ) == Ok::<Seq<char>, ConversionError>(seq!['0']) by {
        assert(resolve_prefix_spec(s, r1) == Ok::<Seq<char>, ConversionError>(seq!['0']));
    }
}

/// Law: a recognized prefix that contradicts the declared source radix
/// fails the conversion with `InvalidBase`, whatever digits follow it.
pub proof fn lemma_prefix_mismatch(s: Seq<char>, src: NumSystem, tgt: NumSystem)
    requires
        prefix_system(s) is Some,
        prefix_system(s) != Some(src),
    ensures
        convert_spec(s, src, tgt) == Err::<Seq<char>, ConversionError>(ConversionError::InvalidBase),
{
}

/// Law: a recognized prefix that matches the declared source radix is only
/// stripped; the conversion is that of the digit string behind it. A
/// matching prefix with no digits behind it is itself rejected with
/// `InvalidBase`.
pub proof fn lemma_prefix_match(s: Seq<char>, src: NumSystem, tgt: NumSystem)
    requires
        prefix_system(s) == Some(src),
    ensures
        s.len() > 2 ==> convert_spec(s, src, tgt) == convert_digits_spec(s.skip(2), src, tgt),
        s.len() == 2 ==> convert_spec(s, src, tgt) == Err::<Seq<char>, ConversionError>(
            ConversionError::InvalidBase,
        ),
{
}

/// Law: when the prefix, if any, agrees with the declared source radix,
/// the leftmost remaining character that is no digit of that radix fails
/// the conversion with `InvalidDigit` carrying exactly that character —
/// provided the digits before it still denote a value within the 128-bit
/// range, for past that bound the overflow is discovered first.
pub proof fn lemma_first_illegal_digit(
    s: Seq<char>,
    src: NumSystem,
    tgt: NumSystem,
    digits: Seq<char>,
    i: int,
)
    requires
        resolve_prefix_spec(s, src) == Ok::<Seq<char>, ConversionError>(digits),
        0 <= i < digits.len(),
        forall|k: int| 0 <= k < i ==> char_digit(digits[k]) < src.radix(),
        char_digit(digits[i]) >= src.radix(),
        str_value(digits.take(i), src.radix()) <= u128::MAX as int,
    ensures
        convert_spec(s, src, tgt) == Err::<Seq<char>, ConversionError>(
            ConversionError::InvalidDigit(digits[i]),
        ),
{
    lemma_first_bad_is(digits, src.radix(), i);
}

/// The rendering of a value never starts with a radix prefix: it is the
/// single digit `0`, or starts with a nonzero digit.
proof fn lemma_render_no_prefix(v: int, r: NumSystem)
    requires
        0 <= v,
    ensures
        prefix_system(render_spec(v, r.radix())) is None,
{
    let s = render_spec(v, r.radix());
    if v == 0 {
        assert(s.len() == 1);
    } else {
        lemma_digits_of_correct(v, r.radix());
        assert(char_digit(s[0]) >= 1);
        assert(s[0] != '0');
    }
}

/// Parsing the rendering of a value under the same radix yields the value
/// back.
proof fn lemma_parse_render_inverse(v: int, r: NumSystem)
    requires
        0 <= v <= u128::MAX as int,
    ensures
        parse_spec(render_spec(v, r.radix()), r.radix()) == Ok::<int, ConversionError>(v),
{
    let rr = r.radix();
    let s = render_spec(v, rr);
    if v == 0 {
        assert(char_digit(s[0]) == 0);
        lemma_first_bad_is(s, rr, 1);
        assert(s.take(1) =~= s);
        assert(s.drop_last() =~= Seq::<char>::empty());
        assert(str_value(Seq::<char>::empty(), rr) == 0);
        assert(s.last() == '0');
        assert(str_value(s, rr) == 0 * rr + 0);
    } else {
        lemma_digits_of_correct(v, rr);
        lemma_first_bad_is(s, rr, s.len() as int);
        assert(s.take(s.len() as int) =~= s);
    }
}

/// Rendering, then converting between two radices, is parsing back the
/// value and rendering it under the target radix.
proof fn lemma_convert_render(v: int, rs: NumSystem, rt: NumSystem)
    requires
        0 <= v <= u128::MAX as int,
    ensures
        convert_spec(render_spec(v, rs.radix()), rs, rt) == Ok::<Seq<char>, ConversionError>(
            render_spec(v, rt.radix()),
        ),
{
    lemma_render_no_prefix(v, rs);
    lemma_parse_render_inverse(v, rs);
}

} // verus!
