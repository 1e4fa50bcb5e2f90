//! Digit characters: the value a character denotes, the character a value is
//! rendered as, and the correspondence between the two.

use vstd::prelude::*;

verus! {

/// The numeric value a character denotes when read as a digit: ASCII digits
/// map to 0..=9 and the letters `A`..=`F` (either case) to 10..=15. Every
/// other character maps to 16, which no supported radix accepts, so it is
/// rejected wherever a digit below the radix is required.
pub open spec fn char_digit(c: char) -> int {
    if '0' as int <= c as int <= '9' as int {
        c as int - '0' as int
    } else if 'A' as int <= c as int <= 'F' as int {
        c as int - 'A' as int + 10
    } else if 'a' as int <= c as int <= 'f' as int {
        c as int - 'a' as int + 10
    } else {
        16
    }
}

/// The character a digit value is rendered as: `0`..=`9` for values below
/// ten, upper-case `A`..=`F` for ten to fifteen.
pub open spec fn digit_char(d: int) -> char {
    if d == 0 { '0' }
    else if d == 1 { '1' }
    else if d == 2 { '2' }
    else if d == 3 { '3' }
    else if d == 4 { '4' }
    else if d == 5 { '5' }
    else if d == 6 { '6' }
    else if d == 7 { '7' }
    else if d == 8 { '8' }
    else if d == 9 { '9' }
    else if d == 10 { 'A' }
    else if d == 11 { 'B' }
    else if d == 12 { 'C' }
    else if d == 13 { 'D' }
    else if d == 14 { 'E' }
    else { 'F' }
}

/// Reading back the character of a digit value yields that value.
pub proof fn lemma_digit_char_roundtrip(d: int)
    requires
        0 <= d < 16,
    ensures
        char_digit(digit_char(d)) == d,
{
}

/// Every character denotes a non-negative value, legal digit or not.
pub proof fn lemma_char_digit_nonneg(c: char)
    ensures
        char_digit(c) >= 0,
{
}

/// Computes `char_digit` on a machine character.
pub fn digit_value(c: char) -> (d: u8)
    ensures
        d as int == char_digit(c),
{
    let u = c as u32;
    if '0' as u32 <= u && u <= '9' as u32 {
        (u - '0' as u32) as u8
    } else if 'A' as u32 <= u && u <= 'F' as u32 {
        (u - 'A' as u32 + 10) as u8
    } else if 'a' as u32 <= u && u <= 'f' as u32 {
        (u - 'a' as u32 + 10) as u8
    } else {
        16
    }
}

/// Computes `digit_char` on a machine digit value.
pub fn char_of_digit(d: u8) -> (c: char)
    requires
        d < 16,
    ensures
        c == digit_char(d as int),
{
    if d == 0 { '0' }
    else if d == 1 { '1' }
    else if d == 2 { '2' }
    else if d == 3 { '3' }
    else if d == 4 { '4' }
    else if d == 5 { '5' }
    else if d == 6 { '6' }
    else if d == 7 { '7' }
    else if d == 8 { '8' }
    else if d == 9 { '9' }
    else if d == 10 { 'A' }
    else if d == 11 { 'B' }
    else if d == 12 { 'C' }
    else if d == 13 { 'D' }
    else if d == 14 { 'E' }
    else { 'F' }
}

} // verus!
