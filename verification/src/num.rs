//! The number systems the converter supports, the per-invocation
//! configuration, and the errors a conversion can end in.

use vstd::prelude::*;

verus! {

/// A positional number system, used both to select a radix and to decide
/// which digit characters are legal.
#[derive(Debug, Clone, Copy, PartialEq, Eq, Structural)]
pub enum NumSystem {
    /// Binary (radix 2).
    Bin,
    /// Octal (radix 8).
    Oct,
    /// Decimal (radix 10).
    Dec,
    /// Hexadecimal (radix 16).
    Hex,
}

impl NumSystem {
    /// The radix of this number system, as a mathematical integer.
    pub open spec fn radix(self) -> int {
        match self {
            NumSystem::Bin => 2,
            NumSystem::Oct => 8,
            NumSystem::Dec => 10,
            NumSystem::Hex => 16,
        }
    }

    /// The radix of this number system, as a machine integer.
    pub fn radix_value(self) -> (r: u128)
        ensures
            r as int == self.radix(),
    {
        match self {
            NumSystem::Bin => 2,
            NumSystem::Oct => 8,
            NumSystem::Dec => 10,
            NumSystem::Hex => 16,
        }
    }
}

/// Errors a conversion can end in; each is terminal, and the surrounding
/// program decides how to report it.
#[derive(Debug, Clone, Copy, PartialEq, Eq, Structural)]
pub enum ConversionError {
    /// The input holds a character that is not a digit of the source radix;
    /// the offending character is carried along for diagnostics.
    InvalidDigit(char),
    /// The input denotes a value beyond the 128-bit intermediate range.
    NumberOverflow,
    /// The input carries a radix prefix that contradicts the declared
    /// source radix.
    InvalidBase,
}

/// Everything one conversion needs: the two number systems, the raw input,
/// and the two display options.
pub struct Config {
    /// The number system the input is written in.
    pub src_base: NumSystem,
    /// The number system the output is written in.
    pub tgt_base: NumSystem,
    /// The raw input literal, possibly carrying a radix prefix.
    pub number: String,
    /// Digits per visual group in the output; 0 leaves the digits ungrouped.
    pub grouping: u32,
    /// Minimum number of characters in the output before grouping;
    /// shorter results are left-padded with zeros.
    pub width: u32,
}

impl Config {
    /// Bundles the five conversion parameters into a `Config`.
    pub fn new(
        src_base: NumSystem,
        tgt_base: NumSystem,
        number: String,
        grouping: u32,
        width: u32,
    ) -> (c: Config)
        ensures
            c.src_base == src_base,
            c.tgt_base == tgt_base,
            c.number == number,
            c.grouping == grouping,
            c.width == width,
    {
        Config { src_base, tgt_base, number, grouping, width }
    }
}

} // verus!
