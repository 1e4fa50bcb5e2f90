//! Conversion of unsigned integer literals between binary, octal, decimal
//! and hexadecimal notation, with zero-padding and digit grouping for
//! display.
//!
//! The pipeline is a composition of pure functions: a prefix resolver that
//! checks an optional `0b`/`0o`/`0x` marker against the declared source
//! radix, a radix converter that parses the digits into a 128-bit value and
//! renders it in the target radix, a width padder and a digit grouper.
//! Every step is specified exactly: `convert_base` returns what
//! `convert_spec` says and nothing else, and the formatting functions
//! return what `pad_spec` and `group_spec` say.

use vstd::prelude::*;

pub mod convert;
pub mod digits;
pub mod format;
pub mod num;
pub mod parse;
pub mod render;
mod text;

pub use convert::convert_base;
pub use format::group_digits;
pub use format::pad_width;
pub use num::Config;
pub use num::ConversionError;
pub use num::NumSystem;

use convert::convert_spec;
use format::group_spec;
use format::pad_spec;

verus! {

/// What a full run yields for a configuration: the conversion of the raw
/// input between the two configured radices, padded to the minimum width
/// and then grouped.
pub open spec fn run_spec(c: Config) -> Result<Seq<char>, ConversionError> {
    match convert_spec(c.number@, c.src_base, c.tgt_base) {
        Ok(digits) => Ok(group_spec(pad_spec(digits, c.width as int), c.grouping as int)),
        Err(e) => Err(e),
    }
}

/// Runs the whole pipeline for a configuration and returns the formatted
/// result: convert the number between the two radices, pad it to the
/// minimum width, then group the digits.
pub fn run(config: &Config) -> (res: Result<String, ConversionError>)
    ensures
        match res {
            Ok(out) => run_spec(*config) == Ok::<Seq<char>, ConversionError>(out@),
            Err(e) => run_spec(*config) == Err::<Seq<char>, ConversionError>(e),
        },
{
    let converted = match convert_base(config.number.as_str(), config.src_base, config.tgt_base) {
        Ok(s) => s,
        Err(e) => {
            return Err(e);
        },
    };
    let padded = pad_width(converted.as_str(), config.width);
    Ok(group_digits(padded.as_str(), config.grouping))
}

} // verus!
