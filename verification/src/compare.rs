//! Comparison of program output with the answer, line by line as far as
//! both texts reach, for outputs given as bytes.
use vstd::prelude::*;
use vstd::utf8::valid_utf8;
use crate::lines::{zip_differ, zip_lines_differ};

verus! {

/// `std::str::from_utf8(bytes).is_ok()`: whether the bytes are valid UTF-8.
#[verifier::external_body]
pub(crate) fn is_utf8(bytes: &[u8]) -> (r: bool)
    ensures
        r == valid_utf8(bytes@),
{
    std::str::from_utf8(bytes).is_ok()
}

/// Whether the output differs from the answer. Texts that are not both
/// UTF-8 never differ; otherwise their lines, trailing newlines of the
/// whole text removed, are compared pairwise as far as both reach, trailing
/// spaces ignored.
pub fn diff(output: &[u8], answer: &[u8]) -> (r: bool)
    ensures
        r == (valid_utf8(output@) && valid_utf8(answer@) && zip_lines_differ(output@, answer@)),
{
    if !is_utf8(output) {
        return false;
    }
    if !is_utf8(answer) {
        return false;
    }
    zip_differ(output, answer)
}

/// Whether the output passes against the answer, without a special judge.
pub fn check(output: &[u8], answer: &[u8]) -> (r: bool)
    ensures
        r == !(valid_utf8(output@) && valid_utf8(answer@) && zip_lines_differ(output@, answer@)),
{
    !diff(output, answer)
}

} // verus!
