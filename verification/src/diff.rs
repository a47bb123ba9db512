//! Line-by-line comparison that ignores spaces and newlines at the end of
//! each line, and empty lines at the end of either text.
use vstd::prelude::*;
use crate::lines::{differ, lines_differ, LineNorm};

verus! {

/// Whether the output differs from the answer: each line is compared once
/// its trailing run of spaces and newlines is removed, and a missing line
/// is accepted where the other text holds an empty one.
pub fn buf_diff(output: &[u8], answer: &[u8]) -> (r: bool)
    ensures
        r == lines_differ(output@, answer@, LineNorm::TrimSpacesAndNewlines, true),
{
    differ(output, answer, LineNorm::TrimSpacesAndNewlines, true)
}

/// Whether the output matches the answer, as `buf_diff` compares them.
pub fn check(output: &[u8], answer: &[u8]) -> (r: bool)
    ensures
        r == !lines_differ(output@, answer@, LineNorm::TrimSpacesAndNewlines, true),
{
    !buf_diff(output, answer)
}

} // verus!
