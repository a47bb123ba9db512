//! Comparison of output and answer bytes line by line, ignoring white space
//! at line ends and empty lines at the end as configured.
use vstd::prelude::*;
use crate::lines::{differ, lines_differ, trimmed_end, LineNorm, Trailing};

verus! {

/// Compares outputs with answers line by line.
pub struct Comparer {
    ignore_white_space_at_eol: bool,
    ignore_empty_line_at_eof: bool,
}

/// How a comparer turns each line into what it compares: the line as read,
/// newline included, or without its trailing ASCII white space when that is
/// ignored. A line that holds only a newline still counts as empty for the
/// rule on empty lines at the end.
pub open spec fn comparer_norm(ignore_white_space: bool) -> LineNorm {
    if ignore_white_space {
        LineNorm::TrimAsciiWhitespace
    } else {
        LineNorm::Keep
    }
}

impl Comparer {
    pub closed spec fn ignores_white_space_at_eol(&self) -> bool {
        self.ignore_white_space_at_eol
    }

    pub closed spec fn ignores_empty_line_at_eof(&self) -> bool {
        self.ignore_empty_line_at_eof
    }

    pub fn new(ignore_white_space_at_eol: bool, ignore_empty_line_at_eof: bool) -> (c: Comparer)
        ensures
            c.ignores_white_space_at_eol() == ignore_white_space_at_eol,
            c.ignores_empty_line_at_eof() == ignore_empty_line_at_eof,
    {
        Comparer { ignore_white_space_at_eol, ignore_empty_line_at_eof }
    }

    /// Whether there is no difference between the two byte arrays.
    pub fn compare(&self, output: &[u8], answer: &[u8]) -> (r: bool)
        ensures
            r == !lines_differ(
                output@,
                answer@,
                comparer_norm(self.ignores_white_space_at_eol()),
                self.ignores_empty_line_at_eof(),
            ),
    {
        !self.buf_diff(output, answer)
    }

    /// Whether the two byte arrays differ, line by line.
    pub fn buf_diff(&self, output: &[u8], answer: &[u8]) -> (r: bool)
        ensures
            r == lines_differ(
                output@,
                answer@,
                comparer_norm(self.ignores_white_space_at_eol()),
                self.ignores_empty_line_at_eof(),
            ),
    {
        let norm = if self.ignore_white_space_at_eol {
            LineNorm::TrimAsciiWhitespace
        } else {
            LineNorm::Keep
        };
        differ(output, answer, norm, self.ignore_empty_line_at_eof)
    }
}

impl Default for Comparer {
    /// A comparer that ignores white space at line ends and empty lines at
    /// the end.
    fn default() -> (c: Comparer)
        ensures
            c.ignores_white_space_at_eol(),
            c.ignores_empty_line_at_eof(),
    {
        Comparer::new(true, true)
    }
}

/// `s` without its trailing ASCII white space.
pub fn trim_end(s: &[u8]) -> (t: &[u8])
    ensures
        t@ == crate::lines::trim_end(s@, Trailing::AsciiWhitespace),
{
    let e = trimmed_end(s, 0, s.len(), Trailing::AsciiWhitespace);
    assert(s@.subrange(0, s@.len() as int) =~= s@);
    &s[0..e]
}

} // verus!
