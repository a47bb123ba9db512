//! Comparison of program output with the answer for outputs given as text.
use vstd::prelude::*;
use vstd::string::StringSliceAdditionalSpecFns;
use crate::checker::CheckCommand;
use crate::lines::{zip_differ, zip_lines_differ};

verus! {

/// Compares outputs with answers, or builds the command of a special judge;
/// reading the files and running the command are left to the caller.
pub struct Comparer;

/// Whether the output differs from the answer: their lines, trailing
/// newlines of the whole text removed, are compared pairwise as far as both
/// reach, trailing spaces ignored.
pub fn diff(output: &str, answer: &str) -> (r: bool)
    ensures
        r == zip_lines_differ(output.spec_bytes(), answer.spec_bytes()),
{
    zip_differ(output.as_bytes(), answer.as_bytes())
}

impl Comparer {
    /// Whether the output passes against the answer, without a special
    /// judge.
    pub fn check_text(output: &str, answer: &str) -> (r: bool)
        ensures
            r == !zip_lines_differ(output.spec_bytes(), answer.spec_bytes()),
    {
        !diff(output, answer)
    }

    /// The command that runs the special judge `spj` on a test: it is given
    /// the input, the answer and the output, in this order, and its exit
    /// status is the verdict.
    pub fn spj_command(spj: &str, input_file: &str, output_file: &str, answer_file: &str) -> (c:
        CheckCommand)
        ensures
            c.program@ == spj@,
            c.args@.len() == 3,
            c.args@[0]@ == input_file@,
            c.args@[1]@ == answer_file@,
            c.args@[2]@ == output_file@,
    {
        let mut args: Vec<String> = Vec::new();
        args.push(String::from_str(input_file));
        args.push(String::from_str(answer_file));
        args.push(String::from_str(output_file));
        CheckCommand { program: String::from_str(spj), args }
    }
}

} // verus!
