//! A configurable line-by-line comparer of outputs with answers.
use vstd::prelude::*;
use vstd::string::StringSliceAdditionalSpecFns;
use crate::lines::{differ, lines_differ, LineNorm};

verus! {

/// Compares outputs with answers line by line, or hands the check to an
/// external program.
pub struct Checker {
    ignore_white_space_at_line_end: bool,
    ignore_empty_line_at_file_end: bool,
    extern_program: Option<String>,
}

/// The command that runs an external checker: the program, then the
/// input, answer and output files.
pub struct CheckCommand {
    pub program: String,
    pub args: Vec<String>,
}

/// How a checker with these options turns each line into what it compares:
/// the newline is dropped, and trailing spaces too when they are ignored.
pub open spec fn checker_norm(ignore_white_space: bool) -> LineNorm {
    if ignore_white_space {
        LineNorm::DropNewlineTrimSpaces
    } else {
        LineNorm::DropNewline
    }
}

impl Checker {
    pub closed spec fn ignores_white_space_at_line_end(&self) -> bool {
        self.ignore_white_space_at_line_end
    }

    pub closed spec fn ignores_empty_line_at_file_end(&self) -> bool {
        self.ignore_empty_line_at_file_end
    }

    pub closed spec fn program(&self) -> Option<Seq<char>> {
        match self.extern_program {
            Some(p) => Some(p@),
            None => None,
        }
    }

    /// A checker that ignores white space at line ends and empty lines at
    /// the end, with no external program.
    pub fn new() -> (c: Checker)
        ensures
            c.ignores_white_space_at_line_end(),
            c.ignores_empty_line_at_file_end(),
            c.program() is None,
    {
        Checker::default()
    }

    pub fn ignore_white_space_at_line_end(self, flag: bool) -> (c: Checker)
        ensures
            c.ignores_white_space_at_line_end() == flag,
            c.ignores_empty_line_at_file_end() == self.ignores_empty_line_at_file_end(),
            c.program() == self.program(),
    {
        Checker { ignore_white_space_at_line_end: flag, ..self }
    }

    pub fn ignore_empty_line_at_file_end(self, flag: bool) -> (c: Checker)
        ensures
            c.ignores_white_space_at_line_end() == self.ignores_white_space_at_line_end(),
            c.ignores_empty_line_at_file_end() == flag,
            c.program() == self.program(),
    {
        Checker { ignore_empty_line_at_file_end: flag, ..self }
    }

    /// Use an external program to check the output.
    pub fn extern_program(self, program: &str) -> (c: Checker)
        ensures
            c.ignores_white_space_at_line_end() == self.ignores_white_space_at_line_end(),
            c.ignores_empty_line_at_file_end() == self.ignores_empty_line_at_file_end(),
            c.program() == Some(program@),
    {
        Checker { extern_program: Some(String::from_str(program)), ..self }
    }

    /// Whether the output and the answer differ under the checker's options.
    pub fn buf_diff(&self, output: &[u8], answer: &[u8]) -> (r: bool)
        ensures
            r == lines_differ(
                output@,
                answer@,
                checker_norm(self.ignores_white_space_at_line_end()),
                self.ignores_empty_line_at_file_end(),
            ),
    {
        let norm = if self.ignore_white_space_at_line_end {
            LineNorm::DropNewlineTrimSpaces
        } else {
            LineNorm::DropNewline
        };
        differ(output, answer, norm, self.ignore_empty_line_at_file_end)
    }

    /// Whether there is no difference between the two byte arrays.
    pub fn compare_bytes(&self, output: &[u8], answer: &[u8]) -> (r: bool)
        ensures
            r == !lines_differ(
                output@,
                answer@,
                checker_norm(self.ignores_white_space_at_line_end()),
                self.ignores_empty_line_at_file_end(),
            ),
    {
        !self.buf_diff(output, answer)
    }

    /// Whether there is no difference between the two strings.
    pub fn compare_strings(&self, output: &str, answer: &str) -> (r: bool)
        ensures
            r == !lines_differ(
                output.spec_bytes(),
                answer.spec_bytes(),
                checker_norm(self.ignores_white_space_at_line_end()),
                self.ignores_empty_line_at_file_end(),
            ),
    {
        self.compare_bytes(output.as_bytes(), answer.as_bytes())
    }

    /// The command that checks an output with the external program, whose
    /// exit status is the verdict; the checker's other options play no part.
    /// The checker must have an external program.
    pub fn check_use_extern_program(&self, input_file: &str, output_file: &str, answer_file: &str) -> (c:
        CheckCommand)
        requires
            self.program() is Some,
        ensures
            c.program@ == self.program()->0,
            c.args@.len() == 3,
            c.args@[0]@ == input_file@,
            c.args@[1]@ == answer_file@,
            c.args@[2]@ == output_file@,
    {
        let program = match &self.extern_program {
            Some(p) => p.clone(),
            None => String::new(),
        };
        let mut args: Vec<String> = Vec::new();
        args.push(String::from_str(input_file));
        args.push(String::from_str(answer_file));
        args.push(String::from_str(output_file));
        CheckCommand { program, args }
    }
}

impl Default for Checker {
    fn default() -> (c: Checker)
        ensures
            c.ignores_white_space_at_line_end(),
            c.ignores_empty_line_at_file_end(),
            c.program() is None,
    {
        Checker {
            ignore_white_space_at_line_end: true,
            ignore_empty_line_at_file_end: true,
            extern_program: None,
        }
    }
}

} // verus!
