//! Compiling a submission for judging, with or without optimisation.
use vstd::prelude::*;
use crate::compiler::{gcc_args, gcc_command, source_file_path, string_views, Command};

verus! {

/// The languages a submission may be written in.
#[derive(Debug, Clone, Copy, PartialEq, Eq, Structural)]
pub enum Languages {
    CGcc,
    CppGxx,
}

/// Whether a compilation succeeded.
pub type CompileResult = Result<(), ()>;

/// A compiler back end whose optimisation can be switched off.
pub trait Compiler {
    fn suffix(&self) -> &'static str;

    fn compile(&self, source_file: &str, executable_file: &str, optimize_flag: bool) -> Command;
}

/// gcc, for C99.
pub struct CGcc {}

/// g++, for C++11.
pub struct CppGxx {}

/// The optimisation argument: `-O2`, or an empty argument.
pub open spec fn opt_arg(optimize_flag: bool) -> Seq<char> {
    if optimize_flag {
        "-O2"@
    } else {
        ""@
    }
}

impl Compiler for CGcc {
    fn suffix(&self) -> (s: &'static str)
        ensures
            s@ == "c"@,
    {
        "c"
    }

    fn compile(&self, source_file: &str, executable_file: &str, optimize_flag: bool) -> (c: Command)
        ensures
            c.program@ == "gcc"@,
            string_views(c.args@) == gcc_args(
                source_file@,
                executable_file@,
                opt_arg(optimize_flag),
                "--std=c99"@,
            ),
    {
        let opt = if optimize_flag {
            "-O2"
        } else {
            ""
        };
        gcc_command("gcc", source_file, executable_file, opt, "--std=c99")
    }
}

impl Compiler for CppGxx {
    fn suffix(&self) -> (s: &'static str)
        ensures
            s@ == "cpp"@,
    {
        "cpp"
    }

    fn compile(&self, source_file: &str, executable_file: &str, optimize_flag: bool) -> (c: Command)
        ensures
            c.program@ == "g++"@,
            string_views(c.args@) == gcc_args(
                source_file@,
                executable_file@,
                opt_arg(optimize_flag),
                "--std=c++11"@,
            ),
    {
        let opt = if optimize_flag {
            "-O2"
        } else {
            ""
        };
        gcc_command("g++", source_file, executable_file, opt, "--std=c++11")
    }
}

/// A compilation to do: write the code to `source_file`, then run the
/// command.
pub struct CompileJob {
    pub source_file: String,
    pub command: Command,
}

/// How a submission in `language` compiles, optimised, into
/// `executable_file`, its code written first to `main.<suffix>` in
/// `temp_dir`.
pub fn compile(language: &Languages, temp_dir: &str, executable_file: &str) -> (j: CompileJob)
    ensures
        *language == Languages::CGcc ==> j.source_file@ == crate::text::join_path(
            temp_dir@,
            "main."@ + "c"@,
        ) && j.command.program@ == "gcc"@ && string_views(j.command.args@) == gcc_args(
            j.source_file@,
            executable_file@,
            "-O2"@,
            "--std=c99"@,
        ),
        *language == Languages::CppGxx ==> j.source_file@ == crate::text::join_path(
            temp_dir@,
            "main."@ + "cpp"@,
        ) && j.command.program@ == "g++"@ && string_views(j.command.args@) == gcc_args(
            j.source_file@,
            executable_file@,
            "-O2"@,
            "--std=c++11"@,
        ),
{
    match language {
        Languages::CGcc => {
            let compiler = CGcc {};
            let source_file = source_file_path(temp_dir, compiler.suffix());
            let command = compiler.compile(source_file.as_str(), executable_file, true);
            CompileJob { source_file, command }
        },
        Languages::CppGxx => {
            let compiler = CppGxx {};
            let source_file = source_file_path(temp_dir, compiler.suffix());
            let command = compiler.compile(source_file.as_str(), executable_file, true);
            CompileJob { source_file, command }
        },
    }
}

/// The result of a compiler that exited with or without success.
pub fn compile_result(success: bool) -> (r: CompileResult)
    ensures
        r is Ok <==> success,
{
    if success {
        Ok(())
    } else {
        Err(())
    }
}

} // verus!
