//! The compiler front of the judge: which back end compiles a language and
//! where the source file goes.
use vstd::prelude::*;
use crate::compiler::{gcc_args, gcc_command, source_file_path, string_views, Command, Compiler as BackEnd};

verus! {

/// The compiler front.
pub struct Compiler;

/// Whether a source compiled.
#[derive(Debug, Clone, Copy, PartialEq, Eq, Structural)]
pub enum CompileResult {
    Pass,
    CE,
}

/// The gcc back end, for C99.
pub trait CGcc {
    fn suffix() -> (s: &'static str)
        ensures
            s@ == "c"@,
    {
        "c"
    }

    fn compile(source_file: &str, executable_file: &str) -> Command;
}

impl CGcc for Compiler {
    fn compile(source_file: &str, executable_file: &str) -> (c: Command)
        ensures
            c.program@ == "gcc"@,
            string_views(c.args@) == gcc_args(source_file@, executable_file@, "-O2"@, "--std=c99"@),
    {
        gcc_command("gcc", source_file, executable_file, "-O2", "--std=c99")
    }
}

/// A compilation to do: write the code to `source_file`, then run the
/// command.
pub struct CompileJob {
    pub source_file: String,
    pub command: Command,
}

impl Compiler {
    /// Whether a back end compiles `language`: `c.gcc` and `cpp.gxx`.
    pub fn supports(language: &str) -> (r: bool)
        ensures
            r == (language@ == "c.gcc"@ || language@ == "cpp.gxx"@),
    {
        crate::text::str_eq(language, "c.gcc") || crate::text::str_eq(language, "cpp.gxx")
    }

    /// How a source in `language` compiles into `executable_file`, its code
    /// written first to `main.<suffix>` in `temp_dir`: `c.gcc` with gcc,
    /// `cpp.gxx` with g++. No other language is supported.
    pub fn compile_job(language: &str, temp_dir: &str, executable_file: &str) -> (j: CompileJob)
        requires
            language@ == "c.gcc"@ || language@ == "cpp.gxx"@,
        ensures
            language@ == "c.gcc"@ ==> j.source_file@ == crate::text::join_path(temp_dir@, "main.c"@)
                && j.command.program@ == "gcc"@ && string_views(j.command.args@) == gcc_args(
                j.source_file@,
                executable_file@,
                "-O2"@,
                "--std=c99"@,
            ),
            language@ == "cpp.gxx"@ ==> j.source_file@ == crate::text::join_path(
                temp_dir@,
                "main.cpp"@,
            ) && j.command.program@ == "g++"@ && string_views(j.command.args@) == gcc_args(
                j.source_file@,
                executable_file@,
                "-O2"@,
                "--std=c++11"@,
            ),
    {
        if crate::text::str_eq(language, "c.gcc") {
            let source_file = source_file_path(temp_dir, <Compiler as CGcc>::suffix());
            proof {
                reveal_strlit("main.");
                reveal_strlit("c");
                reveal_strlit("main.c");
                reveal_strlit("c.gcc");
                reveal_strlit("cpp.gxx");
                assert("main."@ + "c"@ =~= "main.c"@);
                assert("c.gcc"@.len() != "cpp.gxx"@.len());
                assert(language@ != "cpp.gxx"@);
            }
            let command = <Compiler as CGcc>::compile(source_file.as_str(), executable_file);
            CompileJob { source_file, command }
        } else {
            let back_end = crate::compiler::CppGxx::new();
            let source_file = source_file_path(temp_dir, back_end.suffix());
            proof {
                reveal_strlit("main.");
                reveal_strlit("cpp");
                reveal_strlit("main.cpp");
                assert("main."@ + "cpp"@ =~= "main.cpp"@);
            }
            let command = back_end.command(source_file.as_str(), executable_file);
            CompileJob { source_file, command }
        }
    }

    /// The result of a compiler that exited with or without success.
    pub fn result(success: bool) -> (r: CompileResult)
        ensures
            r == (if success {
                CompileResult::Pass
            } else {
                CompileResult::CE
            }),
    {
        if success {
            CompileResult::Pass
        } else {
            CompileResult::CE
        }
    }
}

} // verus!
