//! Compiling C and C++ sources with gcc and g++: the command lines, and the
//! waiting for the compiler to finish.
use vstd::prelude::*;
use crate::text::join_path_str;

verus! {

/// A command to run: a program and its arguments.
#[derive(Debug)]
pub struct Command {
    pub program: String,
    pub args: Vec<String>,
}

/// The arguments given to gcc or g++: the source, the output, the
/// optimisation flag and the language standard among fixed flags.
pub open spec fn gcc_args(source: Seq<char>, exe: Seq<char>, opt: Seq<char>, std: Seq<char>) -> Seq<
    Seq<char>,
> {
    seq![source, "-o"@, exe, opt, "-fno-asm"@, "-Wall"@, "-lm"@, "--static"@, std]
}

pub open spec fn string_views(v: Seq<String>) -> Seq<Seq<char>> {
    v.map_values(|s: String| s@)
}

/// The command that compiles `source` into `exe` with `program`.
pub fn gcc_command(program: &str, source: &str, exe: &str, opt: &str, std: &str) -> (c: Command)
    ensures
        c.program@ == program@,
        string_views(c.args@) == gcc_args(source@, exe@, opt@, std@),
{
    let mut args: Vec<String> = Vec::new();
    args.push(String::from_str(source));
    args.push(String::from_str("-o"));
    args.push(String::from_str(exe));
    args.push(String::from_str(opt));
    args.push(String::from_str("-fno-asm"));
    args.push(String::from_str("-Wall"));
    args.push(String::from_str("-lm"));
    args.push(String::from_str("--static"));
    args.push(String::from_str(std));
    assert(string_views(args@) =~= gcc_args(source@, exe@, opt@, std@));
    Command { program: String::from_str(program), args }
}

/// A compiler back end: the suffix its sources take and the command that
/// compiles one.
pub trait Compiler {
    fn suffix(&self) -> &'static str;

    fn command(&self, source_file: &str, executable_file: &str) -> Command;
}

/// gcc, for C99.
pub struct CGcc;

/// g++, for C++11.
pub struct CppGxx;

impl CGcc {
    pub fn new() -> CGcc {
        CGcc
    }
}

impl CppGxx {
    pub fn new() -> CppGxx {
        CppGxx
    }
}

impl Compiler for CGcc {
    fn suffix(&self) -> (s: &'static str)
        ensures
            s@ == "c"@,
    {
        "c"
    }

    fn command(&self, source_file: &str, executable_file: &str) -> (c: Command)
        ensures
            c.program@ == "gcc"@,
            string_views(c.args@) == gcc_args(source_file@, executable_file@, "-O2"@, "--std=c99"@),
    {
        gcc_command("gcc", source_file, executable_file, "-O2", "--std=c99")
    }
}

impl Compiler for CppGxx {
    fn suffix(&self) -> (s: &'static str)
        ensures
            s@ == "cpp"@,
    {
        "cpp"
    }

    fn command(&self, source_file: &str, executable_file: &str) -> (c: Command)
        ensures
            c.program@ == "g++"@,
            string_views(c.args@) == gcc_args(
                source_file@,
                executable_file@,
                "-O2"@,
                "--std=c++11"@,
            ),
    {
        gcc_command("g++", source_file, executable_file, "-O2", "--std=c++11")
    }
}

/// The languages that can be compiled: `c.gcc` and `cpp.gxx`.
pub open spec fn spec_language_compiler(language: Seq<char>) -> Option<bool> {
    if language == "c.gcc"@ {
        Some(true)
    } else if language == "cpp.gxx"@ {
        Some(false)
    } else {
        None
    }
}

/// Whether `language` has a compiler.
pub fn has_compiler(language: &str) -> (r: bool)
    ensures
        r == spec_language_compiler(language@) is Some,
{
    crate::text::str_eq(language, "c.gcc") || crate::text::str_eq(language, "cpp.gxx")
}

/// The command that compiles `source_file` in `language` into
/// `executable_file`. The language must have a compiler.
pub fn compile(language: &str, source_file: &str, executable_file: &str) -> (c: Command)
    requires
        spec_language_compiler(language@) is Some,
    ensures
        spec_language_compiler(language@) == Some(true) ==> c.program@ == "gcc"@ && string_views(
            c.args@,
        ) == gcc_args(source_file@, executable_file@, "-O2"@, "--std=c99"@),
        spec_language_compiler(language@) == Some(false) ==> c.program@ == "g++"@ && string_views(
            c.args@,
        ) == gcc_args(source_file@, executable_file@, "-O2"@, "--std=c++11"@),
{
    if crate::text::str_eq(language, "c.gcc") {
        CGcc::new().command(source_file, executable_file)
    } else {
        CppGxx::new().command(source_file, executable_file)
    }
}

/// What to do while waiting for a compiler.
#[derive(Debug, Clone, Copy, PartialEq, Eq, Structural)]
pub enum WaitStep {
    /// The compiler exited; whether it succeeded.
    Done(bool),
    /// Look again after this many milliseconds.
    Sleep(u64),
    /// Ten seconds have passed: the compilation failed.
    GiveUp,
}

pub open spec fn spec_wait_step(elapsed_ms: u128, exited: Option<bool>) -> WaitStep {
    if elapsed_ms >= 10_000 {
        WaitStep::GiveUp
    } else {
        match exited {
            Some(success) => WaitStep::Done(success),
            None => WaitStep::Sleep(500),
        }
    }
}

/// One look at a running compiler, `elapsed_ms` milliseconds after it
/// started: give up after ten seconds, else take its exit status if it
/// exited, else sleep half a second.
pub fn wait_step(elapsed_ms: u128, exited: Option<bool>) -> (s: WaitStep)
    ensures
        s == spec_wait_step(elapsed_ms, exited),
        elapsed_ms >= 10_000 ==> s == WaitStep::GiveUp,
        elapsed_ms < 10_000 ==> (exited matches Some(b) ==> s == WaitStep::Done(b)),
        elapsed_ms < 10_000 && exited is None ==> s == WaitStep::Sleep(500),
{
    if elapsed_ms >= 10_000 {
        WaitStep::GiveUp
    } else {
        match exited {
            Some(success) => WaitStep::Done(success),
            None => WaitStep::Sleep(500),
        }
    }
}

/// Law: within ten seconds, a compiler that exited is done with exactly
/// its own success, and one still running is looked at again after half a
/// second; from ten seconds on the wait is given up, whatever the compiler
/// did. So a compilation is reported successful only when the compiler
/// exited with success in time.
pub proof fn lemma_wait_step_follows_exit(elapsed_ms: u128, exited: Option<bool>)
    ensures
        elapsed_ms >= 10_000 ==> spec_wait_step(elapsed_ms, exited) == WaitStep::GiveUp,
        elapsed_ms < 10_000 ==> (exited matches Some(b) ==> spec_wait_step(elapsed_ms, exited)
            == WaitStep::Done(b)),
        elapsed_ms < 10_000 && exited is None ==> spec_wait_step(elapsed_ms, exited)
            == WaitStep::Sleep(500),
        spec_wait_step(elapsed_ms, exited) == WaitStep::Done(true) <==> elapsed_ms < 10_000
            && exited == Some(true),
{
}

/// The source file that a compiler of `suffix` reads: `main.<suffix>` in
/// the directory `dir`.
pub fn source_file_path(dir: &str, suffix: &str) -> (p: String)
    ensures
        p@ == crate::text::join_path(dir@, "main."@ + suffix@),
{
    let mut name = String::from_str("main.");
    name.append(suffix);
    join_path_str(dir, name.as_str())
}

} // verus!
