//! Building a source with its build script.
use vstd::prelude::*;
use crate::language::Language;
use crate::text::{join_path, join_path_str};

verus! {

/// Builds the source of a build directory with a build script.
pub struct Builder {
    build_dir: String,
    script: String,
    source_file: String,
    executable_file: String,
    target_dir: String,
    timeout: Option<u128>,
}

/// What a build gave.
pub struct BuilderOutput {
    pub success: bool,
    pub stdout: Vec<u8>,
    pub stderr: Vec<u8>,
}

/// The command that runs a build: the program, its arguments, the
/// variables of its environment, and the directory it runs in; whether the
/// environment it inherits is cleared first, so that these are its only
/// variables, and whether its standard input is empty.
pub struct BuildCommand {
    pub program: String,
    pub args: Vec<String>,
    pub env: Vec<(String, String)>,
    pub current_dir: String,
    pub clear_env: bool,
    pub null_stdin: bool,
}

impl BuildCommand {
    /// The command as plain values: program, arguments, environment,
    /// directory, and the two flags.
    pub open spec fn parts(&self) -> (
        Seq<char>,
        Seq<Seq<char>>,
        Seq<(Seq<char>, Seq<char>)>,
        Seq<char>,
        bool,
        bool,
    ) {
        (
            self.program@,
            self.args@.map_values(|a: String| a@),
            self.env@.map_values(|e: (String, String)| (e.0@, e.1@)),
            self.current_dir@,
            self.clear_env,
            self.null_stdin,
        )
    }
}

/// The build script of a language that was looked for: `None` where none
/// was looked for, `Some(None)` where it was not found.
pub open spec fn found_script(found: Option<Option<Language>>) -> Option<Option<Seq<char>>> {
    match found {
        Some(Some(l)) => Some(Some(join_path(l.path_view(), "build.sh"@))),
        Some(None) => Some(None),
        None => None,
    }
}

/// Which build script a build directory uses: the one its configuration
/// names, relative to the directory; else the one of the language it names;
/// else the one of the language of its source's extension; `None` where the
/// chosen way finds none.
pub open spec fn spec_choose_script(
    build_dir: Seq<char>,
    configured: Option<Seq<char>>,
    by_language: Option<Option<Seq<char>>>,
    by_extension: Option<Option<Seq<char>>>,
) -> Option<Seq<char>> {
    match configured {
        Some(s) => Some(join_path(build_dir, s)),
        None => match by_language {
            Some(found) => found,
            None => match by_extension {
                Some(found) => found,
                None => None,
            },
        },
    }
}

fn script_of(found: Option<Language>) -> (r: Option<String>)
    ensures
        match found {
            Some(l) => r matches Some(s) && s@ == join_path(l.path_view(), "build.sh"@),
            None => r is None,
        },
{
    match found {
        Some(l) => Some(l.build_script()),
        None => None,
    }
}

/// Chooses the build script. `by_language` is `None` where the
/// configuration names no language, else the language found for the name;
/// `by_extension` likewise for the extension of the source.
pub fn choose_script(
    build_dir: &str,
    configured: Option<&str>,
    by_language: Option<Option<Language>>,
    by_extension: Option<Option<Language>>,
) -> (r: Option<String>)
    ensures
        match r {
            Some(s) => spec_choose_script(
                build_dir@,
                match configured {
                    Some(c) => Some(c@),
                    None => None,
                },
                found_script(by_language),
                found_script(by_extension),
            ) == Some(s@),
            None => spec_choose_script(
                build_dir@,
                match configured {
                    Some(c) => Some(c@),
                    None => None,
                },
                found_script(by_language),
                found_script(by_extension),
            ) is None,
        },
        configured matches Some(c) ==> r matches Some(s) && s@ == join_path(build_dir@, c@),
        configured is None ==> (by_language matches Some(Some(l)) ==> r matches Some(s) && s@
            == join_path(l.path_view(), "build.sh"@)),
        configured is None && by_language == Some(None::<Language>) ==> r is None,
        configured is None && by_language is None ==> (by_extension matches Some(Some(l)) ==> r matches Some(
            s,
        ) && s@ == join_path(l.path_view(), "build.sh"@)),
        configured is None && by_language is None && !(by_extension matches Some(Some(_))) ==> r is None,
{
    match configured {
        Some(s) => Some(join_path_str(build_dir, s)),
        None => match by_language {
            Some(found) => script_of(found),
            None => match by_extension {
                Some(found) => script_of(found),
                None => None,
            },
        },
    }
}

/// Law: a script that the configuration names always wins, taken relative
/// to the build directory, whatever the lookups by language or extension
/// give; only without it does the language decide, and only without both
/// does the extension. A lookup that was made and found nothing gives no
/// script.
pub proof fn lemma_choose_script_precedence(
    build_dir: Seq<char>,
    configured: Option<Seq<char>>,
    by_language: Option<Option<Seq<char>>>,
    by_extension: Option<Option<Seq<char>>>,
)
    ensures
        ({
            let r = spec_choose_script(build_dir, configured, by_language, by_extension);
            &&& configured matches Some(c) ==> r == Some(join_path(build_dir, c))
            &&& configured is None ==> (by_language matches Some(found) ==> r == found)
            &&& configured is None && by_language is None ==> (by_extension matches Some(found) ==> r
                == found)
            &&& configured is None && by_language is None && by_extension is None ==> r is None
            &&& r matches Some(s) ==> (configured matches Some(c) && s == join_path(build_dir, c))
                || by_language == Some(Some(s)) || by_extension == Some(Some(s))
        }),
{
}

pub open spec fn path_env() -> Seq<char> {
    "/usr/local/sbin:/usr/local/bin:/usr/bin:/bin"@
}

impl Builder {
    pub closed spec fn build_dir_view(&self) -> Seq<char> {
        self.build_dir@
    }

    pub closed spec fn script_view(&self) -> Seq<char> {
        self.script@
    }

    pub closed spec fn source_view(&self) -> Seq<char> {
        self.source_file@
    }

    pub closed spec fn executable_view(&self) -> Seq<char> {
        self.executable_file@
    }

    pub closed spec fn target_view(&self) -> Seq<char> {
        self.target_dir@
    }

    pub closed spec fn timeout_view(&self) -> Option<u128> {
        self.timeout
    }

    /// Assembles a builder from the parts of a build directory: the
    /// directory, the build script that [`choose_script`] chose for it, its
    /// source, the executable and target directory to build into, and the
    /// timeout in nanoseconds, if any. Finding the script on disk and
    /// copying it into the directory are left to the caller.
    pub fn new(
        build_dir: String,
        script: String,
        source_file: String,
        executable_file: String,
        target_dir: String,
        timeout: Option<u128>,
    ) -> (b: Builder)
        ensures
            b.build_dir_view() == build_dir@,
            b.script_view() == script@,
            b.source_view() == source_file@,
            b.executable_view() == executable_file@,
            b.target_view() == target_dir@,
            b.timeout_view() == timeout,
    {
        Builder { build_dir, script, source_file, executable_file, target_dir, timeout }
    }

    pub fn script(&self) -> (s: &str)
        ensures
            s@ == self.script_view(),
    {
        self.script.as_str()
    }

    pub fn target_dir(&self) -> (s: &str)
        ensures
            s@ == self.target_view(),
    {
        self.target_dir.as_str()
    }

    pub fn timeout(&self) -> (t: Option<u128>)
        ensures
            t == self.timeout_view(),
    {
        self.timeout
    }

    /// The command that builds with this builder, as plain values.
    pub open spec fn command_spec(&self) -> (
        Seq<char>,
        Seq<Seq<char>>,
        Seq<(Seq<char>, Seq<char>)>,
        Seq<char>,
        bool,
        bool,
    ) {
        (
            "/bin/sh"@,
            seq!["-c"@, self.script_view()],
            seq![
                ("PATH"@, path_env()),
                ("SOURCE_FILE"@, self.source_view()),
                ("EXECUTABLE_FILE"@, self.executable_view()),
                ("TARGET_DIR"@, self.target_view()),
            ],
            self.build_dir_view(),
            true,
            true,
        )
    }

    /// The command of the build: the script run by `/bin/sh -c` in the
    /// build directory, with nothing in its environment but `PATH` and the
    /// paths of the source, the executable and the target directory.
    pub fn build_command(&self) -> (c: BuildCommand)
        ensures
            c.program@ == "/bin/sh"@,
            c.args@.len() == 2,
            c.args@[0]@ == "-c"@,
            c.args@[1]@ == self.script_view(),
            c.env@.len() == 4,
            c.env@[0].0@ == "PATH"@ && c.env@[0].1@ == path_env(),
            c.env@[1].0@ == "SOURCE_FILE"@ && c.env@[1].1@ == self.source_view(),
            c.env@[2].0@ == "EXECUTABLE_FILE"@ && c.env@[2].1@ == self.executable_view(),
            c.env@[3].0@ == "TARGET_DIR"@ && c.env@[3].1@ == self.target_view(),
            c.current_dir@ == self.build_dir_view(),
            c.clear_env,
            c.null_stdin,
            c.parts() == self.command_spec(),
    {
        let mut args: Vec<String> = Vec::new();
        args.push(String::from_str("-c"));
        args.push(self.script.clone());
        let mut env: Vec<(String, String)> = Vec::new();
        env.push(
            (
                String::from_str("PATH"),
                String::from_str("/usr/local/sbin:/usr/local/bin:/usr/bin:/bin"),
            ),
        );
        env.push((String::from_str("SOURCE_FILE"), self.source_file.clone()));
        env.push((String::from_str("EXECUTABLE_FILE"), self.executable_file.clone()));
        env.push((String::from_str("TARGET_DIR"), self.target_dir.clone()));
        let c = BuildCommand {
            program: String::from_str("/bin/sh"),
            args,
            env,
            current_dir: self.build_dir.clone(),
            clear_env: true,
            null_stdin: true,
        };
        assert(c.parts().1 =~= self.command_spec().1);
        assert(c.parts().2 =~= self.command_spec().2);
        c
    }
}

/// Law: a build runs the same command whenever the builder has the same
/// directory, script, source, executable and target directory, whatever
/// the environment of the process that starts it, since that environment
/// is cleared and the input is empty.
pub proof fn lemma_build_command_fixed_by_builder(b1: Builder, b2: Builder)
    requires
        b1.build_dir_view() == b2.build_dir_view(),
        b1.script_view() == b2.script_view(),
        b1.source_view() == b2.source_view(),
        b1.executable_view() == b2.executable_view(),
        b1.target_view() == b2.target_view(),
    ensures
        b1.command_spec() == b2.command_spec(),
        b1.command_spec().4 && b1.command_spec().5,
{
}

} // verus!
