//! The judging of one submission: build it, run it on every test case,
//! check each output, and report a verdict per case.
//!
//! The work itself (building, running, comparing files, sending reports)
//! is done by the caller; [`JudgeSession`] decides, from what each step
//! gave, the report to send and the step to take next.
use vstd::prelude::*;
use vstd::utf8::{decode_utf8, valid_utf8};
use crate::checker::CheckCommand;

verus! {

/// The verdict on one test case, or on the submission as a whole.
#[derive(Debug, Clone, Copy, PartialEq, Eq, Structural)]
pub enum ResultType {
    Accepted,
    WrongAnswer,
    TimeLimitExceeded,
    MemoryLimitExceeded,
    RuntimeError,
    CompileError,
    SystemError,
}

/// Time in nanoseconds and memory in bytes, used or allowed.
#[derive(Debug, Clone, Copy, PartialEq, Eq, Structural)]
pub struct Resource {
    pub real_time: u128,
    pub cpu_time: u128,
    pub memory: usize,
}

/// One report sent for a submission.
#[derive(Debug)]
pub struct Report {
    pub result: ResultType,
    pub usage: Option<Resource>,
    pub message: String,
}

/// The kind of problem being judged.
#[derive(Debug, Clone, Copy, PartialEq, Eq, Structural)]
pub enum ProblemType {
    Normal,
    SpecialJudge,
    Interactive,
}

/// The verdict that the resources used and the exit status decide alone,
/// before any output is checked: memory first, then time, then the exit.
pub open spec fn spec_limit_verdict(usage: Resource, limit: Resource, exit_success: bool) -> Option<
    ResultType,
> {
    if usage.memory >= limit.memory {
        Some(ResultType::MemoryLimitExceeded)
    } else if usage.real_time > limit.real_time || usage.cpu_time > limit.cpu_time {
        Some(ResultType::TimeLimitExceeded)
    } else if !exit_success {
        Some(ResultType::RuntimeError)
    } else {
        None
    }
}

/// The verdict that the resources used and the exit status decide alone;
/// `None` when the output has to be checked.
pub fn limit_verdict(usage: &Resource, limit: &Resource, exit_success: bool) -> (r: Option<
    ResultType,
>)
    ensures
        r == spec_limit_verdict(*usage, *limit, exit_success),
        usage.memory >= limit.memory ==> r == Some(ResultType::MemoryLimitExceeded),
        usage.memory < limit.memory && (usage.real_time > limit.real_time || usage.cpu_time
            > limit.cpu_time) ==> r == Some(ResultType::TimeLimitExceeded),
        r == Some(ResultType::RuntimeError) <==> usage.memory < limit.memory && usage.real_time
            <= limit.real_time && usage.cpu_time <= limit.cpu_time && !exit_success,
        r is None <==> usage.memory < limit.memory && usage.real_time <= limit.real_time
            && usage.cpu_time <= limit.cpu_time && exit_success,
{
    if usage.memory >= limit.memory {
        Some(ResultType::MemoryLimitExceeded)
    } else if usage.real_time > limit.real_time || usage.cpu_time > limit.cpu_time {
        Some(ResultType::TimeLimitExceeded)
    } else if !exit_success {
        Some(ResultType::RuntimeError)
    } else {
        None
    }
}

/// Law: reaching the memory limit gives a memory verdict, and exceeding
/// either time limit within memory gives a time verdict, whatever the exit
/// status; a runtime error is given only to a run that failed within every
/// limit, and the output is left to be checked only for a run that
/// succeeded within them. No other verdict comes from the limits.
pub proof fn lemma_limit_verdict_by_limits(usage: Resource, limit: Resource, exit_success: bool)
    ensures
        ({
            let v = spec_limit_verdict(usage, limit, exit_success);
            let within = usage.memory < limit.memory && usage.real_time <= limit.real_time
                && usage.cpu_time <= limit.cpu_time;
            &&& usage.memory >= limit.memory ==> v == Some(ResultType::MemoryLimitExceeded)
            &&& usage.memory < limit.memory && (usage.real_time > limit.real_time || usage.cpu_time
                > limit.cpu_time) ==> v == Some(ResultType::TimeLimitExceeded)
            &&& v == Some(ResultType::RuntimeError) <==> within && !exit_success
            &&& v is None <==> within && exit_success
            &&& v is Some ==> (v->0 == ResultType::MemoryLimitExceeded || v->0
                == ResultType::TimeLimitExceeded || v->0 == ResultType::RuntimeError)
        }),
{
}

/// The text of bytes once every invalid UTF-8 sequence is replaced.
pub uninterp spec fn utf8_lossy(bytes: Seq<u8>) -> Seq<char>;

/// `String::from_utf8_lossy`, made owned: the text of the bytes with each
/// invalid sequence replaced by U+FFFD; valid UTF-8 decodes unchanged.
#[verifier::external_body]
fn lossy_string(bytes: &[u8]) -> (s: String)
    ensures
        s@ == utf8_lossy(bytes@),
        valid_utf8(bytes@) ==> s@ == decode_utf8(bytes@),
{
    String::from_utf8_lossy(bytes).into_owned()
}

/// `String::from_utf8`: the text the bytes encode, when they are valid
/// UTF-8.
#[verifier::external_body]
fn string_from_utf8(bytes: Vec<u8>) -> (r: Option<String>)
    ensures
        r is Some <==> valid_utf8(bytes@),
        r matches Some(s) ==> s@ == decode_utf8(bytes@),
{
    String::from_utf8(bytes).ok()
}

/// What the caller is to do next.
#[derive(Debug, Clone, Copy, PartialEq, Eq, Structural)]
pub enum NextStep {
    /// Build the special judge of the problem.
    BuildSpecialJudge,
    /// Run the program on the test case of this index.
    RunCase(usize),
    /// Compare the output of the case with its answer, with these options.
    CompareOutput { case: usize, ignore_white_space_at_eol: bool, ignore_empty_line_at_eof: bool },
    /// Run the special judge on the case, as [`special_judge_command`]
    /// says; it accepts the output when it exits with success.
    RunSpecialJudge(usize),
    /// Judging is over.
    Finish,
}

/// The command that runs the built special judge `spj` on a case: it is
/// given the case's input, the program's output and the case's answer, in
/// this order.
pub fn special_judge_command(spj: &str, case_input: &str, program_output: &str, case_answer: &str)
    -> (c: CheckCommand)
    ensures
        c.program@ == spj@,
        c.args@.len() == 3,
        c.args@[0]@ == case_input@,
        c.args@[1]@ == program_output@,
        c.args@[2]@ == case_answer@,
{
    let mut args: Vec<String> = Vec::new();
    args.push(String::from_str(case_input));
    args.push(String::from_str(program_output));
    args.push(String::from_str(case_answer));
    CheckCommand { program: String::from_str(spj), args }
}

/// What the caller reports back.
pub enum JudgeEvent {
    /// No build script could be found for the language of the source.
    LanguageUnsupported,
    /// The source was built; its standard error is given.
    BuildFinished { success: bool, stderr: Vec<u8> },
    /// The special judge has no build script.
    SpecialJudgeMissing,
    /// The special judge was built.
    SpecialJudgeBuilt { success: bool },
    /// The program ran on the current case. `stderr_buffer` is the buffer
    /// (of 1024 bytes, zeroed first) into which the start of its standard
    /// error was read, where the error was captured.
    CaseFinished { usage: Resource, exit_success: bool, stderr_buffer: Option<Vec<u8>> },
    /// The output of the current case was checked.
    Checked { accepted: bool },
}

/// Where a session stands.
#[derive(Debug, Clone, Copy, PartialEq, Eq, Structural)]
pub enum Stage {
    AwaitBuild,
    AwaitSpecialJudgeBuild,
    AwaitRun(usize),
    AwaitCheck(usize, Resource),
    Finished,
}

/// The settings a problem gives the judging of its cases.
#[derive(Debug, Clone, Copy)]
pub struct JudgeConfig {
    pub problem_type: ProblemType,
    pub case_count: usize,
    pub limit: Resource,
    pub ignore_white_space_at_eol: Option<bool>,
    pub ignore_empty_line_at_eof: Option<bool>,
}

/// The judging of one submission, as a machine driven by events.
pub struct JudgeSession {
    config: JudgeConfig,
    stage: Stage,
    cases_reported: usize,
}

/// What one event leads to: at most one report, and the next step.
pub struct JudgeAction {
    pub report: Option<Report>,
    pub next: NextStep,
}

pub open spec fn spec_unwrap_or_true(b: Option<bool>) -> bool {
    match b {
        Some(v) => v,
        None => true,
    }
}

/// The step that follows the report of case `i`.
pub open spec fn after_case(i: int, case_count: int) -> NextStep {
    if i + 1 < case_count {
        NextStep::RunCase((i + 1) as usize)
    } else {
        NextStep::Finish
    }
}

/// The stage that follows the report of case `i`.
pub open spec fn stage_after_case(i: int, case_count: int) -> Stage {
    if i + 1 < case_count {
        Stage::AwaitRun((i + 1) as usize)
    } else {
        Stage::Finished
    }
}

/// The step, and the stage, that begin the running of the cases.
pub open spec fn first_run(case_count: int) -> (NextStep, Stage) {
    if case_count > 0 {
        (NextStep::RunCase(0), Stage::AwaitRun(0))
    } else {
        (NextStep::Finish, Stage::Finished)
    }
}

impl JudgeSession {
    pub closed spec fn wf(&self) -> bool {
        match self.stage {
            Stage::AwaitBuild => self.cases_reported == 0,
            Stage::AwaitSpecialJudgeBuild => self.config.problem_type == ProblemType::SpecialJudge
                && self.cases_reported == 0,
            Stage::AwaitRun(i) => i < self.config.case_count && self.cases_reported == i,
            Stage::AwaitCheck(i, _) => i < self.config.case_count && self.cases_reported == i,
            Stage::Finished => self.cases_reported <= self.config.case_count,
        }
    }

    /// Whether the event can be taken: it answers the step asked for, and
    /// it is not the successful build of an interactive problem, whose
    /// judging is not supported.
    pub open spec fn can_take(&self, event: &JudgeEvent) -> bool {
        &&& self.accepts(event)
        &&& !(self.config().problem_type == ProblemType::Interactive && (
        event matches JudgeEvent::BuildFinished { success, .. } && *success))
    }

    pub closed spec fn stage(&self) -> Stage {
        self.stage
    }

    pub closed spec fn config(&self) -> JudgeConfig {
        self.config
    }

    /// How many case reports have been sent.
    pub closed spec fn cases_reported(&self) -> nat {
        self.cases_reported as nat
    }

    /// Whether the event answers the step the session asked for.
    pub open spec fn accepts(&self, event: &JudgeEvent) -> bool {
        match self.stage() {
            Stage::AwaitBuild => event is LanguageUnsupported || event is BuildFinished,
            Stage::AwaitSpecialJudgeBuild => event is SpecialJudgeMissing || event is SpecialJudgeBuilt,
            Stage::AwaitRun(_) => event is CaseFinished,
            Stage::AwaitCheck(_, _) => event is Checked,
            Stage::Finished => false,
        }
    }

    /// A session whose first step is to build the source.
    pub fn new(config: JudgeConfig) -> (s: JudgeSession)
        ensures
            s.wf(),
            s.stage() == Stage::AwaitBuild,
            s.config() == config,
            s.cases_reported() == 0,
    {
        JudgeSession { config, stage: Stage::AwaitBuild, cases_reported: 0 }
    }

    /// Whether judging is over.
    pub fn is_finished(&self) -> (r: bool)
        ensures
            r == (self.stage() == Stage::Finished),
    {
        match self.stage {
            Stage::Finished => true,
            _ => false,
        }
    }

    /// Whether the event can be taken now.
    pub fn can_take_event(&self, event: &JudgeEvent) -> (r: bool)
        ensures
            r == self.can_take(event),
    {
        if !self.accepts_event(event) {
            return false;
        }
        match (self.config.problem_type, event) {
            (ProblemType::Interactive, JudgeEvent::BuildFinished { success, .. }) => !*success,
            _ => true,
        }
    }

    /// Whether the event answers the step the session asked for.
    pub fn accepts_event(&self, event: &JudgeEvent) -> (r: bool)
        ensures
            r == self.accepts(event),
    {
        match self.stage {
            Stage::AwaitBuild => match event {
                JudgeEvent::LanguageUnsupported => true,
                JudgeEvent::BuildFinished { .. } => true,
                _ => false,
            },
            Stage::AwaitSpecialJudgeBuild => match event {
                JudgeEvent::SpecialJudgeMissing => true,
                JudgeEvent::SpecialJudgeBuilt { .. } => true,
                _ => false,
            },
            Stage::AwaitRun(_) => match event {
                JudgeEvent::CaseFinished { .. } => true,
                _ => false,
            },
            Stage::AwaitCheck(_, _) => match event {
                JudgeEvent::Checked { .. } => true,
                _ => false,
            },
            Stage::Finished => false,
        }
    }

    /// Takes what the last step gave and decides the report to send, if
    /// any, and the next step.
    ///
    /// A source that cannot be built for want of a build script, or a
    /// special judge that is missing or does not build, ends judging with
    /// a system error; a build that fails ends it with a compile error whose
    /// message is the build's standard error (or a note that it is not
    /// UTF-8). Each case is decided by memory, then time, then exit status,
    /// and only then by checking its output; the message of a runtime error
    /// on a normal problem is the standard error buffer, read lossily.
    pub fn on_event(&mut self, event: JudgeEvent) -> (a: JudgeAction)
        requires
            old(self).wf(),
            old(self).can_take(&event),
        ensures
            final(self).wf(),
            final(self).config() == old(self).config(),
            final(self).stage() == Stage::Finished <==> a.next == NextStep::Finish,
            final(self).cases_reported() == old(self).cases_reported() + (if a.report is Some
                && a.report->0.usage is Some {
                1int
            } else {
                0int
            }),
            final(self).stage() == Stage::Finished && a.report is Some && a.report->0.usage is Some
                ==> final(self).cases_reported() == old(self).config().case_count,
            match event {
                JudgeEvent::LanguageUnsupported => a.report matches Some(r) && r.result
                    == ResultType::SystemError && r.usage is None && r.message@
                    == "The language of the source code is not supported"@ && a.next
                    == NextStep::Finish,
                JudgeEvent::BuildFinished { success, stderr } => if !success {
                    a.report matches Some(r) && r.result == ResultType::CompileError && r.usage is None
                        && r.message@ == (if valid_utf8(stderr@) {
                        decode_utf8(stderr@)
                    } else {
                        "Stderr of building process is not an valid utf8 string"@
                    }) && a.next == NextStep::Finish
                } else if old(self).config().problem_type == ProblemType::Normal {
                    a.report is None && (a.next, final(self).stage()) == first_run(
                        old(self).config().case_count as int,
                    )
                } else {
                    a.report is None && a.next == NextStep::BuildSpecialJudge && final(self).stage()
                        == Stage::AwaitSpecialJudgeBuild
                },
                JudgeEvent::SpecialJudgeMissing => a.report matches Some(r) && r.result
                    == ResultType::SystemError && r.usage is None && r.message@
                    == "The special judge of the problem is missing."@ && a.next == NextStep::Finish,
                JudgeEvent::SpecialJudgeBuilt { success } => if !success {
                    a.report matches Some(r) && r.result == ResultType::SystemError && r.usage is None
                        && r.message@ == "Failed to build the special judge of the problem."@
                        && a.next == NextStep::Finish
                } else {
                    a.report is None && (a.next, final(self).stage()) == first_run(
                        old(self).config().case_count as int,
                    )
                },
                JudgeEvent::CaseFinished { usage, exit_success, stderr_buffer } => {
                    let i = old(self).stage()->AwaitRun_0;
                    let limit = old(self).config().limit;
                    match spec_limit_verdict(usage, limit, exit_success) {
                        Some(v) => a.report matches Some(r) && r.result == v && r.usage == Some(usage)
                            && r.message@ == (if v == ResultType::RuntimeError
                            && old(self).config().problem_type == ProblemType::Normal
                            && stderr_buffer is Some {
                            utf8_lossy(stderr_buffer->0@)
                        } else {
                            Seq::<char>::empty()
                        }) && a.next == after_case(i as int, limit_cases(old(self).config()))
                            && final(self).stage() == stage_after_case(
                            i as int,
                            limit_cases(old(self).config()),
                        ),
                        None => a.report is None && final(self).stage() == Stage::AwaitCheck(i, usage)
                            && a.next == (if old(self).config().problem_type == ProblemType::Normal {
                            NextStep::CompareOutput {
                                case: i,
                                ignore_white_space_at_eol: spec_unwrap_or_true(
                                    old(self).config().ignore_white_space_at_eol,
                                ),
                                ignore_empty_line_at_eof: spec_unwrap_or_true(
                                    old(self).config().ignore_empty_line_at_eof,
                                ),
                            }
                        } else {
                            NextStep::RunSpecialJudge(i)
                        }),
                    }
                },
                JudgeEvent::Checked { accepted } => {
                    let i = old(self).stage()->AwaitCheck_0;
                    let usage = old(self).stage()->AwaitCheck_1;
                    a.report matches Some(r) && r.result == (if accepted {
                        ResultType::Accepted
                    } else {
                        ResultType::WrongAnswer
                    }) && r.usage == Some(usage) && r.message@ == Seq::<char>::empty() && a.next
                        == after_case(i as int, limit_cases(old(self).config()))
                        && final(self).stage() == stage_after_case(
                        i as int,
                        limit_cases(old(self).config()),
                    )
                },
            },
    {
        let count = self.config.case_count;
        match event {
            JudgeEvent::LanguageUnsupported => {
                self.stage = Stage::Finished;
                let msg = "The language of the source code is not supported";
                JudgeAction {
                    report: Some(
                        Report {
                            result: ResultType::SystemError,
                            usage: None,
                            message: String::from_str(msg),
                        },
                    ),
                    next: NextStep::Finish,
                }
            },
            JudgeEvent::BuildFinished { success, stderr } => {
                if !success {
                    self.stage = Stage::Finished;
                    let message = match string_from_utf8(stderr) {
                        Some(s) => s,
                        None => String::from_str(
                            "Stderr of building process is not an valid utf8 string",
                        ),
                    };
                    JudgeAction {
                        report: Some(
                            Report { result: ResultType::CompileError, usage: None, message },
                        ),
                        next: NextStep::Finish,
                    }
                } else {
                    match self.config.problem_type {
                        ProblemType::Normal => self.start_cases(),
                        _ => {
                            self.stage = Stage::AwaitSpecialJudgeBuild;
                            JudgeAction { report: None, next: NextStep::BuildSpecialJudge }
                        },
                    }
                }
            },
            JudgeEvent::SpecialJudgeMissing => {
                self.stage = Stage::Finished;
                JudgeAction {
                    report: Some(
                        Report {
                            result: ResultType::SystemError,
                            usage: None,
                            message: String::from_str(
                                "The special judge of the problem is missing.",
                            ),
                        },
                    ),
                    next: NextStep::Finish,
                }
            },
            JudgeEvent::SpecialJudgeBuilt { success } => {
                if !success {
                    self.stage = Stage::Finished;
                    JudgeAction {
                        report: Some(
                            Report {
                                result: ResultType::SystemError,
                                usage: None,
                                message: String::from_str(
                                    "Failed to build the special judge of the problem.",
                                ),
                            },
                        ),
                        next: NextStep::Finish,
                    }
                } else {
                    self.start_cases()
                }
            },
            JudgeEvent::CaseFinished { usage, exit_success, stderr_buffer } => {
                let i = match self.stage {
                    Stage::AwaitRun(i) => i,
                    _ => 0,
                };
                match limit_verdict(&usage, &self.config.limit, exit_success) {
                    Some(v) => {
                        let message = match (v, self.config.problem_type, stderr_buffer) {
                            (ResultType::RuntimeError, ProblemType::Normal, Some(buf)) => lossy_string(
                                buf.as_slice(),
                            ),
                            _ => String::new(),
                        };
                        self.finish_case(i, Report { result: v, usage: Some(usage), message })
                    },
                    None => {
                        self.stage = Stage::AwaitCheck(i, usage);
                        let next = match self.config.problem_type {
                            ProblemType::Normal => NextStep::CompareOutput {
                                case: i,
                                ignore_white_space_at_eol: unwrap_or_true(
                                    self.config.ignore_white_space_at_eol,
                                ),
                                ignore_empty_line_at_eof: unwrap_or_true(
                                    self.config.ignore_empty_line_at_eof,
                                ),
                            },
                            _ => NextStep::RunSpecialJudge(i),
                        };
                        JudgeAction { report: None, next }
                    },
                }
            },
            JudgeEvent::Checked { accepted } => {
                let (i, usage) = match self.stage {
                    Stage::AwaitCheck(i, u) => (i, u),
                    _ => (0, Resource { real_time: 0, cpu_time: 0, memory: 0 }),
                };
                let result = if accepted {
                    ResultType::Accepted
                } else {
                    ResultType::WrongAnswer
                };
                self.finish_case(i, Report { result, usage: Some(usage), message: String::new() })
            },
        }
    }

    fn start_cases(&mut self) -> (a: JudgeAction)
        requires
            old(self).wf(),
            old(self).stage() == Stage::AwaitBuild || old(self).stage()
                == Stage::AwaitSpecialJudgeBuild,
        ensures
            final(self).wf(),
            final(self).config() == old(self).config(),
            final(self).cases_reported() == old(self).cases_reported(),
            a.report is None,
            (a.next, final(self).stage()) == first_run(old(self).config().case_count as int),
    {
        if self.config.case_count > 0 {
            self.stage = Stage::AwaitRun(0);
            JudgeAction { report: None, next: NextStep::RunCase(0) }
        } else {
            self.stage = Stage::Finished;
            JudgeAction { report: None, next: NextStep::Finish }
        }
    }

    fn finish_case(&mut self, i: usize, report: Report) -> (a: JudgeAction)
        requires
            old(self).wf(),
            (old(self).stage() matches Stage::AwaitRun(j) && j == i) || (old(self).stage() matches Stage::AwaitCheck(j, _) && j == i),
            report.usage is Some,
        ensures
            final(self).wf(),
            final(self).config() == old(self).config(),
            final(self).cases_reported() == old(self).cases_reported() + 1,
            a.report == Some(report),
            a.next == after_case(i as int, old(self).config().case_count as int),
            final(self).stage() == stage_after_case(i as int, old(self).config().case_count as int),
    {
        self.cases_reported = i + 1;
        if i + 1 < self.config.case_count {
            self.stage = Stage::AwaitRun(i + 1);
            JudgeAction { report: Some(report), next: NextStep::RunCase(i + 1) }
        } else {
            self.stage = Stage::Finished;
            JudgeAction { report: Some(report), next: NextStep::Finish }
        }
    }
}

pub open spec fn limit_cases(config: JudgeConfig) -> int {
    config.case_count as int
}

fn unwrap_or_true(b: Option<bool>) -> (r: bool)
    ensures
        r == spec_unwrap_or_true(b),
{
    match b {
        Some(v) => v,
        None => true,
    }
}

} // verus!
