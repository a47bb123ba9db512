//! The messages between the judge and its server: tasks, problems and
//! reports.
use vstd::prelude::*;
use crate::launcher::LaunchResult;

verus! {

/// One test case: its input and the expected answer.
#[derive(Debug, Clone)]
pub struct TestCase {
    pub input: String,
    pub answer: String,
}

/// A source file: its language and its code.
#[derive(Debug, Clone)]
pub struct Source {
    pub language: String,
    pub code: String,
}

/// A problem, with its limits in nanoseconds and bytes and its test cases.
#[derive(Debug)]
pub enum Problem {
    Normal { time_limit: u64, memory_limit: u64, test_cases: Vec<TestCase> },
    Special { time_limit: u64, memory_limit: u64, test_cases: Vec<TestCase>, spj: Source },
}

/// A task for the judge: a source to judge on a problem.
#[derive(Debug)]
pub struct JudgeTask {
    pub id: String,
    pub source: Source,
    pub problem: Problem,
}

/// The test cases of a problem.
pub open spec fn problem_cases(p: &Problem) -> Seq<TestCase> {
    match p {
        Problem::Normal { test_cases, .. } => test_cases@,
        Problem::Special { test_cases, .. } => test_cases@,
    }
}

impl Problem {
    /// The number of test cases.
    pub fn len(&self) -> (n: usize)
        ensures
            n == problem_cases(self).len(),
    {
        match self {
            Problem::Normal { test_cases, .. } => test_cases.len(),
            Problem::Special { test_cases, .. } => test_cases.len(),
        }
    }

    /// Whether the problem has no test case.
    pub fn is_empty(&self) -> (r: bool)
        ensures
            r == (problem_cases(self).len() == 0),
    {
        self.len() == 0
    }
}

/// The verdict on one test case.
#[derive(Debug, Clone, Copy, PartialEq, Eq, Structural)]
pub enum JudgeResult {
    CE,
    AC,
    WA,
    TLE,
    MLE,
    OLE,
    RE,
}

/// The name of a verdict.
pub open spec fn result_text(r: JudgeResult) -> Seq<char> {
    match r {
        JudgeResult::AC => "AC"@,
        JudgeResult::CE => "CE"@,
        JudgeResult::MLE => "MLE"@,
        JudgeResult::OLE => "OLE"@,
        JudgeResult::RE => "RE"@,
        JudgeResult::TLE => "TLE"@,
        JudgeResult::WA => "WA"@,
    }
}

impl JudgeResult {
    /// The name of the verdict, as it is displayed and sent.
    pub fn as_str(&self) -> (s: &'static str)
        ensures
            s@ == result_text(*self),
    {
        match self {
            JudgeResult::AC => "AC",
            JudgeResult::CE => "CE",
            JudgeResult::MLE => "MLE",
            JudgeResult::OLE => "OLE",
            JudgeResult::RE => "RE",
            JudgeResult::TLE => "TLE",
            JudgeResult::WA => "WA",
        }
    }
}

/// The report on one test case of a task.
#[derive(Debug, Clone)]
pub struct JudgeReport {
    pub id: String,
    pub index: usize,
    pub status: String,
    /// Nanoseconds.
    pub time: u64,
    /// Bytes.
    pub memory: u64,
}

impl JudgeReport {
    pub fn new(id: &str, index: usize, status: JudgeResult, time: u64, memory: u64) -> (r: JudgeReport)
        ensures
            r.id@ == id@,
            r.index == index,
            r.status@ == result_text(status),
            r.time == time,
            r.memory == memory,
    {
        JudgeReport {
            id: String::from_str(id),
            index,
            status: String::from_str(status.as_str()),
            time,
            memory,
        }
    }
}

/// How a problem is judged, as its type names it.
#[derive(Debug, Clone, Copy, PartialEq, Eq, Structural)]
pub enum ProblemType {
    Normal,
    Special,
}

pub open spec fn spec_problem_type(name: Seq<char>) -> Option<ProblemType> {
    if name == "normal"@ {
        Some(ProblemType::Normal)
    } else if name == "spj"@ {
        Some(ProblemType::Special)
    } else {
        None
    }
}

/// The type that a problem's type name gives: `normal` or `spj`; `None`
/// for any other name, which no judge supports.
pub fn problem_type_from_name(name: &str) -> (r: Option<ProblemType>)
    ensures
        r == spec_problem_type(name@),
{
    if crate::text::str_eq(name, "normal") {
        Some(ProblemType::Normal)
    } else if crate::text::str_eq(name, "spj") {
        Some(ProblemType::Special)
    } else {
        None
    }
}

/// The verdict on a case from the outcome of its run and, for a run that
/// passed, whether its output was accepted.
pub open spec fn spec_case_result(status: LaunchResult, accepted: bool) -> JudgeResult {
    match status {
        LaunchResult::Pass => if accepted {
            JudgeResult::AC
        } else {
            JudgeResult::WA
        },
        LaunchResult::RE => JudgeResult::RE,
        LaunchResult::MLE => JudgeResult::MLE,
        LaunchResult::TLE => JudgeResult::TLE,
        LaunchResult::OLE => JudgeResult::OLE,
    }
}

pub fn case_result(status: LaunchResult, accepted: bool) -> (r: JudgeResult)
    ensures
        r == spec_case_result(status, accepted),
        status == LaunchResult::MLE ==> r == JudgeResult::MLE,
        status == LaunchResult::TLE ==> r == JudgeResult::TLE,
        status == LaunchResult::RE ==> r == JudgeResult::RE,
        status == LaunchResult::OLE ==> r == JudgeResult::OLE,
        status == LaunchResult::Pass ==> r == (if accepted {
            JudgeResult::AC
        } else {
            JudgeResult::WA
        }),
{
    match status {
        LaunchResult::Pass => if accepted {
            JudgeResult::AC
        } else {
            JudgeResult::WA
        },
        LaunchResult::RE => JudgeResult::RE,
        LaunchResult::MLE => JudgeResult::MLE,
        LaunchResult::TLE => JudgeResult::TLE,
        LaunchResult::OLE => JudgeResult::OLE,
    }
}

/// Law: a run that did not pass gets the verdict of the same name, whether
/// or not its output was accepted; a run that passed is AC when its output
/// was accepted and WA when it was not. So the name sent for a case is the
/// name of its run's outcome unless the run passed.
pub proof fn lemma_case_result_names(accepted: bool)
    ensures
        spec_case_result(LaunchResult::MLE, accepted) == JudgeResult::MLE,
        spec_case_result(LaunchResult::TLE, accepted) == JudgeResult::TLE,
        spec_case_result(LaunchResult::RE, accepted) == JudgeResult::RE,
        spec_case_result(LaunchResult::OLE, accepted) == JudgeResult::OLE,
        result_text(spec_case_result(LaunchResult::MLE, accepted)) == "MLE"@,
        result_text(spec_case_result(LaunchResult::TLE, accepted)) == "TLE"@,
        result_text(spec_case_result(LaunchResult::RE, accepted)) == "RE"@,
        result_text(spec_case_result(LaunchResult::OLE, accepted)) == "OLE"@,
        spec_case_result(LaunchResult::Pass, true) == JudgeResult::AC,
        spec_case_result(LaunchResult::Pass, false) == JudgeResult::WA,
{
}

/// The report sent when the source of task `id` does not compile: case 0,
/// no time, no memory.
pub fn compile_error_report(id: &str) -> (r: JudgeReport)
    ensures
        r.id@ == id@,
        r.index == 0,
        r.status@ == result_text(JudgeResult::CE),
        r.time == 0,
        r.memory == 0,
{
    JudgeReport::new(id, 0, JudgeResult::CE, 0, 0)
}

/// The report on case `index` of task `id`, from its run and, for a run
/// that passed, whether its output was accepted.
pub fn case_report(id: &str, index: usize, run: &crate::launcher::Report, accepted: bool) -> (r:
    JudgeReport)
    ensures
        r.id@ == id@,
        r.index == index,
        r.status@ == result_text(spec_case_result(run.status, accepted)),
        r.time == run.time,
        r.memory == run.memory,
        run.status == LaunchResult::MLE ==> r.status@ == "MLE"@,
        run.status == LaunchResult::TLE ==> r.status@ == "TLE"@,
        run.status == LaunchResult::RE ==> r.status@ == "RE"@,
        run.status == LaunchResult::OLE ==> r.status@ == "OLE"@,
        run.status == LaunchResult::Pass ==> r.status@ == (if accepted {
            "AC"@
        } else {
            "WA"@
        }),
{
    JudgeReport::new(id, index, case_result(run.status, accepted), run.time, run.memory)
}

} // verus!
