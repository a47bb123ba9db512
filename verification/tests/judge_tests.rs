use ana::judge::{
    limit_verdict, special_judge_command, JudgeConfig, JudgeEvent, JudgeSession, NextStep, ProblemType, Resource,
    ResultType,
};

fn limit() -> Resource {
    Resource { real_time: 2_000, cpu_time: 1_000, memory: 1 << 20 }
}

fn config(problem_type: ProblemType, case_count: usize) -> JudgeConfig {
    JudgeConfig {
        problem_type,
        case_count,
        limit: limit(),
        ignore_white_space_at_eol: None,
        ignore_empty_line_at_eof: Some(false),
    }
}

fn usage(real_time: u128, cpu_time: u128, memory: usize) -> Resource {
    Resource { real_time, cpu_time, memory }
}

#[test]
fn judge_limit_verdict_order() {
    let l = limit();
    assert_eq!(limit_verdict(&usage(9_000, 9_000, 1 << 20), &l, false), Some(ResultType::MemoryLimitExceeded));
    assert_eq!(limit_verdict(&usage(2_001, 0, 0), &l, false), Some(ResultType::TimeLimitExceeded));
    assert_eq!(limit_verdict(&usage(0, 1_001, 0), &l, true), Some(ResultType::TimeLimitExceeded));
    assert_eq!(limit_verdict(&usage(2_000, 1_000, (1 << 20) - 1), &l, false), Some(ResultType::RuntimeError));
    assert_eq!(limit_verdict(&usage(2_000, 1_000, (1 << 20) - 1), &l, true), None);
}

#[test]
fn judge_unsupported_language() {
    let mut s = JudgeSession::new(config(ProblemType::Normal, 3));
    let a = s.on_event(JudgeEvent::LanguageUnsupported);
    let r = a.report.unwrap();
    assert_eq!(r.result, ResultType::SystemError);
    assert!(r.usage.is_none());
    assert_eq!(r.message, "The language of the source code is not supported");
    assert_eq!(a.next, NextStep::Finish);
    assert!(s.is_finished());
}

#[test]
fn judge_compile_error_reports_stderr() {
    let mut s = JudgeSession::new(config(ProblemType::Normal, 3));
    let a = s.on_event(JudgeEvent::BuildFinished { success: false, stderr: b"main.c:1: error".to_vec() });
    let r = a.report.unwrap();
    assert_eq!(r.result, ResultType::CompileError);
    assert_eq!(r.message, "main.c:1: error");
    assert_eq!(a.next, NextStep::Finish);

    let mut s = JudgeSession::new(config(ProblemType::Normal, 3));
    let a = s.on_event(JudgeEvent::BuildFinished { success: false, stderr: vec![0xff, 0xfe] });
    assert_eq!(a.report.unwrap().message, "Stderr of building process is not an valid utf8 string");
}

#[test]
fn judge_normal_problem_runs_every_case() {
    let mut s = JudgeSession::new(config(ProblemType::Normal, 3));
    let a = s.on_event(JudgeEvent::BuildFinished { success: true, stderr: vec![] });
    assert!(a.report.is_none());
    assert_eq!(a.next, NextStep::RunCase(0));

    let u = usage(100, 100, 100);
    let a = s.on_event(JudgeEvent::CaseFinished { usage: u, exit_success: true, stderr_buffer: Some(vec![]) });
    assert!(a.report.is_none());
    assert_eq!(
        a.next,
        NextStep::CompareOutput { case: 0, ignore_white_space_at_eol: true, ignore_empty_line_at_eof: false }
    );
    let a = s.on_event(JudgeEvent::Checked { accepted: true });
    let r = a.report.unwrap();
    assert_eq!(r.result, ResultType::Accepted);
    assert_eq!(r.usage, Some(u));
    assert_eq!(r.message, "");
    assert_eq!(a.next, NextStep::RunCase(1));

    let mut buffer = b"boom".to_vec();
    buffer.resize(8, 0);
    let a = s.on_event(JudgeEvent::CaseFinished { usage: u, exit_success: false, stderr_buffer: Some(buffer) });
    let r = a.report.unwrap();
    assert_eq!(r.result, ResultType::RuntimeError);
    assert_eq!(r.message, "boom\0\0\0\0");
    assert_eq!(a.next, NextStep::RunCase(2));

    let a = s.on_event(JudgeEvent::CaseFinished { usage: u, exit_success: true, stderr_buffer: None });
    assert_eq!(
        a.next,
        NextStep::CompareOutput { case: 2, ignore_white_space_at_eol: true, ignore_empty_line_at_eof: false }
    );
    let a = s.on_event(JudgeEvent::Checked { accepted: false });
    assert_eq!(a.report.unwrap().result, ResultType::WrongAnswer);
    assert_eq!(a.next, NextStep::Finish);
    assert!(s.is_finished());
}

#[test]
fn judge_limits_come_before_the_check() {
    let mut s = JudgeSession::new(config(ProblemType::Normal, 2));
    s.on_event(JudgeEvent::BuildFinished { success: true, stderr: vec![] });
    let a = s.on_event(JudgeEvent::CaseFinished {
        usage: usage(5_000, 10, 10),
        exit_success: false,
        stderr_buffer: Some(b"ignored".to_vec()),
    });
    let r = a.report.unwrap();
    assert_eq!(r.result, ResultType::TimeLimitExceeded);
    assert_eq!(r.message, "");
    let a = s.on_event(JudgeEvent::CaseFinished {
        usage: usage(10, 10, 1 << 20),
        exit_success: true,
        stderr_buffer: None,
    });
    assert_eq!(a.report.unwrap().result, ResultType::MemoryLimitExceeded);
    assert_eq!(a.next, NextStep::Finish);
}

#[test]
fn judge_special_judge_problem() {
    let mut s = JudgeSession::new(config(ProblemType::SpecialJudge, 1));
    let a = s.on_event(JudgeEvent::BuildFinished { success: true, stderr: vec![] });
    assert_eq!(a.next, NextStep::BuildSpecialJudge);
    let a = s.on_event(JudgeEvent::SpecialJudgeBuilt { success: true });
    assert_eq!(a.next, NextStep::RunCase(0));
    let a = s.on_event(JudgeEvent::CaseFinished {
        usage: usage(1, 1, 1),
        exit_success: false,
        stderr_buffer: Some(b"err".to_vec()),
    });
    let r = a.report.unwrap();
    assert_eq!(r.result, ResultType::RuntimeError);
    assert_eq!(r.message, "");

    let mut s = JudgeSession::new(config(ProblemType::SpecialJudge, 1));
    s.on_event(JudgeEvent::BuildFinished { success: true, stderr: vec![] });
    s.on_event(JudgeEvent::SpecialJudgeBuilt { success: true });
    let a = s.on_event(JudgeEvent::CaseFinished { usage: usage(1, 1, 1), exit_success: true, stderr_buffer: None });
    assert_eq!(a.next, NextStep::RunSpecialJudge(0));
    let a = s.on_event(JudgeEvent::Checked { accepted: true });
    assert_eq!(a.report.unwrap().result, ResultType::Accepted);
    assert_eq!(a.next, NextStep::Finish);
}

#[test]
fn judge_special_judge_failures() {
    let mut s = JudgeSession::new(config(ProblemType::SpecialJudge, 1));
    s.on_event(JudgeEvent::BuildFinished { success: true, stderr: vec![] });
    let a = s.on_event(JudgeEvent::SpecialJudgeMissing);
    let r = a.report.unwrap();
    assert_eq!(r.result, ResultType::SystemError);
    assert_eq!(r.message, "The special judge of the problem is missing.");

    let mut s = JudgeSession::new(config(ProblemType::SpecialJudge, 1));
    s.on_event(JudgeEvent::BuildFinished { success: true, stderr: vec![] });
    let a = s.on_event(JudgeEvent::SpecialJudgeBuilt { success: false });
    let r = a.report.unwrap();
    assert_eq!(r.result, ResultType::SystemError);
    assert_eq!(r.message, "Failed to build the special judge of the problem.");
    assert_eq!(a.next, NextStep::Finish);
}

#[test]
fn judge_no_cases_finishes_after_build() {
    let mut s = JudgeSession::new(config(ProblemType::Normal, 0));
    let a = s.on_event(JudgeEvent::BuildFinished { success: true, stderr: vec![] });
    assert!(a.report.is_none());
    assert_eq!(a.next, NextStep::Finish);
    assert!(!s.accepts_event(&JudgeEvent::Checked { accepted: true }));
}

#[test]
fn judge_interactive_problem_stops_after_build() {
    let mut s = JudgeSession::new(config(ProblemType::Interactive, 1));
    let failed = JudgeEvent::BuildFinished { success: false, stderr: b"e".to_vec() };
    assert!(s.can_take_event(&failed));
    assert!(!s.can_take_event(&JudgeEvent::BuildFinished { success: true, stderr: vec![] }));
    let a = s.on_event(failed);
    assert_eq!(a.report.unwrap().result, ResultType::CompileError);
    assert_eq!(a.next, NextStep::Finish);
}

#[test]
fn judge_runtime_error_message_replaces_invalid_bytes() {
    let mut s = JudgeSession::new(config(ProblemType::Normal, 1));
    s.on_event(JudgeEvent::BuildFinished { success: true, stderr: vec![] });
    let a = s.on_event(JudgeEvent::CaseFinished {
        usage: usage(1, 1, 1),
        exit_success: false,
        stderr_buffer: Some(vec![b'o', b'k', 0xff]),
    });
    assert_eq!(a.report.unwrap().message, "ok\u{fffd}");
}

#[test]
fn judge_special_judge_gets_input_output_answer() {
    let c = special_judge_command("/p/spj/main", "/p/cases/1.in", "/r/output", "/p/cases/1.ans");
    assert_eq!(c.program, "/p/spj/main");
    assert_eq!(
        c.args,
        vec!["/p/cases/1.in".to_string(), "/r/output".to_string(), "/p/cases/1.ans".to_string()]
    );
}
