use ana::ana_compiler::{CGcc, CompileResult, Compiler};
use ana::builder::{choose_script, Builder};
use ana::communicator::{Error, EOF};
use ana::compiler::{compile, has_compiler, wait_step, WaitStep};
use ana::judge_compile::{compile as compile_submission, compile_result, Languages};
use ana::language::Language;
use ana::launcher::{LaunchResult, Report};
use ana::mtp::{
    case_report, compile_error_report, problem_type_from_name, JudgeReport, JudgeResult, Problem,
    ProblemType, TestCase,
};
use ana::seccomp::{Act, ArgCmp, CmpOp, Context, Rule, Syscall};

#[test]
fn test_suffix() {
    assert_eq!(<Compiler as CGcc>::suffix(), "c");
}

#[test]
fn compiler_commands() {
    let c = <Compiler as CGcc>::compile("a.c", "a.exe");
    assert_eq!(c.program, "gcc");
    assert_eq!(
        c.args,
        vec!["a.c", "-o", "a.exe", "-O2", "-fno-asm", "-Wall", "-lm", "--static", "--std=c99"]
    );
    let job = Compiler::compile_job("cpp.gxx", "/tmp", "m.exe");
    assert_eq!(job.source_file, "/tmp/main.cpp");
    assert_eq!(job.command.program, "g++");
    assert_eq!(job.command.args[8], "--std=c++11");
    let job = Compiler::compile_job("c.gcc", "/tmp", "m.exe");
    assert_eq!(job.source_file, "/tmp/main.c");
    assert_eq!(job.command.program, "gcc");
    assert!(Compiler::supports("c.gcc"));
    assert!(Compiler::supports("cpp.gxx"));
    assert!(!Compiler::supports("rust"));
    assert_eq!(Compiler::result(false), CompileResult::CE);
    let c = compile("c.gcc", "x.c", "x");
    assert_eq!(c.args[0], "x.c");
    assert_eq!(compile("cpp.gxx", "x.cpp", "x").program, "g++");
    assert!(has_compiler("c.gcc"));
    assert!(!has_compiler("go"));
    let s = compile_submission(&Languages::CGcc, "/tmp", "e");
    assert_eq!(s.source_file, "/tmp/main.c");
    assert_eq!(s.command.args[3], "-O2");
    assert!(compile_result(true).is_ok());
    assert_eq!(wait_step(9_999, None), WaitStep::Sleep(500));
    assert_eq!(wait_step(100, Some(false)), WaitStep::Done(false));
    assert_eq!(wait_step(10_000, Some(true)), WaitStep::GiveUp);
}

#[test]
fn mtp_reports_and_problems() {
    let r = JudgeReport::new("t1", 2, JudgeResult::TLE, 5, 6);
    assert_eq!((r.id.as_str(), r.index, r.status.as_str(), r.time, r.memory), ("t1", 2, "TLE", 5, 6));
    assert_eq!(JudgeResult::OLE.as_str(), "OLE");
    let ce = compile_error_report("t2");
    assert_eq!((ce.index, ce.status.as_str(), ce.time, ce.memory), (0, "CE", 0, 0));
    let run = Report { status: LaunchResult::Pass, time: 7, memory: 8 };
    assert_eq!(case_report("t3", 1, &run, false).status, "WA");
    assert_eq!(case_report("t3", 1, &run, true).status, "AC");
    let p = Problem::Normal {
        time_limit: 1,
        memory_limit: 2,
        test_cases: vec![TestCase { input: "1".to_string(), answer: "2".to_string() }],
    };
    assert_eq!(p.len(), 1);
    assert!(!p.is_empty());
    assert_eq!(problem_type_from_name("spj"), Some(ProblemType::Special));
    assert_eq!(problem_type_from_name("normal"), Some(ProblemType::Normal));
    assert_eq!(problem_type_from_name("other"), None);
}

#[test]
fn language_and_builder() {
    let dir = Language::candidate_path("/opt/lang", "c");
    assert_eq!(dir, "/opt/lang/c");
    let lang = Language::from_path(dir);
    assert_eq!(lang.build_script(), "/opt/lang/c/build.sh");
    assert_eq!(lang.builder_config(), "/opt/lang/c/builder.toml");
    assert_eq!(lang.runner_config(), "/opt/lang/c/runner.toml");
    assert_eq!(choose_script("/w", Some("b.sh"), None, None), Some("/w/b.sh".to_string()));
    assert_eq!(
        choose_script("/w", None, Some(Some(Language::from_path("/l/cpp".to_string()))), None),
        Some("/l/cpp/build.sh".to_string())
    );
    assert_eq!(choose_script("/w", None, Some(None), Some(Some(Language::from_path("/l/c".to_string())))), None);
    assert_eq!(
        choose_script("/w", None, None, Some(Some(Language::from_path("/l/c".to_string())))),
        Some("/l/c/build.sh".to_string())
    );
    let b = Builder::new("/w".into(), "/w/build.sh".into(), "main.c".into(), "/w/t/main".into(), "/w/t".into(), None);
    let c = b.build_command();
    assert_eq!(c.program, "/bin/sh");
    assert_eq!(c.args, vec!["-c".to_string(), "/w/build.sh".to_string()]);
    assert_eq!(c.env[0], ("PATH".to_string(), "/usr/local/sbin:/usr/local/bin:/usr/bin:/bin".to_string()));
    assert_eq!(c.env[3], ("TARGET_DIR".to_string(), "/w/t".to_string()));
    assert_eq!(c.current_dir, "/w");
    assert!(c.clear_env && c.null_stdin);
}

#[test]
fn seccomp_rules() {
    let mut rule = Rule::whitelist(Syscall(59));
    rule.match_arg(CmpOp::EQ, -1);
    rule.match_arg(CmpOp::LT, 7);
    assert_eq!(rule.args().len(), 2);
    assert_eq!(rule.act(), Act::Allow);
    assert_eq!(rule.syscall(), 59);
    assert_eq!(
        rule.to_arg_cmp(),
        vec![
            ArgCmp { arg: 0, op: 4, datum_a: u64::MAX, datum_b: 0 },
            ArgCmp { arg: 1, op: 2, datum_a: 7, datum_b: 0 },
        ]
    );
    assert_eq!(Act::Allow.code(), 0x7fff0000);
    assert_eq!(Act::Kill.code(), 0);
    assert_eq!(Rule::blacklist(Syscall(1)).act(), Act::Kill);
    let mut ctx = Context::default();
    assert_eq!(ctx.default_act(), Act::Kill);
    ctx.add_rule(rule);
    assert_eq!(ctx.rules().len(), 1);
    ctx.reset(Act::Allow);
    assert_eq!(ctx.rules().len(), 0);
    assert_eq!(ctx.default_act(), Act::Allow);
}

#[test]
fn communicator_errors() {
    assert_eq!(EOF, "EOF");
    assert_ne!(Error::Network, Error::Data);
}
