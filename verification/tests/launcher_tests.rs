use ana::launcher::DefaultLauncher;
use ana::launcher::{
    kill_delay, launch_report, lrun_fields, lrun_log_file_name, lrun_status, parse_exceed,
    random_lrun_log_file_name, Cgroup, LaunchResult, LrunExceed, LrunReport,
};

#[test]
fn launcher_report_order() {
    assert_eq!(launch_report(10, 100, 10, 100, true).status, LaunchResult::MLE);
    assert_eq!(launch_report(10, 99, 10, 100, true).status, LaunchResult::TLE);
    assert_eq!(launch_report(9, 99, 10, 100, false).status, LaunchResult::RE);
    let r = launch_report(9, 99, 10, 100, true);
    assert_eq!(r.status, LaunchResult::Pass);
    assert_eq!((r.time, r.memory), (9, 99));
    assert_eq!(kill_delay(1_000_000_000), 1_010_000_000);
}

#[test]
fn launcher_lrun_log() {
    let log = "MEMORY   1234\nCPUTIME  0.010\nREALTIME 0.020\nSIGNALED 0\nEXITCODE 0\nTERMSIG  0\nEXCEED   none\n";
    let fields = lrun_fields(log).unwrap();
    assert_eq!(fields, vec!["1234", "0.010", "0.020", "0", "0", "0", "none"]);
    assert_eq!(lrun_fields("MEMORY 1\nbroken"), None);
    assert_eq!(parse_exceed("none"), Some(LrunExceed::Pass));
    assert_eq!(parse_exceed("CPU_TIME"), Some(LrunExceed::CpuTime));
    assert_eq!(parse_exceed("REAL_TIME"), Some(LrunExceed::RealTime));
    assert_eq!(parse_exceed("MEMORY"), Some(LrunExceed::Memory));
    assert_eq!(parse_exceed("OUTPUT"), Some(LrunExceed::Output));
    assert_eq!(parse_exceed("memory"), None);
}

#[test]
fn launcher_lrun_status() {
    assert_eq!(lrun_status(LrunExceed::Pass, 0, true), LaunchResult::Pass);
    assert_eq!(lrun_status(LrunExceed::Pass, 1, true), LaunchResult::RE);
    assert_eq!(lrun_status(LrunExceed::Pass, 0, false), LaunchResult::RE);
    assert_eq!(lrun_status(LrunExceed::RealTime, 0, true), LaunchResult::TLE);
    assert_eq!(lrun_status(LrunExceed::CpuTime, 0, true), LaunchResult::TLE);
    assert_eq!(lrun_status(LrunExceed::Memory, 0, true), LaunchResult::MLE);
    assert_eq!(lrun_status(LrunExceed::Output, 0, true), LaunchResult::OLE);
}

#[test]
fn launcher_log_file_names() {
    assert_eq!(lrun_log_file_name(0x12345678), "87654321.log");
    assert_eq!(lrun_log_file_name(0xabcdef01), "10fedcba.log");
    let name = random_lrun_log_file_name();
    assert_eq!(name.len(), 12);
    assert!(name.ends_with(".log"));
}

#[test]
fn launcher_cgroup_writes() {
    let c = Cgroup::new("judge7");
    let (cpu, memory) = c.dirs();
    assert_eq!(cpu, "/sys/fs/cgroup/cpu/judge7");
    assert_eq!(memory, "/sys/fs/cgroup/memory/judge7");
    let w = c.limits(1000, 2048);
    assert_eq!(w[0].path, "/sys/fs/cgroup/cpu/judge7/cpu.cfs_period_us");
    assert_eq!(w[0].content, "1000");
    assert_eq!(w[1].path, "/sys/fs/cgroup/cpu/judge7/cpu.cfs_quota_us");
    assert_eq!(w[2].path, "/sys/fs/cgroup/memory/judge7/memory.limit_in_bytes");
    assert_eq!(w[2].content, "2048");
    let t = c.set_task(42);
    assert_eq!(t[1].path, "/sys/fs/cgroup/memory/judge7/tasks");
    assert_eq!(t[1].content, "42");
}

#[test]
fn launcher_default_launcher() {
    let l = DefaultLauncher::new("/bin/bash", "echo hello world");
    assert_eq!(l.executable_file(), "/bin/bash");
    assert_eq!(l.input(), "echo hello world");
}

#[test]
fn launcher_lrun_report_from_log_text() {
    let log = "  MEMORY   1234\nCPUTIME  0.010\nREALTIME 0.020\nSIGNALED 1\nEXITCODE -3\nTERMSIG  9\nEXCEED   MEMORY\n\n";
    let r = LrunReport::from_log_text(log).unwrap();
    assert_eq!(r.memory, 1234);
    assert_eq!(r.cpu_time, "0.010");
    assert_eq!(r.real_time, "0.020");
    assert_eq!((r.signaled, r.exit_code, r.term_sig), (1, -3, 9));
    assert_eq!(r.exceed, LrunExceed::Memory);
}

#[test]
fn launcher_lrun_report_refused() {
    let ok = "MEMORY 1\nCPUTIME 0.1\nREALTIME 0.2\nSIGNALED 0\nEXITCODE 0\nTERMSIG 0\nEXCEED none";
    assert!(LrunReport::from_log_text(ok).is_some());
    // a line without a value
    assert!(LrunReport::from_log_text("MEMORY 1\nCPUTIME\nREALTIME 0.2\nSIGNALED 0\nEXITCODE 0\nTERMSIG 0\nEXCEED none").is_none());
    // fewer than seven lines
    assert!(LrunReport::from_log_text("MEMORY 1\nCPUTIME 0.1\nREALTIME 0.2\nSIGNALED 0\nEXITCODE 0\nTERMSIG 0").is_none());
    // a memory that is no u64
    assert!(LrunReport::from_log_text("MEMORY -1\nCPUTIME 0.1\nREALTIME 0.2\nSIGNALED 0\nEXITCODE 0\nTERMSIG 0\nEXCEED none").is_none());
    // an exit code out of the range of i32
    assert!(LrunReport::from_log_text("MEMORY 1\nCPUTIME 0.1\nREALTIME 0.2\nSIGNALED 0\nEXITCODE 2147483648\nTERMSIG 0\nEXCEED none").is_none());
    // an unknown limit
    assert!(LrunReport::from_log_text("MEMORY 1\nCPUTIME 0.1\nREALTIME 0.2\nSIGNALED 0\nEXITCODE 0\nTERMSIG 0\nEXCEED STACK").is_none());
}
