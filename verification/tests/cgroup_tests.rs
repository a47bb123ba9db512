use ana::cgroup::PidFile;
use ana::ana_cgroup::{AnaCgroup, Cgroup};
use ana::cgroup::{
    parse_count, parse_usage, parse_usage_all, parse_usage_percpu, AttrFile, Builder, Context,
    CpusetController,
};

#[test]
fn cgroup_paths_of_a_named_group() {
    let ctx = Builder::new().name("demo").build(0);
    assert_eq!(ctx.name(), "demo");
    assert_eq!(Context::root(), "/sys/fs/cgroup");
    assert_eq!(ctx.cpu_controller().unwrap().path(), "/sys/fs/cgroup/cpu/demo");
    assert_eq!(ctx.cpuacct_controller().unwrap().path(), "/sys/fs/cgroup/cpuacct/demo");
    assert_eq!(ctx.memory_controller().unwrap().path(), "/sys/fs/cgroup/memory/demo");
    assert_eq!(
        ctx.hierarchies(),
        vec![
            "/sys/fs/cgroup/cpu/demo".to_string(),
            "/sys/fs/cgroup/cpuacct/demo".to_string(),
            "/sys/fs/cgroup/memory/demo".to_string(),
        ]
    );
}

#[test]
fn cgroup_disabled_controllers() {
    let ctx = Builder::new().name("x").cpu_controller(false).memory_controller(false).build(0);
    assert!(ctx.cpu_controller().is_none());
    assert!(ctx.memory_controller().is_none());
    assert!(ctx.cpuacct_controller().is_some());
    let w = ctx.add_process(1234);
    assert_eq!(w.len(), 1);
    assert_eq!(w[0].path, "/sys/fs/cgroup/cpuacct/x/cgroup.procs");
    assert_eq!(w[0].content, "1234");
    let t = ctx.add_task(-5);
    assert_eq!(t[0].path, "/sys/fs/cgroup/cpuacct/x/tasks");
    assert_eq!(t[0].content, "-5");
}

#[test]
fn cgroup_generated_names() {
    let ctx = Builder::new().build_with_salt(0x1f, 0xabc);
    assert_eq!(ctx.name(), "1fabc");
    let ctx = Builder::new().build(255);
    assert!(ctx.name().starts_with("ff"));
    assert!(ctx.name().len() > 2);
}

#[test]
fn cgroup_controller_files() {
    let ctx = Builder::new().name("g").build(0);
    let cpu = ctx.cpu_controller().unwrap();
    let period = cpu.period();
    assert_eq!(period.path(), "/sys/fs/cgroup/cpu/g/cpu.cfs_period_us");
    assert_eq!(period.render(&200_000), "200");
    assert_eq!(period.parse("150\n"), Some(150_000));
    assert_eq!(period.parse("x"), None);
    assert_eq!(cpu.quota().path(), "/sys/fs/cgroup/cpu/g/cpu.cfs_quota_us");
    let memory = ctx.memory_controller().unwrap();
    let limit = memory.limit_in_bytes();
    assert_eq!(limit.path(), "/sys/fs/cgroup/memory/g/memory.limit_in_bytes");
    assert_eq!(limit.render(&1024), "1024");
    assert_eq!(limit.parse(" 128 \n"), Some(128));
    assert_eq!(memory.swappiness().path(), "/sys/fs/cgroup/memory/g/memory.swappiness");
    assert_eq!(memory.file("memory.failcnt"), "/sys/fs/cgroup/memory/g/memory.failcnt");
}

#[test]
fn cgroup_cpuset_controller() {
    let ctx = Builder::new().name("s").build(0);
    let cpuset = CpusetController::from_ctx(&ctx);
    assert_eq!(cpuset.path(), "/sys/fs/cgroup/cpuset/s");
    let w = cpuset.write_cpuset(&vec![(0, 1), (3, 3)]);
    assert_eq!(w[0].path, "/sys/fs/cgroup/cpuset/s/cpuset.mems");
    assert_eq!(w[0].content, "0");
    assert_eq!(w[1].path, "/sys/fs/cgroup/cpuset/s/cpuset.cpus");
    assert_eq!(w[1].content, "0-1,3");
    let file = cpuset.allocated();
    assert_eq!(file.parse("0-1,3\n"), Some(vec![(0, 1), (3, 3)]));
}

#[test]
fn cgroup_reading_usage() {
    assert_eq!(parse_usage("123456\n"), Some(123456));
    assert_eq!(parse_usage(""), None);
    assert_eq!(parse_count("  42 "), Some(42));
    assert_eq!(parse_usage_percpu("1 2 3 \n"), Some(vec![1, 2, 3]));
    assert_eq!(parse_usage_percpu("1 x"), None);
    assert_eq!(
        parse_usage_all("cpu user system\n0 10 20\n1 30 40\n"),
        Some(vec![(0, 10, 20), (1, 30, 40)])
    );
    assert_eq!(parse_usage_all("cpu user system\n0 10\n"), None);
    assert_eq!(parse_usage_all(""), Some(vec![]));
}

#[test]
fn cgroup_ana_groups() {
    let c = AnaCgroup::new("j1".to_string());
    assert_eq!(AnaCgroup::cgroup_root_path(), "/sys/fs/cgroup/");
    assert_eq!(c.cpu_path(), "/sys/fs/cgroup/cpu/ana/j1");
    assert_eq!(c.memory_path(), "/sys/fs/cgroup/memory/ana/j1");
    let w = c.set_time_limit(2_000_000);
    assert_eq!(w[0].path, "/sys/fs/cgroup/cpu/ana/j1/cpu.cfs_period_us");
    assert_eq!(w[0].content, "2000");
    assert_eq!(w[1].path, "/sys/fs/cgroup/cpu/ana/j1/cpu.cfs_quota_us");
    let m = c.set_memory_limit(1 << 20);
    assert_eq!(m[0].content, "1048576");
    assert_eq!(m[1].path, "/sys/fs/cgroup/memory/ana/j1/memory.swappiness");
    assert_eq!(m[1].content, "0");
    let t = c.add_task(99);
    assert_eq!(t[0].path, "/sys/fs/cgroup/cpu/ana/j1/tasks");
    assert!(AnaCgroup::inited(true, true));
    assert!(!AnaCgroup::inited(true, false));
}

#[test]
fn cgroup_pid_files() {
    let procs = PidFile::procs("/sys/fs/cgroup/cpu/g");
    assert_eq!(procs.path(), "/sys/fs/cgroup/cpu/g/cgroup.procs");
    assert_eq!(procs.render(&31), "31");
    assert_eq!(procs.parse("12\n13\n"), Some(vec![12, 13]));
    assert_eq!(procs.parse("12 x"), None);
    assert_eq!(PidFile::tasks("/d").path(), "/d/tasks");
}

#[test]
fn cgroup_attribute_files_read_back_what_they_write() {
    let ctx = Builder::new().name("r").build(0);
    let memory = ctx.memory_controller().unwrap();
    let limit = memory.limit_in_bytes();
    for v in [0usize, 7, 1 << 40, usize::MAX] {
        assert_eq!(limit.parse(&limit.render(&v)), Some(v));
    }
    let period = ctx.cpu_controller().unwrap().period();
    assert_eq!(period.parse(&period.render(&1_234_567)), Some(1_234_000));
}
