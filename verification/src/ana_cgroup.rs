//! The control groups of one judge under `/sys/fs/cgroup/{cpu,memory}/ana`.
use vstd::prelude::*;
use crate::plan::{write_view, FileWrite};
use crate::text::{decimal, decimal_string, join_path, join_path_str};

verus! {

/// The control groups of the judge `judge_id`.
pub struct AnaCgroup {
    judge_id: String,
}

/// Where the groups of a judge live and what sets them up.
pub trait Cgroup {
    fn cgroup_root_path() -> &'static str;

    fn cgroup_cpu_path() -> &'static str;

    fn cgroup_memory_path() -> &'static str;

    fn cpu_path(&self) -> String;

    fn memory_path(&self) -> String;

    /// What adds the task to both groups.
    fn add_task(&self, task_id: u32) -> Vec<FileWrite>;

    /// What sets the CPU period and quota for a time limit in nanoseconds.
    fn set_time_limit(&self, cpu_limit: u64) -> Vec<FileWrite>;

    /// What sets the memory limit in bytes and turns swapping off.
    fn set_memory_limit(&self, memory_limit: u64) -> Vec<FileWrite>;
}

pub open spec fn ana_cpu_root() -> Seq<char> {
    "/sys/fs/cgroup/cpu/ana"@
}

pub open spec fn ana_memory_root() -> Seq<char> {
    "/sys/fs/cgroup/memory/ana"@
}

impl AnaCgroup {
    pub closed spec fn judge_id_view(&self) -> Seq<char> {
        self.judge_id@
    }

    /// The groups of the judge `judge_id`; their directories are still to
    /// be made.
    pub fn new(judge_id: String) -> (c: AnaCgroup)
        ensures
            c.judge_id_view() == judge_id@,
    {
        AnaCgroup { judge_id }
    }

    /// Whether the parent groups are set up: both directories exist.
    pub fn inited(cpu_path_exists: bool, memory_path_exists: bool) -> (r: bool)
        ensures
            r == (cpu_path_exists && memory_path_exists),
    {
        cpu_path_exists && memory_path_exists
    }

    fn both(&self, file: &str, content: &String) -> (w: Vec<FileWrite>)
        ensures
            w@.len() == 2,
            write_view(w@[0]) == (join_path(join_path(ana_cpu_root(), self.judge_id_view()), file@), content@),
            write_view(w@[1]) == (join_path(join_path(ana_memory_root(), self.judge_id_view()), file@), content@),
    {
        let mut w: Vec<FileWrite> = Vec::new();
        let cpu = self.cpu_path();
        let memory = self.memory_path();
        w.push(FileWrite { path: join_path_str(cpu.as_str(), file), content: content.clone() });
        w.push(FileWrite { path: join_path_str(memory.as_str(), file), content: content.clone() });
        w
    }
}

impl Cgroup for AnaCgroup {
    fn cgroup_root_path() -> (p: &'static str)
        ensures
            p@ == "/sys/fs/cgroup/"@,
    {
        "/sys/fs/cgroup/"
    }

    fn cgroup_cpu_path() -> (p: &'static str)
        ensures
            p@ == ana_cpu_root(),
    {
        "/sys/fs/cgroup/cpu/ana"
    }

    fn cgroup_memory_path() -> (p: &'static str)
        ensures
            p@ == ana_memory_root(),
    {
        "/sys/fs/cgroup/memory/ana"
    }

    fn cpu_path(&self) -> (p: String)
        ensures
            p@ == join_path(ana_cpu_root(), self.judge_id_view()),
    {
        join_path_str(AnaCgroup::cgroup_cpu_path(), self.judge_id.as_str())
    }

    fn memory_path(&self) -> (p: String)
        ensures
            p@ == join_path(ana_memory_root(), self.judge_id_view()),
    {
        join_path_str(AnaCgroup::cgroup_memory_path(), self.judge_id.as_str())
    }

    fn add_task(&self, task_id: u32) -> (w: Vec<FileWrite>)
        ensures
            w@.len() == 2,
            write_view(w@[0]) == (join_path(join_path(ana_cpu_root(), self.judge_id_view()), "tasks"@), decimal(task_id as nat)),
            write_view(w@[1]) == (join_path(join_path(ana_memory_root(), self.judge_id_view()), "tasks"@), decimal(task_id as nat)),
    {
        let content = decimal_string(task_id as u128);
        self.both("tasks", &content)
    }

    fn set_time_limit(&self, cpu_limit: u64) -> (w: Vec<FileWrite>)
        ensures
            w@.len() == 2,
            write_view(w@[0]) == (join_path(join_path(ana_cpu_root(), self.judge_id_view()), "cpu.cfs_period_us"@), decimal((cpu_limit / 1000) as nat)),
            write_view(w@[1]) == (join_path(join_path(ana_cpu_root(), self.judge_id_view()), "cpu.cfs_quota_us"@), decimal((cpu_limit / 1000) as nat)),
    {
        let cpu = self.cpu_path();
        let mut w: Vec<FileWrite> = Vec::new();
        w.push(FileWrite { path: join_path_str(cpu.as_str(), "cpu.cfs_period_us"), content: decimal_string((cpu_limit / 1000) as u128) });
        w.push(FileWrite { path: join_path_str(cpu.as_str(), "cpu.cfs_quota_us"), content: decimal_string((cpu_limit / 1000) as u128) });
        w
    }

    fn set_memory_limit(&self, memory_limit: u64) -> (w: Vec<FileWrite>)
        ensures
            w@.len() == 2,
            write_view(w@[0]) == (join_path(join_path(ana_memory_root(), self.judge_id_view()), "memory.limit_in_bytes"@), decimal(memory_limit as nat)),
            write_view(w@[1]) == (join_path(join_path(ana_memory_root(), self.judge_id_view()), "memory.swappiness"@), decimal(0)),
    {
        let memory = self.memory_path();
        let mut w: Vec<FileWrite> = Vec::new();
        w.push(FileWrite { path: join_path_str(memory.as_str(), "memory.limit_in_bytes"), content: decimal_string(memory_limit as u128) });
        w.push(FileWrite { path: join_path_str(memory.as_str(), "memory.swappiness"), content: decimal_string(0) });
        w
    }
}

} // verus!
