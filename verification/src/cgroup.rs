//! Linux control groups: where a group's controllers live, what is written
//! to their files and how their files are read.
use vstd::prelude::*;
use crate::cpuset::{cpuset_text, format_cpuset, parse_cpuset, parse_cpuset_text};
use crate::plan::{write_view, FileWrite};
use crate::rng::random_u64;
use crate::text::{
    decimal, decimal_string, hex, hex_string, join_path, join_path_str, lines, parse_i32,
    parse_signed, parse_u64,
    parse_unsigned, parse_usize, signed_decimal, signed_decimal_string, split_lines,
    split_whitespace, trim, trim_ws, views, words, append_str,
};

verus! {

/// The mount point of the control group file systems.
pub open spec fn cgroup_root() -> Seq<char> {
    "/sys/fs/cgroup"@
}

/// The directory of the group `name` under the controller `controller`.
pub open spec fn hierarchy_path(controller: Seq<char>, name: Seq<char>) -> Seq<char> {
    join_path(join_path(cgroup_root(), controller), name)
}

fn hierarchy_path_str(controller: &str, name: &str) -> (p: String)
    ensures
        p@ == hierarchy_path(controller@, name@),
{
    let base = join_path_str(Context::root(), controller);
    join_path_str(base.as_str(), name)
}

/// A file of a controller whose content is one value: how a value is
/// written into it and read back from it.
pub trait AttrFile<T, U> {
    /// The path of the file.
    fn path(&self) -> String;

    /// The content written for `attr`.
    fn render(&self, attr: &T) -> String;

    /// The value read from the content; `None` where the content holds none.
    fn parse(&self, text: &str) -> Option<U>;
}

/// A file that holds one unsigned number.
pub struct NumberFile {
    path: String,
}

/// A file that holds a duration in microseconds; durations are given in
/// nanoseconds.
pub struct CpuTimeFile {
    path: String,
}

/// `cpuset.cpus` or `cpuset.mems`: runs of CPUs or memory nodes.
pub struct CpusetFile {
    path: String,
}

/// The value of a trimmed number, as `str::parse::<u64>` reads it.
pub open spec fn spec_parse_number(text: Seq<char>, max: nat) -> Option<nat> {
    parse_unsigned(trim_ws(text), max)
}

impl NumberFile {
    pub closed spec fn path_view(&self) -> Seq<char> {
        self.path@
    }
}

impl AttrFile<usize, usize> for NumberFile {
    fn path(&self) -> (p: String)
        ensures
            p@ == self.path_view(),
    {
        self.path.clone()
    }

    fn render(&self, attr: &usize) -> (s: String)
        ensures
            s@ == decimal(*attr as nat),
    {
        decimal_string(*attr as u128)
    }

    fn parse(&self, text: &str) -> (r: Option<usize>)
        ensures
            match r {
                Some(v) => spec_parse_number(text@, usize::MAX as nat) == Some(v as nat),
                None => spec_parse_number(text@, usize::MAX as nat) is None,
            },
    {
        parse_usize(trim(text))
    }
}

impl CpuTimeFile {
    pub closed spec fn path_view(&self) -> Seq<char> {
        self.path@
    }
}

impl AttrFile<u128, u128> for CpuTimeFile {
    fn path(&self) -> (p: String)
        ensures
            p@ == self.path_view(),
    {
        self.path.clone()
    }

    /// The whole microseconds of the duration.
    fn render(&self, attr: &u128) -> (s: String)
        ensures
            s@ == decimal((*attr / 1000) as nat),
    {
        decimal_string(*attr / 1000)
    }

    /// The duration of the microseconds the file holds.
    fn parse(&self, text: &str) -> (r: Option<u128>)
        ensures
            match r {
                Some(v) => spec_parse_number(text@, u64::MAX as nat) matches Some(us) && v == us
                    * 1000,
                None => spec_parse_number(text@, u64::MAX as nat) is None,
            },
    {
        match parse_u64(trim(text)) {
            Some(us) => Some((us as u128) * 1000),
            None => None,
        }
    }
}

impl CpusetFile {
    pub closed spec fn path_view(&self) -> Seq<char> {
        self.path@
    }
}

impl AttrFile<Vec<(u32, u32)>, Vec<(u32, u32)>> for CpusetFile {
    fn path(&self) -> (p: String)
        ensures
            p@ == self.path_view(),
    {
        self.path.clone()
    }

    fn render(&self, attr: &Vec<(u32, u32)>) -> (s: String)
        ensures
            s@ == cpuset_text(attr@),
    {
        format_cpuset(attr.as_slice())
    }

    fn parse(&self, text: &str) -> (r: Option<Vec<(u32, u32)>>)
        ensures
            match r {
                Some(v) => parse_cpuset_text(text@) == Some(v@),
                None => parse_cpuset_text(text@) is None,
            },
    {
        parse_cpuset(text)
    }
}

/// `cgroup.procs` or `tasks` of a hierarchy: process numbers, one written
/// at a time, all read back.
pub struct PidFile {
    path: String,
}

/// The numbers of the processes in a `cgroup.procs` or `tasks` file;
/// `None` where a word is no number.
pub open spec fn spec_pid_list(text: Seq<char>) -> Option<Seq<i32>> {
    let w = words(text);
    if forall|k: int|
        0 <= k < w.len() ==> (#[trigger] parse_signed(w[k], 0x8000_0000, 0x7fff_ffff)) is Some {
        Some(Seq::new(w.len(), |k: int| parse_signed(w[k], 0x8000_0000, 0x7fff_ffff)->0 as i32))
    } else {
        None
    }
}

impl PidFile {
    pub closed spec fn path_view(&self) -> Seq<char> {
        self.path@
    }

    /// `cgroup.procs` of the hierarchy in `dir`.
    pub fn procs(dir: &str) -> (f: PidFile)
        ensures
            f.path_view() == join_path(dir@, "cgroup.procs"@),
    {
        PidFile { path: join_path_str(dir, "cgroup.procs") }
    }

    /// `tasks` of the hierarchy in `dir`.
    pub fn tasks(dir: &str) -> (f: PidFile)
        ensures
            f.path_view() == join_path(dir@, "tasks"@),
    {
        PidFile { path: join_path_str(dir, "tasks") }
    }
}

impl AttrFile<i32, Vec<i32>> for PidFile {
    fn path(&self) -> (p: String)
        ensures
            p@ == self.path_view(),
    {
        self.path.clone()
    }

    fn render(&self, attr: &i32) -> (s: String)
        ensures
            s@ == signed_decimal(*attr as int),
    {
        signed_decimal_string(*attr as i64)
    }

    fn parse(&self, text: &str) -> (r: Option<Vec<i32>>)
        ensures
            match r {
                Some(v) => spec_pid_list(text@) == Some(v@),
                None => spec_pid_list(text@) is None,
            },
    {
        let w = split_whitespace(text);
        let ghost wv = words(text@);
        let mut out: Vec<i32> = Vec::new();
        let mut k: usize = 0;
        while k < w.len()
            invariant
                k <= w@.len(),
                views(w@) == wv,
                wv == words(text@),
                out@.len() == k,
                forall|j: int|
                    0 <= j < k ==> parse_signed(#[trigger] wv[j], 0x8000_0000, 0x7fff_ffff) == Some(
                        out@[j] as int,
                    ),
            decreases w@.len() - k,
        {
            assert(wv[k as int] == w@[k as int]@);
            match parse_i32(w[k]) {
                Some(v) => out.push(v),
                None => {
                    return None;
                },
            }
            k = k + 1;
        }
        assert(out@ =~= Seq::new(
            wv.len(),
            |j: int| parse_signed(wv[j], 0x8000_0000, 0x7fff_ffff)->0 as i32,
        ));
        Some(out)
    }
}

/// A control group: its name and the controllers it uses.
#[derive(Debug, Clone)]
pub struct Context {
    name: String,
    cpu_controller_enable: bool,
    cpuacct_controller_enable: bool,
    memory_controller_enable: bool,
}

/// The `cpu` controller of a group.
pub struct CpuController {
    inner: String,
}

/// The `cpuacct` controller of a group.
pub struct CpuAcctController {
    inner: String,
}

/// The `memory` controller of a group.
pub struct MemoryController {
    inner: String,
}

/// The `cpuset` controller of a group.
pub struct CpusetController {
    inner: String,
}

/// `dir/file`, as `Path::join` makes it.
fn file_in(dir: &String, file: &str) -> (p: String)
    ensures
        p@ == join_path(dir@, file@),
{
    join_path_str(dir.as_str(), file)
}

impl CpuController {
    pub closed spec fn path_view(&self) -> Seq<char> {
        self.inner@
    }

    pub fn from_ctx(context: &Context) -> (c: CpuController)
        ensures
            c.path_view() == hierarchy_path("cpu"@, context.name_view()),
    {
        CpuController { inner: hierarchy_path_str("cpu", context.name.as_str()) }
    }

    /// The directory of the controller.
    pub fn path(&self) -> (p: &str)
        ensures
            p@ == self.path_view(),
    {
        self.inner.as_str()
    }

    /// `cpu.cfs_period_us`.
    pub fn period(&self) -> (f: CpuTimeFile)
        ensures
            f.path_view() == join_path(self.path_view(), "cpu.cfs_period_us"@),
    {
        CpuTimeFile { path: file_in(&self.inner, "cpu.cfs_period_us") }
    }

    /// `cpu.cfs_quota_us`.
    pub fn quota(&self) -> (f: CpuTimeFile)
        ensures
            f.path_view() == join_path(self.path_view(), "cpu.cfs_quota_us"@),
    {
        CpuTimeFile { path: file_in(&self.inner, "cpu.cfs_quota_us") }
    }
}

impl CpuAcctController {
    pub closed spec fn path_view(&self) -> Seq<char> {
        self.inner@
    }

    pub fn from_ctx(context: &Context) -> (c: CpuAcctController)
        ensures
            c.path_view() == hierarchy_path("cpuacct"@, context.name_view()),
    {
        CpuAcctController { inner: hierarchy_path_str("cpuacct", context.name.as_str()) }
    }

    /// The directory of the controller.
    pub fn path(&self) -> (p: &str)
        ensures
            p@ == self.path_view(),
    {
        self.inner.as_str()
    }

    /// The path of one of the controller's files.
    pub fn file(&self, name: &str) -> (p: String)
        ensures
            p@ == join_path(self.path_view(), name@),
    {
        file_in(&self.inner, name)
    }
}

impl MemoryController {
    pub closed spec fn path_view(&self) -> Seq<char> {
        self.inner@
    }

    pub fn from_ctx(context: &Context) -> (c: MemoryController)
        ensures
            c.path_view() == hierarchy_path("memory"@, context.name_view()),
    {
        MemoryController { inner: hierarchy_path_str("memory", context.name.as_str()) }
    }

    /// The directory of the controller.
    pub fn path(&self) -> (p: &str)
        ensures
            p@ == self.path_view(),
    {
        self.inner.as_str()
    }

    /// The path of one of the controller's files.
    pub fn file(&self, name: &str) -> (p: String)
        ensures
            p@ == join_path(self.path_view(), name@),
    {
        file_in(&self.inner, name)
    }

    /// `memory.limit_in_bytes`.
    pub fn limit_in_bytes(&self) -> (f: NumberFile)
        ensures
            f.path_view() == join_path(self.path_view(), "memory.limit_in_bytes"@),
    {
        NumberFile { path: file_in(&self.inner, "memory.limit_in_bytes") }
    }

    /// `memory.swappiness`.
    pub fn swappiness(&self) -> (f: NumberFile)
        ensures
            f.path_view() == join_path(self.path_view(), "memory.swappiness"@),
    {
        NumberFile { path: file_in(&self.inner, "memory.swappiness") }
    }
}

impl CpusetController {
    pub closed spec fn path_view(&self) -> Seq<char> {
        self.inner@
    }

    pub fn from_ctx(context: &Context) -> (c: CpusetController)
        ensures
            c.path_view() == hierarchy_path("cpuset"@, context.name_view()),
    {
        CpusetController { inner: hierarchy_path_str("cpuset", context.name.as_str()) }
    }

    /// The directory of the controller.
    pub fn path(&self) -> (p: &str)
        ensures
            p@ == self.path_view(),
    {
        self.inner.as_str()
    }

    /// `cpuset.cpus`, whose runs are the CPUs that the group may use.
    pub fn allocated(&self) -> (f: CpusetFile)
        ensures
            f.path_view() == join_path(self.path_view(), "cpuset.cpus"@),
    {
        CpusetFile { path: file_in(&self.inner, "cpuset.cpus") }
    }

    /// What gives the group the CPUs `data`: memory node 0 in `cpuset.mems`,
    /// then the runs in `cpuset.cpus`.
    pub fn write_cpuset(&self, data: &Vec<(u32, u32)>) -> (w: Vec<FileWrite>)
        ensures
            w@.len() == 2,
            write_view(w@[0]) == (join_path(self.path_view(), "cpuset.mems"@), cpuset_text(
                seq![(0u32, 0u32)],
            )),
            write_view(w@[1]) == (join_path(self.path_view(), "cpuset.cpus"@), cpuset_text(
                data@,
            )),
    {
        let mut mems: Vec<(u32, u32)> = Vec::new();
        mems.push((0, 0));
        assert(mems@ =~= seq![(0u32, 0u32)]);
        let mut w: Vec<FileWrite> = Vec::new();
        w.push(
            FileWrite {
                path: file_in(&self.inner, "cpuset.mems"),
                content: format_cpuset(mems.as_slice()),
            },
        );
        w.push(
            FileWrite {
                path: file_in(&self.inner, "cpuset.cpus"),
                content: format_cpuset(data.as_slice()),
            },
        );
        w
    }
}

/// The paths of the hierarchies of a group, in the order cpu, cpuacct,
/// memory, each where its controller is enabled.
pub open spec fn spec_hierarchies(
    name: Seq<char>,
    cpu: bool,
    cpuacct: bool,
    memory: bool,
) -> Seq<Seq<char>> {
    (if cpu {
        seq![hierarchy_path("cpu"@, name)]
    } else {
        Seq::empty()
    }) + (if cpuacct {
        seq![hierarchy_path("cpuacct"@, name)]
    } else {
        Seq::empty()
    }) + (if memory {
        seq![hierarchy_path("memory"@, name)]
    } else {
        Seq::empty()
    })
}

impl Context {
    pub closed spec fn name_view(&self) -> Seq<char> {
        self.name@
    }

    pub closed spec fn cpu_enabled(&self) -> bool {
        self.cpu_controller_enable
    }

    pub closed spec fn cpuacct_enabled(&self) -> bool {
        self.cpuacct_controller_enable
    }

    pub closed spec fn memory_enabled(&self) -> bool {
        self.memory_controller_enable
    }

    pub closed spec fn hierarchies_view(&self) -> Seq<Seq<char>> {
        spec_hierarchies(
            self.name@,
            self.cpu_controller_enable,
            self.cpuacct_controller_enable,
            self.memory_controller_enable,
        )
    }

    /// The mount point of the control group file systems.
    pub fn root() -> (r: &'static str)
        ensures
            r@ == cgroup_root(),
    {
        "/sys/fs/cgroup"
    }

    /// The name of the group.
    pub fn name(&self) -> (n: &str)
        ensures
            n@ == self.name_view(),
    {
        self.name.as_str()
    }

    /// The cpu controller, where it is enabled.
    pub fn cpu_controller(&self) -> (c: Option<CpuController>)
        ensures
            c is Some <==> self.cpu_enabled(),
            c matches Some(c) ==> c.path_view() == hierarchy_path("cpu"@, self.name_view()),
    {
        if self.cpu_controller_enable {
            Some(CpuController::from_ctx(self))
        } else {
            None
        }
    }

    /// The cpuacct controller, where it is enabled.
    pub fn cpuacct_controller(&self) -> (c: Option<CpuAcctController>)
        ensures
            c is Some <==> self.cpuacct_enabled(),
            c matches Some(c) ==> c.path_view() == hierarchy_path("cpuacct"@, self.name_view()),
    {
        if self.cpuacct_controller_enable {
            Some(CpuAcctController::from_ctx(self))
        } else {
            None
        }
    }

    /// The memory controller, where it is enabled.
    pub fn memory_controller(&self) -> (c: Option<MemoryController>)
        ensures
            c is Some <==> self.memory_enabled(),
            c matches Some(c) ==> c.path_view() == hierarchy_path("memory"@, self.name_view()),
    {
        if self.memory_controller_enable {
            Some(MemoryController::from_ctx(self))
        } else {
            None
        }
    }

    /// The directories of the group, one per enabled controller.
    pub fn hierarchies(&self) -> (h: Vec<String>)
        ensures
            views_of_strings(h@) == self.hierarchies_view(),
    {
        let mut h: Vec<String> = Vec::new();
        if self.cpu_controller_enable {
            h.push(hierarchy_path_str("cpu", self.name.as_str()));
        }
        if self.cpuacct_controller_enable {
            h.push(hierarchy_path_str("cpuacct", self.name.as_str()));
        }
        if self.memory_controller_enable {
            h.push(hierarchy_path_str("memory", self.name.as_str()));
        }
        assert(views_of_strings(h@) =~= self.hierarchies_view());
        h
    }

    /// What adds the process `pid` to the group: its number written to
    /// `cgroup.procs` in every hierarchy.
    pub fn add_process(&self, pid: i32) -> (w: Vec<FileWrite>)
        ensures
            w@.len() == self.hierarchies_view().len(),
            forall|k: int|
                0 <= k < w@.len() ==> write_view(#[trigger] w@[k]) == (join_path(
                    self.hierarchies_view()[k],
                    "cgroup.procs"@,
                ), signed_decimal(pid as int)),
    {
        self.write_to_each("cgroup.procs", pid)
    }

    /// What adds the thread `pid` to the group: its number written to
    /// `tasks` in every hierarchy.
    pub fn add_task(&self, pid: i32) -> (w: Vec<FileWrite>)
        ensures
            w@.len() == self.hierarchies_view().len(),
            forall|k: int|
                0 <= k < w@.len() ==> write_view(#[trigger] w@[k]) == (join_path(
                    self.hierarchies_view()[k],
                    "tasks"@,
                ), signed_decimal(pid as int)),
    {
        self.write_to_each("tasks", pid)
    }

    fn write_to_each(&self, file: &str, pid: i32) -> (w: Vec<FileWrite>)
        ensures
            w@.len() == self.hierarchies_view().len(),
            forall|k: int|
                0 <= k < w@.len() ==> write_view(#[trigger] w@[k]) == (join_path(
                    self.hierarchies_view()[k],
                    file@,
                ), signed_decimal(pid as int)),
    {
        let dirs = self.hierarchies();
        let mut w: Vec<FileWrite> = Vec::new();
        let mut k: usize = 0;
        while k < dirs.len()
            invariant
                k <= dirs@.len(),
                views_of_strings(dirs@) == self.hierarchies_view(),
                w@.len() == k,
                forall|j: int|
                    0 <= j < k ==> write_view(#[trigger] w@[j]) == (join_path(
                        self.hierarchies_view()[j],
                        file@,
                    ), signed_decimal(pid as int)),
            decreases dirs@.len() - k,
        {
            assert(views_of_strings(dirs@)[k as int] == dirs@[k as int]@);
            w.push(
                FileWrite {
                    path: join_path_str(dirs[k].as_str(), file),
                    content: signed_decimal_string(pid as i64),
                },
            );
            k = k + 1;
        }
        w
    }
}

pub open spec fn views_of_strings(v: Seq<String>) -> Seq<Seq<char>> {
    v.map_values(|s: String| s@)
}

/// Builds a control group: its name, drawn at random where none is given,
/// and the controllers it uses.
pub struct Builder {
    name: Option<String>,
    cpu_controller: bool,
    cpuacct_controller: bool,
    memory_controller: bool,
}

impl Builder {
    pub closed spec fn name_view(&self) -> Option<Seq<char>> {
        match self.name {
            Some(n) => Some(n@),
            None => None,
        }
    }

    pub closed spec fn flags(&self) -> (bool, bool, bool) {
        (self.cpu_controller, self.cpuacct_controller, self.memory_controller)
    }

    /// A builder with every controller and no name.
    pub fn new() -> (b: Builder)
        ensures
            b.name_view() is None,
            b.flags() == (true, true, true),
    {
        Builder::default()
    }

    pub fn name(self, name: &str) -> (b: Builder)
        ensures
            b.name_view() == Some(name@),
            b.flags() == self.flags(),
    {
        Builder { name: Some(String::from_str(name)), ..self }
    }

    pub fn cpu_controller(self, flag: bool) -> (b: Builder)
        ensures
            b.name_view() == self.name_view(),
            b.flags() == (flag, self.flags().1, self.flags().2),
    {
        Builder { cpu_controller: flag, ..self }
    }

    pub fn cpuacct_controller(self, flag: bool) -> (b: Builder)
        ensures
            b.name_view() == self.name_view(),
            b.flags() == (self.flags().0, flag, self.flags().2),
    {
        Builder { cpuacct_controller: flag, ..self }
    }

    pub fn memory_controller(self, flag: bool) -> (b: Builder)
        ensures
            b.name_view() == self.name_view(),
            b.flags() == (self.flags().0, self.flags().1, flag),
    {
        Builder { memory_controller: flag, ..self }
    }

    /// The group, named by the builder or else by the hexadecimal numerals
    /// of `timestamp` and `salt` one after the other.
    pub fn build_with_salt(self, timestamp: u64, salt: u64) -> (c: Context)
        ensures
            c.name_view() == match self.name_view() {
                Some(n) => n,
                None => hex(timestamp as nat) + hex(salt as nat),
            },
            (c.cpu_enabled(), c.cpuacct_enabled(), c.memory_enabled()) == self.flags(),
    {
        let name = match self.name {
            Some(name) => name,
            None => {
                let mut n = hex_string(timestamp as u128);
                let t = hex_string(salt as u128);
                append_str(&mut n, t.as_str());
                n
            },
        };
        Context {
            name,
            cpu_controller_enable: self.cpu_controller,
            cpuacct_controller_enable: self.cpuacct_controller,
            memory_controller_enable: self.memory_controller,
        }
    }

    /// The group, named by the builder or else by the hexadecimal numerals
    /// of `timestamp` (nanoseconds since the Unix epoch) and of a random
    /// salt. Its directories are still to be made.
    pub fn build(self, timestamp: u64) -> (c: Context)
        ensures
            self.name_view() matches Some(n) ==> c.name_view() == n,
            self.name_view() is None ==> exists|salt: u64|
                c.name_view() == hex(timestamp as nat) + hex(salt as nat),
            (c.cpu_enabled(), c.cpuacct_enabled(), c.memory_enabled()) == self.flags(),
    {
        let salt = random_u64();
        let c = self.build_with_salt(timestamp, salt);
        assert(self.name_view() is None ==> c.name_view() == hex(timestamp as nat) + hex(salt as nat));
        c
    }
}

impl Default for Builder {
    fn default() -> (b: Builder)
        ensures
            b.name_view() is None,
            b.flags() == (true, true, true),
    {
        Builder { name: None, cpu_controller: true, cpuacct_controller: true, memory_controller: true }
    }
}

/// One line of `cpuacct.usage_all`: the CPU, then its user and system time
/// in nanoseconds; `None` where the line holds fewer than three words or a
/// word is no number.
pub open spec fn usage_row(line: Seq<char>) -> Option<(usize, u64, u64)> {
    let w = words(line);
    if w.len() >= 3 && parse_unsigned(w[0], usize::MAX as nat) is Some && parse_unsigned(
        w[1],
        u64::MAX as nat,
    ) is Some && parse_unsigned(w[2], u64::MAX as nat) is Some {
        Some(
            (
                parse_unsigned(w[0], usize::MAX as nat)->0 as usize,
                parse_unsigned(w[1], u64::MAX as nat)->0 as u64,
                parse_unsigned(w[2], u64::MAX as nat)->0 as u64,
            ),
        )
    } else {
        None
    }
}

/// The lines of `cpuacct.usage_all` after its heading.
pub open spec fn usage_lines(text: Seq<char>) -> Seq<Seq<char>> {
    if lines(text).len() == 0 {
        Seq::empty()
    } else {
        lines(text).skip(1)
    }
}

/// What `cpuacct.usage_all` holds: one row per line after the heading;
/// `None` where a line is no row.
pub open spec fn spec_usage_all(text: Seq<char>) -> Option<Seq<(usize, u64, u64)>> {
    let ls = usage_lines(text);
    if forall|k: int| 0 <= k < ls.len() ==> (#[trigger] usage_row(ls[k])) is Some {
        Some(Seq::new(ls.len(), |k: int| usage_row(ls[k])->0))
    } else {
        None
    }
}

/// The numbers of a file of white-space separated numbers; `None` where a
/// word is no number.
pub open spec fn spec_number_list(text: Seq<char>) -> Option<Seq<u64>> {
    let w = words(text);
    if forall|k: int| 0 <= k < w.len() ==> (#[trigger] parse_unsigned(w[k], u64::MAX as nat)) is Some {
        Some(Seq::new(w.len(), |k: int| parse_unsigned(w[k], u64::MAX as nat)->0 as u64))
    } else {
        None
    }
}

/// Reads `cpuacct.usage`, `cpuacct.usage_sys` or `cpuacct.usage_user`:
/// nanoseconds.
pub fn parse_usage(text: &str) -> (r: Option<u64>)
    ensures
        match r {
            Some(v) => spec_parse_number(text@, u64::MAX as nat) == Some(v as nat),
            None => spec_parse_number(text@, u64::MAX as nat) is None,
        },
{
    parse_u64(trim(text))
}

/// Reads a file that holds one count, such as `memory.usage_in_bytes`.
pub fn parse_count(text: &str) -> (r: Option<usize>)
    ensures
        match r {
            Some(v) => spec_parse_number(text@, usize::MAX as nat) == Some(v as nat),
            None => spec_parse_number(text@, usize::MAX as nat) is None,
        },
{
    parse_usize(trim(text))
}

/// Reads `cpuacct.usage_percpu` and its kin: nanoseconds per CPU.
pub fn parse_usage_percpu(text: &str) -> (r: Option<Vec<u64>>)
    ensures
        match r {
            Some(v) => spec_number_list(text@) == Some(v@),
            None => spec_number_list(text@) is None,
        },
{
    let w = split_whitespace(text);
    let ghost wv = words(text@);
    let mut out: Vec<u64> = Vec::new();
    let mut k: usize = 0;
    while k < w.len()
        invariant
            k <= w@.len(),
            views(w@) == wv,
            wv == words(text@),
            out@.len() == k,
            forall|j: int|
                0 <= j < k ==> parse_unsigned(#[trigger] wv[j], u64::MAX as nat) == Some(
                    out@[j] as nat,
                ),
        decreases w@.len() - k,
    {
        assert(wv[k as int] == w@[k as int]@);
        match parse_u64(w[k]) {
            Some(v) => out.push(v),
            None => {
                return None;
            },
        }
        k = k + 1;
    }
    assert(out@ =~= Seq::new(wv.len(), |j: int| parse_unsigned(wv[j], u64::MAX as nat)->0 as u64));
    Some(out)
}

/// Reads `cpuacct.usage_all`: per CPU, its user and system time.
pub fn parse_usage_all(text: &str) -> (r: Option<Vec<(usize, u64, u64)>>)
    ensures
        match r {
            Some(v) => spec_usage_all(text@) == Some(v@),
            None => spec_usage_all(text@) is None,
        },
{
    let ls = split_lines(text);
    let ghost lv = usage_lines(text@);
    let mut out: Vec<(usize, u64, u64)> = Vec::new();
    if ls.len() == 0 {
        assert(out@ =~= Seq::new(lv.len(), |j: int| usage_row(lv[j])->0));
        return Some(out);
    }
    let mut k: usize = 1;
    while k < ls.len()
        invariant
            1 <= k <= ls@.len(),
            views(ls@) == lines(text@),
            lv == views(ls@).skip(1),
            out@.len() == k - 1,
            forall|j: int| 0 <= j < k - 1 ==> usage_row(#[trigger] lv[j]) == Some(out@[j]),
        decreases ls@.len() - k,
    {
        let line = ls[k];
        assert(lv[k - 1] == line@);
        let w = split_whitespace(line);
        if w.len() < 3 {
            assert(usage_row(lv[k - 1]) is None);
            return None;
        }
        assert(views(w@)[0] == w@[0]@);
        assert(views(w@)[1] == w@[1]@);
        assert(views(w@)[2] == w@[2]@);
        let index = parse_usize(w[0]);
        let user = parse_u64(w[1]);
        let sys = parse_u64(w[2]);
        match (index, user, sys) {
            (Some(i), Some(u), Some(s)) => {
                out.push((i, u, s));
            },
            _ => {
                assert(usage_row(lv[k - 1]) is None);
                return None;
            },
        }
        k = k + 1;
    }
    assert(out@ =~= Seq::new(lv.len(), |j: int| usage_row(lv[j])->0));
    Some(out)
}

/// A decimal numeral reads back, trimmed, as the number it was written
/// from.
proof fn lemma_number_text(n: nat, max: nat)
    requires
        n <= max,
    ensures
        spec_parse_number(decimal(n), max) == Some(n),
{
    crate::text::lemma_decimal_shape(n);
    crate::text::lemma_parse_decimal(n, max);
    let d = decimal(n);
    assert(crate::text::trim_start_ws(d) == d);
    assert(crate::text::trim_end_ws(d) == d);
}

/// Law: what a number file is given to hold reads back as the same number.
pub proof fn lemma_number_file_round_trip(v: usize)
    ensures
        spec_parse_number(decimal(v as nat), usize::MAX as nat) == Some(v as nat),
{
    lemma_number_text(v as nat, usize::MAX as nat);
}

/// Law: a duration written to a CPU time file reads back as its whole
/// microseconds, for every duration whose microseconds fit in 64 bits.
pub proof fn lemma_cpu_time_round_trip(nanos: u128)
    requires
        nanos / 1000 <= u64::MAX,
    ensures
        spec_parse_number(decimal((nanos / 1000) as nat), u64::MAX as nat) matches Some(us) && us
            * 1000 == (nanos / 1000) * 1000,
{
    lemma_number_text((nanos / 1000) as nat, u64::MAX as nat);
}

} // verus!
