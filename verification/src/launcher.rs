//! Running a program under limits: the verdict that its resource usage and
//! exit status give, and the reading of the log that `lrun` writes.
use vstd::prelude::*;
use crate::plan::{write_view, FileWrite};
use crate::rng::random_u32;
use crate::text::{
    decimal, decimal_string, join_path, join_path_str, str_eq,
    digit_char, parse_i32, parse_signed, parse_u64, parse_unsigned, push_char, split_char,
    split_on, split_whitespace, trim, trim_ws, views, words,
};

verus! {

/// The outcome of running a program under its limits.
#[derive(Debug, Clone, Copy, PartialEq, Eq, Structural)]
pub enum LaunchResult {
    Pass,
    TLE,
    MLE,
    OLE,
    RE,
}

/// What a run used, and how it ended.
#[derive(Debug, Clone, Copy, PartialEq, Eq, Structural)]
pub struct Report {
    pub status: LaunchResult,
    /// Nanoseconds of CPU time.
    pub time: u64,
    /// Bytes.
    pub memory: u64,
}

/// Memory decides first, then time, then the exit status; reaching a limit
/// counts as exceeding it.
pub open spec fn spec_launch_status(
    time_usage: u64,
    memory_usage: u64,
    time_limit: u64,
    memory_limit: u64,
    exit_success: bool,
) -> LaunchResult {
    if memory_usage >= memory_limit {
        LaunchResult::MLE
    } else if time_usage >= time_limit {
        LaunchResult::TLE
    } else if exit_success {
        LaunchResult::Pass
    } else {
        LaunchResult::RE
    }
}

/// The report of a run that used `time_usage` nanoseconds and
/// `memory_usage` bytes under the given limits.
pub fn launch_report(
    time_usage: u64,
    memory_usage: u64,
    time_limit: u64,
    memory_limit: u64,
    exit_success: bool,
) -> (r: Report)
    ensures
        r.status == spec_launch_status(
            time_usage,
            memory_usage,
            time_limit,
            memory_limit,
            exit_success,
        ),
        r.time == time_usage,
        r.memory == memory_usage,
        memory_usage >= memory_limit ==> r.status == LaunchResult::MLE,
        memory_usage < memory_limit && time_usage >= time_limit ==> r.status == LaunchResult::TLE,
        r.status == LaunchResult::RE <==> memory_usage < memory_limit && time_usage < time_limit
            && !exit_success,
        r.status == LaunchResult::Pass <==> memory_usage < memory_limit && time_usage < time_limit
            && exit_success,
        r.status != LaunchResult::OLE,
{
    let status = if memory_usage >= memory_limit {
        LaunchResult::MLE
    } else if time_usage >= time_limit {
        LaunchResult::TLE
    } else if exit_success {
        LaunchResult::Pass
    } else {
        LaunchResult::RE
    };
    Report { status, time: time_usage, memory: memory_usage }
}

/// Law: a run that reached its memory limit is MLE and one that reached
/// only its time limit is TLE, whatever its exit status; a runtime error is
/// reported only for a run that failed within both limits, and a pass only
/// for one that succeeded within them. Limits never give OLE here.
pub proof fn lemma_launch_status_by_limits(
    time_usage: u64,
    memory_usage: u64,
    time_limit: u64,
    memory_limit: u64,
    exit_success: bool,
)
    ensures
        ({
            let s = spec_launch_status(time_usage, memory_usage, time_limit, memory_limit, exit_success);
            &&& memory_usage >= memory_limit ==> s == LaunchResult::MLE
            &&& memory_usage < memory_limit && time_usage >= time_limit ==> s == LaunchResult::TLE
            &&& s == LaunchResult::RE <==> memory_usage < memory_limit && time_usage < time_limit
                && !exit_success
            &&& s == LaunchResult::Pass <==> memory_usage < memory_limit && time_usage < time_limit
                && exit_success
            &&& s != LaunchResult::OLE
        }),
{
}

/// How long after its start a program is killed: its time limit and one
/// hundredth more, in nanoseconds.
pub fn kill_delay(time_limit: u64) -> (d: u64)
    requires
        time_limit + time_limit / 100 <= u64::MAX,
    ensures
        d == time_limit + time_limit / 100,
{
    time_limit + time_limit / 100
}

/// Which limit `lrun` reports as exceeded.
#[derive(Debug, Clone, Copy, PartialEq, Eq, Structural)]
pub enum LrunExceed {
    Pass,
    CpuTime,
    RealTime,
    Memory,
    Output,
}

/// The report of a run under `lrun`, with the output of a passed run.
#[derive(Debug)]
pub enum LaunchReport {
    Pass(String),
    TLE,
    MLE,
    OLE,
    RE,
}

pub open spec fn spec_parse_exceed(token: Seq<char>) -> Option<LrunExceed> {
    if token == "none"@ {
        Some(LrunExceed::Pass)
    } else if token == "CPU_TIME"@ {
        Some(LrunExceed::CpuTime)
    } else if token == "REAL_TIME"@ {
        Some(LrunExceed::RealTime)
    } else if token == "MEMORY"@ {
        Some(LrunExceed::Memory)
    } else if token == "OUTPUT"@ {
        Some(LrunExceed::Output)
    } else {
        None
    }
}

/// The exceeded limit that `lrun` names in its log; `None` for an unknown
/// name.
pub fn parse_exceed(token: &str) -> (r: Option<LrunExceed>)
    ensures
        r == spec_parse_exceed(token@),
{
    if str_eq(token, "none") {
        Some(LrunExceed::Pass)
    } else if str_eq(token, "CPU_TIME") {
        Some(LrunExceed::CpuTime)
    } else if str_eq(token, "REAL_TIME") {
        Some(LrunExceed::RealTime)
    } else if str_eq(token, "MEMORY") {
        Some(LrunExceed::Memory)
    } else if str_eq(token, "OUTPUT") {
        Some(LrunExceed::Output)
    } else {
        None
    }
}

/// The outcome of a run under `lrun`: a passed run must exit with code zero
/// and write UTF-8; a time limit of either kind gives TLE.
pub open spec fn spec_lrun_status(exceed: LrunExceed, exit_code: i32, stdout_is_utf8: bool) -> LaunchResult {
    match exceed {
        LrunExceed::Pass => if exit_code == 0 && stdout_is_utf8 {
            LaunchResult::Pass
        } else {
            LaunchResult::RE
        },
        LrunExceed::CpuTime | LrunExceed::RealTime => LaunchResult::TLE,
        LrunExceed::Memory => LaunchResult::MLE,
        LrunExceed::Output => LaunchResult::OLE,
    }
}

pub fn lrun_status(exceed: LrunExceed, exit_code: i32, stdout_is_utf8: bool) -> (r: LaunchResult)
    ensures
        r == spec_lrun_status(exceed, exit_code, stdout_is_utf8),
        exceed == LrunExceed::Memory ==> r == LaunchResult::MLE,
        exceed == LrunExceed::CpuTime || exceed == LrunExceed::RealTime ==> r == LaunchResult::TLE,
        exceed == LrunExceed::Output ==> r == LaunchResult::OLE,
        r == LaunchResult::Pass <==> exceed == LrunExceed::Pass && exit_code == 0 && stdout_is_utf8,
        r == LaunchResult::RE <==> exceed == LrunExceed::Pass && !(exit_code == 0 && stdout_is_utf8),
{
    match exceed {
        LrunExceed::Pass => if exit_code == 0 && stdout_is_utf8 {
            LaunchResult::Pass
        } else {
            LaunchResult::RE
        },
        LrunExceed::CpuTime | LrunExceed::RealTime => LaunchResult::TLE,
        LrunExceed::Memory => LaunchResult::MLE,
        LrunExceed::Output => LaunchResult::OLE,
    }
}

/// Law: the limit that `lrun` reports exceeded decides the outcome,
/// whatever the exit code; within every limit, a run passes exactly when it
/// exits with code zero and writes UTF-8, and is a runtime error otherwise.
pub proof fn lemma_lrun_status_by_exceed(exceed: LrunExceed, exit_code: i32, stdout_is_utf8: bool)
    ensures
        ({
            let r = spec_lrun_status(exceed, exit_code, stdout_is_utf8);
            &&& exceed == LrunExceed::Memory ==> r == LaunchResult::MLE
            &&& exceed == LrunExceed::CpuTime || exceed == LrunExceed::RealTime ==> r
                == LaunchResult::TLE
            &&& exceed == LrunExceed::Output ==> r == LaunchResult::OLE
            &&& r == LaunchResult::Pass <==> exceed == LrunExceed::Pass && exit_code == 0
                && stdout_is_utf8
            &&& r == LaunchResult::RE <==> exceed == LrunExceed::Pass && !(exit_code == 0
                && stdout_is_utf8)
        }),
{
}

/// The second word of a line, once the line is trimmed.
pub open spec fn second_word(line: Seq<char>) -> Option<Seq<char>> {
    let w = words(trim_ws(line));
    if w.len() >= 2 {
        Some(w[1])
    } else {
        None
    }
}

/// The values of an `lrun` log: the log trimmed and split into lines, the
/// second word of each line; `None` when a line has fewer than two words.
pub open spec fn spec_lrun_fields(log: Seq<char>) -> Option<Seq<Seq<char>>> {
    let ls = split_on(trim_ws(log), '\n');
    if forall|k: int| 0 <= k < ls.len() ==> (#[trigger] second_word(ls[k])) is Some {
        Some(Seq::new(ls.len(), |k: int| second_word(ls[k])->0))
    } else {
        None
    }
}

/// The values of an `lrun` log, one per line.
pub fn lrun_fields(log: &str) -> (r: Option<Vec<&str>>)
    ensures
        match r {
            Some(v) => spec_lrun_fields(log@) == Some(views(v@)),
            None => spec_lrun_fields(log@) is None,
        },
{
    let ls = split_char(trim(log), '\n');
    let ghost lv = split_on(trim_ws(log@), '\n');
    let mut out: Vec<&str> = Vec::new();
    let mut k: usize = 0;
    while k < ls.len()
        invariant
            k <= ls@.len(),
            views(ls@) == lv,
            lv == split_on(trim_ws(log@), '\n'),
            out@.len() == k,
            forall|j: int| 0 <= j < k ==> second_word(#[trigger] lv[j]) == Some(out@[j]@),
        decreases ls@.len() - k,
    {
        assert(lv[k as int] == ls@[k as int]@);
        let w = split_whitespace(trim(ls[k]));
        if w.len() < 2 {
            assert(second_word(lv[k as int]) is None);
            return None;
        }
        assert(views(w@)[1] == w@[1]@);
        out.push(w[1]);
        k = k + 1;
    }
    assert(views(out@) =~= Seq::new(lv.len(), |j: int| second_word(lv[j])->0));
    Some(out)
}

/// What `lrun` reports of a run. The two times are kept as the decimal
/// text of seconds that the log holds.
#[derive(Debug, Clone)]
pub struct LrunReport {
    /// Bytes.
    pub memory: u64,
    pub cpu_time: String,
    pub real_time: String,
    pub signaled: i32,
    pub exit_code: i32,
    pub term_sig: i32,
    pub exceed: LrunExceed,
}

/// A value of the log read as an `i32`.
pub open spec fn lrun_i32(token: Seq<char>) -> Option<int> {
    parse_signed(token, 0x8000_0000, 0x7fff_ffff)
}

/// Whether an `lrun` log can be read: every line has a value, there are at
/// least seven, the memory is a `u64`, the next three after the times are
/// `i32`s, and the seventh names a known limit.
pub open spec fn lrun_log_readable(log: Seq<char>) -> bool {
    match spec_lrun_fields(log) {
        Some(f) => {
            &&& f.len() >= 7
            &&& parse_unsigned(f[0], u64::MAX as nat) is Some
            &&& lrun_i32(f[3]) is Some
            &&& lrun_i32(f[4]) is Some
            &&& lrun_i32(f[5]) is Some
            &&& spec_parse_exceed(f[6]) is Some
        },
        None => false,
    }
}

impl LrunReport {
    /// Reads the log that `lrun` writes: the value of each line in order
    /// gives the memory, the CPU time, the real time, whether the program
    /// was signaled, its exit code, its terminating signal and the limit it
    /// exceeded. `None` exactly when the log cannot be read so.
    pub fn from_log_text(log: &str) -> (r: Option<LrunReport>)
        ensures
            r is Some <==> lrun_log_readable(log@),
            r matches Some(rep) ==> {
                let f = spec_lrun_fields(log@)->0;
                &&& rep.memory as nat == parse_unsigned(f[0], u64::MAX as nat)->0
                &&& rep.cpu_time@ == f[1]
                &&& rep.real_time@ == f[2]
                &&& rep.signaled as int == lrun_i32(f[3])->0
                &&& rep.exit_code as int == lrun_i32(f[4])->0
                &&& rep.term_sig as int == lrun_i32(f[5])->0
                &&& rep.exceed == spec_parse_exceed(f[6])->0
            },
    {
        let f = match lrun_fields(log) {
            Some(f) => f,
            None => return None,
        };
        let ghost fs = spec_lrun_fields(log@)->0;
        if f.len() < 7 {
            return None;
        }
        assert(fs[0] == f@[0]@ && fs[1] == f@[1]@ && fs[2] == f@[2]@ && fs[3] == f@[3]@);
        assert(fs[4] == f@[4]@ && fs[5] == f@[5]@ && fs[6] == f@[6]@);
        let memory = match parse_u64(f[0]) {
            Some(m) => m,
            None => return None,
        };
        let signaled = match parse_i32(f[3]) {
            Some(v) => v,
            None => return None,
        };
        let exit_code = match parse_i32(f[4]) {
            Some(v) => v,
            None => return None,
        };
        let term_sig = match parse_i32(f[5]) {
            Some(v) => v,
            None => return None,
        };
        let exceed = match parse_exceed(f[6]) {
            Some(e) => e,
            None => return None,
        };
        Some(LrunReport {
            memory,
            cpu_time: String::from_str(f[1]),
            real_time: String::from_str(f[2]),
            signaled,
            exit_code,
            term_sig,
            exceed,
        })
    }
}

pub open spec fn pow16(k: nat) -> nat
    decreases k,
{
    if k == 0 {
        1
    } else {
        16 * pow16((k - 1) as nat)
    }
}

/// The name of an `lrun` log file drawn from `rand_num`: its eight
/// hexadecimal digits, lowest first, then `.log`.
pub open spec fn spec_lrun_log_file_name(rand_num: u32) -> Seq<char> {
    Seq::new(8, |k: int| digit_char(((rand_num as nat / pow16(k as nat)) % 16) as int)) + ".log"@
}

pub fn lrun_log_file_name(rand_num: u32) -> (s: String)
    ensures
        s@ == spec_lrun_log_file_name(rand_num),
{
    let mut s = String::new();
    let mut cur = rand_num;
    let mut i: u32 = 0;
    assert(pow16(0) == 1);
    assert(rand_num as nat / 1 == rand_num as nat);
    assert(s@ =~= Seq::new(0, |k: int| digit_char(((rand_num as nat / pow16(k as nat)) % 16) as int)));
    while i < 8
        invariant
            i <= 8,
            cur as nat == rand_num as nat / pow16(i as nat),
            s@ == Seq::new(i as nat, |k: int| digit_char(((rand_num as nat / pow16(k as nat)) % 16) as int)),
        decreases 8 - i,
    {
        let d = cur & 0xf;
        assert(d == cur % 16) by (bit_vector)
            requires
                d == cur & 0xf,
        ;
        let c: char = if d < 10 {
            let b: u8 = 48u8 + (d as u8);
            b as char
        } else {
            let b: u8 = 87u8 + (d as u8);
            b as char
        };
        push_char(&mut s, c);
        let next = cur >> 4;
        assert(next == cur / 16) by (bit_vector)
            requires
                next == cur >> 4,
        ;
        proof {
            let p = pow16(i as nat);
            assert(pow16((i + 1) as nat) == 16 * p);
            assert(p > 0) by {
                lemma_pow16_pos(i as nat);
            }
            vstd::arithmetic::div_mod::lemma_div_denominator(rand_num as int, p as int, 16);
            assert(s@ =~= Seq::new((i + 1) as nat, |k: int| digit_char(((rand_num as nat / pow16(k as nat)) % 16) as int)));
        }
        cur = next;
        i = i + 1;
    }
    let ghost digits = s@;
    push_char(&mut s, '.');
    push_char(&mut s, 'l');
    push_char(&mut s, 'o');
    push_char(&mut s, 'g');
    proof {
        reveal_strlit(".log");
        assert(s@ =~= digits + ".log"@);
    }
    s
}

proof fn lemma_pow16_pos(k: nat)
    ensures
        pow16(k) > 0,
    decreases k,
{
    if k > 0 {
        lemma_pow16_pos((k - 1) as nat);
    }
}

/// The name of a new `lrun` log file, drawn at random.
pub fn random_lrun_log_file_name() -> (s: String)
    ensures
        exists|r: u32| s@ == spec_lrun_log_file_name(r),
{
    let r = random_u32();
    lrun_log_file_name(r)
}

/// Runs a program with a text as its standard input.
pub struct DefaultLauncher {
    executable_file: String,
    input: String,
}

impl DefaultLauncher {
    pub closed spec fn executable_view(&self) -> Seq<char> {
        self.executable_file@
    }

    pub closed spec fn input_view(&self) -> Seq<char> {
        self.input@
    }

    pub fn new(executable_file: &str, input: &str) -> (l: DefaultLauncher)
        ensures
            l.executable_view() == executable_file@,
            l.input_view() == input@,
    {
        DefaultLauncher {
            executable_file: String::from_str(executable_file),
            input: String::from_str(input),
        }
    }

    /// The program to run.
    pub fn executable_file(&self) -> (p: &str)
        ensures
            p@ == self.executable_view(),
    {
        self.executable_file.as_str()
    }

    /// The text given on its standard input.
    pub fn input(&self) -> (t: &str)
        ensures
            t@ == self.input_view(),
    {
        self.input.as_str()
    }
}

/// The control groups that limit one judge, under the groups that the
/// system made for the cpu and memory controllers.
pub struct Cgroup {
    cgroup_cpu_fs: String,
    cgroup_memory_fs: String,
}

impl Cgroup {
    pub closed spec fn cpu_dir(&self) -> Seq<char> {
        self.cgroup_cpu_fs@
    }

    pub closed spec fn memory_dir(&self) -> Seq<char> {
        self.cgroup_memory_fs@
    }

    /// The groups of the judge `judge_id`; their directories are still to
    /// be made.
    pub fn new(judge_id: &str) -> (c: Cgroup)
        ensures
            c.cpu_dir() == join_path(join_path("/sys/fs/cgroup/"@, "cpu"@), judge_id@),
            c.memory_dir() == join_path(join_path("/sys/fs/cgroup/"@, "memory"@), judge_id@),
    {
        let cpu = join_path_str("/sys/fs/cgroup/", "cpu");
        let memory = join_path_str("/sys/fs/cgroup/", "memory");
        Cgroup {
            cgroup_cpu_fs: join_path_str(cpu.as_str(), judge_id),
            cgroup_memory_fs: join_path_str(memory.as_str(), judge_id),
        }
    }

    /// The directories to make, cpu first.
    pub fn dirs(&self) -> (d: (String, String))
        ensures
            d.0@ == self.cpu_dir(),
            d.1@ == self.memory_dir(),
    {
        (self.cgroup_cpu_fs.clone(), self.cgroup_memory_fs.clone())
    }

    /// What limits the groups: `time` microseconds as both CPU period and
    /// quota, and `memory` bytes.
    pub fn limits(&self, time: u64, memory: u64) -> (w: Vec<FileWrite>)
        ensures
            w@.len() == 3,
            write_view(w@[0]) == (join_path(self.cpu_dir(), "cpu.cfs_period_us"@), decimal(time as nat)),
            write_view(w@[1]) == (join_path(self.cpu_dir(), "cpu.cfs_quota_us"@), decimal(time as nat)),
            write_view(w@[2]) == (join_path(self.memory_dir(), "memory.limit_in_bytes"@), decimal(memory as nat)),
    {
        let mut w: Vec<FileWrite> = Vec::new();
        w.push(FileWrite { path: join_path_str(self.cgroup_cpu_fs.as_str(), "cpu.cfs_period_us"), content: decimal_string(time as u128) });
        w.push(FileWrite { path: join_path_str(self.cgroup_cpu_fs.as_str(), "cpu.cfs_quota_us"), content: decimal_string(time as u128) });
        w.push(FileWrite { path: join_path_str(self.cgroup_memory_fs.as_str(), "memory.limit_in_bytes"), content: decimal_string(memory as u128) });
        w
    }

    /// What puts the task into both groups.
    pub fn set_task(&self, task: u32) -> (w: Vec<FileWrite>)
        ensures
            w@.len() == 2,
            write_view(w@[0]) == (join_path(self.cpu_dir(), "tasks"@), decimal(task as nat)),
            write_view(w@[1]) == (join_path(self.memory_dir(), "tasks"@), decimal(task as nat)),
    {
        let mut w: Vec<FileWrite> = Vec::new();
        w.push(FileWrite { path: join_path_str(self.cgroup_cpu_fs.as_str(), "tasks"), content: decimal_string(task as u128) });
        w.push(FileWrite { path: join_path_str(self.cgroup_memory_fs.as_str(), "tasks"), content: decimal_string(task as u128) });
        w
    }

    /// The files that `report` reads: CPU usage, then memory usage.
    pub fn report_files(&self) -> (f: (String, String))
        ensures
            f.0@ == join_path(self.cpu_dir(), "cpuacct.usage"@),
            f.1@ == join_path(self.memory_dir(), "memory.usage_in_bytes"@),
    {
        (
            join_path_str(self.cgroup_cpu_fs.as_str(), "cpuacct.usage"),
            join_path_str(self.cgroup_memory_fs.as_str(), "memory.usage_in_bytes"),
        )
    }
}

} // verus!
