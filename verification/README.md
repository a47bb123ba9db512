# ana

The core of an online judge, verified with Verus: the comparison of program
output with answers, the verdicts on test cases, the allocation of CPUs to
judging tasks, the control-group files that limit a run, the reading of the
logs and files that report a run's usage, and the commands that build and
compile submissions.

## Layout

- `src/` is the verified library. Each public function states what it
  returns in its contract; properties that relate several calls are public
  proof functions (`lemma_*`).
  - `lines`, `diff`, `compare`, `text_compare`, `checker`, `comparer`:
    line-by-line comparison of output with answers.
  - `judge`: the judging of one submission as a machine that takes what each
    step gave and decides the report and the next step.
  - `cpuset`: the CPU allocator and the `cpuset.cpus` format. The allocator
    keeps its free CPUs as a `Vec` of runs in increasing order that neither
    overlap nor touch (the invariant `wf`), not as a `BTreeSet` of runs:
    merging a returned run with its neighbours needs the set's `range`
    walked from both ends, and vstd gives `BTreeSet::range` no
    specification. The `BTreeSet` form was not attempted for that reason.
  - `cgroup`, `ana_cgroup`, `launcher`: control-group paths and file
    contents, run verdicts, `lrun` logs.
  - `compiler`, `ana_compiler`, `judge_compile`, `builder`, `language`:
    compiler and build commands.
  - `mtp`, `communicator`: messages between the judge and its server.
  - `seccomp`: system call filter rules.
  - `text`: numerals, parsing, white space and paths.
- `tests/` runs the library on concrete values.
- `app/` is the program around it: argument handling, the TCP server, file
  and process work, and the types that carry serde derives or floats.
