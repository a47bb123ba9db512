//! Ana: the decision and text-processing core of an online judge.
pub mod lines;
pub mod text;
pub mod cpuset;
pub mod judge;
pub mod launcher;
pub mod diff;
pub mod compare;
pub mod text_compare;
pub mod checker;
pub mod comparer;
pub mod plan;
pub mod cgroup;
pub mod rng;
pub mod ana_cgroup;
pub mod mtp;
pub mod compiler;
pub mod ana_compiler;
pub mod judge_compile;
pub mod language;
pub mod builder;
pub mod communicator;
pub mod seccomp;
