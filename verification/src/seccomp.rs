//! System call filters: the rules that allow or forbid system calls,
//! written as the comparisons that libseccomp takes.
use vstd::prelude::*;

verus! {

/// A system call, by its number.
pub struct Syscall(pub u32);

impl Syscall {
    /// The number of the system call.
    pub fn number(&self) -> (n: u32)
        ensures
            n == self.0,
    {
        self.0
    }
}

/// What a filter does with a matching call.
#[derive(Debug, Clone, Copy, PartialEq, Eq, Structural)]
pub enum Act {
    Allow,
    Kill,
}

/// How an argument is compared with a value.
#[derive(Debug, Clone, Copy, PartialEq, Eq, Structural)]
pub enum CmpOp {
    NE,
    LT,
    LE,
    EQ,
    GE,
    GT,
}

/// The code of an action in libseccomp: `SCMP_ACT_ALLOW` or `SCMP_ACT_KILL`.
pub open spec fn act_code(act: Act) -> u32 {
    match act {
        Act::Allow => 0x7fff0000u32,
        Act::Kill => 0u32,
    }
}

/// The code of a comparison in libseccomp's `scmp_compare`.
pub open spec fn op_code(op: CmpOp) -> u32 {
    match op {
        CmpOp::NE => 1u32,
        CmpOp::LT => 2u32,
        CmpOp::LE => 3u32,
        CmpOp::EQ => 4u32,
        CmpOp::GE => 5u32,
        CmpOp::GT => 6u32,
    }
}

impl Act {
    pub fn code(&self) -> (c: u32)
        ensures
            c == act_code(*self),
    {
        match self {
            Act::Allow => 0x7fff0000u32,
            Act::Kill => 0u32,
        }
    }
}

impl CmpOp {
    pub fn code(&self) -> (c: u32)
        ensures
            c == op_code(*self),
    {
        match self {
            CmpOp::NE => 1u32,
            CmpOp::LT => 2u32,
            CmpOp::LE => 3u32,
            CmpOp::EQ => 4u32,
            CmpOp::GE => 5u32,
            CmpOp::GT => 6u32,
        }
    }
}

/// One argument comparison, as libseccomp's `scmp_arg_cmp` holds it.
#[derive(Debug, Clone, Copy, PartialEq, Eq, Structural)]
pub struct ArgCmp {
    pub arg: u32,
    pub op: u32,
    pub datum_a: u64,
    pub datum_b: u64,
}

/// A rule of a filter: what to do with a system call whose arguments
/// compare as the pattern says, the i-th comparison on the i-th argument.
pub struct Rule {
    act: Act,
    syscall: Syscall,
    pattern: Vec<(CmpOp, i64)>,
}

impl Rule {
    pub closed spec fn act_view(&self) -> Act {
        self.act
    }

    pub closed spec fn syscall_view(&self) -> u32 {
        self.syscall.0
    }

    pub closed spec fn pattern_view(&self) -> Seq<(CmpOp, i64)> {
        self.pattern@
    }

    /// A rule that applies `act` to `syscall` whatever its arguments.
    pub fn new(act: Act, syscall: Syscall) -> (r: Rule)
        ensures
            r.act_view() == act,
            r.syscall_view() == syscall.0,
            r.pattern_view() == Seq::<(CmpOp, i64)>::empty(),
    {
        Rule { act, syscall, pattern: Vec::new() }
    }

    /// A rule that allows `syscall`.
    pub fn whitelist(syscall: Syscall) -> (r: Rule)
        ensures
            r.act_view() == Act::Allow,
            r.syscall_view() == syscall.0,
            r.pattern_view() == Seq::<(CmpOp, i64)>::empty(),
    {
        Rule::new(Act::Allow, syscall)
    }

    /// A rule that kills on `syscall`.
    pub fn blacklist(syscall: Syscall) -> (r: Rule)
        ensures
            r.act_view() == Act::Kill,
            r.syscall_view() == syscall.0,
            r.pattern_view() == Seq::<(CmpOp, i64)>::empty(),
    {
        Rule::new(Act::Kill, syscall)
    }

    /// Adds a comparison for the next argument.
    pub fn match_arg(&mut self, op: CmpOp, arg: i64)
        ensures
            final(self).act_view() == old(self).act_view(),
            final(self).syscall_view() == old(self).syscall_view(),
            final(self).pattern_view() == old(self).pattern_view().push((op, arg)),
    {
        self.pattern.push((op, arg));
    }

    /// The comparisons of the rule.
    pub fn args(&self) -> (a: &Vec<(CmpOp, i64)>)
        ensures
            a@ == self.pattern_view(),
    {
        &self.pattern
    }

    /// The action of the rule.
    pub fn act(&self) -> (a: Act)
        ensures
            a == self.act_view(),
    {
        self.act
    }

    /// The system call of the rule.
    pub fn syscall(&self) -> (n: u32)
        ensures
            n == self.syscall_view(),
    {
        self.syscall.0
    }

    /// The comparisons as libseccomp takes them: the index of the argument,
    /// the code of the operation, the value as its 64 bits, and zero.
    pub fn to_arg_cmp(&self) -> (v: Vec<ArgCmp>)
        ensures
            v@.len() == self.pattern_view().len(),
            forall|k: int|
                0 <= k < v@.len() ==> #[trigger] v@[k] == (ArgCmp {
                    arg: arg_index(k),
                    op: op_code(self.pattern_view()[k].0),
                    datum_a: value_bits(self.pattern_view()[k].1),
                    datum_b: 0,
                }),
    {
        let mut v: Vec<ArgCmp> = Vec::new();
        let mut k: usize = 0;
        while k < self.pattern.len()
            invariant
                k <= self.pattern@.len(),
                v@.len() == k,
                forall|j: int|
                    0 <= j < k ==> #[trigger] v@[j] == (ArgCmp {
                        arg: arg_index(j),
                        op: op_code(self.pattern@[j].0),
                        datum_a: value_bits(self.pattern@[j].1),
                        datum_b: 0,
                    }),
            decreases self.pattern@.len() - k,
        {
            let (op, value) = self.pattern[k];
            v.push(ArgCmp { arg: index_u32(k), op: op.code(), datum_a: bits_of(value), datum_b: 0 });
            k = k + 1;
        }
        v
    }
}

/// The index of an argument, as libseccomp numbers it.
pub open spec fn arg_index(k: int) -> u32 {
    k as u32
}

/// The 64 bits of a signed value.
pub open spec fn value_bits(v: i64) -> u64 {
    v as u64
}

fn index_u32(k: usize) -> (r: u32)
    ensures
        r == arg_index(k as int),
{
    k as u32
}

fn bits_of(v: i64) -> (r: u64)
    ensures
        r == value_bits(v),
{
    v as u64
}

/// A filter: the action for calls that no rule matches, and its rules.
pub struct Context {
    default_act: Act,
    rules: Vec<Rule>,
}

impl Context {
    pub closed spec fn default_act_view(&self) -> Act {
        self.default_act
    }

    pub closed spec fn rules_view(&self) -> Seq<Rule> {
        self.rules@
    }

    /// A filter with no rule whose default action is `act`.
    pub fn new(act: Act) -> (c: Context)
        ensures
            c.default_act_view() == act,
            c.rules_view() == Seq::<Rule>::empty(),
    {
        Context { default_act: act, rules: Vec::new() }
    }

    /// Adds a rule.
    pub fn add_rule(&mut self, rule: Rule)
        ensures
            final(self).default_act_view() == old(self).default_act_view(),
            final(self).rules_view() == old(self).rules_view().push(rule),
    {
        self.rules.push(rule);
    }

    /// Drops every rule and takes a new default action.
    pub fn reset(&mut self, default_act: Act)
        ensures
            final(self).default_act_view() == default_act,
            final(self).rules_view() == Seq::<Rule>::empty(),
    {
        self.default_act = default_act;
        self.rules = Vec::new();
    }

    /// The default action.
    pub fn default_act(&self) -> (a: Act)
        ensures
            a == self.default_act_view(),
    {
        self.default_act
    }

    /// The rules, in the order they were added.
    pub fn rules(&self) -> (r: &Vec<Rule>)
        ensures
            r@ == self.rules_view(),
    {
        &self.rules
    }
}

impl Default for Context {
    /// A filter with no rule that kills on every call.
    fn default() -> (c: Context)
        ensures
            c.default_act_view() == Act::Kill,
            c.rules_view() == Seq::<Rule>::empty(),
    {
        Context::new(Act::Kill)
    }
}

} // verus!
