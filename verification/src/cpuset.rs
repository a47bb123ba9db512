//! CPU sets: the allocator that hands out runs of CPUs to judging tasks and
//! takes them back, and the `cpuset.cpus` file format.
use vstd::prelude::*;
use crate::text::{
    decimal, decimal_string, lemma_decimal_shape, lemma_parse_decimal, lemma_split_on_append,
    lemma_split_on_no_sep, parse_u32, parse_unsigned, push_char, split_char, split_on, trim, trim_ws,
    views, contains_char, append_str, trim_start_ws, trim_end_ws,
};

verus! {

/// Why the allocator refused a request.
#[derive(Debug, Clone, Copy, PartialEq, Eq, Structural)]
pub enum Error {
    CpuNotEnough,
    InvalidCpuset,
}

/// The CPUs of the inclusive run `iv`, in increasing order.
pub open spec fn span(iv: (u32, u32)) -> Seq<u32> {
    Seq::new((iv.1 - iv.0 + 1) as nat, |k: int| (iv.0 + k) as u32)
}

/// The CPUs of a list of runs, run after run.
pub open spec fn flat(ivs: Seq<(u32, u32)>) -> Seq<u32>
    decreases ivs.len(),
{
    if ivs.len() == 0 {
        Seq::empty()
    } else {
        flat(ivs.drop_last()) + span(ivs.last())
    }
}

/// Runs that are non-empty, end at or below `bound`, come in increasing
/// order and neither overlap nor touch.
pub open spec fn canonical(ivs: Seq<(u32, u32)>, bound: u32) -> bool {
    &&& forall|k: int| 0 <= k < ivs.len() ==> (#[trigger] ivs[k]).0 <= ivs[k].1 <= bound
    &&& forall|k: int, l: int|
        #![trigger ivs[k], ivs[l]]
        0 <= k < l < ivs.len() ==> ivs[k].1 + 1 < ivs[l].0
}

/// CPU `x` lies in one of the runs.
pub open spec fn covers(ivs: Seq<(u32, u32)>, x: u32) -> bool {
    exists|k: int| 0 <= k < ivs.len() && (#[trigger] ivs[k]).0 <= x <= ivs[k].1
}

/// The set of CPUs that the runs hold.
pub open spec fn cpu_set(ivs: Seq<(u32, u32)>) -> Set<u32> {
    Set::new(|x: u32| covers(ivs, x))
}

/// Two runs share no CPU.
pub open spec fn disjoint(a: (u32, u32), b: (u32, u32)) -> bool {
    a.1 < b.0 || b.1 < a.0
}

pub proof fn lemma_flat_push(ivs: Seq<(u32, u32)>, iv: (u32, u32))
    ensures
        flat(ivs.push(iv)) == flat(ivs) + span(iv),
{
    assert(ivs.push(iv).drop_last() =~= ivs);
}

pub proof fn lemma_flat_add(a: Seq<(u32, u32)>, b: Seq<(u32, u32)>)
    ensures
        flat(a + b) == flat(a) + flat(b),
    decreases b.len(),
{
    if b.len() == 0 {
        assert(a + b =~= a);
        assert(flat(a) + flat(b) =~= flat(a));
    } else {
        lemma_flat_add(a, b.drop_last());
        assert((a + b).drop_last() =~= a + b.drop_last());
        assert((a + b).last() == b.last());
        assert(flat(a + b) =~= flat(a) + flat(b));
    }
}

/// Two touching runs make one.
pub proof fn lemma_span_join(a: u32, b: u32, c: u32)
    requires
        a <= b,
        b < c,
    ensures
        span((a, b)) + span(((b + 1) as u32, c)) == span((a, c)),
{
    assert(span((a, b)) + span(((b + 1) as u32, c)) =~= span((a, c)));
}

/// Every CPU of canonical runs lies between the first start and the last
/// end, and there are no more of them than that range holds.
pub proof fn lemma_flat_range(ivs: Seq<(u32, u32)>, bound: u32)
    requires
        canonical(ivs, bound),
        ivs.len() > 0,
    ensures
        flat(ivs).len() <= ivs.last().1 - ivs[0].0 + 1,
        forall|i: int|
            0 <= i < flat(ivs).len() ==> ivs[0].0 <= #[trigger] flat(ivs)[i] <= ivs.last().1,
        forall|i: int, j: int|
            0 <= i < j < flat(ivs).len() ==> #[trigger] flat(ivs)[i] < #[trigger] flat(ivs)[j],
    decreases ivs.len(),
{
    let d = ivs.drop_last();
    let l = ivs.last();
    assert(ivs[ivs.len() - 1] == l);
    if d.len() == 0 {
        assert(flat(d) =~= Seq::<u32>::empty());
        assert(flat(ivs) =~= span(l));
    } else {
        assert(canonical(d, bound)) by {
            assert forall|k: int, m: int| 0 <= k < m < d.len() implies d[k].1 + 1 < d[m].0 by {
                assert(d[k] == ivs[k] && d[m] == ivs[m]);
            }
            assert forall|k: int| 0 <= k < d.len() implies (#[trigger] d[k]).0 <= d[k].1 <= bound by {
                assert(d[k] == ivs[k]);
            }
        }
        lemma_flat_range(d, bound);
        assert(d[0] == ivs[0]);
        assert(d.last() == ivs[ivs.len() - 2]);
        assert(ivs[ivs.len() - 2].1 + 1 < ivs[ivs.len() - 1].0);
        let f = flat(ivs);
        let fd = flat(d);
        assert(f == fd + span(l));
        assert forall|i: int| 0 <= i < f.len() implies ivs[0].0 <= #[trigger] f[i] <= ivs.last().1 by {
            if i < fd.len() {
                assert(f[i] == fd[i]);
            } else {
                assert(f[i] == span(l)[i - fd.len()]);
            }
        }
        assert forall|i: int, j: int| 0 <= i < j < f.len() implies #[trigger] f[i] < #[trigger] f[j] by {
            if j < fd.len() {
                assert(f[i] == fd[i] && f[j] == fd[j]);
            } else if i < fd.len() {
                assert(f[i] == fd[i]);
                assert(f[j] == span(l)[j - fd.len()]);
            } else {
                assert(f[i] == span(l)[i - fd.len()]);
                assert(f[j] == span(l)[j - fd.len()]);
            }
        }
    }
}

/// The CPUs listed by `flat` are exactly those that the runs cover.
pub proof fn lemma_flat_covers(ivs: Seq<(u32, u32)>, x: u32)
    requires
        forall|k: int| 0 <= k < ivs.len() ==> (#[trigger] ivs[k]).0 <= ivs[k].1,
    ensures
        flat(ivs).contains(x) <==> covers(ivs, x),
    decreases ivs.len(),
{
    if ivs.len() > 0 {
        let d = ivs.drop_last();
        let l = ivs.last();
        assert forall|k: int| 0 <= k < d.len() implies (#[trigger] d[k]).0 <= d[k].1 by {
            assert(d[k] == ivs[k]);
        }
        lemma_flat_covers(d, x);
        let f = flat(ivs);
        let fd = flat(d);
        assert(f == fd + span(l));
        assert(ivs[ivs.len() - 1] == l);
        if covers(ivs, x) {
            let k = choose|k: int| 0 <= k < ivs.len() && (#[trigger] ivs[k]).0 <= x <= ivs[k].1;
            if k < d.len() {
                assert(d[k] == ivs[k]);
                assert(covers(d, x));
                let i = choose|i: int| 0 <= i < fd.len() && fd[i] == x;
                assert(f[i] == x);
            } else {
                let i = x - l.0;
                assert(span(l)[i] == x);
                assert(f[fd.len() + i] == x);
            }
        }
        if f.contains(x) {
            let i = choose|i: int| 0 <= i < f.len() && f[i] == x;
            if i < fd.len() {
                assert(fd[i] == x);
                assert(fd.contains(x));
                let k = choose|k: int| 0 <= k < d.len() && (#[trigger] d[k]).0 <= x <= d[k].1;
                assert(ivs[k] == d[k]);
            } else {
                assert(span(l)[i - fd.len()] == x);
                assert(ivs[ivs.len() - 1].0 <= x <= ivs[ivs.len() - 1].1);
            }
        }
    }
}

pub proof fn lemma_canonical_push(ivs: Seq<(u32, u32)>, iv: (u32, u32), bound: u32)
    requires
        canonical(ivs, bound),
        iv.0 <= iv.1 <= bound,
        ivs.len() > 0 ==> ivs.last().1 + 1 < iv.0,
    ensures
        canonical(ivs.push(iv), bound),
{
    let t = ivs.push(iv);
    assert forall|k: int, m: int| #![trigger t[k], t[m]] 0 <= k < m < t.len() implies t[k].1 + 1
        < t[m].0 by {
        assert(t[k] == ivs[k]);
        if m < ivs.len() {
            assert(t[m] == ivs[m]);
        } else if k < ivs.len() - 1 {
            assert(ivs[k].1 + 1 < ivs[ivs.len() - 1].0);
        }
    }
    assert forall|k: int| 0 <= k < t.len() implies (#[trigger] t[k]).0 <= t[k].1 <= bound by {
        if k < ivs.len() {
            assert(t[k] == ivs[k]);
        }
    }
}

pub proof fn lemma_canonical_take(ivs: Seq<(u32, u32)>, j: int, bound: u32)
    requires
        canonical(ivs, bound),
        0 <= j <= ivs.len(),
    ensures
        canonical(ivs.take(j), bound),
{
    let t = ivs.take(j);
    assert forall|k: int, m: int| #![trigger t[k], t[m]] 0 <= k < m < t.len() implies t[k].1 + 1
        < t[m].0 by {
        assert(t[k] == ivs[k] && t[m] == ivs[m]);
    }
    assert forall|k: int| 0 <= k < t.len() implies (#[trigger] t[k]).0 <= t[k].1 <= bound by {
        assert(t[k] == ivs[k]);
    }
}

pub proof fn lemma_add_contains<A>(a: Seq<A>, b: Seq<A>, x: A)
    ensures
        (a + b).contains(x) <==> a.contains(x) || b.contains(x),
{
    if a.contains(x) {
        let i = choose|i: int| 0 <= i < a.len() && a[i] == x;
        assert((a + b)[i] == x);
    }
    if b.contains(x) {
        let i = choose|i: int| 0 <= i < b.len() && b[i] == x;
        assert((a + b)[a.len() + i] == x);
    }
    if (a + b).contains(x) {
        let i = choose|i: int| 0 <= i < (a + b).len() && (a + b)[i] == x;
        if i < a.len() {
            assert(a[i] == x);
        } else {
            assert(b[i - a.len()] == x);
        }
    }
}

pub proof fn lemma_span_contains(iv: (u32, u32), x: u32)
    requires
        iv.0 <= iv.1,
    ensures
        span(iv).contains(x) <==> iv.0 <= x <= iv.1,
{
    if iv.0 <= x <= iv.1 {
        assert(span(iv)[x - iv.0] == x);
    }
}

pub proof fn lemma_covers_push(ivs: Seq<(u32, u32)>, iv: (u32, u32), x: u32)
    ensures
        covers(ivs.push(iv), x) <==> covers(ivs, x) || iv.0 <= x <= iv.1,
{
    let t = ivs.push(iv);
    if covers(ivs, x) {
        let k = choose|k: int| 0 <= k < ivs.len() && (#[trigger] ivs[k]).0 <= x <= ivs[k].1;
        assert(t[k] == ivs[k]);
    }
    if iv.0 <= x <= iv.1 {
        assert(t[ivs.len() as int] == iv);
    }
    if covers(t, x) {
        let k = choose|k: int| 0 <= k < t.len() && (#[trigger] t[k]).0 <= x <= t[k].1;
        if k < ivs.len() {
            assert(t[k] == ivs[k]);
        }
    }
}

/// Two runs that are not disjoint share a CPU.
pub proof fn lemma_overlap_witness(a: (u32, u32), b: (u32, u32))
    requires
        a.0 <= a.1,
        b.0 <= b.1,
        !disjoint(a, b),
    ensures
        ({
            let x = if a.0 < b.0 {
                b.0
            } else {
                a.0
            };
            a.0 <= x <= a.1 && b.0 <= x <= b.1
        }),
{
}

/// Canonical runs are fixed by the CPUs they hold: two lists of canonical
/// runs with the same CPUs are the same list.
pub proof fn lemma_canonical_unique(r1: Seq<(u32, u32)>, r2: Seq<(u32, u32)>, b1: u32, b2: u32)
    requires
        canonical(r1, b1),
        canonical(r2, b2),
        cpu_set(r1) == cpu_set(r2),
    ensures
        r1 == r2,
    decreases r1.len() + r2.len(),
{
    if r1.len() == 0 || r2.len() == 0 {
        if r1.len() > 0 {
            let x = r1[0].0;
            assert(covers(r1, x));
            assert(cpu_set(r1).contains(x));
            assert(cpu_set(r2).contains(x));
        }
        if r2.len() > 0 {
            let x = r2[0].0;
            assert(covers(r2, x));
            assert(cpu_set(r2).contains(x));
            assert(cpu_set(r1).contains(x));
        }
        assert(r1 =~= r2);
    } else {
        let n1 = r1.len() - 1;
        let n2 = r2.len() - 1;
        let l1 = r1[n1];
        let l2 = r2[n2];
        assert forall|k: int| 0 <= k < n1 implies (#[trigger] r1[k]).1 + 1 < l1.0 by {}
        assert forall|k: int| 0 <= k < n2 implies (#[trigger] r2[k]).1 + 1 < l2.0 by {}
        // The last ends are the largest CPU of the set.
        assert(covers(r1, l1.1));
        assert(cpu_set(r1).contains(l1.1));
        assert(cpu_set(r2).contains(l1.1));
        let k2 = choose|k: int| 0 <= k < r2.len() && (#[trigger] r2[k]).0 <= l1.1 <= r2[k].1;
        assert(l1.1 <= l2.1);
        assert(covers(r2, l2.1));
        assert(cpu_set(r2).contains(l2.1));
        assert(cpu_set(r1).contains(l2.1));
        let k1 = choose|k: int| 0 <= k < r1.len() && (#[trigger] r1[k]).0 <= l2.1 <= r1[k].1;
        assert(l2.1 <= l1.1);
        // The last starts: the CPU just below the later start would lie in
        // the gap before it.
        if l1.0 < l2.0 {
            let y = (l2.0 - 1) as u32;
            assert(covers(r1, y));
            assert(cpu_set(r1).contains(y));
            assert(cpu_set(r2).contains(y));
            let k = choose|k: int| 0 <= k < r2.len() && (#[trigger] r2[k]).0 <= y <= r2[k].1;
            assert(false);
        }
        if l2.0 < l1.0 {
            let y = (l1.0 - 1) as u32;
            assert(covers(r2, y));
            assert(cpu_set(r2).contains(y));
            assert(cpu_set(r1).contains(y));
            let k = choose|k: int| 0 <= k < r1.len() && (#[trigger] r1[k]).0 <= y <= r1[k].1;
            assert(false);
        }
        assert(l1 == l2);
        let d1 = r1.drop_last();
        let d2 = r2.drop_last();
        assert(d1 =~= r1.take(n1));
        assert(d2 =~= r2.take(n2));
        lemma_canonical_take(r1, n1, b1);
        lemma_canonical_take(r2, n2, b2);
        assert forall|x: u32| #[trigger] cpu_set(d1).contains(x) == cpu_set(d2).contains(x) by {
            if covers(d1, x) {
                let k = choose|k: int| 0 <= k < d1.len() && (#[trigger] d1[k]).0 <= x <= d1[k].1;
                assert(r1[k] == d1[k]);
                assert(covers(r1, x));
                assert(cpu_set(r1).contains(x));
                assert(cpu_set(r2).contains(x));
                let j = choose|j: int| 0 <= j < r2.len() && (#[trigger] r2[j]).0 <= x <= r2[j].1;
                assert(j != n2);
                assert(d2[j] == r2[j]);
                assert(covers(d2, x));
            }
            if covers(d2, x) {
                let k = choose|k: int| 0 <= k < d2.len() && (#[trigger] d2[k]).0 <= x <= d2[k].1;
                assert(r2[k] == d2[k]);
                assert(covers(r2, x));
                assert(cpu_set(r2).contains(x));
                assert(cpu_set(r1).contains(x));
                let j = choose|j: int| 0 <= j < r1.len() && (#[trigger] r1[j]).0 <= x <= r1[j].1;
                assert(j != n1);
                assert(d1[j] == r1[j]);
                assert(covers(d1, x));
            }
        }
        assert(cpu_set(d1) =~= cpu_set(d2));
        lemma_canonical_unique(d1, d2, b1, b2);
        assert(r1 =~= d1.push(l1));
        assert(r2 =~= d2.push(l2));
    }
}

/// Canonical runs are fixed by the list of their CPUs.
pub proof fn lemma_canonical_flat_unique(r1: Seq<(u32, u32)>, r2: Seq<(u32, u32)>, b1: u32, b2: u32)
    requires
        canonical(r1, b1),
        canonical(r2, b2),
        flat(r1) == flat(r2),
    ensures
        r1 == r2,
{
    assert forall|x: u32| #[trigger] cpu_set(r1).contains(x) == cpu_set(r2).contains(x) by {
        lemma_flat_covers(r1, x);
        lemma_flat_covers(r2, x);
    }
    assert(cpu_set(r1) =~= cpu_set(r2));
    lemma_canonical_unique(r1, r2, b1, b2);
}

/// A run that is non-empty and ends at or below `bound`.
pub open spec fn valid_run(iv: (u32, u32), bound: u32) -> bool {
    iv.0 <= iv.1 <= bound
}

pub open spec fn all_valid(ivs: Seq<(u32, u32)>, bound: u32) -> bool {
    forall|k: int| 0 <= k < ivs.len() ==> valid_run(#[trigger] ivs[k], bound)
}

/// `num_cpus::get`: the number of CPUs that this process may use, which
/// its documentation promises to be at least one.
#[verifier::external_body]
fn available_cpus() -> (n: usize)
    ensures
        n >= 1,
{
    num_cpus::get()
}

/// Hands out runs of CPUs and takes them back. The available CPUs are kept
/// as canonical runs in increasing order.
#[derive(Debug)]
pub struct CpusetAllocator {
    avail: Vec<(u32, u32)>,
    avail_cpu_num: u32,
    cpu_num: u32,
}

impl CpusetAllocator {
    pub closed spec fn wf(&self) -> bool {
        &&& canonical(self.avail@, self.cpu_num)
        &&& self.avail_cpu_num == flat(self.avail@).len()
        &&& self.cpu_num < u32::MAX
    }

    /// The available CPUs, in increasing order.
    pub closed spec fn cpus(&self) -> Seq<u32> {
        flat(self.avail@)
    }

    /// The available CPUs as runs.
    pub closed spec fn runs(&self) -> Seq<(u32, u32)> {
        self.avail@
    }

    /// The number of CPUs the allocator was made with.
    pub closed spec fn cpu_count(&self) -> u32 {
        self.cpu_num
    }

    /// What a well-formed allocator keeps: its runs are canonical, its
    /// CPUs are those of the runs in strictly increasing order, none above
    /// the CPU count.
    pub proof fn lemma_wf(&self)
        requires
            self.wf(),
        ensures
            canonical(self.runs(), self.cpu_count()),
            self.cpus() == flat(self.runs()),
            forall|i: int, j: int|
                0 <= i < j < self.cpus().len() ==> #[trigger] self.cpus()[i] < #[trigger] self.cpus()[j],
            forall|i: int| 0 <= i < self.cpus().len() ==> #[trigger] self.cpus()[i] <= self.cpu_count(),
            forall|x: u32| #[trigger] self.cpus().contains(x) <==> cpu_set(self.runs()).contains(x),
    {
        let r = self.avail@;
        if r.len() > 0 {
            lemma_flat_range(r, self.cpu_num);
            assert(r[r.len() - 1].1 <= self.cpu_num);
        } else {
            assert(flat(r) =~= Seq::<u32>::empty());
        }
        assert forall|x: u32| #[trigger] self.cpus().contains(x) <==> cpu_set(self.runs()).contains(x) by {
            lemma_flat_covers(r, x);
        }
    }

    /// An allocator of CPUs `0` to `cpus - 1`, all available.
    pub fn with_cpus(cpus: u32) -> (a: CpusetAllocator)
        requires
            1 <= cpus < u32::MAX,
        ensures
            a.wf(),
            a.cpu_count() == cpus,
            a.runs() == seq![(0u32, (cpus - 1) as u32)],
            a.cpus() == span((0u32, (cpus - 1) as u32)),
            a.cpus().len() == cpus,
    {
        let mut avail = Vec::new();
        avail.push((0u32, cpus - 1));
        let a = CpusetAllocator { avail, avail_cpu_num: cpus, cpu_num: cpus };
        let ghost e = Seq::<(u32, u32)>::empty();
        assert(a.avail@ =~= e.push((0u32, (cpus - 1) as u32)));
        proof {
            lemma_flat_push(e, (0u32, (cpus - 1) as u32));
        }
        assert(flat(e) =~= Seq::<u32>::empty());
        assert(flat(a.avail@) =~= span((0u32, (cpus - 1) as u32)));
        a
    }

    /// An allocator of every CPU that this process may use, as `num_cpus`
    /// counts them, all available. A count that does not fit below
    /// `u32::MAX` is taken as `u32::MAX - 1`.
    pub fn new() -> (a: CpusetAllocator)
        ensures
            a.wf(),
            1 <= a.cpu_count() < u32::MAX,
            a.runs() == seq![(0u32, (a.cpu_count() - 1) as u32)],
            a.cpus().len() == a.cpu_count(),
    {
        let n = available_cpus();
        let cpus: u32 = if n < u32::MAX as usize {
            n as u32
        } else {
            u32::MAX - 1
        };
        CpusetAllocator::with_cpus(cpus)
    }

    /// The number of CPUs that are available.
    pub fn available(&self) -> (n: u32)
        requires
            self.wf(),
        ensures
            n == self.cpus().len(),
    {
        self.avail_cpu_num
    }

    /// Takes the `num_of_cpu` lowest available CPUs, as runs in increasing
    /// order; fails, changing nothing, when fewer are available.
    pub fn allocate(&mut self, num_of_cpu: u32) -> (r: Result<Vec<(u32, u32)>, Error>)
        requires
            old(self).wf(),
        ensures
            final(self).wf(),
            final(self).cpu_count() == old(self).cpu_count(),
            old(self).cpus().len() < num_of_cpu ==> r == Err::<Vec<(u32, u32)>, Error>(
                Error::CpuNotEnough,
            ) && final(self).cpus() == old(self).cpus() && final(self).runs() == old(self).runs(),
            old(self).cpus().len() >= num_of_cpu ==> r is Ok,
            r matches Ok(v) ==> {
                &&& flat(v@) == old(self).cpus().take(num_of_cpu as int)
                &&& final(self).cpus() == old(self).cpus().skip(num_of_cpu as int)
                &&& canonical(v@, old(self).cpu_count())
                &&& forall|i: int, j: int|
                    0 <= i < flat(v@).len() && 0 <= j < final(self).cpus().len() ==> #[trigger] flat(
                        v@,
                    )[i] < #[trigger] final(self).cpus()[j]
                &&& cpu_set(final(self).runs()) == cpu_set(old(self).runs()).difference(cpu_set(v@))
            },
    {
        if self.avail_cpu_num < num_of_cpu {
            return Err(Error::CpuNotEnough);
        }
        let ghost pre = *self;
        proof {
            pre.lemma_wf();
        }
        let ghost all = flat(self.avail@);
        let mut taken: Vec<(u32, u32)> = Vec::new();
        let mut rest: Vec<(u32, u32)> = Vec::new();
        let mut remain = num_of_cpu;
        let len = self.avail.len();
        let mut i: usize = 0;
        while i < len
            invariant
                len == self.avail@.len(),
                self.wf(),
                i <= len,
                remain <= num_of_cpu,
                num_of_cpu <= all.len(),
                all == flat(self.avail@),
                ({
                    let pre = flat(self.avail@.take(i as int));
                    let c = num_of_cpu - remain;
                    &&& c <= pre.len()
                    &&& remain > 0 ==> c == pre.len()
                    &&& flat(taken@) == pre.take(c)
                    &&& flat(rest@) == pre.skip(c)
                }),
                canonical(taken@, self.cpu_num),
                canonical(rest@, self.cpu_num),
                taken@.len() > 0 ==> i > 0 && taken@.last().1 <= self.avail@[i - 1].1,
                rest@.len() > 0 ==> i > 0 && rest@.last().1 <= self.avail@[i - 1].1,
            decreases len - i,
        {
            let (s, e) = self.avail[i];
            let ghost pre = flat(self.avail@.take(i as int));
            let ghost c = num_of_cpu - remain;
            assert(self.avail@.take(i + 1).drop_last() =~= self.avail@.take(i as int));
            assert(self.avail@.take(i + 1).last() == self.avail@[i as int]);
            let ghost pre2 = flat(self.avail@.take(i + 1));
            assert(pre2 == pre + span((s, e)));
            let l = e - s + 1;
            let a = if l < remain {
                l
            } else {
                remain
            };
            let ghost old_taken = taken@;
            let ghost old_rest = rest@;
            proof {
                if i > 0 {
                    assert(self.avail@[i - 1].1 + 1 < self.avail@[i as int].0);
                }
                if taken@.len() > 0 {
                    assert forall|k: int| 0 <= k < taken@.len() implies taken@[k].1 + 1 < s by {
                        if k < taken@.len() - 1 {
                            assert(taken@[k].1 + 1 < taken@[taken@.len() - 1].0);
                        }
                    }
                }
                if rest@.len() > 0 {
                    assert forall|k: int| 0 <= k < rest@.len() implies rest@[k].1 + 1 < s by {
                        if k < rest@.len() - 1 {
                            assert(rest@[k].1 + 1 < rest@[rest@.len() - 1].0);
                        }
                    }
                }
            }
            remain = remain - a;
            if a < l {
                rest.push((s + a, e));
                proof {
                    lemma_flat_push(old_rest, ((s + a) as u32, e));
                    assert(span((s, e)).skip(a as int) =~= span(((s + a) as u32, e)));
                    assert(rest@.last() == ((s + a) as u32, e));
                    assert forall|k: int, m: int|
                        #![trigger rest@[k], rest@[m]]
                        0 <= k < m < rest@.len() implies rest@[k].1 + 1 < rest@[m].0 by {
                        if m < rest@.len() - 1 {
                            assert(rest@[k] == old_rest[k] && rest@[m] == old_rest[m]);
                        } else {
                            assert(rest@[k] == old_rest[k]);
                        }
                    }
                    assert forall|k: int| 0 <= k < rest@.len() implies (#[trigger] rest@[k]).0
                        <= rest@[k].1 <= self.cpu_num by {
                        if k < rest@.len() - 1 {
                            assert(rest@[k] == old_rest[k]);
                        }
                    }
                }
            }
            if a > 0 {
                taken.push((s, s + a - 1));
                proof {
                    lemma_flat_push(old_taken, (s, (s + a - 1) as u32));
                    assert(span((s, e)).take(a as int) =~= span((s, (s + a - 1) as u32)));
                    assert(taken@.last() == (s, (s + a - 1) as u32));
                    assert forall|k: int, m: int|
                        #![trigger taken@[k], taken@[m]]
                        0 <= k < m < taken@.len() implies taken@[k].1 + 1 < taken@[m].0 by {
                        if m < taken@.len() - 1 {
                            assert(taken@[k] == old_taken[k] && taken@[m] == old_taken[m]);
                        } else {
                            assert(taken@[k] == old_taken[k]);
                        }
                    }
                    assert forall|k: int| 0 <= k < taken@.len() implies (#[trigger] taken@[k]).0
                        <= taken@[k].1 <= self.cpu_num by {
                        if k < taken@.len() - 1 {
                            assert(taken@[k] == old_taken[k]);
                        }
                    }
                }
            }
            proof {
                let sp = span((s, e));
                let c2 = num_of_cpu - remain;
                if a == 0 {
                    assert(pre2.take(c2) =~= pre.take(c));
                    assert(pre2.skip(c2) =~= pre.skip(c) + sp);
                } else {
                    assert(c == pre.len());
                    assert(pre2.take(c2) =~= pre + sp.take(a as int));
                    assert(pre2.skip(c2) =~= sp.skip(a as int));
                    if a == l {
                        assert(sp.skip(a as int) =~= Seq::<u32>::empty());
                        assert(old_rest.len() == 0 || flat(old_rest).len() == 0);
                        if old_rest.len() > 0 {
                            lemma_flat_range(old_rest, self.cpu_num);
                        }
                        assert(flat(rest@) =~= pre2.skip(c2));
                    } else {
                        if old_rest.len() > 0 {
                            lemma_flat_range(old_rest, self.cpu_num);
                        }
                        assert(flat(old_rest) =~= Seq::<u32>::empty());
                    }
                }
            }
            i = i + 1;
        }
        proof {
            assert(self.avail@.take(len as int) =~= self.avail@);
        }
        let ghost c = num_of_cpu - remain;
        assert(c == num_of_cpu);
        self.avail = rest;
        self.avail_cpu_num = self.avail_cpu_num - num_of_cpu;
        proof {
            let all_cpus = pre.cpus();
            let m = num_of_cpu as int;
            assert forall|i: int, j: int|
                0 <= i < flat(taken@).len() && 0 <= j < self.cpus().len() implies #[trigger] flat(
                taken@,
            )[i] < #[trigger] self.cpus()[j] by {
                assert(flat(taken@)[i] == all_cpus[i]);
                assert(self.cpus()[j] == all_cpus[m + j]);
            }
            assert forall|x: u32| #[trigger] cpu_set(self.avail@).contains(x) == cpu_set(
                pre.avail@,
            ).difference(cpu_set(taken@)).contains(x) by {
                lemma_flat_covers(self.avail@, x);
                lemma_flat_covers(pre.avail@, x);
                lemma_flat_covers(taken@, x);
                lemma_add_contains(all_cpus.take(m), all_cpus.skip(m), x);
                assert(all_cpus.take(m) + all_cpus.skip(m) =~= all_cpus);
                if flat(taken@).contains(x) && self.cpus().contains(x) {
                    let i = choose|i: int| 0 <= i < flat(taken@).len() && flat(taken@)[i] == x;
                    let j = choose|j: int| 0 <= j < self.cpus().len() && self.cpus()[j] == x;
                    assert(flat(taken@)[i] < self.cpus()[j]);
                }
            }
            assert(cpu_set(self.avail@) =~= cpu_set(pre.avail@).difference(cpu_set(taken@)));
        }
        Ok(taken)
    }

    /// Makes the runs of `container` available again, in order; stops at
    /// the first run that is empty or ends past the CPU count, with those
    /// before it released, and reports it.
    pub fn release(&mut self, container: &[(u32, u32)]) -> (r: Result<(), Error>)
        requires
            old(self).wf(),
            forall|k: int, l: int|
                #![trigger container@[k], container@[l]]
                0 <= k < l < container@.len() && all_valid(container@.take(l + 1), old(self).cpu_count())
                    ==> disjoint(container@[k], container@[l]),
            forall|k: int, q: int|
                #![trigger container@[k], old(self).runs()[q]]
                0 <= k < container@.len() && 0 <= q < old(self).runs().len() && all_valid(
                    container@.take(k + 1),
                    old(self).cpu_count(),
                ) ==> disjoint(container@[k], old(self).runs()[q]),
        ensures
            final(self).wf(),
            final(self).cpu_count() == old(self).cpu_count(),
            r is Ok <==> all_valid(container@, old(self).cpu_count()),
            r is Ok ==> cpu_set(final(self).runs()) == cpu_set(old(self).runs()).union(
                cpu_set(container@),
            ),
            r is Err ==> r == Err::<(), Error>(Error::InvalidCpuset) && exists|m: int|
                0 <= m < container@.len() && all_valid(container@.take(m), old(self).cpu_count())
                    && !valid_run(#[trigger] container@[m], old(self).cpu_count()) && cpu_set(
                    final(self).runs(),
                ) == cpu_set(old(self).runs()).union(cpu_set(container@.take(m))),
    {
        let ghost old_runs = self.avail@;
        let ghost c = container@;
        let mut i: usize = 0;
        assert(c.take(0) =~= Seq::<(u32, u32)>::empty());
        assert(cpu_set(self.avail@) =~= cpu_set(old_runs).union(cpu_set(c.take(0))));
        assert forall|k: int, q: int|
            #![trigger c[k], old_runs[q]]
            0 <= k < c.len() && 0 <= q < old_runs.len() && all_valid(c.take(k + 1), self.cpu_num)
                implies disjoint(c[k], old_runs[q]) by {
            assert(old_runs[q] == old(self).runs()[q]);
            assert(c[k] == container@[k]);
        }
        while i < container.len()
            invariant
                self.wf(),
                self.cpu_num == old(self).cpu_count(),
                old_runs == old(self).runs(),
                c == container@,
                i <= c.len(),
                all_valid(c.take(i as int), self.cpu_num),
                cpu_set(self.avail@) == cpu_set(old_runs).union(cpu_set(c.take(i as int))),
                forall|k: int, l: int|
                    #![trigger c[k], c[l]]
                    0 <= k < l < c.len() && all_valid(c.take(l + 1), self.cpu_num) ==> disjoint(
                        c[k],
                        c[l],
                    ),
                forall|k: int, q: int|
                    #![trigger c[k], old_runs[q]]
                    0 <= k < c.len() && 0 <= q < old_runs.len() && all_valid(c.take(k + 1), self.cpu_num)
                        ==> disjoint(c[k], old_runs[q]),
            decreases c.len() - i,
        {
            let (s, e) = container[i];
            if s > e || e > self.cpu_num {
                proof {
                    assert(!all_valid(c, self.cpu_num)) by {
                        assert(c[i as int] == (s, e));
                    }
                    assert(!valid_run(c[i as int], self.cpu_num));
                }
                return Err(Error::InvalidCpuset);
            }
            proof {
                assert(c.take(i + 1) =~= c.take(i as int).push((s, e)));
                assert(all_valid(c.take(i + 1), self.cpu_num)) by {
                    assert forall|j: int| 0 <= j < i + 1 implies valid_run(
                        #[trigger] c.take(i + 1)[j],
                        self.cpu_num,
                    ) by {
                        if j < i {
                            assert(c.take(i + 1)[j] == c.take(i as int)[j]);
                        }
                    }
                }
                assert forall|q: int| 0 <= q < self.avail@.len() implies disjoint(
                    #[trigger] self.avail@[q],
                    (s, e),
                ) by {
                    let r = self.avail@[q];
                    assert(r.0 <= r.1);
                    if !disjoint(r, (s, e)) {
                        lemma_overlap_witness(r, (s, e));
                        let x = if r.0 < s {
                            s
                        } else {
                            r.0
                        };
                        assert(covers(self.avail@, x));
                        assert(cpu_set(self.avail@).contains(x));
                        if covers(old_runs, x) {
                            let q2 = choose|q2: int|
                                0 <= q2 < old_runs.len() && (#[trigger] old_runs[q2]).0 <= x
                                    <= old_runs[q2].1;
                            assert(disjoint(c[i as int], old_runs[q2]));
                        } else {
                            assert(covers(c.take(i as int), x));
                            let k = choose|k: int|
                                0 <= k < c.take(i as int).len() && (#[trigger] c.take(
                                    i as int,
                                )[k]).0 <= x <= c.take(i as int)[k].1;
                            assert(c.take(i as int)[k] == c[k]);
                            assert(disjoint(c[k], c[i as int]));
                        }
                    }
                }
            }
            let ghost before = self.avail@;
            self.union((s, e));
            proof {
                assert forall|x: u32| #[trigger] cpu_set(self.avail@).contains(x) == cpu_set(
                    old_runs,
                ).union(cpu_set(c.take(i + 1))).contains(x) by {
                    assert(covers(self.runs(), x) <==> covers(before, x) || s <= x <= e);
                    assert(self.runs() == self.avail@);
                    lemma_covers_push(c.take(i as int), (s, e), x);
                    assert(cpu_set(before).contains(x) == covers(before, x));
                }
                assert(cpu_set(self.avail@) =~= cpu_set(old_runs).union(cpu_set(c.take(i + 1))));
            }
            i = i + 1;
        }
        assert(c.take(c.len() as int) =~= c);
        Ok(())
    }

    /// Makes the CPUs of `other`, none of which is available, available
    /// again, merging it with the runs it touches.
    #[verifier::rlimit(40)]
    pub fn union(&mut self, other: (u32, u32))
        requires
            old(self).wf(),
            other.0 <= other.1 <= old(self).cpu_count(),
            forall|k: int|
                0 <= k < old(self).runs().len() ==> disjoint(#[trigger] old(self).runs()[k], other),
        ensures
            final(self).wf(),
            final(self).cpu_count() == old(self).cpu_count(),
            exists|p: int|
                {
                    &&& 0 <= p <= old(self).runs().len()
                    &&& forall|k: int| 0 <= k < p ==> (#[trigger] old(self).runs()[k]).1 < other.0
                    &&& forall|k: int|
                        p <= k < old(self).runs().len() ==> other.1 < (
                        #[trigger] old(self).runs()[k]).0
                    &&& final(self).cpus() == flat(old(self).runs().take(p)) + span(other) + flat(
                        old(self).runs().skip(p),
                    )
                },
            forall|x: u32|
                #[trigger] covers(final(self).runs(), x) <==> covers(old(self).runs(), x) || other.0
                    <= x <= other.1,
            final(self).cpus().len() == old(self).cpus().len() + (other.1 - other.0 + 1),
            cpu_set(final(self).runs()) == cpu_set(old(self).runs()).union(
                Set::new(|x: u32| other.0 <= x <= other.1),
            ),
    {
        let s0 = other.0;
        let e0 = other.1;
        let mut cur_s = s0;
        let mut out: Vec<(u32, u32)> = Vec::new();
        let mut placed = false;
        let ghost mut p: int = 0;
        let len = self.avail.len();
        let mut i: usize = 0;
        assert forall|k: int| 0 <= k < len implies disjoint(#[trigger] self.avail@[k], other) by {
            assert(self.avail@[k] == old(self).runs()[k]);
        }
        while i < len
            invariant
                len == self.avail@.len(),
                self.wf(),
                s0 == other.0,
                e0 == other.1,
                s0 <= e0 <= self.cpu_num,
                forall|k: int| 0 <= k < len ==> disjoint(#[trigger] self.avail@[k], other),
                i <= len,
                !placed ==> {
                    &&& forall|k: int| 0 <= k < i ==> (#[trigger] self.avail@[k]).1 < s0
                    &&& forall|k: int| 0 <= k < out@.len() ==> (#[trigger] self.avail@[k]).1 + 1 < s0
                    &&& (cur_s == s0 && out@ == self.avail@.take(i as int)) || (cur_s < s0 && i > 0
                        && out@ == self.avail@.take(i - 1) && cur_s == self.avail@[i - 1].0
                        && self.avail@[i - 1].1 + 1 == s0)
                },
                placed ==> {
                    &&& 0 <= p < i
                    &&& forall|k: int| 0 <= k < p ==> (#[trigger] self.avail@[k]).1 < s0
                    &&& forall|k: int| p <= k < len ==> e0 < (#[trigger] self.avail@[k]).0
                    &&& flat(out@) == flat(self.avail@.take(p)) + span(other) + flat(
                        self.avail@.subrange(p, i as int),
                    )
                    &&& canonical(out@, self.cpu_num)
                    &&& out@.len() > 0
                    &&& out@.last().1 == self.avail@[i - 1].1
                },
            decreases len - i,
        {
            let iv = self.avail[i];
            let ghost old_out = out@;
            assert(disjoint(self.avail@[i as int], other));
            if !placed {
                proof {
                    if cur_s < s0 {
                        assert(self.avail@[i - 1].1 + 1 < self.avail@[i as int].0);
                    }
                }
                if iv.1 + 1 < s0 {
                    out.push(iv);
                    assert(out@ =~= self.avail@.take(i + 1));
                } else if iv.1 + 1 == s0 {
                    cur_s = iv.0;
                } else {
                    proof {
                        lemma_canonical_take(self.avail@, i as int, self.cpu_num);
                        if i > 0 {
                            assert(self.avail@[i - 1].1 + 1 < self.avail@[i as int].0);
                        }
                        assert forall|k: int| i <= k < len implies e0 < (
                        #[trigger] self.avail@[k]).0 by {
                            if k > i {
                                assert(self.avail@[i as int].1 + 1 < self.avail@[k].0);
                            }
                        }
                        assert(flat(self.avail@.take(i + 1)) == flat(self.avail@.take(i as int))
                            + span(iv)) by {
                            assert(self.avail@.take(i + 1) =~= self.avail@.take(i as int).push(iv));
                            lemma_flat_push(self.avail@.take(i as int), iv);
                        }
                        assert(self.avail@.subrange(i as int, i + 1) =~= seq![iv]);
                        lemma_flat_push(Seq::<(u32, u32)>::empty(), iv);
                        assert(Seq::<(u32, u32)>::empty().push(iv) =~= seq![iv]);
                        assert(flat(Seq::<(u32, u32)>::empty()) =~= Seq::<u32>::empty());
                        assert(flat(seq![iv]) =~= span(iv));
                        if cur_s < s0 {
                            let prev = self.avail@[i - 1];
                            assert(self.avail@.take(i as int) =~= self.avail@.take(i - 1).push(prev));
                            lemma_flat_push(self.avail@.take(i - 1), prev);
                            lemma_span_join(prev.0, prev.1, e0);
                        }
                    }
                    if e0 + 1 == iv.0 {
                        out.push((cur_s, iv.1));
                        proof {
                            lemma_span_join(cur_s, e0, iv.1);
                            lemma_flat_push(old_out, (cur_s, iv.1));
                            lemma_canonical_take(self.avail@, old_out.len() as int, self.cpu_num);
                            if old_out.len() > 0 {
                                assert(old_out.last() == self.avail@[old_out.len() - 1]);
                                if cur_s < s0 {
                                    assert(self.avail@[old_out.len() - 1].1 + 1 < self.avail@[i
                                        - 1].0);
                                }
                            }
                            lemma_canonical_push(old_out, (cur_s, iv.1), self.cpu_num);
                        }
                    } else {
                        out.push((cur_s, e0));
                        proof {
                            lemma_flat_push(old_out, (cur_s, e0));
                            lemma_canonical_take(self.avail@, old_out.len() as int, self.cpu_num);
                            if old_out.len() > 0 {
                                assert(old_out.last() == self.avail@[old_out.len() - 1]);
                                if cur_s < s0 {
                                    assert(self.avail@[old_out.len() - 1].1 + 1 < self.avail@[i
                                        - 1].0);
                                }
                            }
                            lemma_canonical_push(old_out, (cur_s, e0), self.cpu_num);
                        }
                        let ghost mid = out@;
                        out.push(iv);
                        proof {
                            lemma_flat_push(mid, iv);
                            lemma_canonical_push(mid, iv, self.cpu_num);
                        }
                    }
                    placed = true;
                    proof {
                        p = i as int;
                    }
                }
            } else {
                out.push(iv);
                proof {
                    assert(self.avail@[i - 1].1 + 1 < self.avail@[i as int].0);
                    lemma_canonical_push(old_out, iv, self.cpu_num);
                    lemma_flat_push(old_out, iv);
                    assert(self.avail@.subrange(p, i + 1) =~= self.avail@.subrange(p, i as int).push(
                        iv,
                    ));
                    lemma_flat_push(self.avail@.subrange(p, i as int), iv);
                }
            }
            i = i + 1;
        }
        if !placed {
            let ghost old_out = out@;
            out.push((cur_s, e0));
            proof {
                p = len as int;
                assert(self.avail@.take(len as int) =~= self.avail@);
                lemma_canonical_take(self.avail@, old_out.len() as int, self.cpu_num);
                if old_out.len() > 0 {
                    assert(old_out.last() == self.avail@[old_out.len() - 1]);
                    if cur_s < s0 {
                        assert(self.avail@[old_out.len() - 1].1 + 1 < self.avail@[i - 1].0);
                    }
                }
                lemma_canonical_push(old_out, (cur_s, e0), self.cpu_num);
                lemma_flat_push(old_out, (cur_s, e0));
                if cur_s < s0 {
                    let prev = self.avail@[i - 1];
                    assert(self.avail@.take(i as int) =~= self.avail@.take(i - 1).push(prev));
                    lemma_flat_push(self.avail@.take(i - 1), prev);
                    lemma_span_join(prev.0, prev.1, e0);
                }
                assert(self.avail@.subrange(p, len as int) =~= Seq::<(u32, u32)>::empty());
                assert(flat(Seq::<(u32, u32)>::empty()) =~= Seq::<u32>::empty());
            }
        }
        proof {
            assert(self.avail@.skip(p) =~= self.avail@.subrange(p, len as int));
            lemma_flat_add(self.avail@.take(p), self.avail@.skip(p));
            assert(self.avail@.take(p) + self.avail@.skip(p) =~= self.avail@);
            lemma_flat_range(out@, self.cpu_num);
        }
        let ghost old_avail = self.avail@;
        assert(forall|k: int| 0 <= k < p ==> (#[trigger] old_avail[k]).1 < other.0);
        assert(forall|k: int| p <= k < old_avail.len() ==> other.1 < (#[trigger] old_avail[k]).0);
        let n = self.avail_cpu_num + (e0 - s0 + 1);
        self.avail = out;
        self.avail_cpu_num = n;
        assert(old(self).runs() == old_avail);
        assert forall|x: u32|
            #[trigger] covers(self.runs(), x) <==> covers(old_avail, x) || other.0 <= x <= other.1 by {
            let a = flat(old_avail.take(p));
            let b = flat(old_avail.skip(p));
            lemma_flat_covers(self.avail@, x);
            lemma_flat_covers(old_avail, x);
            lemma_add_contains(a + span(other), b, x);
            lemma_add_contains(a, span(other), x);
            lemma_add_contains(a, b, x);
            lemma_span_contains(other, x);
            assert(flat(self.avail@) == (a + span(other)) + b);
            assert(flat(old_avail) == a + b) by {
                lemma_flat_add(old_avail.take(p), old_avail.skip(p));
                assert(old_avail.take(p) + old_avail.skip(p) =~= old_avail);
            }
        }
        assert(cpu_set(self.runs()) =~= cpu_set(old_avail).union(
            Set::new(|x: u32| other.0 <= x <= other.1),
        ));
        assert({
            &&& 0 <= p <= old(self).runs().len()
            &&& forall|k: int| 0 <= k < p ==> (#[trigger] old(self).runs()[k]).1 < other.0
            &&& forall|k: int|
                p <= k < old(self).runs().len() ==> other.1 < (#[trigger] old(self).runs()[k]).0
            &&& self.cpus() == flat(old(self).runs().take(p)) + span(other) + flat(
                old(self).runs().skip(p),
            )
        });
    }
}

/// Law: what `allocate` hands out may be released again, and releasing it
/// makes available exactly the CPUs that were available before the
/// allocation. The requirements are what `allocate` ensures of its result.
pub proof fn lemma_allocate_then_release(
    before: CpusetAllocator,
    after: CpusetAllocator,
    taken: Seq<(u32, u32)>,
    n: int,
)
    requires
        before.wf(),
        after.wf(),
        after.cpu_count() == before.cpu_count(),
        0 <= n <= before.cpus().len(),
        flat(taken) == before.cpus().take(n),
        after.cpus() == before.cpus().skip(n),
        canonical(taken, before.cpu_count()),
    ensures
        all_valid(taken, after.cpu_count()),
        forall|k: int, l: int|
            #![trigger taken[k], taken[l]]
            0 <= k < l < taken.len() ==> disjoint(taken[k], taken[l]),
        forall|k: int, q: int|
            #![trigger taken[k], after.runs()[q]]
            0 <= k < taken.len() && 0 <= q < after.runs().len() ==> disjoint(
                taken[k],
                after.runs()[q],
            ),
        cpu_set(after.runs()).union(cpu_set(taken)) == cpu_set(before.runs()),
{
    let b = before.runs();
    let a = after.runs();
    let fb = flat(b);
    assert forall|x: u32| #[trigger] cpu_set(a).union(cpu_set(taken)).contains(x) == cpu_set(
        b,
    ).contains(x) by {
        lemma_flat_covers(b, x);
        lemma_flat_covers(a, x);
        lemma_flat_covers(taken, x);
        lemma_add_contains(fb.take(n), fb.skip(n), x);
        assert(fb.take(n) + fb.skip(n) =~= fb);
    }
    assert(cpu_set(a).union(cpu_set(taken)) =~= cpu_set(b));
    assert forall|k: int, q: int|
        #![trigger taken[k], a[q]]
        0 <= k < taken.len() && 0 <= q < a.len() implies disjoint(taken[k], a[q]) by {
        if !disjoint(taken[k], a[q]) {
            lemma_overlap_witness(taken[k], a[q]);
            let x = if taken[k].0 < a[q].0 {
                a[q].0
            } else {
                taken[k].0
            };
            assert(covers(taken, x));
            assert(covers(a, x));
            lemma_flat_covers(a, x);
            lemma_flat_covers(taken, x);
            let i = choose|i: int| 0 <= i < fb.take(n).len() && fb.take(n)[i] == x;
            let j = choose|j: int| 0 <= j < fb.skip(n).len() && fb.skip(n)[j] == x;
            assert(fb[i] == x);
            assert(fb[n + j] == x);
            if b.len() > 0 {
                lemma_flat_range(b, before.cpu_count());
                assert(fb[i] < fb[n + j]);
            }
        }
    }
}

/// Law: releasing what `allocate` handed out gives back the allocator's
/// available runs exactly as they were before the allocation, and so the
/// same available CPUs and the same count. The requirements are what
/// `allocate` ensures of its result and what a successful `release` ensures.
pub proof fn lemma_release_restores(
    before: CpusetAllocator,
    after: CpusetAllocator,
    released: CpusetAllocator,
    taken: Seq<(u32, u32)>,
    n: int,
)
    requires
        before.wf(),
        after.wf(),
        released.wf(),
        after.cpu_count() == before.cpu_count(),
        released.cpu_count() == after.cpu_count(),
        0 <= n <= before.cpus().len(),
        flat(taken) == before.cpus().take(n),
        after.cpus() == before.cpus().skip(n),
        canonical(taken, before.cpu_count()),
        cpu_set(released.runs()) == cpu_set(after.runs()).union(cpu_set(taken)),
    ensures
        released.runs() == before.runs(),
        released.cpus() == before.cpus(),
        released.cpus().len() == before.cpus().len(),
{
    lemma_allocate_then_release(before, after, taken, n);
    before.lemma_wf();
    released.lemma_wf();
    lemma_canonical_unique(released.runs(), before.runs(), released.cpu_count(), before.cpu_count());
}

/// How one run is written in `cpuset.cpus`: `a` alone, or `a-b`.
pub open spec fn run_text(iv: (u32, u32)) -> Seq<char> {
    if iv.0 == iv.1 {
        decimal(iv.0 as nat)
    } else {
        decimal(iv.0 as nat) + seq!['-'] + decimal(iv.1 as nat)
    }
}

/// How runs are written in `cpuset.cpus`: their texts joined by commas.
pub open spec fn cpuset_text(ivs: Seq<(u32, u32)>) -> Seq<char>
    decreases ivs.len(),
{
    if ivs.len() == 0 {
        Seq::empty()
    } else if ivs.len() == 1 {
        run_text(ivs[0])
    } else {
        cpuset_text(ivs.drop_last()) + seq![','] + run_text(ivs.last())
    }
}

/// How one comma-separated piece of `cpuset.cpus` is read: with a `-`, every
/// `-`-separated part must be a number and the first two give the run;
/// without, the number is a run of one CPU.
pub open spec fn parse_run(piece: Seq<char>) -> Option<(u32, u32)> {
    if piece.contains('-') {
        let parts = split_on(piece, '-');
        if parts.len() >= 2 && forall|k: int|
            0 <= k < parts.len() ==> (#[trigger] parse_unsigned(parts[k], u32::MAX as nat)) is Some {
            Some(
                (
                    parse_unsigned(parts[0], u32::MAX as nat)->0 as u32,
                    parse_unsigned(parts[1], u32::MAX as nat)->0 as u32,
                ),
            )
        } else {
            None
        }
    } else {
        match parse_unsigned(piece, u32::MAX as nat) {
            Some(v) => Some((v as u32, v as u32)),
            None => None,
        }
    }
}

/// How `cpuset.cpus` is read: trimmed, split at commas, every piece a run.
pub open spec fn parse_cpuset_text(text: Seq<char>) -> Option<Seq<(u32, u32)>> {
    let pieces = split_on(trim_ws(text), ',');
    if forall|k: int| 0 <= k < pieces.len() ==> (#[trigger] parse_run(pieces[k])) is Some {
        Some(Seq::new(pieces.len(), |k: int| parse_run(pieces[k])->0))
    } else {
        None
    }
}

fn run_string(iv: (u32, u32)) -> (s: String)
    ensures
        s@ == run_text(iv),
{
    let mut s = decimal_string(iv.0 as u128);
    if iv.0 != iv.1 {
        push_char(&mut s, '-');
        let t = decimal_string(iv.1 as u128);
        append_str(&mut s, t.as_str());
    }
    s
}

/// The text of runs as `cpuset.cpus` takes it.
pub fn format_cpuset(runs: &[(u32, u32)]) -> (s: String)
    ensures
        s@ == cpuset_text(runs@),
{
    let mut s = String::new();
    let mut i: usize = 0;
    assert(runs@.take(0) =~= Seq::<(u32, u32)>::empty());
    while i < runs.len()
        invariant
            i <= runs@.len(),
            s@ == cpuset_text(runs@.take(i as int)),
        decreases runs@.len() - i,
    {
        let t = run_string(runs[i]);
        let ghost pre = runs@.take(i as int);
        let ghost next = runs@.take(i + 1);
        assert(next.drop_last() =~= pre);
        assert(next.last() == runs@[i as int]);
        if i > 0 {
            push_char(&mut s, ',');
        } else {
            assert(s@ =~= Seq::<char>::empty());
        }
        append_str(&mut s, t.as_str());
        proof {
            if i == 0 {
                assert(s@ =~= run_text(next[0]));
            } else {
                assert(s@ =~= cpuset_text(pre) + seq![','] + run_text(next.last()));
            }
        }
        i = i + 1;
    }
    assert(runs@.take(runs@.len() as int) =~= runs@);
    s
}

/// Reads one comma-separated piece of `cpuset.cpus`.
pub fn parse_run_str(piece: &str) -> (r: Option<(u32, u32)>)
    ensures
        r == parse_run(piece@),
{
    if contains_char(piece, '-') {
        let parts = split_char(piece, '-');
        let mut vals: Vec<u32> = Vec::new();
        let mut k: usize = 0;
        while k < parts.len()
            invariant
                k <= parts@.len(),
                piece@.contains('-'),
                views(parts@) == split_on(piece@, '-'),
                vals@.len() == k,
                forall|j: int|
                    0 <= j < k ==> parse_unsigned(#[trigger] views(parts@)[j], u32::MAX as nat)
                        == Some(vals@[j] as nat),
            decreases parts@.len() - k,
        {
            match parse_u32(parts[k]) {
                Some(v) => {
                    vals.push(v);
                },
                None => {
                    assert(views(parts@)[k as int] == parts@[k as int]@);
                    assert(parse_unsigned(split_on(piece@, '-')[k as int], u32::MAX as nat) is None);
                    return None;
                },
            }
            assert(views(parts@)[k as int] == parts@[k as int]@);
            k = k + 1;
        }
        if vals.len() >= 2 {
            assert(parse_unsigned(views(parts@)[0], u32::MAX as nat) == Some(vals@[0] as nat));
            assert(parse_unsigned(views(parts@)[1], u32::MAX as nat) == Some(vals@[1] as nat));
            Some((vals[0], vals[1]))
        } else {
            None
        }
    } else {
        match parse_u32(piece) {
            Some(v) => Some((v, v)),
            None => None,
        }
    }
}

/// Reads the text of `cpuset.cpus`; `None` where some piece is no run.
pub fn parse_cpuset(text: &str) -> (r: Option<Vec<(u32, u32)>>)
    ensures
        match r {
            Some(v) => parse_cpuset_text(text@) == Some(v@),
            None => parse_cpuset_text(text@) is None,
        },
{
    let t = trim(text);
    let pieces = split_char(t, ',');
    let ghost ps = split_on(trim_ws(text@), ',');
    let mut out: Vec<(u32, u32)> = Vec::new();
    let mut k: usize = 0;
    while k < pieces.len()
        invariant
            k <= pieces@.len(),
            views(pieces@) == ps,
            ps == split_on(trim_ws(text@), ','),
            out@.len() == k,
            forall|j: int| 0 <= j < k ==> parse_run(#[trigger] ps[j]) == Some(out@[j]),
        decreases pieces@.len() - k,
    {
        assert(ps[k as int] == pieces@[k as int]@);
        match parse_run_str(pieces[k]) {
            Some(iv) => {
                out.push(iv);
            },
            None => {
                return None;
            },
        }
        k = k + 1;
    }
    assert(out@ =~= Seq::new(ps.len(), |j: int| parse_run(ps[j])->0));
    Some(out)
}

proof fn lemma_run_text(iv: (u32, u32))
    ensures
        run_text(iv).len() > 0,
        !run_text(iv).contains(','),
        !crate::text::is_white_space(run_text(iv)[0]),
        !crate::text::is_white_space(run_text(iv).last()),
        parse_run(run_text(iv)) == Some(iv),
{
    lemma_decimal_shape(iv.0 as nat);
    lemma_decimal_shape(iv.1 as nat);
    lemma_parse_decimal(iv.0 as nat, u32::MAX as nat);
    lemma_parse_decimal(iv.1 as nat, u32::MAX as nat);
    let a = decimal(iv.0 as nat);
    let b = decimal(iv.1 as nat);
    if iv.0 != iv.1 {
        let t = a + seq!['-'] + b;
        assert(t[0] == a[0]);
        assert(t.last() == b.last());
        assert(t[a.len() as int] == '-');
        assert(!t.contains(',')) by {
            if t.contains(',') {
                let i = choose|i: int| 0 <= i < t.len() && t[i] == ',';
                if i < a.len() {
                    assert(a[i] == ',');
                } else if i > a.len() {
                    assert(b[i - a.len() - 1] == ',');
                }
            }
        }
        lemma_split_on_append(a, b, '-');
        lemma_split_on_no_sep(a, '-');
        let parts = split_on(t, '-');
        assert(parts =~= seq![a, b]);
        assert(forall|k: int|
            0 <= k < parts.len() ==> (#[trigger] parse_unsigned(parts[k], u32::MAX as nat)) is Some)
            by {
            assert forall|k: int| 0 <= k < parts.len() implies (#[trigger] parse_unsigned(
                parts[k],
                u32::MAX as nat,
            )) is Some by {
                if k == 0 {
                    assert(parts[k] == a);
                } else {
                    assert(parts[k] == b);
                }
            }
        }
    }
}

proof fn lemma_cpuset_text_shape(ivs: Seq<(u32, u32)>)
    requires
        ivs.len() > 0,
    ensures
        cpuset_text(ivs).len() > 0,
        !crate::text::is_white_space(cpuset_text(ivs)[0]),
        !crate::text::is_white_space(cpuset_text(ivs).last()),
        split_on(cpuset_text(ivs), ',') == Seq::new(ivs.len(), |k: int| run_text(ivs[k])),
    decreases ivs.len(),
{
    lemma_run_text(ivs.last());
    if ivs.len() == 1 {
        lemma_split_on_no_sep(run_text(ivs[0]), ',');
        assert(Seq::new(ivs.len(), |k: int| run_text(ivs[k])) =~= seq![run_text(ivs[0])]);
    } else {
        let d = ivs.drop_last();
        lemma_cpuset_text_shape(d);
        let pre = cpuset_text(d);
        let t = pre + seq![','] + run_text(ivs.last());
        assert(cpuset_text(ivs) == t);
        assert(t[0] == pre[0]);
        assert(t.last() == run_text(ivs.last()).last());
        lemma_split_on_append(pre, run_text(ivs.last()), ',');
        assert(split_on(t, ',') =~= Seq::new(ivs.len(), |k: int| run_text(ivs[k])));
    }
}

/// Law: the text written for a non-empty list of runs reads back as the
/// same runs.
pub proof fn lemma_cpuset_roundtrip(ivs: Seq<(u32, u32)>)
    requires
        ivs.len() > 0,
    ensures
        parse_cpuset_text(cpuset_text(ivs)) == Some(ivs),
{
    let t = cpuset_text(ivs);
    lemma_cpuset_text_shape(ivs);
    assert(trim_start_ws(t) == t);
    assert(trim_end_ws(t) == t);
    assert(trim_ws(t) == t);
    let pieces = split_on(t, ',');
    assert forall|k: int| 0 <= k < pieces.len() implies parse_run(#[trigger] pieces[k]) == Some(
        ivs[k],
    ) by {
        lemma_run_text(ivs[k]);
    }
    assert(Seq::new(pieces.len(), |k: int| parse_run(pieces[k])->0) =~= ivs);
}

} // verus!
