//! Line-by-line comparison of program output against an expected answer.
//!
//! A text is read the way `BufRead::read_until(b'\n', ..)` reads it: as a
//! sequence of chunks, each running up to and including a newline byte, the
//! last one possibly without it.
use vstd::prelude::*;

verus! {

/// A class of bytes that may be stripped from the end of a line.
#[derive(Clone, Copy, Debug, PartialEq, Eq)]
pub enum Trailing {
    Space,
    Newline,
    SpaceOrNewline,
    AsciiWhitespace,
}

pub open spec fn in_class(class: Trailing, b: u8) -> bool {
    match class {
        Trailing::Space => b == 0x20u8,
        Trailing::Newline => b == 0x0au8,
        Trailing::SpaceOrNewline => b == 0x20u8 || b == 0x0au8,
        Trailing::AsciiWhitespace => b == 0x20u8 || b == 0x09u8 || b == 0x0au8 || b == 0x0cu8
            || b == 0x0du8,
    }
}

/// `s` with every trailing byte of `class` removed.
pub open spec fn trim_end(s: Seq<u8>, class: Trailing) -> Seq<u8>
    decreases s.len(),
{
    if s.len() > 0 && in_class(class, s.last()) {
        trim_end(s.drop_last(), class)
    } else {
        s
    }
}

/// `s` without its final newline, if it has one.
pub open spec fn drop_newline(s: Seq<u8>) -> Seq<u8> {
    if s.len() > 0 && s.last() == 0x0au8 {
        s.drop_last()
    } else {
        s
    }
}

/// How a chunk is turned into the line that is compared.
#[derive(Clone, Copy, Debug, PartialEq, Eq)]
pub enum LineNorm {
    /// The chunk as read, newline included.
    Keep,
    /// The chunk without its newline.
    DropNewline,
    /// The chunk without its newline and without trailing spaces.
    DropNewlineTrimSpaces,
    /// The chunk without any trailing run of spaces and newlines.
    TrimSpacesAndNewlines,
    /// The chunk without any trailing ASCII whitespace.
    TrimAsciiWhitespace,
}

pub open spec fn normalize(norm: LineNorm, line: Seq<u8>) -> Seq<u8> {
    match norm {
        LineNorm::Keep => line,
        LineNorm::DropNewline => drop_newline(line),
        LineNorm::DropNewlineTrimSpaces => trim_end(drop_newline(line), Trailing::Space),
        LineNorm::TrimSpacesAndNewlines => trim_end(line, Trailing::SpaceOrNewline),
        LineNorm::TrimAsciiWhitespace => trim_end(line, Trailing::AsciiWhitespace),
    }
}

/// Whether a chunk counts as an empty line for the rule on missing lines at
/// the end: its normalized form is empty, or, where the chunk is compared
/// as read, it holds nothing but its newline.
pub open spec fn blank_line(norm: LineNorm, line: Seq<u8>) -> bool {
    match norm {
        LineNorm::Keep => drop_newline(line).len() == 0,
        _ => normalize(norm, line).len() == 0,
    }
}

/// Index of the first newline of `s` at or after `i`, or `s.len()` if none.
pub open spec fn newline_from(s: Seq<u8>, i: int) -> int
    decreases s.len() - i,
{
    if i >= s.len() {
        s.len() as int
    } else if s[i] == 0x0au8 {
        i
    } else {
        newline_from(s, i + 1)
    }
}

pub proof fn lemma_newline_from_bounds(s: Seq<u8>, i: int)
    requires
        0 <= i,
    ensures
        i <= newline_from(s, i) <= s.len() || (i > s.len() && newline_from(s, i) == s.len()),
        i < s.len() ==> i <= newline_from(s, i) <= s.len(),
        newline_from(s, i) < s.len() ==> s[newline_from(s, i)] == 0x0au8,
        forall|k: int| i <= k < newline_from(s, i) ==> s[k] != 0x0au8,
    decreases s.len() - i,
{
    if i < s.len() && s[i] != 0x0au8 {
        lemma_newline_from_bounds(s, i + 1);
    }
}

/// The chunks of `s` that start at or after position `i`.
pub open spec fn chunks_from(s: Seq<u8>, i: int) -> Seq<Seq<u8>>
    decreases s.len() - i,
{
    if i < 0 || i >= s.len() {
        Seq::empty()
    } else {
        let j = newline_from(s, i);
        proof {
            lemma_newline_from_bounds(s, i);
        }
        if j < s.len() {
            seq![s.subrange(i, j + 1)] + chunks_from(s, j + 1)
        } else {
            seq![s.subrange(i, s.len() as int)]
        }
    }
}

/// The chunks that successive `read_until(b'\n', ..)` calls return on `s`.
pub open spec fn chunks(s: Seq<u8>) -> Seq<Seq<u8>> {
    chunks_from(s, 0)
}

/// Whether the two chunk sequences disagree at position `i`, where a missing
/// line is acceptable when it faces an empty line and `ignore_empty_at_end`
/// holds.
pub open spec fn mismatch_at(
    o: Seq<Seq<u8>>,
    a: Seq<Seq<u8>>,
    norm: LineNorm,
    ignore_empty_at_end: bool,
    i: int,
) -> bool {
    if i < o.len() && i < a.len() {
        normalize(norm, o[i]) != normalize(norm, a[i])
    } else if i < o.len() {
        !blank_line(norm, o[i]) || !ignore_empty_at_end
    } else if i < a.len() {
        !blank_line(norm, a[i]) || !ignore_empty_at_end
    } else {
        false
    }
}

/// The two texts differ: at some line position they disagree.
pub open spec fn lines_differ(
    output: Seq<u8>,
    answer: Seq<u8>,
    norm: LineNorm,
    ignore_empty_at_end: bool,
) -> bool {
    let o = chunks(output);
    let a = chunks(answer);
    exists|i: int|
        0 <= i < o.len() + a.len() && #[trigger] mismatch_at(o, a, norm, ignore_empty_at_end, i)
}

/// The lines of a text once its trailing newlines are removed, split on
/// newline, compared pairwise as far as both texts reach, trailing spaces
/// ignored: they differ when some compared pair differs.
pub open spec fn zip_lines_differ(output: Seq<u8>, answer: Seq<u8>) -> bool {
    let o = chunks(trim_end(output, Trailing::Newline));
    let a = chunks(trim_end(answer, Trailing::Newline));
    exists|i: int|
        0 <= i < o.len() && 0 <= i < a.len() && #[trigger] normalize(
            LineNorm::DropNewlineTrimSpaces,
            o[i],
        ) != normalize(LineNorm::DropNewlineTrimSpaces, a[i])
}

pub open spec fn drop_n<A>(s: Seq<A>, i: int) -> Seq<A> {
    if 0 <= i <= s.len() {
        s.skip(i)
    } else {
        Seq::empty()
    }
}

fn is_in_class(class: Trailing, b: u8) -> (r: bool)
    ensures
        r == in_class(class, b),
{
    match class {
        Trailing::Space => b == 0x20u8,
        Trailing::Newline => b == 0x0au8,
        Trailing::SpaceOrNewline => b == 0x20u8 || b == 0x0au8,
        Trailing::AsciiWhitespace => b == 0x20u8 || b == 0x09u8 || b == 0x0au8 || b == 0x0cu8
            || b == 0x0du8,
    }
}

/// End of `s[start..end]` once its trailing bytes of `class` are removed.
pub fn trimmed_end(s: &[u8], start: usize, end: usize, class: Trailing) -> (e: usize)
    requires
        start <= end <= s.len(),
    ensures
        start <= e <= end,
        s@.subrange(start as int, e as int) == trim_end(
            s@.subrange(start as int, end as int),
            class,
        ),
{
    let mut e = end;
    while e > start && is_in_class(class, s[e - 1])
        invariant
            start <= e <= end <= s.len(),
            trim_end(s@.subrange(start as int, e as int), class) == trim_end(
                s@.subrange(start as int, end as int),
                class,
            ),
        decreases e,
    {
        let ghost sub = s@.subrange(start as int, e as int);
        assert(sub.drop_last() =~= s@.subrange(start as int, e - 1));
        e = e - 1;
    }
    e
}

fn normalized_end(s: &[u8], start: usize, end: usize, norm: LineNorm) -> (e: usize)
    requires
        start <= end <= s.len(),
    ensures
        start <= e <= end,
        s@.subrange(start as int, e as int) == normalize(
            norm,
            s@.subrange(start as int, end as int),
        ),
{
    let ghost line = s@.subrange(start as int, end as int);
    match norm {
        LineNorm::Keep => end,
        LineNorm::DropNewline => {
            if end > start && s[end - 1] == 0x0au8 {
                assert(line.drop_last() =~= s@.subrange(start as int, end - 1));
                end - 1
            } else {
                end
            }
        },
        LineNorm::DropNewlineTrimSpaces => {
            let e0 = if end > start && s[end - 1] == 0x0au8 {
                assert(line.drop_last() =~= s@.subrange(start as int, end - 1));
                end - 1
            } else {
                end
            };
            trimmed_end(s, start, e0, Trailing::Space)
        },
        LineNorm::TrimSpacesAndNewlines => trimmed_end(s, start, end, Trailing::SpaceOrNewline),
        LineNorm::TrimAsciiWhitespace => trimmed_end(s, start, end, Trailing::AsciiWhitespace),
    }
}

/// Whether the normalized line `s[start..end]` is blank under `norm`: empty,
/// or, where `norm` keeps the chunk as read, a newline alone.
fn blank_range(s: &[u8], start: usize, end: usize, norm: LineNorm) -> (r: bool)
    requires
        start <= end <= s.len(),
    ensures
        norm == LineNorm::Keep ==> r == (drop_newline(s@.subrange(start as int, end as int)).len()
            == 0),
        norm != LineNorm::Keep ==> r == (s@.subrange(start as int, end as int).len() == 0),
{
    match norm {
        LineNorm::Keep => end == start || (end == start + 1 && s[start] == 0x0au8),
        _ => end == start,
    }
}

/// Whether `s[i..j]` and `t[k..l]` hold the same bytes.
pub fn range_eq(s: &[u8], i: usize, j: usize, t: &[u8], k: usize, l: usize) -> (r: bool)
    requires
        i <= j <= s.len(),
        k <= l <= t.len(),
    ensures
        r == (s@.subrange(i as int, j as int) == t@.subrange(k as int, l as int)),
{
    if j - i != l - k {
        assert(s@.subrange(i as int, j as int).len() != t@.subrange(k as int, l as int).len());
        return false;
    }
    let n = j - i;
    let mut m: usize = 0;
    while m < n
        invariant
            m <= n,
            n == j - i,
            n == l - k,
            i <= j <= s.len(),
            k <= l <= t.len(),
            forall|x: int| 0 <= x < m ==> #[trigger] s@.subrange(i as int, j as int)[x] == t@.subrange(k as int, l as int)[x],
        decreases n - m,
    {
        if s[i + m] != t[k + m] {
            assert(s@.subrange(i as int, j as int)[m as int] != t@.subrange(
                k as int,
                l as int,
            )[m as int]);
            return false;
        }
        m = m + 1;
    }
    assert(s@.subrange(i as int, j as int) =~= t@.subrange(k as int, l as int));
    true
}

/// End of the chunk of `s[..limit]` that starts at `start`.
fn chunk_end(s: &[u8], start: usize, limit: usize) -> (end: usize)
    requires
        start < limit <= s.len(),
    ensures
        start < end <= limit,
        chunks_from(s@.subrange(0, limit as int), start as int) == seq![
            s@.subrange(start as int, end as int),
        ] + chunks_from(s@.subrange(0, limit as int), end as int),
{
    let ghost t = s@.subrange(0, limit as int);
    let mut i = start;
    while i < limit && s[i] != 0x0au8
        invariant
            start <= i <= limit <= s.len(),
            t == s@.subrange(0, limit as int),
            newline_from(t, start as int) == newline_from(t, i as int),
        decreases limit - i,
    {
        i = i + 1;
    }
    let end = if i < limit {
        i + 1
    } else {
        limit
    };
    assert(t.subrange(start as int, end as int) =~= s@.subrange(start as int, end as int));
    end
}

/// Whether `output` and `answer` differ line by line, each chunk normalized
/// by `norm`, missing lines facing empty ones accepted when
/// `ignore_empty_at_end` holds.
pub fn differ(output: &[u8], answer: &[u8], norm: LineNorm, ignore_empty_at_end: bool) -> (r:
    bool)
    ensures
        r == lines_differ(output@, answer@, norm, ignore_empty_at_end),
{
    let ghost co = chunks(output@);
    let ghost ca = chunks(answer@);
    assert(output@.subrange(0, output@.len() as int) =~= output@);
    assert(answer@.subrange(0, answer@.len() as int) =~= answer@);
    let olen = output.len();
    let alen = answer.len();
    let mut po: usize = 0;
    let mut pa: usize = 0;
    let ghost mut i: int = 0;
    assert(drop_n(co, 0) =~= co);
    assert(drop_n(ca, 0) =~= ca);
    loop
        invariant
            olen == output.len(),
            alen == answer.len(),
            po <= olen,
            pa <= alen,
            0 <= i,
            co == chunks(output@),
            ca == chunks(answer@),
            output@.subrange(0, olen as int) == output@,
            answer@.subrange(0, alen as int) == answer@,
            chunks_from(output@, po as int) == drop_n(co, i),
            chunks_from(answer@, pa as int) == drop_n(ca, i),
            forall|j: int| 0 <= j < i ==> !#[trigger] mismatch_at(co, ca, norm, ignore_empty_at_end, j),
        decreases (olen - po) + (alen - pa),
    {
        if po == olen && pa == alen {
            assert(i >= co.len() && i >= ca.len());
            assert forall|j: int| 0 <= j < co.len() + ca.len() implies !#[trigger] mismatch_at(
                co,
                ca,
                norm,
                ignore_empty_at_end,
                j,
            ) by {
                if j >= i {
                }
            }
            return false;
        }
        let (os, oe) = if po < olen {
            let e = chunk_end(output, po, olen);
            (po, normalized_end(output, po, e, norm))
        } else {
            (po, po)
        };
        let (as_, ae) = if pa < alen {
            let e = chunk_end(answer, pa, alen);
            (pa, normalized_end(answer, pa, e, norm))
        } else {
            (pa, pa)
        };
        let ghost old_po = po;
        let ghost old_pa = pa;
        let mismatch = if po < olen && pa < alen {
            !range_eq(output, os, oe, answer, as_, ae)
        } else if po < olen {
            !blank_range(output, os, oe, norm) || !ignore_empty_at_end
        } else {
            !blank_range(answer, as_, ae, norm) || !ignore_empty_at_end
        };
        if po < olen {
            po = chunk_end(output, po, olen);
        }
        if pa < alen {
            pa = chunk_end(answer, pa, alen);
        }
        proof {
            if old_po < olen {
                assert(drop_n(co, i).len() > 0);
                assert(i < co.len());
                assert(drop_n(co, i)[0] == co[i]);
                assert(drop_n(co, i + 1) =~= drop_n(co, i).drop_first());
            } else {
                assert(i >= co.len());
            }
            if old_pa < alen {
                assert(drop_n(ca, i).len() > 0);
                assert(i < ca.len());
                assert(drop_n(ca, i)[0] == ca[i]);
                assert(drop_n(ca, i + 1) =~= drop_n(ca, i).drop_first());
            } else {
                assert(i >= ca.len());
            }
        }
        if mismatch {
            assert(mismatch_at(co, ca, norm, ignore_empty_at_end, i));
            return true;
        }
        proof {
            assert(!mismatch_at(co, ca, norm, ignore_empty_at_end, i));
            i = i + 1;
        }
    }
}

/// Whether the texts differ when their lines, trailing newlines of the whole
/// text removed, are compared pairwise as far as both reach, trailing spaces
/// of each line ignored.
pub fn zip_differ(output: &[u8], answer: &[u8]) -> (r: bool)
    ensures
        r == zip_lines_differ(output@, answer@),
{
    let olen = trimmed_end(output, 0, output.len(), Trailing::Newline);
    let alen = trimmed_end(answer, 0, answer.len(), Trailing::Newline);
    assert(output@.subrange(0, output@.len() as int) =~= output@);
    assert(answer@.subrange(0, answer@.len() as int) =~= answer@);
    let ghost to = output@.subrange(0, olen as int);
    let ghost ta = answer@.subrange(0, alen as int);
    let ghost co = chunks(to);
    let ghost ca = chunks(ta);
    assert(to == trim_end(output@, Trailing::Newline));
    assert(ta == trim_end(answer@, Trailing::Newline));
    let mut po: usize = 0;
    let mut pa: usize = 0;
    let ghost mut i: int = 0;
    assert(drop_n(co, 0) =~= co);
    assert(drop_n(ca, 0) =~= ca);
    while po < olen && pa < alen
        invariant
            olen <= output.len(),
            alen <= answer.len(),
            po <= olen,
            pa <= alen,
            0 <= i,
            to == output@.subrange(0, olen as int),
            ta == answer@.subrange(0, alen as int),
            to == trim_end(output@, Trailing::Newline),
            ta == trim_end(answer@, Trailing::Newline),
            co == chunks(to),
            ca == chunks(ta),
            chunks_from(to, po as int) == drop_n(co, i),
            chunks_from(ta, pa as int) == drop_n(ca, i),
            forall|j: int|
                0 <= j < i && j < co.len() && j < ca.len() ==> #[trigger] normalize(
                    LineNorm::DropNewlineTrimSpaces,
                    co[j],
                ) == normalize(LineNorm::DropNewlineTrimSpaces, ca[j]),
        decreases olen - po,
    {
        let oe = chunk_end(output, po, olen);
        let ae = chunk_end(answer, pa, alen);
        let one = normalized_end(output, po, oe, LineNorm::DropNewlineTrimSpaces);
        let ane = normalized_end(answer, pa, ae, LineNorm::DropNewlineTrimSpaces);
        proof {
            assert(drop_n(co, i).len() > 0);
            assert(drop_n(ca, i).len() > 0);
            assert(drop_n(co, i)[0] == co[i]);
            assert(drop_n(ca, i)[0] == ca[i]);
            assert(drop_n(co, i + 1) =~= drop_n(co, i).drop_first());
            assert(drop_n(ca, i + 1) =~= drop_n(ca, i).drop_first());
        }
        if !range_eq(output, po, one, answer, pa, ane) {
            assert(normalize(LineNorm::DropNewlineTrimSpaces, co[i]) != normalize(
                LineNorm::DropNewlineTrimSpaces,
                ca[i],
            ));
            return true;
        }
        po = oe;
        pa = ae;
        proof {
            i = i + 1;
        }
    }
    proof {
        assert(to == trim_end(output@, Trailing::Newline));
        assert(ta == trim_end(answer@, Trailing::Newline));
        if po == olen {
            assert(i >= co.len());
        } else {
            assert(i >= ca.len());
        }
    }
    false
}

proof fn lemma_newline_from_push(s: Seq<u8>, i: int)
    requires
        0 <= i <= s.len(),
    ensures
        newline_from(s.push(0x0au8), i) == newline_from(s, i),
    decreases s.len() - i,
{
    let u = s.push(0x0au8);
    if i < s.len() {
        assert(u[i] == s[i]);
        if s[i] != 0x0au8 {
            lemma_newline_from_push(s, i + 1);
        }
    }
}

/// How the chunks of a text change when one newline is appended to it.
proof fn lemma_chunks_from_push(s: Seq<u8>, i: int)
    requires
        0 <= i <= s.len(),
    ensures
        (s.len() == 0 || s.last() == 0x0au8) ==> chunks_from(s.push(0x0au8), i) == chunks_from(
            s,
            i,
        ) + seq![seq![0x0au8]],
        (s.len() > 0 && s.last() != 0x0au8 && i < s.len()) ==> {
            let c = chunks_from(s, i);
            &&& c.len() > 0
            &&& c.last().len() > 0
            &&& c.last().last() == s.last()
            &&& chunks_from(s.push(0x0au8), i) == c.drop_last() + seq![c.last().push(0x0au8)]
        },
    decreases s.len() - i,
{
    let u = s.push(0x0au8);
    lemma_newline_from_push(s, i);
    lemma_newline_from_bounds(s, i);
    lemma_newline_from_bounds(u, i);
    if i == s.len() {
        assert(chunks_from(s, i) =~= Seq::<Seq<u8>>::empty());
        assert(u.subrange(i, i + 1) =~= seq![0x0au8]);
        assert(chunks_from(u, i + 1) =~= Seq::<Seq<u8>>::empty());
        assert(chunks_from(u, i) =~= seq![seq![0x0au8]]);
    } else {
        let j = newline_from(s, i);
        if j < s.len() {
            lemma_chunks_from_push(s, j + 1);
            assert(u.subrange(i, j + 1) =~= s.subrange(i, j + 1));
            if s.len() == 0 || s.last() == 0x0au8 {
                assert(chunks_from(u, i) =~= chunks_from(s, i) + seq![seq![0x0au8]]);
            } else {
                if j + 1 == s.len() {
                    assert(s[j] == 0x0au8);
                    assert(false);
                }
                let c = chunks_from(s, i);
                let c1 = chunks_from(s, j + 1);
                assert(c =~= seq![s.subrange(i, j + 1)] + c1);
                assert(c.last() == c1.last());
                assert(c.drop_last() =~= seq![s.subrange(i, j + 1)] + c1.drop_last());
                assert(chunks_from(u, i) =~= c.drop_last() + seq![c.last().push(0x0au8)]);
            }
        } else {
            assert(u[s.len() as int] == 0x0au8);
            assert(chunks_from(u, s.len() as int + 1) =~= Seq::<Seq<u8>>::empty());
            assert(u.subrange(i, s.len() as int + 1) =~= s.subrange(i, s.len() as int).push(0x0au8));
            if s.len() > 0 && s.last() == 0x0au8 {
                assert(s[s.len() - 1] == 0x0au8);
                assert(false);
            }
            let c = chunks_from(s, i);
            assert(c =~= seq![s.subrange(i, s.len() as int)]);
            assert(c.last().last() == s.last());
            assert(chunks_from(u, i) =~= c.drop_last() + seq![c.last().push(0x0au8)]);
        }
    }
}

proof fn lemma_normalize_push_newline(norm: LineNorm, c: Seq<u8>)
    requires
        norm != LineNorm::Keep,
        c.len() > 0,
        c.last() != 0x0au8,
    ensures
        normalize(norm, c.push(0x0au8)) == normalize(norm, c),
{
    assert(c.push(0x0au8).drop_last() =~= c);
}

/// Law: comparing with a text is reflexive; a text never differs from
/// itself.
pub proof fn lemma_differ_reflexive(s: Seq<u8>, norm: LineNorm, ignore_empty_at_end: bool)
    ensures
        !lines_differ(s, s, norm, ignore_empty_at_end),
        !zip_lines_differ(s, s),
{
}

/// Law: the comparison is symmetric in output and answer.
pub proof fn lemma_differ_symmetric(
    output: Seq<u8>,
    answer: Seq<u8>,
    norm: LineNorm,
    ignore_empty_at_end: bool,
)
    ensures
        lines_differ(output, answer, norm, ignore_empty_at_end) == lines_differ(
            answer,
            output,
            norm,
            ignore_empty_at_end,
        ),
        zip_lines_differ(output, answer) == zip_lines_differ(answer, output),
{
    let o = chunks(output);
    let a = chunks(answer);
    if lines_differ(output, answer, norm, ignore_empty_at_end) {
        let i = choose|i: int|
            0 <= i < o.len() + a.len() && #[trigger] mismatch_at(o, a, norm, ignore_empty_at_end, i);
        assert(mismatch_at(a, o, norm, ignore_empty_at_end, i));
    }
    if lines_differ(answer, output, norm, ignore_empty_at_end) {
        let i = choose|i: int|
            0 <= i < a.len() + o.len() && #[trigger] mismatch_at(a, o, norm, ignore_empty_at_end, i);
        assert(mismatch_at(o, a, norm, ignore_empty_at_end, i));
    }
}

/// Law: when missing lines may face empty ones and the newline ending a
/// line is not part of what is compared, one more newline at the end of the
/// output never changes the verdict. The same holds of the pairwise
/// comparison, which drops trailing newlines.
pub proof fn lemma_trailing_newline_ignored(output: Seq<u8>, answer: Seq<u8>, norm: LineNorm)
    requires
        norm != LineNorm::Keep,
    ensures
        lines_differ(output.push(0x0au8), answer, norm, true) == lines_differ(
            output,
            answer,
            norm,
            true,
        ),
        zip_lines_differ(output.push(0x0au8), answer) == zip_lines_differ(output, answer),
{
    let u = output.push(0x0au8);
    assert(u.drop_last() =~= output);
    assert(trim_end(u, Trailing::Newline) == trim_end(output, Trailing::Newline));
    lemma_chunks_from_push(output, 0);
    let o = chunks(output);
    let o2 = chunks(u);
    let a = chunks(answer);
    assert forall|k: int| 0 <= k implies #[trigger] mismatch_at(o2, a, norm, true, k) == mismatch_at(
        o,
        a,
        norm,
        true,
        k,
    ) by {
        if output.len() == 0 || output.last() == 0x0au8 {
            assert(o2 =~= o + seq![seq![0x0au8]]);
            if k < o.len() {
                assert(o2[k] == o[k]);
            } else if k == o.len() {
                assert(o2[k] == seq![0x0au8]);
                assert(seq![0x0au8].drop_last() =~= Seq::<u8>::empty());
                let e = Seq::<u8>::empty();
                assert(trim_end(e, Trailing::Space) == e);
                assert(trim_end(e, Trailing::SpaceOrNewline) == e);
                assert(trim_end(e, Trailing::AsciiWhitespace) == e);
                assert(trim_end(seq![0x0au8], Trailing::SpaceOrNewline) == trim_end(
                    e,
                    Trailing::SpaceOrNewline,
                ));
                assert(trim_end(seq![0x0au8], Trailing::AsciiWhitespace) == trim_end(
                    e,
                    Trailing::AsciiWhitespace,
                ));
                assert(normalize(norm, seq![0x0au8]) =~= e);
                if k < a.len() && normalize(norm, a[k]).len() == 0 {
                    assert(normalize(norm, a[k]) =~= e);
                }
            }
        } else {
            let c = o.last();
            if k < o.len() - 1 {
                assert(o2[k] == o[k]);
            } else if k == o.len() - 1 {
                assert(o2[k] == c.push(0x0au8));
                lemma_normalize_push_newline(norm, c);
            }
        }
    }
    if lines_differ(u, answer, norm, true) {
        let k = choose|k: int| 0 <= k < o2.len() + a.len() && #[trigger] mismatch_at(o2, a, norm, true, k);
        assert(mismatch_at(o, a, norm, true, k));
    }
    if lines_differ(output, answer, norm, true) {
        let k = choose|k: int| 0 <= k < o.len() + a.len() && #[trigger] mismatch_at(o, a, norm, true, k);
        assert(mismatch_at(o2, a, norm, true, k));
    }
}

proof fn lemma_newline_from_push_other(s: Seq<u8>, i: int, b: u8)
    requires
        0 <= i <= s.len(),
        b != 0x0au8,
    ensures
        newline_from(s.push(b), i) == (if newline_from(s, i) < s.len() {
            newline_from(s, i)
        } else {
            s.len() + 1int
        }),
    decreases s.len() - i,
{
    let u = s.push(b);
    if i < s.len() {
        assert(u[i] == s[i]);
        if s[i] != 0x0au8 {
            lemma_newline_from_push_other(s, i + 1, b);
        }
    } else {
        assert(u[i] == b);
        assert(newline_from(u, i + 1) == u.len());
    }
}

/// How the chunks of a text change when one byte other than a newline is
/// appended to it.
proof fn lemma_chunks_from_push_other(s: Seq<u8>, i: int, b: u8)
    requires
        0 <= i <= s.len(),
        b != 0x0au8,
    ensures
        (s.len() == 0 || s.last() == 0x0au8) ==> chunks_from(s.push(b), i) == chunks_from(s, i)
            + seq![seq![b]],
        (s.len() > 0 && s.last() != 0x0au8 && i < s.len()) ==> {
            let c = chunks_from(s, i);
            &&& c.len() > 0
            &&& c.last().len() > 0
            &&& c.last().last() == s.last()
            &&& chunks_from(s.push(b), i) == c.drop_last() + seq![c.last().push(b)]
        },
    decreases s.len() - i,
{
    let u = s.push(b);
    lemma_newline_from_push_other(s, i, b);
    lemma_newline_from_bounds(s, i);
    lemma_newline_from_bounds(u, i);
    if i == s.len() {
        assert(chunks_from(s, i) =~= Seq::<Seq<u8>>::empty());
        assert(u.subrange(i, i + 1) =~= seq![b]);
        assert(chunks_from(u, i) =~= seq![seq![b]]);
    } else {
        let j = newline_from(s, i);
        if j < s.len() {
            lemma_chunks_from_push_other(s, j + 1, b);
            assert(u.subrange(i, j + 1) =~= s.subrange(i, j + 1));
            if s.len() == 0 || s.last() == 0x0au8 {
                assert(chunks_from(u, i) =~= chunks_from(s, i) + seq![seq![b]]);
            } else {
                if j + 1 == s.len() {
                    assert(s[j] == 0x0au8);
                    assert(false);
                }
                let c = chunks_from(s, i);
                let c1 = chunks_from(s, j + 1);
                assert(c =~= seq![s.subrange(i, j + 1)] + c1);
                assert(c.last() == c1.last());
                assert(c.drop_last() =~= seq![s.subrange(i, j + 1)] + c1.drop_last());
                assert(chunks_from(u, i) =~= c.drop_last() + seq![c.last().push(b)]);
            }
        } else {
            assert(u.subrange(i, s.len() as int + 1) =~= s.subrange(i, s.len() as int).push(b));
            if s.len() > 0 && s.last() == 0x0au8 {
                assert(s[s.len() - 1] == 0x0au8);
                assert(false);
            }
            let c = chunks_from(s, i);
            assert(c =~= seq![s.subrange(i, s.len() as int)]);
            assert(c.last().last() == s.last());
            assert(chunks_from(u, i) =~= c.drop_last() + seq![c.last().push(b)]);
        }
    }
}

/// The line forms that drop the spaces at the end of a line.
pub open spec fn trims_spaces(norm: LineNorm) -> bool {
    norm == LineNorm::DropNewlineTrimSpaces || norm == LineNorm::TrimSpacesAndNewlines || norm
        == LineNorm::TrimAsciiWhitespace
}

proof fn lemma_normalize_push_space(norm: LineNorm, c: Seq<u8>)
    requires
        trims_spaces(norm),
        c.len() == 0 || c.last() != 0x0au8,
    ensures
        normalize(norm, c.push(0x20u8)) == normalize(norm, c),
{
    let d = c.push(0x20u8);
    assert(d.drop_last() =~= c);
    assert(d.last() == 0x20u8);
    assert(drop_newline(d) == d);
    assert(drop_newline(c) == c);
}

/// Law: when the spaces at the end of a line are not compared, a space
/// appended to the output never changes the verdict; where the output ends
/// with a newline (or is empty) the space makes a blank last line, which
/// counts only when empty lines at the end are compared. The pairwise
/// comparison, likewise, where the output ends with a byte other than a
/// newline.
pub proof fn lemma_trailing_space_ignored(
    output: Seq<u8>,
    answer: Seq<u8>,
    norm: LineNorm,
    ignore_empty_at_end: bool,
)
    requires
        trims_spaces(norm),
        (output.len() > 0 && output.last() != 0x0au8) || ignore_empty_at_end,
    ensures
        lines_differ(output.push(0x20u8), answer, norm, ignore_empty_at_end) == lines_differ(
            output,
            answer,
            norm,
            ignore_empty_at_end,
        ),
        output.len() > 0 && output.last() != 0x0au8 ==> zip_lines_differ(output.push(0x20u8), answer)
            == zip_lines_differ(output, answer),
{
    let u = output.push(0x20u8);
    lemma_chunks_from_push_other(output, 0, 0x20u8);
    let o = chunks(output);
    let o2 = chunks(u);
    let a = chunks(answer);
    let ign = ignore_empty_at_end;
    assert forall|k: int| 0 <= k implies #[trigger] mismatch_at(o2, a, norm, ign, k) == mismatch_at(
        o,
        a,
        norm,
        ign,
        k,
    ) by {
        if output.len() == 0 || output.last() == 0x0au8 {
            assert(o2 =~= o + seq![seq![0x20u8]]);
            if k < o.len() {
                assert(o2[k] == o[k]);
            } else if k == o.len() {
                assert(o2[k] == seq![0x20u8]);
                let e = Seq::<u8>::empty();
                assert(seq![0x20u8] =~= e.push(0x20u8));
                lemma_normalize_push_space(norm, e);
                assert(trim_end(e, Trailing::Space) == e);
                assert(trim_end(e, Trailing::SpaceOrNewline) == e);
                assert(trim_end(e, Trailing::AsciiWhitespace) == e);
                assert(drop_newline(e) == e);
                assert(normalize(norm, seq![0x20u8]) =~= e);
                if k < a.len() && normalize(norm, a[k]).len() == 0 {
                    assert(normalize(norm, a[k]) =~= e);
                }
            }
        } else {
            let c = o.last();
            if k < o.len() - 1 {
                assert(o2[k] == o[k]);
            } else if k == o.len() - 1 {
                assert(o2[k] == c.push(0x20u8));
                lemma_normalize_push_space(norm, c);
            }
        }
    }
    if lines_differ(u, answer, norm, ign) {
        let k = choose|k: int| 0 <= k < o2.len() + a.len() && #[trigger] mismatch_at(o2, a, norm, ign, k);
        assert(mismatch_at(o, a, norm, ign, k));
    }
    if lines_differ(output, answer, norm, ign) {
        let k = choose|k: int| 0 <= k < o.len() + a.len() && #[trigger] mismatch_at(o, a, norm, ign, k);
        assert(mismatch_at(o2, a, norm, ign, k));
    }
    if output.len() > 0 && output.last() != 0x0au8 {
        assert(u.last() == 0x20u8);
        assert(trim_end(u, Trailing::Newline) == u);
        assert(trim_end(output, Trailing::Newline) == output);
        let c = o.last();
        let z = LineNorm::DropNewlineTrimSpaces;
        lemma_normalize_push_space(z, c);
        let ta = chunks(trim_end(answer, Trailing::Newline));
        if zip_lines_differ(u, answer) {
            let k = choose|k: int|
                0 <= k < o2.len() && 0 <= k < ta.len() && #[trigger] normalize(z, o2[k]) != normalize(
                    z,
                    ta[k],
                );
            if k < o.len() - 1 {
                assert(o2[k] == o[k]);
            } else {
                assert(o2[k] == c.push(0x20u8));
            }
            assert(normalize(z, o[k]) != normalize(z, ta[k]));
        }
        if zip_lines_differ(output, answer) {
            let k = choose|k: int|
                0 <= k < o.len() && 0 <= k < ta.len() && #[trigger] normalize(z, o[k]) != normalize(
                    z,
                    ta[k],
                );
            if k < o.len() - 1 {
                assert(o2[k] == o[k]);
            } else {
                assert(o2[k] == c.push(0x20u8));
            }
            assert(normalize(z, o2[k]) != normalize(z, ta[k]));
        }
    }
}

/// `s` with the byte `b` inserted before position `m`.
pub open spec fn insert_at(s: Seq<u8>, m: int, b: u8) -> Seq<u8> {
    s.subrange(0, m) + seq![b] + s.subrange(m, s.len() as int)
}

proof fn lemma_newline_from_suffix(a: Seq<u8>, b: Seq<u8>, k: int)
    requires
        0 <= k <= b.len(),
    ensures
        newline_from(a + b, a.len() + k) == a.len() + newline_from(b, k),
    decreases b.len() - k,
{
    if k < b.len() {
        assert((a + b)[a.len() + k] == b[k]);
        if b[k] != 0x0au8 {
            lemma_newline_from_suffix(a, b, k + 1);
        }
    }
}

/// The chunks of a text from a position depend only on what follows it.
proof fn lemma_chunks_from_suffix(a: Seq<u8>, b: Seq<u8>, k: int)
    requires
        0 <= k <= b.len(),
    ensures
        chunks_from(a + b, a.len() + k) == chunks_from(b, k),
    decreases b.len() - k,
{
    lemma_newline_from_suffix(a, b, k);
    lemma_newline_from_bounds(b, k);
    if k < b.len() {
        let j = newline_from(b, k);
        let t = a + b;
        if j < b.len() {
            lemma_chunks_from_suffix(a, b, j + 1);
            assert(t.subrange(a.len() + k, a.len() + j + 1) =~= b.subrange(k, j + 1));
        } else {
            assert(t.subrange(a.len() + k, t.len() as int) =~= b.subrange(k, b.len() as int));
        }
    }
}

proof fn lemma_newline_from_insert(s: Seq<u8>, m: int, i: int)
    requires
        0 <= i <= m < s.len(),
        s[m] == 0x0au8,
    ensures
        newline_from(insert_at(s, m, 0x20u8), i) == (if newline_from(s, i) < m {
            newline_from(s, i)
        } else {
            m + 1
        }),
    decreases m - i,
{
    let u = insert_at(s, m, 0x20u8);
    if i < m {
        assert(u[i] == s[i]);
        if s[i] != 0x0au8 {
            lemma_newline_from_insert(s, m, i + 1);
        }
    } else {
        assert(u[m] == 0x20u8);
        assert(u[m + 1] == 0x0au8);
        assert(newline_from(u, m + 1) == m + 1);
        assert(newline_from(s, m) == m);
    }
}

/// Inserting a space before a newline changes only the chunk that the
/// newline ends, and not its form under a line form that drops spaces at
/// the end.
proof fn lemma_chunks_insert_space(s: Seq<u8>, m: int, i: int, norm: LineNorm)
    requires
        0 <= i <= m < s.len(),
        s[m] == 0x0au8,
        trims_spaces(norm),
    ensures
        chunks_from(insert_at(s, m, 0x20u8), i).len() == chunks_from(s, i).len(),
        forall|k: int|
            0 <= k < chunks_from(s, i).len() ==> normalize(
                norm,
                #[trigger] chunks_from(insert_at(s, m, 0x20u8), i)[k],
            ) == normalize(norm, chunks_from(s, i)[k]),
    decreases m - i,
{
    let u = insert_at(s, m, 0x20u8);
    lemma_newline_from_insert(s, m, i);
    lemma_newline_from_bounds(s, i);
    lemma_newline_from_bounds(u, i);
    let j = newline_from(s, i);
    assert(j <= m) by {
        if j > m {
            assert(s[m] != 0x0au8);
        }
    }
    let c = chunks_from(s, i);
    let d = chunks_from(u, i);
    if j < m {
        lemma_chunks_insert_space(s, m, j + 1, norm);
        assert(u.subrange(i, j + 1) =~= s.subrange(i, j + 1));
        assert(c == seq![s.subrange(i, j + 1)] + chunks_from(s, j + 1));
        assert(d == seq![s.subrange(i, j + 1)] + chunks_from(u, j + 1));
        assert forall|k: int| 0 <= k < c.len() implies normalize(norm, #[trigger] d[k]) == normalize(
            norm,
            c[k],
        ) by {
            if k > 0 {
                assert(d[k] == chunks_from(u, j + 1)[k - 1]);
                assert(c[k] == chunks_from(s, j + 1)[k - 1]);
            }
        }
    } else {
        let pre = s.subrange(0, m) + seq![0x20u8];
        let post = s.subrange(m, s.len() as int);
        assert(u =~= pre + post);
        assert(s =~= s.subrange(0, m) + post);
        lemma_chunks_from_suffix(pre, post, 1);
        lemma_chunks_from_suffix(s.subrange(0, m), post, 1);
        assert(chunks_from(u, m + 2) == chunks_from(s, m + 1));
        let x = s.subrange(i, m);
        assert(s.subrange(i, m + 1) =~= x.push(0x0au8));
        assert(u.subrange(i, m + 2) =~= x.push(0x20u8).push(0x0au8));
        let old_line = x.push(0x0au8);
        let new_line = x.push(0x20u8).push(0x0au8);
        assert(normalize(norm, new_line) == normalize(norm, old_line)) by {
            assert(new_line.drop_last() =~= x.push(0x20u8));
            assert(old_line.drop_last() =~= x);
            assert(x.push(0x20u8).drop_last() =~= x);
            assert(trim_end(x.push(0x20u8), Trailing::Space) == trim_end(x, Trailing::Space));
            assert(trim_end(new_line, Trailing::SpaceOrNewline) == trim_end(
                x.push(0x20u8),
                Trailing::SpaceOrNewline,
            ));
            assert(trim_end(x.push(0x20u8), Trailing::SpaceOrNewline) == trim_end(
                x,
                Trailing::SpaceOrNewline,
            ));
            assert(trim_end(old_line, Trailing::SpaceOrNewline) == trim_end(
                x,
                Trailing::SpaceOrNewline,
            ));
            assert(trim_end(new_line, Trailing::AsciiWhitespace) == trim_end(
                x.push(0x20u8),
                Trailing::AsciiWhitespace,
            ));
            assert(trim_end(x.push(0x20u8), Trailing::AsciiWhitespace) == trim_end(
                x,
                Trailing::AsciiWhitespace,
            ));
            assert(trim_end(old_line, Trailing::AsciiWhitespace) == trim_end(
                x,
                Trailing::AsciiWhitespace,
            ));
        }
        if m + 1 < s.len() {
            assert(c == seq![old_line] + chunks_from(s, m + 1));
            assert(d == seq![new_line] + chunks_from(u, m + 2));
        } else {
            assert(c == seq![old_line]);
            assert(d == seq![new_line]);
        }
        assert forall|k: int| 0 <= k < c.len() implies normalize(norm, #[trigger] d[k]) == normalize(
            norm,
            c[k],
        ) by {
            if k > 0 {
                assert(d[k] == chunks_from(u, m + 2)[k - 1]);
                assert(c[k] == chunks_from(s, m + 1)[k - 1]);
            }
        }
    }
}

/// Law: when the spaces at the end of a line are not compared, a space
/// inserted before any newline of the output never changes the verdict.
pub proof fn lemma_space_before_newline_ignored(
    output: Seq<u8>,
    m: int,
    answer: Seq<u8>,
    norm: LineNorm,
    ignore_empty_at_end: bool,
)
    requires
        trims_spaces(norm),
        0 <= m < output.len(),
        output[m] == 0x0au8,
    ensures
        lines_differ(insert_at(output, m, 0x20u8), answer, norm, ignore_empty_at_end)
            == lines_differ(output, answer, norm, ignore_empty_at_end),
{
    let u = insert_at(output, m, 0x20u8);
    lemma_chunks_insert_space(output, m, 0, norm);
    let o = chunks(output);
    let o2 = chunks(u);
    let a = chunks(answer);
    let ign = ignore_empty_at_end;
    assert forall|k: int| 0 <= k implies #[trigger] mismatch_at(o2, a, norm, ign, k) == mismatch_at(
        o,
        a,
        norm,
        ign,
        k,
    ) by {
        if k < o.len() {
            assert(normalize(norm, o2[k]) == normalize(norm, o[k]));
        }
    }
    if lines_differ(u, answer, norm, ign) {
        let k = choose|k: int| 0 <= k < o2.len() + a.len() && #[trigger] mismatch_at(o2, a, norm, ign, k);
        assert(mismatch_at(o, a, norm, ign, k));
    }
    if lines_differ(output, answer, norm, ign) {
        let k = choose|k: int| 0 <= k < o.len() + a.len() && #[trigger] mismatch_at(o, a, norm, ign, k);
        assert(mismatch_at(o2, a, norm, ign, k));
    }
}

} // verus!
