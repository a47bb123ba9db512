//! Text helpers: numerals in base ten and sixteen, the parsing of unsigned
//! integers as `str::parse` does it, Unicode white space, and paths.
use vstd::prelude::*;

verus! {

/// The character of a digit below sixteen, lower case past nine.
pub open spec fn digit_char(d: int) -> char {
    if d < 10 {
        (48 + d) as char
    } else {
        (87 + d) as char
    }
}

/// The decimal numeral of `n`, without leading zeros.
pub open spec fn decimal(n: nat) -> Seq<char>
    decreases n,
{
    if n < 10 {
        seq![digit_char(n as int)]
    } else {
        decimal(n / 10).push(digit_char((n % 10) as int))
    }
}

/// The lower-case hexadecimal numeral of `n`, without leading zeros.
pub open spec fn hex(n: nat) -> Seq<char>
    decreases n,
{
    if n < 16 {
        seq![digit_char(n as int)]
    } else {
        hex(n / 16).push(digit_char((n % 16) as int))
    }
}

pub open spec fn is_digit(c: char) -> bool {
    '0' <= c <= '9'
}

pub open spec fn all_digits(s: Seq<char>) -> bool {
    forall|i: int| 0 <= i < s.len() ==> is_digit(#[trigger] s[i])
}

/// The value of a string of decimal digits.
pub open spec fn digits_value(s: Seq<char>) -> nat
    decreases s.len(),
{
    if s.len() == 0 {
        0
    } else {
        digits_value(s.drop_last()) * 10 + ((s.last() as int - 48) as nat)
    }
}

/// What `str::parse` gives for an unsigned integer type whose largest value
/// is `max`: an optional `+`, then at least one decimal digit, the value not
/// above `max`.
pub open spec fn parse_unsigned(s: Seq<char>, max: nat) -> Option<nat> {
    let body = if s.len() > 0 && s[0] == '+' {
        s.drop_first()
    } else {
        s
    };
    if body.len() > 0 && all_digits(body) && digits_value(body) <= max {
        Some(digits_value(body))
    } else {
        None
    }
}

/// A character of the Unicode `White_Space` property, which is what
/// `char::is_whitespace` tests.
pub open spec fn is_white_space(c: char) -> bool {
    ||| '\u{9}' <= c <= '\u{d}'
    ||| c == ' '
    ||| c == '\u{85}'
    ||| c == '\u{a0}'
    ||| c == '\u{1680}'
    ||| '\u{2000}' <= c <= '\u{200a}'
    ||| c == '\u{2028}'
    ||| c == '\u{2029}'
    ||| c == '\u{202f}'
    ||| c == '\u{205f}'
    ||| c == '\u{3000}'
}

pub open spec fn trim_start_ws(s: Seq<char>) -> Seq<char>
    decreases s.len(),
{
    if s.len() > 0 && is_white_space(s[0]) {
        trim_start_ws(s.drop_first())
    } else {
        s
    }
}

pub open spec fn trim_end_ws(s: Seq<char>) -> Seq<char>
    decreases s.len(),
{
    if s.len() > 0 && is_white_space(s.last()) {
        trim_end_ws(s.drop_last())
    } else {
        s
    }
}

/// `str::trim`: leading and trailing white space removed.
pub open spec fn trim_ws(s: Seq<char>) -> Seq<char> {
    trim_end_ws(trim_start_ws(s))
}

/// `Path::join` on paths written with `/`: an absolute component replaces
/// the base, any other is appended after one separator.
pub open spec fn join_path(base: Seq<char>, comp: Seq<char>) -> Seq<char> {
    if comp.len() > 0 && comp[0] == '/' {
        comp
    } else if base.len() == 0 || base.last() == '/' {
        base + comp
    } else {
        base + seq!['/'] + comp
    }
}

/// Appends one character to a string (`String::push`).
#[verifier::external_body]
pub(crate) fn push_char(s: &mut String, c: char)
    ensures
        final(s)@ == old(s)@.push(c),
{
    s.push(c);
}

fn digit(d: u128) -> (c: char)
    requires
        d < 16,
    ensures
        c == digit_char(d as int),
{
    if d < 10 {
        let b: u8 = 48u8 + (d as u8);
        b as char
    } else {
        let b: u8 = 87u8 + (d as u8);
        b as char
    }
}

/// The decimal numeral of `n`, as `n.to_string()` writes it.
pub fn decimal_string(n: u128) -> (s: String)
    ensures
        s@ == decimal(n as nat),
    decreases n,
{
    if n < 10 {
        let mut s = String::new();
        push_char(&mut s, digit(n));
        s
    } else {
        let mut s = decimal_string(n / 10);
        push_char(&mut s, digit(n % 10));
        s
    }
}

/// The lower-case hexadecimal numeral of `n`, as `format!("{:x}", n)`
/// writes it.
pub fn hex_string(n: u128) -> (s: String)
    ensures
        s@ == hex(n as nat),
    decreases n,
{
    if n < 16 {
        let mut s = String::new();
        push_char(&mut s, digit(n));
        s
    } else {
        let mut s = hex_string(n / 16);
        push_char(&mut s, digit(n % 16));
        s
    }
}

/// Appends `t` to `s`.
pub fn append_str(s: &mut String, t: &str)
    ensures
        final(s)@ == old(s)@ + t@,
{
    s.append(t);
}

proof fn lemma_digits_value_monotone(s: Seq<char>, k: int)
    requires
        0 <= k <= s.len(),
        all_digits(s),
    ensures
        digits_value(s.subrange(0, k)) <= digits_value(s),
    decreases s.len() - k,
{
    if k < s.len() {
        let t = s.subrange(0, k + 1);
        assert(t.drop_last() =~= s.subrange(0, k));
        assert(is_digit(s[k]));
        lemma_digits_value_monotone(s, k + 1);
    } else {
        assert(s.subrange(0, k) =~= s);
    }
}

/// `str::parse` into an unsigned integer no larger than `max`.
pub fn parse_unsigned_str(s: &str, max: u128) -> (r: Option<u128>)
    ensures
        match r {
            Some(v) => parse_unsigned(s@, max as nat) == Some(v as nat),
            None => parse_unsigned(s@, max as nat) is None,
        },
{
    let n = s.unicode_len();
    let start: usize = if n > 0 && s.get_char(0) == '+' {
        1
    } else {
        0
    };
    let ghost body = if s@.len() > 0 && s@[0] == '+' {
        s@.drop_first()
    } else {
        s@
    };
    assert(body =~= s@.subrange(start as int, n as int));
    if start == n {
        return None;
    }
    let mut v: u128 = 0;
    let mut i = start;
    while i < n
        invariant
            start <= i <= n,
            n == s@.len(),
            body == s@.subrange(start as int, n as int),
            body == (if s@.len() > 0 && s@[0] == '+' {
                s@.drop_first()
            } else {
                s@
            }),
            forall|k: int| start <= k < i ==> is_digit(#[trigger] s@[k]),
            v as nat == digits_value(s@.subrange(start as int, i as int)),
            v <= max,
        decreases n - i,
    {
        let c = s.get_char(i);
        if !('0' <= c && c <= '9') {
            assert(body[i - start] == c);
            return None;
        }
        let d = (c as u32 - 48) as u128;
        let ghost pre = s@.subrange(start as int, i as int);
        let ghost next = s@.subrange(start as int, i + 1);
        assert(next.drop_last() =~= pre);
        assert(digits_value(next) == digits_value(pre) * 10 + d);
        if d > max || v > (max - d) / 10 {
            assert(v * 10 + d > max) by (nonlinear_arith)
                requires
                    d > max || v > (max - d) / 10,
                    d < 10,
            {
            }
            proof {
                if all_digits(body) {
                    assert(next =~= body.subrange(0, i + 1 - start));
                    lemma_digits_value_monotone(body, i + 1 - start);
                }
            }
            return None;
        }
        assert(v * 10 + d <= max) by (nonlinear_arith)
            requires
                v <= (max - d) / 10,
                d <= max,
        {
        }
        v = v * 10 + d;
        i = i + 1;
    }
    assert(s@.subrange(start as int, n as int) == body);
    Some(v)
}

/// `str::parse::<u64>`.
pub fn parse_u64(s: &str) -> (r: Option<u64>)
    ensures
        match r {
            Some(v) => parse_unsigned(s@, u64::MAX as nat) == Some(v as nat),
            None => parse_unsigned(s@, u64::MAX as nat) is None,
        },
{
    match parse_unsigned_str(s, u64::MAX as u128) {
        Some(v) => Some(v as u64),
        None => None,
    }
}

/// `str::parse::<u32>`.
pub fn parse_u32(s: &str) -> (r: Option<u32>)
    ensures
        match r {
            Some(v) => parse_unsigned(s@, u32::MAX as nat) == Some(v as nat),
            None => parse_unsigned(s@, u32::MAX as nat) is None,
        },
{
    match parse_unsigned_str(s, u32::MAX as u128) {
        Some(v) => Some(v as u32),
        None => None,
    }
}

/// `str::parse::<usize>`.
pub fn parse_usize(s: &str) -> (r: Option<usize>)
    ensures
        match r {
            Some(v) => parse_unsigned(s@, usize::MAX as nat) == Some(v as nat),
            None => parse_unsigned(s@, usize::MAX as nat) is None,
        },
{
    match parse_unsigned_str(s, usize::MAX as u128) {
        Some(v) => Some(v as usize),
        None => None,
    }
}

proof fn lemma_decimal_digits(n: nat)
    ensures
        decimal(n).len() > 0,
        all_digits(decimal(n)),
        digits_value(decimal(n)) == n,
    decreases n,
{
    let k = (n % 10) as int;
    assert(digit_char(k) as int == 48 + k);
    if n < 10 {
        assert(decimal(n).drop_last() =~= Seq::<char>::empty());
        assert(decimal(n).last() == digit_char(k));
        assert(digits_value(decimal(n)) == digits_value(decimal(n).drop_last()) * 10 + k);
    } else {
        lemma_decimal_digits(n / 10);
        let d = decimal(n);
        assert(d.drop_last() =~= decimal(n / 10));
        assert(d.last() == digit_char(k));
        assert(digits_value(d) == digits_value(decimal(n / 10)) * 10 + k);
        assert(n == (n / 10) * 10 + k);
        assert forall|i: int| 0 <= i < d.len() implies is_digit(#[trigger] d[i]) by {
            if i < d.len() - 1 {
                assert(d[i] == decimal(n / 10)[i]);
            }
        }
    }
}

/// Law: a decimal numeral parses back to the number it was written from,
/// for every number the integer type can hold.
pub proof fn lemma_parse_decimal(n: nat, max: nat)
    requires
        n <= max,
    ensures
        parse_unsigned(decimal(n), max) == Some(n),
{
    lemma_decimal_digits(n);
    assert(is_digit(decimal(n)[0]));
}

/// Whether `c` is white space, as `char::is_whitespace` tells.
pub fn is_white_space_char(c: char) -> (r: bool)
    ensures
        r == is_white_space(c),
{
    ('\u{9}' <= c && c <= '\u{d}') || c == ' ' || c == '\u{85}' || c == '\u{a0}' || c == '\u{1680}'
        || ('\u{2000}' <= c && c <= '\u{200a}') || c == '\u{2028}' || c == '\u{2029}' || c
        == '\u{202f}' || c == '\u{205f}' || c == '\u{3000}'
}

/// `str::trim`.
pub fn trim(s: &str) -> (t: &str)
    ensures
        t@ == trim_ws(s@),
{
    let n = s.unicode_len();
    let mut a: usize = 0;
    assert(s@.subrange(0, n as int) =~= s@);
    while a < n && is_white_space_char(s.get_char(a))
        invariant
            a <= n,
            n == s@.len(),
            trim_start_ws(s@) == trim_start_ws(s@.subrange(a as int, n as int)),
        decreases n - a,
    {
        assert(s@.subrange(a as int, n as int).drop_first() =~= s@.subrange(a + 1, n as int));
        a = a + 1;
    }
    let mut b: usize = n;
    while b > a && is_white_space_char(s.get_char(b - 1))
        invariant
            a <= b <= n,
            n == s@.len(),
            trim_start_ws(s@) == s@.subrange(a as int, n as int),
            trim_ws(s@) == trim_end_ws(s@.subrange(a as int, b as int)),
        decreases b,
    {
        assert(s@.subrange(a as int, b as int).drop_last() =~= s@.subrange(a as int, b - 1));
        b = b - 1;
    }
    s.substring_char(a, b)
}

/// `Path::join` on two paths written with `/`.
pub fn join_path_str(base: &str, comp: &str) -> (p: String)
    ensures
        p@ == join_path(base@, comp@),
{
    if comp.unicode_len() > 0 && comp.get_char(0) == '/' {
        return String::from_str(comp);
    }
    let n = base.unicode_len();
    let mut p = String::from_str(base);
    if n > 0 && base.get_char(n - 1) != '/' {
        push_char(&mut p, '/');
    }
    p.append(comp);
    p
}

/// First position at or after `i` that holds no white space, or the end.
pub open spec fn skip_ws_from(s: Seq<char>, i: int) -> int
    decreases s.len() - i,
{
    if i >= s.len() {
        s.len() as int
    } else if is_white_space(s[i]) {
        skip_ws_from(s, i + 1)
    } else {
        i
    }
}

/// First position at or after `i` that holds white space, or the end.
pub open spec fn word_end_from(s: Seq<char>, i: int) -> int
    decreases s.len() - i,
{
    if i >= s.len() {
        s.len() as int
    } else if is_white_space(s[i]) {
        i
    } else {
        word_end_from(s, i + 1)
    }
}

/// First position at or after `i` that holds a newline, or the end.
pub open spec fn line_end_from(s: Seq<char>, i: int) -> int
    decreases s.len() - i,
{
    if i >= s.len() {
        s.len() as int
    } else if s[i] == '\n' {
        i
    } else {
        line_end_from(s, i + 1)
    }
}

pub proof fn lemma_scan_bounds(s: Seq<char>, i: int)
    requires
        0 <= i <= s.len(),
    ensures
        i <= skip_ws_from(s, i) <= s.len(),
        i <= word_end_from(s, i) <= s.len(),
        i <= line_end_from(s, i) <= s.len(),
        skip_ws_from(s, i) < s.len() ==> !is_white_space(s[skip_ws_from(s, i)]),
        word_end_from(s, i) < s.len() ==> is_white_space(s[word_end_from(s, i)]),
        line_end_from(s, i) < s.len() ==> s[line_end_from(s, i)] == '\n',
        i < s.len() && !is_white_space(s[i]) ==> i < word_end_from(s, i),
    decreases s.len() - i,
{
    if i < s.len() {
        lemma_scan_bounds(s, i + 1);
    }
}

/// The words of `s[i..]`: its maximal runs without white space.
pub open spec fn words_from(s: Seq<char>, i: int) -> Seq<Seq<char>>
    decreases s.len() - i,
{
    if i < 0 || i >= s.len() {
        Seq::empty()
    } else {
        let a = skip_ws_from(s, i);
        proof {
            lemma_scan_bounds(s, i);
        }
        if a >= s.len() {
            Seq::empty()
        } else {
            let b = word_end_from(s, a);
            proof {
                lemma_scan_bounds(s, a);
            }
            seq![s.subrange(a, b)] + words_from(s, b)
        }
    }
}

/// `str::split_whitespace`.
pub open spec fn words(s: Seq<char>) -> Seq<Seq<char>> {
    words_from(s, 0)
}

/// A line without the carriage return that ended it before its newline.
pub open spec fn strip_cr(line: Seq<char>, ended_by_newline: bool) -> Seq<char> {
    if ended_by_newline && line.len() > 0 && line.last() == '\r' {
        line.drop_last()
    } else {
        line
    }
}

/// The lines of `s[i..]`.
pub open spec fn lines_from(s: Seq<char>, i: int) -> Seq<Seq<char>>
    decreases s.len() - i,
{
    if i < 0 || i >= s.len() {
        Seq::empty()
    } else {
        let j = line_end_from(s, i);
        proof {
            lemma_scan_bounds(s, i);
        }
        if j < s.len() {
            seq![strip_cr(s.subrange(i, j), true)] + lines_from(s, j + 1)
        } else {
            seq![strip_cr(s.subrange(i, j), false)]
        }
    }
}

/// `str::lines`: split at `\n`, a `\r` before it dropped, no line after a
/// final newline.
pub open spec fn lines(s: Seq<char>) -> Seq<Seq<char>> {
    lines_from(s, 0)
}

pub open spec fn views(v: Seq<&str>) -> Seq<Seq<char>> {
    v.map_values(|w: &str| w@)
}

/// `str::split_whitespace`, collected.
pub fn split_whitespace(s: &str) -> (v: Vec<&str>)
    ensures
        views(v@) == words(s@),
{
    let n = s.unicode_len();
    let mut v: Vec<&str> = Vec::new();
    let mut p: usize = 0;
    while p < n
        invariant
            p <= n,
            n == s@.len(),
            views(v@) + words_from(s@, p as int) == words(s@),
        decreases n - p,
    {
        let ghost gp = p as int;
        proof {
            lemma_scan_bounds(s@, gp);
        }
        let mut a = p;
        while a < n && is_white_space_char(s.get_char(a))
            invariant
                p <= a <= n,
                n == s@.len(),
                skip_ws_from(s@, p as int) == skip_ws_from(s@, a as int),
            decreases n - a,
        {
            a = a + 1;
        }
        if a == n {
            assert(words_from(s@, gp) =~= Seq::<Seq<char>>::empty());
            assert(views(v@) + words_from(s@, gp) =~= views(v@));
            p = n;
        } else {
            proof {
                lemma_scan_bounds(s@, a as int);
            }
            let mut b = a;
            while b < n && !is_white_space_char(s.get_char(b))
                invariant
                    a <= b <= n,
                    n == s@.len(),
                    word_end_from(s@, a as int) == word_end_from(s@, b as int),
                decreases n - b,
            {
                b = b + 1;
            }
            let w = s.substring_char(a, b);
            let ghost old_v = views(v@);
            v.push(w);
            assert(views(v@) =~= old_v.push(w@));
            assert(words_from(s@, gp) == seq![w@] + words_from(s@, b as int));
            assert(views(v@) + words_from(s@, b as int) =~= old_v + words_from(s@, gp));
            p = b;
        }
    }
    assert(words_from(s@, p as int) =~= Seq::<Seq<char>>::empty());
    assert(views(v@) + words_from(s@, p as int) =~= views(v@));
    v
}

/// `str::lines`, collected.
pub fn split_lines(s: &str) -> (v: Vec<&str>)
    ensures
        views(v@) == lines(s@),
{
    let n = s.unicode_len();
    let mut v: Vec<&str> = Vec::new();
    let mut p: usize = 0;
    while p < n
        invariant
            p <= n,
            n == s@.len(),
            views(v@) + lines_from(s@, p as int) == lines(s@),
        decreases n - p,
    {
        proof {
            lemma_scan_bounds(s@, p as int);
        }
        let mut j = p;
        while j < n && s.get_char(j) != '\n'
            invariant
                p <= j <= n,
                n == s@.len(),
                line_end_from(s@, p as int) == line_end_from(s@, j as int),
            decreases n - j,
        {
            j = j + 1;
        }
        let e = if j < n && j > p && s.get_char(j - 1) == '\r' {
            j - 1
        } else {
            j
        };
        let w = s.substring_char(p, e);
        let ghost line = s@.subrange(p as int, j as int);
        assert(w@ == strip_cr(line, j < n)) by {
            if j < n && j > p && s@[j - 1] == '\r' {
                assert(line.drop_last() =~= s@.subrange(p as int, e as int));
            }
        }
        let ghost old_v = views(v@);
        v.push(w);
        assert(views(v@) =~= old_v.push(w@));
        let next = if j < n {
            j + 1
        } else {
            n
        };
        assert(lines_from(s@, p as int) =~= seq![w@] + lines_from(s@, next as int));
        assert(views(v@) + lines_from(s@, next as int) =~= old_v + lines_from(s@, p as int));
        p = next;
    }
    assert(lines_from(s@, p as int) =~= Seq::<Seq<char>>::empty());
    assert(views(v@) + lines_from(s@, p as int) =~= views(v@));
    v
}

/// `str::split` at every `sep`: the pieces between separators, at least
/// one, empty ones included.
pub open spec fn split_on(s: Seq<char>, sep: char) -> Seq<Seq<char>>
    decreases s.len(),
{
    if s.len() == 0 {
        seq![Seq::empty()]
    } else {
        let r = split_on(s.drop_last(), sep);
        if s.last() == sep {
            r.push(Seq::empty())
        } else {
            r.update(r.len() - 1, r.last().push(s.last()))
        }
    }
}

pub proof fn lemma_split_on_len(s: Seq<char>, sep: char)
    ensures
        split_on(s, sep).len() >= 1,
    decreases s.len(),
{
    if s.len() > 0 {
        lemma_split_on_len(s.drop_last(), sep);
    }
}

/// `str::split(sep)`, collected.
pub fn split_char(s: &str, sep: char) -> (v: Vec<&str>)
    ensures
        views(v@) == split_on(s@, sep),
{
    let n = s.unicode_len();
    let mut v: Vec<&str> = Vec::new();
    let mut start: usize = 0;
    let mut i: usize = 0;
    assert(s@.take(0) =~= Seq::<char>::empty());
    assert(views(v@).push(s@.subrange(0, 0)) =~= split_on(s@.take(0), sep));
    while i < n
        invariant
            start <= i <= n,
            n == s@.len(),
            views(v@).push(s@.subrange(start as int, i as int)) == split_on(s@.take(i as int), sep),
        decreases n - i,
    {
        let c = s.get_char(i);
        let ghost t = s@.take(i + 1);
        assert(t.drop_last() =~= s@.take(i as int));
        assert(t.last() == c);
        proof {
            lemma_split_on_len(s@.take(i as int), sep);
        }
        if c == sep {
            let piece = s.substring_char(start, i);
            let ghost old_v = views(v@);
            let ghost r = split_on(s@.take(i as int), sep);
            assert(r == old_v.push(piece@));
            assert(split_on(t, sep) == r.push(Seq::<char>::empty()));
            v.push(piece);
            assert(views(v@) =~= old_v.push(piece@));
            start = i + 1;
            assert(s@.subrange(start as int, i + 1) =~= Seq::<char>::empty());
            assert(views(v@).push(s@.subrange(start as int, i + 1)) =~= split_on(t, sep));
        } else {
            let ghost sub = s@.subrange(start as int, i as int);
            let ghost r = split_on(s@.take(i as int), sep);
            assert(sub.push(c) =~= s@.subrange(start as int, i + 1));
            assert(r.last() == sub);
            assert(split_on(t, sep) == r.update(r.len() - 1, sub.push(c)));
            assert(r.update(r.len() - 1, sub.push(c)) =~= views(v@).push(sub.push(c)));
        }
        i = i + 1;
    }
    let last = s.substring_char(start, n);
    let ghost old_v = views(v@);
    v.push(last);
    assert(views(v@) =~= old_v.push(last@));
    assert(s@.take(n as int) =~= s@);
    v
}

/// Whether `c` occurs in `s`.
pub fn contains_char(s: &str, c: char) -> (r: bool)
    ensures
        r == s@.contains(c),
{
    let n = s.unicode_len();
    let mut i: usize = 0;
    while i < n
        invariant
            i <= n,
            n == s@.len(),
            forall|k: int| 0 <= k < i ==> s@[k] != c,
        decreases n - i,
    {
        if s.get_char(i) == c {
            assert(s@[i as int] == c);
            return true;
        }
        i = i + 1;
    }
    false
}

pub proof fn lemma_split_on_no_sep(t: Seq<char>, sep: char)
    requires
        !t.contains(sep),
    ensures
        split_on(t, sep) == seq![t],
    decreases t.len(),
{
    if t.len() > 0 {
        let d = t.drop_last();
        assert(!d.contains(sep)) by {
            if d.contains(sep) {
                let i = choose|i: int| 0 <= i < d.len() && d[i] == sep;
                assert(t[i] == sep);
            }
        }
        lemma_split_on_no_sep(d, sep);
        assert(t[t.len() - 1] != sep);
        assert(d.push(t.last()) =~= t);
        assert(split_on(t, sep) =~= seq![t]);
    } else {
        assert(t =~= Seq::<char>::empty());
    }
}

pub proof fn lemma_split_on_append(s: Seq<char>, t: Seq<char>, sep: char)
    requires
        !t.contains(sep),
    ensures
        split_on(s + seq![sep] + t, sep) == split_on(s, sep) + seq![t],
    decreases t.len(),
{
    let u = s + seq![sep] + t;
    if t.len() == 0 {
        assert(u.drop_last() =~= s);
        assert(u[u.len() - 1] == sep);
        assert(t =~= Seq::<char>::empty());
        assert(split_on(u, sep) == split_on(s, sep).push(Seq::<char>::empty()));
        assert(split_on(u, sep) =~= split_on(s, sep) + seq![t]);
    } else {
        let d = t.drop_last();
        assert(!d.contains(sep)) by {
            if d.contains(sep) {
                let i = choose|i: int| 0 <= i < d.len() && d[i] == sep;
                assert(t[i] == sep);
            }
        }
        lemma_split_on_append(s, d, sep);
        assert(u.drop_last() =~= s + seq![sep] + d);
        assert(u.last() == t.last());
        assert(t[t.len() - 1] != sep);
        assert(d.push(t.last()) =~= t);
        let r = split_on(s + seq![sep] + d, sep);
        assert(r == split_on(s, sep) + seq![d]);
        assert(r.last() == d);
        assert(u.last() != sep);
        assert(split_on(u, sep) == r.update(r.len() - 1, d.push(u.last())));
        assert(split_on(u, sep) =~= split_on(s, sep) + seq![t]);
    }
}

pub proof fn lemma_digits_exclude(s: Seq<char>, c: char)
    requires
        all_digits(s),
        !is_digit(c),
    ensures
        !s.contains(c),
{
    if s.contains(c) {
        let i = choose|i: int| 0 <= i < s.len() && s[i] == c;
        assert(is_digit(s[i]));
    }
}

pub proof fn lemma_decimal_shape(n: nat)
    ensures
        decimal(n).len() > 0,
        all_digits(decimal(n)),
        is_digit(decimal(n)[0]),
        is_digit(decimal(n).last()),
        !decimal(n).contains(','),
        !decimal(n).contains('-'),
        !is_white_space(decimal(n)[0]),
        !is_white_space(decimal(n).last()),
{
    lemma_decimal_digits(n);
    let d = decimal(n);
    assert(is_digit(d[0]));
    assert(is_digit(d[d.len() - 1]));
    lemma_digits_exclude(d, ',');
    lemma_digits_exclude(d, '-');
}

/// The decimal numeral of a signed integer, `-` before a negative one.
pub open spec fn signed_decimal(n: int) -> Seq<char> {
    if n < 0 {
        seq!['-'] + decimal((-n) as nat)
    } else {
        decimal(n as nat)
    }
}

/// The decimal numeral of `n`, as `n.to_string()` writes it.
pub fn signed_decimal_string(n: i64) -> (s: String)
    ensures
        s@ == signed_decimal(n as int),
{
    if n < 0 {
        let m: i128 = -(n as i128);
        let mut s = String::new();
        push_char(&mut s, '-');
        let t = decimal_string(m as u128);
        s.append(t.as_str());
        assert(s@ =~= seq!['-'] + decimal((-n) as nat));
        s
    } else {
        decimal_string(n as u128)
    }
}

/// What `str::parse` gives for a signed integer type whose values run from
/// `-neg_max` to `max`: an optional `+` or `-`, then at least one decimal
/// digit.
pub open spec fn parse_signed(s: Seq<char>, neg_max: nat, max: nat) -> Option<int> {
    if s.len() > 0 && s[0] == '-' {
        let body = s.drop_first();
        if body.len() > 0 && all_digits(body) && digits_value(body) <= neg_max {
            Some(-(digits_value(body) as int))
        } else {
            None
        }
    } else {
        match parse_unsigned(s, max) {
            Some(v) => Some(v as int),
            None => None,
        }
    }
}

/// `str::parse::<i32>`.
pub fn parse_i32(s: &str) -> (r: Option<i32>)
    ensures
        match r {
            Some(v) => parse_signed(s@, 0x8000_0000, 0x7fff_ffff) == Some(v as int),
            None => parse_signed(s@, 0x8000_0000, 0x7fff_ffff) is None,
        },
{
    let n = s.unicode_len();
    if n > 0 && s.get_char(0) == '-' {
        let body = s.substring_char(1, n);
        assert(body@ =~= s@.drop_first());
        if n > 1 && body.get_char(0) == '+' {
            assert(!is_digit(body@[0]));
            return None;
        }
        match parse_unsigned_str(body, 0x8000_0000) {
            Some(v) => {
                let m: i64 = -(v as i64);
                Some(m as i32)
            },
            None => None,
        }
    } else {
        match parse_unsigned_str(s, 0x7fff_ffff) {
            Some(v) => Some(v as i32),
            None => None,
        }
    }
}

/// Whether the two strings hold the same characters.
pub fn str_eq(a: &str, b: &str) -> (r: bool)
    ensures
        r == (a@ == b@),
{
    let n = a.unicode_len();
    if n != b.unicode_len() {
        return false;
    }
    let mut i: usize = 0;
    while i < n
        invariant
            i <= n,
            n == a@.len(),
            n == b@.len(),
            forall|k: int| 0 <= k < i ==> a@[k] == b@[k],
        decreases n - i,
    {
        if a.get_char(i) != b.get_char(i) {
            return false;
        }
        i = i + 1;
    }
    assert(a@ =~= b@);
    true
}

} // verus!
