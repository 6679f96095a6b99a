//! Character-level text helpers shared by the parsers: whitespace, trimming,
//! line splitting, searching and decimal numbers, each with the spec function
//! that the parsers' contracts are written over.
use vstd::prelude::*;

verus! {

// ---------------------------------------------------------------------------
// Conversions between `str`/`String` and character vectors
// ---------------------------------------------------------------------------

/// The characters of `s`, in order.
pub fn chars_of(s: &str) -> (out: Vec<char>)
    ensures
        out@ == s@,
{
    let mut out: Vec<char> = Vec::new();
    for c in it: s.chars()
        invariant
            out@ == it.seq().take(it.index() as int),
            it.seq() == s@,
    {
        out.push(c);
    }
    out
}

/// Appends one character to a string (`String::push`).
#[verifier::external_body]
pub fn push_char(s: &mut String, c: char)
    ensures
        final(s)@ == old(s)@.push(c),
{
    s.push(c);
}

/// Appends a string slice to a string.
pub fn push_str(s: &mut String, tail: &str)
    ensures
        final(s)@ == old(s)@ + tail@,
{
    let cs = chars_of(tail);
    push_chars(s, &cs, 0, cs.len());
}

/// Appends `cs[from..to]` to `s`.
pub fn push_chars(s: &mut String, cs: &Vec<char>, from: usize, to: usize)
    requires
        from <= to <= cs@.len(),
    ensures
        final(s)@ == old(s)@ + cs@.subrange(from as int, to as int),
{
    let ghost start = s@;
    let mut i = from;
    while i < to
        invariant
            from <= i <= to <= cs@.len(),
            s@ == start + cs@.subrange(from as int, i as int),
        decreases to - i,
    {
        push_char(s, cs[i]);
        i = i + 1;
        assert(cs@.subrange(from as int, i as int) =~= cs@.subrange(from as int, (i - 1) as int).push(cs@[i - 1]));
    }
}

/// A string holding `cs[from..to]`.
pub fn string_of(cs: &Vec<char>, from: usize, to: usize) -> (out: String)
    requires
        from <= to <= cs@.len(),
    ensures
        out@ == cs@.subrange(from as int, to as int),
{
    let mut out = String::new();
    push_chars(&mut out, cs, 0, 0);
    push_chars(&mut out, cs, from, to);
    assert(Seq::<char>::empty() + cs@.subrange(from as int, to as int) =~= cs@.subrange(from as int, to as int));
    out
}

/// A string holding all of `cs`.
pub fn string_from(cs: &Vec<char>) -> (out: String)
    ensures
        out@ == cs@,
{
    let out = string_of(cs, 0, cs.len());
    assert(cs@.subrange(0, cs@.len() as int) =~= cs@);
    out
}

// ---------------------------------------------------------------------------
// Whitespace and trimming
// ---------------------------------------------------------------------------

/// The Unicode `White_Space` property, which `char::is_whitespace` tests.
pub open spec fn is_ws(c: char) -> bool {
    ||| ('\u{9}' <= c && c <= '\u{d}')
    ||| c == ' '
    ||| c == '\u{85}'
    ||| c == '\u{a0}'
    ||| c == '\u{1680}'
    ||| ('\u{2000}' <= c && c <= '\u{200a}')
    ||| c == '\u{2028}'
    ||| c == '\u{2029}'
    ||| c == '\u{202f}'
    ||| c == '\u{205f}'
    ||| c == '\u{3000}'
}

/// Whether `c` is Unicode whitespace.
pub fn is_whitespace(c: char) -> (r: bool)
    ensures
        r == is_ws(c),
{
    ('\u{9}' <= c && c <= '\u{d}') || c == ' ' || c == '\u{85}' || c == '\u{a0}' || c
        == '\u{1680}' || ('\u{2000}' <= c && c <= '\u{200a}') || c == '\u{2028}' || c
        == '\u{2029}' || c == '\u{202f}' || c == '\u{205f}' || c == '\u{3000}'
}

/// `s` without its leading whitespace.
pub open spec fn trim_start(s: Seq<char>) -> Seq<char>
    decreases s.len(),
{
    if s.len() > 0 && is_ws(s[0]) {
        trim_start(s.drop_first())
    } else {
        s
    }
}

/// `s` without its trailing whitespace.
pub open spec fn trim_end(s: Seq<char>) -> Seq<char>
    decreases s.len(),
{
    if s.len() > 0 && is_ws(s.last()) {
        trim_end(s.drop_last())
    } else {
        s
    }
}

/// `s` without leading and trailing whitespace (`str::trim`).
pub open spec fn trim(s: Seq<char>) -> Seq<char> {
    trim_end(trim_start(s))
}

pub proof fn lemma_trim_start_at(s: Seq<char>, i: int)
    requires
        0 <= i <= s.len(),
        forall|j: int| 0 <= j < i ==> is_ws(#[trigger] s[j]),
        i == s.len() || !is_ws(s[i]),
    ensures
        trim_start(s) == s.skip(i),
    decreases i,
{
    if i == 0 {
        assert(s.skip(0) =~= s);
    } else {
        let t = s.drop_first();
        assert forall|j: int| 0 <= j < i - 1 implies is_ws(#[trigger] t[j]) by {
            assert(t[j] == s[j + 1]);
        }
        lemma_trim_start_at(t, i - 1);
        assert(t.skip(i - 1) =~= s.skip(i));
    }
}

pub proof fn lemma_trim_end_at(s: Seq<char>, k: int)
    requires
        0 <= k <= s.len(),
        forall|j: int| k <= j < s.len() ==> is_ws(#[trigger] s[j]),
        k == 0 || !is_ws(s[k - 1]),
    ensures
        trim_end(s) == s.take(k),
    decreases s.len() - k,
{
    if k == s.len() {
        assert(s.take(k) =~= s);
    } else {
        let t = s.drop_last();
        assert forall|j: int| k <= j < t.len() implies is_ws(#[trigger] t[j]) by {
            assert(t[j] == s[j]);
        }
        lemma_trim_end_at(t, k);
        assert(t.take(k) =~= s.take(k));
    }
}

/// The bounds `(a, b)` of `cs[from..to]` with surrounding whitespace removed.
pub fn trim_bounds(cs: &Vec<char>, from: usize, to: usize) -> (r: (usize, usize))
    requires
        from <= to <= cs@.len(),
    ensures
        from <= r.0 <= r.1 <= to,
        cs@.subrange(r.0 as int, r.1 as int) == trim(cs@.subrange(from as int, to as int)),
{
    let ghost s = cs@.subrange(from as int, to as int);
    let mut a = from;
    while a < to && is_whitespace(cs[a])
        invariant
            from <= a <= to <= cs@.len(),
            forall|j: int| from <= j < a ==> is_ws(#[trigger] cs@[j]),
        decreases to - a,
    {
        a = a + 1;
    }
    proof {
        assert forall|j: int| 0 <= j < a - from implies is_ws(#[trigger] s[j]) by {
            assert(s[j] == cs@[j + from]);
        }
        lemma_trim_start_at(s, a - from);
    }
    let mut b = to;
    while b > a && is_whitespace(cs[b - 1])
        invariant
            from <= a <= b <= to <= cs@.len(),
            forall|j: int| b <= j < to ==> is_ws(#[trigger] cs@[j]),
        decreases b - a,
    {
        b = b - 1;
    }
    proof {
        let t = s.skip(a - from);
        assert(t =~= cs@.subrange(a as int, to as int));
        assert forall|j: int| b - a <= j < t.len() implies is_ws(#[trigger] t[j]) by {
            assert(t[j] == cs@[j + a]);
        }
        lemma_trim_end_at(t, b - a);
        assert(t.take(b - a) =~= cs@.subrange(a as int, b as int));
    }
    (a, b)
}

// ---------------------------------------------------------------------------
// Searching
// ---------------------------------------------------------------------------

/// The index of the first `c` in `s`, or `s.len()` when there is none.
pub open spec fn find_char(s: Seq<char>, c: char) -> int
    decreases s.len(),
{
    if s.len() == 0 {
        0
    } else if s[0] == c {
        0
    } else {
        1 + find_char(s.drop_first(), c)
    }
}

pub proof fn lemma_find_char(s: Seq<char>, c: char, i: int)
    requires
        0 <= i <= s.len(),
        forall|j: int| 0 <= j < i ==> #[trigger] s[j] != c,
        i == s.len() || s[i] == c,
    ensures
        find_char(s, c) == i,
    decreases i,
{
    if i > 0 {
        let t = s.drop_first();
        assert forall|j: int| 0 <= j < i - 1 implies #[trigger] t[j] != c by {
            assert(t[j] == s[j + 1]);
        }
        lemma_find_char(t, c, i - 1);
    }
}

pub proof fn lemma_find_char_bounds(s: Seq<char>, c: char)
    ensures
        0 <= find_char(s, c) <= s.len(),
        forall|j: int| 0 <= j < find_char(s, c) ==> #[trigger] s[j] != c,
        find_char(s, c) < s.len() ==> s[find_char(s, c)] == c,
    decreases s.len(),
{
    if s.len() > 0 && s[0] != c {
        let t = s.drop_first();
        lemma_find_char_bounds(t, c);
        assert forall|j: int| 0 <= j < find_char(s, c) implies #[trigger] s[j] != c by {
            if j > 0 {
                assert(s[j] == t[j - 1]);
            }
        }
    }
}

/// The index of the first `c` in `cs[from..to]`, counted from `from`, or `to - from`.
pub fn find_in(cs: &Vec<char>, from: usize, to: usize, c: char) -> (r: usize)
    requires
        from <= to <= cs@.len(),
    ensures
        r == find_char(cs@.subrange(from as int, to as int), c),
        r <= to - from,
{
    let mut i = from;
    while i < to && cs[i] != c
        invariant
            from <= i <= to <= cs@.len(),
            forall|j: int| from <= j < i ==> #[trigger] cs@[j] != c,
        decreases to - i,
    {
        i = i + 1;
    }
    proof {
        let s = cs@.subrange(from as int, to as int);
        assert forall|j: int| 0 <= j < i - from implies #[trigger] s[j] != c by {
            assert(s[j] == cs@[j + from]);
        }
        lemma_find_char(s, c, i - from);
    }
    i - from
}

/// Whether `p` is a prefix of `s`.
pub open spec fn has_prefix(s: Seq<char>, p: Seq<char>) -> bool {
    p.len() <= s.len() && s.take(p.len() as int) == p
}

/// Whether `p` occurs in `s` as a contiguous piece.
pub open spec fn contains_seq(s: Seq<char>, p: Seq<char>) -> bool {
    exists|i: int| 0 <= i <= s.len() - p.len() && #[trigger] s.subrange(i, i + p.len()) == p
}

/// Whether `cs[from..]` begins with `p`.
pub fn starts_at(cs: &Vec<char>, from: usize, p: &Vec<char>) -> (r: bool)
    requires
        from <= cs@.len(),
    ensures
        r == has_prefix(cs@.skip(from as int), p@),
{
    if p.len() > cs.len() - from {
        return false;
    }
    let mut i: usize = 0;
    while i < p.len()
        invariant
            from <= cs@.len(),
            p@.len() <= cs@.len() - from,
            from + p@.len() <= cs.len(),
            i <= p@.len(),
            forall|j: int| 0 <= j < i ==> cs@[from + j] == p@[j],
        decreases p@.len() - i,
    {
        if cs[from + i] != p[i] {
            assert(cs@.skip(from as int).take(p@.len() as int)[i as int] != p@[i as int]);
            return false;
        }
        i = i + 1;
    }
    assert(cs@.skip(from as int).take(p@.len() as int) =~= p@);
    true
}

/// Whether `s` starts with `p`.
pub fn str_starts_with(s: &str, p: &str) -> (r: bool)
    ensures
        r == has_prefix(s@, p@),
{
    let cs = chars_of(s);
    let ps = chars_of(p);
    assert(cs@.skip(0) =~= cs@);
    starts_at(&cs, 0, &ps)
}

/// Whether `p` occurs in `s` (`str::contains` with a string pattern).
pub fn str_contains(s: &str, p: &str) -> (r: bool)
    ensures
        r == contains_seq(s@, p@),
{
    let cs = chars_of(s);
    let ps = chars_of(p);
    if ps.len() > cs.len() {
        assert(!contains_seq(s@, p@));
        return false;
    }
    let last = cs.len() - ps.len();
    let mut i: usize = 0;
    loop
        invariant
            cs@ == s@,
            ps@ == p@,
            ps@.len() <= cs@.len(),
            last == cs@.len() - ps@.len(),
            i <= last,
            forall|k: int| 0 <= k < i ==> #[trigger] cs@.subrange(k, k + ps@.len()) != ps@,
        decreases last - i,
    {
        assert(cs@.skip(i as int).take(ps@.len() as int) =~= cs@.subrange(
            i as int,
            i + ps@.len(),
        ));
        if starts_at(&cs, i, &ps) {
            return true;
        }
        if i == last {
            return false;
        }
        i = i + 1;
    }
}

// ---------------------------------------------------------------------------
// Lines
// ---------------------------------------------------------------------------

/// `l` without one trailing carriage return.
pub open spec fn strip_cr(l: Seq<char>) -> Seq<char> {
    if l.len() > 0 && l.last() == '\r' {
        l.drop_last()
    } else {
        l
    }
}

/// The lines of `s` as `str::lines` yields them: split at `\n`, a `\r` just
/// before the `\n` dropped, and no empty line after a final `\n`.
pub open spec fn lines(s: Seq<char>) -> Seq<Seq<char>>
    decreases s.len(),
{
    if s.len() == 0 {
        seq![]
    } else {
        let i = find_char(s, '\n');
        if i >= s.len() || i < 0 {
            seq![s]
        } else {
            seq![strip_cr(s.take(i))] + lines(s.skip(i + 1))
        }
    }
}

/// A line as a half-open range of character positions.
pub struct Span {
    pub start: usize,
    pub end: usize,
}

/// The characters a span covers.
pub open spec fn span_text(cs: Seq<char>, sp: Span) -> Seq<char> {
    cs.subrange(sp.start as int, sp.end as int)
}

/// The lines of `cs`, as ranges into it.
pub fn line_spans(cs: &Vec<char>) -> (out: Vec<Span>)
    ensures
        out@.len() == lines(cs@).len(),
        forall|k: int|
            0 <= k < out@.len() ==> {
                &&& (#[trigger] out@[k]).start <= out@[k].end <= cs@.len()
                &&& span_text(cs@, out@[k]) == lines(cs@)[k]
            },
{
    let mut out: Vec<Span> = Vec::new();
    let mut start: usize = 0;
    let n = cs.len();
    assert(cs@.skip(0) =~= cs@);
    assert(out@.map_values(|sp: Span| span_text(cs@, sp)) + lines(cs@) =~= lines(cs@));
    while start < n
        invariant
            n == cs@.len(),
            start <= n,
            lines(cs@) == out@.map_values(|sp: Span| span_text(cs@, sp)) + lines(cs@.skip(start as int)),
            forall|k: int|
                0 <= k < out@.len() ==> (#[trigger] out@[k]).start <= out@[k].end <= cs@.len(),
        decreases n - start,
    {
        let ghost rest = cs@.skip(start as int);
        let i = find_in(cs, start, n, '\n');
        assert(cs@.subrange(start as int, n as int) =~= rest);
        proof {
            lemma_find_char_bounds(rest, '\n');
        }
        let old_out = Ghost(out@);
        if i == n - start {
            out.push(Span { start, end: n });
            assert(lines(rest) == seq![rest]);
            assert(lines(cs@.skip(n as int)) =~= Seq::<Seq<char>>::empty()) by {
                assert(cs@.skip(n as int).len() == 0);
            }
            assert(out@.map_values(|sp: Span| span_text(cs@, sp)) =~= old_out@.map_values(
                |sp: Span| span_text(cs@, sp),
            ).push(rest));
            start = n;
        } else {
            let mut end = start + i;
            if end > start && cs[end - 1] == '\r' {
                end = end - 1;
            }
            out.push(Span { start, end });
            let ghost line = strip_cr(rest.take(i as int));
            assert(line =~= cs@.subrange(start as int, end as int));
            assert(rest.skip(i + 1) =~= cs@.skip(start + i + 1));
            assert(lines(rest) == seq![line] + lines(rest.skip(i + 1)));
            assert(out@.map_values(|sp: Span| span_text(cs@, sp)) =~= old_out@.map_values(
                |sp: Span| span_text(cs@, sp),
            ).push(line));
            start = start + i + 1;
        }
    }
    assert(cs@.skip(n as int).len() == 0);
    assert(lines(cs@.skip(start as int)) =~= Seq::<Seq<char>>::empty());
    assert(out@.map_values(|sp: Span| span_text(cs@, sp)) + Seq::<Seq<char>>::empty() =~= out@.map_values(|sp: Span| span_text(cs@, sp)));
    out
}

// ---------------------------------------------------------------------------
// Decimal numbers
// ---------------------------------------------------------------------------

/// Whether `c` is an ASCII decimal digit.
pub open spec fn is_digit(c: char) -> bool {
    '0' <= c && c <= '9'
}

/// The value of a run of decimal digits.
pub open spec fn digits_value(s: Seq<char>) -> nat
    decreases s.len(),
{
    if s.len() == 0 {
        0
    } else {
        digits_value(s.drop_last()) * 10 + ((s.last() as int - '0' as int) as nat)
    }
}

/// Whether `s` is a non-empty run of decimal digits.
pub open spec fn all_digits(s: Seq<char>) -> bool {
    s.len() > 0 && forall|j: int| 0 <= j < s.len() ==> is_digit(#[trigger] s[j])
}

/// The unsigned value `str::parse::<usize>` gives `s`: an optional `+`, then
/// digits whose value fits a `usize`.
pub open spec fn parse_usize(s: Seq<char>) -> Option<usize> {
    let d = if s.len() > 0 && s[0] == '+' {
        s.drop_first()
    } else {
        s
    };
    if all_digits(d) && digits_value(d) <= usize::MAX {
        Some(digits_value(d) as usize)
    } else {
        None
    }
}

/// The signed value `str::parse::<i64>` gives `s`: an optional sign, then
/// digits whose signed value fits an `i64`.
pub open spec fn parse_i64(s: Seq<char>) -> Option<i64> {
    if s.len() > 0 && s[0] == '-' {
        let d = s.drop_first();
        if all_digits(d) && digits_value(d) <= 0x8000_0000_0000_0000 {
            Some((-(digits_value(d) as int)) as i64)
        } else {
            None
        }
    } else {
        let d = if s.len() > 0 && s[0] == '+' {
            s.drop_first()
        } else {
            s
        };
        if all_digits(d) && digits_value(d) <= i64::MAX {
            Some(digits_value(d) as i64)
        } else {
            None
        }
    }
}

proof fn lemma_digits_value_grows(s: Seq<char>, i: int)
    requires
        0 <= i <= s.len(),
        forall|j: int| 0 <= j < s.len() ==> is_digit(#[trigger] s[j]),
    ensures
        digits_value(s.take(i)) <= digits_value(s),
    decreases s.len() - i,
{
    if i < s.len() {
        let t = s.drop_last();
        assert forall|j: int| 0 <= j < t.len() implies is_digit(#[trigger] t[j]) by {
            assert(t[j] == s[j]);
        }
        lemma_digits_value_grows(t, i);
        assert(t.take(i) =~= s.take(i));
    } else {
        assert(s.take(i) =~= s);
    }
}

/// The value of the digits `cs[from..to]`, or `None` when they are not all
/// digits, there are none, or the value passes `limit`.
fn digits_upto(cs: &Vec<char>, from: usize, to: usize, limit: u64) -> (r: Option<u64>)
    requires
        from <= to <= cs@.len(),
        9 <= limit,
    ensures
        ({
            let d = cs@.subrange(from as int, to as int);
            match r {
                Some(v) => all_digits(d) && digits_value(d) == v && v <= limit,
                None => !(all_digits(d) && digits_value(d) <= limit),
            }
        }),
{
    let ghost d = cs@.subrange(from as int, to as int);
    if from == to {
        return None;
    }
    let mut i = from;
    let mut value: u64 = 0;
    while i < to
        invariant
            from <= i <= to <= cs@.len(),
            d == cs@.subrange(from as int, to as int),
            forall|j: int| from <= j < i ==> is_digit(#[trigger] cs@[j]),
            value == digits_value(d.take(i - from)),
            value <= limit,
            9 <= limit,
        decreases to - i,
    {
        let c = cs[i];
        if !('0' <= c && c <= '9') {
            assert(d[i - from] == c);
            return None;
        }
        let digit = (c as u64) - ('0' as u64);
        proof {
            assert(d.take(i - from + 1).drop_last() =~= d.take(i - from));
            assert(d.take(i - from + 1).last() == c);
        }
        if value > (limit - digit) / 10 {
            proof {
                assert(value * 10 + digit > limit) by (nonlinear_arith)
                    requires
                        value > (limit - digit) / 10,
                        digit <= 9,
                        9 <= limit,
                ;
                if all_digits(d) {
                    lemma_digits_value_grows(d, i - from + 1);
                }
            }
            return None;
        }
        value = value * 10 + digit;
        i = i + 1;
    }
    proof {
        assert(d.take(to - from) =~= d);
        assert forall|j: int| 0 <= j < d.len() implies is_digit(#[trigger] d[j]) by {
            assert(d[j] == cs@[j + from]);
        }
    }
    Some(value)
}

/// `str::parse::<usize>` on `cs[from..to]`.
pub fn parse_usize_in(cs: &Vec<char>, from: usize, to: usize) -> (r: Option<usize>)
    requires
        from <= to <= cs@.len(),
    ensures
        r == parse_usize(cs@.subrange(from as int, to as int)),
{
    let ghost s = cs@.subrange(from as int, to as int);
    let mut a = from;
    if a < to && cs[a] == '+' {
        a = a + 1;
        assert(s.drop_first() =~= cs@.subrange(a as int, to as int));
    } else {
        assert(s =~= cs@.subrange(a as int, to as int));
    }
    let limit = usize::MAX as u64;
    match digits_upto(cs, a, to, limit) {
        Some(v) => Some(v as usize),
        None => None,
    }
}

/// `str::parse::<i64>` on `cs[from..to]`.
pub fn parse_i64_in(cs: &Vec<char>, from: usize, to: usize) -> (r: Option<i64>)
    requires
        from <= to <= cs@.len(),
    ensures
        r == parse_i64(cs@.subrange(from as int, to as int)),
{
    let ghost s = cs@.subrange(from as int, to as int);
    if from < to && cs[from] == '-' {
        assert(s.drop_first() =~= cs@.subrange(from + 1, to as int));
        match digits_upto(cs, from + 1, to, 0x8000_0000_0000_0000u64) {
            Some(v) => {
                if v == 0x8000_0000_0000_0000u64 {
                    Some(i64::MIN)
                } else {
                    Some(-(v as i64))
                }
            },
            None => None,
        }
    } else {
        let mut a = from;
        if a < to && cs[a] == '+' {
            a = a + 1;
            assert(s.drop_first() =~= cs@.subrange(a as int, to as int));
        } else {
            assert(s =~= cs@.subrange(a as int, to as int));
        }
        match digits_upto(cs, a, to, i64::MAX as u64) {
            Some(v) => Some(v as i64),
            None => None,
        }
    }
}

/// `str::trim().parse::<usize>()` on a whole string.
pub fn parse_trimmed_usize(s: &str) -> (r: Option<usize>)
    ensures
        r == parse_usize(trim(s@)),
{
    let cs = chars_of(s);
    let (a, b) = trim_bounds(&cs, 0, cs.len());
    assert(cs@.subrange(0, cs@.len() as int) =~= s@);
    parse_usize_in(&cs, a, b)
}

/// The views of a list of strings.
pub open spec fn strs(ps: Seq<String>) -> Seq<Seq<char>> {
    ps.map_values(|p: String| p@)
}

/// The lines of `text`, as `str::lines` yields them.
pub fn lines_of(text: &str) -> (out: Vec<String>)
    ensures
        strs(out@) == lines(text@),
{
    let cs = chars_of(text);
    let spans = line_spans(&cs);
    let mut out: Vec<String> = Vec::new();
    let mut k: usize = 0;
    while k < spans.len()
        invariant
            cs@ == text@,
            spans@.len() == lines(cs@).len(),
            forall|q: int|
                0 <= q < spans@.len() ==> {
                    &&& (#[trigger] spans@[q]).start <= spans@[q].end <= cs@.len()
                    &&& span_text(cs@, spans@[q]) == lines(cs@)[q]
                },
            k <= spans@.len(),
            strs(out@) == lines(cs@).take(k as int),
        decreases spans@.len() - k,
    {
        let sp = &spans[k];
        let line = string_of(&cs, sp.start, sp.end);
        assert(line@ == lines(cs@)[k as int]);
        let ghost prev = strs(out@);
        out.push(line);
        assert(strs(out@) =~= prev.push(line@));
        k = k + 1;
        assert(strs(out@) =~= lines(cs@).take(k as int));
    }
    assert(lines(cs@).take(k as int) =~= lines(cs@));
    out
}

/// Each line followed by a line feed, all run together.
pub open spec fn unlines(ls: Seq<Seq<char>>) -> Seq<char>
    decreases ls.len(),
{
    if ls.len() == 0 {
        seq![]
    } else {
        unlines(ls.drop_last()) + ls.last().push('\n')
    }
}

/// The lines joined by line feeds (`[String]::join("\n")`).
pub open spec fn join_lines(ls: Seq<Seq<char>>) -> Seq<char>
    decreases ls.len(),
{
    if ls.len() == 0 {
        seq![]
    } else if ls.len() == 1 {
        ls[0]
    } else {
        join_lines(ls.drop_last()).push('\n') + ls.last()
    }
}

/// Joining lines and ending with a line feed runs each line's own line feed together.
pub proof fn lemma_join_then_newline(ls: Seq<Seq<char>>)
    requires
        ls.len() > 0,
    ensures
        join_lines(ls).push('\n') == unlines(ls),
    decreases ls.len(),
{
    if ls.len() == 1 {
        assert(ls.drop_last() =~= Seq::<Seq<char>>::empty());
        assert(unlines(ls.drop_last()) == Seq::<char>::empty());
        assert(unlines(ls) =~= Seq::<char>::empty() + ls[0].push('\n'));
        assert(join_lines(ls) == ls[0]);
    } else {
        lemma_join_then_newline(ls.drop_last());
        assert(join_lines(ls).push('\n') =~= join_lines(ls.drop_last()).push('\n') + ls.last().push(
            '\n',
        ));
    }
}

/// Lines joined by line feeds, with a final line feed.
pub fn join_with_newline(ls: &Vec<String>) -> (out: String)
    ensures
        out@ == (if ls@.len() == 0 {
            seq!['\n']
        } else {
            unlines(strs(ls@))
        }),
{
    let mut out = String::new();
    let mut k: usize = 0;
    while k < ls.len()
        invariant
            k <= ls@.len(),
            out@ == unlines(strs(ls@).take(k as int)),
        decreases ls@.len() - k,
    {
        let ghost prev = out@;
        push_str(&mut out, ls[k].as_str());
        push_char(&mut out, '\n');
        k = k + 1;
        proof {
            let t = strs(ls@).take(k as int);
            assert(t.drop_last() =~= strs(ls@).take(k - 1));
            assert(t.last() == ls@[k - 1]@);
            assert(out@ =~= prev + ls@[k - 1]@.push('\n'));
        }
    }
    assert(strs(ls@).take(k as int) =~= strs(ls@));
    if ls.len() == 0 {
        push_char(&mut out, '\n');
        assert(out@ =~= seq!['\n']);
    }
    out
}

/// The pieces of `s` between the separators `c` (`str::split` with a
/// character): one more piece than there are separators.
pub open spec fn splits(s: Seq<char>, c: char) -> Seq<Seq<char>>
    decreases s.len(),
{
    let i = find_char(s, c);
    if i >= s.len() || i < 0 {
        seq![s]
    } else {
        seq![s.take(i)] + splits(s.skip(i + 1), c)
    }
}

/// The pieces of `cs[from..to]` between separators `c`, as ranges into `cs`.
pub fn split_spans(cs: &Vec<char>, from: usize, to: usize, c: char) -> (out: Vec<Span>)
    requires
        from <= to <= cs@.len(),
    ensures
        out@.len() == splits(cs@.subrange(from as int, to as int), c).len(),
        forall|k: int|
            0 <= k < out@.len() ==> {
                &&& from <= (#[trigger] out@[k]).start <= out@[k].end <= to
                &&& span_text(cs@, out@[k]) == splits(cs@.subrange(from as int, to as int), c)[k]
            },
{
    let ghost whole = cs@.subrange(from as int, to as int);
    let mut out: Vec<Span> = Vec::new();
    let mut start = from;
    assert(cs@.subrange(start as int, to as int) =~= whole);
    assert(out@.map_values(|sp: Span| span_text(cs@, sp)) + splits(whole, c) =~= splits(whole, c));
    loop
        invariant_except_break
            splits(whole, c) == out@.map_values(|sp: Span| span_text(cs@, sp)) + splits(
                cs@.subrange(start as int, to as int),
                c,
            ),
        invariant
            from <= start <= to <= cs@.len(),
            whole == cs@.subrange(from as int, to as int),
            forall|k: int|
                0 <= k < out@.len() ==> from <= (#[trigger] out@[k]).start <= out@[k].end <= to,
        ensures
            splits(whole, c) == out@.map_values(|sp: Span| span_text(cs@, sp)),
        decreases to - start,
    {
        let ghost rest = cs@.subrange(start as int, to as int);
        let i = find_in(cs, start, to, c);
        proof {
            lemma_find_char_bounds(rest, c);
        }
        let ghost prev = out@.map_values(|sp: Span| span_text(cs@, sp));
        if i == to - start {
            out.push(Span { start, end: to });
            assert(splits(rest, c) == seq![rest]);
            assert(out@.map_values(|sp: Span| span_text(cs@, sp)) =~= prev.push(rest));
            assert(splits(whole, c) =~= out@.map_values(|sp: Span| span_text(cs@, sp)));
            break;
        } else {
            out.push(Span { start, end: start + i });
            assert(rest.take(i as int) =~= cs@.subrange(start as int, start + i));
            assert(rest.skip(i + 1) =~= cs@.subrange(start + i + 1, to as int));
            assert(out@.map_values(|sp: Span| span_text(cs@, sp)) =~= prev.push(rest.take(i as int)));
            assert(splits(rest, c) == seq![rest.take(i as int)] + splits(rest.skip(i + 1), c));
            assert(splits(whole, c) =~= out@.map_values(|sp: Span| span_text(cs@, sp)) + splits(
                cs@.subrange(start + i + 1, to as int),
                c,
            ));
            start = start + i + 1;
        }
    }
    proof {
        assert forall|k: int| 0 <= k < out@.len() implies span_text(cs@, #[trigger] out@[k])
            == splits(whole, c)[k] by {
            assert(splits(whole, c)[k] == out@.map_values(|sp: Span| span_text(cs@, sp))[k]);
        }
    }
    out
}

/// Whether `cs[from..to]` begins with `p`.
pub fn starts_within(cs: &Vec<char>, from: usize, to: usize, p: &Vec<char>) -> (r: bool)
    requires
        from <= to <= cs@.len(),
    ensures
        r == has_prefix(cs@.subrange(from as int, to as int), p@),
{
    if p.len() > to - from {
        return false;
    }
    let mut i: usize = 0;
    while i < p.len()
        invariant
            from <= to <= cs@.len(),
            p@.len() <= to - from,
            i <= p@.len(),
            forall|j: int| 0 <= j < i ==> cs@[from + j] == p@[j],
        decreases p@.len() - i,
    {
        if cs[from + i] != p[i] {
            assert(cs@.subrange(from as int, to as int).take(p@.len() as int)[i as int] != p@[i as int]);
            return false;
        }
        i = i + 1;
    }
    assert(cs@.subrange(from as int, to as int).take(p@.len() as int) =~= p@);
    true
}

/// Whether `cs[from..to]` is exactly `p`.
pub fn range_eq(cs: &Vec<char>, from: usize, to: usize, p: &Vec<char>) -> (r: bool)
    requires
        from <= to <= cs@.len(),
    ensures
        r == (cs@.subrange(from as int, to as int) == p@),
{
    if p.len() != to - from {
        return false;
    }
    let r = starts_within(cs, from, to, p);
    assert(cs@.subrange(from as int, to as int).take(p@.len() as int) =~= cs@.subrange(from as int, to as int));
    r
}

/// The first place `p` starts in `s`, or `s.len()` when it does not occur.
pub open spec fn find_seq(s: Seq<char>, p: Seq<char>) -> int {
    if exists|i: int| 0 <= i <= s.len() - p.len() && #[trigger] s.subrange(i, i + p.len()) == p {
        choose|i: int|
            0 <= i <= s.len() - p.len() && #[trigger] s.subrange(i, i + p.len()) == p && forall|j: int|
                0 <= j < i ==> #[trigger] s.subrange(j, j + p.len()) != p
    } else {
        s.len() as int
    }
}

proof fn lemma_find_seq_at(s: Seq<char>, p: Seq<char>, i: int)
    requires
        0 <= i <= s.len(),
        forall|j: int| 0 <= j < i && j <= s.len() - p.len() ==> #[trigger] s.subrange(j, j + p.len()) != p,
        i == s.len() || (i <= s.len() - p.len() && s.subrange(i, i + p.len()) == p),
        i < s.len() || forall|j: int| 0 <= j <= s.len() - p.len() ==> #[trigger] s.subrange(j, j + p.len()) != p,
    ensures
        find_seq(s, p) == i,
{
    if i < s.len() {
        assert(exists|k: int| 0 <= k <= s.len() - p.len() && #[trigger] s.subrange(k, k + p.len()) == p);
        let k = find_seq(s, p);
        if k < i {
            assert(s.subrange(k, k + p.len()) != p);
        } else if k > i {
            assert(s.subrange(i, i + p.len()) != p);
        }
    } else {
        assert(!exists|k: int| 0 <= k <= s.len() - p.len() && #[trigger] s.subrange(k, k + p.len()) == p);
    }
}

/// Where `p` first starts in `cs[from..to]`, counted from `from`, or `to - from`.
pub fn find_seq_in(cs: &Vec<char>, from: usize, to: usize, p: &Vec<char>) -> (r: usize)
    requires
        from <= to <= cs@.len(),
        p@.len() > 0,
    ensures
        r == find_seq(cs@.subrange(from as int, to as int), p@),
        r <= to - from,
        r < to - from ==> r + p@.len() <= to - from,
{
    let ghost s = cs@.subrange(from as int, to as int);
    let mut i = from;
    while i < to
        invariant
            from <= i <= to <= cs@.len(),
            p@.len() > 0,
            s == cs@.subrange(from as int, to as int),
            forall|j: int| 0 <= j < i - from && j <= s.len() - p@.len() ==> #[trigger] s.subrange(j, j + p@.len()) != p@,
        decreases to - i,
    {
        if starts_within(cs, i, to, p) {
            proof {
                assert(cs@.subrange(i as int, to as int).take(p@.len() as int) =~= s.subrange(
                    i - from,
                    i - from + p@.len(),
                ));
                lemma_find_seq_at(s, p@, i - from);
            }
            return i - from;
        }
        proof {
            if i - from <= s.len() - p@.len() {
                assert(cs@.subrange(i as int, to as int).take(p@.len() as int) =~= s.subrange(
                    i - from,
                    i - from + p@.len(),
                ));
            }
        }
        i = i + 1;
    }
    proof {
        lemma_find_seq_at(s, p@, s.len() as int);
    }
    to - from
}

/// A copy of an optional string.
pub fn clone_opt(o: &Option<String>) -> (r: Option<String>)
    ensures
        r == *o,
{
    match o {
        Some(s) => Some(s.clone()),
        None => None,
    }
}

// ---------------------------------------------------------------------------
// Writing numbers
// ---------------------------------------------------------------------------

pub open spec fn digit(d: nat) -> char {
    seq!['0', '1', '2', '3', '4', '5', '6', '7', '8', '9'][d as int]
}

/// `n` in decimal.
pub open spec fn decimal(n: nat) -> Seq<char>
    decreases n,
{
    if n < 10 {
        seq![digit(n)]
    } else {
        decimal(n / 10).push(digit(n % 10))
    }
}

/// A number has at least one decimal digit, and at most one more than a
/// tenth of it.
pub proof fn lemma_decimal_len_bound(n: nat)
    ensures
        1 <= decimal(n).len() <= 1 + n / 10,
    decreases n,
{
    if n >= 10 {
        lemma_decimal_len_bound(n / 10);
        assert(n / 10 / 10 + 1 <= n / 10);
    }
}

/// Appends `n` in decimal.
pub fn push_decimal(out: &mut String, n: usize)
    ensures
        final(out)@ == old(out)@ + decimal(n as nat),
    decreases n,
{
    if n >= 10 {
        push_decimal(out, n / 10);
    }
    let ds: [char; 10] = ['0', '1', '2', '3', '4', '5', '6', '7', '8', '9'];
    let d = n % 10;
    assert(ds@ =~= seq!['0', '1', '2', '3', '4', '5', '6', '7', '8', '9']);
    push_char(out, ds[d]);
    if n < 10 {
        assert(old(out)@ + decimal(n as nat) =~= old(out)@.push(digit(n as nat)));
    } else {
        assert(old(out)@ + decimal(n as nat) =~= (old(out)@ + decimal((n / 10) as nat)).push(
            digit((n % 10) as nat),
        ));
    }
}

/// Appends `n` in decimal.
pub fn push_decimal_u64(out: &mut String, n: u64)
    ensures
        final(out)@ == old(out)@ + decimal(n as nat),
    decreases n,
{
    if n >= 10 {
        push_decimal_u64(out, n / 10);
    }
    let ds: [char; 10] = ['0', '1', '2', '3', '4', '5', '6', '7', '8', '9'];
    let d = (n % 10) as usize;
    assert(ds@ =~= seq!['0', '1', '2', '3', '4', '5', '6', '7', '8', '9']);
    push_char(out, ds[d]);
    if n < 10 {
        assert(old(out)@ + decimal(n as nat) =~= old(out)@.push(digit(n as nat)));
    } else {
        assert(old(out)@ + decimal(n as nat) =~= (old(out)@ + decimal((n / 10) as nat)).push(
            digit((n % 10) as nat),
        ));
    }
}

/// The index of the last `c` in `s`, or -1 when there is none.
pub open spec fn find_last(s: Seq<char>, c: char) -> int
    decreases s.len(),
{
    if s.len() == 0 {
        -1
    } else if s.last() == c {
        s.len() - 1
    } else {
        find_last(s.drop_last(), c)
    }
}

/// Where `c` last occurs in `cs`.
pub fn last_index_of(cs: &Vec<char>, c: char) -> (r: Option<usize>)
    ensures
        match r {
            Some(i) => find_last(cs@, c) == i as int && i < cs@.len(),
            None => find_last(cs@, c) == -1,
        },
{
    let mut i = cs.len();
    assert(cs@.take(i as int) =~= cs@);
    while i > 0
        invariant
            i <= cs@.len(),
            find_last(cs@, c) == find_last(cs@.take(i as int), c),
        decreases i,
    {
        if cs[i - 1] == c {
            assert(cs@.take(i as int).last() == c);
            return Some(i - 1);
        }
        assert(cs@.take(i as int).drop_last() =~= cs@.take(i - 1));
        i = i - 1;
    }
    None
}

} // verus!
