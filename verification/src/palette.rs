//! Fuzzy filtering for the command palette: a query matches a label when its
//! characters occur in the label in order, and matches are ranked by how
//! well they sit (word starts and runs of adjacent characters score more).
use vstd::prelude::*;

use vstd::string::StrSliceExecFns;

use crate::text::chars_of;

verus! {

/// The lowercase form of a text, as `str::to_lowercase` maps it (Unicode's
/// full case mapping, which can change the length).
pub uninterp spec fn lowercase(s: Seq<char>) -> Seq<char>;

/// Whether a character is alphabetic or numeric in Unicode, as
/// `char::is_alphanumeric` decides.
pub uninterp spec fn alphanumeric(c: char) -> bool;

/// `str::to_lowercase`.
#[verifier::external_body]
fn to_lower(s: &str) -> (r: String)
    ensures
        r@ == lowercase(s@),
{
    s.to_lowercase()
}

/// `char::is_alphanumeric`.
#[verifier::external_body]
fn is_alnum(c: char) -> (r: bool)
    ensures
        r == alphanumeric(c),
{
    c.is_alphanumeric()
}

/// The match of query `q` over label `l` from position `pos` on, with
/// `matched` query characters matched so far, `score` points so far and the
/// last match at `prev`: each matched character scores 1, 10 more at the
/// start of a word, 5 more right after the previous match. Returns the
/// number of query characters matched and the score.
pub open spec fn score_run(
    q: Seq<char>,
    l: Seq<char>,
    pos: int,
    matched: int,
    score: int,
    prev: Option<int>,
) -> (int, int)
    decreases l.len() - pos,
{
    if pos < 0 || pos >= l.len() {
        (matched, score)
    } else if 0 <= matched < q.len() && l[pos] == q[matched] {
        let start = pos == 0 || !alphanumeric(l[pos - 1]);
        let adjacent = prev == Some(pos - 1);
        score_run(
            q,
            l,
            pos + 1,
            matched + 1,
            score + 1 + (if start {
                10int
            } else {
                0int
            }) + (if adjacent {
                5int
            } else {
                0int
            }),
            Some(pos),
        )
    } else {
        score_run(q, l, pos + 1, matched, score, prev)
    }
}

/// The score of a label for a query, both already lowercased, when the
/// whole query matches.
pub open spec fn lowered_score(q: Seq<char>, l: Seq<char>) -> Option<int> {
    let run = score_run(q, l, 0, 0, 0, None);
    if run.0 == q.len() {
        Some(run.1)
    } else {
        None
    }
}

/// The score of a label for a query, compared case-insensitively, when the
/// whole query matches.
pub open spec fn score_spec(query: Seq<char>, label: Seq<char>) -> Option<int> {
    lowered_score(lowercase(query), lowercase(label))
}

/// The score of a label for a query that are both lowercase already: each
/// matched character 1, 10 more at the start of a word, 5 more right after
/// the previous match; nothing when the query's characters do not all occur
/// in the label in order.
pub fn score_lowered(query: &str, label: &str) -> (r: Option<i128>)
    ensures
        match (r, lowered_score(query@, label@)) {
            (Some(a), Some(b)) => a == b,
            (None, None) => true,
            _ => false,
        },
{
    let q = chars_of(query);
    let l = chars_of(label);
    let mut matched: usize = 0;
    let mut total: i128 = 0;
    let mut previous: Option<usize> = None;
    let mut position: usize = 0;
    while position < l.len()
        invariant
            position <= l@.len(),
            matched <= q@.len(),
            matched <= position,
            0 <= total <= 16 * matched,
            previous matches Some(p) ==> p < position,
            q@ == query@,
            l@ == label@,
            score_run(q@, l@, 0, 0, 0, None) == score_run(
                q@,
                l@,
                position as int,
                matched as int,
                total as int,
                match previous {
                    Some(p) => Some(p as int),
                    None => None,
                },
            ),
        decreases l@.len() - position,
    {
        let character = l[position];
        if matched < q.len() && character == q[matched] {
            let mut gain: i128 = 1;
            if position == 0 || !is_alnum(l[position - 1]) {
                gain = gain + 10;
            }
            let adjacent = match previous {
                Some(p) => position == p + 1,
                None => false,
            };
            if adjacent {
                gain = gain + 5;
            }
            total = total + gain;
            previous = Some(position);
            matched = matched + 1;
        }
        position = position + 1;
    }
    if matched == q.len() {
        Some(total)
    } else {
        None
    }
}

fn score(query: &str, label: &str) -> (r: Option<i128>)
    ensures
        match (r, score_spec(query@, label@)) {
            (Some(a), Some(b)) => a == b,
            (None, None) => true,
            _ => false,
        },
{
    let qs = to_lower(query);
    let ls = to_lower(label);
    score_lowered(qs.as_str(), ls.as_str())
}

/// Positions `f` of the label `l` that spell the query `q`, left to right.
pub open spec fn picks(f: Seq<int>, q: Seq<char>, l: Seq<char>) -> bool {
    &&& f.len() == q.len()
    &&& forall|i: int, j: int| #![trigger f[i], f[j]] 0 <= i < j < f.len() ==> f[i] < f[j]
    &&& forall|i: int| 0 <= i < f.len() ==> 0 <= #[trigger] f[i] < l.len() && l[f[i]] == q[i]
}

/// Whether the characters of `q` occur in `l` in order, not necessarily
/// next to each other.
pub open spec fn is_subsequence(q: Seq<char>, l: Seq<char>) -> bool {
    exists|f: Seq<int>| #[trigger] picks(f, q, l)
}

proof fn lemma_subsequence_step(q: Seq<char>, a: Seq<char>)
    requires
        q.len() > 0,
        a.len() > 0,
    ensures
        a[0] == q[0] ==> (is_subsequence(q, a) <==> is_subsequence(q.drop_first(), a.drop_first())),
        a[0] != q[0] ==> (is_subsequence(q, a) <==> is_subsequence(q, a.drop_first())),
{
    let r = a.drop_first();
    let t = q.drop_first();
    if a[0] == q[0] {
        if is_subsequence(q, a) {
            let f = choose|f: Seq<int>| #[trigger] picks(f, q, a);
            let g = f.drop_first().map_values(|x: int| x - 1);
            assert forall|i: int| 0 <= i < g.len() implies 0 <= #[trigger] g[i] < r.len() && r[g[i]] == t[i] by {
                assert(f[0] < f[i + 1]);
                assert(g[i] == f[i + 1] - 1);
            }
            assert forall|i: int, j: int| #![trigger g[i], g[j]] 0 <= i < j < g.len() implies g[i] < g[j] by {
                assert(f[i + 1] < f[j + 1]);
            }
            assert(picks(g, t, r));
        }
        if is_subsequence(t, r) {
            let g = choose|g: Seq<int>| #[trigger] picks(g, t, r);
            let f = seq![0int] + g.map_values(|x: int| x + 1);
            assert forall|i: int| 0 <= i < f.len() implies 0 <= #[trigger] f[i] < a.len() && a[f[i]] == q[i] by {
                if i > 0 {
                    assert(f[i] == g[i - 1] + 1);
                }
            }
            assert forall|i: int, j: int| #![trigger f[i], f[j]] 0 <= i < j < f.len() implies f[i] < f[j] by {
                assert(f[j] == g[j - 1] + 1);
                if i > 0 {
                    assert(f[i] == g[i - 1] + 1);
                    assert(g[i - 1] < g[j - 1]);
                } else {
                    assert(g[j - 1] >= 0);
                }
            }
            assert(picks(f, q, a));
        }
    } else {
        if is_subsequence(q, a) {
            let f = choose|f: Seq<int>| #[trigger] picks(f, q, a);
            let g = f.map_values(|x: int| x - 1);
            assert forall|i: int| 0 <= i < g.len() implies 0 <= #[trigger] g[i] < r.len() && r[g[i]] == q[i] by {
                assert(f[0] != 0);
                if i > 0 {
                    assert(f[0] < f[i]);
                }
                assert(g[i] == f[i] - 1);
            }
            assert forall|i: int, j: int| #![trigger g[i], g[j]] 0 <= i < j < g.len() implies g[i] < g[j] by {
                assert(f[i] < f[j]);
            }
            assert(picks(g, q, r));
        }
        if is_subsequence(q, r) {
            let g = choose|g: Seq<int>| #[trigger] picks(g, q, r);
            let f = g.map_values(|x: int| x + 1);
            assert forall|i: int| 0 <= i < f.len() implies 0 <= #[trigger] f[i] < a.len() && a[f[i]] == q[i] by {
                assert(f[i] == g[i] + 1);
            }
            assert forall|i: int, j: int| #![trigger f[i], f[j]] 0 <= i < j < f.len() implies f[i] < f[j] by {
                assert(g[i] < g[j]);
            }
            assert(picks(f, q, a));
        }
    }
}

proof fn lemma_run_matches_all(
    q: Seq<char>,
    l: Seq<char>,
    pos: int,
    m: int,
    score: int,
    prev: Option<int>,
)
    requires
        0 <= pos <= l.len(),
        0 <= m <= q.len(),
    ensures
        score_run(q, l, pos, m, score, prev).0 == q.len() <==> is_subsequence(q.skip(m), l.skip(pos)),
    decreases l.len() - pos,
{
    let qs = q.skip(m);
    let ls = l.skip(pos);
    if m == q.len() {
        assert(picks(seq![], qs, ls));
    }
    if pos == l.len() {
        if is_subsequence(qs, ls) {
            let f = choose|f: Seq<int>| #[trigger] picks(f, qs, ls);
            if qs.len() > 0 {
                assert(0 <= f[0] < ls.len());
            }
        }
    } else {
        assert(ls.drop_first() =~= l.skip(pos + 1));
        assert(ls[0] == l[pos]);
        if m < q.len() {
            assert(qs.drop_first() =~= q.skip(m + 1));
            assert(qs[0] == q[m]);
            lemma_subsequence_step(qs, ls);
            if l[pos] == q[m] {
                let start = pos == 0 || !alphanumeric(l[pos - 1]);
                let adjacent = prev == Some(pos - 1);
                lemma_run_matches_all(
                    q,
                    l,
                    pos + 1,
                    m + 1,
                    score + 1 + (if start {
                        10int
                    } else {
                        0int
                    }) + (if adjacent {
                        5int
                    } else {
                        0int
                    }),
                    Some(pos),
                );
            } else {
                lemma_run_matches_all(q, l, pos + 1, m, score, prev);
            }
        } else {
            lemma_run_matches_all(q, l, pos + 1, m, score, prev);
            assert(picks(seq![], qs, l.skip(pos + 1)));
        }
    }
}

/// A label gets a score for a query exactly when the lowercased query's
/// characters occur in the lowercased label in order.
pub proof fn law_scored_exactly_when_subsequence(query: Seq<char>, label: Seq<char>)
    ensures
        score_spec(query, label) is Some <==> is_subsequence(lowercase(query), lowercase(label)),
{
    let q = lowercase(query);
    let l = lowercase(label);
    lemma_run_matches_all(q, l, 0, 0, 0, None);
    assert(q.skip(0) =~= q);
    assert(l.skip(0) =~= l);
}

/// Inserts a match after every match that scores at least as much.
pub open spec fn rank_pos(l: Seq<(usize, int)>, x: (usize, int)) -> int
    decreases l.len(),
{
    if l.len() == 0 {
        0
    } else if l[0].1 < x.1 {
        0
    } else {
        1 + rank_pos(l.drop_first(), x)
    }
}

/// The matches among the first `n` labels, best score first, ties in label order.
pub open spec fn ranked(query: Seq<char>, labels: Seq<Seq<char>>, n: int) -> Seq<(usize, int)>
    decreases n,
{
    if n <= 0 {
        seq![]
    } else {
        let l = ranked(query, labels, n - 1);
        match score_spec(query, labels[n - 1]) {
            Some(s) => l.insert(rank_pos(l, ((n - 1) as usize, s)), ((n - 1) as usize, s)),
            None => l,
        }
    }
}

pub open spec fn strs_of(labels: Seq<&str>) -> Seq<Seq<char>> {
    labels.map_values(|l: &str| l@)
}

/// The indexes a query selects: every label in order for an empty query,
/// otherwise the matching labels, best first.
pub open spec fn filter_spec(query: Seq<char>, labels: Seq<Seq<char>>) -> Seq<usize> {
    if query.len() == 0 {
        Seq::new(labels.len(), |i: int| i as usize)
    } else {
        ranked(query, labels, labels.len() as int).map_values(|m: (usize, int)| m.0)
    }
}

proof fn lemma_rank_pos(l: Seq<(usize, int)>, x: (usize, int), i: int)
    requires
        0 <= i <= l.len(),
        forall|j: int| 0 <= j < i ==> !((#[trigger] l[j]).1 < x.1),
        i == l.len() || l[i].1 < x.1,
    ensures
        rank_pos(l, x) == i,
    decreases i,
{
    if i > 0 {
        let t = l.drop_first();
        assert forall|j: int| 0 <= j < i - 1 implies !((#[trigger] t[j]).1 < x.1) by {
            assert(t[j] == l[j + 1]);
        }
        lemma_rank_pos(t, x, i - 1);
    }
}

/// The labels a query selects, by index: all of them, in order, when the
/// query is empty; otherwise those whose characters contain the query's in
/// order, ignoring case, the best scored first and ties in label order.
pub fn fuzzy_filter(query: &str, labels: &[&str]) -> (r: Vec<usize>)
    ensures
        r@ == filter_spec(query@, strs_of(labels@)),
        forall|k: int| 0 <= k < r@.len() ==> #[trigger] r@[k] < labels@.len(),
{
    proof {
        assert(strs_of(labels@).len() == labels.len());
        lemma_filter_indexes(query@, strs_of(labels@));
    }
    let ghost ls = strs_of(labels@);
    if query.unicode_len() == 0 {
        let mut all: Vec<usize> = Vec::new();
        let mut i: usize = 0;
        while i < labels.len()
            invariant
                i <= labels@.len(),
                all@.len() == i,
                forall|j: int| 0 <= j < i ==> #[trigger] all@[j] == j,
            decreases labels@.len() - i,
        {
            all.push(i);
            i = i + 1;
        }
        assert(all@ =~= Seq::new(labels@.len(), |i: int| i as usize));
        return all;
    }
    let mut scored: Vec<(usize, i128)> = Vec::new();
    let mut index: usize = 0;
    while index < labels.len()
        invariant
            index <= labels@.len(),
            ls == strs_of(labels@),
            scored@.map_values(|m: (usize, i128)| (m.0, m.1 as int)) == ranked(query@, ls, index as int),
        decreases labels@.len() - index,
    {
        let ghost before = scored@.map_values(|m: (usize, i128)| (m.0, m.1 as int));
        match score(query, labels[index]) {
            Some(value) => {
                let ghost x = (index, value as int);
                let mut pos: usize = 0;
                while pos < scored.len() && !(scored[pos].1 < value)
                    invariant
                        pos <= scored@.len(),
                        x == (index, value as int),
                        before == scored@.map_values(|m: (usize, i128)| (m.0, m.1 as int)),
                        forall|j: int| 0 <= j < pos ==> !((#[trigger] before[j]).1 < x.1),
                    decreases scored@.len() - pos,
                {
                    assert(before[pos as int].1 == scored@[pos as int].1 as int);
                    pos = pos + 1;
                }
                proof {
                    if pos < scored@.len() {
                        assert(before[pos as int].1 == scored@[pos as int].1 as int);
                    }
                    lemma_rank_pos(before, x, pos as int);
                }
                scored.insert(pos, (index, value));
                assert(scored@.map_values(|m: (usize, i128)| (m.0, m.1 as int)) =~= before.insert(
                    pos as int,
                    x,
                ));
            },
            None => {},
        }
        index = index + 1;
    }
    let mut out: Vec<usize> = Vec::new();
    let mut k: usize = 0;
    let ghost rk = ranked(query@, ls, labels@.len() as int);
    while k < scored.len()
        invariant
            k <= scored@.len(),
            rk == scored@.map_values(|m: (usize, i128)| (m.0, m.1 as int)),
            out@ == rk.map_values(|m: (usize, int)| m.0).take(k as int),
        decreases scored@.len() - k,
    {
        out.push(scored[k].0);
        k = k + 1;
        assert(out@ =~= rk.map_values(|m: (usize, int)| m.0).take(k as int));
    }
    assert(rk.map_values(|m: (usize, int)| m.0).take(k as int) =~= rk.map_values(
        |m: (usize, int)| m.0,
    ));
    proof {
        assert(out@ == filter_spec(query@, ls));
        assert forall|k: int| 0 <= k < out@.len() implies #[trigger] out@[k] < labels@.len() by {
            assert(filter_spec(query@, ls)[k] < ls.len());
        }
    }
    out
}

proof fn lemma_rank_pos_bounds(l: Seq<(usize, int)>, x: (usize, int))
    ensures
        0 <= rank_pos(l, x) <= l.len(),
    decreases l.len(),
{
    if l.len() > 0 && !(l[0].1 < x.1) {
        lemma_rank_pos_bounds(l.drop_first(), x);
    }
}

proof fn lemma_ranked_indexes(query: Seq<char>, labels: Seq<Seq<char>>, n: int)
    requires
        0 <= n <= usize::MAX + 1,
    ensures
        forall|i: int|
            0 <= i < ranked(query, labels, n).len() ==> (#[trigger] ranked(query, labels, n)[i]).0 < n,
    decreases n,
{
    if n > 0 {
        lemma_ranked_indexes(query, labels, n - 1);
        let l = ranked(query, labels, n - 1);
        match score_spec(query, labels[n - 1]) {
            Some(s) => {
                let x = ((n - 1) as usize, s);
                lemma_rank_pos_bounds(l, x);
                let p = rank_pos(l, x);
                let r = l.insert(p, x);
                assert forall|i: int| 0 <= i < r.len() implies (#[trigger] r[i]).0 < n by {
                    if i < p {
                        assert(r[i] == l[i]);
                    } else if i > p {
                        assert(r[i] == l[i - 1]);
                    }
                }
            },
            None => {},
        }
    }
}

/// Every index a query selects names a label.
pub proof fn lemma_filter_indexes(query: Seq<char>, labels: Seq<Seq<char>>)
    requires
        labels.len() <= usize::MAX,
    ensures
        forall|i: int|
            0 <= i < filter_spec(query, labels).len() ==> #[trigger] filter_spec(query, labels)[i]
                < labels.len(),
{
    if query.len() > 0 {
        lemma_ranked_indexes(query, labels, labels.len() as int);
    }
}

/// A ranking of matches: each names one of the first `n` labels with its
/// score, every matching label among them appears, none twice, best score
/// first and ties in label order.
pub open spec fn ranks_matches(query: Seq<char>, labels: Seq<Seq<char>>, n: int, l: Seq<(usize, int)>) -> bool {
    &&& forall|k: int|
        0 <= k < l.len() ==> (#[trigger] l[k]).0 < n && score_spec(query, labels[l[k].0 as int]) == Some(l[k].1)
    &&& forall|i: int|
        0 <= i < n && (#[trigger] score_spec(query, labels[i])) is Some ==> exists|k: int|
            0 <= k < l.len() && (#[trigger] l[k]).0 == i
    &&& forall|a: int, b: int|
        #![trigger l[a], l[b]]
        0 <= a < b < l.len() ==> l[a].0 != l[b].0 && (l[a].1 > l[b].1 || (l[a].1 == l[b].1 && l[a].0 < l[b].0))
}

proof fn lemma_rank_pos_first(l: Seq<(usize, int)>, x: (usize, int))
    ensures
        0 <= rank_pos(l, x) <= l.len(),
        forall|j: int| 0 <= j < rank_pos(l, x) ==> (#[trigger] l[j]).1 >= x.1,
        rank_pos(l, x) < l.len() ==> l[rank_pos(l, x)].1 < x.1,
    decreases l.len(),
{
    if l.len() > 0 && !(l[0].1 < x.1) {
        let t = l.drop_first();
        lemma_rank_pos_first(t, x);
        assert forall|j: int| 0 <= j < rank_pos(l, x) implies (#[trigger] l[j]).1 >= x.1 by {
            if j > 0 {
                assert(l[j] == t[j - 1]);
            }
        }
        if rank_pos(l, x) < l.len() {
            assert(l[rank_pos(l, x)] == t[rank_pos(t, x)]);
        }
    }
}

#[verifier::rlimit(40)]
proof fn lemma_ranked_ranks(query: Seq<char>, labels: Seq<Seq<char>>, n: int)
    requires
        0 <= n <= labels.len(),
        labels.len() <= usize::MAX,
    ensures
        ranks_matches(query, labels, n, ranked(query, labels, n)),
    decreases n,
{
    if n > 0 {
        lemma_ranked_ranks(query, labels, n - 1);
        let l = ranked(query, labels, n - 1);
        match score_spec(query, labels[n - 1]) {
            Some(sc) => {
                let x = ((n - 1) as usize, sc);
                lemma_rank_pos_first(l, x);
                let p = rank_pos(l, x);
                let r = l.insert(p, x);
                assert(r == ranked(query, labels, n));
                assert forall|k: int| 0 <= k < r.len() implies (#[trigger] r[k]).0 < n && score_spec(
                    query,
                    labels[r[k].0 as int],
                ) == Some(r[k].1) by {
                    if k < p {
                        assert(r[k] == l[k]);
                    } else if k > p {
                        assert(r[k] == l[k - 1]);
                    }
                }
                assert forall|i: int|
                    0 <= i < n && (#[trigger] score_spec(query, labels[i])) is Some implies exists|k: int|
                    0 <= k < r.len() && (#[trigger] r[k]).0 == i by {
                    if i == n - 1 {
                        assert(r[p].0 == i);
                    } else {
                        let k = choose|k: int| 0 <= k < l.len() && (#[trigger] l[k]).0 == i;
                        if k < p {
                            assert(r[k] == l[k]);
                        } else {
                            assert(r[k + 1] == l[k]);
                        }
                    }
                }
                assert forall|a: int, b: int| #![trigger r[a], r[b]] 0 <= a < b < r.len() implies r[a].0 != r[b].0
                    && (r[a].1 > r[b].1 || (r[a].1 == r[b].1 && r[a].0 < r[b].0)) by {
                    if b < p {
                        assert(r[a] == l[a] && r[b] == l[b]);
                    } else if b == p {
                        assert(r[a] == l[a]);
                        assert(l[a].1 >= x.1);
                    } else if a < p {
                        assert(r[a] == l[a] && r[b] == l[b - 1]);
                        assert(l[a].1 >= x.1);
                        assert(l[p].1 < x.1);
                        if b - 1 > p {
                            assert(l[p].1 >= l[b - 1].1);
                        }
                    } else if a == p {
                        assert(r[b] == l[b - 1]);
                        assert(l[p].1 < x.1);
                        if b - 1 > p {
                            assert(l[p].1 >= l[b - 1].1);
                        }
                    } else {
                        assert(r[a] == l[a - 1] && r[b] == l[b - 1]);
                    }
                }
            },
            None => {
                assert forall|i: int|
                    0 <= i < n && (#[trigger] score_spec(query, labels[i])) is Some implies exists|k: int|
                    0 <= k < l.len() && (#[trigger] l[k]).0 == i by {
                    assert(i < n - 1);
                }
            },
        }
    }
}

/// A query with characters selects exactly the labels it matches, each
/// once: those with the better score first, and among equal scores the
/// earlier label first.
pub proof fn law_filter_selects_the_matches(query: Seq<char>, labels: Seq<Seq<char>>)
    requires
        query.len() > 0,
        labels.len() <= usize::MAX,
    ensures
        ({
            let r = filter_spec(query, labels);
            &&& forall|k: int| 0 <= k < r.len() ==> #[trigger] r[k] < labels.len()
            &&& forall|i: int|
                0 <= i < labels.len() ==> (r.contains(i as usize) <==> (#[trigger] score_spec(query, labels[i])) is Some)
            &&& forall|a: int, b: int|
                #![trigger r[a], r[b]]
                0 <= a < b < r.len() ==> {
                    let sa = score_spec(query, labels[r[a] as int])->0;
                    let sb = score_spec(query, labels[r[b] as int])->0;
                    r[a] != r[b] && (sa > sb || (sa == sb && r[a] < r[b]))
                }
        }),
{
    let n = labels.len() as int;
    lemma_filter_indexes(query, labels);
    lemma_ranked_ranks(query, labels, n);
    let l = ranked(query, labels, n);
    let r = filter_spec(query, labels);
    assert(r == l.map_values(|m: (usize, int)| m.0));
    assert forall|i: int|
        0 <= i < labels.len() implies (r.contains(i as usize) <==> (#[trigger] score_spec(query, labels[i])) is Some) by {
        if score_spec(query, labels[i]) is Some {
            let k = choose|k: int| 0 <= k < l.len() && (#[trigger] l[k]).0 == i;
            assert(r[k] == i as usize);
        }
        if r.contains(i as usize) {
            let k = choose|k: int| 0 <= k < r.len() && r[k] == i as usize;
            assert(l[k].0 == i as usize);
            assert(score_spec(query, labels[l[k].0 as int]) == Some(l[k].1));
        }
    }
    assert forall|a: int, b: int| #![trigger r[a], r[b]] 0 <= a < b < r.len() implies {
        let sa = score_spec(query, labels[r[a] as int])->0;
        let sb = score_spec(query, labels[r[b] as int])->0;
        r[a] != r[b] && (sa > sb || (sa == sb && r[a] < r[b]))
    } by {
        assert(r[a] == l[a].0 && r[b] == l[b].0);
        assert(score_spec(query, labels[l[a].0 as int]) == Some(l[a].1));
        assert(score_spec(query, labels[l[b].0 as int]) == Some(l[b].1));
    }
}

/// A query with characters selects exactly the labels that hold the
/// query's characters in order, both lowercased.
pub proof fn law_filter_selects_subsequences(query: Seq<char>, labels: Seq<Seq<char>>)
    requires
        query.len() > 0,
        labels.len() <= usize::MAX,
    ensures
        forall|i: int|
            0 <= i < labels.len() ==> (filter_spec(query, labels).contains(i as usize) <==> is_subsequence(
                lowercase(query),
                lowercase(#[trigger] labels[i]),
            )),
{
    law_filter_selects_the_matches(query, labels);
    assert forall|i: int| 0 <= i < labels.len() implies (filter_spec(query, labels).contains(i as usize)
        <==> is_subsequence(lowercase(query), lowercase(#[trigger] labels[i]))) by {
        law_scored_exactly_when_subsequence(query, labels[i]);
        assert(filter_spec(query, labels).contains(i as usize) <==> score_spec(query, labels[i]) is Some);
    }
}

} // verus!
