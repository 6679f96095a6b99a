//! The branch list: the current branch first, the rest by name.
use vstd::prelude::*;

use crate::text::{chars_of, clone_opt};

verus! {

#[derive(Debug, Clone, PartialEq, Eq)]
pub struct BranchInput {
    pub name: String,
    pub upstream: Option<String>,
    pub ahead: usize,
    pub behind: usize,
}

#[derive(Debug, Clone, PartialEq, Eq)]
pub struct BranchEntry {
    pub name: String,
    pub is_head: bool,
    pub upstream: Option<String>,
    pub ahead: usize,
    pub behind: usize,
}

/// Whether `a` sorts strictly before `b` (`str`'s order: by characters,
/// a proper prefix first).
pub open spec fn lex_lt(a: Seq<char>, b: Seq<char>) -> bool
    decreases a.len(),
{
    if b.len() == 0 {
        false
    } else if a.len() == 0 {
        true
    } else if a[0] != b[0] {
        a[0] < b[0]
    } else {
        lex_lt(a.drop_first(), b.drop_first())
    }
}

/// Compares two strings in `str`'s order.
pub fn str_lt(a: &str, b: &str) -> (r: bool)
    ensures
        r == lex_lt(a@, b@),
{
    let x = chars_of(a);
    let y = chars_of(b);
    let mut i: usize = 0;
    assert(x@.skip(0) =~= x@);
    assert(y@.skip(0) =~= y@);
    while i < x.len() && i < y.len() && x[i] == y[i]
        invariant
            i <= x@.len(),
            i <= y@.len(),
            x@.take(i as int) == y@.take(i as int),
            lex_lt(x@, y@) == lex_lt(x@.skip(i as int), y@.skip(i as int)),
        decreases x@.len() - i,
    {
        proof {
            let xs = x@.skip(i as int);
            let ys = y@.skip(i as int);
            assert(xs.drop_first() =~= x@.skip(i + 1));
            assert(ys.drop_first() =~= y@.skip(i + 1));
            assert(x@.take(i + 1) =~= x@.take(i as int).push(x@[i as int]));
            assert(y@.take(i + 1) =~= y@.take(i as int).push(y@[i as int]));
        }
        i = i + 1;
    }
    let ghost xs = x@.skip(i as int);
    let ghost ys = y@.skip(i as int);
    if i == y.len() {
        assert(ys.len() == 0);
        false
    } else if i == x.len() {
        assert(xs.len() == 0);
        true
    } else {
        assert(xs[0] == x@[i as int]);
        assert(ys[0] == y@[i as int]);
        x[i] < y[i]
    }
}

/// An entry as the spec sees it: name, whether it is HEAD, upstream, ahead, behind.
pub type EntryView = (Seq<char>, bool, Option<Seq<char>>, usize, usize);

pub open spec fn opt_view(o: Option<String>) -> Option<Seq<char>> {
    match o {
        Some(s) => Some(s@),
        None => None,
    }
}

pub open spec fn entry_view(e: BranchEntry) -> EntryView {
    (e.name@, e.is_head, opt_view(e.upstream), e.ahead, e.behind)
}

pub open spec fn entries_view(es: Seq<BranchEntry>) -> Seq<EntryView> {
    es.map_values(|e: BranchEntry| entry_view(e))
}

/// The entry of a branch, marked HEAD when it is the checked-out one.
pub open spec fn entry_of(b: BranchInput, head: Option<Seq<char>>) -> EntryView {
    (b.name@, head == Some(b.name@), opt_view(b.upstream), b.ahead, b.behind)
}

/// Whether `x` goes strictly before `y`: HEAD first, then by name.
pub open spec fn goes_before(x: EntryView, y: EntryView) -> bool {
    (x.1 && !y.1) || (x.1 == y.1 && lex_lt(x.0, y.0))
}

/// Where `x` goes into the ordered `l`: before the first entry it goes before.
pub open spec fn insert_pos(l: Seq<EntryView>, x: EntryView) -> int
    decreases l.len(),
{
    if l.len() == 0 {
        0
    } else if goes_before(x, l[0]) {
        0
    } else {
        1 + insert_pos(l.drop_first(), x)
    }
}

/// The stable sort of `s` by [`goes_before`]: each entry, in turn, goes
/// after every earlier entry it does not go before.
pub open spec fn sort_entries(s: Seq<EntryView>) -> Seq<EntryView>
    decreases s.len(),
{
    if s.len() == 0 {
        seq![]
    } else {
        let l = sort_entries(s.drop_last());
        l.insert(insert_pos(l, s.last()), s.last())
    }
}

pub open spec fn head_view(head: Option<&str>) -> Option<Seq<char>> {
    match head {
        Some(h) => Some(h@),
        None => None,
    }
}

proof fn lemma_insert_pos(l: Seq<EntryView>, x: EntryView, i: int)
    requires
        0 <= i <= l.len(),
        forall|j: int| 0 <= j < i ==> !goes_before(x, #[trigger] l[j]),
        i == l.len() || goes_before(x, l[i]),
    ensures
        insert_pos(l, x) == i,
    decreases i,
{
    if i > 0 {
        let t = l.drop_first();
        assert forall|j: int| 0 <= j < i - 1 implies !goes_before(x, #[trigger] t[j]) by {
            assert(t[j] == l[j + 1]);
        }
        lemma_insert_pos(t, x, i - 1);
    }
}

fn goes_before_exec(x: &BranchEntry, y: &BranchEntry) -> (r: bool)
    ensures
        r == goes_before(entry_view(*x), entry_view(*y)),
{
    (x.is_head && !y.is_head) || (x.is_head == y.is_head && str_lt(x.name.as_str(), y.name.as_str()))
}

/// The branch list: one entry per branch, the checked-out branch first,
/// then the rest by name (branches of the same name keep their order).
pub fn branch_list(branches: &[BranchInput], head: Option<&str>) -> (entries: Vec<BranchEntry>)
    ensures
        entries_view(entries@) == sort_entries(
            branches@.map_values(|b: BranchInput| entry_of(b, head_view(head))),
        ),
{
    let ghost input = branches@.map_values(|b: BranchInput| entry_of(b, head_view(head)));
    let mut entries: Vec<BranchEntry> = Vec::new();
    let mut k: usize = 0;
    assert(input.take(0) =~= Seq::<EntryView>::empty());
    assert(entries_view(entries@) =~= Seq::<EntryView>::empty());
    while k < branches.len()
        invariant
            k <= branches@.len(),
            input == branches@.map_values(|b: BranchInput| entry_of(b, head_view(head))),
            entries_view(entries@) == sort_entries(input.take(k as int)),
            entries@.len() == k,
        decreases branches@.len() - k,
    {
        let branch = &branches[k];
        let is_head = match head {
            Some(h) => {
                let same = str_eq(h, branch.name.as_str());
                same
            },
            None => false,
        };
        let entry = BranchEntry {
            name: branch.name.clone(),
            is_head,
            upstream: clone_opt(&branch.upstream),
            ahead: branch.ahead,
            behind: branch.behind,
        };
        assert(entry_view(entry) == input[k as int]);
        let ghost sorted = entries_view(entries@);
        let mut pos: usize = 0;
        while pos < entries.len() && !goes_before_exec(&entry, &entries[pos])
            invariant
                pos <= entries@.len(),
                sorted == entries_view(entries@),
                forall|j: int| 0 <= j < pos ==> !goes_before(entry_view(entry), #[trigger] sorted[j]),
            decreases entries@.len() - pos,
        {
            pos = pos + 1;
        }
        proof {
            lemma_insert_pos(sorted, entry_view(entry), pos as int);
        }
        entries.insert(pos, entry);
        k = k + 1;
        proof {
            let t = input.take(k as int);
            assert(t.drop_last() =~= input.take(k - 1));
            assert(t.last() == entry_view(entry));
            assert(entries_view(entries@) =~= sorted.insert(pos as int, entry_view(entry)));
        }
    }
    assert(input.take(k as int) =~= input);
    entries
}

/// Whether two strings are equal.
pub fn str_eq(a: &str, b: &str) -> (r: bool)
    ensures
        r == (a@ == b@),
{
    let x = chars_of(a);
    let y = chars_of(b);
    if x.len() != y.len() {
        assert(x@.len() != y@.len());
        return false;
    }
    let mut i: usize = 0;
    while i < x.len()
        invariant
            x@ == a@,
            y@ == b@,
            x@.len() == y@.len(),
            i <= x@.len(),
            forall|j: int| 0 <= j < i ==> x@[j] == y@[j],
        decreases x@.len() - i,
    {
        if x[i] != y[i] {
            assert(x@[i as int] != y@[i as int]);
            assert(x@ != y@);
            return false;
        }
        i = i + 1;
    }
    assert(x@ =~= y@);
    true
}

// ---------------------------------------------------------------------------
// Laws
// ---------------------------------------------------------------------------

pub proof fn lemma_lex_trans(a: Seq<char>, b: Seq<char>, c: Seq<char>)
    requires
        lex_lt(a, b),
        lex_lt(b, c),
    ensures
        lex_lt(a, c),
    decreases a.len(),
{
    if a.len() > 0 && b.len() > 0 && c.len() > 0 && a[0] == b[0] && b[0] == c[0] {
        lemma_lex_trans(a.drop_first(), b.drop_first(), c.drop_first());
    }
}

pub proof fn lemma_lex_asym(a: Seq<char>, b: Seq<char>)
    requires
        lex_lt(a, b),
    ensures
        !lex_lt(b, a),
        a != b,
    decreases a.len(),
{
    if a.len() > 0 && b.len() > 0 && a[0] == b[0] {
        lemma_lex_asym(a.drop_first(), b.drop_first());
        if a == b {
            assert(a.drop_first() == b.drop_first());
        }
    }
}

proof fn lemma_before_trans(x: EntryView, y: EntryView, z: EntryView)
    requires
        goes_before(x, y),
        goes_before(y, z),
    ensures
        goes_before(x, z),
{
    if x.1 == y.1 && y.1 == z.1 {
        lemma_lex_trans(x.0, y.0, z.0);
    }
}

proof fn lemma_before_asym(x: EntryView, y: EntryView)
    requires
        goes_before(x, y),
    ensures
        !goes_before(y, x),
{
    if x.1 == y.1 {
        lemma_lex_asym(x.0, y.0);
    }
}

/// Whether no entry of `l` goes before an earlier one.
pub open spec fn in_order(l: Seq<EntryView>) -> bool {
    forall|i: int, j: int| 0 <= i < j < l.len() ==> !goes_before(#[trigger] l[j], #[trigger] l[i])
}

proof fn lemma_insert_pos_props(l: Seq<EntryView>, x: EntryView)
    ensures
        0 <= insert_pos(l, x) <= l.len(),
        forall|j: int| 0 <= j < insert_pos(l, x) ==> !goes_before(x, #[trigger] l[j]),
        insert_pos(l, x) < l.len() ==> goes_before(x, l[insert_pos(l, x)]),
    decreases l.len(),
{
    if l.len() > 0 && !goes_before(x, l[0]) {
        let t = l.drop_first();
        lemma_insert_pos_props(t, x);
        assert forall|j: int| 0 <= j < insert_pos(l, x) implies !goes_before(x, #[trigger] l[j]) by {
            if j > 0 {
                assert(l[j] == t[j - 1]);
            }
        }
    }
}

proof fn lemma_insert_in_order(l: Seq<EntryView>, x: EntryView)
    requires
        in_order(l),
    ensures
        in_order(l.insert(insert_pos(l, x), x)),
{
    lemma_insert_pos_props(l, x);
    let p = insert_pos(l, x);
    let r = l.insert(p, x);
    assert forall|i: int, j: int| 0 <= i < j < r.len() implies !goes_before(#[trigger] r[j], #[trigger] r[i]) by {
        if i < p && j < p {
            assert(r[i] == l[i] && r[j] == l[j]);
        } else if i < p && j == p {
            assert(r[i] == l[i] && r[j] == x);
        } else if i < p {
            assert(r[i] == l[i] && r[j] == l[j - 1]);
        } else if i == p {
            assert(r[i] == x && r[j] == l[j - 1]);
            if goes_before(l[j - 1], x) {
                if j - 1 == p {
                    lemma_before_asym(x, l[p]);
                } else {
                    lemma_before_trans(l[j - 1], x, l[p]);
                }
            }
        } else {
            assert(r[i] == l[i - 1] && r[j] == l[j - 1]);
        }
    }
}

/// The branch list is in order: no entry goes before an earlier one, so the
/// checked-out branch leads and the others follow by name.
pub proof fn law_branch_list_in_order(s: Seq<EntryView>)
    ensures
        in_order(sort_entries(s)),
    decreases s.len(),
{
    if s.len() > 0 {
        law_branch_list_in_order(s.drop_last());
        lemma_insert_in_order(sort_entries(s.drop_last()), s.last());
    }
}

/// The branch list holds every branch once: it is a rearrangement of its input.
pub proof fn law_branch_list_keeps_all(s: Seq<EntryView>)
    ensures
        sort_entries(s).to_multiset() == s.to_multiset(),
        sort_entries(s).len() == s.len(),
    decreases s.len(),
{
    broadcast use vstd::seq_lib::to_multiset_insert, vstd::seq_lib::to_multiset_build;

    if s.len() > 0 {
        law_branch_list_keeps_all(s.drop_last());
        let l = sort_entries(s.drop_last());
        lemma_insert_pos_props(l, s.last());
        assert(s.drop_last().push(s.last()) =~= s);
    } else {
        assert(sort_entries(s) =~= s);
    }
}

/// Two different texts are ordered one way or the other.
pub proof fn lemma_lex_total(a: Seq<char>, b: Seq<char>)
    requires
        a != b,
    ensures
        lex_lt(a, b) || lex_lt(b, a),
    decreases a.len(),
{
    if a.len() > 0 && b.len() > 0 && a[0] == b[0] {
        if a.drop_first() == b.drop_first() {
            assert(a =~= seq![a[0]] + a.drop_first());
            assert(b =~= seq![b[0]] + b.drop_first());
        }
        lemma_lex_total(a.drop_first(), b.drop_first());
    } else if a.len() == 0 && b.len() == 0 {
        assert(a =~= b);
    }
}

} // verus!
