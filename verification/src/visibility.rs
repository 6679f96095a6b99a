//! Which branches the graph shows: hidden branches, pinned branches that
//! stay visible whatever is hidden, and solo mode.
use vstd::prelude::*;

use crate::branches::{lemma_lex_asym, lemma_lex_total, lemma_lex_trans, lex_lt, str_eq, str_lt};
use crate::text::strs;

verus! {

#[derive(Debug, Clone, PartialEq, Eq)]
pub struct VisibilitySnapshot {
    pub hidden: Vec<String>,
    pub pinned: Vec<String>,
}

impl VisibilitySnapshot {
    /// The hidden and pinned names as sets, the way `Visibility` sees them.
    pub open spec fn view_sets(&self) -> (Set<Seq<char>>, Set<Seq<char>>) {
        (strs(self.hidden@).to_set(), strs(self.pinned@).to_set())
    }
}

/// Whether no two of the names are the same.
pub open spec fn distinct(s: Seq<Seq<char>>) -> bool {
    forall|i: int, j: int| 0 <= i < j < s.len() ==> #[trigger] s[i] != #[trigger] s[j]
}

/// Whether the names are in strictly increasing order.
pub open spec fn ascending(s: Seq<Seq<char>>) -> bool {
    forall|i: int, j: int| 0 <= i < j < s.len() ==> lex_lt(#[trigger] s[i], #[trigger] s[j])
}

/// The hidden and pinned branch names.
pub struct Visibility {
    hidden: Vec<String>,
    pinned: Vec<String>,
}

impl View for Visibility {
    type V = (Set<Seq<char>>, Set<Seq<char>>);

    closed spec fn view(&self) -> (Set<Seq<char>>, Set<Seq<char>>) {
        (strs(self.hidden@).to_set(), strs(self.pinned@).to_set())
    }
}

/// `set` with `name` added when it was absent and removed when present.
pub open spec fn flip(set: Set<Seq<char>>, name: Seq<char>) -> Set<Seq<char>> {
    if set.contains(name) {
        set.remove(name)
    } else {
        set.insert(name)
    }
}

/// The branches solo mode hides: every other name of `all` that is not pinned.
pub open spec fn solo_target(name: Seq<char>, all: Seq<Seq<char>>, pinned: Set<Seq<char>>) -> Set<
    Seq<char>,
> {
    all.to_set().filter(|o: Seq<char>| o != name && !pinned.contains(o))
}

/// Solo mode: hide the target, or show everything again when exactly the
/// target is hidden already.
pub open spec fn solo_spec(hidden: Set<Seq<char>>, target: Set<Seq<char>>) -> Set<Seq<char>> {
    if hidden == target {
        Set::empty()
    } else {
        target
    }
}

pub open spec fn strs_of(all: Seq<&str>) -> Seq<Seq<char>> {
    all.map_values(|a: &str| a@)
}

/// Where `name` is in `v`, if it is.
fn position_of(v: &Vec<String>, name: &str) -> (r: Option<usize>)
    ensures
        match r {
            Some(i) => i < v@.len() && v@[i as int]@ == name@,
            None => !strs(v@).contains(name@),
        },
{
    let mut i: usize = 0;
    while i < v.len()
        invariant
            i <= v@.len(),
            forall|j: int| 0 <= j < i ==> v@[j]@ != name@,
        decreases v@.len() - i,
    {
        if str_eq(v[i].as_str(), name) {
            return Some(i);
        }
        i = i + 1;
    }
    proof {
        if strs(v@).contains(name@) {
            let j = choose|j: int| 0 <= j < strs(v@).len() && strs(v@)[j] == name@;
            assert(v@[j]@ == name@);
        }
    }
    None
}

/// The set after removing the entry at `i` from a list without repeats.
proof fn lemma_remove_distinct(s: Seq<Seq<char>>, i: int)
    requires
        distinct(s),
        0 <= i < s.len(),
    ensures
        s.remove(i).to_set() == s.to_set().remove(s[i]),
        distinct(s.remove(i)),
{
    let r = s.remove(i);
    assert forall|x: Seq<char>| #[trigger] r.to_set().contains(x) == s.to_set().remove(s[i]).contains(x) by {
        if r.contains(x) {
            let k = choose|k: int| 0 <= k < r.len() && r[k] == x;
            if k < i {
                assert(s[k] == x);
                assert(x != s[i]);
            } else {
                assert(s[k + 1] == x);
                assert(x != s[i]);
            }
            assert(s.contains(x));
        }
        if s.contains(x) && x != s[i] {
            let k = choose|k: int| 0 <= k < s.len() && s[k] == x;
            if k < i {
                assert(r[k] == x);
            } else {
                assert(k != i);
                assert(r[k - 1] == x);
            }
        }
    }
    assert(r.to_set() =~= s.to_set().remove(s[i]));
    assert forall|a: int, b: int| 0 <= a < b < r.len() implies #[trigger] r[a] != #[trigger] r[b] by {
        let a2 = if a < i { a } else { a + 1 };
        let b2 = if b < i { b } else { b + 1 };
        assert(r[a] == s[a2]);
        assert(r[b] == s[b2]);
    }
}

proof fn lemma_push_distinct(s: Seq<Seq<char>>, x: Seq<char>)
    requires
        distinct(s),
        !s.contains(x),
    ensures
        s.push(x).to_set() == s.to_set().insert(x),
        distinct(s.push(x)),
{
    let r = s.push(x);
    assert forall|y: Seq<char>| #[trigger] r.to_set().contains(y) == s.to_set().insert(x).contains(y) by {
        if r.contains(y) {
            let k = choose|k: int| 0 <= k < r.len() && r[k] == y;
            if k < s.len() {
                assert(s[k] == y);
            }
        }
        if s.contains(y) {
            let k = choose|k: int| 0 <= k < s.len() && s[k] == y;
            assert(r[k] == y);
        }
        if y == x {
            assert(r[s.len() as int] == y);
        }
    }
    assert(r.to_set() =~= s.to_set().insert(x));
    assert forall|a: int, b: int| 0 <= a < b < r.len() implies #[trigger] r[a] != #[trigger] r[b] by {
        if b == s.len() {
            assert(r[a] == s[a]);
            assert(s.contains(s[a]));
        }
    }
}

/// Adds `name` when absent, removes it when present.
fn flip_in(v: &mut Vec<String>, name: &str)
    requires
        distinct(strs(old(v)@)),
    ensures
        distinct(strs(final(v)@)),
        strs(final(v)@).to_set() == flip(strs(old(v)@).to_set(), name@),
{
    let ghost before = strs(v@);
    match position_of(v, name) {
        Some(i) => {
            v.remove(i);
            proof {
                assert(strs(v@) =~= before.remove(i as int));
                lemma_remove_distinct(before, i as int);
                assert(before.contains(name@)) by {
                    assert(before[i as int] == name@);
                }
            }
        },
        None => {
            let owned = name.to_owned();
            v.push(owned);
            proof {
                assert(strs(v@) =~= before.push(name@));
                lemma_push_distinct(before, name@);
            }
        },
    }
}

fn contains_name(v: &Vec<String>, name: &str) -> (r: bool)
    ensures
        r == strs(v@).contains(name@),
{
    match position_of(v, name) {
        Some(i) => {
            assert(strs(v@)[i as int] == name@);
            true
        },
        None => false,
    }
}

/// The names of `v` in ascending order.
fn sorted(v: &Vec<String>) -> (r: Vec<String>)
    requires
        distinct(strs(v@)),
    ensures
        ascending(strs(r@)),
        distinct(strs(r@)),
        strs(r@).to_set() == strs(v@).to_set(),
{
    let mut r: Vec<String> = Vec::new();
    let mut k: usize = 0;
    proof {
        assert(strs(r@).to_set() =~= strs(v@).take(0).to_set());
    }
    while k < v.len()
        invariant
            k <= v@.len(),
            distinct(strs(v@)),
            ascending(strs(r@)),
            strs(r@).to_set() == strs(v@).take(k as int).to_set(),
        decreases v@.len() - k,
    {
        let name = &v[k];
        let ghost before = strs(r@);
        let mut pos: usize = 0;
        while pos < r.len() && str_lt(r[pos].as_str(), name.as_str())
            invariant
                pos <= r@.len(),
                before == strs(r@),
                forall|j: int| 0 <= j < pos ==> lex_lt(#[trigger] before[j], name@),
            decreases r@.len() - pos,
        {
            pos = pos + 1;
        }
        proof {
            // `name` is new: it is not among the first `k` names.
            assert(!before.contains(name@)) by {
                if before.contains(name@) {
                    assert(before.to_set().contains(name@));
                    assert(strs(v@).take(k as int).to_set().contains(name@));
                    assert(strs(v@).take(k as int).contains(name@));
                    let tk = strs(v@).take(k as int);
                    let j = choose|j: int| 0 <= j < k && #[trigger] tk[j] == name@;
                    assert(strs(v@)[j] == strs(v@)[k as int]);
                }
            }
            if pos < before.len() {
                assert(!lex_lt(before[pos as int], name@));
                lemma_lex_total(before[pos as int], name@);
                assert(lex_lt(name@, before[pos as int]));
            }
        }
        r.insert(pos, name.clone());
        proof {
            let after = strs(r@);
            assert(after =~= before.insert(pos as int, name@));
            assert forall|i: int, j: int| 0 <= i < j < after.len() implies lex_lt(
                #[trigger] after[i],
                #[trigger] after[j],
            ) by {
                if j < pos {
                    assert(after[i] == before[i] && after[j] == before[j]);
                } else if j == pos {
                    assert(after[i] == before[i]);
                } else if i < pos {
                    assert(after[i] == before[i] && after[j] == before[j - 1]);
                    if j - 1 == pos {
                        lemma_lex_trans(before[i], name@, before[pos as int]);
                    } else {
                        lemma_lex_trans(before[i], name@, before[pos as int]);
                        lemma_lex_trans(before[i], before[pos as int], before[j - 1]);
                    }
                } else if i == pos {
                    assert(after[j] == before[j - 1]);
                    if j - 1 > pos {
                        lemma_lex_trans(name@, before[pos as int], before[j - 1]);
                    }
                } else {
                    assert(after[i] == before[i - 1] && after[j] == before[j - 1]);
                }
            }
            assert(after.to_set() =~= strs(v@).take(k + 1).to_set()) by {
                assert(strs(v@).take(k + 1) =~= strs(v@).take(k as int).push(name@));
                assert forall|x: Seq<char>| #[trigger] after.to_set().contains(x)
                    == strs(v@).take(k + 1).to_set().contains(x) by {
                    if after.contains(x) {
                        let q = choose|q: int| 0 <= q < after.len() && after[q] == x;
                        if q < pos {
                            assert(before[q] == x);
                            assert(before.to_set().contains(x));
                        } else if q > pos {
                            assert(before[q - 1] == x);
                            assert(before.to_set().contains(x));
                        }
                        assert(strs(v@).take(k as int).push(name@).contains(x)) by {
                            if x == name@ {
                                assert(strs(v@).take(k as int).push(name@)[k as int] == x);
                            } else {
                                assert(strs(v@).take(k as int).to_set().contains(x));
                                let tk = strs(v@).take(k as int);
                                let w = choose|w: int| 0 <= w < k && #[trigger] tk[w] == x;
                                assert(strs(v@).take(k as int).push(name@)[w] == x);
                            }
                        }
                    }
                    if strs(v@).take(k + 1).contains(x) {
                        let tk1 = strs(v@).take(k + 1);
                        let q = choose|q: int| 0 <= q < k + 1 && #[trigger] tk1[q] == x;
                        if q == k {
                            assert(after[pos as int] == x);
                        } else {
                            assert(strs(v@).take(k as int)[q] == x);
                            assert(strs(v@).take(k as int).to_set().contains(x));
                            assert(before.to_set().contains(x));
                            let w = choose|w: int| 0 <= w < before.len() && before[w] == x;
                            if w < pos {
                                assert(after[w] == x);
                            } else {
                                assert(after[w + 1] == x);
                            }
                        }
                    }
                }
            }
        }
        k = k + 1;
    }
    proof {
        assert(strs(v@).take(k as int) =~= strs(v@));
        let s = strs(r@);
        assert forall|i: int, j: int| 0 <= i < j < s.len() implies #[trigger] s[i] != #[trigger] s[j] by {
            lemma_lex_asym(s[i], s[j]);
        }
    }
    r
}

/// The names of `v`, each once.
fn dedup(v: &Vec<String>) -> (r: Vec<String>)
    ensures
        distinct(strs(r@)),
        strs(r@).to_set() == strs(v@).to_set(),
{
    let mut r: Vec<String> = Vec::new();
    let mut k: usize = 0;
    assert(strs(r@).to_set() =~= strs(v@).take(0).to_set());
    while k < v.len()
        invariant
            k <= v@.len(),
            distinct(strs(r@)),
            strs(r@).to_set() == strs(v@).take(k as int).to_set(),
        decreases v@.len() - k,
    {
        let ghost before = strs(r@);
        if !contains_name(&r, v[k].as_str()) {
            r.push(v[k].clone());
            proof {
                assert(strs(r@) =~= before.push(v@[k as int]@));
                lemma_push_distinct(before, v@[k as int]@);
            }
        }
        proof {
            assert(strs(v@).take(k + 1) =~= strs(v@).take(k as int).push(v@[k as int]@));
            lemma_push_set(strs(v@).take(k as int), v@[k as int]@);
            if before.contains(v@[k as int]@) {
                assert(before.to_set().contains(v@[k as int]@));
                assert(strs(v@).take(k as int).to_set().insert(v@[k as int]@) =~= strs(v@).take(
                    k as int,
                ).to_set());
            }
        }
        k = k + 1;
    }
    assert(strs(v@).take(k as int) =~= strs(v@));
    r
}

proof fn lemma_push_set(s: Seq<Seq<char>>, x: Seq<char>)
    ensures
        s.push(x).to_set() == s.to_set().insert(x),
{
    let r = s.push(x);
    assert forall|y: Seq<char>| #[trigger] r.to_set().contains(y) == s.to_set().insert(x).contains(y) by {
        if r.contains(y) {
            let k = choose|k: int| 0 <= k < r.len() && r[k] == y;
            if k < s.len() {
                assert(s[k] == y);
            }
        }
        if s.contains(y) {
            let k = choose|k: int| 0 <= k < s.len() && s[k] == y;
            assert(r[k] == y);
        }
        if y == x {
            assert(r[s.len() as int] == y);
        }
    }
    assert(r.to_set() =~= s.to_set().insert(x));
}

impl Default for Visibility {
    fn default() -> (r: Self)
        ensures
            r@.0 == Set::<Seq<char>>::empty(),
            r@.1 == Set::<Seq<char>>::empty(),
    {
        let r = Visibility { hidden: Vec::new(), pinned: Vec::new() };
        assert(strs(r.hidden@) =~= Seq::<Seq<char>>::empty());
        assert(strs(r.pinned@) =~= Seq::<Seq<char>>::empty());
        assert(strs(r.hidden@).to_set() =~= Set::<Seq<char>>::empty());
        assert(strs(r.pinned@).to_set() =~= Set::<Seq<char>>::empty());
        r
    }
}

impl Visibility {
    #[verifier::type_invariant]
    spec fn well_formed(&self) -> bool {
        distinct(strs(self.hidden@)) && distinct(strs(self.pinned@))
    }

    /// Hides a shown branch, or shows a hidden one.
    pub fn toggle(&mut self, name: &str)
        ensures
            final(self)@.0 == flip(old(self)@.0, name@),
            final(self)@.1 == old(self)@.1,
    {
        proof {
            use_type_invariant(&*self);
        }
        let mut hidden = Vec::new();
        std::mem::swap(&mut hidden, &mut self.hidden);
        flip_in(&mut hidden, name);
        self.hidden = hidden;
    }

    /// Pins an unpinned branch, or unpins a pinned one.
    pub fn pin(&mut self, name: &str)
        ensures
            final(self)@.1 == flip(old(self)@.1, name@),
            final(self)@.0 == old(self)@.0,
    {
        proof {
            use_type_invariant(&*self);
        }
        let mut pinned = Vec::new();
        std::mem::swap(&mut pinned, &mut self.pinned);
        flip_in(&mut pinned, name);
        self.pinned = pinned;
    }

    /// Solo mode on `name` among `all`: hides every other unpinned branch,
    /// or, when exactly those are hidden already, shows everything again.
    pub fn solo(&mut self, name: &str, all: &[&str])
        ensures
            final(self)@.0 == solo_spec(old(self)@.0, solo_target(name@, strs_of(all@), old(self)@.1)),
            final(self)@.1 == old(self)@.1,
    {
        proof {
            use_type_invariant(&*self);
        }
        let ghost target_set = solo_target(name@, strs_of(all@), self@.1);
        let mut target: Vec<String> = Vec::new();
        let mut k: usize = 0;
        assert(strs(target@).to_set() =~= strs_of(all@).take(0).to_set().filter(
            |o: Seq<char>| o != name@ && !self@.1.contains(o),
        ));
        while k < all.len()
            invariant
                k <= all@.len(),
                distinct(strs(target@)),
                strs(target@).to_set() == strs_of(all@).take(k as int).to_set().filter(
                    |o: Seq<char>| o != name@ && !self@.1.contains(o),
                ),
            decreases all@.len() - k,
        {
            let other = all[k];
            let ghost before = strs(target@);
            let keep = !str_eq(other, name) && !contains_name(&self.pinned, other);
            if keep && !contains_name(&target, other) {
                target.push(other.to_owned());
                proof {
                    assert(strs(target@) =~= before.push(other@));
                    lemma_push_distinct(before, other@);
                }
            }
            proof {
                let pre = strs_of(all@).take(k as int);
                assert(strs_of(all@).take(k + 1) =~= pre.push(other@));
                lemma_push_set(pre, other@);
                assert(strs(target@).to_set() =~= pre.push(other@).to_set().filter(
                    |o: Seq<char>| o != name@ && !self@.1.contains(o),
                )) by {
                    if keep && before.contains(other@) {
                        assert(before.to_set().contains(other@));
                    }
                }
            }
            k = k + 1;
        }
        assert(strs_of(all@).take(k as int) =~= strs_of(all@));
        let same = self.hidden_equals(&target);
        if same {
            let empty: Vec<String> = Vec::new();
            assert(strs(empty@).to_set() =~= Set::<Seq<char>>::empty());
            self.hidden = empty;
        } else {
            self.hidden = target;
        }
    }

    /// Whether the hidden names are exactly those of `target`.
    fn hidden_equals(&self, target: &Vec<String>) -> (r: bool)
        requires
            distinct(strs(target@)),
        ensures
            r == (self@.0 == strs(target@).to_set()),
    {
        proof {
            use_type_invariant(self);
        }
        let ghost h = strs(self.hidden@);
        let ghost t = strs(target@);
        if self.hidden.len() != target.len() {
            proof {
                if h.to_set() == t.to_set() {
                    h.unique_seq_to_set();
                    t.unique_seq_to_set();
                    lemma_distinct_no_dup(h);
                    lemma_distinct_no_dup(t);
                    h.unique_seq_to_set();
                }
            }
            return false;
        }
        let mut i: usize = 0;
        while i < target.len()
            invariant
                i <= target@.len(),
                t == strs(target@),
                h == strs(self.hidden@),
                h.len() == t.len(),
                distinct(h),
                distinct(t),
                forall|j: int| 0 <= j < i ==> h.contains(#[trigger] t[j]),
            decreases target@.len() - i,
        {
            if !contains_name(&self.hidden, target[i].as_str()) {
                assert(t.to_set().contains(t[i as int]));
                assert(!h.to_set().contains(t[i as int]));
                return false;
            }
            i = i + 1;
        }
        proof {
            lemma_distinct_no_dup(h);
            lemma_distinct_no_dup(t);
            h.unique_seq_to_set();
            t.unique_seq_to_set();
            assert(t.to_set().subset_of(h.to_set()));
            vstd::set_lib::lemma_subset_equality(t.to_set(), h.to_set());
        }
        true
    }

    /// Whether a branch shows: HEAD and pinned branches always do, any
    /// other unless it is hidden.
    pub fn is_visible(&self, name: &str, is_head: bool) -> (r: bool)
        ensures
            r == (is_head || self@.1.contains(name@) || !self@.0.contains(name@)),
    {
        is_head || contains_name(&self.pinned, name) || !contains_name(&self.hidden, name)
    }

    pub fn is_pinned(&self, name: &str) -> (r: bool)
        ensures
            r == self@.1.contains(name@),
    {
        contains_name(&self.pinned, name)
    }

    /// The hidden and pinned names, each in ascending order.
    pub fn snapshot(&self) -> (r: VisibilitySnapshot)
        ensures
            ascending(strs(r.hidden@)),
            ascending(strs(r.pinned@)),
            r.view_sets() == self@,
    {
        proof {
            use_type_invariant(self);
        }
        VisibilitySnapshot { hidden: sorted(&self.hidden), pinned: sorted(&self.pinned) }
    }

    /// Takes the hidden and pinned names of a snapshot.
    pub fn restore(&mut self, snapshot: VisibilitySnapshot)
        ensures
            final(self)@ == snapshot.view_sets(),
    {
        proof {
            use_type_invariant(&*self);
        }
        let hidden = dedup(&snapshot.hidden);
        let pinned = dedup(&snapshot.pinned);
        self.hidden = hidden;
        self.pinned = pinned;
    }
}

proof fn lemma_distinct_no_dup(s: Seq<Seq<char>>)
    requires
        distinct(s),
    ensures
        s.no_duplicates(),
{
    assert forall|i: int, j: int| 0 <= i < s.len() && 0 <= j < s.len() && i != j implies s[i] != s[j] by {
        if i < j {
            assert(s[i] != s[j]);
        } else {
            assert(s[j] != s[i]);
        }
    }
}

// ---------------------------------------------------------------------------
// Laws
// ---------------------------------------------------------------------------

/// Toggling a branch twice leaves the hidden set as it was.
pub proof fn law_toggle_twice(hidden: Set<Seq<char>>, name: Seq<char>)
    ensures
        flip(flip(hidden, name), name) == hidden,
{
    assert(flip(flip(hidden, name), name) =~= hidden);
}

/// Solo twice on the same branch, with the same pins: everything is shown
/// again, unless exactly the solo target was hidden to begin with, in which
/// case the second solo hides it again.
pub proof fn law_solo_twice(hidden: Set<Seq<char>>, target: Set<Seq<char>>)
    ensures
        solo_spec(solo_spec(hidden, target), target) == (if hidden == target {
            target
        } else {
            Set::<Seq<char>>::empty()
        }),
{
}

/// Solo never hides the branch it is on, nor a pinned branch.
pub proof fn law_solo_spares(name: Seq<char>, all: Seq<Seq<char>>, pinned: Set<Seq<char>>, hidden: Set<Seq<char>>)
    ensures
        !solo_spec(hidden, solo_target(name, all, pinned)).contains(name),
        forall|p: Seq<char>| pinned.contains(p) ==> !solo_spec(hidden, solo_target(name, all, pinned)).contains(p),
{
}

proof fn lemma_ascending_rest(a: Seq<Seq<char>>)
    requires
        ascending(a),
        a.len() > 0,
    ensures
        ascending(a.drop_first()),
        a.drop_first().to_set() == a.to_set().remove(a[0]),
{
    let t = a.drop_first();
    assert forall|i: int, j: int| 0 <= i < j < t.len() implies lex_lt(#[trigger] t[i], #[trigger] t[j]) by {
        assert(t[i] == a[i + 1] && t[j] == a[j + 1]);
    }
    assert forall|x: Seq<char>| t.to_set().contains(x) <==> a.to_set().remove(a[0]).contains(x) by {
        if t.to_set().contains(x) {
            let i = choose|i: int| 0 <= i < t.len() && t[i] == x;
            assert(a[i + 1] == x);
            lemma_lex_asym(a[0], a[i + 1]);
        }
        if a.to_set().remove(a[0]).contains(x) {
            let i = choose|i: int| 0 <= i < a.len() && a[i] == x;
            assert(i != 0);
            assert(t[i - 1] == x);
        }
    }
    assert(t.to_set() =~= a.to_set().remove(a[0]));
}

/// Two snapshots of the same names list them the same way: lists in
/// strictly ascending order that hold the same names are the same list.
/// So restoring a snapshot and taking another gives back its lists.
pub proof fn law_ascending_lists_of_one_set_agree(a: Seq<Seq<char>>, b: Seq<Seq<char>>)
    requires
        ascending(a),
        ascending(b),
        a.to_set() == b.to_set(),
    ensures
        a == b,
    decreases a.len(),
{
    if a.len() == 0 {
        if b.len() > 0 {
            assert(b.to_set().contains(b[0]));
        }
        assert(a =~= b);
    } else {
        assert(a.to_set().contains(a[0]));
        assert(b.len() > 0);
        assert(b.to_set().contains(b[0]));
        let k = choose|k: int| 0 <= k < b.len() && b[k] == a[0];
        let j = choose|j: int| 0 <= j < a.len() && a[j] == b[0];
        if k > 0 {
            assert(lex_lt(b[0], b[k]));
            if j > 0 {
                assert(lex_lt(a[0], a[j]));
                lemma_lex_asym(a[0], a[j]);
            } else {
                lemma_lex_asym(a[0], a[0]);
            }
        }
        assert(a[0] == b[0]);
        lemma_ascending_rest(a);
        lemma_ascending_rest(b);
        law_ascending_lists_of_one_set_agree(a.drop_first(), b.drop_first());
        assert(a =~= seq![a[0]] + a.drop_first());
        assert(b =~= seq![b[0]] + b.drop_first());
    }
}

} // verus!
