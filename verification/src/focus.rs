//! Named focus sets: saved visibility states, kept as a small line-based
//! text file (`focus NAME`, then `hide BRANCH` and `pin BRANCH` lines).
use vstd::prelude::*;

use crate::branches::str_eq;
use crate::text::{
    chars_of, find_char, has_prefix, lemma_find_char, lines, lines_of, push_char, push_str,
    starts_at, string_of, strs, unlines,
};
use crate::visibility::VisibilitySnapshot;

verus! {

#[derive(Debug, Clone, PartialEq, Eq)]
pub struct FocusSet {
    pub name: String,
    pub state: VisibilitySnapshot,
}

/// A focus set as plain values: its name, hidden and pinned branches.
pub type FocusView = (Seq<char>, Seq<Seq<char>>, Seq<Seq<char>>);

pub open spec fn set_view(s: FocusSet) -> FocusView {
    (s.name@, strs(s.state.hidden@), strs(s.state.pinned@))
}

pub open spec fn views(sets: Seq<FocusSet>) -> Seq<FocusView> {
    sets.map_values(|s: FocusSet| set_view(s))
}

pub open spec fn focus_tag() -> Seq<char> {
    seq!['f', 'o', 'c', 'u', 's', ' ']
}

pub open spec fn hide_tag() -> Seq<char> {
    seq!['h', 'i', 'd', 'e', ' ']
}

pub open spec fn pin_tag() -> Seq<char> {
    seq!['p', 'i', 'n', ' ']
}

/// Each name behind the tag.
pub open spec fn tagged(tag: Seq<char>, names: Seq<Seq<char>>) -> Seq<Seq<char>> {
    names.map_values(|n: Seq<char>| tag + n)
}

/// The lines that describe one set.
pub open spec fn set_lines(v: FocusView) -> Seq<Seq<char>> {
    seq![focus_tag() + v.0] + tagged(hide_tag(), v.1) + tagged(pin_tag(), v.2)
}

/// The lines that describe all sets, in order.
pub open spec fn all_lines(vs: Seq<FocusView>) -> Seq<Seq<char>>
    decreases vs.len(),
{
    if vs.len() == 0 {
        seq![]
    } else {
        all_lines(vs.drop_last()) + set_lines(vs.last())
    }
}

/// What one line does to the sets read so far: `focus` opens a set, `hide`
/// and `pin` add to the last set, anything else (or a `hide`/`pin` before
/// any set) is ignored.
pub open spec fn parse_step(sets: Seq<FocusView>, line: Seq<char>) -> Seq<FocusView> {
    if has_prefix(line, focus_tag()) {
        sets.push((line.skip(6), seq![], seq![]))
    } else if has_prefix(line, hide_tag()) && sets.len() > 0 {
        let l = sets.last();
        sets.update(sets.len() - 1, (l.0, l.1.push(line.skip(5)), l.2))
    } else if has_prefix(line, pin_tag()) && sets.len() > 0 {
        let l = sets.last();
        sets.update(sets.len() - 1, (l.0, l.1, l.2.push(line.skip(4))))
    } else {
        sets
    }
}

/// The sets that a list of lines describes.
pub open spec fn parse_lines(ls: Seq<Seq<char>>) -> Seq<FocusView>
    decreases ls.len(),
{
    if ls.len() == 0 {
        seq![]
    } else {
        parse_step(parse_lines(ls.drop_last()), ls.last())
    }
}

/// The text that `serialize` writes for the sets.
pub open spec fn serialized(vs: Seq<FocusView>) -> Seq<char> {
    unlines(all_lines(vs))
}

/// A name that survives a line of the text as it is: no line feed in it,
/// and no carriage return at its end.
pub open spec fn clean(n: Seq<char>) -> bool {
    &&& forall|i: int| 0 <= i < n.len() ==> #[trigger] n[i] != '\n'
    &&& (n.len() > 0 ==> n.last() != '\r')
}

pub open spec fn clean_set(v: FocusView) -> bool {
    &&& clean(v.0)
    &&& forall|i: int| 0 <= i < v.1.len() ==> clean(#[trigger] v.1[i])
    &&& forall|i: int| 0 <= i < v.2.len() ==> clean(#[trigger] v.2[i])
}

proof fn lemma_tags()
    ensures
        "focus "@ == focus_tag(),
        "hide "@ == hide_tag(),
        "pin "@ == pin_tag(),
{
    reveal_strlit("focus ");
    reveal_strlit("hide ");
    reveal_strlit("pin ");
    assert("focus "@ =~= focus_tag());
    assert("hide "@ =~= hide_tag());
    assert("pin "@ =~= pin_tag());
}

/// Writes `tag NAME\n` for each name of `names`.
fn push_tagged(out: &mut String, tag: &str, names: &Vec<String>)
    ensures
        final(out)@ == old(out)@ + unlines(tagged(tag@, strs(names@))),
{
    let ghost start = out@;
    let mut j: usize = 0;
    assert(unlines(tagged(tag@, strs(names@).take(0))) =~= Seq::<char>::empty());
    assert(start + Seq::<char>::empty() =~= start);
    while j < names.len()
        invariant
            j <= names@.len(),
            out@ == start + unlines(tagged(tag@, strs(names@).take(j as int))),
        decreases names@.len() - j,
    {
        let ghost before = out@;
        push_str(out, tag);
        push_str(out, names[j].as_str());
        push_char(out, '\n');
        proof {
            let t = tagged(tag@, strs(names@).take(j + 1));
            assert(t.drop_last() =~= tagged(tag@, strs(names@).take(j as int)));
            assert(t.last() == tag@ + names@[j as int]@);
            assert(out@ =~= before + (tag@ + names@[j as int]@).push('\n'));
            assert(unlines(t) == unlines(t.drop_last()) + t.last().push('\n'));
        }
        j = j + 1;
    }
    assert(strs(names@).take(j as int) =~= strs(names@));
}

/// `unlines` of a concatenation.
proof fn lemma_unlines_append(a: Seq<Seq<char>>, b: Seq<Seq<char>>)
    ensures
        unlines(a + b) == unlines(a) + unlines(b),
    decreases b.len(),
{
    if b.len() == 0 {
        assert(a + b =~= a);
        assert(unlines(a) + unlines(b) =~= unlines(a));
    } else {
        lemma_unlines_append(a, b.drop_last());
        assert((a + b).drop_last() =~= a + b.drop_last());
        assert((a + b).last() == b.last());
        assert(unlines(a + b) =~= unlines(a) + unlines(b));
    }
}

/// The sets written as text: for each set a `focus` line, then its hidden
/// branches as `hide` lines and its pinned branches as `pin` lines.
pub fn serialize(sets: &[FocusSet]) -> (out: String)
    ensures
        out@ == serialized(views(sets@)),
{
    let mut out = String::new();
    let mut k: usize = 0;
    proof {
        lemma_tags();
        assert(views(sets@).take(0) =~= Seq::<FocusView>::empty());
        assert(out@ =~= unlines(Seq::<Seq<char>>::empty()));
    }
    while k < sets.len()
        invariant
            k <= sets@.len(),
            out@ == unlines(all_lines(views(sets@).take(k as int))),
        decreases sets@.len() - k,
    {
        let set = &sets[k];
        let ghost before = out@;
        let ghost v = set_view(*set);
        push_str(&mut out, "focus ");
        push_str(&mut out, set.name.as_str());
        push_char(&mut out, '\n');
        push_tagged(&mut out, "hide ", &set.state.hidden);
        push_tagged(&mut out, "pin ", &set.state.pinned);
        proof {
            lemma_tags();
            let first: Seq<Seq<char>> = seq![focus_tag() + v.0];
            let hides = tagged(hide_tag(), v.1);
            let pins = tagged(pin_tag(), v.2);
            assert(unlines(first) =~= (focus_tag() + v.0).push('\n')) by {
                assert(first.drop_last() =~= Seq::<Seq<char>>::empty());
                assert(unlines(first.drop_last()) =~= Seq::<char>::empty());
                assert(first.last() == focus_tag() + v.0);
            }
            lemma_unlines_append(first, hides);
            lemma_unlines_append(first + hides, pins);
            assert(set_lines(v) == first + hides + pins);
            let pre = views(sets@).take(k as int);
            let post = views(sets@).take(k + 1);
            assert(post.drop_last() =~= pre);
            assert(post.last() == v);
            lemma_unlines_append(all_lines(pre), set_lines(v));
            assert(out@ =~= before + unlines(set_lines(v)));
        }
        k = k + 1;
    }
    assert(views(sets@).take(k as int) =~= views(sets@));
    out
}

/// Where the set named like `name` is, if any.
fn position_named(sets: &Vec<FocusSet>, name: &str) -> (r: Option<usize>)
    ensures
        match r {
            Some(i) => i < sets@.len() && sets@[i as int].name@ == name@ && forall|j: int|
                0 <= j < i ==> sets@[j].name@ != name@,
            None => forall|j: int| 0 <= j < sets@.len() ==> sets@[j].name@ != name@,
        },
{
    let mut i: usize = 0;
    while i < sets.len()
        invariant
            i <= sets@.len(),
            forall|j: int| 0 <= j < i ==> sets@[j].name@ != name@,
        decreases sets@.len() - i,
    {
        if str_eq(sets[i].name.as_str(), name) {
            return Some(i);
        }
        i = i + 1;
    }
    None
}

/// The first set with the name of `set` replaced by it, or `set` added at
/// the end when no set has that name.
pub open spec fn upserted(sets: Seq<FocusSet>, set: FocusSet) -> Seq<FocusSet> {
    if exists|j: int| 0 <= j < sets.len() && sets[j].name@ == set.name@ {
        let i = choose|i: int|
            0 <= i < sets.len() && sets[i].name@ == set.name@ && forall|j: int|
                0 <= j < i ==> sets[j].name@ != set.name@;
        sets.update(i, set)
    } else {
        sets.push(set)
    }
}

/// Stores `set`: in place of the first set of the same name, or at the end.
pub fn upsert(sets: &mut Vec<FocusSet>, set: FocusSet)
    ensures
        final(sets)@ == upserted(old(sets)@, set),
{
    match position_named(sets, set.name.as_str()) {
        Some(i) => {
            let ghost s = sets@;
            proof {
                let w = choose|w: int|
                    0 <= w < s.len() && s[w].name@ == set.name@ && forall|j: int|
                        0 <= j < w ==> s[j].name@ != set.name@;
                assert(exists|j: int| 0 <= j < s.len() && s[j].name@ == set.name@) by {
                    assert(s[i as int].name@ == set.name@);
                }
                if w < i {
                    assert(s[w].name@ != set.name@);
                }
                if w > i {
                    assert(s[i as int].name@ != set.name@);
                }
            }
            sets.set(i, set);
        },
        None => {
            sets.push(set);
        },
    }
}

/// The sets without those named `name`.
pub open spec fn without(sets: Seq<FocusSet>, name: Seq<char>) -> Seq<FocusSet> {
    sets.filter(|s: FocusSet| s.name@ != name)
}

/// Drops every set named `name`; a missing name changes nothing.
pub fn remove(sets: &mut Vec<FocusSet>, name: &str)
    ensures
        final(sets)@ == without(old(sets)@, name@),
{
    let ghost s = sets@;
    let n = sets.len();
    let mut i: usize = 0;
    let mut k: usize = 0;
    assert(s.take(0).filter(|x: FocusSet| x.name@ != name@) =~= Seq::<FocusSet>::empty());
    assert(sets@ =~= s.take(0).filter(|x: FocusSet| x.name@ != name@) + s.skip(0));
    while i < sets.len()
        invariant
            n == s.len(),
            k <= s.len(),
            i == s.take(k as int).filter(|x: FocusSet| x.name@ != name@).len(),
            sets@ == s.take(k as int).filter(|x: FocusSet| x.name@ != name@) + s.skip(k as int),
        decreases sets@.len() - i,
    {
        let ghost kept = s.take(k as int).filter(|x: FocusSet| x.name@ != name@);
        proof {
            reveal(Seq::filter);
            assert(sets@.len() == i + (s.len() - k));
            assert(k < s.len());
            assert(s.take(k + 1).drop_last() =~= s.take(k as int));
            assert(s.take(k + 1).last() == s[k as int]);
            assert(sets@[i as int] == s[k as int]);
            assert(s.skip(k as int) =~= seq![s[k as int]] + s.skip(k + 1));
        }
        if str_eq(sets[i].name.as_str(), name) {
            sets.remove(i);
            proof {
                assert(s.take(k + 1).filter(|x: FocusSet| x.name@ != name@) == kept);
                assert(sets@ =~= kept + s.skip(k + 1));
            }
        } else {
            i = i + 1;
            proof {
                assert(s.take(k + 1).filter(|x: FocusSet| x.name@ != name@) == kept.push(s[k as int]));
                assert(sets@ =~= kept.push(s[k as int]) + s.skip(k + 1));
            }
        }
        k = k + 1;
    }
    proof {
        if k < s.len() {
            assert(sets@.len() == i + s.len() - k);
        }
        assert(s.take(k as int) =~= s);
        assert(s.skip(k as int) =~= Seq::<FocusSet>::empty());
        assert(sets@ =~= s.take(k as int).filter(|x: FocusSet| x.name@ != name@));
    }
}

/// An empty visibility state named after `cs[from..]`.
fn new_set(cs: &Vec<char>, from: usize) -> (r: FocusSet)
    requires
        from <= cs@.len(),
    ensures
        set_view(r) == (cs@.skip(from as int), Seq::<Seq<char>>::empty(), Seq::<Seq<char>>::empty()),
{
    let r = FocusSet {
        name: string_of(cs, from, cs.len()),
        state: VisibilitySnapshot { hidden: Vec::new(), pinned: Vec::new() },
    };
    assert(strs(r.state.hidden@) =~= Seq::<Seq<char>>::empty());
    assert(strs(r.state.pinned@) =~= Seq::<Seq<char>>::empty());
    assert(cs@.subrange(from as int, cs@.len() as int) =~= cs@.skip(from as int));
    r
}

/// Reads focus sets back from their text: a `focus` line opens a set, the
/// `hide` and `pin` lines after it fill it, and other lines are ignored.
pub fn parse(text: &str) -> (out: Vec<FocusSet>)
    ensures
        views(out@) == parse_lines(lines(text@)),
{
    let ls = lines_of(text);
    let focus = chars_of("focus ");
    let hide = chars_of("hide ");
    let pin = chars_of("pin ");
    proof {
        lemma_tags();
    }
    let mut sets: Vec<FocusSet> = Vec::new();
    let mut k: usize = 0;
    assert(views(sets@) =~= parse_lines(strs(ls@).take(0)));
    while k < ls.len()
        invariant
            k <= ls@.len(),
            strs(ls@) == lines(text@),
            focus@ == focus_tag(),
            hide@ == hide_tag(),
            pin@ == pin_tag(),
            views(sets@) == parse_lines(strs(ls@).take(k as int)),
        decreases ls@.len() - k,
    {
        let cs = chars_of(ls[k].as_str());
        let ghost line = cs@;
        let ghost before = views(sets@);
        proof {
            assert(strs(ls@).take(k + 1).drop_last() =~= strs(ls@).take(k as int));
            assert(strs(ls@).take(k + 1).last() == line);
            assert(cs@.skip(0) =~= cs@);
        }
        if starts_at(&cs, 0, &focus) {
            let set = new_set(&cs, 6);
            sets.push(set);
            assert(views(sets@) =~= before.push((line.skip(6), seq![], seq![])));
        } else if starts_at(&cs, 0, &hide) && sets.len() > 0 {
            let mut last = sets.pop().unwrap();
            let ghost l = set_view(last);
            assert(views(sets@) =~= before.drop_last());
            assert(l == before.last());
            let branch = string_of(&cs, 5, cs.len());
            assert(branch@ =~= line.skip(5));
            last.state.hidden.push(branch);
            assert(strs(last.state.hidden@) =~= l.1.push(line.skip(5)));
            sets.push(last);
            assert(views(sets@) =~= before.update(before.len() - 1, (l.0, l.1.push(line.skip(5)), l.2)));
        } else if starts_at(&cs, 0, &pin) && sets.len() > 0 {
            let mut last = sets.pop().unwrap();
            let ghost l = set_view(last);
            assert(views(sets@) =~= before.drop_last());
            assert(l == before.last());
            let branch = string_of(&cs, 4, cs.len());
            assert(branch@ =~= line.skip(4));
            last.state.pinned.push(branch);
            assert(strs(last.state.pinned@) =~= l.2.push(line.skip(4)));
            sets.push(last);
            assert(views(sets@) =~= before.update(before.len() - 1, (l.0, l.1, l.2.push(line.skip(4)))));
        }
        k = k + 1;
    }
    assert(strs(ls@).take(k as int) =~= strs(ls@));
    sets
}

// ---------------------------------------------------------------------------
// Reading back what was written
// ---------------------------------------------------------------------------

proof fn lemma_unlines_front(ls: Seq<Seq<char>>)
    requires
        ls.len() > 0,
    ensures
        unlines(ls) == ls[0].push('\n') + unlines(ls.skip(1)),
{
    let first: Seq<Seq<char>> = seq![ls[0]];
    assert(ls =~= first + ls.skip(1));
    lemma_unlines_append(first, ls.skip(1));
    assert(first.drop_last() =~= Seq::<Seq<char>>::empty());
    assert(unlines(first.drop_last()) =~= Seq::<char>::empty());
    assert(unlines(first) =~= ls[0].push('\n'));
}

/// Lines without line feeds, and not ending in a carriage return, come back
/// from their text unchanged.
proof fn lemma_lines_unlines(ls: Seq<Seq<char>>)
    requires
        forall|i: int| 0 <= i < ls.len() ==> clean(#[trigger] ls[i]),
    ensures
        lines(unlines(ls)) == ls,
    decreases ls.len(),
{
    if ls.len() == 0 {
        assert(unlines(ls) =~= Seq::<char>::empty());
    } else {
        let l = ls[0];
        let rest = ls.skip(1);
        lemma_unlines_front(ls);
        let s = unlines(ls);
        assert(clean(l));
        assert forall|j: int| 0 <= j < l.len() implies #[trigger] s[j] != '\n' by {
            assert(s[j] == l[j]);
        }
        assert(s[l.len() as int] == '\n');
        lemma_find_char(s, '\n', l.len() as int);
        assert(s.take(l.len() as int) =~= l);
        assert(s.skip(l.len() + 1int) =~= unlines(rest));
        assert forall|i: int| 0 <= i < rest.len() implies clean(#[trigger] rest[i]) by {
            assert(rest[i] == ls[i + 1]);
        }
        lemma_lines_unlines(rest);
        assert(lines(s) =~= seq![l] + rest);
        assert(ls =~= seq![l] + rest);
    }
}

proof fn lemma_parse_push(ls: Seq<Seq<char>>, l: Seq<char>)
    ensures
        parse_lines(ls.push(l)) == parse_step(parse_lines(ls), l),
{
    assert(ls.push(l).drop_last() =~= ls);
}

/// Behind an opening tag, a line is read as that tag alone would read it.
proof fn lemma_tag_lines(x: Seq<char>)
    ensures
        has_prefix(focus_tag() + x, focus_tag()),
        (focus_tag() + x).skip(6) == x,
        !has_prefix(hide_tag() + x, focus_tag()),
        has_prefix(hide_tag() + x, hide_tag()),
        (hide_tag() + x).skip(5) == x,
        !has_prefix(pin_tag() + x, focus_tag()),
        !has_prefix(pin_tag() + x, hide_tag()),
        has_prefix(pin_tag() + x, pin_tag()),
        (pin_tag() + x).skip(4) == x,
{
    assert((focus_tag() + x).take(6) =~= focus_tag());
    assert((focus_tag() + x).skip(6) =~= x);
    assert((hide_tag() + x).take(5) =~= hide_tag());
    assert((hide_tag() + x).skip(5) =~= x);
    assert((pin_tag() + x).take(4) =~= pin_tag());
    assert((pin_tag() + x).skip(4) =~= x);
    if has_prefix(hide_tag() + x, focus_tag()) {
        assert((hide_tag() + x).take(6)[0] == 'h');
    }
    if has_prefix(pin_tag() + x, focus_tag()) {
        assert((pin_tag() + x).take(6)[0] == 'p');
    }
    if has_prefix(pin_tag() + x, hide_tag()) {
        assert((pin_tag() + x).take(5)[0] == 'p');
    }
}

proof fn lemma_parse_hides(base: Seq<Seq<char>>, h: Seq<Seq<char>>)
    requires
        parse_lines(base).len() > 0,
    ensures
        parse_lines(base + tagged(hide_tag(), h)) == ({
            let p = parse_lines(base);
            let l = p.last();
            p.update(p.len() - 1, (l.0, l.1 + h, l.2))
        }),
    decreases h.len(),
{
    let p = parse_lines(base);
    let l = p.last();
    if h.len() == 0 {
        assert(base + tagged(hide_tag(), h) =~= base);
        assert(l.1 + h =~= l.1);
        assert(p.update(p.len() - 1, (l.0, l.1 + h, l.2)) =~= p);
    } else {
        let init = h.drop_last();
        lemma_parse_hides(base, init);
        assert(base + tagged(hide_tag(), h) =~= (base + tagged(hide_tag(), init)).push(
            hide_tag() + h.last(),
        ));
        lemma_parse_push(base + tagged(hide_tag(), init), hide_tag() + h.last());
        lemma_tag_lines(h.last());
        assert((l.1 + init).push(h.last()) =~= l.1 + h);
        let q = p.update(p.len() - 1, (l.0, l.1 + init, l.2));
        assert(q.update(q.len() - 1, (l.0, (l.1 + init).push(h.last()), l.2)) =~= p.update(
            p.len() - 1,
            (l.0, l.1 + h, l.2),
        ));
    }
}

proof fn lemma_parse_pins(base: Seq<Seq<char>>, h: Seq<Seq<char>>)
    requires
        parse_lines(base).len() > 0,
    ensures
        parse_lines(base + tagged(pin_tag(), h)) == ({
            let p = parse_lines(base);
            let l = p.last();
            p.update(p.len() - 1, (l.0, l.1, l.2 + h))
        }),
    decreases h.len(),
{
    let p = parse_lines(base);
    let l = p.last();
    if h.len() == 0 {
        assert(base + tagged(pin_tag(), h) =~= base);
        assert(l.2 + h =~= l.2);
        assert(p.update(p.len() - 1, (l.0, l.1, l.2 + h)) =~= p);
    } else {
        let init = h.drop_last();
        lemma_parse_pins(base, init);
        assert(base + tagged(pin_tag(), h) =~= (base + tagged(pin_tag(), init)).push(
            pin_tag() + h.last(),
        ));
        lemma_parse_push(base + tagged(pin_tag(), init), pin_tag() + h.last());
        lemma_tag_lines(h.last());
        assert((l.2 + init).push(h.last()) =~= l.2 + h);
        let q = p.update(p.len() - 1, (l.0, l.1, l.2 + init));
        assert(q.update(q.len() - 1, (l.0, l.1, (l.2 + init).push(h.last()))) =~= p.update(
            p.len() - 1,
            (l.0, l.1, l.2 + h),
        ));
    }
}

/// The lines of all sets read back to the sets.
proof fn lemma_parse_all(vs: Seq<FocusView>)
    ensures
        parse_lines(all_lines(vs)) == vs,
    decreases vs.len(),
{
    if vs.len() == 0 {
        assert(all_lines(vs) =~= Seq::<Seq<char>>::empty());
    } else {
        let init = vs.drop_last();
        let v = vs.last();
        lemma_parse_all(init);
        let a = all_lines(init);
        let opened = a.push(focus_tag() + v.0);
        lemma_parse_push(a, focus_tag() + v.0);
        lemma_tag_lines(v.0);
        assert(parse_lines(opened) == init.push((v.0, seq![], seq![])));
        lemma_parse_hides(opened, v.1);
        let hid = opened + tagged(hide_tag(), v.1);
        assert(Seq::<Seq<char>>::empty() + v.1 =~= v.1);
        assert(parse_lines(hid) =~= init.push((v.0, v.1, seq![])));
        lemma_parse_pins(hid, v.2);
        assert(Seq::<Seq<char>>::empty() + v.2 =~= v.2);
        assert(parse_lines(hid + tagged(pin_tag(), v.2)) =~= init.push((v.0, v.1, v.2)));
        assert(all_lines(vs) =~= hid + tagged(pin_tag(), v.2));
        assert(vs =~= init.push(v));
    }
}

proof fn lemma_clean_tagged(tag: Seq<char>, n: Seq<char>)
    requires
        tag.len() > 0,
        tag.last() == ' ',
        forall|i: int| 0 <= i < tag.len() ==> #[trigger] tag[i] != '\n',
        clean(n),
    ensures
        clean(tag + n),
{
    let t = tag + n;
    assert forall|i: int| 0 <= i < t.len() implies #[trigger] t[i] != '\n' by {
        if i < tag.len() {
            assert(t[i] == tag[i]);
        } else {
            assert(t[i] == n[i - tag.len()]);
        }
    }
    if n.len() > 0 {
        assert(t.last() == n.last());
    } else {
        assert(t.last() == tag.last());
    }
}

/// Every line written for clean sets is itself clean.
proof fn lemma_clean_lines(vs: Seq<FocusView>)
    requires
        forall|i: int| 0 <= i < vs.len() ==> clean_set(#[trigger] vs[i]),
    ensures
        forall|i: int| 0 <= i < all_lines(vs).len() ==> clean(#[trigger] all_lines(vs)[i]),
    decreases vs.len(),
{
    if vs.len() > 0 {
        let init = vs.drop_last();
        let v = vs.last();
        assert forall|i: int| 0 <= i < init.len() implies clean_set(#[trigger] init[i]) by {
            assert(init[i] == vs[i]);
        }
        lemma_clean_lines(init);
        assert(clean_set(vs[vs.len() - 1]));
        reveal_strlit("focus ");
        let a = all_lines(init);
        let sl = set_lines(v);
        assert forall|i: int| 0 <= i < sl.len() implies clean(#[trigger] sl[i]) by {
            let nh = v.1.len() as int;
            if i == 0 {
                lemma_clean_tagged(focus_tag(), v.0);
            } else if i < 1 + nh {
                assert(sl[i] == hide_tag() + v.1[i - 1]);
                assert(clean(v.1[i - 1]));
                lemma_clean_tagged(hide_tag(), v.1[i - 1]);
            } else {
                assert(sl[i] == pin_tag() + v.2[i - 1 - nh]);
                assert(clean(v.2[i - 1 - nh]));
                lemma_clean_tagged(pin_tag(), v.2[i - 1 - nh]);
            }
        }
        let all = all_lines(vs);
        assert(all == a + sl);
        assert forall|i: int| 0 <= i < all.len() implies clean(#[trigger] all[i]) by {
            if i < a.len() {
                assert(all[i] == a[i]);
            } else {
                assert(all[i] == sl[i - a.len()]);
            }
        }
    }
}

/// Sets whose names and branches hold no line feed, and do not end in a
/// carriage return, read back from their text exactly as they were written.
pub proof fn law_round_trip(vs: Seq<FocusView>)
    requires
        forall|i: int| 0 <= i < vs.len() ==> clean_set(#[trigger] vs[i]),
    ensures
        parse_lines(lines(serialized(vs))) == vs,
{
    lemma_clean_lines(vs);
    lemma_lines_unlines(all_lines(vs));
    lemma_parse_all(vs);
}

/// No two sets share a name.
pub open spec fn names_unique(sets: Seq<FocusSet>) -> bool {
    forall|i: int, j: int| 0 <= i < j < sets.len() ==> (#[trigger] sets[i]).name@ != (#[trigger] sets[j]).name@
}

/// Saving a set never makes two sets of one name: a name already saved is
/// replaced where it stands, a new one is added at the end.
pub proof fn law_upsert_keeps_names_unique(sets: Seq<FocusSet>, set: FocusSet)
    requires
        names_unique(sets),
    ensures
        names_unique(upserted(sets, set)),
        upserted(sets, set).len() == if exists|j: int| 0 <= j < sets.len() && sets[j].name@ == set.name@ {
            sets.len()
        } else {
            sets.len() + 1
        },
{
    let r = upserted(sets, set);
    if exists|j: int| 0 <= j < sets.len() && sets[j].name@ == set.name@ {
        let i = choose|i: int|
            0 <= i < sets.len() && sets[i].name@ == set.name@ && forall|j: int|
                0 <= j < i ==> sets[j].name@ != set.name@;
        assert(exists|i: int|
            0 <= i < sets.len() && sets[i].name@ == set.name@ && forall|j: int|
                0 <= j < i ==> sets[j].name@ != set.name@) by {
            let w = choose|j: int| 0 <= j < sets.len() && sets[j].name@ == set.name@;
            assert(sets[w].name@ == set.name@);
            assert forall|j: int| 0 <= j < w implies sets[j].name@ != set.name@ by {
                if sets[j].name@ == set.name@ {
                    assert(sets[j].name@ == sets[w].name@);
                }
            }
        }
        assert forall|a: int, b: int| 0 <= a < b < r.len() implies (#[trigger] r[a]).name@ != (#[trigger] r[b]).name@ by {
            if a == i {
                assert(r[b] == sets[b]);
                assert(sets[i].name@ != sets[b].name@);
            } else if b == i {
                assert(r[a] == sets[a]);
                assert(sets[a].name@ != sets[i].name@);
            } else {
                assert(r[a] == sets[a] && r[b] == sets[b]);
            }
        }
    } else {
        assert forall|a: int, b: int| 0 <= a < b < r.len() implies (#[trigger] r[a]).name@ != (#[trigger] r[b]).name@ by {
            if b == sets.len() {
                assert(r[a] == sets[a]);
                assert(r[b] == set);
            } else {
                assert(r[a] == sets[a] && r[b] == sets[b]);
            }
        }
    }
}

/// Removing a name that no set has changes nothing.
pub proof fn law_remove_missing_is_a_no_op(sets: Seq<FocusSet>, name: Seq<char>)
    requires
        forall|j: int| 0 <= j < sets.len() ==> (#[trigger] sets[j]).name@ != name,
    ensures
        without(sets, name) == sets,
    decreases sets.len(),
{
    reveal(Seq::filter);
    if sets.len() > 0 {
        law_remove_missing_is_a_no_op(sets.drop_last(), name);
        assert(sets.last().name@ != name);
        assert(sets.drop_last().push(sets.last()) =~= sets);
    } else {
        assert(without(sets, name) =~= sets);
    }
}

} // verus!
