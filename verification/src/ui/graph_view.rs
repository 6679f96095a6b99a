//! The graph view's text: ref pills beside each commit, merged from the
//! badges git reports, and columns clipped and padded to display widths.
use vstd::prelude::*;

use crate::git::{BadgeKind, RefBadge};
use crate::graph::GraphRow;
use crate::text::{chars_of, push_char, push_str, string_of};
use crate::visibility::Visibility;

verus! {

// ---------------------------------------------------------------------------
// Display widths
// ---------------------------------------------------------------------------

/// The columns `unicode-width` gives a character, or none for a control
/// character.
pub uninterp spec fn char_width(c: char) -> Option<usize>;

/// `UnicodeWidthChar::width`. The width of each character is named by
/// `char_width`; of it the crate's source shows that control characters
/// (below U+0020, and U+007F to U+009F) have none, printable ASCII has one
/// column, and no character has more than three.
#[verifier::external_body]
fn width_of(c: char) -> (r: Option<usize>)
    ensures
        r == char_width(c),
        (c < ' ' || ('\u{7f}' <= c && c < '\u{a0}')) ==> r is None,
        (' ' <= c && c < '\u{7f}') ==> r == Some(1usize),
        r matches Some(w) ==> w <= 3,
{
    unicode_width::UnicodeWidthChar::width(c)
}

/// The columns a character takes on screen, counting a control character as none.
pub open spec fn cols(c: char) -> nat {
    match char_width(c) {
        Some(w) => w as nat,
        None => 0,
    }
}

/// The columns a text takes on screen.
pub open spec fn width_spec(s: Seq<char>) -> nat
    decreases s.len(),
{
    if s.len() == 0 {
        0
    } else {
        width_spec(s.drop_last()) + cols(s.last())
    }
}

/// Texts short enough that their width fits in a `usize`.
pub open spec fn measurable(s: Seq<char>) -> bool {
    s.len() <= usize::MAX / 4
}

pub proof fn lemma_width_bound(s: Seq<char>)
    requires
        forall|i: int| 0 <= i < s.len() ==> cols(#[trigger] s[i]) <= 3,
    ensures
        width_spec(s) <= 3 * s.len(),
    decreases s.len(),
{
    if s.len() > 0 {
        assert forall|i: int| 0 <= i < s.drop_last().len() implies cols(#[trigger] s.drop_last()[i]) <= 3 by {
            assert(s.drop_last()[i] == s[i]);
        }
        lemma_width_bound(s.drop_last());
        assert(cols(s[s.len() - 1]) <= 3);
    }
}

/// Widths add up over a concatenation.
pub proof fn lemma_width_append(a: Seq<char>, b: Seq<char>)
    ensures
        width_spec(a + b) == width_spec(a) + width_spec(b),
    decreases b.len(),
{
    if b.len() == 0 {
        assert(a + b =~= a);
    } else {
        lemma_width_append(a, b.drop_last());
        assert((a + b).drop_last() =~= a + b.drop_last());
        assert((a + b).last() == b.last());
    }
}

/// The columns of `cs[from..to]`, all of whose characters have at most three.
fn width_in(cs: &Vec<char>, from: usize, to: usize) -> (r: usize)
    requires
        from <= to <= cs@.len(),
        cs@.len() <= usize::MAX / 4,
    ensures
        r == width_spec(cs@.subrange(from as int, to as int)),
        r <= 3 * (to - from),
        (forall|k: int| from <= k < to ==> ' ' <= #[trigger] cs@[k] && cs@[k] < '\u{7f}') ==> r == to - from,
{
    let mut total: usize = 0;
    let mut i = from;
    while i < to
        invariant
            from <= i <= to <= cs@.len(),
            cs@.len() <= usize::MAX / 4,
            total == width_spec(cs@.subrange(from as int, i as int)),
            total <= 3 * (i - from),
            (forall|k: int| from <= k < i ==> ' ' <= #[trigger] cs@[k] && cs@[k] < '\u{7f}') ==> total == i - from,
        decreases to - i,
    {
        let w = match width_of(cs[i]) {
            Some(w) => w,
            None => 0,
        };
        assert(cs@.subrange(from as int, i + 1).drop_last() =~= cs@.subrange(from as int, i as int));
        total = total + w;
        i = i + 1;
    }
    total
}

/// The columns `text` takes on screen.
pub fn display_width(text: &str) -> (r: usize)
    requires
        measurable(text@),
    ensures
        r == width_spec(text@),
        r <= 3 * text@.len(),
        (forall|i: int| 0 <= i < text@.len() ==> ' ' <= #[trigger] text@[i] && text@[i] < '\u{7f}') ==> r
            == text@.len(),
{
    let cs = chars_of(text);
    assert(cs@.subrange(0, cs@.len() as int) =~= text@);
    width_in(&cs, 0, cs.len())
}

// ---------------------------------------------------------------------------
// Clipping and padding
// ---------------------------------------------------------------------------

/// How many leading characters fit in `budget` columns, stopping at the
/// first that does not.
pub open spec fn fit_count(s: Seq<char>, budget: int) -> nat
    decreases s.len(),
{
    if s.len() == 0 {
        0
    } else if cols(s[0]) > budget {
        0
    } else {
        1 + fit_count(s.drop_first(), budget - cols(s[0]))
    }
}

/// A text cut to `width` columns: unchanged when it fits, else the
/// characters that fit in one column less, then an ellipsis.
pub open spec fn clip_spec(s: Seq<char>, width: nat) -> Seq<char> {
    if width_spec(s) <= width {
        s
    } else {
        s.take(fit_count(s, if width == 0 { 0 } else { width - 1 }) as int).push('…')
    }
}

pub open spec fn spaces(n: nat) -> Seq<char> {
    Seq::new(n, |i: int| ' ')
}

/// A text clipped to `width` columns and padded with spaces to fill them.
pub open spec fn clip_pad_spec(s: Seq<char>, width: nat) -> Seq<char> {
    let c = clip_spec(s, width);
    c + spaces(if width_spec(c) <= width { (width - width_spec(c)) as nat } else { 0 })
}

proof fn lemma_fit_bound(s: Seq<char>, budget: int)
    ensures
        fit_count(s, budget) <= s.len(),
    decreases s.len(),
{
    if s.len() > 0 && cols(s[0]) <= budget {
        lemma_fit_bound(s.drop_first(), budget - cols(s[0]));
    }
}

proof fn lemma_fit_step(s: Seq<char>, i: int, budget: int)
    requires
        0 <= i < s.len(),
    ensures
        fit_count(s.skip(i), budget) == if cols(s[i]) > budget {
            0
        } else {
            1 + fit_count(s.skip(i + 1), budget - cols(s[i]))
        },
{
    assert(s.skip(i).drop_first() =~= s.skip(i + 1));
    assert(s.skip(i)[0] == s[i]);
}

/// `text` cut to `width` columns, with an ellipsis where it was cut.
pub fn clip(text: &str, width: usize) -> (r: String)
    requires
        text@.len() < usize::MAX / 4,
    ensures
        r@ == clip_spec(text@, width as nat),
        r@.len() <= text@.len() + 1,
{
    proof {
        lemma_fit_bound(text@, if width == 0 { 0 } else { width - 1 });
    }
    let cs = chars_of(text);
    let n = cs.len();
    assert(cs@.subrange(0, n as int) =~= text@);
    let total = width_in(&cs, 0, n);
    if total <= width {
        return string_of(&cs, 0, n);
    }
    let limit: usize = if width == 0 { 0 } else { width - 1 };
    let mut used: usize = 0;
    let mut i: usize = 0;
    assert(cs@.skip(0) =~= cs@);
    while i < n
        invariant
            n == cs@.len(),
            cs@ == text@,
            n <= usize::MAX / 4,
            i <= n,
            used <= limit,
            used <= 3 * i,
            fit_count(cs@, limit as int) == i + fit_count(cs@.skip(i as int), limit - used),
        ensures
            i <= n,
            fit_count(cs@, limit as int) == i,
        decreases n - i,
    {
        let w = match width_of(cs[i]) {
            Some(w) => w,
            None => 0,
        };
        proof {
            lemma_fit_step(cs@, i as int, limit - used);
        }
        if used + w > limit {
            break;
        }
        used = used + w;
        i = i + 1;
    }
    proof {
        if i == n {
            assert(cs@.skip(n as int).len() == 0);
        }
    }
    let mut out = string_of(&cs, 0, i);
    push_char(&mut out, '…');
    assert(cs@.subrange(0, i as int) =~= cs@.take(i as int));
    out
}

/// `text` clipped to `width` columns and padded with spaces to fill them.
pub fn clip_pad(text: &str, width: usize) -> (r: String)
    requires
        text@.len() < usize::MAX / 4,
    ensures
        r@ == clip_pad_spec(text@, width as nat),
{
    let mut out = clip(text, width);
    let w = display_width(out.as_str());
    let pad: usize = if w <= width { width - w } else { 0 };
    let ghost before = out@;
    let mut k: usize = 0;
    while k < pad
        invariant
            k <= pad,
            out@ == before + spaces(k as nat),
        decreases pad - k,
    {
        push_char(&mut out, ' ');
        k = k + 1;
        assert(out@ =~= before + spaces(k as nat));
    }
    out
}

// ---------------------------------------------------------------------------
// Ref pills
// ---------------------------------------------------------------------------

pub const LOCAL_ICON: char = '\u{f0322}';

pub const REMOTE_ICON: char = '\u{f015f}';

pub const DETACHED_ICON: char = '\u{f05b}';

/// A ref as the rail shows it: a local branch together with the upstream
/// it tracks, or a ref on its own.
#[derive(Debug, Clone)]
pub struct MergedRef {
    pub label: String,
    pub kind: BadgeKind,
    pub local: bool,
    pub remote: bool,
}

pub type MergedView = (Seq<char>, BadgeKind, bool, bool);

pub open spec fn merged_view(m: MergedRef) -> MergedView {
    (m.label@, m.kind, m.local, m.remote)
}

pub open spec fn merged_views(ms: Seq<MergedRef>) -> Seq<MergedView> {
    ms.map_values(|m: MergedRef| merged_view(m))
}

pub open spec fn opt_seq(b: bool, s: Seq<char>) -> Seq<char> {
    if b {
        s
    } else {
        Seq::<char>::empty()
    }
}

/// The pill for a ref: a check mark where you stand, the label, then the
/// detached, local and remote icons that apply.
pub open spec fn pill_spec(label: Seq<char>, kind: BadgeKind, local: bool, remote: bool) -> Seq<char> {
    seq![' '] + opt_seq(kind == BadgeKind::CurrentBranch || kind == BadgeKind::Head, seq!['✓', ' '])
        + label + seq![' '] + opt_seq(kind == BadgeKind::Head, seq![DETACHED_ICON]) + opt_seq(
        local,
        seq![LOCAL_ICON],
    ) + opt_seq(local && remote, seq![' ']) + opt_seq(remote, seq![REMOTE_ICON]) + seq![' ']
}

/// The pill of `reference`, with `label` in place of its own.
pub fn pill_text_with(label: &str, reference: &MergedRef) -> (r: String)
    ensures
        r@ == pill_spec(label@, reference.kind, reference.local, reference.remote),
{
    let mut text = String::new();
    push_char(&mut text, ' ');
    let checked = match reference.kind {
        BadgeKind::CurrentBranch | BadgeKind::Head => true,
        _ => false,
    };
    if checked {
        push_char(&mut text, '✓');
        push_char(&mut text, ' ');
    }
    push_str(&mut text, label);
    push_char(&mut text, ' ');
    let head = match reference.kind {
        BadgeKind::Head => true,
        _ => false,
    };
    if head {
        push_char(&mut text, DETACHED_ICON);
    }
    if reference.local {
        push_char(&mut text, LOCAL_ICON);
    }
    if reference.local && reference.remote {
        push_char(&mut text, ' ');
    }
    if reference.remote {
        push_char(&mut text, REMOTE_ICON);
    }
    push_char(&mut text, ' ');
    assert(text@ =~= pill_spec(label@, reference.kind, reference.local, reference.remote));
    text
}

/// The pill of `reference` with its own label.
pub fn pill_text(reference: &MergedRef) -> (r: String)
    ensures
        r@ == pill_spec(reference.label@, reference.kind, reference.local, reference.remote),
{
    pill_text_with(reference.label.as_str(), reference)
}

/// The width a pill adds around its label.
pub proof fn lemma_pill_width(label: Seq<char>, kind: BadgeKind, local: bool, remote: bool)
    ensures
        width_spec(pill_spec(label, kind, local, remote)) >= width_spec(label),
        pill_spec(label, kind, local, remote).len() <= label.len() + 9,
{
    let pre = seq![' '] + opt_seq(kind == BadgeKind::CurrentBranch || kind == BadgeKind::Head, seq!['✓', ' ']);
    let post = seq![' '] + opt_seq(kind == BadgeKind::Head, seq![DETACHED_ICON]) + opt_seq(
        local,
        seq![LOCAL_ICON],
    ) + opt_seq(local && remote, seq![' ']) + opt_seq(remote, seq![REMOTE_ICON]) + seq![' '];
    assert(pill_spec(label, kind, local, remote) =~= pre + label + post);
    lemma_width_append(pre, label);
    lemma_width_append(pre + label, post);
}

/// The pill of `reference` in at most `max_width` columns where it can be:
/// whole when it fits, else with its label clipped so the icons survive.
pub open spec fn fitted_spec(m: MergedView, max_width: nat) -> Seq<char> {
    let natural = pill_spec(m.0, m.1, m.2, m.3);
    if width_spec(natural) <= max_width {
        natural
    } else {
        let overhead = width_spec(natural) - width_spec(m.0);
        let room: nat = if overhead <= max_width { (max_width - overhead) as nat } else { 0 };
        pill_spec(clip_spec(m.0, room), m.1, m.2, m.3)
    }
}

pub fn fitted_pill(reference: &MergedRef, max_width: usize) -> (r: String)
    requires
        reference.label@.len() < usize::MAX / 4 - 9,
    ensures
        r@ == fitted_spec(merged_view(*reference), max_width as nat),
{
    let natural = pill_text(reference);
    proof {
        lemma_pill_width(reference.label@, reference.kind, reference.local, reference.remote);
    }
    let natural_width = display_width(natural.as_str());
    if natural_width <= max_width {
        return natural;
    }
    let overhead = natural_width - display_width(reference.label.as_str());
    let room: usize = if overhead <= max_width { max_width - overhead } else { 0 };
    let label = clip(reference.label.as_str(), room);
    pill_text_with(label.as_str(), reference)
}

// ---------------------------------------------------------------------------
// Merging badges into refs
// ---------------------------------------------------------------------------

/// The labels of the upstream badges, in order.
pub open spec fn upstream_labels(list: Seq<RefBadge>) -> Seq<Seq<char>>
    decreases list.len(),
{
    if list.len() == 0 {
        seq![]
    } else {
        let rest = upstream_labels(list.drop_last());
        if list.last().kind == BadgeKind::Upstream {
            rest.push(list.last().label@)
        } else {
            rest
        }
    }
}

pub open spec fn is_local_kind(k: BadgeKind) -> bool {
    k == BadgeKind::CurrentBranch || k == BadgeKind::LocalBranch
}

/// Whether an upstream is `<remote>/name`: it ends with a slash and `name`.
pub open spec fn tracks(upstream: Seq<char>, name: Seq<char>) -> bool {
    let suffix = seq!['/'] + name;
    suffix.len() <= upstream.len() && upstream.skip(upstream.len() - suffix.len()) == suffix
}

/// The position of the first upstream that `name` tracks, or the count.
pub open spec fn first_tracking(ups: Seq<Seq<char>>, name: Seq<char>) -> int
    decreases ups.len(),
{
    if ups.len() == 0 {
        0
    } else if tracks(ups[0], name) {
        0
    } else {
        1 + first_tracking(ups.drop_first(), name)
    }
}

/// The local branches, each paired with the first upstream still free that
/// it tracks, and the upstreams left over.
pub open spec fn pair_locals(list: Seq<RefBadge>, ups: Seq<Seq<char>>) -> (Seq<MergedView>, Seq<Seq<char>>)
    decreases list.len(),
{
    if list.len() == 0 {
        (seq![], ups)
    } else {
        let (m, rest) = pair_locals(list.drop_last(), ups);
        let b = list.last();
        if is_local_kind(b.kind) {
            let i = first_tracking(rest, b.label@);
            if 0 <= i < rest.len() {
                (m.push((b.label@, b.kind, true, true)), rest.remove(i))
            } else {
                (m.push((b.label@, b.kind, true, false)), rest)
            }
        } else {
            (m, rest)
        }
    }
}

/// The label of the first HEAD badge, if any.
pub open spec fn first_head(list: Seq<RefBadge>) -> Option<Seq<char>>
    decreases list.len(),
{
    if list.len() == 0 {
        None
    } else if list[0].kind == BadgeKind::Head {
        Some(list[0].label@)
    } else {
        first_head(list.drop_first())
    }
}

/// The refs of one commit: a detached HEAD first, then the local branches
/// with the upstreams they track folded in, then the upstreams no local
/// branch tracks.
pub open spec fn merged_spec(list: Seq<RefBadge>) -> Seq<MergedView> {
    let head: Seq<MergedView> = match first_head(list) {
        Some(l) => seq![(l, BadgeKind::Head, false, false)],
        None => seq![],
    };
    let paired = pair_locals(list, upstream_labels(list));
    head + paired.0 + paired.1.map_values(|u: Seq<char>| (u, BadgeKind::Upstream, false, true))
}

/// Whether `upstream` ends with a slash and `name`.
fn tracks_name(upstream: &str, name: &str) -> (r: bool)
    ensures
        r == tracks(upstream@, name@),
{
    let u = chars_of(upstream);
    let n = chars_of(name);
    if n.len() >= u.len() {
        return false;
    }
    let start = u.len() - n.len() - 1;
    if u[start] != '/' {
        assert(u@.skip(start as int)[0] != (seq!['/'] + name@)[0]);
        return false;
    }
    let same = crate::text::range_eq(&u, start + 1, u.len(), &n);
    proof {
        let suffix = seq!['/'] + name@;
        assert(u@.skip(start as int) =~= seq!['/'] + u@.subrange(start + 1, u@.len() as int));
        if !same {
            assert(u@.skip(start as int).skip(1) =~= u@.subrange(start + 1, u@.len() as int));
            assert(suffix.skip(1) =~= name@);
        }
    }
    same
}

proof fn lemma_first_tracking_step(ups: Seq<Seq<char>>, name: Seq<char>, i: int)
    requires
        0 <= i < ups.len(),
    ensures
        first_tracking(ups.skip(i), name) == if tracks(ups[i], name) {
            0
        } else {
            1 + first_tracking(ups.skip(i + 1), name)
        },
{
    assert(ups.skip(i).drop_first() =~= ups.skip(i + 1));
    assert(ups.skip(i)[0] == ups[i]);
}

/// The position of the first upstream that `name` tracks, or the count.
fn find_tracking(ups: &Vec<String>, name: &str) -> (r: usize)
    ensures
        r == first_tracking(crate::text::strs(ups@), name@),
        r <= ups@.len(),
{
    let ghost us = crate::text::strs(ups@);
    let mut i: usize = 0;
    assert(us.skip(0) =~= us);
    while i < ups.len()
        invariant
            us == crate::text::strs(ups@),
            i <= ups@.len(),
            first_tracking(us, name@) == i + first_tracking(us.skip(i as int), name@),
        decreases ups@.len() - i,
    {
        proof {
            lemma_first_tracking_step(us, name@, i as int);
        }
        if tracks_name(ups[i].as_str(), name) {
            return i;
        }
        i = i + 1;
    }
    assert(us.skip(i as int).len() == 0);
    i
}

proof fn lemma_first_tracking_bound(ups: Seq<Seq<char>>, name: Seq<char>)
    ensures
        0 <= first_tracking(ups, name) <= ups.len(),
    decreases ups.len(),
{
    if ups.len() > 0 && !tracks(ups[0], name) {
        lemma_first_tracking_bound(ups.drop_first(), name);
    }
}

proof fn lemma_first_head_step(list: Seq<RefBadge>, i: int)
    requires
        0 <= i < list.len(),
    ensures
        first_head(list.skip(i)) == if list[i].kind == BadgeKind::Head {
            Some(list[i].label@)
        } else {
            first_head(list.skip(i + 1))
        },
{
    assert(list.skip(i).drop_first() =~= list.skip(i + 1));
    assert(list.skip(i)[0] == list[i]);
}

/// Merges a commit's badges into the refs the rail shows.
pub fn merged_refs(list: &[RefBadge]) -> (r: Vec<MergedRef>)
    ensures
        merged_views(r@) == merged_spec(list@),
{
    let ghost l = list@;
    // The upstream labels, in order.
    let mut upstreams: Vec<String> = Vec::new();
    let mut k: usize = 0;
    assert(l.take(0) =~= Seq::<RefBadge>::empty());
    assert(crate::text::strs(upstreams@) =~= upstream_labels(l.take(0)));
    while k < list.len()
        invariant
            l == list@,
            k <= l.len(),
            crate::text::strs(upstreams@) == upstream_labels(l.take(k as int)),
        decreases l.len() - k,
    {
        proof {
            assert(l.take(k + 1).drop_last() =~= l.take(k as int));
            assert(l.take(k + 1).last() == l[k as int]);
        }
        match list[k].kind {
            BadgeKind::Upstream => {
                let ghost prev = crate::text::strs(upstreams@);
                upstreams.push(list[k].label.clone());
                assert(crate::text::strs(upstreams@) =~= prev.push(l[k as int].label@));
            },
            _ => {},
        }
        k = k + 1;
    }
    assert(l.take(k as int) =~= l);
    let ghost all_ups = upstream_labels(l);
    // A detached HEAD first.
    let mut merged: Vec<MergedRef> = Vec::new();
    let mut h: usize = 0;
    assert(l.skip(0) =~= l);
    while h < list.len()
        invariant_except_break
            merged@.len() == 0,
        invariant
            l == list@,
            h <= l.len(),
            first_head(l) == first_head(l.skip(h as int)),
        ensures
            h <= l.len(),
            merged_views(merged@) == match first_head(l) {
                Some(lb) => seq![(lb, BadgeKind::Head, false, false)],
                None => Seq::<MergedView>::empty(),
            },
        decreases l.len() - h,
    {
        proof {
            lemma_first_head_step(l, h as int);
        }
        match list[h].kind {
            BadgeKind::Head => {
                merged.push(
                    MergedRef { label: list[h].label.clone(), kind: BadgeKind::Head, local: false, remote: false },
                );
                assert(merged_views(merged@) =~= seq![(l[h as int].label@, BadgeKind::Head, false, false)]);
                break;
            },
            _ => {},
        }
        h = h + 1;
    }
    proof {
        if h == l.len() {
            assert(l.skip(h as int).len() == 0);
            assert(merged_views(merged@) =~= Seq::<MergedView>::empty());
        }
    }
    let ghost head_part = merged_views(merged@);
    // Local branches, each taking the first free upstream it tracks.
    let mut k: usize = 0;
    assert(merged_views(merged@) =~= head_part + pair_locals(l.take(0), all_ups).0);
    while k < list.len()
        invariant
            l == list@,
            k <= l.len(),
            merged_views(merged@) == head_part + pair_locals(l.take(k as int), all_ups).0,
            crate::text::strs(upstreams@) == pair_locals(l.take(k as int), all_ups).1,
        decreases l.len() - k,
    {
        let b = &list[k];
        let ghost before = merged_views(merged@);
        let ghost rest = crate::text::strs(upstreams@);
        proof {
            assert(l.take(k + 1).drop_last() =~= l.take(k as int));
            assert(l.take(k + 1).last() == l[k as int]);
        }
        let local = match b.kind {
            BadgeKind::CurrentBranch | BadgeKind::LocalBranch => true,
            _ => false,
        };
        if local {
            let i = find_tracking(&upstreams, b.label.as_str());
            let paired = i < upstreams.len();
            if paired {
                upstreams.remove(i);
                assert(crate::text::strs(upstreams@) =~= rest.remove(i as int));
            }
            merged.push(MergedRef { label: b.label.clone(), kind: b.kind, local: true, remote: paired });
            assert(merged_views(merged@) =~= before.push((b.label@, b.kind, true, paired)));
        }
        k = k + 1;
    }
    assert(l.take(k as int) =~= l);
    // The upstreams no local branch tracks.
    let ghost locals_part = merged_views(merged@);
    let ghost left = crate::text::strs(upstreams@);
    let mut j: usize = 0;
    while j < upstreams.len()
        invariant
            j <= upstreams@.len(),
            left == crate::text::strs(upstreams@),
            merged_views(merged@) == locals_part + left.take(j as int).map_values(
                |u: Seq<char>| (u, BadgeKind::Upstream, false, true),
            ),
        decreases upstreams@.len() - j,
    {
        let ghost before = merged_views(merged@);
        merged.push(
            MergedRef { label: upstreams[j].clone(), kind: BadgeKind::Upstream, local: false, remote: true },
        );
        j = j + 1;
        assert(left.take(j as int).map_values(|u: Seq<char>| (u, BadgeKind::Upstream, false, true))
            =~= left.take(j - 1).map_values(|u: Seq<char>| (u, BadgeKind::Upstream, false, true)).push(
            (left[j - 1], BadgeKind::Upstream, false, true),
        ));
        assert(merged_views(merged@) =~= before.push((left[j - 1], BadgeKind::Upstream, false, true)));
    }
    assert(left.take(j as int) =~= left);
    merged
}

/// How many refs show the remote icon.
pub open spec fn remote_count(ms: Seq<MergedView>) -> nat
    decreases ms.len(),
{
    if ms.len() == 0 {
        0
    } else {
        remote_count(ms.drop_last()) + if ms.last().3 {
            1nat
        } else {
            0nat
        }
    }
}

proof fn lemma_remote_count_append(a: Seq<MergedView>, b: Seq<MergedView>)
    ensures
        remote_count(a + b) == remote_count(a) + remote_count(b),
    decreases b.len(),
{
    if b.len() == 0 {
        assert(a + b =~= a);
    } else {
        lemma_remote_count_append(a, b.drop_last());
        assert((a + b).drop_last() =~= a + b.drop_last());
    }
}

proof fn lemma_pairing_conserves(list: Seq<RefBadge>, ups: Seq<Seq<char>>)
    ensures
        remote_count(pair_locals(list, ups).0) + pair_locals(list, ups).1.len() == ups.len(),
    decreases list.len(),
{
    if list.len() > 0 {
        lemma_pairing_conserves(list.drop_last(), ups);
        let (m, rest) = pair_locals(list.drop_last(), ups);
        let b = list.last();
        if is_local_kind(b.kind) {
            let i = first_tracking(rest, b.label@);
            let paired = 0 <= i < rest.len();
            let v = (b.label@, b.kind, true, paired);
            assert(m.push(v).drop_last() =~= m);
        }
    }
}

proof fn lemma_all_remote(us: Seq<Seq<char>>)
    ensures
        remote_count(us.map_values(|u: Seq<char>| (u, BadgeKind::Upstream, false, true))) == us.len(),
    decreases us.len(),
{
    if us.len() > 0 {
        lemma_all_remote(us.drop_last());
        assert(us.map_values(|u: Seq<char>| (u, BadgeKind::Upstream, false, true)).drop_last()
            =~= us.drop_last().map_values(|u: Seq<char>| (u, BadgeKind::Upstream, false, true)));
    }
}

/// Every upstream badge shows exactly once: folded into the local branch
/// that tracks it, or as a ref of its own.
pub proof fn law_every_upstream_shows_once(list: Seq<RefBadge>)
    ensures
        remote_count(merged_spec(list)) == upstream_labels(list).len(),
{
    let head: Seq<MergedView> = match first_head(list) {
        Some(l) => seq![(l, BadgeKind::Head, false, false)],
        None => seq![],
    };
    let paired = pair_locals(list, upstream_labels(list));
    let rest = paired.1.map_values(|u: Seq<char>| (u, BadgeKind::Upstream, false, true));
    assert(remote_count(head) == 0) by {
        if head.len() > 0 {
            assert(head.drop_last() =~= Seq::<MergedView>::empty());
            assert(remote_count(head.drop_last()) == 0);
            assert(!head.last().3);
        } else {
            assert(head.len() == 0);
        }
    }
    lemma_remote_count_append(head, paired.0);
    lemma_remote_count_append(head + paired.0, rest);
    lemma_pairing_conserves(list, upstream_labels(list));
    lemma_all_remote(paired.1);
}

/// The branch name an upstream label refers to: what follows its first
/// slash, or the whole label.
pub open spec fn upstream_branch(label: Seq<char>) -> Seq<char> {
    let i = crate::text::find_char(label, '/');
    if i < label.len() {
        label.skip(i + 1)
    } else {
        label
    }
}

/// Whether a badge shows: HEAD and the current branch always do; a local
/// branch unless hidden; an upstream as its local branch would, counting it
/// as HEAD's when HEAD is on that branch.
pub open spec fn badge_visible_spec(
    badge: RefBadge,
    vis: (Set<Seq<char>>, Set<Seq<char>>),
    head_branch: Option<Seq<char>>,
) -> bool {
    match badge.kind {
        BadgeKind::Head => true,
        BadgeKind::CurrentBranch => true,
        BadgeKind::LocalBranch => vis.1.contains(badge.label@) || !vis.0.contains(badge.label@),
        BadgeKind::Upstream => {
            let local = upstream_branch(badge.label@);
            head_branch == Some(local) || vis.1.contains(local) || !vis.0.contains(local)
        },
    }
}

pub fn badge_is_visible(badge: &RefBadge, visibility: &Visibility, head_branch: Option<&str>) -> (r: bool)
    ensures
        r == badge_visible_spec(
            *badge,
            visibility@,
            match head_branch {
                Some(h) => Some(h@),
                None => None,
            },
        ),
{
    match badge.kind {
        BadgeKind::Head | BadgeKind::CurrentBranch => true,
        BadgeKind::LocalBranch => visibility.is_visible(badge.label.as_str(), false),
        BadgeKind::Upstream => {
            let cs = chars_of(badge.label.as_str());
            let n = cs.len();
            let i = crate::text::find_in(&cs, 0, n, '/');
            assert(cs@.subrange(0, n as int) =~= cs@);
            let local = if i < n {
                assert(cs@.subrange(i + 1, n as int) =~= cs@.skip(i + 1));
                string_of(&cs, i + 1, n)
            } else {
                string_of(&cs, 0, n)
            };
            let is_head = match head_branch {
                Some(h) => crate::branches::str_eq(h, local.as_str()),
                None => false,
            };
            visibility.is_visible(local.as_str(), is_head)
        },
    }
}

// ---------------------------------------------------------------------------
// The header row
// ---------------------------------------------------------------------------

pub const SHA_WIDTH: usize = 8;

pub const AGE_WIDTH: usize = 5;

pub const AUTHOR_WIDTH: usize = 14;

pub const COLUMN_GAP: usize = 2;

/// The separator between the rail and the graph.
pub open spec fn rail_separator() -> Seq<char> {
    seq![' ', '┊', ' ']
}

/// The column titles over the rail, graph, message, author, age and id.
pub open spec fn header_spec(rail_width: nat, graph_width: nat, message_width: nat) -> Seq<char> {
    clip_pad_spec(" BRANCH"@, rail_width) + spaces((rail_separator().len() + 2 + graph_width + COLUMN_GAP) as nat)
        + clip_pad_spec("MESSAGE"@, message_width) + spaces(COLUMN_GAP as nat) + clip_pad_spec(
        "AUTHOR"@,
        AUTHOR_WIDTH as nat,
    ) + spaces(COLUMN_GAP as nat) + "  AGE"@ + spaces(COLUMN_GAP as nat) + clip_pad_spec(
        "SHA"@,
        SHA_WIDTH as nat,
    )
}

fn push_spaces(out: &mut String, n: usize)
    ensures
        final(out)@ == old(out)@ + spaces(n as nat),
{
    let mut k: usize = 0;
    assert(old(out)@ + spaces(0) =~= old(out)@);
    while k < n
        invariant
            k <= n,
            out@ == old(out)@ + spaces(k as nat),
        decreases n - k,
    {
        push_char(out, ' ');
        k = k + 1;
        assert(out@ =~= old(out)@ + spaces(k as nat));
    }
}

pub fn header(rail_width: usize, graph_width: usize, message_width: usize) -> (r: String)
    requires
        graph_width + 7 <= usize::MAX,
    ensures
        r@ == header_spec(rail_width as nat, graph_width as nat, message_width as nat),
{
    proof {
        reveal_strlit(" BRANCH");
        reveal_strlit("MESSAGE");
        reveal_strlit("AUTHOR");
        reveal_strlit("SHA");
        reveal_strlit("  AGE");
    }
    let mut out = clip_pad(" BRANCH", rail_width);
    push_spaces(&mut out, 3 + 2 + graph_width + COLUMN_GAP);
    let message = clip_pad("MESSAGE", message_width);
    push_str(&mut out, message.as_str());
    push_spaces(&mut out, COLUMN_GAP);
    let author = clip_pad("AUTHOR", AUTHOR_WIDTH);
    push_str(&mut out, author.as_str());
    push_spaces(&mut out, COLUMN_GAP);
    push_str(&mut out, "  AGE");
    push_spaces(&mut out, COLUMN_GAP);
    let sha = clip_pad("SHA", SHA_WIDTH);
    push_str(&mut out, sha.as_str());
    out
}

// ---------------------------------------------------------------------------
// Column widths
// ---------------------------------------------------------------------------

pub const RAIL_MIN: usize = 8;

pub const RAIL_MAX: usize = 30;

pub const GRAPH_MAX: usize = 24;

pub open spec fn clamp_spec(v: nat, lo: nat, hi: nat) -> nat {
    if v < lo {
        lo
    } else if v > hi {
        hi
    } else {
        v
    }
}

/// The columns one commit's rail needs: its first pill, and three more for
/// the "+N" of the others when there are any.
pub open spec fn rail_need(refs: Seq<MergedView>) -> Option<nat> {
    if refs.len() == 0 {
        None
    } else {
        let m = refs[0];
        Some(
            width_spec(pill_spec(m.0, m.1, m.2, m.3)) + if refs.len() > 1 {
                3nat
            } else {
                0nat
            },
        )
    }
}

/// The largest need of the commits that have refs.
pub open spec fn widest_need(rs: Seq<Seq<MergedView>>) -> Option<nat>
    decreases rs.len(),
{
    if rs.len() == 0 {
        None
    } else {
        let rest = widest_need(rs.drop_last());
        match (rest, rail_need(rs.last())) {
            (Some(a), Some(b)) => Some(
                if a >= b {
                    a
                } else {
                    b
                },
            ),
            (Some(a), None) => Some(a),
            (None, b) => b,
        }
    }
}

/// The width of the rail: the widest need, kept between the rail's bounds;
/// the narrowest rail when no commit has a ref.
pub open spec fn rail_width_spec(rs: Seq<Seq<MergedView>>) -> nat {
    let w = match widest_need(rs) {
        Some(w) => w,
        None => RAIL_MIN as nat,
    };
    clamp_spec(w, RAIL_MIN as nat, RAIL_MAX as nat)
}

/// Each commit's refs as views.
pub open spec fn rail_views(refs: Seq<Vec<MergedRef>>) -> Seq<Seq<MergedView>> {
    refs.map_values(|v: Vec<MergedRef>| merged_views(v@))
}

/// Labels short enough to measure the pill of.
pub open spec fn short_labels(refs: Seq<Vec<MergedRef>>) -> bool {
    forall|i: int, j: int|
        0 <= i < refs.len() && 0 <= j < refs[i]@.len() ==> (#[trigger] refs[i]@[j]).label@.len() < usize::MAX
            / 4 - 9
}

/// A fitted pill is at most ten characters longer than its label.
proof fn lemma_fitted_len(m: MergedView, max_width: nat)
    ensures
        fitted_spec(m, max_width).len() <= m.0.len() + 10,
{
    lemma_pill_width(m.0, m.1, m.2, m.3);
    let natural = pill_spec(m.0, m.1, m.2, m.3);
    if width_spec(natural) > max_width {
        let overhead = width_spec(natural) - width_spec(m.0);
        let room: nat = if overhead <= max_width { (max_width - overhead) as nat } else { 0 };
        let clipped = clip_spec(m.0, room);
        lemma_fit_bound(m.0, if room == 0 { 0 } else { room - 1 });
        assert(clipped.len() <= m.0.len() + 1);
        lemma_pill_width(clipped, m.1, m.2, m.3);
    }
}

/// The width of the rail for the refs of each commit shown.
pub fn rail_width(refs: &Vec<Vec<MergedRef>>) -> (r: usize)
    requires
        short_labels(refs@),
    ensures
        r == rail_width_spec(rail_views(refs@)),
{
    let ghost rs = rail_views(refs@);
    let mut best: Option<usize> = None;
    let mut i: usize = 0;
    while i < refs.len()
        invariant
            i <= refs@.len(),
            rs == rail_views(refs@),
            short_labels(refs@),
            match best {
                Some(b) => widest_need(rs.take(i as int)) == Some(b as nat),
                None => widest_need(rs.take(i as int)) is None,
            },
        decreases refs@.len() - i,
    {
        let list = &refs[i];
        proof {
            assert(rs.take(i + 1).drop_last() =~= rs.take(i as int));
            assert(rs.take(i + 1).last() == merged_views(list@));
        }
        if list.len() > 0 {
            let first = &list[0];
            let pill = pill_text(first);
            proof {
                assert(first.label@.len() < usize::MAX / 4 - 9);
                lemma_pill_width(first.label@, first.kind, first.local, first.remote);
                assert(merged_views(list@)[0] == merged_view(*first));
            }
            let extra: usize = if list.len() > 1 {
                3
            } else {
                0
            };
            let need = display_width(pill.as_str()) + extra;
            best = match best {
                Some(b) => Some(
                    if b >= need {
                        b
                    } else {
                        need
                    },
                ),
                None => Some(need),
            };
        }
        i = i + 1;
    }
    assert(rs.take(i as int) =~= rs);
    let w = match best {
        Some(b) => b,
        None => RAIL_MIN,
    };
    if w < RAIL_MIN {
        RAIL_MIN
    } else if w > RAIL_MAX {
        RAIL_MAX
    } else {
        w
    }
}

/// The widest row of glyphs, two columns when there is none.
pub open spec fn widest_glyphs(rows: Seq<GraphRow<String>>) -> nat
    decreases rows.len(),
{
    if rows.len() == 0 {
        0
    } else {
        let w = rows.last().glyphs@.len();
        let rest = widest_glyphs(rows.drop_last());
        if w >= rest {
            w
        } else {
            rest
        }
    }
}

/// The width of the graph column: its widest row, kept between two columns
/// and the graph's bound.
pub open spec fn graph_width_spec(rows: Seq<GraphRow<String>>) -> nat {
    clamp_spec(widest_glyphs(rows), 2, GRAPH_MAX as nat)
}

pub fn graph_width(rows: &[GraphRow<String>]) -> (r: usize)
    ensures
        r == graph_width_spec(rows@),
{
    let mut best: usize = 0;
    let mut i: usize = 0;
    while i < rows.len()
        invariant
            i <= rows@.len(),
            best == widest_glyphs(rows@.take(i as int)),
        decreases rows@.len() - i,
    {
        let w = chars_of(rows[i].glyphs.as_str()).len();
        proof {
            assert(rows@.take(i + 1).drop_last() =~= rows@.take(i as int));
        }
        if w > best {
            best = w;
        }
        i = i + 1;
    }
    assert(rows@.take(i as int) =~= rows@);
    if best < 2 {
        2
    } else if best > GRAPH_MAX {
        GRAPH_MAX
    } else {
        best
    }
}

proof fn lemma_widest_need_append(rs: Seq<Seq<MergedView>>, more: Seq<Seq<MergedView>>)
    ensures
        match (widest_need(rs), widest_need(rs + more)) {
            (Some(a), Some(b)) => a <= b,
            (Some(a), None) => false,
            _ => true,
        },
    decreases more.len(),
{
    if more.len() == 0 {
        assert(rs + more =~= rs);
    } else {
        lemma_widest_need_append(rs, more.drop_last());
        assert((rs + more).drop_last() =~= rs + more.drop_last());
        assert((rs + more).last() == more.last());
    }
}

/// Laying out more commits never narrows the rail.
pub proof fn law_rail_grows_with_more_commits(rs: Seq<Seq<MergedView>>, more: Seq<Seq<MergedView>>)
    ensures
        rail_width_spec(rs) <= rail_width_spec(rs + more),
{
    lemma_widest_need_append(rs, more);
}

proof fn lemma_widest_need_holds(rs: Seq<Seq<MergedView>>, i: int)
    requires
        0 <= i < rs.len(),
        rail_need(rs[i]) is Some,
    ensures
        widest_need(rs) is Some,
        rail_need(rs[i])->0 <= widest_need(rs)->0,
    decreases rs.len(),
{
    if i < rs.len() - 1 {
        lemma_widest_need_holds(rs.drop_last(), i);
        assert(rs.drop_last()[i] == rs[i]);
    }
}

/// The rail is wide enough for the first pill of every commit shown, and
/// its "+N", unless that would pass the rail's bound.
pub proof fn law_rail_holds_every_first_pill(rs: Seq<Seq<MergedView>>, i: int)
    requires
        0 <= i < rs.len(),
        rail_need(rs[i]) is Some,
    ensures
        rail_need(rs[i])->0 <= rail_width_spec(rs) || rail_width_spec(rs) == RAIL_MAX,
{
    lemma_widest_need_holds(rs, i);
}

/// What the fixed columns take: the rail and its separator, the selection
/// marker, the graph, and the author, age and id columns with their gaps.
pub open spec fn fixed_columns(rail_width: nat, graph_width: nat) -> nat {
    (rail_width + 3 + 2 + graph_width + COLUMN_GAP + COLUMN_GAP + AUTHOR_WIDTH + COLUMN_GAP + AGE_WIDTH
        + COLUMN_GAP + SHA_WIDTH) as nat
}

/// The width of the message column: what the fixed columns leave of the
/// area, but at least ten.
pub fn message_width(area_width: usize, rail_width: usize, graph_width: usize) -> (r: usize)
    requires
        rail_width <= RAIL_MAX,
        graph_width <= GRAPH_MAX,
    ensures
        r == (if area_width >= fixed_columns(rail_width as nat, graph_width as nat) + 10 {
            area_width - fixed_columns(rail_width as nat, graph_width as nat)
        } else {
            10
        }),
{
    let fixed = rail_width + 3 + 2 + graph_width + COLUMN_GAP + COLUMN_GAP + AUTHOR_WIDTH + COLUMN_GAP
        + AGE_WIDTH + COLUMN_GAP + SHA_WIDTH;
    if area_width >= fixed + 10 {
        area_width - fixed
    } else {
        10
    }
}

/// The "+N" that counts the refs after the first.
pub open spec fn extra_spec(count: nat) -> Seq<char> {
    if count > 1 {
        seq!['+'] + crate::text::decimal((count - 1) as nat)
    } else {
        Seq::empty()
    }
}

/// The rail cell of a commit: the padding, the first ref's pill fitted to
/// what the "+N" leaves, and the "+N"; all blank when it has no refs.
pub open spec fn rail_cell_spec(refs: Seq<MergedView>, rail_width: nat) -> (nat, Seq<char>, Seq<char>) {
    if refs.len() == 0 {
        (rail_width, Seq::empty(), Seq::empty())
    } else {
        let extra = extra_spec(refs.len());
        let room: nat = if width_spec(extra) <= rail_width {
            (rail_width - width_spec(extra)) as nat
        } else {
            0
        };
        let pill = fitted_spec(refs[0], room);
        let used = width_spec(pill) + width_spec(extra);
        let pad: nat = if used <= rail_width {
            (rail_width - used) as nat
        } else {
            0
        };
        (pad, pill, extra)
    }
}

pub fn rail_cell(refs: &Vec<MergedRef>, rail_width: usize) -> (r: (usize, String, String))
    requires
        forall|j: int| 0 <= j < refs@.len() ==> (#[trigger] refs@[j]).label@.len() < usize::MAX / 4 - 10,
        rail_width <= RAIL_MAX,
    ensures
        (r.0 as nat, r.1@, r.2@) == rail_cell_spec(merged_views(refs@), rail_width as nat),
{
    if refs.len() == 0 {
        return (rail_width, String::new(), String::new());
    }
    let mut extra = String::new();
    if refs.len() > 1 {
        push_char(&mut extra, '+');
        crate::text::push_decimal(&mut extra, refs.len() - 1);
        assert(extra@ =~= extra_spec(refs@.len()));
    } else {
        assert(extra@ =~= extra_spec(refs@.len()));
    }
    proof {
        crate::text::lemma_decimal_len_bound((refs@.len() - 1) as nat);
    }
    let extra_width = display_width(extra.as_str());
    let room = if extra_width <= rail_width {
        rail_width - extra_width
    } else {
        0
    };
    let first = &refs[0];
    assert(merged_views(refs@)[0] == merged_view(*first));
    let pill = fitted_pill(first, room);
    proof {
        lemma_fitted_len(merged_view(*first), room as nat);
    }
    let pill_width = display_width(pill.as_str());
    let pad = if pill_width <= rail_width && extra_width <= rail_width - pill_width {
        rail_width - pill_width - extra_width
    } else {
        0
    };
    (pad, pill, extra)
}

} // verus!
