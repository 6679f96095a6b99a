//! Lane layout of the commit graph: each commit gets a column, and each row
//! gets the glyphs that connect it to its parents.
//!
//! The layout is a fold of [`step`] over the commits; a lane is `None` when it
//! is free, or holds the commit it waits for and the key of the line it
//! belongs to (the key stays put while the line moves between columns).
use vstd::prelude::*;

use crate::text::{is_whitespace, lemma_trim_end_at, string_of, trim_end, is_ws};

verus! {

#[derive(Debug, Clone)]
pub struct GraphCommit<Id> {
    pub id: Id,
    pub parents: Vec<Id>,
}

#[derive(Debug, Clone, PartialEq, Eq)]
pub struct GraphRow<Id> {
    pub node_column: usize,
    pub glyphs: String,
    pub node_key: Id,
    pub lane_keys: Vec<Option<Id>>,
}

pub const NODE: char = '●';
pub const VERTICAL: char = '│';
pub const HORIZONTAL: char = '─';
pub const OPEN_RIGHT: char = '╮';
pub const CLOSE_RIGHT: char = '╯';
pub const CROSS: char = '┼';

/// An occupied lane: the commit it waits for and its line's key.
#[derive(Debug)]
pub struct Lane<Id> {
    pub expected: Id,
    pub key: Id,
}

/// A lane as the spec sees it: `(expected, key)`, or `None` when free.
pub type LaneView = Option<(Seq<char>, Seq<char>)>;

/// A commit as the spec sees it: `(id, parents)`.
pub type CommitView = (Seq<char>, Seq<Seq<char>>);

/// A row as the spec sees it: `(node_column, glyphs, node_key, lane_keys)`.
pub type RowView = (usize, Seq<char>, Seq<char>, Seq<Option<Seq<char>>>);

pub open spec fn lane_view(l: Option<Lane<String>>) -> LaneView {
    match l {
        Some(x) => Some((x.expected@, x.key@)),
        None => None,
    }
}

pub open spec fn lanes_view(ls: Seq<Option<Lane<String>>>) -> Seq<LaneView> {
    ls.map_values(|l: Option<Lane<String>>| lane_view(l))
}

pub open spec fn commit_view(c: GraphCommit<String>) -> CommitView {
    (c.id@, c.parents@.map_values(|p: String| p@))
}

pub open spec fn commits_view(cs: Seq<GraphCommit<String>>) -> Seq<CommitView> {
    cs.map_values(|c: GraphCommit<String>| commit_view(c))
}

pub open spec fn key_view(k: Option<String>) -> Option<Seq<char>> {
    match k {
        Some(s) => Some(s@),
        None => None,
    }
}

pub open spec fn row_view(r: GraphRow<String>) -> RowView {
    (r.node_column, r.glyphs@, r.node_key@, r.lane_keys@.map_values(|k: Option<String>| key_view(k)))
}

pub open spec fn rows_view(rs: Seq<GraphRow<String>>) -> Seq<RowView> {
    rs.map_values(|r: GraphRow<String>| row_view(r))
}

// ---------------------------------------------------------------------------
// The layout, as a spec
// ---------------------------------------------------------------------------

/// A lane waiting for `id`.
pub open spec fn is_merging(l: LaneView, id: Seq<char>) -> bool {
    l matches Some(p) && p.0 == id
}

/// The first lane waiting for `id`, or the lane count when none does.
pub open spec fn first_merging(ls: Seq<LaneView>, id: Seq<char>) -> int {
    if exists|i: int| 0 <= i < ls.len() && #[trigger] is_merging(ls[i], id) {
        choose|i: int|
            0 <= i < ls.len() && #[trigger] is_merging(ls[i], id) && forall|j: int|
                0 <= j < i ==> !is_merging(#[trigger] ls[j], id)
    } else {
        ls.len() as int
    }
}

/// The first free lane, or the lane count when none is free.
pub open spec fn first_free(ls: Seq<LaneView>) -> int {
    if exists|i: int| 0 <= i < ls.len() && #[trigger] ls[i] is None {
        choose|i: int|
            0 <= i < ls.len() && #[trigger] ls[i] is None && forall|j: int|
                0 <= j < i ==> !(#[trigger] ls[j] is None)
    } else {
        ls.len() as int
    }
}

/// Puts `v` into the first free lane, opening a new lane when none is free.
pub open spec fn place(ls: Seq<LaneView>, v: LaneView) -> (Seq<LaneView>, int) {
    let slot = first_free(ls);
    if slot == ls.len() {
        (ls.push(v), slot)
    } else {
        (ls.update(slot, v), slot)
    }
}

/// The column of a commit: the first lane waiting for it, else a free lane.
pub open spec fn claim_node(ls: Seq<LaneView>, id: Seq<char>) -> (Seq<LaneView>, int) {
    let m = first_merging(ls, id);
    if m < ls.len() {
        (ls, m)
    } else {
        place(ls, None)
    }
}

/// Opens a lane for each of `ps`, in order, each keyed by its parent.
pub open spec fn open_parents(ls: Seq<LaneView>, ps: Seq<Seq<char>>) -> (Seq<LaneView>, Seq<int>)
    decreases ps.len(),
{
    if ps.len() == 0 {
        (ls, seq![])
    } else {
        let prev = open_parents(ls, ps.drop_last());
        let next = place(prev.0, Some((ps.last(), ps.last())));
        (next.0, prev.1.push(next.1))
    }
}

/// The lanes below `k`, other than the node column, that were waiting for `id`.
pub open spec fn closed_lanes(ls: Seq<LaneView>, id: Seq<char>, nc: int, k: int) -> Seq<int>
    decreases k,
{
    if k <= 0 {
        seq![]
    } else {
        let prev = closed_lanes(ls, id, nc, k - 1);
        if is_merging(ls[k - 1], id) && k - 1 != nc {
            prev.push(k - 1)
        } else {
            prev
        }
    }
}

pub open spec fn lane_key(l: LaneView) -> Option<Seq<char>> {
    match l {
        Some(p) => Some(p.1),
        None => None,
    }
}

pub open spec fn occupied(ls: Seq<LaneView>) -> Seq<bool> {
    ls.map_values(|l: LaneView| l is Some)
}

pub open spec fn flag(bs: Seq<bool>, i: int) -> bool {
    0 <= i < bs.len() && bs[i]
}

/// The blank row with a vertical line in every lane, other than the node's,
/// that is occupied both above and below it.
pub open spec fn base_cells(nc: int, inc: Seq<bool>, out: Seq<bool>) -> Seq<char> {
    let n = if inc.len() >= out.len() {
        inc.len()
    } else {
        out.len()
    };
    Seq::new(
        2 * n,
        |j: int|
            if j % 2 == 0 && j / 2 != nc && flag(inc, j / 2) && flag(out, j / 2) {
                VERTICAL
            } else {
                ' '
            },
    )
}

/// Draws the connector from the node to `lane`, ending in `glyph`.
pub open spec fn draw_one(cells: Seq<char>, nc: int, lane: int, glyph: char) -> Seq<char> {
    Seq::new(
        cells.len(),
        |j: int|
            if nc * 2 + 1 <= j < lane * 2 {
                if cells[j] == VERTICAL {
                    CROSS
                } else {
                    HORIZONTAL
                }
            } else {
                cells[j]
            },
    ).update(lane * 2, glyph)
}

/// Draws the connectors to `ls`, in order; a lane that was opened ends in a
/// curve down, any other in a curve up.
pub open spec fn draw_all(cells: Seq<char>, nc: int, ls: Seq<int>, opened: Seq<int>) -> Seq<char>
    decreases ls.len(),
{
    if ls.len() == 0 {
        cells
    } else {
        let lane = ls.last();
        draw_one(
            draw_all(cells, nc, ls.drop_last(), opened),
            nc,
            lane,
            if opened.contains(lane) {
                OPEN_RIGHT
            } else {
                CLOSE_RIGHT
            },
        )
    }
}

/// The glyphs of a row.
pub open spec fn render(
    nc: int,
    inc: Seq<bool>,
    out: Seq<bool>,
    opened: Seq<int>,
    closed: Seq<int>,
) -> Seq<char> {
    trim_end(draw_all(base_cells(nc, inc, out), nc, opened + closed, opened).update(nc * 2, NODE))
}

/// The lane keys of a row: a lane's key below the row, else above it.
pub open spec fn row_keys(before: Seq<LaneView>, after: Seq<LaneView>) -> Seq<Option<Seq<char>>> {
    let n = if after.len() >= before.len() {
        after.len()
    } else {
        before.len()
    };
    Seq::new(
        n as nat,
        |i: int|
            if i < after.len() && after[i] is Some {
                lane_key(after[i])
            } else if i < before.len() {
                lane_key(before[i])
            } else {
                None
            },
    )
}

/// The parents after the first.
pub open spec fn other_parents(ps: Seq<Seq<char>>) -> Seq<Seq<char>> {
    if ps.len() > 0 {
        ps.drop_first()
    } else {
        seq![]
    }
}

/// Lays out one commit: the lanes after it and its row.
pub open spec fn step(ls: Seq<LaneView>, c: CommitView) -> (Seq<LaneView>, RowView) {
    let claimed = claim_node(ls, c.0);
    let l1 = claimed.0;
    let nc = claimed.1;
    let key = match l1[nc] {
        Some(p) => p.1,
        None => c.0,
    };
    let l2 = Seq::new(l1.len(), |i: int| if is_merging(l1[i], c.0) { None } else { l1[i] });
    let l3 = l2.update(
        nc,
        if c.1.len() > 0 {
            Some((c.1[0], key))
        } else {
            None
        },
    );
    let opening = open_parents(l3, other_parents(c.1));
    let l4 = opening.0;
    let opened = opening.1;
    let closed = closed_lanes(l1, c.0, nc, l1.len() as int);
    let glyphs = render(nc, occupied(l1), occupied(l4), opened, closed);
    (l4, (nc as usize, glyphs, key, row_keys(l1, l4)))
}

/// Lays out `cs` after lanes `ls`: the lanes after them and their rows.
pub open spec fn layout(ls: Seq<LaneView>, cs: Seq<CommitView>) -> (Seq<LaneView>, Seq<RowView>)
    decreases cs.len(),
{
    if cs.len() == 0 {
        (ls, seq![])
    } else {
        let prev = layout(ls, cs.drop_last());
        let next = step(prev.0, cs.last());
        (next.0, prev.1.push(next.1))
    }
}

/// How many lanes laying out `cs` may add at most.
pub open spec fn growth(cs: Seq<CommitView>) -> nat
    decreases cs.len(),
{
    if cs.len() == 0 {
        0
    } else {
        growth(cs.drop_last()) + 1 + cs.last().1.len()
    }
}

// ---------------------------------------------------------------------------
// Facts about the spec
// ---------------------------------------------------------------------------

proof fn lemma_first_free(ls: Seq<LaneView>, i: int)
    requires
        0 <= i <= ls.len(),
        forall|j: int| 0 <= j < i ==> !(#[trigger] ls[j] is None),
        i == ls.len() || ls[i] is None,
    ensures
        first_free(ls) == i,
{
    if i < ls.len() {
        assert(exists|k: int| 0 <= k < ls.len() && #[trigger] ls[k] is None);
        let k = first_free(ls);
        assert(0 <= k < ls.len() && ls[k] is None && forall|j: int|
            0 <= j < k ==> !(#[trigger] ls[j] is None));
        if k < i {
        } else if k > i {
            assert(!(ls[i] is None));
        }
    } else {
        assert(!(exists|k: int| 0 <= k < ls.len() && #[trigger] ls[k] is None));
    }
}

proof fn lemma_first_merging(ls: Seq<LaneView>, id: Seq<char>, i: int)
    requires
        0 <= i <= ls.len(),
        forall|j: int| 0 <= j < i ==> !is_merging(#[trigger] ls[j], id),
        i == ls.len() || is_merging(ls[i], id),
    ensures
        first_merging(ls, id) == i,
{
    if i < ls.len() {
        assert(exists|k: int| 0 <= k < ls.len() && #[trigger] is_merging(ls[k], id));
        let k = first_merging(ls, id);
        assert(0 <= k < ls.len() && is_merging(ls[k], id) && forall|j: int|
            0 <= j < k ==> !is_merging(#[trigger] ls[j], id));
        if k < i {
        } else if k > i {
            assert(!is_merging(ls[i], id));
        }
    } else {
        assert(!(exists|k: int| 0 <= k < ls.len() && #[trigger] is_merging(ls[k], id)));
    }
}

proof fn lemma_place_len(ls: Seq<LaneView>, v: LaneView)
    ensures
        place(ls, v).0.len() <= ls.len() + 1,
        place(ls, v).0.len() >= ls.len(),
        0 <= place(ls, v).1 < place(ls, v).0.len(),
{
    if first_free(ls) < ls.len() {
        lemma_first_free_bounds(ls);
    }
    lemma_first_free_bounds(ls);
}

proof fn lemma_first_free_bounds(ls: Seq<LaneView>)
    ensures
        0 <= first_free(ls) <= ls.len(),
{
    if exists|i: int| 0 <= i < ls.len() && #[trigger] ls[i] is None {
        let w = choose|i: int| 0 <= i < ls.len() && #[trigger] ls[i] is None;
        lemma_min_free_exists(ls, w);
    }
}

proof fn lemma_min_free_exists(ls: Seq<LaneView>, w: int)
    requires
        0 <= w < ls.len(),
        ls[w] is None,
    ensures
        exists|i: int|
            0 <= i < ls.len() && #[trigger] ls[i] is None && forall|j: int|
                0 <= j < i ==> !(#[trigger] ls[j] is None),
    decreases w,
{
    if exists|j: int| 0 <= j < w && #[trigger] ls[j] is None {
        let v = choose|j: int| 0 <= j < w && #[trigger] ls[j] is None;
        lemma_min_free_exists(ls, v);
    } else {
        assert(forall|j: int| 0 <= j < w ==> !(#[trigger] ls[j] is None));
    }
}

proof fn lemma_open_parents_len(ls: Seq<LaneView>, ps: Seq<Seq<char>>)
    ensures
        ls.len() <= open_parents(ls, ps).0.len() <= ls.len() + ps.len(),
        open_parents(ls, ps).1.len() == ps.len(),
        forall|k: int|
            0 <= k < ps.len() ==> 0 <= #[trigger] open_parents(ls, ps).1[k] < open_parents(
                ls,
                ps,
            ).0.len(),
    decreases ps.len(),
{
    if ps.len() > 0 {
        let prev = open_parents(ls, ps.drop_last());
        lemma_open_parents_len(ls, ps.drop_last());
        lemma_place_len(prev.0, Some((ps.last(), ps.last())));
    }
}

proof fn lemma_closed_lanes_bounds(ls: Seq<LaneView>, id: Seq<char>, nc: int, k: int)
    requires
        0 <= k <= ls.len(),
    ensures
        forall|j: int|
            0 <= j < closed_lanes(ls, id, nc, k).len() ==> 0 <= #[trigger] closed_lanes(
                ls,
                id,
                nc,
                k,
            )[j] < k,
    decreases k,
{
    if k > 0 {
        lemma_closed_lanes_bounds(ls, id, nc, k - 1);
        let prev = closed_lanes(ls, id, nc, k - 1);
        let cur = closed_lanes(ls, id, nc, k);
        assert forall|j: int| 0 <= j < cur.len() implies 0 <= #[trigger] cur[j] < k by {
            if j < prev.len() {
                assert(cur[j] == prev[j]);
            }
        }
    }
}

proof fn lemma_first_merging_bounds(ls: Seq<LaneView>, id: Seq<char>)
    ensures
        0 <= first_merging(ls, id) <= ls.len(),
        first_merging(ls, id) < ls.len() ==> is_merging(ls[first_merging(ls, id)], id),
{
    if exists|i: int| 0 <= i < ls.len() && #[trigger] is_merging(ls[i], id) {
        let w = choose|i: int| 0 <= i < ls.len() && #[trigger] is_merging(ls[i], id);
        lemma_min_merging_exists(ls, id, w);
    }
}

proof fn lemma_min_merging_exists(ls: Seq<LaneView>, id: Seq<char>, w: int)
    requires
        0 <= w < ls.len(),
        is_merging(ls[w], id),
    ensures
        exists|i: int|
            0 <= i < ls.len() && #[trigger] is_merging(ls[i], id) && forall|j: int|
                0 <= j < i ==> !is_merging(#[trigger] ls[j], id),
    decreases w,
{
    if exists|j: int| 0 <= j < w && #[trigger] is_merging(ls[j], id) {
        let v = choose|j: int| 0 <= j < w && #[trigger] is_merging(ls[j], id);
        lemma_min_merging_exists(ls, id, v);
    } else {
        assert(forall|j: int| 0 <= j < w ==> !is_merging(#[trigger] ls[j], id));
    }
}

proof fn lemma_claim(ls: Seq<LaneView>, id: Seq<char>)
    ensures
        ls.len() <= claim_node(ls, id).0.len() <= ls.len() + 1,
        0 <= claim_node(ls, id).1 < claim_node(ls, id).0.len(),
{
    lemma_first_merging_bounds(ls, id);
    if first_merging(ls, id) >= ls.len() {
        lemma_place_len(ls, None);
    }
}

proof fn lemma_step_len(ls: Seq<LaneView>, c: CommitView)
    ensures
        ls.len() <= step(ls, c).0.len() <= ls.len() + 1 + c.1.len(),
{
    let claimed = claim_node(ls, c.0);
    let l1 = claimed.0;
    let nc = claimed.1;
    lemma_claim(ls, c.0);
    let key = match l1[nc] {
        Some(p) => p.1,
        None => c.0,
    };
    let l2 = Seq::new(l1.len(), |i: int| if is_merging(l1[i], c.0) { None } else { l1[i] });
    let l3 = l2.update(
        nc,
        if c.1.len() > 0 {
            Some((c.1[0], key))
        } else {
            None
        },
    );
    assert(l3.len() == l1.len());
    lemma_open_parents_len(l3, other_parents(c.1));
    assert(step(ls, c).0 == open_parents(l3, other_parents(c.1)).0);
}

proof fn lemma_growth_prefix(cs: Seq<CommitView>, i: int)
    requires
        0 <= i <= cs.len(),
    ensures
        growth(cs.take(i)) <= growth(cs),
    decreases cs.len() - i,
{
    if i < cs.len() {
        lemma_growth_prefix(cs.drop_last(), i);
        assert(cs.drop_last().take(i) =~= cs.take(i));
    } else {
        assert(cs.take(i) =~= cs);
    }
}

// ---------------------------------------------------------------------------
// The layout, in code
// ---------------------------------------------------------------------------

/// Index of the first lane waiting for `id`, or the lane count.
fn find_merging(lanes: &Vec<Option<Lane<String>>>, id: &String) -> (r: usize)
    ensures
        r == first_merging(lanes_view(lanes@), id@),
{
    let ghost lv = lanes_view(lanes@);
    let mut i: usize = 0;
    while i < lanes.len()
        invariant
            i <= lanes@.len(),
            lv == lanes_view(lanes@),
            forall|j: int| 0 <= j < i ==> !is_merging(#[trigger] lv[j], id@),
        decreases lanes@.len() - i,
    {
        let hit = match &lanes[i] {
            Some(lane) => lane.expected == *id,
            None => false,
        };
        if hit {
            proof {
                lemma_first_merging(lv, id@, i as int);
            }
            return i;
        }
        i = i + 1;
    }
    proof {
        lemma_first_merging(lv, id@, i as int);
    }
    i
}

/// The first free lane, opening one at the end when none is free.
fn free_lane(lanes: &mut Vec<Option<Lane<String>>>) -> (slot: usize)
    requires
        old(lanes)@.len() < usize::MAX,
    ensures
        (lanes_view(final(lanes)@), slot as int) == place(lanes_view(old(lanes)@), None),
        slot < final(lanes)@.len(),
{
    let ghost lv = lanes_view(lanes@);
    let mut i: usize = 0;
    while i < lanes.len()
        invariant
            i <= lanes@.len(),
            lv == lanes_view(lanes@),
            forall|j: int| 0 <= j < i ==> !(#[trigger] lv[j] is None),
        decreases lanes@.len() - i,
    {
        if lanes[i].is_none() {
            proof {
                lemma_first_free(lv, i as int);
                assert(lv.update(i as int, None) =~= lv);
            }
            return i;
        }
        i = i + 1;
    }
    proof {
        lemma_first_free(lv, i as int);
    }
    lanes.push(None);
    assert(lanes_view(lanes@) =~= lv.push(None));
    i
}

/// Places `lane` into the first free lane and returns its column.
fn place_lane(lanes: &mut Vec<Option<Lane<String>>>, lane: Lane<String>) -> (slot: usize)
    requires
        old(lanes)@.len() < usize::MAX,
    ensures
        (lanes_view(final(lanes)@), slot as int) == place(
            lanes_view(old(lanes)@),
            Some((lane.expected@, lane.key@)),
        ),
{
    let ghost lv = lanes_view(lanes@);
    let ghost v = Some((lane.expected@, lane.key@));
    let slot = free_lane(lanes);
    proof {
        lemma_first_free_bounds(lv);
    }
    let ghost mid = lanes_view(lanes@);
    lanes.set(slot, Some(lane));
    proof {
        assert(lanes_view(lanes@) =~= mid.update(slot as int, v));
        if first_free(lv) == lv.len() {
            assert(lv.push(None).update(slot as int, v) =~= lv.push(v));
        } else {
            assert(lv.update(slot as int, None).update(slot as int, v) =~= lv.update(
                slot as int,
                v,
            ));
        }
    }
    slot
}

fn occupancy(lanes: &Vec<Option<Lane<String>>>) -> (r: Vec<bool>)
    ensures
        r@ == occupied(lanes_view(lanes@)),
{
    let mut r: Vec<bool> = Vec::new();
    let mut i: usize = 0;
    while i < lanes.len()
        invariant
            i <= lanes@.len(),
            r@ == occupied(lanes_view(lanes@)).take(i as int),
        decreases lanes@.len() - i,
    {
        r.push(lanes[i].is_some());
        i = i + 1;
        assert(r@ =~= occupied(lanes_view(lanes@)).take(i as int));
    }
    assert(r@ =~= occupied(lanes_view(lanes@)));
    r
}

fn key_of(lane: &Option<Lane<String>>) -> (r: Option<String>)
    ensures
        key_view(r) == lane_key(lane_view(*lane)),
{
    match lane {
        Some(l) => Some(l.key.clone()),
        None => None,
    }
}

fn lane_keys(before: &Vec<Option<String>>, lanes: &Vec<Option<Lane<String>>>) -> (r: Vec<Option<String>>)
    requires
        before@.len() <= lanes@.len(),
    ensures
        r@.map_values(|k: Option<String>| key_view(k)) =~= Seq::new(
            lanes@.len() as nat,
            |i: int|
                if lanes_view(lanes@)[i] is Some {
                    lane_key(lanes_view(lanes@)[i])
                } else if i < before@.len() {
                    key_view(before@[i])
                } else {
                    None
                },
        ),
{
    let ghost target = Seq::new(
        lanes@.len() as nat,
        |i: int|
            if lanes_view(lanes@)[i] is Some {
                lane_key(lanes_view(lanes@)[i])
            } else if i < before@.len() {
                key_view(before@[i])
            } else {
                None
            },
    );
    let mut r: Vec<Option<String>> = Vec::new();
    let mut i: usize = 0;
    while i < lanes.len()
        invariant
            before@.len() <= lanes@.len(),
            i <= lanes@.len(),
            target.len() == lanes@.len(),
            forall|k: int|
                0 <= k < lanes@.len() ==> #[trigger] target[k] == (if lanes_view(lanes@)[k] is Some {
                    lane_key(lanes_view(lanes@)[k])
                } else if k < before@.len() {
                    key_view(before@[k])
                } else {
                    None
                }),
            r@.len() == i,
            forall|k: int| 0 <= k < i ==> key_view(#[trigger] r@[k]) == target[k],
        decreases lanes@.len() - i,
    {
        let k = if lanes[i].is_some() {
            key_of(&lanes[i])
        } else if i < before.len() {
            before[i].clone()
        } else {
            None
        };
        r.push(k);
        i = i + 1;
    }
    assert(r@.map_values(|k: Option<String>| key_view(k)) =~= target);
    r
}

/// Sets the cells between the node and `lane` to a connector and ends it in `glyph`.
fn draw_connector(cells: &mut Vec<char>, nc: usize, lane: usize, glyph: char)
    requires
        lane * 2 < old(cells)@.len(),
        nc * 2 + 1 < usize::MAX,
    ensures
        final(cells)@ == draw_one(old(cells)@, nc as int, lane as int, glyph),
{
    let ghost before = cells@;
    let n = cells.len();
    let end = lane * 2;
    let mut j = nc * 2 + 1;
    while j < end
        invariant
            cells@.len() == before.len(),
            end == lane * 2,
            lane * 2 < before.len(),
            nc * 2 + 1 <= j,
            forall|k: int|
                0 <= k < before.len() ==> #[trigger] cells@[k] == (if nc * 2 + 1 <= k < j && k
                    < lane * 2 {
                    if before[k] == VERTICAL {
                        CROSS
                    } else {
                        HORIZONTAL
                    }
                } else {
                    before[k]
                }),
        decreases end - j,
    {
        let c = if cells[j] == VERTICAL {
            CROSS
        } else {
            HORIZONTAL
        };
        cells.set(j, c);
        j = j + 1;
    }
    cells.set(end, glyph);
    assert(cells@ =~= draw_one(before, nc as int, lane as int, glyph));
}

pub open spec fn as_ints(ls: Seq<usize>) -> Seq<int> {
    ls.map_values(|x: usize| x as int)
}

fn contains_lane(ls: &Vec<usize>, lane: usize) -> (r: bool)
    ensures
        r == as_ints(ls@).contains(lane as int),
{
    let mut i: usize = 0;
    while i < ls.len()
        invariant
            i <= ls@.len(),
            forall|k: int| 0 <= k < i ==> ls@[k] != lane,
        decreases ls@.len() - i,
    {
        if ls[i] == lane {
            assert(as_ints(ls@)[i as int] == lane as int);
            return true;
        }
        i = i + 1;
    }
    assert forall|k: int| 0 <= k < ls@.len() implies #[trigger] as_ints(ls@)[k] != lane as int by {
        assert(ls@[k] != lane);
    }
    false
}

/// The glyphs of one row.
fn render_row(
    node_column: usize,
    incoming: &Vec<bool>,
    outgoing: &Vec<bool>,
    opened: &Vec<usize>,
    closed: &Vec<usize>,
) -> (r: String)
    requires
        incoming@.len() < usize::MAX / 4,
        outgoing@.len() < usize::MAX / 4,
        node_column < outgoing@.len() || node_column < incoming@.len(),
        forall|k: int|
            0 <= k < opened@.len() ==> #[trigger] opened@[k] < outgoing@.len() || opened@[k]
                < incoming@.len(),
        forall|k: int|
            0 <= k < closed@.len() ==> #[trigger] closed@[k] < outgoing@.len() || closed@[k]
                < incoming@.len(),
    ensures
        r@ == render(
            node_column as int,
            incoming@,
            outgoing@,
            as_ints(opened@),
            as_ints(closed@),
        ),
{
    let lane_count = if incoming.len() >= outgoing.len() {
        incoming.len()
    } else {
        outgoing.len()
    };
    let ghost base = base_cells(node_column as int, incoming@, outgoing@);
    let mut cells: Vec<char> = Vec::new();
    let mut j: usize = 0;
    while j < lane_count * 2
        invariant
            lane_count == (if incoming@.len() >= outgoing@.len() {
                incoming@.len()
            } else {
                outgoing@.len()
            }),
            lane_count < usize::MAX / 4,
            base == base_cells(node_column as int, incoming@, outgoing@),
            base.len() == 2 * lane_count,
            j <= lane_count * 2,
            cells@ == base.take(j as int),
        decreases lane_count * 2 - j,
    {
        let lane = j / 2;
        let before = lane < incoming.len() && incoming[lane];
        let after = lane < outgoing.len() && outgoing[lane];
        let c = if j % 2 == 0 && lane != node_column && before && after {
            VERTICAL
        } else {
            ' '
        };
        assert(base[j as int] == c);
        cells.push(c);
        j = j + 1;
        assert(cells@ =~= base.take(j as int));
    }
    assert(cells@ =~= base);
    let ghost all = as_ints(opened@) + as_ints(closed@);
    let ghost op = as_ints(opened@);
    let mut k: usize = 0;
    while k < opened.len()
        invariant
            k <= opened@.len(),
            cells@.len() == base.len(),
            base.len() == 2 * lane_count,
            lane_count < usize::MAX / 4,
            node_column < lane_count,
            forall|q: int| 0 <= q < opened@.len() ==> #[trigger] opened@[q] < lane_count,
            all == as_ints(opened@) + as_ints(closed@),
            op == as_ints(opened@),
            cells@ == draw_all(base, node_column as int, all.take(k as int), op),
        decreases opened@.len() - k,
    {
        let lane = opened[k];
        let glyph = if contains_lane(opened, lane) {
            OPEN_RIGHT
        } else {
            CLOSE_RIGHT
        };
        draw_connector(&mut cells, node_column, lane, glyph);
        k = k + 1;
        proof {
            let t = all.take(k as int);
            assert(t.drop_last() =~= all.take(k - 1));
            assert(t.last() == lane as int);
        }
    }
    let mut k2: usize = 0;
    while k2 < closed.len()
        invariant
            k2 <= closed@.len(),
            cells@.len() == base.len(),
            base.len() == 2 * lane_count,
            lane_count < usize::MAX / 4,
            node_column < lane_count,
            forall|q: int| 0 <= q < closed@.len() ==> #[trigger] closed@[q] < lane_count,
            all == as_ints(opened@) + as_ints(closed@),
            op == as_ints(opened@),
            cells@ == draw_all(base, node_column as int, all.take(opened@.len() + k2), op),
        decreases closed@.len() - k2,
    {
        let lane = closed[k2];
        let glyph = if contains_lane(opened, lane) {
            OPEN_RIGHT
        } else {
            CLOSE_RIGHT
        };
        draw_connector(&mut cells, node_column, lane, glyph);
        k2 = k2 + 1;
        proof {
            let t = all.take(opened@.len() + k2);
            assert(t.drop_last() =~= all.take(opened@.len() + k2 - 1));
            assert(t.last() == lane as int);
        }
    }
    assert(all.take(all.len() as int) =~= all);
    cells.set(node_column * 2, NODE);
    let ghost drawn = cells@;
    let mut end = cells.len();
    while end > 0 && is_whitespace(cells[end - 1])
        invariant
            end <= cells@.len(),
            cells@ == drawn,
            forall|q: int| end <= q < cells@.len() ==> is_ws(#[trigger] cells@[q]),
        decreases end,
    {
        end = end - 1;
    }
    proof {
        lemma_trim_end_at(drawn, end as int);
        assert(drawn.take(end as int) =~= cells@.subrange(0, end as int));
    }
    string_of(&cells, 0, end)
}

/// The key of every lane, and the lanes other than the node's that wait for `id`.
fn scan_lanes(lanes: &Vec<Option<Lane<String>>>, id: &String, node_column: usize) -> (r: (
    Vec<Option<String>>,
    Vec<usize>,
))
    ensures
        r.0@.len() == lanes@.len(),
        forall|k: int|
            0 <= k < lanes@.len() ==> key_view(#[trigger] r.0@[k]) == lane_key(
                lanes_view(lanes@)[k],
            ),
        as_ints(r.1@) == closed_lanes(lanes_view(lanes@), id@, node_column as int, lanes@.len() as int),
        forall|k: int| 0 <= k < r.1@.len() ==> #[trigger] r.1@[k] < lanes@.len(),
{
    let ghost l1 = lanes_view(lanes@);
    let mut keys: Vec<Option<String>> = Vec::new();
    let mut closed: Vec<usize> = Vec::new();
    let mut i: usize = 0;
    while i < lanes.len()
        invariant
            i <= lanes@.len(),
            l1 == lanes_view(lanes@),
            keys@.len() == i,
            forall|k: int| 0 <= k < i ==> key_view(#[trigger] keys@[k]) == lane_key(l1[k]),
            as_ints(closed@) == closed_lanes(l1, id@, node_column as int, i as int),
            forall|k: int| 0 <= k < closed@.len() ==> #[trigger] closed@[k] < i,
        decreases lanes@.len() - i,
    {
        keys.push(key_of(&lanes[i]));
        let merging = match &lanes[i] {
            Some(lane) => lane.expected == *id,
            None => false,
        };
        let ghost prev = closed@;
        if merging && i != node_column {
            closed.push(i);
            assert(as_ints(closed@) =~= as_ints(prev).push(i as int));
        }
        i = i + 1;
    }
    (keys, closed)
}

/// Frees every lane that waits for `id`.
fn free_merging(lanes: &mut Vec<Option<Lane<String>>>, id: &String)
    ensures
        lanes_view(final(lanes)@) == Seq::new(
            lanes_view(old(lanes)@).len(),
            |k: int|
                if is_merging(lanes_view(old(lanes)@)[k], id@) {
                    None
                } else {
                    lanes_view(old(lanes)@)[k]
                },
        ),
{
    let ghost l1 = lanes_view(lanes@);
    let mut i: usize = 0;
    while i < lanes.len()
        invariant
            i <= lanes@.len(),
            lanes@.len() == l1.len(),
            forall|k: int|
                0 <= k < l1.len() ==> #[trigger] lanes_view(lanes@)[k] == (if k < i && is_merging(
                    l1[k],
                    id@,
                ) {
                    None
                } else {
                    l1[k]
                }),
        decreases lanes@.len() - i,
    {
        let merging = match &lanes[i] {
            Some(lane) => lane.expected == *id,
            None => false,
        };
        let ghost prev = lanes_view(lanes@);
        if merging {
            lanes.set(i, None);
            assert(lanes_view(lanes@) =~= prev.update(i as int, None));
        }
        i = i + 1;
    }
    assert(lanes_view(lanes@) =~= Seq::new(
        l1.len(),
        |k: int|
            if is_merging(l1[k], id@) {
                None
            } else {
                l1[k]
            },
    ));
}

pub open spec fn strings_view(ps: Seq<String>) -> Seq<Seq<char>> {
    ps.map_values(|p: String| p@)
}

/// Opens a lane for each parent after the first.
fn open_other_parents(lanes: &mut Vec<Option<Lane<String>>>, parents: &Vec<String>) -> (opened: Vec<usize>)
    requires
        old(lanes)@.len() + parents@.len() < usize::MAX / 4,
    ensures
        (lanes_view(final(lanes)@), as_ints(opened@)) == open_parents(
            lanes_view(old(lanes)@),
            other_parents(strings_view(parents@)),
        ),
{
    let ghost l3 = lanes_view(lanes@);
    let ghost start = lanes@.len();
    let ghost others = other_parents(strings_view(parents@));
    let mut opened: Vec<usize> = Vec::new();
    if parents.len() == 0 {
        assert(others =~= Seq::<Seq<char>>::empty());
        assert(as_ints(opened@) =~= Seq::<int>::empty());
        return opened;
    }
    assert(others.len() == parents@.len() - 1);
    let mut p: usize = 1;
    assert(others.take(0) =~= Seq::<Seq<char>>::empty());
    assert(as_ints(opened@) =~= Seq::<int>::empty());
    while p < parents.len()
        invariant
            1 <= p <= parents@.len(),
            others == other_parents(strings_view(parents@)),
            others.len() == parents@.len() - 1,
            (lanes_view(lanes@), as_ints(opened@)) == open_parents(l3, others.take(p - 1)),
            lanes@.len() <= start + p - 1,
            start + parents@.len() < usize::MAX / 4,
        decreases parents@.len() - p,
    {
        let parent = &parents[p];
        let lane = Lane { expected: parent.clone(), key: parent.clone() };
        let ghost prev_opened = opened@;
        let ghost pv = lanes_view(lanes@);
        proof {
            lemma_place_len(pv, Some((parent@, parent@)));
        }
        let slot = place_lane(lanes, lane);
        opened.push(slot);
        p = p + 1;
        proof {
            let t = others.take(p - 1);
            assert(t.drop_last() =~= others.take(p - 2));
            assert(t.last() == parent@);
            assert(as_ints(opened@) =~= as_ints(prev_opened).push(slot as int));
        }
    }
    assert(others.take(p - 1) =~= others);
    opened
}

/// Lays out one commit, updating the lanes.
#[verifier::rlimit(80)]
fn lay_out_one(lanes: &mut Vec<Option<Lane<String>>>, commit: &GraphCommit<String>) -> (row: GraphRow<String>)
    requires
        old(lanes)@.len() + 1 + commit.parents@.len() < usize::MAX / 4,
    ensures
        (lanes_view(final(lanes)@), row_view(row)) == step(
            lanes_view(old(lanes)@),
            commit_view(*commit),
        ),
{
    let ghost l0 = lanes_view(lanes@);
    let ghost c = commit_view(*commit);
    let m = find_merging(lanes, &commit.id);
    proof {
        lemma_claim(l0, c.0);
    }
    let node_column = if m < lanes.len() {
        m
    } else {
        free_lane(lanes)
    };
    let ghost l1 = lanes_view(lanes@);
    assert((l1, node_column as int) == claim_node(l0, c.0));
    let node_key = match &lanes[node_column] {
        Some(lane) => lane.key.clone(),
        None => commit.id.clone(),
    };
    let incoming = occupancy(lanes);
    let (incoming_keys, closed) = scan_lanes(lanes, &commit.id, node_column);
    free_merging(lanes, &commit.id);
    let ghost l2 = lanes_view(lanes@);
    assert(l2.len() == l1.len());
    assert(lanes@.len() == l2.len());
    let first = if commit.parents.len() > 0 {
        Some(Lane { expected: commit.parents[0].clone(), key: node_key.clone() })
    } else {
        None
    };
    lanes.set(node_column, first);
    let ghost l3 = l2.update(
        node_column as int,
        if c.1.len() > 0 {
            Some((c.1[0], node_key@))
        } else {
            None
        },
    );
    assert(lanes_view(lanes@) =~= l3);
    assert(c.1 == strings_view(commit.parents@));
    let opened = open_other_parents(lanes, &commit.parents);
    let ghost l4 = lanes_view(lanes@);
    proof {
        lemma_open_parents_len(l3, other_parents(c.1));
        lemma_closed_lanes_bounds(l1, c.0, node_column as int, l1.len() as int);
    }
    let outgoing = occupancy(lanes);
    proof {
        assert forall|q: int| 0 <= q < opened@.len() implies #[trigger] opened@[q] < outgoing@.len() by {
            assert(as_ints(opened@)[q] == opened@[q] as int);
        }
    }
    let glyphs = render_row(node_column, &incoming, &outgoing, &opened, &closed);
    let keys = lane_keys(&incoming_keys, lanes);
    proof {
        assert(keys@.map_values(|k: Option<String>| key_view(k)) =~= row_keys(l1, l4));
    }
    GraphRow { node_column, glyphs, node_key, lane_keys: keys }
}

fn lay_out_into(lanes: &mut Vec<Option<Lane<String>>>, commits: &[GraphCommit<String>]) -> (rows: Vec<
    GraphRow<String>,
>)
    requires
        old(lanes)@.len() + growth(commits_view(commits@)) < usize::MAX / 4,
    ensures
        (lanes_view(final(lanes)@), rows_view(rows@)) == layout(
            lanes_view(old(lanes)@),
            commits_view(commits@),
        ),
        final(lanes)@.len() <= old(lanes)@.len() + growth(commits_view(commits@)),
{
    let ghost l0 = lanes_view(lanes@);
    let ghost cs = commits_view(commits@);
    let ghost start_len = lanes@.len();
    let mut rows: Vec<GraphRow<String>> = Vec::new();
    let mut i: usize = 0;
    assert(cs.take(0) =~= Seq::<CommitView>::empty());
    while i < commits.len()
        invariant
            i <= commits@.len(),
            cs == commits_view(commits@),
            start_len + growth(cs) < usize::MAX / 4,
            lanes@.len() <= start_len + growth(cs.take(i as int)),
            (lanes_view(lanes@), rows_view(rows@)) == layout(l0, cs.take(i as int)),
        decreases commits@.len() - i,
    {
        proof {
            lemma_growth_prefix(cs, i + 1);
            let t = cs.take(i + 1);
            assert(t.drop_last() =~= cs.take(i as int));
            assert(t.last() == commit_view(commits@[i as int]));
            lemma_step_len(lanes_view(lanes@), commit_view(commits@[i as int]));
        }
        let ghost prev_rows = rows@;
        let row = lay_out_one(lanes, &commits[i]);
        rows.push(row);
        i = i + 1;
        proof {
            assert(rows_view(rows@) =~= rows_view(prev_rows).push(row_view(row)));
        }
    }
    assert(cs.take(i as int) =~= cs);
    rows
}

/// Lays out a whole history from empty lanes.
pub fn lay_out(commits: &[GraphCommit<String>]) -> (rows: Vec<GraphRow<String>>)
    requires
        growth(commits_view(commits@)) < usize::MAX / 4,
    ensures
        rows_view(rows@) == layout(seq![], commits_view(commits@)).1,
{
    let mut lanes: Vec<Option<Lane<String>>> = Vec::new();
    assert(lanes_view(lanes@) =~= Seq::<LaneView>::empty());
    lay_out_into(&mut lanes, commits)
}

/// Lanes carried over from one page of history to the next, so that the
/// graph of a longer history can be laid out a page at a time.
pub struct GraphLayout<Id> {
    lanes: Vec<Option<Lane<Id>>>,
}

impl GraphLayout<String> {
    /// The lanes open after the pages laid out so far.
    pub closed spec fn lanes(&self) -> Seq<LaneView> {
        lanes_view(self.lanes@)
    }

    /// The number of lanes open after the pages laid out so far.
    pub closed spec fn width(&self) -> nat {
        self.lanes@.len()
    }

    pub fn new() -> (r: Self)
        ensures
            r.lanes() == Seq::<LaneView>::empty(),
            r.width() == 0,
    {
        let r = GraphLayout { lanes: Vec::new() };
        assert(lanes_view(r.lanes@) =~= Seq::<LaneView>::empty());
        r
    }

    /// How many lanes the layout holds.
    pub fn lane_count(&self) -> (n: usize)
        ensures
            n == self.width(),
    {
        self.lanes.len()
    }

    /// Whether `extend` can lay out `commits` on top of this layout: the
    /// lanes it may need still fit comfortably in memory.
    pub fn fits(&self, commits: &[GraphCommit<String>]) -> (r: bool)
        ensures
            r == (self.width() + growth(commits_view(commits@)) < usize::MAX / 4),
    {
        let limit: usize = usize::MAX / 4;
        let mut total: usize = self.lanes.len();
        if total >= limit {
            return false;
        }
        let ghost cs = commits_view(commits@);
        let mut k: usize = 0;
        assert(cs.take(0) =~= Seq::<CommitView>::empty());
        while k < commits.len()
            invariant
                k <= commits@.len(),
                cs == commits_view(commits@),
                total == self.width() + growth(cs.take(k as int)),
                total < limit,
                limit == usize::MAX / 4,
            decreases commits@.len() - k,
        {
            proof {
                assert(cs.take(k + 1).drop_last() =~= cs.take(k as int));
                assert(cs.take(k + 1).last() == cs[k as int]);
            }
            let step = commits[k].parents.len();
            if step >= limit - total - 1 {
                proof {
                    lemma_growth_mono(cs, k + 1);
                }
                return false;
            }
            total = total + 1 + step;
            k = k + 1;
        }
        assert(cs.take(k as int) =~= cs);
        true
    }

    /// Lays out the next page of history on the lanes left open by the
    /// pages before it; the lanes grow by at most the page's growth.
    pub fn extend(&mut self, commits: &[GraphCommit<String>]) -> (rows: Vec<GraphRow<String>>)
        requires
            old(self).width() + growth(commits_view(commits@)) < usize::MAX / 4,
        ensures
            (final(self).lanes(), rows_view(rows@)) == layout(
                old(self).lanes(),
                commits_view(commits@),
            ),
            final(self).width() == final(self).lanes().len(),
            final(self).width() <= old(self).width() + growth(commits_view(commits@)),
    {
        lay_out_into(&mut self.lanes, commits)
    }
}

// ---------------------------------------------------------------------------
// Laws
// ---------------------------------------------------------------------------

/// Laying out a history one page after another gives the lanes and rows that
/// laying it out in one go gives: paging in more history never redraws the
/// rows already shown.
#[verifier::spinoff_prover]
#[verifier::rlimit(50)]
pub proof fn law_layout_pages(ls: Seq<LaneView>, first: Seq<CommitView>, second: Seq<CommitView>)
    ensures
        layout(ls, first + second).0 == layout(layout(ls, first).0, second).0,
        layout(ls, first + second).1 == layout(ls, first).1 + layout(layout(ls, first).0, second).1,
    decreases second.len(),
{
    if second.len() == 0 {
        assert(first + second =~= first);
        assert(layout(ls, first).1 + Seq::<RowView>::empty() =~= layout(ls, first).1);
    } else {
        law_layout_pages(ls, first, second.drop_last());
        assert((first + second).drop_last() =~= first + second.drop_last());
        assert((first + second).last() == second.last());
        let mid = layout(ls, first);
        let a = layout(mid.0, second.drop_last());
        assert(mid.1 + a.1.push(step(a.0, second.last()).1) =~= (mid.1 + a.1).push(
            step(a.0, second.last()).1,
        ));
    }
}

/// The lanes two pages may add are what their whole history may add: so a
/// layout with room for a history still has room, once its first page is
/// laid out, for the rest of it.
pub proof fn law_growth_adds_up(first: Seq<CommitView>, second: Seq<CommitView>)
    ensures
        growth(first + second) == growth(first) + growth(second),
    decreases second.len(),
{
    if second.len() == 0 {
        assert(first + second =~= first);
    } else {
        law_growth_adds_up(first, second.drop_last());
        assert((first + second).drop_last() =~= first + second.drop_last());
        assert((first + second).last() == second.last());
    }
}

proof fn lemma_layout_width(ls: Seq<LaneView>, cs: Seq<CommitView>)
    ensures
        layout(ls, cs).0.len() <= ls.len() + growth(cs),
    decreases cs.len(),
{
    if cs.len() > 0 {
        lemma_layout_width(ls, cs.drop_last());
        lemma_step_len(layout(ls, cs.drop_last()).0, cs.last());
    }
}

/// Paging in a history from no lanes: when the whole history fits, the
/// lanes left by its first page leave room for the rest, and the rows of
/// the two pages are the rows of one layout of everything.
pub proof fn law_pages_from_nothing(first: Seq<CommitView>, second: Seq<CommitView>)
    requires
        growth(first + second) < usize::MAX / 4,
    ensures
        layout(seq![], first).0.len() + growth(second) < usize::MAX / 4,
        layout(seq![], first).1 + layout(layout(seq![], first).0, second).1 == layout(
            seq![],
            first + second,
        ).1,
{
    lemma_layout_width(seq![], first);
    law_growth_adds_up(first, second);
    law_layout_pages(seq![], first, second);
}

/// Placing a line (a new parent line, or a commit no lane waits for) takes
/// the lowest-numbered free lane, leaving every other lane as it was; a new
/// lane is opened at the right only when no lane is free.
pub proof fn law_place_takes_the_lowest_free_lane(ls: Seq<LaneView>, v: LaneView, i: int)
    requires
        0 <= i <= ls.len(),
        forall|j: int| 0 <= j < i ==> #[trigger] ls[j] is Some,
        i == ls.len() || ls[i] is None,
    ensures
        place(ls, v).1 == i,
        i < ls.len() ==> place(ls, v).0 == ls.update(i, v),
        i == ls.len() ==> place(ls, v).0 == ls.push(v),
{
    assert forall|j: int| 0 <= j < i implies !(#[trigger] ls[j] is None) by {
        assert(ls[j] is Some);
    }
    lemma_first_free(ls, i);
}

/// A commit that no lane waits for takes the lowest-numbered free lane for
/// its node, and a commit's extra parent line opens in the lowest-numbered
/// free lane; a lane is added at the right only when none is free.
pub proof fn law_new_lines_reuse_the_lowest_free_lane(ls: Seq<LaneView>, id: Seq<char>, p: Seq<char>, i: int)
    requires
        0 <= i <= ls.len(),
        forall|j: int| 0 <= j < i ==> #[trigger] ls[j] is Some,
        i == ls.len() || ls[i] is None,
    ensures
        (forall|j: int| 0 <= j < ls.len() ==> !is_merging(#[trigger] ls[j], id)) ==> claim_node(ls, id) == (
            if i < ls.len() {
                ls.update(i, None)
            } else {
                ls.push(None)
            },
            i,
        ),
        open_parents(ls, seq![p]) == (
            if i < ls.len() {
                ls.update(i, Some((p, p)))
            } else {
                ls.push(Some((p, p)))
            },
            seq![i],
        ),
{
    law_place_takes_the_lowest_free_lane(ls, None, i);
    law_place_takes_the_lowest_free_lane(ls, Some((p, p)), i);
    if forall|j: int| 0 <= j < ls.len() ==> !is_merging(#[trigger] ls[j], id) {
        lemma_first_merging(ls, id, ls.len() as int);
    }
    assert(seq![p].drop_last() =~= Seq::<Seq<char>>::empty());
    assert(seq![p].last() == p);
    assert(open_parents(ls, Seq::<Seq<char>>::empty()) == (ls, Seq::<int>::empty()));
    assert(Seq::<int>::empty().push(i) =~= seq![i]);
}

/// Every commit gets exactly one row.
pub proof fn law_one_row_per_commit(ls: Seq<LaneView>, cs: Seq<CommitView>)
    ensures
        layout(ls, cs).1.len() == cs.len(),
    decreases cs.len(),
{
    if cs.len() > 0 {
        law_one_row_per_commit(ls, cs.drop_last());
    }
}

proof fn lemma_trim_end_keeps(s: Seq<char>, i: int)
    requires
        0 <= i < s.len(),
        !is_ws(s[i]),
    ensures
        i < trim_end(s).len(),
        trim_end(s)[i] == s[i],
    decreases s.len(),
{
    if s.len() > 0 && is_ws(s.last()) {
        let t = s.drop_last();
        assert(i < t.len());
        assert(t[i] == s[i]);
        lemma_trim_end_keeps(t, i);
    }
}

proof fn lemma_draw_all_len(cells: Seq<char>, nc: int, ls: Seq<int>, opened: Seq<int>)
    requires
        forall|k: int| 0 <= k < ls.len() ==> 0 <= 2 * #[trigger] ls[k] < cells.len(),
    ensures
        draw_all(cells, nc, ls, opened).len() == cells.len(),
    decreases ls.len(),
{
    if ls.len() > 0 {
        let t = ls.drop_last();
        assert forall|k: int| 0 <= k < t.len() implies 0 <= 2 * #[trigger] t[k] < cells.len() by {
            assert(t[k] == ls[k]);
        }
        lemma_draw_all_len(cells, nc, t, opened);
        assert(0 <= 2 * ls[ls.len() - 1] < cells.len());
    }
}

/// Each row draws its commit's node in the commit's column.
#[verifier::spinoff_prover]
#[verifier::rlimit(80)]
pub proof fn law_node_in_its_column(ls: Seq<LaneView>, c: CommitView)
    requires
        ls.len() < usize::MAX,
    ensures
        ({
            let row = step(ls, c).1;
            &&& 2 * row.0 < row.1.len()
            &&& row.1[2 * row.0] == NODE
            &&& (row.0 as int) < step(ls, c).0.len()
        }),
{
    let claimed = claim_node(ls, c.0);
    lemma_claim(ls, c.0);
    lemma_step_len(ls, c);
    let l1 = claimed.0;
    let nc = claimed.1;
    let l4 = step(ls, c).0;
    let opening = open_parents(
        Seq::new(l1.len(), |i: int| if is_merging(l1[i], c.0) { None } else { l1[i] }).update(
            nc,
            if c.1.len() > 0 {
                Some(
                    (
                        c.1[0],
                        match l1[nc] {
                            Some(p) => p.1,
                            None => c.0,
                        },
                    ),
                )
            } else {
                None
            },
        ),
        other_parents(c.1),
    );
    let base = base_cells(nc, occupied(l1), occupied(l4));
    let ls2 = opening.1 + closed_lanes(l1, c.0, nc, l1.len() as int);
    lemma_open_parents_len(
        Seq::new(l1.len(), |i: int| if is_merging(l1[i], c.0) { None } else { l1[i] }).update(
            nc,
            if c.1.len() > 0 {
                Some(
                    (
                        c.1[0],
                        match l1[nc] {
                            Some(p) => p.1,
                            None => c.0,
                        },
                    ),
                )
            } else {
                None
            },
        ),
        other_parents(c.1),
    );
    lemma_closed_lanes_bounds(l1, c.0, nc, l1.len() as int);
    assert(opening.0 == l4);
    assert forall|k: int| 0 <= k < ls2.len() implies 0 <= 2 * #[trigger] ls2[k] < base.len() by {
        if k < opening.1.len() {
            assert(ls2[k] == opening.1[k]);
        } else {
            assert(ls2[k] == closed_lanes(l1, c.0, nc, l1.len() as int)[k - opening.1.len()]);
        }
    }
    lemma_draw_all_len(base, nc, ls2, opening.1);
    assert(base.len() == 2 * l4.len());
    assert(nc < l4.len());
    let drawn = draw_all(base, nc, ls2, opening.1).update(nc * 2, NODE);
    assert(drawn[nc * 2] == NODE);
    lemma_trim_end_keeps(drawn, nc * 2);
}

/// Growth only increases as more commits are laid out.
proof fn lemma_growth_mono(cs: Seq<CommitView>, k: int)
    requires
        0 <= k <= cs.len(),
    ensures
        growth(cs.take(k)) <= growth(cs),
    decreases cs.len() - k,
{
    if k < cs.len() {
        lemma_growth_mono(cs, k + 1);
        assert(cs.take(k + 1).drop_last() =~= cs.take(k));
    } else {
        assert(cs.take(k) =~= cs);
    }
}

proof fn lemma_place_spec(ls: Seq<LaneView>, v: LaneView)
    ensures
        ({
            let out = place(ls, v).0;
            let slot = place(ls, v).1;
            &&& 0 <= slot <= ls.len()
            &&& out.len() == (if slot == ls.len() {
                ls.len() + 1
            } else {
                ls.len()
            })
            &&& out[slot] == v
            &&& forall|i: int| 0 <= i < ls.len() && i != slot ==> #[trigger] out[i] == ls[i]
            &&& slot < ls.len() ==> ls[slot] is None
        }),
{
    lemma_first_free_bounds(ls);
    if exists|i: int| 0 <= i < ls.len() && #[trigger] ls[i] is None {
        let w = choose|i: int| 0 <= i < ls.len() && #[trigger] ls[i] is None;
        lemma_min_free_exists(ls, w);
    }
}

proof fn lemma_open_parents_keeps(ls: Seq<LaneView>, ps: Seq<Seq<char>>, id: Seq<char>)
    ensures
        ({
            let out = open_parents(ls, ps).0;
            &&& ls.len() <= out.len()
            &&& forall|i: int| 0 <= i < ls.len() && ls[i] is Some ==> #[trigger] out[i] == ls[i]
            &&& forall|i: int|
                0 <= i < out.len() && #[trigger] is_merging(out[i], id) ==> (i < ls.len() && is_merging(
                    ls[i],
                    id,
                )) || ps.contains(id)
        }),
    decreases ps.len(),
{
    if ps.len() > 0 {
        let prev = open_parents(ls, ps.drop_last());
        let v: LaneView = Some((ps.last(), ps.last()));
        lemma_open_parents_keeps(ls, ps.drop_last(), id);
        lemma_place_spec(prev.0, v);
        let out = open_parents(ls, ps).0;
        let slot = place(prev.0, v).1;
        assert(out == place(prev.0, v).0);
        assert forall|i: int| 0 <= i < ls.len() && ls[i] is Some implies #[trigger] out[i] == ls[i] by {
            assert(prev.0[i] == ls[i]);
            if i == slot {
                assert(prev.0[slot] is None);
            }
        }
        assert forall|i: int|
            0 <= i < out.len() && #[trigger] is_merging(out[i], id) implies (i < ls.len() && is_merging(
                ls[i],
                id,
            )) || ps.contains(id) by {
            if i == slot {
                assert(ps[ps.len() - 1] == id);
            } else {
                assert(out[i] == prev.0[i]);
                if ps.drop_last().contains(id) {
                    let k = choose|k: int| 0 <= k < ps.drop_last().len() && ps.drop_last()[k] == id;
                    assert(ps[k] == id);
                }
            }
        }
    }
}

/// A line keeps its key, and so its colour, from a commit to its first
/// parent: when no lane was already waiting for that parent and the commit
/// does not list it again, the parent's row carries the commit's key.
pub proof fn law_a_line_keeps_its_key(ls: Seq<LaneView>, c: CommitView, p: CommitView)
    requires
        c.1.len() > 0,
        p.0 == c.1[0],
        forall|i: int| 0 <= i < ls.len() ==> !is_merging(#[trigger] ls[i], p.0),
        !other_parents(c.1).contains(p.0),
    ensures
        step(step(ls, c).0, p).1.2 == step(ls, c).1.2,
{
    let claimed = claim_node(ls, c.0);
    lemma_claim(ls, c.0);
    let l1 = claimed.0;
    let nc = claimed.1;
    let key = match l1[nc] {
        Some(q) => q.1,
        None => c.0,
    };
    if first_merging(ls, c.0) >= ls.len() {
        lemma_place_spec(ls, None);
    }
    assert forall|i: int| 0 <= i < l1.len() implies !is_merging(#[trigger] l1[i], p.0) by {
        if i < ls.len() && i != nc {
            assert(l1[i] == ls[i]);
        }
    }
    let l2 = Seq::new(l1.len(), |i: int| if is_merging(l1[i], c.0) { None } else { l1[i] });
    let l3 = l2.update(nc, Some((c.1[0], key)));
    lemma_open_parents_keeps(l3, other_parents(c.1), p.0);
    let l4 = open_parents(l3, other_parents(c.1)).0;
    assert(step(ls, c).0 == l4);
    assert(l4[nc] == Some((c.1[0], key)));
    assert forall|j: int| 0 <= j < nc implies !is_merging(#[trigger] l4[j], p.0) by {
        if is_merging(l4[j], p.0) {
            assert(l3[j] == l2[j]);
            assert(!is_merging(l1[j], p.0));
        }
    }
    lemma_first_merging(l4, p.0, nc);
}

} // verus!
