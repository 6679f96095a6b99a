//! Conflict markers: reading a conflicted file into context and conflict
//! blocks, and writing it back with one side of each block chosen.
use vstd::prelude::*;

use crate::text::{has_prefix, join_with_newline, lines, lines_of, strs, unlines};

verus! {

#[derive(Debug, Clone, Copy, PartialEq, Eq)]
pub enum Side {
    Ours,
    Theirs,
}

#[derive(Debug, Clone, PartialEq, Eq)]
pub enum Segment {
    Context(Vec<String>),
    Conflict { ours: Vec<String>, theirs: Vec<String> },
}

/// A segment as the spec sees it.
pub enum SegmentView {
    Context(Seq<Seq<char>>),
    Conflict(Seq<Seq<char>>, Seq<Seq<char>>),
}

pub open spec fn segment_view(s: Segment) -> SegmentView {
    match s {
        Segment::Context(c) => SegmentView::Context(strs(c@)),
        Segment::Conflict { ours, theirs } => SegmentView::Conflict(strs(ours@), strs(theirs@)),
    }
}

pub open spec fn segments_view(ss: Seq<Segment>) -> Seq<SegmentView> {
    ss.map_values(|s: Segment| segment_view(s))
}

/// Where the reader is: between blocks, or in a block's ours, base or theirs part.
#[derive(Clone, Copy, PartialEq, Eq, Structural)]
pub enum Mode {
    Context,
    Ours,
    Base,
    Theirs,
}

/// Seven copies of `c`: the marker that opens a line of that kind.
pub open spec fn marker(c: char) -> Seq<char> {
    seq![c, c, c, c, c, c, c]
}

/// What the reader holds after some lines: the segments finished so far,
/// the pending context, ours and theirs lines, and the mode.
pub struct ParseState {
    pub segs: Seq<SegmentView>,
    pub context: Seq<Seq<char>>,
    pub ours: Seq<Seq<char>>,
    pub theirs: Seq<Seq<char>>,
    pub mode: Mode,
}

pub open spec fn start_state() -> ParseState {
    ParseState { segs: seq![], context: seq![], ours: seq![], theirs: seq![], mode: Mode::Context }
}

/// Reads one line.
pub open spec fn read_line(st: ParseState, l: Seq<char>) -> ParseState {
    if has_prefix(l, marker('<')) {
        ParseState {
            segs: if st.context.len() > 0 {
                st.segs.push(SegmentView::Context(st.context))
            } else {
                st.segs
            },
            context: seq![],
            mode: Mode::Ours,
            ..st
        }
    } else if has_prefix(l, marker('|')) && st.mode != Mode::Context {
        ParseState { mode: Mode::Base, ..st }
    } else if has_prefix(l, marker('=')) && st.mode != Mode::Context && st.mode != Mode::Theirs {
        ParseState { mode: Mode::Theirs, ..st }
    } else if has_prefix(l, marker('>')) && st.mode == Mode::Theirs {
        ParseState {
            segs: st.segs.push(SegmentView::Conflict(st.ours, st.theirs)),
            ours: seq![],
            theirs: seq![],
            mode: Mode::Context,
            ..st
        }
    } else {
        match st.mode {
            Mode::Context => ParseState { context: st.context.push(l), ..st },
            Mode::Ours => ParseState { ours: st.ours.push(l), ..st },
            Mode::Base => st,
            Mode::Theirs => ParseState { theirs: st.theirs.push(l), ..st },
        }
    }
}

/// Reads lines in order.
pub open spec fn read_lines(st: ParseState, ls: Seq<Seq<char>>) -> ParseState
    decreases ls.len(),
{
    if ls.len() == 0 {
        st
    } else {
        read_line(read_lines(st, ls.drop_last()), ls.last())
    }
}

/// The segments of a text: its blocks and the context between them; an
/// unfinished block at the end is dropped, trailing context is kept.
pub open spec fn parse_spec(text: Seq<char>) -> Seq<SegmentView> {
    let st = read_lines(start_state(), lines(text));
    if st.context.len() > 0 {
        st.segs.push(SegmentView::Context(st.context))
    } else {
        st.segs
    }
}

fn opens_with(line: &Vec<char>, c: char) -> (r: bool)
    ensures
        r == has_prefix(line@, marker(c)),
{
    if line.len() < 7 {
        return false;
    }
    let mut i: usize = 0;
    while i < 7
        invariant
            7 <= line@.len(),
            i <= 7,
            forall|j: int| 0 <= j < i ==> line@[j] == c,
        decreases 7 - i,
    {
        if line[i] != c {
            assert(line@.take(7)[i as int] != marker(c)[i as int]);
            return false;
        }
        i = i + 1;
    }
    assert(line@.take(7) =~= marker(c));
    true
}

fn lines_to_vec(v: &mut Vec<String>) -> (r: Vec<String>)
    ensures
        r@ == old(v)@,
        final(v)@ == Seq::<String>::empty(),
{
    let mut out: Vec<String> = Vec::new();
    std::mem::swap(&mut out, v);
    out
}

/// A line that is none of the four conflict markers.
pub open spec fn plain_line(l: Seq<char>) -> bool {
    !has_prefix(l, marker('<')) && !has_prefix(l, marker('|')) && !has_prefix(l, marker('='))
        && !has_prefix(l, marker('>'))
}

/// Where the reader stands between blocks: no block half read.
pub open spec fn between_blocks(st: ParseState) -> bool {
    st.mode == Mode::Context && st.ours.len() == 0 && st.theirs.len() == 0
}

/// The segments finished once the pending context is closed.
pub open spec fn closed_segs(st: ParseState) -> Seq<SegmentView> {
    if st.context.len() > 0 {
        st.segs.push(SegmentView::Context(st.context))
    } else {
        st.segs
    }
}

proof fn lemma_read_append(st: ParseState, a: Seq<Seq<char>>, b: Seq<Seq<char>>)
    ensures
        read_lines(st, a + b) == read_lines(read_lines(st, a), b),
    decreases b.len(),
{
    if b.len() == 0 {
        assert(a + b =~= a);
    } else {
        lemma_read_append(st, a, b.drop_last());
        assert((a + b).drop_last() =~= a + b.drop_last());
        assert((a + b).last() == b.last());
    }
}

proof fn lemma_read_one(st: ParseState, l: Seq<char>)
    ensures
        read_lines(st, seq![l]) == read_line(st, l),
{
    assert(seq![l].drop_last() =~= Seq::<Seq<char>>::empty());
    assert(read_lines(st, Seq::<Seq<char>>::empty()) == st);
    assert(seq![l].last() == l);
    assert(read_lines(st, seq![l]) == read_line(read_lines(st, seq![l].drop_last()), seq![l].last()));
}

proof fn lemma_marker_first(l: Seq<char>, c: char, d: char)
    requires
        has_prefix(l, marker(c)),
        c != d,
    ensures
        !has_prefix(l, marker(d)),
{
    assert(l.take(7)[0] == c);
    assert(marker(d)[0] == d);
}

/// Reading lines that are no markers inside a block adds them to the side
/// being read, and to nothing while the merge base is read.
proof fn lemma_read_in_block(st: ParseState, ls: Seq<Seq<char>>)
    requires
        st.mode != Mode::Context,
        forall|i: int| 0 <= i < ls.len() ==> plain_line(#[trigger] ls[i]),
    ensures
        read_lines(st, ls) == (match st.mode {
            Mode::Ours => ParseState { ours: st.ours + ls, ..st },
            Mode::Theirs => ParseState { theirs: st.theirs + ls, ..st },
            _ => st,
        }),
    decreases ls.len(),
{
    if ls.len() == 0 {
        assert(st.ours + ls =~= st.ours);
        assert(st.theirs + ls =~= st.theirs);
    } else {
        lemma_read_in_block(st, ls.drop_last());
        assert(plain_line(ls[ls.len() - 1]));
        assert(st.ours + ls.drop_last() + seq![ls.last()] =~= st.ours + ls);
        assert((st.ours + ls.drop_last()).push(ls.last()) =~= st.ours + ls);
        assert((st.theirs + ls.drop_last()).push(ls.last()) =~= st.theirs + ls);
    }
}

/// A conflict block read between blocks becomes one conflict: its own side
/// is exactly the lines after the `<<<<<<<` line up to the `|||||||` line
/// of a merge base, or up to the `=======` line when there is none; the
/// merge base's lines belong to neither side; the incoming side is the
/// lines after `=======` up to `>>>>>>>`. The context read before the block
/// is closed as a segment of its own, and the reader is between blocks
/// again.
pub proof fn law_a_block_parses_into_its_two_sides(
    st: ParseState,
    open: Seq<char>,
    ours: Seq<Seq<char>>,
    base: Option<(Seq<char>, Seq<Seq<char>>)>,
    split: Seq<char>,
    theirs: Seq<Seq<char>>,
    close: Seq<char>,
)
    requires
        between_blocks(st),
        has_prefix(open, marker('<')),
        has_prefix(split, marker('=')),
        has_prefix(close, marker('>')),
        forall|i: int| 0 <= i < ours.len() ==> plain_line(#[trigger] ours[i]),
        forall|i: int| 0 <= i < theirs.len() ==> plain_line(#[trigger] theirs[i]),
        base matches Some((bar, lines)) ==> has_prefix(bar, marker('|')) && forall|i: int|
            0 <= i < lines.len() ==> plain_line(#[trigger] lines[i]),
    ensures
        ({
            let middle = match base {
                Some((bar, lines)) => seq![bar] + lines,
                None => seq![],
            };
            read_lines(st, seq![open] + ours + middle + seq![split] + theirs + seq![close]) == ParseState {
                segs: closed_segs(st).push(SegmentView::Conflict(ours, theirs)),
                context: seq![],
                ours: seq![],
                theirs: seq![],
                mode: Mode::Context,
            }
        }),
{
    let middle = match base {
        Some((bar, lines)) => seq![bar] + lines,
        None => seq![],
    };
    let p1 = seq![open];
    let p2 = p1 + ours;
    let p3 = p2 + middle;
    let p4 = p3 + seq![split];
    let p5 = p4 + theirs;
    let all = p5 + seq![close];
    lemma_read_one(st, open);
    let s1 = read_line(st, open);
    assert(s1 == ParseState { segs: closed_segs(st), context: seq![], mode: Mode::Ours, ..st });
    lemma_read_append(st, p1, ours);
    lemma_read_in_block(s1, ours);
    assert(st.ours + ours =~= ours);
    let s2 = ParseState { ours: ours, ..s1 };
    assert(read_lines(st, p2) == s2);
    let s3 = match base {
        Some((bar, lines)) => ParseState { mode: Mode::Base, ..s2 },
        None => s2,
    };
    match base {
        Some((bar, lines)) => {
            lemma_marker_first(bar, '|', '<');
            lemma_read_append(st, p2, middle);
            lemma_read_append(s2, seq![bar], lines);
            lemma_read_one(s2, bar);
            lemma_read_in_block(ParseState { mode: Mode::Base, ..s2 }, lines);
        },
        None => {
            assert(p3 =~= p2);
        },
    }
    assert(read_lines(st, p3) == s3);
    lemma_marker_first(split, '=', '<');
    lemma_marker_first(split, '=', '|');
    lemma_read_append(st, p3, seq![split]);
    lemma_read_one(s3, split);
    let s4 = ParseState { mode: Mode::Theirs, ..s2 };
    assert(read_lines(st, p4) == s4);
    lemma_read_append(st, p4, theirs);
    lemma_read_in_block(s4, theirs);
    assert(st.theirs + theirs =~= theirs);
    let s5 = ParseState { theirs: theirs, ..s4 };
    assert(read_lines(st, p5) == s5);
    lemma_marker_first(close, '>', '<');
    lemma_marker_first(close, '>', '|');
    lemma_marker_first(close, '>', '=');
    lemma_read_append(st, p5, seq![close]);
    lemma_read_one(s5, close);
    assert(seq![open] + ours + middle + seq![split] + theirs + seq![close] =~= all);
}

/// A line as a file holds it between line feeds: no line feed in it, and
/// no carriage return at its end.
pub open spec fn bare_line(l: Seq<char>) -> bool {
    (forall|j: int| 0 <= j < l.len() ==> #[trigger] l[j] != '\n') && !(l.len() > 0 && l.last() == '\r')
}

proof fn lemma_unlines_front(ls: Seq<Seq<char>>)
    requires
        ls.len() > 0,
    ensures
        unlines(ls) == ls[0].push('\n') + unlines(ls.drop_first()),
    decreases ls.len(),
{
    if ls.len() == 1 {
        assert(ls.drop_last() =~= Seq::<Seq<char>>::empty());
        assert(ls.drop_first() =~= Seq::<Seq<char>>::empty());
        assert(unlines(Seq::<Seq<char>>::empty()) == Seq::<char>::empty());
        assert(ls[0].push('\n') + Seq::<char>::empty() =~= ls[0].push('\n'));
    } else {
        let init = ls.drop_last();
        lemma_unlines_front(init);
        assert(init[0] == ls[0]);
        assert(init.drop_first() =~= ls.drop_first().drop_last());
        assert(ls.drop_first().last() == ls.last());
        assert(ls[0].push('\n') + unlines(init.drop_first()) + ls.last().push('\n') =~= ls[0].push('\n') + (
        unlines(init.drop_first()) + ls.last().push('\n')));
    }
}

/// Splitting into lines what was written one line after another gives the
/// lines back.
proof fn lemma_lines_of_unlines(ls: Seq<Seq<char>>)
    requires
        forall|i: int| 0 <= i < ls.len() ==> bare_line(#[trigger] ls[i]),
    ensures
        lines(unlines(ls)) == ls,
    decreases ls.len(),
{
    if ls.len() == 0 {
        assert(unlines(ls) == Seq::<char>::empty());
    } else {
        let l = ls[0];
        let rest = ls.drop_first();
        assert(bare_line(l));
        lemma_unlines_front(ls);
        let t = unlines(ls);
        assert(t == l.push('\n') + unlines(rest));
        assert forall|j: int| 0 <= j < l.len() implies #[trigger] t[j] != '\n' by {
            assert(t[j] == l[j]);
        }
        assert(t[l.len() as int] == '\n');
        crate::text::lemma_find_char(t, '\n', l.len() as int);
        assert(t.take(l.len() as int) =~= l);
        assert(t.skip(l.len() as int + 1) =~= unlines(rest));
        assert forall|i: int| 0 <= i < rest.len() implies bare_line(#[trigger] rest[i]) by {
            assert(rest[i] == ls[i + 1]);
        }
        lemma_lines_of_unlines(rest);
        assert(seq![l] + rest =~= ls);
    }
}

/// A file that holds one conflict block and nothing else parses into that
/// one conflict: its own side is the lines between `<<<<<<<` and the
/// `|||||||` of a merge base (or `=======` when there is none), the base's
/// lines are dropped, and its incoming side is the lines between `=======`
/// and `>>>>>>>`.
pub proof fn law_parse_keeps_the_two_sides_of_a_block(
    open: Seq<char>,
    ours: Seq<Seq<char>>,
    base: Option<(Seq<char>, Seq<Seq<char>>)>,
    split: Seq<char>,
    theirs: Seq<Seq<char>>,
    close: Seq<char>,
)
    requires
        has_prefix(open, marker('<')),
        has_prefix(split, marker('=')),
        has_prefix(close, marker('>')),
        forall|i: int| 0 <= i < ours.len() ==> plain_line(#[trigger] ours[i]),
        forall|i: int| 0 <= i < theirs.len() ==> plain_line(#[trigger] theirs[i]),
        base matches Some((bar, lines)) ==> has_prefix(bar, marker('|')) && forall|i: int|
            0 <= i < lines.len() ==> plain_line(#[trigger] lines[i]),
        bare_line(open),
        bare_line(split),
        bare_line(close),
        forall|i: int| 0 <= i < ours.len() ==> bare_line(#[trigger] ours[i]),
        forall|i: int| 0 <= i < theirs.len() ==> bare_line(#[trigger] theirs[i]),
        base matches Some((bar, lines)) ==> bare_line(bar) && forall|i: int|
            0 <= i < lines.len() ==> bare_line(#[trigger] lines[i]),
    ensures
        ({
            let middle = match base {
                Some((bar, lines)) => seq![bar] + lines,
                None => seq![],
            };
            parse_spec(unlines(seq![open] + ours + middle + seq![split] + theirs + seq![close])) == seq![
                SegmentView::Conflict(ours, theirs),
            ]
        }),
{
    let middle = match base {
        Some((bar, lines)) => seq![bar] + lines,
        None => seq![],
    };
    let block = seq![open] + ours + middle + seq![split] + theirs + seq![close];
    assert forall|i: int| 0 <= i < middle.len() implies bare_line(#[trigger] middle[i]) by {
        match base {
            Some((bar, lines)) => {
                if i > 0 {
                    assert(middle[i] == lines[i - 1]);
                }
            },
            None => {},
        }
    }
    let a = seq![open] + ours;
    let b = a + middle;
    let c = b + seq![split];
    let d = c + theirs;
    assert(block == d + seq![close]);
    assert forall|i: int| 0 <= i < block.len() implies bare_line(#[trigger] block[i]) by {
        if i < a.len() {
            if i > 0 {
                assert(a[i] == ours[i - 1]);
            }
            assert(block[i] == a[i]);
        } else if i < b.len() {
            assert(block[i] == middle[i - a.len()]);
        } else if i < c.len() {
            assert(block[i] == split);
        } else if i < d.len() {
            assert(block[i] == theirs[i - c.len()]);
        } else {
            assert(block[i] == close);
        }
    }
    lemma_lines_of_unlines(block);
    law_a_block_parses_into_its_two_sides(start_state(), open, ours, base, split, theirs, close);
    assert(closed_segs(start_state()) =~= Seq::<SegmentView>::empty());
    assert(Seq::<SegmentView>::empty().push(SegmentView::Conflict(ours, theirs)) =~= seq![
        SegmentView::Conflict(ours, theirs),
    ]);
}

/// Splits a conflicted file into context and conflict blocks.
pub fn parse(text: &str) -> (segments: Vec<Segment>)
    ensures
        segments_view(segments@) == parse_spec(text@),
{
    let ls = lines_of(text);
    let mut segments: Vec<Segment> = Vec::new();
    let mut context: Vec<String> = Vec::new();
    let mut ours: Vec<String> = Vec::new();
    let mut theirs: Vec<String> = Vec::new();
    let mut mode = Mode::Context;
    let mut k: usize = 0;
    assert(strs(ls@).take(0) =~= Seq::<Seq<char>>::empty());
    assert(segments_view(segments@) =~= Seq::<SegmentView>::empty());
    assert(strs(context@) =~= Seq::<Seq<char>>::empty());
    assert(strs(ours@) =~= Seq::<Seq<char>>::empty());
    assert(strs(theirs@) =~= Seq::<Seq<char>>::empty());
    while k < ls.len()
        invariant
            k <= ls@.len(),
            strs(ls@) == lines(text@),
            read_lines(start_state(), strs(ls@).take(k as int)) == (ParseState {
                segs: segments_view(segments@),
                context: strs(context@),
                ours: strs(ours@),
                theirs: strs(theirs@),
                mode,
            }),
        decreases ls@.len() - k,
    {
        let ghost st = ParseState {
            segs: segments_view(segments@),
            context: strs(context@),
            ours: strs(ours@),
            theirs: strs(theirs@),
            mode,
        };
        let line = &ls[k];
        let cs = crate::text::chars_of(line.as_str());
        let ghost l = line@;
        if opens_with(&cs, '<') {
            if context.len() > 0 {
                let taken = lines_to_vec(&mut context);
                let ghost prev = segments_view(segments@);
                segments.push(Segment::Context(taken));
                assert(segments_view(segments@) =~= prev.push(SegmentView::Context(st.context)));
            }
            mode = Mode::Ours;
            assert(strs(context@) =~= Seq::<Seq<char>>::empty());
        } else if opens_with(&cs, '|') && mode != Mode::Context {
            mode = Mode::Base;
        } else if opens_with(&cs, '=') && mode != Mode::Context && mode != Mode::Theirs {
            mode = Mode::Theirs;
        } else if opens_with(&cs, '>') && mode == Mode::Theirs {
            let o = lines_to_vec(&mut ours);
            let t = lines_to_vec(&mut theirs);
            let ghost prev = segments_view(segments@);
            segments.push(Segment::Conflict { ours: o, theirs: t });
            assert(segments_view(segments@) =~= prev.push(
                SegmentView::Conflict(st.ours, st.theirs),
            ));
            assert(strs(ours@) =~= Seq::<Seq<char>>::empty());
            assert(strs(theirs@) =~= Seq::<Seq<char>>::empty());
            mode = Mode::Context;
        } else {
            match mode {
                Mode::Context => {
                    let ghost prev = strs(context@);
                    context.push(line.clone());
                    assert(strs(context@) =~= prev.push(l));
                },
                Mode::Ours => {
                    let ghost prev = strs(ours@);
                    ours.push(line.clone());
                    assert(strs(ours@) =~= prev.push(l));
                },
                Mode::Base => {},
                Mode::Theirs => {
                    let ghost prev = strs(theirs@);
                    theirs.push(line.clone());
                    assert(strs(theirs@) =~= prev.push(l));
                },
            }
        }
        k = k + 1;
        proof {
            let t = strs(ls@).take(k as int);
            assert(t.drop_last() =~= strs(ls@).take(k - 1));
            assert(t.last() == l);
        }
    }
    assert(strs(ls@).take(k as int) =~= strs(ls@));
    if context.len() > 0 {
        let ghost prev = segments_view(segments@);
        let ghost c = strs(context@);
        segments.push(Segment::Context(context));
        assert(segments_view(segments@) =~= prev.push(SegmentView::Context(c)));
    }
    segments
}

/// The lines a resolution keeps: context as it is, and of each block the
/// side chosen for it, `Ours` where no choice was given.
pub open spec fn chosen_lines(segs: Seq<SegmentView>, choices: Seq<Side>) -> Seq<Seq<char>>
    decreases segs.len(),
{
    if segs.len() == 0 {
        seq![]
    } else {
        let before = segs.drop_last();
        chosen_lines(before, choices) + match segs.last() {
            SegmentView::Context(c) => c,
            SegmentView::Conflict(ours, theirs) => {
                let index = conflicts_in(before);
                if index < choices.len() && choices[index as int] == Side::Theirs {
                    theirs
                } else {
                    ours
                }
            },
        }
    }
}

/// The number of conflict blocks among `segs`.
pub open spec fn conflicts_in(segs: Seq<SegmentView>) -> nat
    decreases segs.len(),
{
    if segs.len() == 0 {
        0
    } else {
        conflicts_in(segs.drop_last()) + if segs.last() is Conflict {
            1nat
        } else {
            0nat
        }
    }
}

/// The text a resolution writes: the kept lines, each ended by a line feed
/// (a lone line feed when nothing is kept).
pub open spec fn resolve_spec(segs: Seq<SegmentView>, choices: Seq<Side>) -> Seq<char> {
    let ls = chosen_lines(segs, choices);
    if ls.len() == 0 {
        seq!['\n']
    } else {
        unlines(ls)
    }
}

fn append_lines(out: &mut Vec<String>, ls: &Vec<String>)
    ensures
        strs(final(out)@) == strs(old(out)@) + strs(ls@),
{
    let ghost start = strs(out@);
    let mut k: usize = 0;
    while k < ls.len()
        invariant
            k <= ls@.len(),
            strs(out@) == start + strs(ls@).take(k as int),
        decreases ls@.len() - k,
    {
        let ghost prev = strs(out@);
        out.push(ls[k].clone());
        k = k + 1;
        assert(strs(out@) =~= prev.push(ls@[k - 1]@));
        assert(strs(ls@).take(k as int) =~= strs(ls@).take(k - 1).push(ls@[k - 1]@));
    }
    assert(strs(ls@).take(k as int) =~= strs(ls@));
}

/// Writes the file back with one side of each conflict block chosen, in
/// order; blocks past the end of `choices` keep `Ours`.
pub fn resolve(segments: &[Segment], choices: &[Side]) -> (text: String)
    ensures
        text@ == resolve_spec(segments_view(segments@), choices@),
{
    let ghost sv = segments_view(segments@);
    let mut kept: Vec<String> = Vec::new();
    let mut index: usize = 0;
    let mut k: usize = 0;
    assert(sv.take(0) =~= Seq::<SegmentView>::empty());
    assert(strs(kept@) =~= Seq::<Seq<char>>::empty());
    while k < segments.len()
        invariant
            k <= segments@.len(),
            sv == segments_view(segments@),
            strs(kept@) == chosen_lines(sv.take(k as int), choices@),
            index == conflicts_in(sv.take(k as int)),
            index <= k,
        decreases segments@.len() - k,
    {
        let ghost before = sv.take(k as int);
        match &segments[k] {
            Segment::Context(context) => {
                append_lines(&mut kept, context);
            },
            Segment::Conflict { ours, theirs } => {
                let side = if index < choices.len() {
                    choices[index]
                } else {
                    Side::Ours
                };
                match side {
                    Side::Ours => append_lines(&mut kept, ours),
                    Side::Theirs => append_lines(&mut kept, theirs),
                }
                index = index + 1;
            },
        }
        k = k + 1;
        proof {
            let t = sv.take(k as int);
            assert(t.drop_last() =~= before);
            assert(t.last() == segment_view(segments@[k - 1]));
        }
    }
    assert(sv.take(k as int) =~= sv);
    join_with_newline(&kept)
}

/// The number of conflict blocks.
pub fn conflict_count(segments: &[Segment]) -> (n: usize)
    ensures
        n == conflicts_in(segments_view(segments@)),
{
    let ghost sv = segments_view(segments@);
    let mut n: usize = 0;
    let mut k: usize = 0;
    assert(sv.take(0) =~= Seq::<SegmentView>::empty());
    while k < segments.len()
        invariant
            k <= segments@.len(),
            sv == segments_view(segments@),
            n == conflicts_in(sv.take(k as int)),
            n <= k,
        decreases segments@.len() - k,
    {
        if let Segment::Conflict { .. } = &segments[k] {
            n = n + 1;
        }
        k = k + 1;
        proof {
            let t = sv.take(k as int);
            assert(t.drop_last() =~= sv.take(k - 1));
            assert(t.last() == segment_view(segments@[k - 1]));
        }
    }
    assert(sv.take(k as int) =~= sv);
    n
}

#[derive(Debug, Clone, Copy, PartialEq, Eq)]
pub enum OpKind {
    Merge,
    CherryPick,
    Rebase,
}

impl OpKind {
    /// The git verb of the operation.
    pub fn label(self) -> (r: &'static str)
        ensures
            r@ == op_label(self),
    {
        match self {
            OpKind::Merge => "merge",
            OpKind::CherryPick => "cherry-pick",
            OpKind::Rebase => "rebase",
        }
    }
}

pub open spec fn op_label(op: OpKind) -> Seq<char> {
    match op {
        OpKind::Merge => "merge"@,
        OpKind::CherryPick => "cherry-pick"@,
        OpKind::Rebase => "rebase"@,
    }
}

/// A conflicted file, with the side chosen so far for each of its blocks.
pub struct ConflictFile {
    pub path: String,
    pub segments: Vec<Segment>,
    pub choices: Vec<Option<Side>>,
}

/// The chosen sides, when every block has one.
pub open spec fn all_chosen(choices: Seq<Option<Side>>) -> Option<Seq<Side>> {
    if forall|i: int| 0 <= i < choices.len() ==> #[trigger] choices[i] is Some {
        Some(choices.map_values(|c: Option<Side>| c->0))
    } else {
        None
    }
}

impl ConflictFile {
    /// Reads a conflicted file; no block has a side yet.
    pub fn new(path: String, text: &str) -> (r: Self)
        ensures
            r.path == path,
            segments_view(r.segments@) == parse_spec(text@),
            r.choices@.len() == conflicts_in(parse_spec(text@)),
            forall|i: int| 0 <= i < r.choices@.len() ==> #[trigger] r.choices@[i] is None,
    {
        let segments = parse(text);
        let count = conflict_count(&segments);
        let mut choices: Vec<Option<Side>> = Vec::new();
        let mut i: usize = 0;
        while i < count
            invariant
                i <= count,
                choices@.len() == i,
                forall|j: int| 0 <= j < i ==> #[trigger] choices@[j] is None,
            decreases count - i,
        {
            choices.push(None);
            i = i + 1;
        }
        ConflictFile { path, segments, choices }
    }

    pub fn count(&self) -> (n: usize)
        ensures
            n == self.choices@.len(),
    {
        self.choices.len()
    }

    /// Whether every block has a side.
    pub fn is_resolved(&self) -> (r: bool)
        ensures
            r == all_chosen(self.choices@) is Some,
    {
        let mut i: usize = 0;
        while i < self.choices.len()
            invariant
                i <= self.choices@.len(),
                forall|j: int| 0 <= j < i ==> #[trigger] self.choices@[j] is Some,
            decreases self.choices@.len() - i,
        {
            if self.choices[i].is_none() {
                return false;
            }
            i = i + 1;
        }
        true
    }

    /// The resolved text, once every block has a side.
    pub fn resolved_text(&self) -> (r: Option<String>)
        ensures
            match all_chosen(self.choices@) {
                Some(sides) => r is Some && r->0@ == resolve_spec(
                    segments_view(self.segments@),
                    sides,
                ),
                None => r is None,
            },
    {
        if !self.is_resolved() {
            return None;
        }
        let mut sides: Vec<Side> = Vec::new();
        let mut i: usize = 0;
        while i < self.choices.len()
            invariant
                i <= self.choices@.len(),
                forall|j: int| 0 <= j < self.choices@.len() ==> #[trigger] self.choices@[j] is Some,
                sides@ == self.choices@.take(i as int).map_values(|c: Option<Side>| c->0),
            decreases self.choices@.len() - i,
        {
            match self.choices[i] {
                Some(side) => sides.push(side),
                None => {},
            }
            i = i + 1;
            assert(sides@ =~= self.choices@.take(i as int).map_values(|c: Option<Side>| c->0));
        }
        assert(self.choices@.take(i as int) =~= self.choices@);
        Some(resolve(self.segments.as_slice(), sides.as_slice()))
    }
}

/// A clamped cursor move, as the conflict browser does it.
pub open spec fn clamp_move(current: int, delta: int, len: int) -> int {
    let target = current + delta;
    if target < 0 {
        0
    } else if target > len - 1 {
        len - 1
    } else {
        target
    }
}

/// The files of an operation that stopped on conflicts, with the focused
/// file and block.
pub struct ConflictBrowser {
    pub op: OpKind,
    pub files: Vec<ConflictFile>,
    pub file: usize,
    pub block: usize,
    pub progress: Option<(usize, usize)>,
}

/// The number of blocks without a side, over all files.
pub open spec fn open_blocks(files: Seq<ConflictFile>) -> nat
    decreases files.len(),
{
    if files.len() == 0 {
        0
    } else {
        open_blocks(files.drop_last()) + unchosen(files.last().choices@)
    }
}

/// The number of blocks without a side.
pub open spec fn unchosen(choices: Seq<Option<Side>>) -> nat
    decreases choices.len(),
{
    if choices.len() == 0 {
        0
    } else {
        unchosen(choices.drop_last()) + if choices.last() is None {
            1nat
        } else {
            0nat
        }
    }
}

proof fn lemma_unchosen_le(choices: Seq<Option<Side>>)
    ensures
        unchosen(choices) <= choices.len(),
    decreases choices.len(),
{
    if choices.len() > 0 {
        lemma_unchosen_le(choices.drop_last());
    }
}

impl ConflictBrowser {
    pub fn new(op: OpKind, files: Vec<ConflictFile>, progress: Option<(usize, usize)>) -> (r: Self)
        ensures
            r.op == op,
            r.files@ == files@,
            r.file == 0,
            r.block == 0,
            r.progress == progress,
    {
        ConflictBrowser { op, files, file: 0, block: 0, progress }
    }

    pub fn focused_file(&self) -> (r: Option<&ConflictFile>)
        ensures
            r == (if self.file < self.files@.len() {
                Some(&self.files@[self.file as int])
            } else {
                None
            }),
    {
        if self.file < self.files.len() {
            Some(&self.files[self.file])
        } else {
            None
        }
    }

    /// Moves to another file, clamped to the list, and to its first block.
    pub fn move_file(&mut self, delta: isize)
        requires
            old(self).files@.len() <= isize::MAX,
            old(self).file <= isize::MAX,
            isize::MIN <= old(self).file + delta <= isize::MAX,
        ensures
            final(self).files@ == old(self).files@,
            final(self).op == old(self).op,
            final(self).progress == old(self).progress,
            old(self).files@.len() == 0 ==> final(self).file == old(self).file && final(self).block
                == old(self).block,
            old(self).files@.len() > 0 ==> final(self).file == clamp_move(
                old(self).file as int,
                delta as int,
                old(self).files@.len() as int,
            ) && final(self).block == 0,
    {
        if self.files.len() == 0 {
            return;
        }
        let last = (self.files.len() - 1) as isize;
        let target = self.file as isize + delta;
        self.file = if target < 0 {
            0
        } else if target > last {
            last as usize
        } else {
            target as usize
        };
        self.block = 0;
    }

    /// Moves to another block of the focused file, clamped to its blocks.
    pub fn move_block(&mut self, delta: isize)
        requires
            old(self).block <= isize::MAX,
            isize::MIN <= old(self).block + delta <= isize::MAX,
            forall|i: int|
                0 <= i < old(self).files@.len() ==> (#[trigger] old(self).files@[i]).choices@.len()
                    <= isize::MAX,
        ensures
            final(self).files@ == old(self).files@,
            final(self).file == old(self).file,
            final(self).op == old(self).op,
            final(self).progress == old(self).progress,
            ({
                let count = if old(self).file < old(self).files@.len() {
                    old(self).files@[old(self).file as int].choices@.len() as int
                } else {
                    0
                };
                final(self).block == if count == 0 {
                    0
                } else {
                    clamp_move(old(self).block as int, delta as int, count)
                }
            }),
    {
        let count = match self.focused_file() {
            Some(file) => file.count(),
            None => 0,
        };
        if count == 0 {
            self.block = 0;
            return;
        }
        let last = (count - 1) as isize;
        let target = self.block as isize + delta;
        self.block = if target < 0 {
            0
        } else if target > last {
            last as usize
        } else {
            target as usize
        };
    }

    /// The number of blocks still without a side, over all files.
    pub fn remaining(&self) -> (n: usize)
        requires
            open_blocks(self.files@) <= usize::MAX,
        ensures
            n == open_blocks(self.files@),
    {
        let mut n: usize = 0;
        let mut f: usize = 0;
        assert(self.files@.take(0) =~= Seq::<ConflictFile>::empty());
        while f < self.files.len()
            invariant
                f <= self.files@.len(),
                n == open_blocks(self.files@.take(f as int)),
                open_blocks(self.files@) <= usize::MAX,
            decreases self.files@.len() - f,
        {
            let choices = &self.files[f].choices;
            let ghost before = n as int;
            let mut i: usize = 0;
            proof {
                lemma_open_blocks_prefix(self.files@, f + 1);
                let t = self.files@.take(f + 1);
                assert(t.drop_last() =~= self.files@.take(f as int));
                assert(choices@.take(0) =~= Seq::<Option<Side>>::empty());
            }
            while i < choices.len()
                invariant
                    i <= choices@.len(),
                    n == before + unchosen(choices@.take(i as int)),
                    before + unchosen(choices@) <= usize::MAX,
                decreases choices@.len() - i,
            {
                proof {
                    lemma_unchosen_prefix(choices@, i + 1);
                    let t = choices@.take(i + 1);
                    assert(t.drop_last() =~= choices@.take(i as int));
                }
                if choices[i].is_none() {
                    n = n + 1;
                }
                i = i + 1;
            }
            assert(choices@.take(i as int) =~= choices@);
            f = f + 1;
        }
        assert(self.files@.take(f as int) =~= self.files@);
        n
    }
}

proof fn lemma_unchosen_prefix(choices: Seq<Option<Side>>, i: int)
    requires
        0 <= i <= choices.len(),
    ensures
        unchosen(choices.take(i)) <= unchosen(choices),
    decreases choices.len() - i,
{
    if i < choices.len() {
        lemma_unchosen_prefix(choices.drop_last(), i);
        assert(choices.drop_last().take(i) =~= choices.take(i));
    } else {
        assert(choices.take(i) =~= choices);
    }
}

proof fn lemma_open_blocks_prefix(files: Seq<ConflictFile>, i: int)
    requires
        0 <= i <= files.len(),
    ensures
        open_blocks(files.take(i)) <= open_blocks(files),
    decreases files.len() - i,
{
    if i < files.len() {
        lemma_open_blocks_prefix(files.drop_last(), i);
        assert(files.drop_last().take(i) =~= files.take(i));
    } else {
        assert(files.take(i) =~= files);
    }
}

/// Reading lines none of which opens a block keeps them all as context.
proof fn lemma_read_plain(ls: Seq<Seq<char>>)
    requires
        forall|i: int| 0 <= i < ls.len() ==> !has_prefix(#[trigger] ls[i], marker('<')),
    ensures
        read_lines(start_state(), ls) == (ParseState {
            segs: seq![],
            context: ls,
            ours: seq![],
            theirs: seq![],
            mode: Mode::Context,
        }),
    decreases ls.len(),
{
    if ls.len() > 0 {
        let t = ls.drop_last();
        assert forall|i: int| 0 <= i < t.len() implies !has_prefix(#[trigger] t[i], marker('<')) by {
            assert(t[i] == ls[i]);
        }
        lemma_read_plain(t);
        assert(!has_prefix(ls[ls.len() - 1], marker('<')));
        assert(t.push(ls.last()) =~= ls);
    } else {
        assert(ls =~= Seq::<Seq<char>>::empty());
    }
}

/// A text without conflict blocks comes back from parsing and resolving as
/// its own lines, each ended by a line feed, whatever sides are chosen.
pub proof fn law_plain_text_round_trips(text: Seq<char>, choices: Seq<Side>)
    requires
        forall|i: int| 0 <= i < lines(text).len() ==> !has_prefix(#[trigger] lines(text)[i], marker('<')),
        lines(text).len() > 0,
    ensures
        parse_spec(text) == seq![SegmentView::Context(lines(text))],
        resolve_spec(parse_spec(text), choices) == unlines(lines(text)),
{
    lemma_read_plain(lines(text));
    let segs = parse_spec(text);
    assert(segs =~= seq![SegmentView::Context(lines(text))]);
    assert(segs.drop_last() =~= Seq::<SegmentView>::empty());
    assert(chosen_lines(segs.drop_last(), choices) =~= Seq::<Seq<char>>::empty());
    assert(chosen_lines(segs, choices) =~= lines(text));
}

/// Each block keeps the side chosen for it: resolving a block alone after
/// some segments appends exactly that side's lines.
pub proof fn law_block_takes_its_side(segs: Seq<SegmentView>, ours: Seq<Seq<char>>, theirs: Seq<Seq<char>>, choices: Seq<Side>)
    ensures
        chosen_lines(segs.push(SegmentView::Conflict(ours, theirs)), choices) == chosen_lines(segs, choices) + if conflicts_in(segs) < choices.len() && choices[conflicts_in(segs) as int] == Side::Theirs {
            theirs
        } else {
            ours
        },
{
    assert(segs.push(SegmentView::Conflict(ours, theirs)).drop_last() =~= segs);
}

} // verus!
