//! Submodules: their state, and the breadcrumb of nested repositories.
use vstd::prelude::*;

use crate::text::{chars_of, push_chars, push_str, span_text, split_spans, splits, strs, Span};

verus! {

#[derive(Debug, Clone, Copy, PartialEq, Eq, Structural)]
pub enum SyncState {
    Synced,
    Drifted,
    Uninitialized,
}

#[derive(Debug, Clone, PartialEq, Eq)]
pub struct Submodule {
    pub name: String,
    pub path: String,
    pub url: Option<String>,
    pub branch: Option<String>,
    pub checked_out: Option<String>,
    pub recorded: Option<String>,
    pub sync: SyncState,
    pub dirty: usize,
    pub untracked: usize,
    pub last_commit: Option<String>,
}

impl Submodule {
    pub fn initialized(&self) -> (r: bool)
        ensures
            r == (self.sync != SyncState::Uninitialized),
    {
        self.sync != SyncState::Uninitialized
    }

    /// Whether the submodule has changed or untracked files.
    pub fn is_dirty(&self) -> (r: bool)
        ensures
            r == (self.dirty > 0 || self.untracked > 0),
    {
        self.dirty > 0 || self.untracked > 0
    }
}

/// The last component of a path that names something: empty and `.`
/// components are skipped, and `None` when there is none.
pub open spec fn last_named(parts: Seq<Seq<char>>) -> Option<Seq<char>>
    decreases parts.len(),
{
    if parts.len() == 0 {
        None
    } else if parts.last().len() == 0 || parts.last() == seq!['.'] {
        last_named(parts.drop_last())
    } else {
        Some(parts.last())
    }
}

/// The final name of a path (`Path::file_name`), empty when the path ends
/// in `..` or has no name, such as `/`.
pub open spec fn dir_name_spec(path: Seq<char>) -> Seq<char> {
    match last_named(splits(path, '/')) {
        Some(l) => if l == seq!['.', '.'] {
            seq![]
        } else {
            l
        },
        None => seq![],
    }
}

/// The final name of a path.
pub fn dir_name(path: &str) -> (r: String)
    ensures
        r@ == dir_name_spec(path@),
{
    let cs = chars_of(path);
    let parts = split_spans(&cs, 0, cs.len(), '/');
    assert(cs@.subrange(0, cs@.len() as int) =~= path@);
    let ghost ps = splits(path@, '/');
    let mut k = parts.len();
    assert(ps.take(k as int) =~= ps);
    while k > 0
        invariant
            k <= parts@.len(),
            parts@.len() == ps.len(),
            ps == splits(path@, '/'),
            cs@ == path@,
            forall|q: int|
                0 <= q < parts@.len() ==> {
                    &&& (#[trigger] parts@[q]).start <= parts@[q].end <= cs@.len()
                    &&& span_text(cs@, parts@[q]) == ps[q]
                },
            last_named(ps.take(k as int)) == last_named(ps),
        decreases k,
    {
        let sp = &parts[k - 1];
        let len = sp.end - sp.start;
        let ghost part = ps[k - 1];
        assert(part == cs@.subrange(sp.start as int, sp.end as int));
        assert(part.len() == len);
        let is_dot = len == 1 && cs[sp.start] == '.';
        let ghost t = ps.take(k as int);
        assert(t.last() == part);
        assert(t.drop_last() =~= ps.take(k - 1));
        if len != 0 && !is_dot {
            proof {
                if len == 1 {
                    assert(part[0] == cs@[sp.start as int]);
                    assert(part != seq!['.']);
                } else {
                    assert(part.len() != 1);
                    assert(part != seq!['.']);
                }
                assert(last_named(t) == Some(part));
            }
            let is_up = len == 2 && cs[sp.start] == '.' && cs[sp.start + 1] == '.';
            let mut out = String::new();
            if is_up {
                assert(part[0] == cs@[sp.start as int]);
                assert(part[1] == cs@[sp.start + 1]);
                assert(part =~= seq!['.', '.']);
                assert(out@ =~= Seq::<char>::empty());
                return out;
            }
            push_chars(&mut out, &cs, sp.start, sp.end);
            proof {
                if part == seq!['.', '.'] {
                    assert(part[0] == cs@[sp.start as int]);
                    assert(part[1] == cs@[sp.start + 1]);
                }
                assert(out@ =~= part);
            }
            return out;
        }
        proof {
            if is_dot {
                assert(part[0] == cs@[sp.start as int]);
                assert(part =~= seq!['.']);
            }
            assert(last_named(t) == last_named(t.drop_last()));
        }
        k = k - 1;
    }
    assert(ps.take(0) =~= Seq::<Seq<char>>::empty());
    let out = String::new();
    assert(out@ =~= Seq::<char>::empty());
    out
}

/// The pieces joined by `sep`.
pub open spec fn join_with(parts: Seq<Seq<char>>, sep: Seq<char>) -> Seq<char>
    decreases parts.len(),
{
    if parts.len() == 0 {
        seq![]
    } else if parts.len() == 1 {
        parts[0]
    } else {
        join_with(parts.drop_last(), sep) + sep + parts.last()
    }
}

/// The breadcrumb of nested repositories: the final name of each ancestor,
/// then of the current repository, joined by ` › `.
pub fn breadcrumb_label(ancestors: &[String], current: &str) -> (r: String)
    ensures
        r@ == join_with(
            strs(ancestors@).map_values(|a: Seq<char>| dir_name_spec(a)).push(dir_name_spec(current@)),
            " › "@,
        ),
{
    let ghost names = strs(ancestors@).map_values(|a: Seq<char>| dir_name_spec(a)).push(
        dir_name_spec(current@),
    );
    let mut out = String::new();
    let mut k: usize = 0;
    while k < ancestors.len()
        invariant
            k <= ancestors@.len(),
            names == strs(ancestors@).map_values(|a: Seq<char>| dir_name_spec(a)).push(
                dir_name_spec(current@),
            ),
            out@ == join_with(names.take(k as int), " › "@),
        decreases ancestors@.len() - k,
    {
        let name = dir_name(ancestors[k].as_str());
        let ghost prev = out@;
        if k > 0 {
            push_str(&mut out, " › ");
        }
        push_str(&mut out, name.as_str());
        k = k + 1;
        proof {
            let t = names.take(k as int);
            assert(t.drop_last() =~= names.take(k - 1));
            assert(t.last() == name@);
            if k == 1 {
                assert(names.take(0).len() == 0);
                assert(out@ =~= name@);
            }
        }
    }
    let name = dir_name(current);
    if k > 0 {
        push_str(&mut out, " › ");
    }
    push_str(&mut out, name.as_str());
    proof {
        let t = names.take(k + 1);
        assert(t =~= names);
        assert(t.drop_last() =~= names.take(k as int));
        if k == 0 {
            assert(out@ =~= name@);
        }
    }
    out
}

} // verus!
