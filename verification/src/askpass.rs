//! Credentials that git asks for through its askpass helper: reading the
//! prompt git prints, and remembering answers per host and kind.
use vstd::prelude::*;

use crate::branches::str_eq;
use crate::text::{chars_of, contains_seq, find_char, find_in, str_contains, string_of};

verus! {

/// Where the helper program is, and the socket it reaches the client on.
#[derive(Debug, Clone)]
pub struct AskpassConfig {
    pub helper: String,
    pub socket: String,
}

#[derive(Debug, Clone, Copy, PartialEq, Eq, Hash, Structural)]
pub enum PromptKind {
    Username,
    Password,
}

/// Answers given so far, one per host and kind.
pub struct CredentialCache {
    entries: Vec<(String, PromptKind, String)>,
}

pub open spec fn key_of(e: (String, PromptKind, String)) -> (Seq<char>, PromptKind) {
    (e.0@, e.1)
}

/// No two entries share a host and kind.
pub open spec fn unique_keys(es: Seq<(String, PromptKind, String)>) -> bool {
    forall|i: int, j: int|
        0 <= i < j < es.len() ==> key_of(#[trigger] es[i]) != key_of(#[trigger] es[j])
}

impl CredentialCache {
    #[verifier::type_invariant]
    spec fn well_formed(&self) -> bool {
        unique_keys(self.entries@)
    }
}

/// The entries as a map from (host, kind) to the answer.
pub open spec fn entries_map(es: Seq<(String, PromptKind, String)>) -> Map<
    (Seq<char>, PromptKind),
    Seq<char>,
>
    decreases es.len(),
{
    if es.len() == 0 {
        Map::empty()
    } else {
        let e = es.last();
        entries_map(es.drop_last()).insert(key_of(e), e.2@)
    }
}

impl View for CredentialCache {
    type V = Map<(Seq<char>, PromptKind), Seq<char>>;

    closed spec fn view(&self) -> Map<(Seq<char>, PromptKind), Seq<char>> {
        entries_map(self.entries@)
    }
}

impl Default for CredentialCache {
    fn default() -> (r: Self)
        ensures
            r@ == Map::<(Seq<char>, PromptKind), Seq<char>>::empty(),
    {
        CredentialCache { entries: Vec::new() }
    }
}

/// With keys unique, the map holds exactly the entries' keys, each with its answer.
proof fn lemma_entries_map(es: Seq<(String, PromptKind, String)>)
    requires
        unique_keys(es),
    ensures
        forall|k: (Seq<char>, PromptKind)|
            #[trigger] entries_map(es).contains_key(k) <==> exists|i: int|
                0 <= i < es.len() && key_of(#[trigger] es[i]) == k,
        forall|i: int|
            0 <= i < es.len() ==> #[trigger] entries_map(es)[key_of(es[i])] == es[i].2@,
    decreases es.len(),
{
    if es.len() > 0 {
        let init = es.drop_last();
        let last = es.last();
        assert(unique_keys(init)) by {
            assert forall|a: int, b: int| 0 <= a < b < init.len() implies key_of(#[trigger] init[a])
                != key_of(#[trigger] init[b]) by {
                assert(init[a] == es[a] && init[b] == es[b]);
            }
        }
        lemma_entries_map(init);
        let m = entries_map(es);
        assert(m == entries_map(init).insert(key_of(last), last.2@));
        assert forall|k: (Seq<char>, PromptKind)|
            #[trigger] m.contains_key(k) <==> exists|i: int|
                0 <= i < es.len() && key_of(#[trigger] es[i]) == k by {
            if m.contains_key(k) {
                if k == key_of(last) {
                    assert(key_of(es[es.len() - 1]) == k);
                } else {
                    assert(entries_map(init).contains_key(k));
                    let i = choose|i: int| 0 <= i < init.len() && key_of(#[trigger] init[i]) == k;
                    assert(es[i] == init[i]);
                }
            }
            if exists|i: int| 0 <= i < es.len() && key_of(#[trigger] es[i]) == k {
                let i = choose|i: int| 0 <= i < es.len() && key_of(#[trigger] es[i]) == k;
                if i < es.len() - 1 {
                    assert(init[i] == es[i]);
                    assert(entries_map(init).contains_key(k));
                }
            }
        }
        assert forall|i: int| 0 <= i < es.len() implies #[trigger] m[key_of(es[i])] == es[i].2@ by {
            if i < es.len() - 1 {
                assert(init[i] == es[i]);
                assert(key_of(es[i]) != key_of(es[es.len() - 1]));
                assert(entries_map(init)[key_of(init[i])] == init[i].2@);
            }
        }
    }
}

impl CredentialCache {
    /// The answer stored for `host` and `kind`, if any.
    pub fn get(&self, host: &str, kind: PromptKind) -> (r: Option<&str>)
        ensures
            match r {
                Some(v) => self@.contains_key((host@, kind)) && self@[(host@, kind)] == v@,
                None => !self@.contains_key((host@, kind)),
            },
    {
        proof {
            use_type_invariant(self);
            lemma_entries_map(self.entries@);
        }
        let mut i: usize = 0;
        while i < self.entries.len()
            invariant
                i <= self.entries@.len(),
                forall|j: int| 0 <= j < i ==> key_of(#[trigger] self.entries@[j]) != (host@, kind),
            decreases self.entries@.len() - i,
        {
            let e = &self.entries[i];
            if e.1 == kind && str_eq(e.0.as_str(), host) {
                proof {
                    use_type_invariant(self);
                    lemma_entries_map(self.entries@);
                    assert(key_of(self.entries@[i as int]) == (host@, kind));
                }
                return Some(e.2.as_str());
            }
            i = i + 1;
        }
        None
    }

    /// Remembers `value` for `host` and `kind`, in place of any earlier one.
    pub fn store(&mut self, host: &str, kind: PromptKind, value: String)
        ensures
            final(self)@ == old(self)@.insert((host@, kind), value@),
    {
        proof {
            use_type_invariant(&*self);
        }
        let mut entries = Vec::new();
        std::mem::swap(&mut entries, &mut self.entries);
        let ghost es = entries@;
        let ghost key = (host@, kind);
        let mut i: usize = 0;
        while i < entries.len()
            invariant
                es == entries@,
                key == (host@, kind),
                i <= es.len(),
                forall|j: int| 0 <= j < i ==> key_of(#[trigger] es[j]) != key,
            ensures
                i <= es.len(),
                forall|j: int| 0 <= j < i ==> key_of(#[trigger] es[j]) != key,
                i < es.len() ==> key_of(es[i as int]) == key,
            decreases es.len() - i,
        {
            if entries[i].1 == kind && str_eq(entries[i].0.as_str(), host) {
                break;
            }
            i = i + 1;
        }
        let owned = host.to_owned();
        let entry = (owned, kind, value);
        assert(key_of(entry) == key);
        if i < entries.len() {
            entries.set(i, entry);
            proof {
                let r = entries@;
                assert(r =~= es.update(i as int, entry));
                assert forall|a: int, b: int| 0 <= a < b < r.len() implies key_of(#[trigger] r[a])
                    != key_of(#[trigger] r[b]) by {
                    assert(key_of(r[a]) == key_of(es[a]) && key_of(r[b]) == key_of(es[b]));
                }
                lemma_entries_map(es);
                lemma_entries_map(r);
                let m = entries_map(es).insert(key, value@);
                assert forall|k: (Seq<char>, PromptKind)| #[trigger] entries_map(r).contains_key(k)
                    == m.contains_key(k) by {
                    if exists|a: int| 0 <= a < r.len() && key_of(#[trigger] r[a]) == k {
                        let a = choose|a: int| 0 <= a < r.len() && key_of(#[trigger] r[a]) == k;
                        assert(key_of(es[a]) == k);
                    }
                    if exists|a: int| 0 <= a < es.len() && key_of(#[trigger] es[a]) == k {
                        let a = choose|a: int| 0 <= a < es.len() && key_of(#[trigger] es[a]) == k;
                        assert(key_of(r[a]) == k);
                    }
                }
                assert forall|k: (Seq<char>, PromptKind)| #[trigger] entries_map(r).contains_key(k)
                    implies entries_map(r)[k] == m[k] by {
                    let a = choose|a: int| 0 <= a < r.len() && key_of(#[trigger] r[a]) == k;
                    assert(entries_map(r)[key_of(r[a])] == r[a].2@);
                    if a == i {
                        assert(k == key);
                    } else {
                        assert(r[a] == es[a]);
                        assert(entries_map(es)[key_of(es[a])] == es[a].2@);
                        assert(k != key) by {
                            if a < i {
                                assert(key_of(es[a]) != key_of(es[i as int]));
                            } else {
                                assert(key_of(es[i as int]) != key_of(es[a]));
                            }
                        }
                    }
                }
                assert(entries_map(r) =~= m);
            }
        } else {
            entries.push(entry);
            proof {
                let r = entries@;
                assert(r.drop_last() =~= es);
                assert forall|a: int, b: int| 0 <= a < b < r.len() implies key_of(#[trigger] r[a])
                    != key_of(#[trigger] r[b]) by {
                    assert(r[a] == es[a]);
                    if b < es.len() {
                        assert(r[b] == es[b]);
                    }
                }
            }
        }
        self.entries = entries;
    }
}

/// What a git prompt asks for and for which host.
#[derive(Debug, Clone, PartialEq, Eq)]
pub struct AskpassPrompt {
    pub kind: PromptKind,
    pub host: String,
}

pub open spec fn username_tag() -> Seq<char> {
    seq!['U', 's', 'e', 'r', 'n', 'a', 'm', 'e']
}

/// The text between the first two single quotes of `s`, if it has two.
pub open spec fn quoted(s: Seq<char>) -> Option<Seq<char>> {
    let a = find_char(s, '\'');
    if a >= s.len() {
        None
    } else {
        let rest = s.skip(a + 1);
        let b = find_char(rest, '\'');
        if b >= rest.len() {
            None
        } else {
            Some(rest.take(b))
        }
    }
}

/// The host quoted in a prompt, if any.
pub fn quoted_host(text: &str) -> (r: Option<String>)
    ensures
        match r {
            Some(h) => quoted(text@) == Some(h@),
            None => quoted(text@).is_none(),
        },
{
    let cs = chars_of(text);
    let n = cs.len();
    let a = find_in(&cs, 0, n, '\'');
    assert(cs@.subrange(0, n as int) =~= cs@);
    if a == n {
        return None;
    }
    let b = find_in(&cs, a + 1, n, '\'');
    assert(cs@.subrange(a + 1, n as int) =~= cs@.skip(a + 1));
    if b == n - (a + 1) {
        return None;
    }
    let host = string_of(&cs, a + 1, a + 1 + b);
    assert(host@ =~= cs@.skip(a + 1).take(b as int));
    Some(host)
}

/// Reads a prompt of git's: `Username` in it asks for a user name, anything
/// else for a password; the host is what stands in single quotes, or empty.
pub fn parse_askpass_prompt(prompt: &str) -> (r: AskpassPrompt)
    ensures
        r.kind == (if contains_seq(prompt@, username_tag()) {
            PromptKind::Username
        } else {
            PromptKind::Password
        }),
        r.host@ == match quoted(prompt@) {
            Some(h) => h,
            None => Seq::<char>::empty(),
        },
{
    proof {
        reveal_strlit("Username");
        assert("Username"@ =~= username_tag());
    }
    let kind = if str_contains(prompt, "Username") {
        PromptKind::Username
    } else {
        PromptKind::Password
    };
    let host = match quoted_host(prompt) {
        Some(h) => h,
        None => String::new(),
    };
    AskpassPrompt { kind, host }
}

/// `s` without the carriage returns and line feeds at its end.
pub open spec fn strip_newlines(s: Seq<char>) -> Seq<char>
    decreases s.len(),
{
    if s.len() > 0 && (s.last() == '\r' || s.last() == '\n') {
        strip_newlines(s.drop_last())
    } else {
        s
    }
}

/// A line as the socket delivered it, without its line ending.
pub fn strip_newline(line: &str) -> (r: String)
    ensures
        r@ == strip_newlines(line@),
{
    let cs = chars_of(line);
    let mut end = cs.len();
    assert(cs@.take(end as int) =~= cs@);
    while end > 0 && (cs[end - 1] == '\r' || cs[end - 1] == '\n')
        invariant
            end <= cs@.len(),
            strip_newlines(cs@) == strip_newlines(cs@.take(end as int)),
        decreases end,
    {
        assert(cs@.take(end as int).drop_last() =~= cs@.take(end - 1));
        end = end - 1;
    }
    assert(cs@.take(cs@.len() as int) =~= cs@);
    let r = string_of(&cs, 0, end);
    assert(r@ =~= cs@.take(end as int));
    r
}

/// A stored answer is what a later read gives back for the same host and
/// kind; the answers for other hosts and kinds stay as they were.
pub proof fn law_read_after_store(
    cache: Map<(Seq<char>, PromptKind), Seq<char>>,
    host: Seq<char>,
    kind: PromptKind,
    value: Seq<char>,
    other: (Seq<char>, PromptKind),
)
    ensures
        cache.insert((host, kind), value).contains_key((host, kind)),
        cache.insert((host, kind), value)[(host, kind)] == value,
        other != (host, kind) ==> (cache.insert((host, kind), value).contains_key(other)
            == cache.contains_key(other) && cache.insert((host, kind), value)[other]
            == cache[other]),
{
}

} // verus!
