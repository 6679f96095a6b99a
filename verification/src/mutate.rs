//! Changes to the repository made through the git command line: which git
//! invocation each change is, and what a failed one is reported as.
use vstd::prelude::*;

use crate::askpass::AskpassConfig;
use crate::join::MergeTreeResult;
use crate::stash::LIST_FORMAT;
use crate::text::{
    chars_of, decimal, push_decimal, has_prefix, is_whitespace, is_ws, lines, lines_of, push_char, push_chars, push_str,
    splits, split_spans, span_text, starts_at, string_of, strs, trim, trim_bounds,
};

verus! {

/// How many characters of git's output a short reason keeps.
pub const DETAIL_LIMIT: usize = 160;

/// The environment variable that tells the askpass helper where to connect.
pub const SOCK_ENV: &'static str = "RAVIX_ASKPASS_SOCK";

/// A git invocation that did not succeed.
#[derive(Debug)]
pub enum MutationError {
    /// git could not be started at all; the operating system's reason.
    Spawn(String),
    Failed { command: String, stderr: String, stdout: String },
}

// ---------------------------------------------------------------------------
// Words and short reasons
// ---------------------------------------------------------------------------

/// The maximal runs of non-whitespace characters of `s`, after the run
/// `cur` already begun (`str::split_whitespace`).
pub open spec fn words_from(s: Seq<char>, cur: Seq<char>) -> Seq<Seq<char>>
    decreases s.len(),
{
    if s.len() == 0 {
        if cur.len() > 0 {
            seq![cur]
        } else {
            seq![]
        }
    } else if is_ws(s[0]) {
        (if cur.len() > 0 {
            seq![cur]
        } else {
            seq![]
        }) + words_from(s.drop_first(), seq![])
    } else {
        words_from(s.drop_first(), cur.push(s[0]))
    }
}

pub open spec fn words(s: Seq<char>) -> Seq<Seq<char>> {
    words_from(s, seq![])
}

/// The pieces joined by single spaces (`[&str]::join(" ")`).
pub open spec fn join_spaced(ws: Seq<Seq<char>>) -> Seq<char>
    decreases ws.len(),
{
    if ws.len() == 0 {
        seq![]
    } else if ws.len() == 1 {
        ws[0]
    } else {
        join_spaced(ws.drop_last()).push(' ') + ws.last()
    }
}

/// The words of `s` separated by single spaces.
pub open spec fn condensed(s: Seq<char>) -> Seq<char> {
    join_spaced(words(s))
}

proof fn lemma_words_step(s: Seq<char>, i: int, cur: Seq<char>)
    requires
        0 <= i < s.len(),
    ensures
        words_from(s.skip(i), cur) == if is_ws(s[i]) {
            (if cur.len() > 0 {
                seq![cur]
            } else {
                Seq::<Seq<char>>::empty()
            }) + words_from(s.skip(i + 1), seq![])
        } else {
            words_from(s.skip(i + 1), cur.push(s[i]))
        },
{
    assert(s.skip(i).drop_first() =~= s.skip(i + 1));
    assert(s.skip(i)[0] == s[i]);
}

proof fn lemma_join_push(ws: Seq<Seq<char>>, w: Seq<char>)
    ensures
        join_spaced(ws.push(w)) == if ws.len() == 0 {
            w
        } else {
            join_spaced(ws).push(' ') + w
        },
{
    assert(ws.push(w).drop_last() =~= ws);
    if ws.len() == 0 {
        assert(ws.push(w)[0] == w);
    }
}

/// The words of `text`, each once, joined by single spaces.
pub fn condense(text: &str) -> (r: String)
    ensures
        r@ == condensed(text@),
{
    let cs = chars_of(text);
    let n = cs.len();
    let mut out = String::new();
    let ghost mut done: Seq<Seq<char>> = seq![];
    let mut any = false;
    let mut start: usize = 0;
    let mut i: usize = 0;
    assert(cs@.skip(0) =~= cs@);
    assert(cs@.subrange(0, 0) =~= Seq::<char>::empty());
    while i < n
        invariant
            n == cs@.len(),
            cs@ == text@,
            start <= i <= n,
            words(cs@) == done + words_from(cs@.skip(i as int), cs@.subrange(start as int, i as int)),
            out@ == join_spaced(done),
            any == (done.len() > 0),
            forall|j: int| start <= j < i ==> !is_ws(#[trigger] cs@[j]),
        decreases n - i,
    {
        let ghost cur = cs@.subrange(start as int, i as int);
        proof {
            lemma_words_step(cs@, i as int, cur);
        }
        if is_whitespace(cs[i]) {
            if start < i {
                proof {
                    lemma_join_push(done, cur);
                }
                if any {
                    push_char(&mut out, ' ');
                }
                any = true;
                push_chars(&mut out, &cs, start, i);
                proof {
                    if done.len() == 0 {
                        assert(join_spaced(done) =~= Seq::<char>::empty());
                    }
                    assert(done + (seq![cur] + words_from(cs@.skip(i + 1), seq![])) =~= done.push(
                        cur,
                    ) + words_from(cs@.skip(i + 1), seq![]));
                    done = done.push(cur);
                }
            } else {
                assert(cur.len() == 0);
                assert(Seq::<Seq<char>>::empty() + words_from(cs@.skip(i + 1), seq![]) =~= words_from(
                    cs@.skip(i + 1),
                    seq![],
                ));
            }
            start = i + 1;
            assert(cs@.subrange(start as int, start as int) =~= Seq::<char>::empty());
        } else {
            assert(cs@.subrange(start as int, i + 1) =~= cur.push(cs@[i as int]));
        }
        i = i + 1;
    }
    let ghost cur = cs@.subrange(start as int, n as int);
    assert(cs@.skip(n as int).len() == 0);
    if start < n {
        proof {
            lemma_join_push(done, cur);
        }
        if any {
            push_char(&mut out, ' ');
        }
        push_chars(&mut out, &cs, start, n);
        proof {
            if done.len() == 0 {
                assert(join_spaced(done) =~= Seq::<char>::empty());
            }
            assert(words(cs@) =~= done.push(cur));
        }
    } else {
        assert(words(cs@) =~= done);
    }
    out
}

pub open spec fn fatal_tag() -> Seq<char> {
    seq!['f', 'a', 't', 'a', 'l', ':']
}

pub open spec fn error_tag() -> Seq<char> {
    seq!['e', 'r', 'r', 'o', 'r', ':']
}

pub open spec fn conflict_tag() -> Seq<char> {
    seq!['C', 'O', 'N', 'F', 'L', 'I', 'C', 'T']
}

/// Whether a line of git's output states why git stopped.
pub open spec fn is_reason(l: Seq<char>) -> bool {
    has_prefix(l, fatal_tag()) || has_prefix(l, error_tag()) || has_prefix(l, conflict_tag())
}

/// The first line that states a reason, if any.
pub open spec fn first_reason(ls: Seq<Seq<char>>) -> Option<Seq<char>>
    decreases ls.len(),
{
    if ls.len() == 0 {
        None
    } else if is_reason(ls[0]) {
        Some(ls[0])
    } else {
        first_reason(ls.drop_first())
    }
}

/// The first line that is not empty, if any.
pub open spec fn first_nonempty(ls: Seq<Seq<char>>) -> Option<Seq<char>>
    decreases ls.len(),
{
    if ls.len() == 0 {
        None
    } else if ls[0].len() > 0 {
        Some(ls[0])
    } else {
        first_nonempty(ls.drop_first())
    }
}

/// The lines of `text`, each trimmed.
pub open spec fn trimmed_lines(text: Seq<char>) -> Seq<Seq<char>> {
    lines(text).map_values(|l: Seq<char>| trim(l))
}

/// The line that best says what went wrong: the first that states a reason,
/// else the first that is not blank, else nothing.
pub open spec fn chosen_line(text: Seq<char>) -> Seq<char> {
    match first_reason(trimmed_lines(text)) {
        Some(l) => l,
        None => match first_nonempty(trimmed_lines(text)) {
            Some(l) => l,
            None => seq![],
        },
    }
}

/// A one-line reason of at most `DETAIL_LIMIT` characters, with an
/// ellipsis when it had to be cut.
pub open spec fn summary(text: Seq<char>) -> Seq<char> {
    let c = condensed(chosen_line(text));
    if c.len() <= DETAIL_LIMIT {
        c
    } else {
        c.take(DETAIL_LIMIT as int).push('…')
    }
}

proof fn lemma_first_step(ls: Seq<Seq<char>>, k: int)
    requires
        0 <= k < ls.len(),
    ensures
        first_reason(ls.skip(k)) == if is_reason(ls[k]) {
            Some(ls[k])
        } else {
            first_reason(ls.skip(k + 1))
        },
        first_nonempty(ls.skip(k)) == if ls[k].len() > 0 {
            Some(ls[k])
        } else {
            first_nonempty(ls.skip(k + 1))
        },
{
    assert(ls.skip(k).drop_first() =~= ls.skip(k + 1));
    assert(ls.skip(k)[0] == ls[k]);
}

/// The line of `text` that `summary` condenses.
fn choose_line(text: &str) -> (r: String)
    ensures
        r@ == chosen_line(text@),
{
    let ls = lines_of(text);
    let fatal = chars_of("fatal:");
    let error = chars_of("error:");
    let conflict = chars_of("CONFLICT");
    proof {
        reveal_strlit("fatal:");
        reveal_strlit("error:");
        reveal_strlit("CONFLICT");
        assert(fatal@ =~= fatal_tag());
        assert(error@ =~= error_tag());
        assert(conflict@ =~= conflict_tag());
    }
    let ghost tl = trimmed_lines(text@);
    let mut first: Option<String> = None;
    let mut k: usize = 0;
    assert(tl.skip(0) =~= tl);
    while k < ls.len()
        invariant
            strs(ls@) == lines(text@),
            tl == trimmed_lines(text@),
            tl.len() == ls@.len(),
            fatal@ == fatal_tag(),
            error@ == error_tag(),
            conflict@ == conflict_tag(),
            k <= ls@.len(),
            first_reason(tl) == first_reason(tl.skip(k as int)),
            match first {
                Some(f) => f@.len() > 0 && first_nonempty(tl) == Some(f@),
                None => first_nonempty(tl) == first_nonempty(tl.skip(k as int)),
            },
        decreases ls@.len() - k,
    {
        let cs = chars_of(ls[k].as_str());
        let (a, b) = trim_bounds(&cs, 0, cs.len());
        assert(cs@.subrange(0, cs@.len() as int) =~= cs@);
        let line = string_of(&cs, a, b);
        assert(line@ == tl[k as int]);
        proof {
            lemma_first_step(tl, k as int);
        }
        let lc = chars_of(line.as_str());
        assert(lc@.skip(0) =~= lc@);
        if starts_at(&lc, 0, &fatal) || starts_at(&lc, 0, &error) || starts_at(&lc, 0, &conflict) {
            return line;
        }
        if first.is_none() && a < b {
            first = Some(line);
        }
        k = k + 1;
    }
    proof {
        assert(tl.skip(k as int).len() == 0);
    }
    match first {
        Some(f) => f,
        None => String::new(),
    }
}

/// What git printed, cut down to one short line of reason.
pub fn summarize(text: &str) -> (r: String)
    ensures
        r@ == summary(text@),
{
    let line = choose_line(text);
    let c = condense(line.as_str());
    let cs = chars_of(c.as_str());
    if cs.len() <= DETAIL_LIMIT {
        return c;
    }
    let mut out = string_of(&cs, 0, DETAIL_LIMIT);
    push_char(&mut out, '…');
    assert(cs@.subrange(0, DETAIL_LIMIT as int) =~= cs@.take(DETAIL_LIMIT as int));
    out
}

/// Whether `s` is empty once trimmed.
fn is_blank(s: &str) -> (r: bool)
    ensures
        r == (trim(s@).len() == 0),
{
    let cs = chars_of(s);
    let (a, b) = trim_bounds(&cs, 0, cs.len());
    assert(cs@.subrange(0, cs@.len() as int) =~= cs@);
    a == b
}

pub open spec fn spawn_prefix() -> Seq<char> {
    "could not run git: "@
}

/// The reason an error gives, as `detail` tells it.
pub open spec fn detail_of(e: MutationError) -> Seq<char> {
    match e {
        MutationError::Spawn(reason) => spawn_prefix() + reason@,
        MutationError::Failed { stderr, stdout, .. } => summary(
            if trim(stderr@).len() == 0 {
                stdout@
            } else {
                stderr@
            },
        ),
    }
}

/// The whole message, as `message` tells it.
pub open spec fn message_of(e: MutationError) -> Seq<char> {
    match e {
        MutationError::Spawn(_) => detail_of(e),
        MutationError::Failed { command, .. } => if detail_of(e).len() == 0 {
            command@ + " failed"@
        } else {
            command@ + ": "@ + detail_of(e)
        },
    }
}

impl MutationError {
    /// Why git failed: the reason it could not start, or one short line of
    /// what it printed (its errors, or its output when it printed no error).
    pub fn detail(&self) -> (r: String)
        ensures
            r@ == detail_of(*self),
    {
        match self {
            MutationError::Spawn(reason) => {
                let mut out = String::new();
                push_str(&mut out, "could not run git: ");
                push_str(&mut out, reason.as_str());
                assert(out@ =~= spawn_prefix() + reason@);
                out
            },
            MutationError::Failed { stderr, stdout, .. } => {
                if is_blank(stderr.as_str()) {
                    summarize(stdout.as_str())
                } else {
                    summarize(stderr.as_str())
                }
            },
        }
    }

    /// The error as one line: the command and its reason.
    pub fn message(&self) -> (r: String)
        ensures
            r@ == message_of(*self),
    {
        let detail = self.detail();
        match self {
            MutationError::Spawn(_) => detail,
            MutationError::Failed { command, .. } => {
                let mut out = String::new();
                push_str(&mut out, command.as_str());
                if chars_of(detail.as_str()).len() == 0 {
                    push_str(&mut out, " failed");
                    assert(out@ =~= command@ + " failed"@);
                } else {
                    push_str(&mut out, ": ");
                    push_str(&mut out, detail.as_str());
                    assert(out@ =~= command@ + ": "@ + detail@);
                }
                out
            },
        }
    }
}

// ---------------------------------------------------------------------------
// The git invocations
// ---------------------------------------------------------------------------

/// One git run, ready to be started: where, with which environment,
/// arguments and standard input.
pub struct GitCommand {
    pub workdir: String,
    pub env: Vec<(String, String)>,
    pub args: Vec<String>,
    pub stdin: Option<String>,
}

pub open spec fn pair_views(v: Seq<(String, String)>) -> Seq<(Seq<char>, Seq<char>)> {
    v.map_values(|p: (String, String)| (p.0@, p.1@))
}

pub open spec fn opt_view(o: Option<String>) -> Option<Seq<char>> {
    match o {
        Some(s) => Some(s@),
        None => None,
    }
}

impl GitCommand {
    pub open spec fn env_view(&self) -> Seq<(Seq<char>, Seq<char>)> {
        pair_views(self.env@)
    }

    pub open spec fn args_view(&self) -> Seq<Seq<char>> {
        strs(self.args@)
    }

    pub open spec fn stdin_view(&self) -> Option<Seq<char>> {
        opt_view(self.stdin)
    }
}

/// Runs git in one working directory, with the askpass helper when set.
pub struct GitCli {
    workdir: String,
    askpass: Option<AskpassConfig>,
}

/// The working directory, and the helper and socket of the askpass set up.
pub type CliView = (Seq<char>, Option<(Seq<char>, Seq<char>)>);

impl View for GitCli {
    type V = CliView;

    closed spec fn view(&self) -> CliView {
        (
            self.workdir@,
            match self.askpass {
                Some(c) => Some((c.helper@, c.socket@)),
                None => None,
            },
        )
    }
}

/// The environment of a git run: never prompt on the terminal, and reach
/// the askpass helper when one is set up.
pub open spec fn env_for(askpass: Option<(Seq<char>, Seq<char>)>) -> Seq<(Seq<char>, Seq<char>)> {
    let quiet = seq![("GIT_TERMINAL_PROMPT"@, "0"@)];
    match askpass {
        Some((helper, socket)) => quiet + seq![("GIT_ASKPASS"@, helper), (SOCK_ENV@, socket)],
        None => quiet,
    }
}

/// `r` runs git in the working directory of `cli`, with `args` and `stdin`.
pub open spec fn runs(cli: CliView, r: GitCommand, args: Seq<Seq<char>>, stdin: Option<Seq<char>>) -> bool {
    &&& r.workdir@ == cli.0
    &&& r.env_view() == env_for(cli.1)
    &&& r.args_view() == args
    &&& r.stdin_view() == stdin
}

/// `r` queries git in the working directory of `cli` with `args`: no
/// askpass, and terminal prompts off only when `quiet`.
pub open spec fn queries(cli: CliView, r: GitCommand, args: Seq<Seq<char>>, quiet: bool) -> bool {
    &&& r.workdir@ == cli.0
    &&& r.env_view() == (if quiet {
        seq![("GIT_TERMINAL_PROMPT"@, "0"@)]
    } else {
        Seq::<(Seq<char>, Seq<char>)>::empty()
    })
    &&& r.args_view() == args
    &&& r.stdin_view() == None::<Seq<char>>
}

/// How git names the stash entry at `index`.
pub open spec fn stash_ref(index: nat) -> Seq<char> {
    "stash@{"@ + decimal(index) + "}"@
}

fn stash_name(index: usize) -> (r: String)
    ensures
        r@ == stash_ref(index as nat),
{
    let mut out = String::new();
    push_str(&mut out, "stash@{");
    push_decimal(&mut out, index);
    push_str(&mut out, "}");
    assert(out@ =~= stash_ref(index as nat));
    out
}

/// Appends an owned copy of `a`.
fn push_arg(args: &mut Vec<String>, a: &str)
    ensures
        strs(final(args)@) == strs(old(args)@).push(a@),
{
    args.push(a.to_owned());
    assert(strs(args@) =~= strs(old(args)@).push(a@));
}

fn args1(a: &str) -> (r: Vec<String>)
    ensures
        strs(r@) == seq![a@],
{
    let mut r: Vec<String> = Vec::new();
    assert(strs(r@) =~= Seq::<Seq<char>>::empty());
    push_arg(&mut r, a);
    assert(strs(r@) =~= seq![a@]);
    r
}

fn args2(a: &str, b: &str) -> (r: Vec<String>)
    ensures
        strs(r@) == seq![a@, b@],
{
    let mut r = args1(a);
    push_arg(&mut r, b);
    assert(strs(r@) =~= seq![a@, b@]);
    r
}

fn args3(a: &str, b: &str, c: &str) -> (r: Vec<String>)
    ensures
        strs(r@) == seq![a@, b@, c@],
{
    let mut r = args2(a, b);
    push_arg(&mut r, c);
    assert(strs(r@) =~= seq![a@, b@, c@]);
    r
}

fn args4(a: &str, b: &str, c: &str, d: &str) -> (r: Vec<String>)
    ensures
        strs(r@) == seq![a@, b@, c@, d@],
{
    let mut r = args3(a, b, c);
    push_arg(&mut r, d);
    assert(strs(r@) =~= seq![a@, b@, c@, d@]);
    r
}

fn args5(a: &str, b: &str, c: &str, d: &str, e: &str) -> (r: Vec<String>)
    ensures
        strs(r@) == seq![a@, b@, c@, d@, e@],
{
    let mut r = args4(a, b, c, d);
    push_arg(&mut r, e);
    assert(strs(r@) =~= seq![a@, b@, c@, d@, e@]);
    r
}

fn pair(a: &str, b: &str) -> (r: (String, String))
    ensures
        r.0@ == a@,
        r.1@ == b@,
{
    (a.to_owned(), b.to_owned())
}

impl GitCli {
    pub fn new(workdir: &str) -> (r: GitCli)
        ensures
            r@ == (workdir@, None::<(Seq<char>, Seq<char>)>),
    {
        GitCli { workdir: workdir.to_owned(), askpass: None }
    }

    /// The same runner, answering git's credential prompts through `config`.
    pub fn with_askpass(self, config: AskpassConfig) -> (r: GitCli)
        ensures
            r@ == (self@.0, Some((config.helper@, config.socket@))),
    {
        GitCli { workdir: self.workdir, askpass: Some(config) }
    }

    /// A git run with `args` and `stdin`, in this runner's directory and
    /// environment.
    fn command(&self, args: Vec<String>, stdin: Option<String>) -> (r: GitCommand)
        ensures
            runs(self@, r, strs(args@), opt_view(stdin)),
    {
        let mut env: Vec<(String, String)> = Vec::new();
        env.push(pair("GIT_TERMINAL_PROMPT", "0"));
        match &self.askpass {
            Some(config) => {
                env.push(pair("GIT_ASKPASS", config.helper.as_str()));
                env.push(pair(SOCK_ENV, config.socket.as_str()));
            },
            None => {},
        }
        assert(pair_views(env@) =~= env_for(self@.1));
        GitCommand { workdir: self.workdir.clone(), env, args, stdin }
    }

    fn query(&self, args: Vec<String>, quiet: bool) -> (r: GitCommand)
        ensures
            queries(self@, r, strs(args@), quiet),
    {
        let mut env: Vec<(String, String)> = Vec::new();
        if quiet {
            env.push(pair("GIT_TERMINAL_PROMPT", "0"));
        }
        assert(pair_views(env@) =~= (if quiet {
            seq![("GIT_TERMINAL_PROMPT"@, "0"@)]
        } else {
            Seq::<(Seq<char>, Seq<char>)>::empty()
        }));
        GitCommand { workdir: self.workdir.clone(), env, args, stdin: None }
    }

    pub fn stage_file(&self, path: &str) -> (r: GitCommand)
        ensures
            runs(self@, r, seq!["add"@, "--"@, path@], None),
    {
        self.command(args3("add", "--", path), None)
    }

    /// Takes a file's staged change back out of the index.
    pub fn unstage_file(&self, path: &str) -> (r: GitCommand)
        ensures
            runs(self@, r, seq!["restore"@, "--staged"@, "--"@, path@], None),
    {
        self.command(args4("restore", "--staged", "--", path), None)
    }

    /// Stages every change, new files included.
    pub fn stage_all(&self) -> (r: GitCommand)
        ensures
            runs(self@, r, seq!["add"@, "-A"@], None),
    {
        self.command(args2("add", "-A"), None)
    }

    /// Takes every staged change back out of the index.
    pub fn unstage_all(&self) -> (r: GitCommand)
        ensures
            runs(self@, r, seq!["restore"@, "--staged"@, "."@], None),
    {
        self.command(args3("restore", "--staged", "."), None)
    }

    /// Applies a patch to the index.
    pub fn stage_hunk(&self, patch: &str) -> (r: GitCommand)
        ensures
            runs(self@, r, seq!["apply"@, "--cached"@, "--whitespace=nowarn"@], Some(patch@)),
    {
        self.command(args3("apply", "--cached", "--whitespace=nowarn"), Some(patch.to_owned()))
    }

    /// Takes a patch back out of the index.
    pub fn unstage_hunk(&self, patch: &str) -> (r: GitCommand)
        ensures
            runs(self@, r, seq!["apply"@, "--cached"@, "--reverse"@, "--whitespace=nowarn"@], Some(patch@)),
    {
        self.command(args4("apply", "--cached", "--reverse", "--whitespace=nowarn"), Some(patch.to_owned()))
    }

    /// Initialises and checks out a submodule.
    pub fn submodule_init(&self, path: &str) -> (r: GitCommand)
        ensures
            runs(self@, r, seq!["submodule"@, "update"@, "--init"@, "--"@, path@], None),
    {
        self.command(args5("submodule", "update", "--init", "--", path), None)
    }

    /// Checks a submodule out at the commit its parent records.
    pub fn submodule_update(&self, path: &str) -> (r: GitCommand)
        ensures
            runs(self@, r, seq!["submodule"@, "update"@, "--checkout"@, "--"@, path@], None),
    {
        self.command(args5("submodule", "update", "--checkout", "--", path), None)
    }

    /// Throws away a file's unstaged change.
    pub fn discard_file(&self, path: &str) -> (r: GitCommand)
        ensures
            runs(self@, r, seq!["restore"@, "--recurse-submodules"@, "--"@, path@], None),
    {
        self.command(args4("restore", "--recurse-submodules", "--", path), None)
    }

    /// Takes a patch back out of the working tree.
    pub fn discard_hunk(&self, patch: &str) -> (r: GitCommand)
        ensures
            runs(self@, r, seq!["apply"@, "--reverse"@, "--whitespace=nowarn"@], Some(patch@)),
    {
        self.command(args3("apply", "--reverse", "--whitespace=nowarn"), Some(patch.to_owned()))
    }

    /// Commits the index with the message on standard input.
    pub fn commit(&self, message: &str) -> (r: GitCommand)
        ensures
            runs(self@, r, seq!["commit"@, "--quiet"@, "-F"@, "-"@], Some(message@)),
    {
        self.command(args4("commit", "--quiet", "-F", "-"), Some(message.to_owned()))
    }

    /// Moves HEAD back to where it was before, keeping the changes staged.
    pub fn reset_soft_previous(&self) -> (r: GitCommand)
        ensures
            runs(self@, r, seq!["reset"@, "--soft"@, "HEAD@{1}"@], None),
    {
        self.command(args3("reset", "--soft", "HEAD@{1}"), None)
    }

    /// Moves the branch to a commit, keeping local changes.
    pub fn reset_keep(&self, oid: &str) -> (r: GitCommand)
        ensures
            runs(self@, r, seq!["reset"@, "--keep"@, oid@], None),
    {
        self.command(args3("reset", "--keep", oid), None)
    }

    /// Switches to a branch.
    pub fn switch_branch(&self, name: &str) -> (r: GitCommand)
        ensures
            runs(self@, r, seq!["switch"@, name@], None),
    {
        self.command(args2("switch", name), None)
    }

    /// Checks out a commit with a detached HEAD.
    pub fn checkout_detached(&self, oid: &str) -> (r: GitCommand)
        ensures
            runs(self@, r, seq!["checkout"@, oid@], None),
    {
        self.command(args2("checkout", oid), None)
    }

    /// Checks out a branch or commit.
    pub fn checkout(&self, target: &str) -> (r: GitCommand)
        ensures
            runs(self@, r, seq!["checkout"@, target@], None),
    {
        self.command(args2("checkout", target), None)
    }

    /// Creates a branch at `start` and switches to it.
    pub fn create_branch(&self, name: &str, start: &str) -> (r: GitCommand)
        ensures
            runs(self@, r, seq!["switch"@, "-c"@, name@, start@], None),
    {
        self.command(args4("switch", "-c", name, start), None)
    }

    /// Deletes a merged branch.
    pub fn delete_branch(&self, name: &str) -> (r: GitCommand)
        ensures
            runs(self@, r, seq!["branch"@, "-d"@, name@], None),
    {
        self.command(args3("branch", "-d", name), None)
    }

    /// Deletes a branch, merged or not.
    pub fn force_delete_branch(&self, name: &str) -> (r: GitCommand)
        ensures
            runs(self@, r, seq!["branch"@, "-D"@, name@], None),
    {
        self.command(args3("branch", "-D", name), None)
    }

    /// Deletes a branch on a remote.
    pub fn delete_remote_branch(&self, remote: &str, branch: &str) -> (r: GitCommand)
        ensures
            runs(self@, r, seq!["push"@, remote@, "--delete"@, branch@], None),
    {
        self.command(args4("push", remote, "--delete", branch), None)
    }

    /// Creates a local branch tracking a remote one and switches to it.
    pub fn switch_create_track(&self, name: &str, remote_ref: &str) -> (r: GitCommand)
        ensures
            runs(self@, r, seq!["switch"@, "-c"@, name@, "--track"@, remote_ref@], None),
    {
        self.command(args5("switch", "-c", name, "--track", remote_ref), None)
    }

    /// Creates a branch at a commit without switching.
    pub fn create_branch_at(&self, name: &str, oid: &str) -> (r: GitCommand)
        ensures
            runs(self@, r, seq!["branch"@, name@, oid@], None),
    {
        self.command(args3("branch", name, oid), None)
    }

    /// Fast-forwards to `source`.
    pub fn merge_ff(&self, source: &str) -> (r: GitCommand)
        ensures
            runs(self@, r, seq!["merge"@, "--ff-only"@, source@], None),
    {
        self.command(args3("merge", "--ff-only", source), None)
    }

    /// Merges `source` with a merge commit.
    pub fn merge_no_ff(&self, source: &str) -> (r: GitCommand)
        ensures
            runs(self@, r, seq!["merge"@, "--no-ff"@, "--no-edit"@, source@], None),
    {
        self.command(args4("merge", "--no-ff", "--no-edit", source), None)
    }

    /// Applies one commit on top of HEAD.
    pub fn cherry_pick(&self, oid: &str) -> (r: GitCommand)
        ensures
            runs(self@, r, seq!["cherry-pick"@, oid@], None),
    {
        self.command(args2("cherry-pick", oid), None)
    }

    /// Gives up a cherry-pick in progress.
    pub fn cherry_pick_abort(&self) -> (r: GitCommand)
        ensures
            runs(self@, r, seq!["cherry-pick"@, "--abort"@], None),
    {
        self.command(args2("cherry-pick", "--abort"), None)
    }

    /// Gives up a merge in progress.
    pub fn merge_abort(&self) -> (r: GitCommand)
        ensures
            runs(self@, r, seq!["merge"@, "--abort"@], None),
    {
        self.command(args2("merge", "--abort"), None)
    }

    /// Fetches from the default remote.
    pub fn fetch(&self) -> (r: GitCommand)
        ensures
            runs(self@, r, seq!["fetch"@], None),
    {
        self.command(args1("fetch"), None)
    }

    /// Pushes the current branch.
    pub fn push(&self) -> (r: GitCommand)
        ensures
            runs(self@, r, seq!["push"@], None),
    {
        self.command(args1("push"), None)
    }

    /// Pushes a branch and makes the remote one its upstream.
    pub fn push_set_upstream(&self, remote: &str, branch: &str) -> (r: GitCommand)
        ensures
            runs(self@, r, seq!["push"@, "-u"@, remote@, branch@], None),
    {
        self.command(args4("push", "-u", remote, branch), None)
    }

    /// Pushes over a diverged remote branch, unless it moved meanwhile.
    pub fn push_force_with_lease(&self) -> (r: GitCommand)
        ensures
            runs(self@, r, seq!["push"@, "--force-with-lease"@], None),
    {
        self.command(args2("push", "--force-with-lease"), None)
    }

    /// Rebases the current branch onto `target`.
    pub fn rebase(&self, target: &str) -> (r: GitCommand)
        ensures
            runs(self@, r, seq!["-c"@, "core.editor=true"@, "rebase"@, target@], None),
    {
        self.command(args4("-c", "core.editor=true", "rebase", target), None)
    }

    /// Continues a rebase after conflicts are resolved.
    pub fn rebase_continue(&self) -> (r: GitCommand)
        ensures
            runs(self@, r, seq!["-c"@, "core.editor=true"@, "rebase"@, "--continue"@], None),
    {
        self.command(args4("-c", "core.editor=true", "rebase", "--continue"), None)
    }

    /// Skips the commit a rebase stopped on.
    pub fn rebase_skip(&self) -> (r: GitCommand)
        ensures
            runs(self@, r, seq!["rebase"@, "--skip"@], None),
    {
        self.command(args2("rebase", "--skip"), None)
    }

    /// Gives up a rebase in progress.
    pub fn rebase_abort(&self) -> (r: GitCommand)
        ensures
            runs(self@, r, seq!["rebase"@, "--abort"@], None),
    {
        self.command(args2("rebase", "--abort"), None)
    }

    /// Puts the files back as HEAD has them, in the index and the working
    /// tree; nothing to run when there are no files.
    pub fn restore_from_head(&self, paths: &[String]) -> (r: Option<GitCommand>)
        ensures
            match r {
                Some(c) => paths@.len() > 0 && runs(
                    self@,
                    c,
                    seq!["restore"@, "--source=HEAD"@, "--staged"@, "--worktree"@, "--"@] + strs(paths@),
                    None,
                ),
                None => paths@.len() == 0,
            },
    {
        if paths.len() == 0 {
            return None;
        }
        let mut args = args5("restore", "--source=HEAD", "--staged", "--worktree", "--");
        let ghost head = strs(args@);
        let mut k: usize = 0;
        while k < paths.len()
            invariant
                k <= paths@.len(),
                strs(args@) == head + strs(paths@).take(k as int),
            decreases paths@.len() - k,
        {
            push_arg(&mut args, paths[k].as_str());
            k = k + 1;
            assert(strs(paths@).take(k as int) =~= strs(paths@).take(k - 1).push(paths@[k - 1]@));
            assert(strs(args@) =~= head + strs(paths@).take(k as int));
        }
        assert(strs(paths@).take(k as int) =~= strs(paths@));
        Some(self.command(args, None))
    }

    /// Stashes every change, untracked files included, under `message` when given.
    pub fn stash_save(&self, message: Option<&str>) -> (r: GitCommand)
        ensures
            runs(
                self@,
                r,
                match message {
                    Some(m) => seq!["stash"@, "push"@, "--include-untracked"@, "-m"@, m@],
                    None => seq!["stash"@, "push"@, "--include-untracked"@],
                },
                None,
            ),
    {
        match message {
            Some(m) => self.command(args5("stash", "push", "--include-untracked", "-m", m), None),
            None => self.command(args3("stash", "push", "--include-untracked"), None),
        }
    }

    /// Applies a stash entry and drops it.
    pub fn stash_pop(&self, index: usize) -> (r: GitCommand)
        ensures
            runs(self@, r, seq!["stash"@, "pop"@, stash_ref(index as nat)], None),
    {
        let entry = stash_name(index);
        self.command(args3("stash", "pop", entry.as_str()), None)
    }

    /// Applies a stash entry and keeps it.
    pub fn stash_apply(&self, index: usize) -> (r: GitCommand)
        ensures
            runs(self@, r, seq!["stash"@, "apply"@, stash_ref(index as nat)], None),
    {
        let entry = stash_name(index);
        self.command(args3("stash", "apply", entry.as_str()), None)
    }

    /// Drops a stash entry.
    pub fn stash_drop(&self, index: usize) -> (r: GitCommand)
        ensures
            runs(self@, r, seq!["stash"@, "drop"@, stash_ref(index as nat)], None),
    {
        let entry = stash_name(index);
        self.command(args3("stash", "drop", entry.as_str()), None)
    }

    /// Restores one file as a stash entry has it; an untracked file comes
    /// from the entry's third parent.
    pub fn stash_restore_file(&self, index: usize, path: &str, untracked: bool) -> (r: GitCommand)
        ensures
            runs(
                self@,
                r,
                seq![
                    "--source="@ + stash_ref(index as nat) + (if untracked {
                        "^3"@
                    } else {
                        Seq::<char>::empty()
                    }),
                    "--"@,
                    path@,
                ].insert(0, "restore"@),
                None,
            ),
    {
        let mut source = String::new();
        push_str(&mut source, "--source=");
        let entry = stash_name(index);
        push_str(&mut source, entry.as_str());
        if untracked {
            push_str(&mut source, "^3");
        }
        let ghost suffix = if untracked {
            "^3"@
        } else {
            Seq::<char>::empty()
        };
        assert(source@ =~= "--source="@ + stash_ref(index as nat) + suffix);
        let r = self.command(args4("restore", source.as_str(), "--", path), None);
        assert(seq![source@, "--"@, path@].insert(0, "restore"@) =~= seq![
            "restore"@,
            source@,
            "--"@,
            path@,
        ]);
        r
    }

    /// Makes a branch from a stash entry and drops the entry.
    pub fn stash_branch(&self, index: usize, name: &str) -> (r: GitCommand)
        ensures
            runs(self@, r, seq!["stash"@, "branch"@, name@, stash_ref(index as nat)], None),
    {
        let entry = stash_name(index);
        self.command(args4("stash", "branch", name, entry.as_str()), None)
    }

    /// Lists the files a stash entry touches, NUL-separated.
    pub fn stash_paths(&self, index: usize) -> (r: GitCommand)
        ensures
            queries(
                self@,
                r,
                seq!["-c"@, "core.quotePath=false"@, "stash"@, "show"@, "--name-only"@, "-z"@]
                    + seq![stash_ref(index as nat)],
                true,
            ),
    {
        let entry = stash_name(index);
        let mut args = args5("-c", "core.quotePath=false", "stash", "show", "--name-only");
        push_arg(&mut args, "-z");
        push_arg(&mut args, entry.as_str());
        assert(strs(args@) =~= seq!["-c"@, "core.quotePath=false"@, "stash"@, "show"@, "--name-only"@, "-z"@]
            + seq![entry@]);
        self.query(args, true)
    }

    /// Lists the stash in the format that `parse_stash_list` reads.
    pub fn stash_list(&self) -> (r: GitCommand)
        ensures
            queries(self@, r, seq!["stash"@, "list"@, "--format="@ + LIST_FORMAT@], true),
    {
        let mut format = String::new();
        push_str(&mut format, "--format=");
        push_str(&mut format, LIST_FORMAT);
        assert(format@ =~= "--format="@ + LIST_FORMAT@);
        self.query(args3("stash", "list", format.as_str()), true)
    }

    /// Merges `ours` and `theirs` without touching the working tree, from
    /// `base` when given, listing the conflicted files.
    pub fn merge_tree(&self, ours: &str, theirs: &str, base: Option<&str>) -> (r: GitCommand)
        ensures
            queries(
                self@,
                r,
                seq!["merge-tree"@, "--write-tree"@, "--name-only"@, "--no-messages"@] + match base {
                    Some(b) => seq!["--merge-base="@ + b@],
                    None => Seq::<Seq<char>>::empty(),
                } + seq![ours@, theirs@],
                false,
            ),
    {
        let mut args = args4("merge-tree", "--write-tree", "--name-only", "--no-messages");
        let ghost head = strs(args@);
        match base {
            Some(b) => {
                let mut flag = String::new();
                push_str(&mut flag, "--merge-base=");
                push_str(&mut flag, b);
                push_arg(&mut args, flag.as_str());
                assert(flag@ =~= "--merge-base="@ + b@);
            },
            None => {},
        }
        let ghost mid = strs(args@);
        push_arg(&mut args, ours);
        push_arg(&mut args, theirs);
        assert(strs(args@) =~= head + match base {
            Some(b) => seq!["--merge-base="@ + b@],
            None => Seq::<Seq<char>>::empty(),
        } + seq![ours@, theirs@]);
        self.query(args, false)
    }
}

// ---------------------------------------------------------------------------
// What came back
// ---------------------------------------------------------------------------

/// The command line of a run, as an error names it.
pub open spec fn command_line(args: Seq<Seq<char>>) -> Seq<char> {
    "git "@ + join_spaced(args)
}

/// The arguments joined by single spaces.
fn join_args(args: &Vec<String>) -> (r: String)
    ensures
        r@ == join_spaced(strs(args@)),
{
    let mut out = String::new();
    let mut k: usize = 0;
    assert(strs(args@).take(0) =~= Seq::<Seq<char>>::empty());
    while k < args.len()
        invariant
            k <= args@.len(),
            out@ == join_spaced(strs(args@).take(k as int)),
        decreases args@.len() - k,
    {
        proof {
            lemma_join_push(strs(args@).take(k as int), args@[k as int]@);
            assert(strs(args@).take(k + 1) =~= strs(args@).take(k as int).push(args@[k as int]@));
            if k == 0 {
                assert(out@ =~= Seq::<char>::empty());
            }
        }
        if k > 0 {
            push_char(&mut out, ' ');
        }
        push_str(&mut out, args[k].as_str());
        k = k + 1;
    }
    assert(strs(args@).take(k as int) =~= strs(args@));
    out
}

/// `s` trimmed, owned.
fn trimmed(s: &str) -> (r: String)
    ensures
        r@ == trim(s@),
{
    let cs = chars_of(s);
    let (a, b) = trim_bounds(&cs, 0, cs.len());
    assert(cs@.subrange(0, cs@.len() as int) =~= cs@);
    string_of(&cs, a, b)
}

/// The outcome of a run that started: nothing when git succeeded, else the
/// command line with what git printed on each stream, trimmed.
pub fn finish(args: &Vec<String>, success: bool, stdout: &str, stderr: &str) -> (r: Result<(), MutationError>)
    ensures
        success <==> r is Ok,
        match r {
            Err(MutationError::Failed { command, stderr: e, stdout: o }) => command@ == command_line(
                strs(args@),
            ) && e@ == trim(stderr@) && o@ == trim(stdout@),
            Err(MutationError::Spawn(_)) => false,
            Ok(_) => true,
        },
{
    if success {
        return Ok(());
    }
    let mut command = String::new();
    push_str(&mut command, "git ");
    let joined = join_args(args);
    push_str(&mut command, joined.as_str());
    Err(MutationError::Failed { command, stderr: trimmed(stderr), stdout: trimmed(stdout) })
}

/// The non-empty pieces of `s` between NUL characters.
pub open spec fn nul_separated(s: Seq<char>) -> Seq<Seq<char>> {
    splits(s, '\0').filter(|p: Seq<char>| p.len() > 0)
}

/// The files `stash_paths` listed: none when git failed.
pub fn stash_paths_from(success: bool, stdout: &str) -> (r: Vec<String>)
    ensures
        strs(r@) == (if success {
            nul_separated(stdout@)
        } else {
            Seq::<Seq<char>>::empty()
        }),
{
    let mut out: Vec<String> = Vec::new();
    if !success {
        assert(strs(out@) =~= Seq::<Seq<char>>::empty());
        return out;
    }
    let cs = chars_of(stdout);
    let spans = split_spans(&cs, 0, cs.len(), '\0');
    let ghost parts = splits(cs@.subrange(0, cs@.len() as int), '\0');
    assert(cs@.subrange(0, cs@.len() as int) =~= stdout@);
    let mut k: usize = 0;
    proof {
        reveal(Seq::filter);
        assert(parts.take(0).filter(|p: Seq<char>| p.len() > 0) =~= Seq::<Seq<char>>::empty());
    }
    while k < spans.len()
        invariant
            k <= spans@.len(),
            spans@.len() == parts.len(),
            forall|q: int|
                0 <= q < spans@.len() ==> {
                    &&& (#[trigger] spans@[q]).start <= spans@[q].end <= cs@.len()
                    &&& span_text(cs@, spans@[q]) == parts[q]
                },
            strs(out@) == parts.take(k as int).filter(|p: Seq<char>| p.len() > 0),
        decreases spans@.len() - k,
    {
        let sp = &spans[k];
        proof {
            reveal(Seq::filter);
            assert(parts.take(k + 1).drop_last() =~= parts.take(k as int));
            assert(parts.take(k + 1).last() == parts[k as int]);
        }
        if sp.start < sp.end {
            let piece = string_of(&cs, sp.start, sp.end);
            let ghost before = strs(out@);
            out.push(piece);
            assert(strs(out@) =~= before.push(parts[k as int]));
        }
        k = k + 1;
    }
    assert(parts.take(k as int) =~= parts);
    out
}

/// The conflicted files `merge_tree` listed: every line after the first
/// (which names the tree), trimmed, blank ones left out.
pub open spec fn merge_tree_files(stdout: Seq<char>) -> Seq<Seq<char>> {
    let tl = trimmed_lines(stdout);
    if tl.len() == 0 {
        seq![]
    } else {
        tl.skip(1).filter(|l: Seq<char>| l.len() > 0)
    }
}

/// What a `merge_tree` run says: conflicted when git did not succeed, and
/// the files it listed.
pub fn merge_tree_from(success: bool, stdout: &str) -> (r: MergeTreeResult)
    ensures
        r.conflicted == !success,
        strs(r.files@) == merge_tree_files(stdout@),
{
    let ls = lines_of(stdout);
    let ghost tl = trimmed_lines(stdout@);
    let mut files: Vec<String> = Vec::new();
    if ls.len() == 0 {
        assert(strs(files@) =~= Seq::<Seq<char>>::empty());
        return MergeTreeResult { conflicted: !success, files };
    }
    let ghost rest = tl.skip(1);
    proof {
        reveal(Seq::filter);
        assert(rest.take(0).filter(|l: Seq<char>| l.len() > 0) =~= Seq::<Seq<char>>::empty());
    }
    let mut k: usize = 1;
    while k < ls.len()
        invariant
            strs(ls@) == lines(stdout@),
            tl == trimmed_lines(stdout@),
            tl.len() == ls@.len(),
            1 <= k <= ls@.len(),
            rest == tl.skip(1),
            strs(files@) == rest.take(k - 1).filter(|l: Seq<char>| l.len() > 0),
        decreases ls@.len() - k,
    {
        let line = trimmed(ls[k].as_str());
        proof {
            reveal(Seq::filter);
            assert(line@ == tl[k as int]);
            assert(rest.take(k as int).drop_last() =~= rest.take(k - 1));
            assert(rest.take(k as int).last() == tl[k as int]);
        }
        let lc = chars_of(line.as_str());
        if lc.len() > 0 {
            let ghost before = strs(files@);
            files.push(line);
            assert(strs(files@) =~= before.push(tl[k as int]));
        }
        k = k + 1;
    }
    assert(rest.take(k - 1) =~= rest);
    MergeTreeResult { conflicted: !success, files }
}

} // verus!
