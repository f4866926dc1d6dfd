//! git: the command lines it is given and how its answers are read.

use vstd::prelude::*;
use vstd::string::*;

use crate::assoc::Assoc;
use crate::error;
use crate::error::{CoreError, ExitClass};
use crate::order;
use crate::order::Keyed;
use crate::path;
use crate::proc;
use crate::proc::{CommandRequest, ProcessOutput};
use crate::text;

verus! {

broadcast use vstd::string::group_string_axioms;

/// What a git command does, which decides how long it may take.
#[derive(Clone, Copy, Debug, PartialEq, Eq, Structural)]
pub enum Class {
    Query,
    Fetch,
    Clone,
    Worktree,
    Submodule,
}

/// The name of a class.
pub open spec fn class_name(class: Class) -> Seq<char> {
    match class {
        Class::Query => "Query"@,
        Class::Fetch => "Fetch"@,
        Class::Clone => "Clone"@,
        Class::Worktree => "Worktree"@,
        Class::Submodule => "Submodule"@,
    }
}

/// How long, in milliseconds, the commands of each class may take.
#[derive(Clone, Copy, Debug, PartialEq, Eq, Structural)]
pub struct Deadlines {
    pub query: u64,
    pub fetch: u64,
    pub clone: u64,
    pub worktree: u64,
    pub submodule: u64,
}

/// The deadlines that the settings resolve to, each in milliseconds; `None`
/// where a setting is absent or no duration.
#[derive(Clone, Copy, Debug)]
pub struct GitTimeouts {
    pub query: Option<u64>,
    pub fetch: Option<u64>,
    pub clone: Option<u64>,
    pub worktree: Option<u64>,
    pub submodule: Option<u64>,
}

/// What is wrong with a setting that resolves to no duration.
pub open spec fn unresolved(key: Seq<char>) -> error::Fault {
    error::fault(
        ExitClass::State,
        "SETTINGS_INVALID"@,
        key + " has no resolved valid duration"@,
        "fix `$WT_HOME/config.toml` and reload settings"@,
    )
}

/// The duration that a setting resolved to.
pub fn resolved_duration(value: Option<u64>, key: &str) -> (r: Result<u64, CoreError>)
    ensures
        r is Ok == (value is Some),
        r matches Ok(ms) ==> Some(ms) == value,
        r matches Err(e) ==> e@ == unresolved(key@),
{
    match value {
        Some(ms) => Ok(ms),
        None => {
            let message = key.to_owned().concat(" has no resolved valid duration");
            Err(
                CoreError::new(
                    ExitClass::State,
                    "SETTINGS_INVALID",
                    message.as_str(),
                    "fix `$WT_HOME/config.toml` and reload settings",
                ),
            )
        },
    }
}

impl Deadlines {
    /// The deadlines of resolved settings; the first setting that resolves to
    /// no duration is refused.
    pub fn from_settings(settings: &GitTimeouts) -> (r: Result<Self, CoreError>)
        ensures
            r is Ok == (settings.query is Some && settings.fetch is Some && settings.clone is Some
                && settings.worktree is Some && settings.submodule is Some),
            r matches Ok(d) ==> {
                &&& Some(d.query) == settings.query
                &&& Some(d.fetch) == settings.fetch
                &&& Some(d.clone) == settings.clone
                &&& Some(d.worktree) == settings.worktree
                &&& Some(d.submodule) == settings.submodule
            },
            r matches Err(e) ==> e@ == unresolved(
                if settings.query is None {
                    "git.timeouts.query"@
                } else if settings.fetch is None {
                    "git.timeouts.fetch"@
                } else if settings.clone is None {
                    "git.timeouts.clone"@
                } else if settings.worktree is None {
                    "git.timeouts.worktree"@
                } else {
                    "git.timeouts.submodule"@
                },
            ),
    {
        let query: u64 = match resolved_duration(settings.query, "git.timeouts.query") {
            Ok(ms) => ms,
            Err(e) => return Err(e),
        };
        let fetch: u64 = match resolved_duration(settings.fetch, "git.timeouts.fetch") {
            Ok(ms) => ms,
            Err(e) => return Err(e),
        };
        let clone: u64 = match resolved_duration(settings.clone, "git.timeouts.clone") {
            Ok(ms) => ms,
            Err(e) => return Err(e),
        };
        let worktree: u64 = match resolved_duration(settings.worktree, "git.timeouts.worktree") {
            Ok(ms) => ms,
            Err(e) => return Err(e),
        };
        let submodule: u64 = match resolved_duration(settings.submodule, "git.timeouts.submodule") {
            Ok(ms) => ms,
            Err(e) => return Err(e),
        };
        Ok(Deadlines { query, fetch, clone, worktree, submodule })
    }

    /// How long a command of a class may take.
    pub open spec fn allowed(self, class: Class) -> u64 {
        match class {
            Class::Query => self.query,
            Class::Fetch => self.fetch,
            Class::Clone => self.clone,
            Class::Worktree => self.worktree,
            Class::Submodule => self.submodule,
        }
    }

    /// The deadline of a class.
    pub fn for_class(self, class: Class) -> (r: u64)
        ensures
            r == self.allowed(class),
    {
        match class {
            Class::Query => self.query,
            Class::Fetch => self.fetch,
            Class::Clone => self.clone,
            Class::Worktree => self.worktree,
            Class::Submodule => self.submodule,
        }
    }
}

// ---------------------------------------------------------------------------
// `git worktree list --porcelain`
// ---------------------------------------------------------------------------

/// A worktree that git lists.
#[derive(Debug)]
pub struct Worktree {
    pub path: String,
    pub head: String,
    pub branch: Option<String>,
    pub bare: bool,
    pub detached: bool,
    pub locked: Option<String>,
    pub prunable: Option<String>,
}

/// What a listed worktree holds.
pub struct Listed {
    pub path: Seq<char>,
    pub head: Seq<char>,
    pub branch: Option<Seq<char>>,
    pub bare: bool,
    pub detached: bool,
    pub locked: Option<Seq<char>>,
    pub prunable: Option<Seq<char>>,
}

impl View for Worktree {
    type V = Listed;

    open spec fn view(&self) -> Listed {
        Listed {
            path: self.path@,
            head: self.head@,
            branch: text::opt(self.branch),
            bare: self.bare,
            detached: self.detached,
            locked: text::opt(self.locked),
            prunable: text::opt(self.prunable),
        }
    }
}

/// What a list of worktrees holds.
pub open spec fn listed(worktrees: Seq<Worktree>) -> Seq<Listed> {
    worktrees.map_values(|w: Worktree| w@)
}

/// A worktree of which only the path is known.
pub open spec fn fresh(path: Seq<char>) -> Listed {
    Listed {
        path,
        head: Seq::<char>::empty(),
        branch: None,
        bare: false,
        detached: false,
        locked: None,
        prunable: None,
    }
}

/// The key and the value of a line, which part at its first space.
pub open spec fn key_value(line: Seq<char>) -> (Seq<char>, Seq<char>) {
    match text::cut(line, ' ') {
        Some(p) => p,
        None => (line, Seq::<char>::empty()),
    }
}

/// The short name of a branch.
pub open spec fn short_branch(value: Seq<char>) -> Seq<char> {
    match text::after(value, "refs/heads/"@) {
        Some(rest) => rest,
        None => value,
    }
}

/// Whether a key is that of a field of a worktree.
pub open spec fn is_field(key: Seq<char>) -> bool {
    key == "HEAD"@ || key == "branch"@ || key == "bare"@ || key == "detached"@ || key == "locked"@
        || key == "prunable"@
}

/// A worktree with one more field.
pub open spec fn with_field(w: Listed, key: Seq<char>, value: Seq<char>) -> Listed {
    if key == "HEAD"@ {
        Listed { head: value, ..w }
    } else if key == "branch"@ {
        Listed { branch: Some(short_branch(value)), ..w }
    } else if key == "bare"@ {
        Listed { bare: true, ..w }
    } else if key == "detached"@ {
        Listed { detached: true, ..w }
    } else if key == "locked"@ {
        Listed { locked: Some(value), ..w }
    } else {
        Listed { prunable: Some(value), ..w }
    }
}

/// What was read: the worktrees that are complete and the one that is not.
pub struct Reading {
    pub done: Seq<Listed>,
    pub current: Option<Listed>,
}

/// Everything that was read, the unfinished worktree last.
pub open spec fn everything(r: Reading) -> Seq<Listed> {
    match r.current {
        Some(w) => r.done.push(w),
        None => r.done,
    }
}

/// What is read after one more line; nothing where a field comes before the
/// path of its worktree.
pub open spec fn absorb(r: Reading, line: Seq<char>) -> Option<Reading> {
    if line.len() == 0 {
        Some(Reading { done: everything(r), current: None })
    } else {
        let (key, value) = key_value(line);
        if key == "worktree"@ {
            Some(Reading { done: everything(r), current: Some(fresh(value)) })
        } else if is_field(key) {
            match r.current {
                Some(w) => Some(Reading { done: r.done, current: Some(with_field(w, key, value)) }),
                None => None,
            }
        } else {
            Some(r)
        }
    }
}

/// What is read of lines; nothing where they are malformed.
pub open spec fn read_lines(lines: Seq<Seq<char>>) -> Option<Reading>
    decreases lines.len(),
{
    if lines.len() == 0 {
        Some(Reading { done: Seq::<Listed>::empty(), current: None })
    } else {
        match read_lines(lines.drop_last()) {
            Some(r) => absorb(r, lines.last()),
            None => None,
        }
    }
}

/// Malformed lines stay malformed however many follow.
pub proof fn lemma_malformed(lines: Seq<Seq<char>>, n: int)
    requires
        0 <= n <= lines.len(),
        read_lines(lines.take(n)) is None,
    ensures
        read_lines(lines) is None,
    decreases lines.len() - n,
{
    if n == lines.len() {
        assert(lines.take(n) =~= lines);
    } else {
        assert(lines.take(n + 1).drop_last() =~= lines.take(n));
        lemma_malformed(lines, n + 1);
    }
}

/// The error of output that is not in its format.
pub fn format_error(message: &str) -> (r: CoreError)
    ensures
        r@ == malformed(message@),
{
    CoreError::new(
        ExitClass::External,
        "GIT_FAILED",
        message,
        "verify the installed git emits standard porcelain output",
    )
}

/// What is wrong with output that is not in its format.
pub open spec fn malformed(message: Seq<char>) -> error::Fault {
    error::fault(
        ExitClass::External,
        "GIT_FAILED"@,
        message,
        "verify the installed git emits standard porcelain output"@,
    )
}

fn split_line(line: &str) -> (r: (String, String))
    ensures
        (r.0@, r.1@) == key_value(line@),
{
    match text::split_once(line, ' ') {
        Some(p) => p,
        None => (line.to_owned(), String::new()),
    }
}

fn short_branch_of(value: &str) -> (r: String)
    ensures
        r@ == short_branch(value@),
{
    match text::strip_prefix(value, "refs/heads/") {
        Some(rest) => rest,
        None => value.to_owned(),
    }
}

fn field_key(key: &str) -> (r: bool)
    ensures
        r == is_field(key@),
{
    text::same(key, "HEAD") || text::same(key, "branch") || text::same(key, "bare") || text::same(
        key,
        "detached",
    ) || text::same(key, "locked") || text::same(key, "prunable")
}

fn set_field(w: Worktree, key: &str, value: String) -> (r: Worktree)
    ensures
        r@ == with_field(w@, key@, value@),
{
    let mut w = w;
    if text::same(key, "HEAD") {
        w.head = value;
    } else if text::same(key, "branch") {
        w.branch = Some(short_branch_of(value.as_str()));
    } else if text::same(key, "bare") {
        w.bare = true;
    } else if text::same(key, "detached") {
        w.detached = true;
    } else if text::same(key, "locked") {
        w.locked = Some(value);
    } else {
        w.prunable = Some(value);
    }
    w
}

/// Parses what `git worktree list --porcelain` prints. Fields that are not
/// known are passed over, and one before its worktree's path is an error.
pub fn parse_worktree_porcelain(input: &str) -> (r: Result<Vec<Worktree>, CoreError>)
    ensures
        r is Ok == (read_lines(text::lines(input@)) is Some),
        r matches Ok(found) ==> listed(found@) == everything(read_lines(text::lines(input@))->0),
        r matches Err(e) ==> e@ == malformed("git worktree field precedes its worktree path"@),
{
    let lines = text::lines_of(input);
    let ghost all = text::lines(input@);
    let mut output: Vec<Worktree> = Vec::new();
    let mut current: Option<Worktree> = None;
    let mut i: usize = 0;
    let ghost mut state = Reading { done: Seq::<Listed>::empty(), current: None };
    proof {
        assert(all.take(0) =~= Seq::<Seq<char>>::empty());
        assert(listed(output@) =~= Seq::<Listed>::empty());
    }
    while i < lines.len()
        invariant
            i <= lines.len(),
            all == text::texts(lines@),
            all == text::lines(input@),
            read_lines(all.take(i as int)) == Some(state),
            listed(output@) == state.done,
            current is Some == state.current is Some,
            current matches Some(w) ==> Some(w@) == state.current,
        decreases lines.len() - i,
    {
        let line = lines[i].as_str();
        let ghost before = state;
        proof {
            assert(all.take(i + 1).drop_last() =~= all.take(i as int));
            assert(all.take(i + 1).last() == line@);
            assert(all.len() == lines@.len());
        }
        if line.is_empty() {
            match current.take() {
                Some(w) => {
                    let ghost held = w@;
                    output.push(w);
                    proof {
                        assert(listed(output@) =~= before.done.push(held));
                    }
                },
                None => {},
            }
            proof {
                state = Reading { done: everything(before), current: None };
            }
        } else {
            let (key, value) = split_line(line);
            if text::same(key.as_str(), "worktree") {
                match current.take() {
                    Some(w) => {
                        let ghost held = w@;
                        output.push(w);
                        proof {
                            assert(listed(output@) =~= before.done.push(held));
                        }
                    },
                    None => {},
                }
                let ghost path = value@;
                let w = Worktree {
                    path: value,
                    head: String::new(),
                    branch: None,
                    bare: false,
                    detached: false,
                    locked: None,
                    prunable: None,
                };
                proof {
                    assert(w@ == fresh(path));
                    state = Reading { done: everything(before), current: Some(fresh(path)) };
                }
                current = Some(w);
            } else if field_key(key.as_str()) {
                match current.take() {
                    Some(w) => {
                        let ghost held = w@;
                        let ghost v = value@;
                        let w2 = set_field(w, key.as_str(), value);
                        proof {
                            state =
                            Reading {
                                done: before.done,
                                current: Some(with_field(held, key@, v)),
                            };
                        }
                        current = Some(w2);
                    },
                    None => {
                        proof {
                            assert(read_lines(all.take(i + 1)) is None);
                            lemma_malformed(all, i + 1);
                        }
                        return Err(format_error("git worktree field precedes its worktree path"));
                    },
                }
            }
        }
        i = i + 1;
    }
    proof {
        assert(all.take(all.len() as int) =~= all);
    }
    match current {
        Some(w) => {
            let ghost held = w@;
            output.push(w);
            proof {
                assert(listed(output@) =~= state.done.push(held));
            }
        },
        None => {},
    }
    Ok(output)
}

/// The lines in which git lists a worktree.
pub open spec fn listing(w: Listed) -> Seq<Seq<char>> {
    let none = Seq::<Seq<char>>::empty();
    seq!["worktree "@ + w.path, "HEAD "@ + w.head] + match w.branch {
        Some(b) => seq!["branch "@ + "refs/heads/"@ + b],
        None => none,
    } + if w.bare {
        seq!["bare"@]
    } else {
        none
    } + if w.detached {
        seq!["detached"@]
    } else {
        none
    } + match w.locked {
        Some(v) => seq!["locked "@ + v],
        None => none,
    } + match w.prunable {
        Some(v) => seq!["prunable "@ + v],
        None => none,
    } + seq![Seq::<char>::empty()]
}

/// The lines in which git lists several worktrees.
pub open spec fn listings(ws: Seq<Listed>) -> Seq<Seq<char>>
    decreases ws.len(),
{
    if ws.len() == 0 {
        Seq::<Seq<char>>::empty()
    } else {
        listings(ws.drop_last()) + listing(ws.last())
    }
}

proof fn lemma_keys()
    ensures
        forall|v: Seq<char>| key_value(#[trigger] ("worktree "@ + v)) == ("worktree"@, v),
        forall|v: Seq<char>| key_value(#[trigger] ("HEAD "@ + v)) == ("HEAD"@, v),
        forall|v: Seq<char>| key_value(#[trigger] ("branch "@ + v)) == ("branch"@, v),
        forall|v: Seq<char>| key_value(#[trigger] ("locked "@ + v)) == ("locked"@, v),
        forall|v: Seq<char>| key_value(#[trigger] ("prunable "@ + v)) == ("prunable"@, v),
        key_value("bare"@) == ("bare"@, Seq::<char>::empty()),
        key_value("detached"@) == ("detached"@, Seq::<char>::empty()),
        "worktree"@ != "HEAD"@,
        "worktree"@ != "branch"@,
        "HEAD"@ != "branch"@,
        "HEAD"@ != "bare"@,
        "branch"@ != "bare"@,
        "HEAD"@ != "detached"@,
        "branch"@ != "detached"@,
        "bare"@ != "detached"@,
        "HEAD"@ != "locked"@,
        "branch"@ != "locked"@,
        "bare"@ != "locked"@,
        "detached"@ != "locked"@,
        "HEAD"@ != "prunable"@,
        "branch"@ != "prunable"@,
        "bare"@ != "prunable"@,
        "detached"@ != "prunable"@,
        "locked"@ != "prunable"@,
        "worktree"@ != "bare"@,
        "worktree"@ != "detached"@,
        "worktree"@ != "locked"@,
        "worktree"@ != "prunable"@,
        "bare"@.len() > 0,
        "detached"@.len() > 0,
{
    reveal_strlit("worktree ");
    reveal_strlit("worktree");
    reveal_strlit("HEAD ");
    reveal_strlit("HEAD");
    reveal_strlit("branch ");
    reveal_strlit("branch");
    reveal_strlit("locked ");
    reveal_strlit("locked");
    reveal_strlit("prunable ");
    reveal_strlit("prunable");
    reveal_strlit("bare");
    reveal_strlit("detached");
    assert forall|v: Seq<char>| key_value(#[trigger] ("worktree "@ + v)) == ("worktree"@, v) by {
        assert("worktree "@ + v =~= "worktree"@ + seq![' '] + v);
        text::lemma_cut("worktree"@, v, ' ');
    }
    assert forall|v: Seq<char>| key_value(#[trigger] ("HEAD "@ + v)) == ("HEAD"@, v) by {
        assert("HEAD "@ + v =~= "HEAD"@ + seq![' '] + v);
        text::lemma_cut("HEAD"@, v, ' ');
    }
    assert forall|v: Seq<char>| key_value(#[trigger] ("branch "@ + v)) == ("branch"@, v) by {
        assert("branch "@ + v =~= "branch"@ + seq![' '] + v);
        text::lemma_cut("branch"@, v, ' ');
    }
    assert forall|v: Seq<char>| key_value(#[trigger] ("locked "@ + v)) == ("locked"@, v) by {
        assert("locked "@ + v =~= "locked"@ + seq![' '] + v);
        text::lemma_cut("locked"@, v, ' ');
    }
    assert forall|v: Seq<char>| key_value(#[trigger] ("prunable "@ + v)) == ("prunable"@, v) by {
        assert("prunable "@ + v =~= "prunable"@ + seq![' '] + v);
        text::lemma_cut("prunable"@, v, ' ');
    }
    text::lemma_no_cut("bare"@, ' ');
    text::lemma_no_cut("detached"@, ' ');
    assert("worktree"@[0] == 'w' && "HEAD"@[0] == 'H' && "branch"@[0] == 'b' && "bare"@[0] == 'b'
        && "detached"@[0] == 'd' && "locked"@[0] == 'l' && "prunable"@[0] == 'p');
    assert("branch"@[1] == 'r' && "bare"@[1] == 'a');
}

proof fn lemma_read_push(lines: Seq<Seq<char>>, line: Seq<char>)
    ensures
        read_lines(lines.push(line)) == match read_lines(lines) {
            Some(r) => absorb(r, line),
            None => None,
        },
{
    assert(lines.push(line).drop_last() =~= lines);
}

proof fn lemma_read_listing(before: Seq<Seq<char>>, done: Seq<Listed>, w: Listed)
    requires
        read_lines(before) == Some(Reading { done, current: None }),
    ensures
        read_lines(before + listing(w)) == Some(Reading { done: done.push(w), current: None }),
{
    lemma_keys();
    let blank = Seq::<char>::empty();
    let l1 = before.push("worktree "@ + w.path);
    let w1 = fresh(w.path);
    reveal_strlit("worktree ");
    reveal_strlit("HEAD ");
    reveal_strlit("branch ");
    reveal_strlit("locked ");
    reveal_strlit("prunable ");
    lemma_read_push(before, "worktree "@ + w.path);
    let l2 = l1.push("HEAD "@ + w.head);
    let w2 = Listed { head: w.head, ..w1 };
    lemma_read_push(l1, "HEAD "@ + w.head);
    assert(read_lines(l2) == Some(Reading { done, current: Some(w2) }));
    let l3 = match w.branch {
        Some(b) => l2.push("branch "@ + "refs/heads/"@ + b),
        None => l2,
    };
    let w3 = Listed { branch: w.branch, ..w2 };
    if let Some(b) = w.branch {
        let v = "refs/heads/"@ + b;
        assert("branch "@ + "refs/heads/"@ + b =~= "branch "@ + v);
        lemma_read_push(l2, "branch "@ + v);
        assert(v.take("refs/heads/"@.len() as int) =~= "refs/heads/"@);
        assert(v.skip("refs/heads/"@.len() as int) =~= b);
        assert(short_branch(v) == b);
    }
    assert(read_lines(l3) == Some(Reading { done, current: Some(w3) }));
    let l4 = if w.bare {
        l3.push("bare"@)
    } else {
        l3
    };
    let w4 = Listed { bare: w.bare, ..w3 };
    lemma_read_push(l3, "bare"@);
    assert(read_lines(l4) == Some(Reading { done, current: Some(w4) }));
    let l5 = if w.detached {
        l4.push("detached"@)
    } else {
        l4
    };
    let w5 = Listed { detached: w.detached, ..w4 };
    lemma_read_push(l4, "detached"@);
    assert(read_lines(l5) == Some(Reading { done, current: Some(w5) }));
    let l6 = match w.locked {
        Some(v) => l5.push("locked "@ + v),
        None => l5,
    };
    let w6 = Listed { locked: w.locked, ..w5 };
    if let Some(v) = w.locked {
        lemma_read_push(l5, "locked "@ + v);
    }
    assert(read_lines(l6) == Some(Reading { done, current: Some(w6) }));
    let l7 = match w.prunable {
        Some(v) => l6.push("prunable "@ + v),
        None => l6,
    };
    if let Some(v) = w.prunable {
        lemma_read_push(l6, "prunable "@ + v);
    }
    assert(read_lines(l7) == Some(Reading { done, current: Some(w) }));
    lemma_read_push(l7, blank);
    assert(l7.push(blank) =~= before + listing(w));
}

/// What git lists is what is read: the lines of any worktrees read back as
/// those worktrees, every field of each, in their order.
pub proof fn listings_read_back(ws: Seq<Listed>)
    ensures
        read_lines(listings(ws)) == Some(Reading { done: ws, current: None }),
    decreases ws.len(),
{
    if ws.len() == 0 {
        assert(ws =~= Seq::<Listed>::empty());
    } else {
        listings_read_back(ws.drop_last());
        lemma_read_listing(listings(ws.drop_last()), ws.drop_last(), ws.last());
        assert(ws.drop_last().push(ws.last()) =~= ws);
    }
}

// ---------------------------------------------------------------------------
// `git status --porcelain=v1 -z`
// ---------------------------------------------------------------------------

/// An entry of git's status.
#[derive(Debug)]
pub struct StatusEntry {
    pub index: char,
    pub worktree: char,
    pub path: Vec<u8>,
    pub original_path: Option<Vec<u8>>,
}

/// What an entry of git's status holds.
pub struct Change {
    pub index: char,
    pub worktree: char,
    pub path: Seq<u8>,
    pub original: Option<Seq<u8>>,
}

impl View for StatusEntry {
    type V = Change;

    open spec fn view(&self) -> Change {
        Change {
            index: self.index,
            worktree: self.worktree,
            path: self.path@,
            original: match self.original_path {
                Some(p) => Some(p@),
                None => None,
            },
        }
    }
}

/// What entries of git's status hold.
pub open spec fn changes(entries: Seq<StatusEntry>) -> Seq<Change> {
    entries.map_values(|e: StatusEntry| e@)
}

/// What is read of a status.
pub enum StatusRead {
    Changes(Seq<Change>),
    Malformed,
    NoOriginal,
}

/// Whether a status letter says that the entry was moved or copied.
pub open spec fn is_move(c: char) -> bool {
    c == 'R' || c == 'C'
}

/// Changes before what is read of the rest.
pub open spec fn prepend(done: Seq<Change>, rest: StatusRead) -> StatusRead {
    match rest {
        StatusRead::Changes(more) => StatusRead::Changes(done + more),
        _ => rest,
    }
}

/// What is read of the fields from `i` on: two letters, a space and a path, and
/// behind a moved entry the path that it had. An empty field ends the list.
pub open spec fn status_from(fields: Seq<Seq<u8>>, i: int) -> StatusRead
    decreases fields.len() - i,
{
    if i < 0 || i >= fields.len() || fields[i].len() == 0 {
        StatusRead::Changes(Seq::<Change>::empty())
    } else {
        let f = fields[i];
        if f.len() < 4 || f[2] != 0x20 {
            StatusRead::Malformed
        } else {
            let x = f[0] as char;
            let y = f[1] as char;
            if is_move(x) || is_move(y) {
                if i + 1 >= fields.len() || fields[i + 1].len() == 0 {
                    StatusRead::NoOriginal
                } else {
                    prepend(
                        seq![
                            Change {
                                index: x,
                                worktree: y,
                                path: f.skip(3),
                                original: Some(fields[i + 1]),
                            },
                        ],
                        status_from(fields, i + 2),
                    )
                }
            } else {
                prepend(
                    seq![Change { index: x, worktree: y, path: f.skip(3), original: None }],
                    status_from(fields, i + 1),
                )
            }
        }
    }
}

fn copy_bytes(bytes: &Vec<u8>, from: usize) -> (r: Vec<u8>)
    requires
        from <= bytes.len(),
    ensures
        r@ == bytes@.skip(from as int),
{
    let mut out: Vec<u8> = Vec::new();
    let mut i: usize = from;
    while i < bytes.len()
        invariant
            from <= i <= bytes.len(),
            out@ == bytes@.subrange(from as int, i as int),
        decreases bytes.len() - i,
    {
        proof {
            assert(bytes@.subrange(from as int, i + 1) =~= bytes@.subrange(
                from as int,
                i as int,
            ).push(bytes@[i as int]));
        }
        out.push(bytes[i]);
        i = i + 1;
    }
    proof {
        assert(bytes@.subrange(from as int, bytes@.len() as int) =~= bytes@.skip(from as int));
    }
    out
}

fn moved(c: char) -> (r: bool)
    ensures
        r == is_move(c),
{
    c == 'R' || c == 'C'
}

/// Parses what `git status --porcelain=v1 -z` prints.
pub fn parse_status_porcelain(input: &[u8]) -> (r: Result<Vec<StatusEntry>, CoreError>)
    ensures
        match status_from(text::split_bytes(input@, 0), 0) {
            StatusRead::Changes(found) => r matches Ok(entries) && changes(entries@) == found,
            StatusRead::Malformed => r matches Err(e) && e@ == malformed(
                "git status porcelain entry is malformed"@,
            ),
            StatusRead::NoOriginal => r matches Err(e) && e@ == malformed(
                "git rename status lacks its original path"@,
            ),
        },
{
    let fields = text::split_bytes_on(input, 0);
    let ghost all = text::byte_texts(fields@);
    let mut index: usize = 0;
    let mut entries: Vec<StatusEntry> = Vec::new();
    proof {
        assert(prepend(changes(entries@), status_from(all, 0)) == status_from(all, 0)) by {
            match status_from(all, 0) {
                StatusRead::Changes(more) => {
                    assert(changes(entries@) + more =~= more);
                },
                _ => {},
            }
        }
    }
    while index < fields.len() && fields[index].len() > 0
        invariant
            index <= fields.len(),
            all == text::byte_texts(fields@),
            all == text::split_bytes(input@, 0),
            all.len() == fields@.len(),
            prepend(changes(entries@), status_from(all, index as int)) == status_from(all, 0),
        decreases fields.len() - index,
    {
        let ghost at = index as int;
        let ghost done = changes(entries@);
        proof {
            assert(all[at] == fields@[at]@);
        }
        let field = &fields[index];
        if field.len() < 4 || field[2] != 0x20 {
            return Err(format_error("git status porcelain entry is malformed"));
        }
        let x: char = field[0] as char;
        let y: char = field[1] as char;
        let path = copy_bytes(field, 3);
        let ghost p = path@;
        index = index + 1;
        let original: Option<Vec<u8>> = if moved(x) || moved(y) {
            if index >= fields.len() || fields[index].len() == 0 {
                proof {
                    if index < fields.len() {
                        assert(all[index as int] == fields@[index as int]@);
                    }
                }
                return Err(format_error("git rename status lacks its original path"));
            }
            proof {
                assert(all[index as int] == fields@[index as int]@);
            }
            let from = copy_bytes(&fields[index], 0);
            proof {
                assert(from@ =~= all[index as int]);
            }
            index = index + 1;
            Some(from)
        } else {
            None
        };
        let entry = StatusEntry { index: x, worktree: y, path, original_path: original };
        let ghost one = entry@;
        entries.push(entry);
        proof {
            assert(changes(entries@) =~= done + seq![one]);
            let rest = status_from(all, index as int);
            assert(status_from(all, at) == prepend(seq![one], rest));
            match rest {
                StatusRead::Changes(more) => {
                    assert(done + (seq![one] + more) =~= (done + seq![one]) + more);
                },
                _ => {},
            }
        }
    }
    proof {
        if index < fields@.len() {
            assert(all[index as int] == fields@[index as int]@);
        }
        assert(changes(entries@) + Seq::<Change>::empty() =~= changes(entries@));
    }
    Ok(entries)
}

/// Whether an entry is one that git prints: it has a path, and the path that it
/// had exactly where it was moved or copied.
pub open spec fn printable(c: Change) -> bool {
    &&& (c.index as u32) < 256
    &&& (c.worktree as u32) < 256
    &&& c.path.len() > 0
    &&& (c.original is Some) == (is_move(c.index) || is_move(c.worktree))
    &&& (c.original matches Some(from) ==> from.len() > 0)
}

/// The fields in which git prints an entry.
pub open spec fn printed(c: Change) -> Seq<Seq<u8>> {
    let first = seq![(c.index as u32) as u8, (c.worktree as u32) as u8, 0x20u8] + c.path;
    match c.original {
        Some(from) => seq![first, from],
        None => seq![first],
    }
}

/// The fields in which git prints entries.
pub open spec fn printed_all(cs: Seq<Change>) -> Seq<Seq<u8>>
    decreases cs.len(),
{
    if cs.len() == 0 {
        seq![Seq::<u8>::empty()]
    } else {
        printed(cs[0]) + printed_all(cs.skip(1))
    }
}

proof fn lemma_status_shift(a: Seq<Seq<u8>>, b: Seq<Seq<u8>>, i: int)
    requires
        0 <= i,
    ensures
        status_from(a + b, a.len() + i) == status_from(b, i),
    decreases b.len() - i,
{
    if i < b.len() {
        assert((a + b)[a.len() + i] == b[i]);
        if i + 1 < b.len() {
            assert((a + b)[a.len() + i + 1] == b[i + 1]);
            lemma_status_shift(a, b, i + 2);
        }
        lemma_status_shift(a, b, i + 1);
    }
}

proof fn lemma_letter(c: char)
    requires
        (c as u32) < 256,
    ensures
        ((c as u32) as u8) as char == c,
{
}

/// What git prints of a status is what is read: the fields of any entries read
/// back as those entries, in their order.
pub proof fn statuses_read_back(cs: Seq<Change>)
    requires
        forall|i: int| 0 <= i < cs.len() ==> printable(#[trigger] cs[i]),
    ensures
        status_from(printed_all(cs), 0) == StatusRead::Changes(cs),
    decreases cs.len(),
{
    if cs.len() == 0 {
        assert(cs =~= Seq::<Change>::empty());
    } else {
        let c = cs[0];
        let rest = cs.skip(1);
        assert forall|i: int| 0 <= i < rest.len() implies printable(#[trigger] rest[i]) by {
            assert(rest[i] == cs[i + 1]);
        }
        statuses_read_back(rest);
        let a = printed(c);
        let b = printed_all(rest);
        let all = printed_all(cs);
        assert(all == a + b);
        lemma_status_shift(a, b, 0);
        lemma_letter(c.index);
        lemma_letter(c.worktree);
        let f = all[0];
        assert(f == a[0]);
        assert(f[0] as char == c.index && f[1] as char == c.worktree && f[2] == 0x20);
        assert(f.skip(3) =~= c.path);
        if c.original is Some {
            assert(all[1] == a[1]);
            assert(a.len() == 2);
        } else {
            assert(a.len() == 1);
        }
        assert(seq![c] + rest =~= cs);
    }
}

// ---------------------------------------------------------------------------
// Answers
// ---------------------------------------------------------------------------

/// The text of what git printed, without the white space at its end.
pub open spec fn printed_text(bytes: Seq<u8>) -> Seq<char> {
    text::trim_end(text::utf8_lossy(bytes))
}

/// The text of what git printed.
pub fn text(bytes: &[u8]) -> (r: String)
    ensures
        r@ == printed_text(bytes@),
{
    let all = text::lossy(bytes);
    text::trimmed_end(all.as_str())
}

/// The lines of what git printed.
pub fn lines(bytes: &[u8]) -> (r: Vec<String>)
    ensures
        text::texts(r@) == text::lines(text::utf8_lossy(bytes@)),
{
    let all = text::lossy(bytes);
    text::lines_of(all.as_str())
}

/// What is wrong with a git command that failed.
pub open spec fn failure(class: Class, args: Seq<Seq<char>>, output: ProcessOutput) -> error::Fault {
    error::fault(
        ExitClass::External,
        if class == Class::Fetch {
            "FETCH_FAILED"@
        } else {
            "GIT_FAILED"@
        },
        "git "@ + text::join(args, " "@) + " failed with status "@ + text::signed_decimal(
            output.child.mapped(),
        ) + ": "@ + text::trim(text::utf8_lossy(output.stderr@)),
        "inspect git's error, fix the repository or remote, and retry"@,
    )
}

/// The error of a git command that failed.
pub fn command_failed(class: Class, args: &Vec<String>, output: &ProcessOutput) -> (r: CoreError)
    requires
        output.child.valid(),
    ensures
        r@ == failure(class, text::texts(args@), *output),
{
    let code = match class {
        Class::Fetch => "FETCH_FAILED",
        _ => "GIT_FAILED",
    };
    let said = text::lossy(output.stderr.as_slice());
    let said = text::trimmed(said.as_str());
    let joined = text::join_with(args, " ");
    let status = text::signed_decimal_of(output.mapped_exit() as i64);
    let message = "git ".to_owned().concat(joined.as_str()).concat(" failed with status ").concat(
        status.as_str(),
    ).concat(": ").concat(said.as_str());
    CoreError::new(
        ExitClass::External,
        code,
        message.as_str(),
        "inspect git's error, fix the repository or remote, and retry",
    )
}

fn class_text(class: Class) -> (r: String)
    ensures
        r@ == class_name(class),
{
    match class {
        Class::Query => "Query".to_owned(),
        Class::Fetch => "Fetch".to_owned(),
        Class::Clone => "Clone".to_owned(),
        Class::Worktree => "Worktree".to_owned(),
        Class::Submodule => "Submodule".to_owned(),
    }
}

/// Takes the output of a command that ended well and in time; else the error.
pub fn ensure_success(class: Class, args: &Vec<String>, output: ProcessOutput) -> (r: Result<
    ProcessOutput,
    CoreError,
>)
    requires
        output.child.valid(),
    ensures
        r is Ok == output.succeeded(),
        r matches Ok(o) ==> o == output,
        r matches Err(e) ==> e@ == if output.timed_out {
            error::fault(
                ExitClass::Timeout,
                "TIMEOUT"@,
                "git "@ + class_name(class) + " command timed out"@,
                "retry the operation or raise the matching git timeout"@,
            )
        } else {
            failure(class, text::texts(args@), output)
        },
{
    if output.timed_out {
        let name = class_text(class);
        let message = "git ".to_owned().concat(name.as_str()).concat(" command timed out");
        return Err(
            CoreError::new(
                ExitClass::Timeout,
                "TIMEOUT",
                message.as_str(),
                "retry the operation or raise the matching git timeout",
            ),
        );
    }
    if !output.success() {
        return Err(command_failed(class, args, &output));
    }
    Ok(output)
}

/// Reads a query that prints an answer, has none (status 1), or fails: a
/// branch, an address or a commit.
pub fn optional_answer(output: &ProcessOutput) -> (r: Result<Option<String>, CoreError>)
    requires
        output.child.valid(),
    ensures
        r is Ok == (output.child.code == Some(0i32) || output.child.code == Some(1i32)),
        r matches Ok(answer) ==> text::opt(answer) == if output.child.code == Some(0i32) {
            Some(printed_text(output.stdout@))
        } else {
            None
        },
        r matches Err(e) ==> e@ == failure(Class::Query, Seq::<Seq<char>>::empty(), *output),
{
    let code: i32 = match output.child.code {
        Some(code) => code,
        None => -1,
    };
    if code == 0 {
        Ok(Some(text(output.stdout.as_slice())))
    } else if code == 1 {
        Ok(None)
    } else {
        let none: Vec<String> = Vec::new();
        proof {
            assert(text::texts(none@) =~= Seq::<Seq<char>>::empty());
        }
        Err(command_failed(Class::Query, &none, output))
    }
}

/// Reads a query that says yes (status 0) or no (status 1), or fails: whether a
/// ref exists or a commit is an ancestor.
pub fn yes_or_no(output: &ProcessOutput) -> (r: Result<bool, CoreError>)
    requires
        output.child.valid(),
    ensures
        r is Ok == (output.child.code == Some(0i32) || output.child.code == Some(1i32)),
        r matches Ok(yes) ==> yes == (output.child.code == Some(0i32)),
        r matches Err(e) ==> e@ == failure(Class::Query, Seq::<Seq<char>>::empty(), *output),
{
    match optional_answer(output) {
        Ok(answer) => Ok(answer.is_some()),
        Err(e) => Err(e),
    }
}

/// What is wrong with a count that git printed.
pub open spec fn bad_count(context: Seq<char>, value: Seq<char>) -> error::Fault {
    error::fault(
        ExitClass::External,
        "GIT_FAILED"@,
        "could not parse git "@ + context + ": "@ + text::number_fault(value),
        "verify the installed git emits standard machine-readable output"@,
    )
}

fn parse_error(context: &str, value: &str) -> (r: CoreError)
    ensures
        r@ == bad_count(context@, value@),
{
    let why = text::why_no_number(value);
    let message = "could not parse git ".to_owned().concat(context).concat(": ").concat(
        why.as_str(),
    );
    CoreError::new(
        ExitClass::External,
        "GIT_FAILED",
        message.as_str(),
        "verify the installed git emits standard machine-readable output",
    )
}

/// A count that git printed.
pub fn count_answer(value: &str) -> (r: Result<u64, CoreError>)
    ensures
        r is Ok == (text::parse_natural(value@, u64::MAX as nat) is Some),
        r matches Ok(n) ==> text::parse_natural(value@, u64::MAX as nat) == Some(n as nat),
        r matches Err(e) ==> e@ == bad_count("rev-list count"@, value@),
{
    match text::parse_number(value, u64::MAX) {
        Some(n) => Ok(n),
        None => Err(parse_error("rev-list count", value)),
    }
}

/// How far two commits are apart.
#[derive(Clone, Copy, Debug, PartialEq, Eq, Structural)]
pub struct AheadBehind {
    pub ahead: u64,
    pub behind: u64,
}

/// The word at a position, or nothing where there are fewer.
pub open spec fn word_at(value: Seq<char>, i: int) -> Seq<char> {
    if i < text::words(value).len() {
        text::words(value)[i]
    } else {
        Seq::<char>::empty()
    }
}

fn nth_word(words: &Vec<String>, i: usize) -> (r: String)
    ensures
        r@ == if i < words@.len() {
            words@[i as int]@
        } else {
            Seq::<char>::empty()
        },
{
    if i < words.len() {
        words[i].clone()
    } else {
        String::new()
    }
}

/// Reads the two counts of `git rev-list --left-right --count`.
pub fn ahead_behind_answer(value: &str) -> (r: Result<AheadBehind, CoreError>)
    ensures
        r is Ok == (text::parse_natural(word_at(value@, 0), u64::MAX as nat) is Some
            && text::parse_natural(word_at(value@, 1), u64::MAX as nat) is Some),
        r matches Ok(c) ==> {
            &&& text::parse_natural(word_at(value@, 0), u64::MAX as nat) == Some(c.ahead as nat)
            &&& text::parse_natural(word_at(value@, 1), u64::MAX as nat) == Some(c.behind as nat)
        },
        r matches Err(e) ==> e@ == if text::parse_natural(word_at(value@, 0), u64::MAX as nat)
            is None {
            bad_count("ahead count"@, word_at(value@, 0))
        } else {
            bad_count("behind count"@, word_at(value@, 1))
        },
{
    let words = text::words_of(value);
    proof {
        assert(text::words(value@).len() == words@.len());
    }
    let left = nth_word(&words, 0);
    let right = nth_word(&words, 1);
    proof {
        assert(left@ =~= word_at(value@, 0));
        assert(right@ =~= word_at(value@, 1));
    }
    match text::parse_number(left.as_str(), u64::MAX) {
        None => Err(parse_error("ahead count", left.as_str())),
        Some(ahead) => match text::parse_number(right.as_str(), u64::MAX) {
            None => Err(parse_error("behind count", right.as_str())),
            Some(behind) => Ok(AheadBehind { ahead, behind }),
        },
    }
}

/// The first word that begins with a digit, or nothing.
pub open spec fn version_word(words: Seq<Seq<char>>) -> Seq<char>
    decreases words.len(),
{
    if words.len() == 0 {
        Seq::<char>::empty()
    } else if words[0].len() > 0 && text::is_digit(words[0][0]) {
        words[0]
    } else {
        version_word(words.skip(1))
    }
}

/// The number that a part of a version says, or 0 where it says none.
pub open spec fn version_part(part: Option<Seq<char>>) -> nat {
    match part {
        Some(p) => match text::parse_natural(p, u32::MAX as nat) {
            Some(n) => n,
            None => 0,
        },
        None => 0,
    }
}

/// The piece at a position.
pub open spec fn piece(pieces: Seq<Seq<char>>, i: int) -> Option<Seq<char>> {
    if i < pieces.len() {
        Some(pieces[i])
    } else {
        None
    }
}

/// The version that a text says: the parts of its first word that begins with a
/// digit, the third only up to a dash.
pub open spec fn version_of(value: Seq<char>) -> (nat, nat, nat) {
    let parts = text::split(version_word(text::words(value)), '.');
    (
        version_part(piece(parts, 0)),
        version_part(piece(parts, 1)),
        version_part(
            match piece(parts, 2) {
                Some(p) => Some(text::split(p, '-')[0]),
                None => None,
            },
        ),
    )
}

fn part_number(parts: &Vec<String>, i: usize) -> (r: u32)
    ensures
        r == version_part(piece(text::texts(parts@), i as int)),
{
    proof {
        assert(text::texts(parts@).len() == parts@.len());
    }
    if i < parts.len() {
        proof {
            assert(text::texts(parts@)[i as int] == parts@[i as int]@);
        }
        match text::parse_number(parts[i].as_str(), 0xffff_ffff) {
            Some(n) => n as u32,
            None => 0,
        }
    } else {
        0
    }
}

/// Reads the version that git printed.
pub fn version_answer(value: &str) -> (r: (u32, u32, u32))
    ensures
        (r.0 as nat, r.1 as nat, r.2 as nat) == version_of(value@),
{
    let words = text::words_of(value);
    let ghost all = text::words(value@);
    let mut found = String::new();
    let mut i: usize = 0;
    let mut looking = true;
    proof {
        assert(all.skip(0) =~= all);
    }
    while i < words.len() && looking
        invariant
            i <= words.len(),
            all == text::texts(words@),
            all.len() == words@.len(),
            looking ==> found@.len() == 0 && version_word(all) == version_word(all.skip(i as int)),
            !looking ==> found@ == version_word(all),
        decreases words.len() - i,
    {
        let a = text::chars_of(words[i].as_str());
        proof {
            assert(all.skip(i as int)[0] == words@[i as int]@);
            assert(all.skip(i as int).skip(1) =~= all.skip(i + 1));
        }
        if a.len() > 0 && text::digit(a[0]) {
            found = words[i].clone();
            looking = false;
        }
        i = i + 1;
    }
    proof {
        if looking {
            assert(found@ =~= Seq::<char>::empty());
        }
    }
    let parts = text::split_on(found.as_str(), '.');
    let ghost pieces = text::texts(parts@);
    let major: u32 = part_number(&parts, 0);
    let minor: u32 = part_number(&parts, 1);
    proof {
        assert(pieces.len() == parts@.len());
    }
    let patch: u32 = if parts.len() > 2 {
        proof {
            assert(pieces[2] == parts@[2]@);
        }
        let third = text::split_on(parts[2].as_str(), '-');
        part_number(&third, 0)
    } else {
        0
    };
    (major, minor, patch)
}

// ---------------------------------------------------------------------------
// Command lines
// ---------------------------------------------------------------------------

/// A git command: what it does, where it runs, and its arguments.
#[derive(Debug)]
pub struct Call {
    pub class: Class,
    pub cwd: String,
    pub args: Vec<String>,
}

/// What a git command is.
#[verifier::ext_equal]
pub struct Asked {
    pub class: Class,
    pub cwd: Seq<char>,
    pub args: Seq<Seq<char>>,
}

impl View for Call {
    type V = Asked;

    open spec fn view(&self) -> Asked {
        Asked { class: self.class, cwd: self.cwd@, args: text::texts(self.args@) }
    }
}

/// A git command with the given arguments.
pub open spec fn asked(class: Class, cwd: Seq<char>, args: Seq<Seq<char>>) -> Asked {
    Asked { class, cwd, args }
}

/// A worktree to add: of a branch that exists, of a branch to make, or of no
/// branch.
#[derive(Debug)]
pub enum AddSpec {
    ExistingBranch(String),
    NewBranch { name: String, start: String, track: bool },
    Detached { start: String },
}

/// A repository and the git that serves it.
#[derive(Debug)]
pub struct Git {
    pub repo: String,
    pub program: String,
    pub deadlines: Deadlines,
}

fn call(class: Class, cwd: &str, args: proc::Args) -> (r: Call)
    ensures
        r@ == asked(class, cwd@, args@),
{
    Call { class, cwd: cwd.to_owned(), args: args.list }
}

/// The variables that git must not have from its caller.
pub open spec fn cleared() -> Seq<Seq<char>> {
    seq!["GIT_DIR"@, "GIT_WORK_TREE"@, "GIT_INDEX_FILE"@, "GIT_COMMON_DIR"@]
}

fn git_environment_to_clear() -> (r: Vec<String>)
    ensures
        text::texts(r@) == cleared(),
{
    proc::Args::none().and("GIT_DIR").and("GIT_WORK_TREE").and("GIT_INDEX_FILE").and(
        "GIT_COMMON_DIR",
    ).list
}

/// Whether an environment sets exactly the given variables.
pub open spec fn sets(env: Map<Seq<char>, String>, values: Map<Seq<char>, Seq<char>>) -> bool {
    &&& env.dom() =~= values.dom()
    &&& forall|k: Seq<char>| values.contains_key(k) ==> (#[trigger] env[k])@ == values[k]
}

/// The variables that every git command is given: no prompt, and messages that
/// do not depend on the locale.
pub open spec fn plain_env() -> Map<Seq<char>, Seq<char>> {
    map!["GIT_TERMINAL_PROMPT"@ => "0"@, "LC_ALL"@ => "C"@]
}

/// The variables that a command of a class is given: paths mean themselves, and a
/// query takes no lock that it can do without.
pub open spec fn class_env(class: Class) -> Map<Seq<char>, Seq<char>> {
    let all = plain_env().insert("GIT_LITERAL_PATHSPECS"@, "1"@);
    if class == Class::Query {
        all.insert("GIT_OPTIONAL_LOCKS"@, "0"@)
    } else {
        all
    }
}

fn plain_environment() -> (r: Assoc<String>)
    ensures
        r.wf(),
        sets(r@, plain_env()),
{
    let mut env: Assoc<String> = Assoc::new();
    env.put("GIT_TERMINAL_PROMPT", "0".to_owned());
    env.put("LC_ALL", "C".to_owned());
    env
}

/// The request for `git clone`.
pub fn clone(program: &str, url: &str, path: &str) -> (r: CommandRequest)
    ensures
        r.program@ == program@,
        text::texts(r.args@) == seq!["clone"@, "--"@, url@, path@],
        r.cwd is None,
        r.env.wf(),
        sets(r.env@, plain_env()),
        text::texts(r.remove_env@) == cleared(),
        !r.clear_env,
{
    let mut request = CommandRequest::new(program);
    request.args = proc::Args::none().and("clone").and("--").and(url).and(path).list;
    request.env = plain_environment();
    request.remove_env = git_environment_to_clear();
    request
}

/// The request for `git --version`.
pub fn version_request(program: &str) -> (r: CommandRequest)
    ensures
        r.program@ == program@,
        text::texts(r.args@) == seq!["--version"@],
        r.cwd is None,
        r.env.wf(),
        sets(r.env@, map!["LC_ALL"@ => "C"@]),
        r.remove_env@.len() == 0,
        !r.clear_env,
{
    let mut request = CommandRequest::new(program);
    request.args = proc::Args::none().and("--version").list;
    let mut env: Assoc<String> = Assoc::new();
    env.put("LC_ALL", "C".to_owned());
    request.env = env;
    request
}

/// The arguments that add a worktree.
pub open spec fn add_args(path: Seq<char>, spec: AddSpec) -> Seq<Seq<char>> {
    match spec {
        AddSpec::ExistingBranch(branch) => seq!["worktree"@, "add"@, path, branch@],
        AddSpec::NewBranch { name, start, track } => if track {
            seq!["worktree"@, "add"@, "-b"@, name@, path, start@]
        } else {
            seq!["worktree"@, "add"@, "-b"@, name@, "--no-track"@, path, start@]
        },
        AddSpec::Detached { start } => seq!["worktree"@, "add"@, "--detach"@, path, start@],
    }
}

/// The paths of those that are present.
pub open spec fn those_present(paths: Seq<Seq<char>>, present: Seq<bool>) -> Seq<Seq<char>>
    decreases paths.len(),
{
    if paths.len() == 0 || paths.len() != present.len() {
        Seq::<Seq<char>>::empty()
    } else {
        let rest = those_present(paths.drop_last(), present.drop_last());
        if present.last() {
            rest.push(paths.last())
        } else {
            rest
        }
    }
}

impl Git {
    /// A repository, with the git of the search path. No command runs.
    pub fn open(repo: &str, deadlines: Deadlines) -> (r: Self)
        ensures
            r.repo@ == repo@,
            r.program@ == "git"@,
            r.deadlines == deadlines,
    {
        Self::open_with_program(repo, "git", deadlines)
    }

    /// A repository, with another git. No command runs.
    pub fn open_with_program(repo: &str, program: &str, deadlines: Deadlines) -> (r: Self)
        ensures
            r.repo@ == repo@,
            r.program@ == program@,
            r.deadlines == deadlines,
    {
        Git { repo: repo.to_owned(), program: program.to_owned(), deadlines }
    }

    /// How to run a command.
    pub fn request(&self, call: &Call) -> (r: CommandRequest)
        ensures
            r.program@ == self.program@,
            text::texts(r.args@) == call@.args,
            text::opt(r.cwd) == Some(call.cwd@),
            r.env.wf(),
            sets(r.env@, class_env(call.class)),
            text::texts(r.remove_env@) == cleared(),
            !r.clear_env,
    {
        let mut env = plain_environment();
        env.put("GIT_LITERAL_PATHSPECS", "1".to_owned());
        if call.class == Class::Query {
            env.put("GIT_OPTIONAL_LOCKS", "0".to_owned());
        }
        CommandRequest {
            program: self.program.clone(),
            args: proc::copy_texts(&call.args),
            cwd: Some(call.cwd.clone()),
            env,
            remove_env: git_environment_to_clear(),
            clear_env: false,
        }
    }

    /// How long, in milliseconds, a command may take.
    pub fn deadline(&self, call: &Call) -> (r: u64)
        ensures
            r == self.deadlines.allowed(call.class),
    {
        self.deadlines.for_class(call.class)
    }

    /// Asks whether the repository is a worktree.
    pub fn open_validated(&self) -> (r: Call)
        ensures
            r@ == asked(Class::Query, self.repo@, seq!["rev-parse"@, "--is-inside-work-tree"@]),
    {
        call(Class::Query, self.repo.as_str(), proc::Args::none().and("rev-parse").and("--is-inside-work-tree"))
    }

    /// Asks for the common git directory.
    pub fn common_dir(&self) -> (r: Call)
        ensures
            r@ == asked(Class::Query, self.repo@, seq!["rev-parse"@, "--git-common-dir"@]),
    {
        call(Class::Query, self.repo.as_str(), proc::Args::none().and("rev-parse").and("--git-common-dir"))
    }

    /// Asks for the root of the worktree.
    pub fn toplevel(&self) -> (r: Call)
        ensures
            r@ == asked(Class::Query, self.repo@, seq!["rev-parse"@, "--show-toplevel"@]),
    {
        call(Class::Query, self.repo.as_str(), proc::Args::none().and("rev-parse").and("--show-toplevel"))
    }

    /// Asks for the list of worktrees.
    pub fn worktrees(&self) -> (r: Call)
        ensures
            r@ == asked(Class::Query, self.repo@, seq!["worktree"@, "list"@, "--porcelain"@]),
    {
        call(Class::Query, self.repo.as_str(), proc::Args::none().and("worktree").and("list").and("--porcelain"))
    }

    /// Prunes worktrees that are gone.
    pub fn worktree_prune(&self) -> (r: Call)
        ensures
            r@ == asked(Class::Worktree, self.repo@, seq!["worktree"@, "prune"@]),
    {
        call(Class::Worktree, self.repo.as_str(), proc::Args::none().and("worktree").and("prune"))
    }

    /// Fetches one refspec.
    pub fn fetch(&self, remote: &str, refspec: &str) -> (r: Call)
        ensures
            r@ == asked(Class::Fetch, self.repo@, seq!["fetch"@, remote@, refspec@]),
    {
        call(Class::Fetch, self.repo.as_str(), proc::Args::none().and("fetch").and(remote).and(refspec))
    }

    /// Fetches the branches of origin. No local branch changes.
    pub fn fetch_origin_branches(&self) -> (r: Call)
        ensures
            r@ == asked(Class::Fetch, self.repo@, seq!["fetch"@, "origin"@, "+refs/heads/*:refs/remotes/origin/*"@]),
    {
        call(Class::Fetch, self.repo.as_str(), proc::Args::none().and("fetch").and("origin").and("+refs/heads/*:refs/remotes/origin/*"))
    }

    /// Updates the submodules.
    pub fn submodule_update(&self) -> (r: Call)
        ensures
            r@ == asked(Class::Submodule, self.repo@, seq!["submodule"@, "update"@, "--init"@, "--recursive"@]),
    {
        call(Class::Submodule, self.repo.as_str(), proc::Args::none().and("submodule").and("update").and("--init").and("--recursive"))
    }

    /// Counts the commits of a range.
    pub fn rev_list_count(&self, range: &str) -> (r: Call)
        ensures
            r@ == asked(Class::Query, self.repo@, seq!["rev-list"@, "--count"@, range@]),
    {
        call(Class::Query, self.repo.as_str(), proc::Args::none().and("rev-list").and("--count").and(range))
    }

    /// Asks for the address of origin.
    pub fn origin_url(&self) -> (r: Call)
        ensures
            r@ == asked(Class::Query, self.repo@, seq!["config"@, "--get"@, "remote.origin.url"@]),
    {
        call(Class::Query, self.repo.as_str(), proc::Args::none().and("config").and("--get").and("remote.origin.url"))
    }

    /// Asks whether a ref exists.
    pub fn ref_exists(&self, reference: &str) -> (r: Call)
        ensures
            r@ == asked(Class::Query, self.repo@, seq!["rev-parse"@, "--verify"@, "--quiet"@, reference@]),
    {
        call(Class::Query, self.repo.as_str(), proc::Args::none().and("rev-parse").and("--verify").and("--quiet").and(reference))
    }

    /// Asks for the commit at HEAD.
    pub fn head_oid(&self) -> (r: Call)
        ensures
            r@ == asked(Class::Query, self.repo@, seq!["rev-parse"@, "HEAD"@]),
    {
        call(Class::Query, self.repo.as_str(), proc::Args::none().and("rev-parse").and("HEAD"))
    }

    /// Asks whether a commit is an ancestor of another.
    pub fn is_ancestor(&self, ancestor: &str, descendant: &str) -> (r: Call)
        ensures
            r@ == asked(Class::Query, self.repo@, seq!["merge-base"@, "--is-ancestor"@, ancestor@, descendant@]),
    {
        call(Class::Query, self.repo.as_str(), proc::Args::none().and("merge-base").and("--is-ancestor").and(ancestor).and(descendant))
    }

    /// Asks for the remote branches that hold a commit.
    pub fn remote_branches_containing(&self, revision: &str) -> (r: Call)
        ensures
            r@ == asked(Class::Query, self.repo@, seq!["branch"@, "-r"@, "--format=%(refname:short)"@, "--contains"@, revision@]),
    {
        call(Class::Query, self.repo.as_str(), proc::Args::none().and("branch").and("-r").and("--format=%(refname:short)").and("--contains").and(revision))
    }

    /// Asks for the branch at origin's HEAD.
    pub fn origin_head(&self) -> (r: Call)
        ensures
            r@ == asked(Class::Query, self.repo@, seq!["symbolic-ref"@, "-q"@, "--short"@, "refs/remotes/origin/HEAD"@]),
    {
        call(Class::Query, self.repo.as_str(), proc::Args::none().and("symbolic-ref").and("-q").and("--short").and("refs/remotes/origin/HEAD"))
    }

    /// Asks for the status of a tree, with its untracked files.
    pub fn status_porcelain(&self, tree: &str) -> (r: Call)
        ensures
            r@ == asked(Class::Query, tree@, seq!["status"@, "--porcelain=v1"@, "-z"@, "--untracked-files=normal"@]),
    {
        call(Class::Query, tree, proc::Args::none().and("status").and("--porcelain=v1").and("-z").and("--untracked-files=normal"))
    }

    /// Asks for the branch of a tree.
    pub fn head_branch(&self, tree: &str) -> (r: Call)
        ensures
            r@ == asked(Class::Query, tree@, seq!["symbolic-ref"@, "--short"@, "-q"@, "HEAD"@]),
    {
        call(Class::Query, tree, proc::Args::none().and("symbolic-ref").and("--short").and("-q").and("HEAD"))
    }

    /// Counts the commits by which each of two is ahead.
    pub fn ahead_behind(&self, left: &str, right: &str) -> (r: Call)
        ensures
            r@ == asked(
                Class::Query,
                self.repo@,
                seq!["rev-list"@, "--left-right"@, "--count"@, left@ + "..."@ + right@],
            ),
    {
        let last = left.to_owned().concat("...").concat(right);
        call(Class::Query, self.repo.as_str(), proc::Args::none().and("rev-list").and("--left-right").and("--count").and(last.as_str()))
    }

    /// Asks for the commit that a revision names.
    pub fn resolve_commit(&self, revision: &str) -> (r: Call)
        ensures
            r@ == asked(
                Class::Query,
                self.repo@,
                seq!["rev-parse"@, "--verify"@, "--quiet"@, revision@ + "^{commit}"@],
            ),
    {
        let last = revision.to_owned().concat("^{commit}");
        call(Class::Query, self.repo.as_str(), proc::Args::none().and("rev-parse").and("--verify").and("--quiet").and(last.as_str()))
    }

    /// Asks for the upstream of a branch.
    pub fn upstream(&self, branch: &str) -> (r: Call)
        ensures
            r@ == asked(
                Class::Query,
                self.repo@,
                seq!["for-each-ref"@, "--format=%(upstream:short)"@, "refs/heads/"@ + branch@],
            ),
    {
        let last = "refs/heads/".to_owned().concat(branch);
        call(Class::Query, self.repo.as_str(), proc::Args::none().and("for-each-ref").and("--format=%(upstream:short)").and(last.as_str()))
    }

    /// Asks how a branch stands to its upstream.
    pub fn upstream_track(&self, branch: &str) -> (r: Call)
        ensures
            r@ == asked(
                Class::Query,
                self.repo@,
                seq!["for-each-ref"@, "--format=%(upstream:track)"@, "refs/heads/"@ + branch@],
            ),
    {
        let last = "refs/heads/".to_owned().concat(branch);
        call(Class::Query, self.repo.as_str(), proc::Args::none().and("for-each-ref").and("--format=%(upstream:track)").and(last.as_str()))
    }

    /// Adds a worktree.
    pub fn worktree_add(&self, path: &str, spec: &AddSpec) -> (r: Call)
        ensures
            r@ == asked(Class::Worktree, self.repo@, add_args(path@, *spec)),
    {
        let args = proc::Args::none().and("worktree").and("add");
        let args = match spec {
            AddSpec::ExistingBranch(branch) => args.and(path).and(branch.as_str()),
            AddSpec::NewBranch { name, start, track } => {
                let args = args.and("-b").and(name.as_str());
                let args = if *track {
                    args
                } else {
                    args.and("--no-track")
                };
                args.and(path).and(start.as_str())
            },
            AddSpec::Detached { start } => args.and("--detach").and(path).and(start.as_str()),
        };
        call(Class::Worktree, self.repo.as_str(), args)
    }

    /// Removes a worktree.
    pub fn worktree_remove(&self, path: &str, force: bool) -> (r: Call)
        ensures
            r@ == asked(
                Class::Worktree,
                self.repo@,
                if force {
                    seq!["worktree"@, "remove"@, "--force"@, path@]
                } else {
                    seq!["worktree"@, "remove"@, path@]
                },
            ),
    {
        let args = proc::Args::none().and("worktree").and("remove");
        let args = if force {
            args.and("--force")
        } else {
            args
        };
        call(Class::Worktree, self.repo.as_str(), args.and(path))
    }

    /// Repairs the links of worktrees.
    pub fn worktree_repair(&self, paths: &Vec<String>) -> (r: Call)
        ensures
            r@ == asked(
                Class::Worktree,
                self.repo@,
                seq!["worktree"@, "repair"@] + text::texts(paths@),
            ),
    {
        let args = proc::Args::none().and("worktree").and("repair").and_all(paths);
        call(Class::Worktree, self.repo.as_str(), args)
    }

    /// Deletes a branch; with `force` also one that is not merged.
    pub fn branch_delete(&self, branch: &str, force: bool) -> (r: Call)
        ensures
            r@ == asked(
                Class::Worktree,
                self.repo@,
                seq![
                    "branch"@,
                    if force {
                        "-D"@
                    } else {
                        "-d"@
                    },
                    branch@,
                ],
            ),
    {
        let flag = if force {
            "-D"
        } else {
            "-d"
        };
        call(
            Class::Worktree,
            self.repo.as_str(),
            proc::Args::none().and("branch").and(flag).and(branch),
        )
    }

    /// Asks which of the paths are tracked in a tree.
    pub fn tracked_paths(&self, tree: &str, paths: &Vec<String>) -> (r: Call)
        ensures
            r@ == asked(
                Class::Query,
                tree@,
                seq!["ls-files"@, "-z"@, "--"@] + text::texts(paths@),
            ),
    {
        let args = proc::Args::none().and("ls-files").and("-z").and("--").and_all(paths);
        call(Class::Query, tree, args)
    }

    /// Asks for the files that differ between the merge base of two commits and
    /// the second, among the given paths where there are any.
    pub fn diff_name_only(&self, left: &str, right: &str, paths: &Vec<String>) -> (r: Call)
        ensures
            r@ == asked(
                Class::Query,
                self.repo@,
                seq!["diff"@, "--name-only"@, "-z"@, left@ + "..."@ + right@, "--"@] + text::texts(
                    paths@,
                ),
            ),
    {
        let range = left.to_owned().concat("...").concat(right);
        let args = proc::Args::none().and("diff").and("--name-only").and("-z").and(
            range.as_str(),
        ).and("--").and_all(paths);
        call(Class::Query, self.repo.as_str(), args)
    }

    /// Asks for the hashes of those of the paths that are present; nothing is
    /// asked where none is.
    pub fn hash_object(&self, paths: &Vec<String>, present: &Vec<bool>) -> (r: Option<Call>)
        requires
            paths@.len() == present@.len(),
        ensures
            r is None == (those_present(text::texts(paths@), present@).len() == 0),
            r matches Some(c) ==> c@ == asked(
                Class::Query,
                self.repo@,
                seq!["hash-object"@, "--"@] + those_present(text::texts(paths@), present@),
            ),
    {
        let ghost all = text::texts(paths@);
        let mut some: Vec<String> = Vec::new();
        let mut i: usize = 0;
        proof {
            assert(text::texts(some@) =~= Seq::<Seq<char>>::empty());
        }
        while i < paths.len()
            invariant
                i <= paths.len(),
                paths@.len() == present@.len(),
                all == text::texts(paths@),
                text::texts(some@) == those_present(all.take(i as int), present@.take(i as int)),
            decreases paths.len() - i,
        {
            let ghost prior = text::texts(some@);
            proof {
                assert(all.take(i + 1).drop_last() =~= all.take(i as int));
                assert(present@.take(i + 1).drop_last() =~= present@.take(i as int));
            }
            if present[i] {
                some.push(paths[i].clone());
                proof {
                    assert(text::texts(some@) =~= prior.push(all[i as int]));
                }
            }
            i = i + 1;
        }
        proof {
            assert(all.take(paths@.len() as int) =~= all);
            assert(present@.take(paths@.len() as int) =~= present@);
            assert(text::texts(some@).len() == some@.len());
        }
        if some.len() == 0 {
            return None;
        }
        let args = proc::Args::none().and("hash-object").and("--").and_all(&some);
        Some(call(Class::Query, self.repo.as_str(), args))
    }
}

// ---------------------------------------------------------------------------
// Answers to particular commands
// ---------------------------------------------------------------------------

/// Whether the answer says that the repository is a worktree; else the error.
pub fn validated(repo: &str, output: &ProcessOutput) -> (r: Result<(), CoreError>)
    ensures
        r is Ok == (printed_text(output.stdout@) == "true"@),
        r matches Err(e) ==> e@ == error::fault(
            ExitClass::State,
            "NOT_A_WORKTREE"@,
            repo@ + " is not a git worktree"@,
            "choose a path inside a git worktree"@,
        ),
{
    let said = text(output.stdout.as_slice());
    if text::same(said.as_str(), "true") {
        Ok(())
    } else {
        let message = repo.to_owned().concat(" is not a git worktree");
        Err(
            CoreError::new(
                ExitClass::State,
                "NOT_A_WORKTREE",
                message.as_str(),
                "choose a path inside a git worktree",
            ),
        )
    }
}

/// The directory that git named, below the repository where it is relative.
pub fn common_dir_answer(repo: &str, output: &ProcessOutput) -> (r: String)
    ensures
        r@ == path::joined(repo@, printed_text(output.stdout@)),
{
    let said = text(output.stdout.as_slice());
    path::join(repo, said.as_str())
}

/// The upstream that git named, if any.
pub fn upstream_answer(output: &ProcessOutput) -> (r: Option<String>)
    ensures
        text::opt(r) == if printed_text(output.stdout@).len() > 0 {
            Some(printed_text(output.stdout@))
        } else {
            None
        },
{
    let said = text(output.stdout.as_slice());
    if said.as_str().unicode_len() > 0 {
        Some(said)
    } else {
        None
    }
}

/// The non-empty ones.
pub open spec fn filled(parts: Seq<Seq<u8>>) -> Seq<Seq<u8>>
    decreases parts.len(),
{
    if parts.len() == 0 {
        Seq::<Seq<u8>>::empty()
    } else if parts.last().len() > 0 {
        filled(parts.drop_last()).push(parts.last())
    } else {
        filled(parts.drop_last())
    }
}

/// The pieces of a path that name something, of bytes: empty ones do not, nor does `.`
/// but at the front of a relative path.
pub open spec fn named_bytes(pieces: Seq<Seq<u8>>, from_root: bool) -> Seq<Seq<u8>>
    decreases pieces.len(),
{
    if pieces.len() == 0 {
        Seq::<Seq<u8>>::empty()
    } else {
        let init = named_bytes(pieces.drop_last(), from_root);
        let last = pieces.last();
        if last.len() == 0 || (last == seq![46u8] && (from_root || pieces.len() > 1)) {
            init
        } else {
            init.push(last)
        }
    }
}

/// How a component of a path is sorted, of bytes: the current directory before the
/// parent, and names after both, by their bytes.
pub open spec fn byte_rank(part: Seq<u8>) -> Seq<int> {
    if part == seq![46u8] {
        seq![1int]
    } else if part == seq![46u8, 46u8] {
        seq![2int]
    } else {
        seq![3int] + part.map_values(|b: u8| b as int)
    }
}

/// A path of bytes as a key to sort by: its components, the root before all others.
pub open spec fn byte_key(p: Seq<u8>) -> Seq<Seq<int>> {
    let from_root = p.len() > 0 && p[0] == 47;
    let parts = named_bytes(text::split_bytes(p, 47), from_root).map_values(
        |part: Seq<u8>| byte_rank(part),
    );
    if from_root {
        seq![seq![0int]] + parts
    } else {
        parts
    }
}

/// A path as git printed it.
#[derive(Debug)]
pub struct BytePath {
    pub bytes: Vec<u8>,
}

fn is_dot(part: &Vec<u8>) -> (r: bool)
    ensures
        r == (part@ == seq![46u8]),
{
    let r = part.len() == 1 && part[0] == 46;
    proof {
        if r {
            assert(part@ =~= seq![46u8]);
        }
        if part@ == seq![46u8] {
            assert(part@[0] == 46u8);
        }
    }
    r
}

fn rank_of(part: &Vec<u8>) -> (r: Vec<u64>)
    ensures
        order::part_view(r@) == byte_rank(part@),
{
    if is_dot(part) {
        return order::number_part(1);
    }
    let up = part.len() == 2 && part[0] == 46 && part[1] == 46;
    proof {
        if up {
            assert(part@ =~= seq![46u8, 46u8]);
        }
        if part@ == seq![46u8, 46u8] {
            assert(part@[0] == 46u8 && part@[1] == 46u8);
        }
    }
    if up {
        return order::number_part(2);
    }
    let mut out = order::number_part(3);
    let ghost want = seq![3int] + part@.map_values(|b: u8| b as int);
    let mut i: usize = 0;
    proof {
        assert(order::part_view(out@) =~= want.take(1));
    }
    while i < part.len()
        invariant
            i <= part@.len(),
            want == seq![3int] + part@.map_values(|b: u8| b as int),
            order::part_view(out@) == want.take(i + 1),
        decreases part@.len() - i,
    {
        let ghost prior = order::part_view(out@);
        out.push(part[i] as u64);
        proof {
            assert(order::part_view(out@) =~= prior.push(part@[i as int] as int));
            assert(want.take(i + 2) =~= want.take(i + 1).push(want[i + 1]));
        }
        i = i + 1;
    }
    proof {
        assert(want.take(want.len() as int) =~= want);
    }
    out
}

impl Keyed for BytePath {
    open spec fn key(&self) -> Seq<Seq<int>> {
        byte_key(self.bytes@)
    }

    fn sort_key(&self) -> (r: Vec<Vec<u64>>) {
        let from_root = self.bytes.len() > 0 && self.bytes[0] == 47;
        let pieces = text::split_bytes_on(self.bytes.as_slice(), 47);
        let ghost all = text::byte_texts(pieces@);
        let ghost head: Seq<Seq<int>> = if from_root {
            seq![seq![0int]]
        } else {
            Seq::<Seq<int>>::empty()
        };
        let mut out: Vec<Vec<u64>> = Vec::new();
        if from_root {
            out.push(order::number_part(0));
        }
        let mut i: usize = 0;
        proof {
            assert(order::key_view(out@) =~= head + named_bytes(all.take(0), from_root).map_values(
                |part: Seq<u8>| byte_rank(part),
            ));
        }
        while i < pieces.len()
            invariant
                i <= pieces@.len(),
                all == text::byte_texts(pieces@),
                all.len() == pieces@.len(),
                order::key_view(out@) == head + named_bytes(
                    all.take(i as int),
                    from_root,
                ).map_values(|part: Seq<u8>| byte_rank(part)),
            decreases pieces@.len() - i,
        {
            let ghost prior = order::key_view(out@);
            let ghost done = named_bytes(all.take(i as int), from_root);
            proof {
                assert(all.take(i + 1).drop_last() =~= all.take(i as int));
                assert(all.take(i + 1).last() == pieces@[i as int]@);
            }
            let skip = pieces[i].len() == 0 || (is_dot(&pieces[i]) && (from_root || i > 0));
            if !skip {
                let one = rank_of(&pieces[i]);
                let ghost k = order::part_view(one@);
                out.push(one);
                proof {
                    assert(order::key_view(out@) =~= prior.push(k));
                    let now = done.push(pieces@[i as int]@);
                    assert(now.map_values(|part: Seq<u8>| byte_rank(part)) =~= done.map_values(
                        |part: Seq<u8>| byte_rank(part),
                    ).push(k));
                    assert(order::key_view(out@) =~= head + now.map_values(
                        |part: Seq<u8>| byte_rank(part),
                    ));
                }
            }
            i = i + 1;
        }
        proof {
            assert(all.take(all.len() as int) =~= all);
            assert(order::key_view(out@) =~= byte_key(self.bytes@));
        }
        out
    }
}

/// What paths hold.
pub open spec fn path_bytes(paths: Seq<BytePath>) -> Seq<Seq<u8>> {
    paths.map_values(|p: BytePath| p.bytes@)
}

/// Whether paths are those of a list, in their order and without repeats: each is of
/// the list, each comes after the one before it, and each of the list is there, as far
/// as paths with the same components are the same.
pub open spec fn path_set(paths: Seq<Seq<u8>>, listed: Seq<Seq<u8>>) -> bool {
    &&& forall|i: int, j: int|
        0 <= i < j < paths.len() ==> {
            &&& order::key_le(byte_key(#[trigger] paths[i]), byte_key(#[trigger] paths[j]))
            &&& byte_key(paths[i]) != byte_key(paths[j])
        }
    &&& forall|i: int| 0 <= i < paths.len() ==> listed.contains(#[trigger] paths[i])
    &&& forall|k: int|
        0 <= k < listed.len() ==> exists|i: int|
            0 <= i < paths.len() && byte_key(#[trigger] paths[i]) == byte_key(#[trigger] listed[k])
}

/// The paths that git tracks, of those that it was asked for, in their order and
/// without repeats: it lists an unmerged one once for each of its stages.
pub fn tracked_set(stdout: &[u8]) -> (r: Vec<BytePath>)
    ensures
        path_set(path_bytes(r@), filled(text::split_bytes(stdout@, 0))),
{
    let listed = path_list(stdout);
    let ghost all = text::byte_texts(listed@);
    let mut back = listed;
    let mut items: Vec<BytePath> = Vec::new();
    while back.len() > 0
        invariant
            back@.len() + items@.len() == all.len(),
            text::byte_texts(back@) == all.take(back@.len() as int),
            forall|k: int|
                0 <= k < items@.len() ==> (#[trigger] items@[k]).bytes@ == all[all.len() - 1 - k],
        decreases back@.len(),
    {
        let ghost n = back@.len() as int;
        let ghost was = text::byte_texts(back@);
        if let Some(bytes) = back.pop() {
            proof {
                assert(was[n - 1] == bytes@);
                assert(text::byte_texts(back@) =~= all.take(n - 1));
            }
            items.push(BytePath { bytes });
        }
    }
    let ghost given = items@;
    let mut left = order::sort(items);
    let ghost sorted = left@;
    proof {
        order::sorting_orders_and_keeps(given);
    }
    let mut out: Vec<BytePath> = Vec::new();
    while left.len() > 0
        invariant
            left@.len() <= sorted.len(),
            left@ == sorted.take(left@.len() as int),
            order::in_order(sorted),
            forall|i: int, j: int|
                0 <= i < j < out@.len() ==> {
                    &&& order::key_le((#[trigger] out@[j]).key(), (#[trigger] out@[i]).key())
                    &&& out@[i].key() != out@[j].key()
                },
            forall|i: int|
                0 <= i < out@.len() ==> exists|k: int|
                    left@.len() <= k < sorted.len() && (#[trigger] out@[i]) == #[trigger] sorted[k],
            forall|k: int|
                left@.len() <= k < sorted.len() ==> exists|i: int|
                    0 <= i < out@.len() && (#[trigger] out@[i]).key() == (
                    #[trigger] sorted[k]).key(),
        decreases left@.len(),
    {
        let ghost n = left@.len() as int;
        let ghost before = out@;
        if let Some(one) = left.pop() {
            let ghost x = one;
            proof {
                assert(x == sorted[n - 1]);
                assert(left@ =~= sorted.take(n - 1));
            }
            let fresh = if out.len() == 0 {
                true
            } else {
                let mine = one.sort_key();
                let last = out[out.len() - 1].sort_key();
                !order::key_not_after(&last, &mine)
            };
            proof {
                assert forall|i: int| 0 <= i < before.len() implies order::key_le(
                    x.key(),
                    (#[trigger] before[i]).key(),
                ) by {
                    let k = choose|k: int|
                        n <= k < sorted.len() && before[i] == #[trigger] sorted[k];
                    assert(order::key_le(sorted[n - 1].key(), sorted[k].key()));
                }
                if before.len() > 0 {
                    let l = before[before.len() - 1];
                    order::key_order(x.key(), l.key(), x.key());
                    order::key_order(l.key(), x.key(), l.key());
                }
            }
            if fresh {
                out.push(one);
                proof {
                    assert forall|i: int, j: int| 0 <= i < j < out@.len() implies {
                        &&& order::key_le((#[trigger] out@[j]).key(), (#[trigger] out@[i]).key())
                        &&& out@[i].key() != out@[j].key()
                    } by {
                        if j == before.len() {
                            let l = before[before.len() - 1];
                            assert(order::key_le(x.key(), before[i].key()));
                            if i < before.len() - 1 {
                                assert(order::key_le(l.key(), before[i].key()));
                                if before[i].key() == x.key() {
                                    order::key_order(l.key(), x.key(), l.key());
                                    assert(order::key_le(l.key(), x.key()));
                                }
                            }
                        }
                    }
                    assert forall|i: int| 0 <= i < out@.len() implies exists|k: int|
                        n - 1 <= k < sorted.len() && (#[trigger] out@[i]) == #[trigger] sorted[k] by {
                        if i < before.len() {
                            let k = choose|k: int|
                                n <= k < sorted.len() && before[i] == #[trigger] sorted[k];
                            assert(out@[i] == sorted[k]);
                        } else {
                            assert(out@[i] == sorted[n - 1]);
                        }
                    }
                }
            }
            proof {
                assert forall|k: int| n - 1 <= k < sorted.len() implies exists|i: int|
                    0 <= i < out@.len() && (#[trigger] out@[i]).key() == (
                    #[trigger] sorted[k]).key() by {
                    if k == n - 1 {
                        assert(out@[out@.len() - 1].key() == x.key());
                    } else {
                        let i = choose|i: int|
                            0 <= i < before.len() && (#[trigger] before[i]).key() == sorted[k].key();
                        assert(out@[i] == before[i]);
                    }
                }
            }
        }
    }
    let ghost falling = out@;
    let r = turned(out);
    proof {
        let paths = path_bytes(r@);
        let m = falling.len() as int;
        assert forall|i: int, j: int| 0 <= i < j < paths.len() implies {
            &&& order::key_le(byte_key(#[trigger] paths[i]), byte_key(#[trigger] paths[j]))
            &&& byte_key(paths[i]) != byte_key(paths[j])
        } by {
            assert(r@[i] == falling[m - 1 - i]);
            assert(r@[j] == falling[m - 1 - j]);
        }
        assert forall|i: int| 0 <= i < paths.len() implies all.contains(#[trigger] paths[i]) by {
            let k = choose|k: int|
                0 <= k < sorted.len() && falling[m - 1 - i] == #[trigger] sorted[k];
            order::sorted_from(given, k);
            let g = choose|g: int| 0 <= g < given.len() && given[g] == sorted[k];
            assert(all[all.len() - 1 - g] == paths[i]);
        }
        assert forall|k: int| 0 <= k < all.len() implies exists|i: int|
            0 <= i < paths.len() && byte_key(#[trigger] paths[i]) == byte_key(
                #[trigger] all[k],
            ) by {
            let g = given[all.len() - 1 - k];
            given.to_multiset_ensures();
            sorted.to_multiset_ensures();
            assert(given.contains(g));
            assert(given.to_multiset().count(g) > 0);
            assert(sorted.contains(g));
            let at = choose|at: int| 0 <= at < sorted.len() && sorted[at] == g;
            let i = choose|i: int|
                0 <= i < falling.len() && (#[trigger] falling[i]).key() == sorted[at].key();
            assert(r@[m - 1 - i] == falling[i]);
            assert(byte_key(paths[m - 1 - i]) == byte_key(all[k]));
        }
    }
    r
}

fn turned(items: Vec<BytePath>) -> (r: Vec<BytePath>)
    ensures
        r@ == items@.reverse(),
{
    let ghost all = items@;
    let mut left = items;
    let mut out: Vec<BytePath> = Vec::new();
    while left.len() > 0
        invariant
            left@.len() <= all.len(),
            left@ == all.take(left@.len() as int),
            out@ == all.skip(left@.len() as int).reverse(),
        decreases left@.len(),
    {
        let ghost n = left@.len() as int;
        if let Some(one) = left.pop() {
            let ghost x = one;
            out.push(one);
            proof {
                assert(left@ =~= all.take(n - 1));
                assert(all.skip(n - 1) =~= seq![x] + all.skip(n));
                assert(out@ =~= all.skip(n - 1).reverse());
            }
        }
    }
    proof {
        assert(all.skip(0) =~= all);
    }
    out
}

/// The paths that git listed, each ended by a zero byte.
pub fn path_list(stdout: &[u8]) -> (r: Vec<Vec<u8>>)
    ensures
        text::byte_texts(r@) == filled(text::split_bytes(stdout@, 0)),
{
    let parts = text::split_bytes_on(stdout, 0);
    let ghost all = text::byte_texts(parts@);
    let mut out: Vec<Vec<u8>> = Vec::new();
    let mut i: usize = 0;
    proof {
        assert(text::byte_texts(out@) =~= Seq::<Seq<u8>>::empty());
    }
    while i < parts.len()
        invariant
            i <= parts.len(),
            all == text::byte_texts(parts@),
            all.len() == parts@.len(),
            text::byte_texts(out@) == filled(all.take(i as int)),
        decreases parts.len() - i,
    {
        let ghost prior = text::byte_texts(out@);
        proof {
            assert(all.take(i + 1).drop_last() =~= all.take(i as int));
            assert(all.take(i + 1).last() == parts@[i as int]@);
        }
        if parts[i].len() > 0 {
            let copy = copy_bytes(&parts[i], 0);
            proof {
                assert(copy@ =~= parts@[i as int]@);
            }
            out.push(copy);
            proof {
                assert(text::byte_texts(out@) =~= prior.push(parts@[i as int]@));
            }
        }
        i = i + 1;
    }
    proof {
        assert(all.take(parts@.len() as int) =~= all);
    }
    out
}

/// How many of the first `n` are present.
pub open spec fn present_before(present: Seq<bool>, n: int) -> nat
    decreases n,
{
    if n <= 0 {
        0
    } else if present[n - 1] {
        present_before(present, n - 1) + 1
    } else {
        present_before(present, n - 1)
    }
}

/// The hash of each path: the next one of git's for a path that is present, and
/// a stand-in for one that is not.
pub open spec fn hashed(present: Seq<bool>, hashes: Seq<Seq<char>>) -> Seq<Seq<char>> {
    Seq::new(
        present.len(),
        |i: int|
            if present[i] {
                hashes[present_before(present, i) as int]
            } else {
                "<missing>"@
            },
    )
}

proof fn lemma_present_grows(present: Seq<bool>, a: int, b: int)
    requires
        0 <= a <= b,
    ensures
        present_before(present, a) <= present_before(present, b),
    decreases b,
{
    if a < b {
        lemma_present_grows(present, a, b - 1);
    }
}

/// Gives each path its hash. The paths that are absent need none of git's
/// hashes; git must have printed one for each of the others.
pub fn hash_answer(present: &Vec<bool>, hashes: &Vec<String>) -> (r: Result<
    Vec<String>,
    CoreError,
>)
    ensures
        r is Ok == (present_before(present@, present@.len() as int) == 0 || present_before(
            present@,
            present@.len() as int,
        ) == hashes@.len()),
        r matches Ok(all) ==> text::texts(all@) == hashed(present@, text::texts(hashes@)),
        r matches Err(e) ==> e@ == malformed(
            "git hash-object returned a different number of hashes than inputs"@,
        ),
{
    let len: usize = present.len();
    let mut count: usize = 0;
    let mut i: usize = 0;
    while i < len
        invariant
            i <= len,
            len == present@.len(),
            count <= i,
            count == present_before(present@, i as int),
        decreases len - i,
    {
        if present[i] {
            count = count + 1;
        }
        i = i + 1;
    }
    if count != 0 && count != hashes.len() {
        return Err(
            format_error("git hash-object returned a different number of hashes than inputs"),
        );
    }
    let mut out: Vec<String> = Vec::new();
    let mut next: usize = 0;
    let mut k: usize = 0;
    let ghost want = hashed(present@, text::texts(hashes@));
    proof {
        assert(text::texts(out@) =~= want.take(0));
    }
    while k < len
        invariant
            k <= len,
            len == present@.len(),
            count == present_before(present@, len as int),
            count == 0 || count == hashes@.len(),
            next == present_before(present@, k as int),
            next <= k,
            want == hashed(present@, text::texts(hashes@)),
            text::texts(out@) == want.take(k as int),
        decreases len - k,
    {
        let ghost prior = text::texts(out@);
        if present[k] {
            proof {
                lemma_present_grows(present@, k + 1, len as int);
            }
            out.push(hashes[next].clone());
            next = next + 1;
        } else {
            out.push("<missing>".to_owned());
        }
        proof {
            assert(text::texts(out@) =~= prior.push(want[k as int]));
            assert(want.take(k + 1) =~= want.take(k as int).push(want[k as int]));
        }
        k = k + 1;
    }
    proof {
        assert(want.take(len as int) =~= want);
    }
    Ok(out)
}

/// The branches that are tried where origin names no default.
pub open spec fn usual_branches() -> Seq<Seq<char>> {
    seq!["main"@, "master"@, "trunk"@]
}

/// What to do about the default branch.
#[derive(Debug)]
pub enum BranchStep {
    Ask(String),
    AskHead,
    Is(String),
}

/// What a step is about.
pub enum BranchMove {
    Ask(Seq<char>),
    AskHead,
    Is(Seq<char>),
}

impl View for BranchStep {
    type V = BranchMove;

    open spec fn view(&self) -> BranchMove {
        match self {
            BranchStep::Ask(reference) => BranchMove::Ask(reference@),
            BranchStep::AskHead => BranchMove::AskHead,
            BranchStep::Is(branch) => BranchMove::Is(branch@),
        }
    }
}

/// The branch that origin's answer names.
pub open spec fn origin_default(origin: ProcessOutput) -> Option<Seq<char>> {
    if origin.child.code == Some(0i32) {
        text::after(printed_text(origin.stdout@), "origin/"@)
    } else {
        None
    }
}

/// The first position that is true.
pub open spec fn first_true(answers: Seq<bool>, from: int) -> Option<int>
    decreases answers.len() - from,
{
    if from < 0 || from >= answers.len() {
        None
    } else if answers[from] {
        Some(from)
    } else {
        first_true(answers, from + 1)
    }
}

/// The default branch as far as it is known: the one at origin's HEAD; else the
/// first of the usual ones that exists; else the one at HEAD; else `main`.
pub open spec fn default_of(
    origin: ProcessOutput,
    exist: Seq<bool>,
    head: Option<Option<Seq<char>>>,
) -> BranchMove {
    match origin_default(origin) {
        Some(branch) => BranchMove::Is(branch),
        None => match first_true(exist, 0) {
            Some(i) => BranchMove::Is(usual_branches()[i]),
            None => if exist.len() < 3 {
                BranchMove::Ask("refs/heads/"@ + usual_branches()[exist.len() as int])
            } else {
                match head {
                    None => BranchMove::AskHead,
                    Some(Some(branch)) => BranchMove::Is(branch),
                    Some(None) => BranchMove::Is("main"@),
                }
            },
        },
    }
}

fn usual_branch(i: usize) -> (r: &'static str)
    requires
        i < 3,
    ensures
        r@ == usual_branches()[i as int],
{
    if i == 0 {
        "main"
    } else if i == 1 {
        "master"
    } else {
        "trunk"
    }
}

/// Takes the next step to the default branch: `exist` holds the answers so far to
/// whether the usual branches exist, `head` the branch at HEAD once it was asked
/// for.
pub fn default_branch(
    origin: &ProcessOutput,
    exist: &Vec<bool>,
    head: &Option<Option<String>>,
) -> (r: BranchStep)
    requires
        exist@.len() <= 3,
    ensures
        r@ == default_of(
            *origin,
            exist@,
            match *head {
                None => None,
                Some(branch) => Some(text::opt(branch)),
            },
        ),
{
    if let Some(code) = origin.child.code {
        if code == 0 {
            let said = text(origin.stdout.as_slice());
            if let Some(branch) = text::strip_prefix(said.as_str(), "origin/") {
                return BranchStep::Is(branch);
            }
        }
    }
    let mut i: usize = 0;
    while i < exist.len()
        invariant
            i <= exist.len(),
            exist@.len() <= 3,
            origin_default(*origin) is None,
            first_true(exist@, 0) == first_true(exist@, i as int),
        decreases exist.len() - i,
    {
        if exist[i] {
            return BranchStep::Is(usual_branch(i).to_owned());
        }
        i = i + 1;
    }
    if exist.len() < 3 {
        return BranchStep::Ask("refs/heads/".to_owned().concat(usual_branch(exist.len())));
    }
    match head {
        None => BranchStep::AskHead,
        Some(Some(branch)) => BranchStep::Is(branch.clone()),
        Some(None) => BranchStep::Is("main".to_owned()),
    }
}

/// The first worktree that holds a branch.
pub open spec fn holder_of(worktrees: Seq<Listed>, branch: Seq<char>, from: int) -> Option<
    Seq<char>,
>
    decreases worktrees.len() - from,
{
    if from < 0 || from >= worktrees.len() {
        None
    } else if worktrees[from].branch == Some(branch) {
        Some(worktrees[from].path)
    } else {
        holder_of(worktrees, branch, from + 1)
    }
}

/// The path of the worktree that holds a branch, if any.
pub fn branch_holder(worktrees: &Vec<Worktree>, branch: &str) -> (r: Option<String>)
    ensures
        text::opt(r) == holder_of(listed(worktrees@), branch@, 0),
{
    let ghost all = listed(worktrees@);
    let mut i: usize = 0;
    while i < worktrees.len()
        invariant
            i <= worktrees.len(),
            all == listed(worktrees@),
            all.len() == worktrees@.len(),
            holder_of(all, branch@, 0) == holder_of(all, branch@, i as int),
        decreases worktrees.len() - i,
    {
        proof {
            assert(all[i as int] == worktrees@[i as int]@);
        }
        if let Some(held) = &worktrees[i].branch {
            if text::same(held.as_str(), branch) {
                return Some(worktrees[i].path.clone());
            }
        }
        i = i + 1;
    }
    None
}

/// What to do about a pull request that is to be fetched: `mappings` holds, in
/// the order in which they are tried, what to fetch and where it goes.
#[derive(Debug)]
pub enum PullStep {
    Fetch { refspec: String, destination: String },
    GiveUp,
}

/// The next fetch of a pull request after so many have failed. The first that
/// succeeds names where the request went; after the last the error of the last
/// stands.
pub fn fetch_pull_request(mappings: &Vec<(String, String)>, failed: usize) -> (r: PullStep)
    ensures
        match r {
            PullStep::Fetch { refspec, destination } => {
                &&& failed < mappings@.len()
                &&& refspec@ == "+"@ + mappings@[failed as int].0@ + ":"@
                    + mappings@[failed as int].1@
                &&& destination@ == mappings@[failed as int].1@
            },
            PullStep::GiveUp => failed >= mappings@.len(),
        },
{
    if failed < mappings.len() {
        let refspec = "+".to_owned().concat(mappings[failed].0.as_str()).concat(":").concat(
            mappings[failed].1.as_str(),
        );
        PullStep::Fetch { refspec, destination: mappings[failed].1.clone() }
    } else {
        PullStep::GiveUp
    }
}

/// The error of a git that did not run: one that could not be started is a
/// failure of git, any other stands as it is.
pub fn not_run(error: &CoreError) -> (r: CoreError)
    ensures
        r@ == if error@.code == "SPAWN_FAILED"@ {
            error::fault(
                ExitClass::External,
                "GIT_FAILED"@,
                "could not spawn git: "@ + error@.message,
                "install git and verify that it is executable"@,
            )
        } else {
            error@
        },
{
    if text::same(error.code.as_str(), "SPAWN_FAILED") {
        let message = "could not spawn git: ".to_owned().concat(error.message.as_str());
        CoreError::new(
            ExitClass::External,
            "GIT_FAILED",
            message.as_str(),
            "install git and verify that it is executable",
        )
    } else {
        error.copy()
    }
}

/// The error of a path that git named and that cannot be read.
pub fn git_io(context: &str, why: &str) -> (r: CoreError)
    ensures
        r@ == error::fault(
            ExitClass::Internal,
            "IO_FAILED"@,
            context@ + ": "@ + why@,
            "retry the operation and inspect repository permissions if it repeats"@,
        ),
{
    let message = context.to_owned().concat(": ").concat(why);
    CoreError::new(
        ExitClass::Internal,
        "IO_FAILED",
        message.as_str(),
        "retry the operation and inspect repository permissions if it repeats",
    )
}

/// The first answer that is yes is found, and none only where all are no.
pub proof fn the_first_yes_is_found(answers: Seq<bool>, from: int)
    requires
        0 <= from,
    ensures
        match first_true(answers, from) {
            Some(i) => from <= i < answers.len() && answers[i] && forall|k: int|
                from <= k < i ==> !#[trigger] answers[k],
            None => forall|k: int| from <= k < answers.len() ==> !#[trigger] answers[k],
        },
    decreases answers.len() - from,
{
    if from < answers.len() && !answers[from] {
        the_first_yes_is_found(answers, from + 1);
    }
}

/// The default branch is what origin says; where it says nothing, the first of the usual
/// ones that is there, each of which is asked about until one is; and only where none of
/// them is, the one that is checked out.
pub proof fn how_the_default_branch_is_found(
    origin: ProcessOutput,
    exist: Seq<bool>,
    head: Option<Option<Seq<char>>>,
    branch: Seq<char>,
)
    requires
        exist.len() <= 3,
    ensures
        origin.child.code == Some(0i32) && printed_text(origin.stdout@) == "origin/"@ + branch
            ==> default_of(origin, exist, head) == BranchMove::Is(branch),
        origin.child.code != Some(0i32) ==> {
            let found = default_of(origin, exist, head);
            let none = forall|k: int| 0 <= k < exist.len() ==> !#[trigger] exist[k];
            &&& exist.len() > 0 && exist[0] ==> found == BranchMove::Is("main"@)
            &&& exist.len() > 1 && !exist[0] && exist[1] ==> found == BranchMove::Is("master"@)
            &&& exist.len() > 2 && !exist[0] && !exist[1] && exist[2] ==> found == BranchMove::Is(
                "trunk"@,
            )
            &&& exist.len() == 0 ==> found == BranchMove::Ask("refs/heads/"@ + "main"@)
            &&& none && exist.len() == 1 ==> found == BranchMove::Ask("refs/heads/"@ + "master"@)
            &&& none && exist.len() == 2 ==> found == BranchMove::Ask("refs/heads/"@ + "trunk"@)
            &&& none && exist.len() == 3 ==> found == (match head {
                None => BranchMove::AskHead,
                Some(Some(b)) => BranchMove::Is(b),
                Some(None) => BranchMove::Is("main"@),
            })
        },
{
    the_first_yes_is_found(exist, 0);
    let said = "origin/"@ + branch;
    assert(said.take("origin/"@.len() as int) =~= "origin/"@);
    assert(said.skip("origin/"@.len() as int) =~= branch);
}

/// Who has a branch checked out is found wherever there is one, and it is the first.
pub proof fn the_holder_of_a_branch_is_found(worktrees: Seq<Listed>, branch: Seq<char>, from: int)
    requires
        0 <= from,
    ensures
        match holder_of(worktrees, branch, from) {
            Some(p) => exists|i: int|
                from <= i < worktrees.len() && (#[trigger] worktrees[i]).branch == Some(branch)
                    && worktrees[i].path == p,
            None => forall|i: int|
                from <= i < worktrees.len() ==> (#[trigger] worktrees[i]).branch != Some(branch),
        },
    decreases worktrees.len() - from,
{
    if from < worktrees.len() && worktrees[from].branch != Some(branch) {
        the_holder_of_a_branch_is_found(worktrees, branch, from + 1);
    }
}

/// A worktree is added at its path: from a branch that is there by its name, and else from
/// where it starts, which comes last; a new branch tracks nothing unless it is told to, and
/// without a branch it is detached.
pub proof fn what_git_is_told_to_add(path: Seq<char>, spec: AddSpec)
    ensures
        ({
            let args = add_args(path, spec);
            &&& args[0] == "worktree"@ && args[1] == "add"@
            &&& args.last() == (match spec {
                AddSpec::ExistingBranch(branch) => branch@,
                AddSpec::NewBranch { name, start, track } => start@,
                AddSpec::Detached { start } => start@,
            })
            &&& args[args.len() - 2] == path
            &&& spec matches AddSpec::NewBranch { name, start, track } ==> args[2] == "-b"@
                && args[3] == name@ && (track <==> args.len() == 6) && (!track ==> args.len() == 7
                && args[4] == "--no-track"@)
            &&& spec is Detached ==> args.len() == 5 && args[2] == "--detach"@
            &&& spec is ExistingBranch ==> args.len() == 4
        }),
{
}

/// The inputs that are there have their hashes, in their order, and the others are told as
/// missing.
pub proof fn each_input_has_its_own_hash(present: Seq<bool>, hashes: Seq<Seq<char>>, i: int)
    requires
        0 <= i < present.len(),
    ensures
        !present[i] ==> hashed(present, hashes)[i] == "<missing>"@,
        (present[i] && forall|k: int| 0 <= k < i ==> #[trigger] present[k]) ==> hashed(
            present,
            hashes,
        )[i] == hashes[i],
        hashed(present, hashes).len() == present.len(),
{
    if present[i] && forall|k: int| 0 <= k < i ==> #[trigger] present[k] {
        lemma_all_before(present, i);
    }
}

proof fn lemma_all_before(present: Seq<bool>, n: int)
    requires
        0 <= n <= present.len(),
        forall|k: int| 0 <= k < n ==> #[trigger] present[k],
    ensures
        present_before(present, n) == n,
    decreases n,
{
    if n > 0 {
        lemma_all_before(present, n - 1);
        assert(present[n - 1]);
    }
}

} // verus!
