//! A bounded search for git checkouts below some roots.
//!
//! The search goes level by level, does not look below a checkout, and takes no
//! directory that lies on another device than its root. Reading directories is
//! left to the caller: it asks for the next one and hands back what it holds.

use vstd::prelude::*;
use vstd::string::*;

use crate::order;
use crate::order::Keyed;
use crate::path;
use crate::proc::copy_texts;
use crate::text;

verus! {

broadcast use vstd::string::group_string_axioms;

/// How deep below a root a checkout is still found.
pub const DEFAULT_DEPTH: usize = 6;

/// How many directories pass between two reports.
pub const REPORT_EVERY: usize = 64;

/// What kind of checkout a directory is.
#[derive(Clone, Copy, Debug, PartialEq, Eq, Structural)]
pub enum CandidateKind {
    Checkout,
    Linked,
}

/// A directory that is git's.
#[derive(Debug)]
pub struct Found {
    pub path: String,
    pub kind: CandidateKind,
    pub common_gitdir: String,
    pub touched: u64,
}

/// What is known of a directory that is git's.
#[verifier::ext_equal]
pub struct Candidate {
    pub path: Seq<char>,
    pub kind: CandidateKind,
    pub common_gitdir: Seq<char>,
    pub touched: u64,
}

impl View for Found {
    type V = Candidate;

    open spec fn view(&self) -> Candidate {
        Candidate {
            path: self.path@,
            kind: self.kind,
            common_gitdir: self.common_gitdir@,
            touched: self.touched,
        }
    }
}

impl Keyed for Found {
    open spec fn key(&self) -> Seq<Seq<int>> {
        path::path_key(self.path@)
    }

    fn sort_key(&self) -> (r: Vec<Vec<u64>>) {
        path::key_of(self.path.as_str())
    }
}

/// How far the search has got.
#[derive(Clone, Copy, Debug, PartialEq, Eq, Structural)]
pub struct Progress {
    pub directories: usize,
    pub found: usize,
    pub finished: bool,
    pub truncated: bool,
}

// ---------------------------------------------------------------------------
// What a directory holds
// ---------------------------------------------------------------------------

/// An entry of a directory: its name where it is text, and whether it is itself a
/// directory where that is known. A symbolic link is none.
#[derive(Debug)]
pub struct Entry {
    pub name: Option<String>,
    pub is_dir: Option<bool>,
}

/// The names of directories that are not entered.
pub open spec fn skip_list() -> Seq<Seq<char>> {
    seq![
        "node_modules"@,
        "target"@,
        "vendor"@,
        "build"@,
        "dist"@,
        "Library"@,
        "Applications"@,
        "Pods"@,
        ".cache"@,
        ".venv"@,
        ".Trash"@,
    ]
}

/// The names that together mark a git directory.
pub open spec fn marker_list() -> Seq<Seq<char>> {
    seq!["HEAD"@, "objects"@, "refs"@, "config"@]
}

/// Whether an entry is one that counts.
pub open spec fn readable(e: Entry) -> bool {
    e.name is Some && e.is_dir is Some
}

/// Whether an entry is the one that makes a directory a checkout.
pub open spec fn is_git(e: Entry) -> bool {
    readable(e) && e.name->0@ == ".git"@
}

/// Whether an entry marks a git directory.
pub open spec fn is_marker(e: Entry) -> bool {
    readable(e) && !is_git(e) && marker_list().contains(e.name->0@)
}

/// Whether an entry is a directory to look into.
pub open spec fn is_child(e: Entry) -> bool {
    &&& readable(e)
    &&& !is_git(e)
    &&& e.is_dir == Some(true)
    &&& !text::starts(e.name->0@, "."@)
    &&& !skip_list().contains(e.name->0@)
}

/// Whether there is a `.git`, and whether it is a directory.
pub open spec fn git_of(entries: Seq<Entry>) -> Option<bool>
    decreases entries.len(),
{
    if entries.len() == 0 {
        None
    } else if is_git(entries.last()) {
        entries.last().is_dir
    } else {
        git_of(entries.drop_last())
    }
}

/// How many entries mark a git directory.
pub open spec fn markers(entries: Seq<Entry>) -> nat
    decreases entries.len(),
{
    if entries.len() == 0 {
        0
    } else if is_marker(entries.last()) {
        markers(entries.drop_last()) + 1
    } else {
        markers(entries.drop_last())
    }
}

/// The directories to look into.
pub open spec fn children_of(directory: Seq<char>, entries: Seq<Entry>) -> Seq<Seq<char>>
    decreases entries.len(),
{
    if entries.len() == 0 {
        Seq::<Seq<char>>::empty()
    } else if is_child(entries.last()) {
        children_of(directory, entries.drop_last()).push(
            path::joined(directory, entries.last().name->0@),
        )
    } else {
        children_of(directory, entries.drop_last())
    }
}

/// What to do with a directory after it was read.
#[derive(Debug)]
pub enum Listing {
    /// It is a checkout, by its `.git`. Nothing below it is looked at.
    Git { path: String, is_dir: bool },
    /// Look at these below it.
    Children(Vec<String>),
    /// Nothing.
    Skip,
}

/// What a listing says.
pub enum Seen {
    Git { path: Seq<char>, is_dir: bool },
    Children(Seq<Seq<char>>),
    Skip,
}

impl View for Listing {
    type V = Seen;

    open spec fn view(&self) -> Seen {
        match self {
            Listing::Git { path, is_dir } => Seen::Git { path: path@, is_dir: *is_dir },
            Listing::Children(children) => Seen::Children(text::texts(children@)),
            Listing::Skip => Seen::Skip,
        }
    }
}

/// What a directory is: a checkout where it holds a `.git`; a bare repository,
/// which is passed over, where it holds all that marks one; at the last level
/// nothing; else what is below it.
pub open spec fn seen(directory: Seq<char>, entries: Seq<Entry>, last: bool) -> Seen {
    match git_of(entries) {
        Some(is_dir) => Seen::Git { path: path::joined(directory, ".git"@), is_dir },
        None => if markers(entries) == 4 || last {
            Seen::Skip
        } else {
            Seen::Children(children_of(directory, entries))
        },
    }
}

fn skip_names() -> (r: Vec<String>)
    ensures
        text::texts(r@) == skip_list(),
{
    crate::proc::Args::none().and("node_modules").and("target").and("vendor").and("build").and(
        "dist",
    ).and("Library").and("Applications").and("Pods").and(".cache").and(".venv").and(
        ".Trash",
    ).list
}

fn marker_names() -> (r: Vec<String>)
    ensures
        text::texts(r@) == marker_list(),
{
    crate::proc::Args::none().and("HEAD").and("objects").and("refs").and("config").list
}

fn survey(directory: &str, entries: &Vec<Entry>, last: bool) -> (r: Listing)
    ensures
        r@ == seen(directory@, entries@, last),
{
    let skip = skip_names();
    let mark = marker_names();
    let mut git: Option<bool> = None;
    let mut marks: usize = 0;
    let mut children: Vec<String> = Vec::new();
    let mut i: usize = 0;
    proof {
        assert(text::texts(children@) =~= Seq::<Seq<char>>::empty());
    }
    while i < entries.len()
        invariant
            i <= entries.len(),
            text::texts(skip@) == skip_list(),
            text::texts(mark@) == marker_list(),
            git == git_of(entries@.take(i as int)),
            marks <= i,
            marks == markers(entries@.take(i as int)),
            text::texts(children@) == children_of(directory@, entries@.take(i as int)),
        decreases entries.len() - i,
    {
        let ghost prior = text::texts(children@);
        let ghost e = entries@[i as int];
        proof {
            assert(entries@.take(i + 1).drop_last() =~= entries@.take(i as int));
            assert(entries@.take(i + 1).last() == e);
        }
        let entry = &entries[i];
        i = i + 1;
        if let Some(name) = &entry.name {
            if let Some(is_dir) = entry.is_dir {
                if text::same(name.as_str(), ".git") {
                    git = Some(is_dir);
                } else {
                    if text::listed(&mark, name.as_str()) {
                        marks = marks + 1;
                    }
                    if is_dir && !text::starts_with(name.as_str(), ".") && !text::listed(&skip, name.as_str()) {
                        children.push(path::join(directory, name.as_str()));
                        proof {
                            assert(text::texts(children@) =~= prior.push(
                                path::joined(directory@, e.name->0@),
                            ));
                        }
                    }
                }
            }
        }
    }
    proof {
        assert(entries@.take(entries@.len() as int) =~= entries@);
    }
    match git {
        Some(is_dir) => Listing::Git { path: path::join(directory, ".git"), is_dir },
        None => if marks == 4 || last {
            Listing::Skip
        } else {
            Listing::Children(children)
        },
    }
}

/// A directory that is looked into is below the one that was read, is not hidden
/// and does not bear a name that is skipped.
pub proof fn children_are_plain(directory: Seq<char>, entries: Seq<Entry>, i: int)
    requires
        0 <= i < children_of(directory, entries).len(),
    ensures
        exists|k: int|
            0 <= k < entries.len() && #[trigger] is_child(entries[k]) && children_of(
                directory,
                entries,
            )[i] == path::joined(directory, entries[k].name->0@),
    decreases entries.len(),
{
    let rest = entries.drop_last();
    if is_child(entries.last()) && i == children_of(directory, rest).len() {
        assert(is_child(entries[entries.len() - 1]));
    } else {
        children_are_plain(directory, rest, i);
        let k = choose|k: int|
            0 <= k < rest.len() && #[trigger] is_child(rest[k]) && children_of(directory, rest)[i]
                == path::joined(directory, rest[k].name->0@);
        assert(is_child(entries[k]));
    }
}

// ---------------------------------------------------------------------------
// The search
// ---------------------------------------------------------------------------

/// A directory that is still to be read: its level below its root, and the device
/// of the root where it is known.
#[derive(Debug)]
pub struct Pending {
    pub path: String,
    pub level: usize,
    pub device: Option<u64>,
}

/// What is known of a directory that is still to be read.
#[verifier::ext_equal]
pub struct Waiting {
    pub path: Seq<char>,
    pub level: int,
    pub device: Option<u64>,
}

impl View for Pending {
    type V = Waiting;

    open spec fn view(&self) -> Waiting {
        Waiting { path: self.path@, level: self.level as int, device: self.device }
    }
}

/// What is known of directories that are still to be read.
pub open spec fn waiting(queue: Seq<Pending>) -> Seq<Waiting> {
    queue.map_values(|p: Pending| p@)
}

/// Where a search stands with the directory that it is at.
#[derive(Clone, Copy, Debug, PartialEq, Eq, Structural)]
pub enum Stage {
    /// It is at none.
    Between,
    /// It is to be read.
    Taken,
    /// It holds a `.git`, which is to be read.
    Checkout,
    /// The devices of the directories in it are to be asked for.
    Below,
}

/// A search that is under way: the roots, what waits, the directory that it is at and
/// the directories in that, and what was found. It is `stopped` where its time was over
/// while a directory waited.
#[derive(Debug)]
pub struct Walk {
    pub depth: usize,
    pub started: bool,
    pub stopped: bool,
    pub queue: Vec<Pending>,
    pub seen: Vec<String>,
    pub stage: Stage,
    pub at: Option<Pending>,
    pub children: Vec<String>,
    pub found: Vec<Found>,
    pub progress: Progress,
    pub since_report: usize,
}

/// What is known of a search.
#[verifier::ext_equal]
pub struct Search {
    pub depth: int,
    pub started: bool,
    pub stopped: bool,
    pub queue: Seq<Waiting>,
    pub seen: Seq<Seq<char>>,
    pub stage: Stage,
    pub at: Option<Waiting>,
    pub children: Seq<Seq<char>>,
    pub found: Seq<Candidate>,
    pub progress: Progress,
    pub since_report: int,
}

/// What is known of what was found.
pub open spec fn candidates(found: Seq<Found>) -> Seq<Candidate> {
    found.map_values(|f: Found| f@)
}

impl View for Walk {
    type V = Search;

    open spec fn view(&self) -> Search {
        Search {
            depth: self.depth as int,
            started: self.started,
            stopped: self.stopped,
            queue: waiting(self.queue@),
            seen: text::texts(self.seen@),
            stage: self.stage,
            at: match self.at {
                Some(p) => Some(p@),
                None => None,
            },
            children: text::texts(self.children@),
            found: candidates(self.found@),
            progress: self.progress,
            since_report: self.since_report as int,
        }
    }
}

/// Whether a path lies below one of the roots.
pub open spec fn covered(root: Seq<char>, seen: Seq<Seq<char>>) -> bool {
    exists|i: int| 0 <= i < seen.len() && path::under(root, #[trigger] seen[i])
}

/// Whether none of some paths lies at or below another of them.
pub open spec fn apart(seen: Seq<Seq<char>>) -> bool {
    forall|i: int, j: int|
        0 <= i < seen.len() && 0 <= j < seen.len() && i != j ==> !path::under(
            #[trigger] seen[j],
            #[trigger] seen[i],
        )
}

/// Those paths that do not lie at or below a root.
pub open spec fn outside(paths: Seq<Seq<char>>, root: Seq<char>) -> Seq<Seq<char>>
    decreases paths.len(),
{
    if paths.len() == 0 {
        paths
    } else {
        let rest = outside(paths.drop_last(), root);
        if path::under(paths.last(), root) {
            rest
        } else {
            rest.push(paths.last())
        }
    }
}

/// Those directories that do not lie at or below a root.
pub open spec fn waiting_outside(queue: Seq<Waiting>, root: Seq<char>) -> Seq<Waiting>
    decreases queue.len(),
{
    if queue.len() == 0 {
        queue
    } else {
        let rest = waiting_outside(queue.drop_last(), root);
        if path::under(queue.last().path, root) {
            rest
        } else {
            rest.push(queue.last())
        }
    }
}

proof fn lemma_outside(paths: Seq<Seq<char>>, root: Seq<char>)
    ensures
        forall|i: int|
            0 <= i < outside(paths, root).len() ==> {
                &&& !path::under(#[trigger] outside(paths, root)[i], root)
                &&& exists|k: int|
                    0 <= k < paths.len() && #[trigger] paths[k] == outside(paths, root)[i]
            },
        apart(paths) ==> apart(outside(paths, root)),
    decreases paths.len(),
{
    if paths.len() > 0 {
        let init = paths.drop_last();
        let rest = outside(init, root);
        let all = outside(paths, root);
        lemma_outside(init, root);
        assert forall|i: int| 0 <= i < all.len() implies {
            &&& !path::under(#[trigger] all[i], root)
            &&& exists|k: int| 0 <= k < paths.len() && #[trigger] paths[k] == all[i]
        } by {
            if i < rest.len() {
                assert(all[i] == rest[i]);
                let k = choose|k: int| 0 <= k < init.len() && #[trigger] init[k] == rest[i];
                assert(paths[k] == all[i]);
            } else {
                assert(paths[paths.len() - 1] == all[i]);
            }
        }
        if apart(paths) {
            assert(apart(init)) by {
                assert forall|i: int, j: int|
                    0 <= i < init.len() && 0 <= j < init.len() && i != j implies !path::under(
                    #[trigger] init[j],
                    #[trigger] init[i],
                ) by {
                    assert(!path::under(paths[j], paths[i]));
                }
            }
            assert forall|i: int, j: int|
                0 <= i < all.len() && 0 <= j < all.len() && i != j implies !path::under(
                #[trigger] all[j],
                #[trigger] all[i],
            ) by {
                let last = paths.len() - 1;
                if i < rest.len() && j < rest.len() {
                    assert(!path::under(rest[j], rest[i]));
                } else if i < rest.len() {
                    let k = choose|k: int| 0 <= k < init.len() && #[trigger] init[k] == rest[i];
                    assert(!path::under(paths[last], paths[k]));
                } else {
                    let k = choose|k: int| 0 <= k < init.len() && #[trigger] init[k] == rest[j];
                    assert(!path::under(paths[k], paths[last]));
                }
            }
        }
    }
}

proof fn lemma_waiting_outside(queue: Seq<Waiting>, root: Seq<char>, depth: int)
    requires
        forall|i: int| 0 <= i < queue.len() ==> (#[trigger] queue[i]).level <= depth,
    ensures
        forall|i: int|
            0 <= i < waiting_outside(queue, root).len() ==> (#[trigger] waiting_outside(
                queue,
                root,
            )[i]).level <= depth,
    decreases queue.len(),
{
    if queue.len() > 0 {
        let init = queue.drop_last();
        assert forall|i: int| 0 <= i < init.len() implies (#[trigger] init[i]).level <= depth by {
            assert(init[i] == queue[i]);
        }
        lemma_waiting_outside(init, root, depth);
        assert(queue[queue.len() - 1].level <= depth);
    }
}

fn roots_outside(seen: &Vec<String>, root: &str) -> (r: Vec<String>)
    ensures
        text::texts(r@) == outside(text::texts(seen@), root@),
{
    let ghost all = text::texts(seen@);
    let mut out: Vec<String> = Vec::new();
    let mut i: usize = 0;
    proof {
        assert(text::texts(out@) =~= outside(all.take(0), root@));
    }
    while i < seen.len()
        invariant
            i <= seen.len(),
            all == text::texts(seen@),
            text::texts(out@) == outside(all.take(i as int), root@),
        decreases seen.len() - i,
    {
        let ghost prior = text::texts(out@);
        proof {
            assert(all.take(i + 1).drop_last() =~= all.take(i as int));
            assert(all.take(i + 1).last() == seen@[i as int]@);
        }
        if !path::starts_with(seen[i].as_str(), root) {
            out.push(seen[i].clone());
            proof {
                assert(text::texts(out@) =~= prior.push(seen@[i as int]@));
            }
        }
        i = i + 1;
    }
    proof {
        assert(all.take(seen@.len() as int) =~= all);
    }
    out
}

fn queue_outside(queue: &Vec<Pending>, root: &str) -> (r: Vec<Pending>)
    ensures
        waiting(r@) == waiting_outside(waiting(queue@), root@),
{
    let ghost all = waiting(queue@);
    let mut out: Vec<Pending> = Vec::new();
    let mut i: usize = 0;
    proof {
        assert(waiting(out@) =~= waiting_outside(all.take(0), root@));
    }
    while i < queue.len()
        invariant
            i <= queue.len(),
            all == waiting(queue@),
            waiting(out@) == waiting_outside(all.take(i as int), root@),
        decreases queue.len() - i,
    {
        let ghost prior = waiting(out@);
        let p = &queue[i];
        proof {
            assert(all.take(i + 1).drop_last() =~= all.take(i as int));
            assert(all.take(i + 1).last() == queue@[i as int]@);
        }
        if !path::starts_with(p.path.as_str(), root) {
            let one = Pending { path: p.path.clone(), level: p.level, device: p.device };
            let ghost w = one@;
            out.push(one);
            proof {
                assert(waiting(out@) =~= prior.push(w));
                assert(w =~= queue@[i as int]@);
            }
        }
        i = i + 1;
    }
    proof {
        assert(all.take(queue@.len() as int) =~= all);
    }
    out
}

/// Those directories that lie on the device of their root.
pub open spec fn on_device(
    children: Seq<Seq<char>>,
    devices: Seq<Option<u64>>,
    level: int,
    device: Option<u64>,
) -> Seq<Waiting>
    decreases children.len(),
{
    if children.len() == 0 || children.len() != devices.len() {
        Seq::<Waiting>::empty()
    } else {
        let rest = on_device(children.drop_last(), devices.drop_last(), level, device);
        if device is None || devices.last() == device {
            rest.push(Waiting { path: children.last(), level, device })
        } else {
            rest
        }
    }
}

/// The report that is due after one more directory, if any.
pub open spec fn due(since_report: int, progress: Progress) -> Option<Progress> {
    if since_report + 1 >= REPORT_EVERY {
        Some(progress)
    } else {
        None
    }
}

/// How many directories have passed since the last report after one more.
pub open spec fn counted(since_report: int) -> int {
    if since_report + 1 >= REPORT_EVERY {
        0
    } else {
        since_report + 1
    }
}

/// A step of a search, with what was seen for it.
pub enum Move {
    /// A root is added.
    Root { root: Seq<char>, device: Option<u64> },
    /// The next directory is taken, after so much time of so much that may pass.
    Next { elapsed: int, budget: int },
    /// The directory cannot be read.
    Unreadable,
    /// The directory holds these.
    Listed(Seq<Entry>),
    /// The `.git` in it is this.
    Git(GitEntry),
    /// The directories in it are on these devices.
    Devices(Seq<Option<u64>>),
}

/// A search that begins.
pub open spec fn begun(depth: int) -> Search {
    Search {
        depth,
        started: false,
        stopped: false,
        queue: Seq::<Waiting>::empty(),
        seen: Seq::<Seq<char>>::empty(),
        stage: Stage::Between,
        at: None,
        children: Seq::<Seq<char>>::empty(),
        found: Seq::<Candidate>::empty(),
        progress: Progress { directories: 0, found: 0, finished: false, truncated: false },
        since_report: 0,
    }
}

/// A search that is done with the directory that it was at.
pub open spec fn done_with(s: Search) -> Search {
    Search { stage: Stage::Between, at: None, children: Seq::<Seq<char>>::empty(), ..s }
}

/// A search after a step. Roots come before everything else. A search whose time is over
/// while a directory waits takes none anymore. A step that does not belong to the stage
/// leaves the search as it is.
pub open spec fn walked(s: Search, m: Move) -> Search {
    match (s.stage, m) {
        (_, Move::Root { root, device }) => if s.started || covered(root, s.seen) {
            s
        } else {
            Search {
                queue: waiting_outside(s.queue, root).push(
                    Waiting { path: root, level: 0, device },
                ),
                seen: outside(s.seen, root).push(root),
                ..s
            }
        },
        (Stage::Between, Move::Next { elapsed, budget }) => if s.stopped || s.queue.len() == 0 {
            Search { started: true, ..s }
        } else if elapsed > budget {
            Search { started: true, stopped: true, ..s }
        } else {
            Search {
                started: true,
                stage: Stage::Taken,
                at: Some(s.queue[0]),
                queue: s.queue.skip(1),
                ..s
            }
        },
        (Stage::Taken, Move::Unreadable) => done_with(s),
        (Stage::Taken, Move::Listed(entries)) => {
            let read = Search {
                progress: Progress {
                    directories: (s.progress.directories + 1) as usize,
                    ..s.progress
                },
                ..s
            };
            match seen(s.at->0.path, entries, s.at->0.level >= s.depth) {
                Seen::Skip => done_with(read),
                Seen::Git { path, is_dir } => Search { stage: Stage::Checkout, ..read },
                Seen::Children(children) => Search { stage: Stage::Below, children, ..read },
            }
        },
        (Stage::Checkout, Move::Git(git)) => {
            let found = match meaning(s.at->0.path, git) {
                Some(f) => s.found.push(f),
                None => s.found,
            };
            Search {
                found,
                progress: Progress { found: found.len() as usize, ..s.progress },
                since_report: counted(s.since_report),
                ..done_with(s)
            }
        },
        (Stage::Below, Move::Devices(devices)) => Search {
            queue: s.queue + on_device(
                s.children,
                devices,
                s.at->0.level + 1,
                s.at->0.device,
            ),
            since_report: counted(s.since_report),
            ..done_with(s)
        },
        _ => s,
    }
}

/// A search after a row of steps.
pub open spec fn walked_all(s: Search, moves: Seq<Move>) -> Search
    decreases moves.len(),
{
    if moves.len() == 0 {
        s
    } else {
        walked(walked_all(s, moves.drop_last()), moves.last())
    }
}

impl Walk {
    /// What holds of a search at every step: nothing waits below the last level, no
    /// root lies below another, no more was found than was read and it is counted, and
    /// the search does not call itself finished.
    pub open spec fn wf(&self) -> bool {
        &&& forall|i: int|
            0 <= i < waiting(self.queue@).len() ==> (#[trigger] waiting(self.queue@)[i]).level
                <= self.depth
        &&& apart(text::texts(self.seen@))
        &&& self.since_report < REPORT_EVERY
        &&& self.progress.found == self.found@.len()
        &&& self.progress.found <= self.progress.directories
        &&& self.stage == Stage::Checkout ==> self.progress.found < self.progress.directories
        &&& self.stage == Stage::Between <==> self.at is None
        &&& self.stage == Stage::Below ==> self.at->0.level < self.depth
        &&& !self.progress.finished
        &&& !self.progress.truncated
    }

    /// A search without roots.
    pub fn new(depth: usize) -> (r: Self)
        ensures
            r.wf(),
            r@ == begun(depth as int),
    {
        let r = Walk {
            depth,
            started: false,
            stopped: false,
            queue: Vec::new(),
            seen: Vec::new(),
            stage: Stage::Between,
            at: None,
            children: Vec::new(),
            found: Vec::new(),
            progress: Progress { directories: 0, found: 0, finished: false, truncated: false },
            since_report: 0,
        };
        proof {
            assert(r@ =~= begun(depth as int));
        }
        r
    }

    fn is_covered(&self, root: &str) -> (r: bool)
        ensures
            r == covered(root@, text::texts(self.seen@)),
    {
        let ghost all = text::texts(self.seen@);
        let mut i: usize = 0;
        while i < self.seen.len()
            invariant
                i <= self.seen.len(),
                all == text::texts(self.seen@),
                forall|k: int| 0 <= k < i ==> !path::under(root@, #[trigger] all[k]),
            decreases self.seen.len() - i,
        {
            if path::starts_with(root, self.seen[i].as_str()) {
                proof {
                    assert(path::under(root@, all[i as int]));
                }
                return true;
            }
            i = i + 1;
        }
        false
    }

    /// Adds a root, given by its canonical path, unless it lies below one that was
    /// added before. What lies below it and was added before is dropped, so that
    /// nothing is walked twice, whichever of two nested roots comes first. No root is
    /// added to a search that has begun.
    pub fn add_root(&mut self, root: &str, device: Option<u64>)
        requires
            old(self).wf(),
        ensures
            final(self).wf(),
            final(self)@ == walked(old(self)@, Move::Root { root: root@, device }),
    {
        if self.started || self.is_covered(root) {
            return;
        }
        let ghost before = text::texts(self.seen@);
        let ghost queued = waiting(self.queue@);
        self.seen = roots_outside(&self.seen, root);
        self.queue = queue_outside(&self.queue, root);
        let ghost left = text::texts(self.seen@);
        let ghost still = waiting(self.queue@);
        proof {
            lemma_outside(before, root@);
            lemma_waiting_outside(queued, root@, self.depth as int);
        }
        self.seen.push(root.to_owned());
        let one = Pending { path: root.to_owned(), level: 0, device };
        self.queue.push(one);
        proof {
            assert(text::texts(self.seen@) =~= left.push(root@));
            assert(waiting(self.queue@) =~= still.push(
                Waiting { path: root@, level: 0, device },
            ));
            assert forall|i: int, j: int|
                0 <= i < left.len() + 1 && 0 <= j < left.len() + 1 && i != j implies !path::under(
                #[trigger] left.push(root@)[j],
                #[trigger] left.push(root@)[i],
            ) by {
                if j == left.len() {
                    let k = choose|k: int| 0 <= k < before.len() && before[k] == left[i];
                    assert(!path::under(root@, before[k]));
                }
            }
        }
    }

    /// Takes the directory that waits longest, of a search that goes on for `elapsed`
    /// and may for `budget`, in nanoseconds. A search whose time is over while a
    /// directory waits is stopped.
    pub fn next(&mut self, elapsed: u128, budget: u128) -> (r: Option<Pending>)
        requires
            old(self).wf(),
            old(self).stage == Stage::Between,
        ensures
            final(self).wf(),
            final(self)@ == walked(
                old(self)@,
                Move::Next { elapsed: elapsed as int, budget: budget as int },
            ),
            match r {
                Some(p) => Some(p@),
                None => None,
            } == final(self)@.at,
    {
        self.started = true;
        if self.stopped || self.queue.len() == 0 {
            return None;
        }
        if elapsed > budget {
            self.stopped = true;
            return None;
        }
        let ghost before = waiting(self.queue@);
        let first = self.queue.remove(0);
        proof {
            assert(before[0] == first@);
            assert(waiting(self.queue@) =~= before.skip(1));
        }
        let taken = Pending { path: first.path.clone(), level: first.level, device: first.device };
        self.stage = Stage::Taken;
        self.at = Some(first);
        Some(taken)
    }

    fn leave(&mut self)
        ensures
            final(self)@ == done_with(old(self)@),
            final(self).found == old(self).found,
            final(self).queue == old(self).queue,
            final(self).seen == old(self).seen,
    {
        self.stage = Stage::Between;
        self.at = None;
        self.children = Vec::new();
        proof {
            assert(text::texts(self.children@) =~= Seq::<Seq<char>>::empty());
        }
    }

    /// Passes over a directory that cannot be read.
    pub fn unreadable(&mut self)
        requires
            old(self).wf(),
            old(self).stage == Stage::Taken,
        ensures
            final(self).wf(),
            final(self)@ == walked(old(self)@, Move::Unreadable),
    {
        self.leave();
    }

    /// Takes what the directory holds, and says what it is.
    pub fn listed(&mut self, entries: &Vec<Entry>) -> (r: Listing)
        requires
            old(self).wf(),
            old(self).stage == Stage::Taken,
            old(self).progress.directories < usize::MAX,
        ensures
            final(self).wf(),
            final(self)@ == walked(old(self)@, Move::Listed(entries@)),
            r@ == seen(
                old(self)@.at->0.path,
                entries@,
                old(self)@.at->0.level >= old(self).depth,
            ),
    {
        self.progress.directories = self.progress.directories + 1;
        let listing = match &self.at {
            Some(at) => survey(at.path.as_str(), entries, at.level >= self.depth),
            None => Listing::Skip,
        };
        match &listing {
            Listing::Skip => {
                self.leave();
            },
            Listing::Git { path: _, is_dir: _ } => {
                self.stage = Stage::Checkout;
            },
            Listing::Children(children) => {
                self.children = copy_texts(children);
                self.stage = Stage::Below;
            },
        }
        listing
    }

    fn tick(&mut self) -> (r: Option<Progress>)
        requires
            old(self).since_report < REPORT_EVERY,
        ensures
            final(self)@ == (Search {
                since_report: counted(old(self).since_report as int),
                ..old(self)@
            }),
            final(self).since_report < REPORT_EVERY,
            final(self).found == old(self).found,
            final(self).queue == old(self).queue,
            final(self).seen == old(self).seen,
            r == due(old(self).since_report as int, old(self).progress),
    {
        if self.since_report + 1 >= REPORT_EVERY {
            self.since_report = 0;
            Some(self.progress)
        } else {
            self.since_report = self.since_report + 1;
            None
        }
    }

    /// Takes what was read of the `.git` in the directory, and gives the report that is
    /// due.
    pub fn checkout(&mut self, git: &GitEntry) -> (r: Option<Progress>)
        requires
            old(self).wf(),
            old(self).stage == Stage::Checkout,
        ensures
            final(self).wf(),
            final(self)@ == walked(old(self)@, Move::Git(*git)),
            r == due(old(self).since_report as int, final(self).progress),
    {
        let found = match &self.at {
            Some(at) => classify(at.path.as_str(), git),
            None => None,
        };
        if let Some(found) = found {
            let ghost was = self.found@;
            self.found.push(found);
            self.progress.found = self.progress.found + 1;
            proof {
                assert(candidates(self.found@) =~= candidates(was).push(found@));
            }
        }
        self.leave();
        self.tick()
    }

    /// Takes the devices of the directories in the directory, where they are known, and
    /// gives the report that is due. Those on another device than the root are passed
    /// over.
    pub fn descend(&mut self, devices: &Vec<Option<u64>>) -> (r: Option<Progress>)
        requires
            old(self).wf(),
            old(self).stage == Stage::Below,
            old(self).children@.len() == devices@.len(),
        ensures
            final(self).wf(),
            final(self)@ == walked(old(self)@, Move::Devices(devices@)),
            r == due(old(self).since_report as int, old(self).progress),
    {
        let (level, device): (usize, Option<u64>) = match &self.at {
            Some(at) => (at.level + 1, at.device),
            None => (0, None),
        };
        let ghost before = waiting(self.queue@);
        let ghost all = text::texts(self.children@);
        let ghost mut added = Seq::<Waiting>::empty();
        let mut i: usize = 0;
        proof {
            assert(before + added =~= before);
        }
        while i < self.children.len()
            invariant
                i <= self.children@.len(),
                self.wf(),
                level <= self.depth,
                self.children@.len() == devices@.len(),
                all == text::texts(self.children@),
                self@ == (Search { queue: before + added, ..old(self)@ }),
                added == on_device(
                    all.take(i as int),
                    devices@.take(i as int),
                    level as int,
                    device,
                ),
            decreases self.children@.len() - i,
        {
            proof {
                assert(all.take(i + 1).drop_last() =~= all.take(i as int));
                assert(devices@.take(i + 1).drop_last() =~= devices@.take(i as int));
            }
            let keep = match device {
                None => true,
                Some(device) => match devices[i] {
                    Some(own) => own == device,
                    None => false,
                },
            };
            if keep {
                let ghost prior = waiting(self.queue@);
                let one = Pending { path: self.children[i].clone(), level, device };
                let ghost w = one@;
                self.queue.push(one);
                proof {
                    assert(waiting(self.queue@) =~= prior.push(w));
                    assert(w =~= Waiting { path: all[i as int], level: level as int, device });
                    assert((before + added).push(w) =~= before + added.push(w));
                    added = added.push(w);
                }
            }
            i = i + 1;
        }
        proof {
            assert(all.take(all.len() as int) =~= all);
            assert(devices@.take(devices@.len() as int) =~= devices@);
        }
        self.leave();
        self.tick()
    }

    /// Ends the search, and gives the last report and what was found in the order of the
    /// paths. The report says that the search was cut short where its time was over
    /// while a directory waited.
    pub fn finish(self) -> (r: (Progress, Vec<Found>))
        requires
            self.wf(),
        ensures
            r.0 == (Progress { finished: true, truncated: self.stopped, ..self.progress }),
            r.1@ == order::sorted(self.found@),
    {
        let progress = Progress {
            directories: self.progress.directories,
            found: self.progress.found,
            finished: true,
            truncated: self.stopped,
        };
        (progress, order::sort(self.found))
    }
}

/// A search is cut short by nothing but its time, and only while a directory waits.
pub proof fn only_its_time_cuts_a_search_short(s: Search, m: Move)
    ensures
        walked(s, m).stopped == (s.stopped || (s.stage is Between && s.queue.len() > 0 && (
        m matches Move::Next { elapsed, budget } && elapsed > budget))),
{
}

/// Only the last report of a search says that it is finished.
pub proof fn reports_are_unfinished(walk: Walk, since_report: int)
    requires
        walk.wf(),
    ensures
        due(since_report, walk.progress) matches Some(report) ==> !report.finished
            && !report.truncated,
{
}

/// What is added below a directory lies one level deeper and on its device.
pub proof fn added_lie_one_level_deeper(
    children: Seq<Seq<char>>,
    devices: Seq<Option<u64>>,
    level: int,
    device: Option<u64>,
)
    requires
        children.len() == devices.len(),
    ensures
        forall|i: int|
            #![trigger on_device(children, devices, level, device)[i]]
            0 <= i < on_device(children, devices, level, device).len() ==> {
                let w = on_device(children, devices, level, device)[i];
                &&& w.level == level
                &&& w.device == device
                &&& exists|k: int|
                    0 <= k < children.len() && #[trigger] children[k] == w.path && (device is None
                        || devices[k] == device)
            },
    decreases children.len(),
{
    if children.len() > 0 {
        let c = children.drop_last();
        let d = devices.drop_last();
        added_lie_one_level_deeper(c, d, level, device);
        let all = on_device(children, devices, level, device);
        let some = on_device(c, d, level, device);
        assert forall|i: int| 0 <= i < all.len() implies {
            let w = #[trigger] all[i];
            &&& w.level == level
            &&& w.device == device
            &&& exists|k: int|
                0 <= k < children.len() && #[trigger] children[k] == w.path && (device is None
                    || devices[k] == device)
        } by {
            if i < some.len() {
                assert(all[i] == some[i]);
                let k = choose|k: int|
                    0 <= k < c.len() && #[trigger] c[k] == some[i].path && (device is None || d[k]
                        == device);
                assert(children[k] == c[k]);
                assert(devices[k] == d[k]);
            } else {
                assert(children[children.len() - 1] == all[i].path);
            }
        }
    }
}

/// The paths of directories that wait.
pub open spec fn paths_of(queue: Seq<Waiting>) -> Seq<Seq<char>> {
    queue.map_values(|w: Waiting| w.path)
}

/// Whether entries of a directory are as a file system has them: no two of one name,
/// and no name with a separator in it.
pub open spec fn distinct(entries: Seq<Entry>) -> bool {
    &&& forall|i: int, j: int|
        0 <= i < j < entries.len() && (#[trigger] entries[i]).name is Some && (
        #[trigger] entries[j]).name is Some ==> entries[i].name->0@ != entries[j].name->0@
    &&& forall|i: int|
        0 <= i < entries.len() && (#[trigger] entries[i]).name is Some
            ==> entries[i].name->0@.len() > 0 && !entries[i].name->0@.contains('/')
}

proof fn lemma_child(at: Seq<char>, e: Entry)
    requires
        at.len() > 0,
        is_child(e),
        e.name->0@.len() > 0,
        !e.name->0@.contains('/'),
    ensures
        path::components(path::joined(at, e.name->0@)) == path::components(at).push(e.name->0@),
{
    let name = e.name->0@;
    reveal_strlit(".");
    if name == path::here() {
        assert(text::starts(name, "."@)) by {
            assert("."@ =~= name);
            assert(name.take(1) =~= name);
        }
    }
    path::lemma_joined_parts(at, name);
}

spec fn lies_in(p: Seq<char>, at: Seq<char>, entries: Seq<Entry>) -> bool {
    exists|k: int|
        #![trigger entries[k]]
        0 <= k < entries.len() && entries[k].name is Some && path::components(p)
            == path::components(at).push(entries[k].name->0@)
}

proof fn lemma_children(at: Seq<char>, entries: Seq<Entry>)
    requires
        at.len() > 0,
        distinct(entries),
    ensures
        forall|i: int|
            0 <= i < children_of(at, entries).len() ==> lies_in(
                #[trigger] children_of(at, entries)[i],
                at,
                entries,
            ),
        apart(children_of(at, entries)),
    decreases entries.len(),
{
    let all = children_of(at, entries);
    if entries.len() > 0 {
        let init = entries.drop_last();
        let rest = children_of(at, init);
        let last = entries.last();
        assert(distinct(init)) by {
            assert forall|i: int, j: int|
                0 <= i < j < init.len() && (#[trigger] init[i]).name is Some && (
                #[trigger] init[j]).name is Some implies init[i].name->0@ != init[j].name->0@ by {
                assert(entries[i].name->0@ != entries[j].name->0@);
            }
            assert forall|i: int|
                0 <= i < init.len() && (#[trigger] init[i]).name is Some implies
                init[i].name->0@.len() > 0 && !init[i].name->0@.contains('/') by {
                assert(entries[i] == init[i]);
            }
        }
        lemma_children(at, init);
        let base = path::components(at);
        assert(entries[entries.len() - 1] == last);
        if is_child(last) {
            lemma_child(at, last);
        }
        assert forall|i: int| 0 <= i < all.len() implies lies_in(#[trigger] all[i], at, entries) by {
            if i < rest.len() {
                assert(all[i] == rest[i]);
                assert(lies_in(rest[i], at, init));
                let k = choose|k: int|
                    #![trigger init[k]]
                    0 <= k < init.len() && init[k].name is Some && path::components(rest[i])
                        == base.push(init[k].name->0@);
                assert(entries[k] == init[k]);
            } else {
                assert(entries[entries.len() - 1].name is Some);
            }
        }
        assert forall|i: int, j: int|
            0 <= i < all.len() && 0 <= j < all.len() && i != j implies !path::under(
            #[trigger] all[j],
            #[trigger] all[i],
        ) by {
            if i < rest.len() && j < rest.len() {
                assert(!path::under(rest[j], rest[i]));
            } else {
                let m = if i < rest.len() {
                    i
                } else {
                    j
                };
                assert(lies_in(rest[m], at, init));
                let k = choose|k: int|
                    #![trigger init[k]]
                    0 <= k < init.len() && init[k].name is Some && path::components(rest[m])
                        == base.push(init[k].name->0@);
                let one = init[k].name->0@;
                let other = last.name->0@;
                assert(entries[k] == init[k]);
                assert(one != other);
                let x = path::components(all[j]);
                let y = path::components(all[i]);
                if path::under(all[j], all[i]) {
                    assert(x.take(y.len() as int) =~= x);
                    assert(base.push(one).last() == base.push(other).last());
                }
            }
        }
    }
}

proof fn lemma_on_device_apart(
    children: Seq<Seq<char>>,
    devices: Seq<Option<u64>>,
    level: int,
    device: Option<u64>,
)
    requires
        children.len() == devices.len(),
        apart(children),
    ensures
        apart(paths_of(on_device(children, devices, level, device))),
        forall|i: int|
            0 <= i < on_device(children, devices, level, device).len() ==> exists|k: int|
                0 <= k < children.len() && #[trigger] children[k] == (#[trigger] on_device(
                    children,
                    devices,
                    level,
                    device,
                )[i]).path,
    decreases children.len(),
{
    if children.len() > 0 {
        let c = children.drop_last();
        let d = devices.drop_last();
        let some = on_device(c, d, level, device);
        let all = on_device(children, devices, level, device);
        assert(apart(c)) by {
            assert forall|i: int, j: int|
                0 <= i < c.len() && 0 <= j < c.len() && i != j implies !path::under(
                #[trigger] c[j],
                #[trigger] c[i],
            ) by {
                assert(!path::under(children[j], children[i]));
            }
        }
        lemma_on_device_apart(c, d, level, device);
        let last = children.len() - 1;
        assert forall|i: int| 0 <= i < all.len() implies exists|k: int|
            0 <= k < children.len() && #[trigger] children[k] == (#[trigger] all[i]).path by {
            if i < some.len() {
                assert(all[i] == some[i]);
                let k = choose|k: int| 0 <= k < c.len() && #[trigger] c[k] == some[i].path;
                assert(children[k] == all[i].path);
            } else {
                assert(children[last] == all[i].path);
            }
        }
        let p = paths_of(all);
        assert forall|i: int, j: int|
            0 <= i < p.len() && 0 <= j < p.len() && i != j implies !path::under(
            #[trigger] p[j],
            #[trigger] p[i],
        ) by {
            if i < some.len() && j < some.len() {
                assert(p[i] == paths_of(some)[i]);
                assert(p[j] == paths_of(some)[j]);
            } else {
                let m = if i < some.len() {
                    i
                } else {
                    j
                };
                let k = choose|k: int| 0 <= k < c.len() && #[trigger] c[k] == some[m].path;
                assert(children[k] == p[m]);
                assert(!path::under(children[k], children[last]));
                assert(!path::under(children[last], children[k]));
            }
        }
    }
}

/// Nothing is walked twice: where a directory that is read lies apart from what waits
/// and from what was found, so does all that waits after it and everything that is
/// added below it, and so does the directory itself where it is a checkout.
pub proof fn nothing_is_walked_twice(
    found: Seq<Seq<char>>,
    queue: Seq<Seq<char>>,
    at: Seq<char>,
    entries: Seq<Entry>,
    devices: Seq<Option<u64>>,
    level: int,
    device: Option<u64>,
)
    requires
        at.len() > 0,
        apart((found + queue).push(at)),
        distinct(entries),
        devices.len() == children_of(at, entries).len(),
    ensures
        apart(found.push(at) + queue),
        apart(
            found + queue + paths_of(on_device(children_of(at, entries), devices, level, device)),
        ),
{
    let kids = children_of(at, entries);
    let added = on_device(kids, devices, level, device);
    let old_all = (found + queue).push(at);
    let n = found.len() + queue.len();
    let one = found.push(at) + queue;
    assert forall|i: int, j: int|
        0 <= i < one.len() && 0 <= j < one.len() && i != j implies !path::under(
        #[trigger] one[j],
        #[trigger] one[i],
    ) by {
        let x = if i < found.len() {
            i
        } else if i == found.len() {
            n as int
        } else {
            i - 1
        };
        let y = if j < found.len() {
            j
        } else if j == found.len() {
            n as int
        } else {
            j - 1
        };
        assert(old_all[x] == one[i]);
        assert(old_all[y] == one[j]);
    }
    lemma_children(at, entries);
    lemma_on_device_apart(kids, devices, level, device);
    let more = found + queue + paths_of(added);
    let base = path::components(at);
    assert forall|i: int, j: int|
        0 <= i < more.len() && 0 <= j < more.len() && i != j implies !path::under(
        #[trigger] more[j],
        #[trigger] more[i],
    ) by {
        if i < n && j < n {
            assert(old_all[i] == more[i]);
            assert(old_all[j] == more[j]);
        } else if i >= n && j >= n {
            assert(more[i] == paths_of(added)[i - n]);
            assert(more[j] == paths_of(added)[j - n]);
        } else {
            let (mine, other) = if i >= n {
                (i, j)
            } else {
                (j, i)
            };
            let a = added[mine - n].path;
            assert(a == more[mine]);
            let k = choose|k: int| 0 <= k < kids.len() && #[trigger] kids[k] == a;
            assert(lies_in(kids[k], at, entries));
            let e = choose|e: int|
                #![trigger entries[e]]
                0 <= e < entries.len() && entries[e].name is Some && path::components(kids[k])
                    == base.push(entries[e].name->0@);
            let name = entries[e].name->0@;
            let x = path::components(more[other]);
            assert(old_all[other] == more[other]);
            assert(old_all[n as int] == at);
            assert(!path::under(at, more[other]));
            assert(!path::under(more[other], at));
            if path::under(more[other], a) {
                assert(x.take(base.len() as int) =~= base.push(name).take(base.len() as int));
                assert(x.take(base.len() as int) =~= base);
            }
            if path::under(a, more[other]) {
                if x.len() <= base.len() {
                    assert(base.take(x.len() as int) =~= base.push(name).take(x.len() as int));
                } else {
                    assert(base.push(name).take(x.len() as int) =~= base.push(name));
                    assert(x.take(base.len() as int) =~= base);
                }
            }
        }
    }
}

/// The paths of what was found.
pub open spec fn found_paths(found: Seq<Candidate>) -> Seq<Seq<char>> {
    found.map_values(|c: Candidate| c.path)
}

/// Whether directories are those that some directory holds.
pub open spec fn held_by(children: Seq<Seq<char>>, at: Seq<char>) -> bool {
    exists|entries: Seq<Entry>|
        #![trigger children_of(at, entries)]
        distinct(entries) && children == children_of(at, entries)
}

/// Whether nothing that a search found or has still to read lies below another such
/// thing.
pub open spec fn separate(s: Search) -> bool {
    let all = found_paths(s.found) + paths_of(s.queue);
    &&& !s.started ==> paths_of(s.queue) == s.seen && s.found.len() == 0 && s.stage is Between
    &&& apart(s.seen)
    &&& forall|i: int| 0 <= i < s.queue.len() ==> (#[trigger] s.queue[i]).path.len() > 0
    &&& s.stage is Between <==> s.at is None
    &&& match s.at {
        None => apart(all),
        Some(w) => w.path.len() > 0 && apart(all.push(w.path)),
    }
    &&& s.stage is Below ==> held_by(s.children, s.at->0.path)
}

/// Whether a step is one that a file system gives: a root has a path, and a directory
/// holds no two things of one name.
pub open spec fn plausible(m: Move) -> bool {
    match m {
        Move::Root { root, device } => root.len() > 0,
        Move::Listed(entries) => distinct(entries),
        _ => true,
    }
}

proof fn lemma_named_children(at: Seq<char>, entries: Seq<Entry>)
    requires
        at.len() > 0,
        forall|i: int|
            0 <= i < entries.len() && (#[trigger] entries[i]).name is Some
                ==> entries[i].name->0@.len() > 0,
    ensures
        forall|i: int|
            0 <= i < children_of(at, entries).len() ==> (#[trigger] children_of(
                at,
                entries,
            )[i]).len() > 0,
    decreases entries.len(),
{
    if entries.len() > 0 {
        let init = entries.drop_last();
        assert forall|i: int| 0 <= i < init.len() && (#[trigger] init[i]).name is Some implies
            init[i].name->0@.len() > 0 by {
            assert(init[i] == entries[i]);
        }
        lemma_named_children(at, init);
        let last = entries.last();
        let all = children_of(at, entries);
        let rest = children_of(at, init);
        assert(entries[entries.len() - 1] == last);
        if is_child(last) {
            assert(path::joined(at, last.name->0@).len() > 0);
        }
        assert forall|i: int| 0 <= i < all.len() implies (#[trigger] all[i]).len() > 0 by {
            if i < rest.len() {
                assert(all[i] == rest[i]);
            }
        }
    }
}

proof fn lemma_outside_paths(queue: Seq<Waiting>, root: Seq<char>)
    ensures
        paths_of(waiting_outside(queue, root)) == outside(paths_of(queue), root),
    decreases queue.len(),
{
    if queue.len() > 0 {
        let init = queue.drop_last();
        lemma_outside_paths(init, root);
        assert(paths_of(queue).drop_last() =~= paths_of(init));
        assert(paths_of(queue).last() == queue.last().path);
        let rest = waiting_outside(init, root);
        assert(paths_of(rest.push(queue.last())) =~= paths_of(rest).push(queue.last().path));
    } else {
        assert(paths_of(waiting_outside(queue, root)) =~= outside(paths_of(queue), root));
    }
}

proof fn lemma_root_apart(seen: Seq<Seq<char>>, root: Seq<char>)
    requires
        apart(seen),
        !covered(root, seen),
    ensures
        apart(outside(seen, root).push(root)),
{
    lemma_outside(seen, root);
    let left = outside(seen, root);
    assert forall|i: int, j: int|
        0 <= i < left.len() + 1 && 0 <= j < left.len() + 1 && i != j implies !path::under(
        #[trigger] left.push(root)[j],
        #[trigger] left.push(root)[i],
    ) by {
        if j == left.len() {
            let k = choose|k: int| 0 <= k < seen.len() && seen[k] == left[i];
            assert(!path::under(root, seen[k]));
        }
    }
}

proof fn lemma_some_apart(all: Seq<Seq<char>>, some: Seq<Seq<char>>, place: Seq<int>)
    requires
        apart(all),
        place.len() == some.len(),
        forall|i: int|
            0 <= i < some.len() ==> 0 <= #[trigger] place[i] < all.len() && some[i]
                == all[place[i]],
        forall|i: int, j: int|
            0 <= i < some.len() && 0 <= j < some.len() && i != j ==> #[trigger] place[i]
                != #[trigger] place[j],
    ensures
        apart(some),
{
    assert forall|i: int, j: int|
        0 <= i < some.len() && 0 <= j < some.len() && i != j implies !path::under(
        #[trigger] some[j],
        #[trigger] some[i],
    ) by {
        assert(place[i] != place[j]);
        assert(!path::under(all[place[j]], all[place[i]]));
    }
}

proof fn lemma_next_apart(s: Search, elapsed: int, budget: int)
    requires
        separate(s),
        s.stage is Between,
    ensures
        separate(walked(s, Move::Next { elapsed, budget })),
{
    let t = walked(s, Move::Next { elapsed, budget });
    if t.stage is Taken {
        let f = found_paths(s.found);
        let q = paths_of(s.queue);
        let rest = paths_of(t.queue);
        let all = f + q;
        let now = (f + rest).push(s.queue[0].path);
        let n = f.len() as int;
        let place = Seq::new(
            now.len(),
            |i: int|
                if i < n {
                    i
                } else if i == now.len() - 1 {
                    n
                } else {
                    i + 1
                },
        );
        lemma_some_apart(all, now, place);
        assert forall|i: int| 0 <= i < t.queue.len() implies (#[trigger] t.queue[i]).path.len()
            > 0 by {
            assert(t.queue[i] == s.queue[i + 1]);
        }
    }
}

proof fn lemma_left_apart(s: Search)
    requires
        separate(s),
        s.at is Some,
    ensures
        apart(found_paths(s.found) + paths_of(s.queue)),
{
    let all = found_paths(s.found) + paths_of(s.queue);
    let place = Seq::new(all.len(), |i: int| i);
    lemma_some_apart(all.push(s.at->0.path), all, place);
}

proof fn lemma_git_apart(s: Search, git: GitEntry)
    requires
        separate(s),
        s.started,
        s.stage is Checkout,
    ensures
        separate(walked(s, Move::Git(git))),
{
    let t = walked(s, Move::Git(git));
    lemma_left_apart(s);
    let f = found_paths(s.found);
    let q = paths_of(s.queue);
    let at = s.at->0.path;
    if meaning(at, git) is Some {
        assert(found_paths(t.found) =~= f.push(at));
        let no_entries = Seq::<Entry>::empty();
        let no_devices = Seq::<Option<u64>>::empty();
        nothing_is_walked_twice(f, q, at, no_entries, no_devices, 0, None);
    }
}

proof fn lemma_devices_apart(s: Search, devices: Seq<Option<u64>>)
    requires
        separate(s),
        s.started,
        s.stage is Below,
    ensures
        separate(walked(s, Move::Devices(devices))),
{
    let t = walked(s, Move::Devices(devices));
    lemma_left_apart(s);
    let f = found_paths(s.found);
    let q = paths_of(s.queue);
    let w = s.at->0;
    let entries = choose|entries: Seq<Entry>|
        #![trigger children_of(w.path, entries)]
        distinct(entries) && s.children == children_of(w.path, entries);
    let added = on_device(s.children, devices, w.level + 1, w.device);
    if devices.len() == s.children.len() {
        nothing_is_walked_twice(f, q, w.path, entries, devices, w.level + 1, w.device);
        added_lie_one_level_deeper(s.children, devices, w.level + 1, w.device);
        lemma_named_children(w.path, entries);
    }
    assert(paths_of(t.queue) =~= q + paths_of(added));
    assert(f + paths_of(t.queue) =~= f + q + paths_of(added));
    assert forall|i: int| 0 <= i < t.queue.len() implies (#[trigger] t.queue[i]).path.len() > 0 by {
        if i < s.queue.len() {
            assert(t.queue[i] == s.queue[i]);
        } else {
            let a = added[i - s.queue.len()];
            assert(t.queue[i] == a);
            let k = choose|k: int|
                0 <= k < s.children.len() && #[trigger] s.children[k] == a.path && (w.device is None
                    || devices[k] == w.device);
            assert(s.children[k].len() > 0);
        }
    }
}

/// Every step of a search keeps apart what was found and what is still to be read.
pub proof fn a_step_keeps_apart(s: Search, m: Move)
    requires
        separate(s),
        plausible(m),
    ensures
        separate(walked(s, m)),
{
    let t = walked(s, m);
    match m {
        Move::Root { root, device } => {
            if !s.started && !covered(root, s.seen) {
                lemma_outside_paths(s.queue, root);
                lemma_root_apart(s.seen, root);
                lemma_waiting_kept(s.queue, root);
                let kept = waiting_outside(s.queue, root);
                assert(paths_of(t.queue) =~= paths_of(kept).push(root));
                assert(found_paths(t.found) + paths_of(t.queue) =~= t.seen);
            }
        },
        Move::Next { elapsed, budget } => {
            if s.stage is Between {
                lemma_next_apart(s, elapsed, budget);
            }
        },
        Move::Unreadable => {
            if s.stage is Taken {
                lemma_left_apart(s);
            }
        },
        Move::Listed(entries) => {
            if s.stage is Taken {
                lemma_left_apart(s);
                if t.stage is Below {
                    assert(t.children == children_of(s.at->0.path, entries));
                }
            }
        },
        Move::Git(git) => {
            if s.stage is Checkout {
                lemma_git_apart(s, git);
            }
        },
        Move::Devices(devices) => {
            if s.stage is Below {
                lemma_devices_apart(s, devices);
            }
        },
    }
}

proof fn lemma_waiting_kept(queue: Seq<Waiting>, root: Seq<char>)
    requires
        forall|i: int| 0 <= i < queue.len() ==> (#[trigger] queue[i]).path.len() > 0,
    ensures
        forall|i: int|
            0 <= i < waiting_outside(queue, root).len() ==> (#[trigger] waiting_outside(
                queue,
                root,
            )[i]).path.len() > 0,
    decreases queue.len(),
{
    if queue.len() > 0 {
        let init = queue.drop_last();
        assert forall|i: int| 0 <= i < init.len() implies (#[trigger] init[i]).path.len() > 0 by {
            assert(init[i] == queue[i]);
        }
        lemma_waiting_kept(init, root);
        assert(queue[queue.len() - 1].path.len() > 0);
    }
}

/// Whatever the steps of a search are, what it found and what it has still to read lie
/// apart: nothing is walked twice, and nothing inside a checkout is walked.
pub proof fn a_search_keeps_apart(depth: int, moves: Seq<Move>)
    requires
        forall|i: int| 0 <= i < moves.len() ==> plausible(#[trigger] moves[i]),
    ensures
        separate(walked_all(begun(depth), moves)),
        apart(found_paths(walked_all(begun(depth), moves).found)),
    decreases moves.len(),
{
    let s = walked_all(begun(depth), moves);
    if moves.len() == 0 {
        assert(found_paths(s.found) + paths_of(s.queue) =~= Seq::<Seq<char>>::empty());
        assert(paths_of(s.queue) =~= s.seen);
    } else {
        let init = moves.drop_last();
        assert forall|i: int| 0 <= i < init.len() implies plausible(#[trigger] init[i]) by {
            assert(init[i] == moves[i]);
        }
        a_search_keeps_apart(depth, init);
        assert(plausible(moves[moves.len() - 1]));
        a_step_keeps_apart(walked_all(begun(depth), init), moves.last());
    }
    let f = found_paths(s.found);
    let all = f + paths_of(s.queue);
    if s.at is Some {
        lemma_left_apart(s);
    }
    lemma_some_apart(all, f, Seq::new(f.len(), |i: int| i));
}

/// What a search found comes in the strict order of its paths, whatever its steps were.
pub proof fn a_search_finds_in_order(walk: Walk, depth: int, moves: Seq<Move>)
    requires
        forall|i: int| 0 <= i < moves.len() ==> plausible(#[trigger] moves[i]),
        walk@ == walked_all(begun(depth), moves),
    ensures
        forall|i: int, j: int|
            0 <= i < j < order::sorted(walk.found@).len() ==> {
                &&& order::key_le(
                    (#[trigger] order::sorted(walk.found@)[i]).key(),
                    (#[trigger] order::sorted(walk.found@)[j]).key(),
                )
                &&& order::sorted(walk.found@)[i].key() != order::sorted(walk.found@)[j].key()
            },
{
    a_search_keeps_apart(depth, moves);
    assert(found_paths(walk@.found) =~= walk.found@.map_values(|f: Found| f.path@));
    found_paths_rise(walk);
}

/// What was found comes in the order of its paths, none of them twice, where nothing
/// was walked twice.
proof fn found_paths_rise(walk: Walk)
    requires
        apart(walk.found@.map_values(|f: Found| f.path@)),
    ensures
        forall|i: int, j: int|
            0 <= i < j < order::sorted(walk.found@).len() ==> {
                &&& order::key_le(
                    (#[trigger] order::sorted(walk.found@)[i]).key(),
                    (#[trigger] order::sorted(walk.found@)[j]).key(),
                )
                &&& order::sorted(walk.found@)[i].key() != order::sorted(walk.found@)[j].key()
            },
{
    let all = walk.found@;
    let paths = all.map_values(|f: Found| f.path@);
    assert forall|i: int, j: int| 0 <= i < j < all.len() implies (#[trigger] all[i]).key() != (
    #[trigger] all[j]).key() by {
        assert(paths[i] == all[i].path@);
        assert(paths[j] == all[j].path@);
        assert(!path::under(paths[j], paths[i]));
        if all[i].key() == all[j].key() {
            path::lemma_keys_tell_apart(all[i].path@, all[j].path@);
            let c = path::components(paths[i]);
            assert(c.take(c.len() as int) =~= c);
        }
    }
    order::distinct_keys_rise(all);
}

// ---------------------------------------------------------------------------
// What a `.git` means
// ---------------------------------------------------------------------------

/// The first line that points to a git directory, from line `from` on.
pub open spec fn pointer_from(lines: Seq<Seq<char>>, from: int) -> Option<Seq<char>>
    decreases lines.len() - from,
{
    if from < 0 || from >= lines.len() {
        None
    } else {
        match text::after(text::trim(lines[from]), "gitdir:"@) {
            Some(rest) => Some(text::trim(rest)),
            None => pointer_from(lines, from + 1),
        }
    }
}

/// Whether one component directly follows another in a path.
pub open spec fn adjacent(parts: Seq<Seq<char>>, first: Seq<char>, second: Seq<char>) -> bool {
    exists|i: int| 0 <= i < parts.len() - 1 && #[trigger] parts[i] == first && parts[i + 1] == second
}

/// Whether `first` is immediately followed by `second` in a path.
pub fn has_adjacent(p: &str, first: &str, second: &str) -> (r: bool)
    ensures
        r == adjacent(path::components(p@), first@, second@),
{
    let parts = path::parts_of(p);
    let ghost all = path::components(p@);
    let mut i: usize = 0;
    while i < parts.len()
        invariant
            i <= parts.len(),
            all == path::components(p@),
            all == text::texts(parts@),
            all.len() == parts@.len(),
            forall|k: int|
                0 <= k < i && k < all.len() - 1 && #[trigger] all[k] == first@ ==> all[k + 1]
                    != second@,
        decreases parts.len() - i,
    {
        if i + 1 < parts.len() {
            let here = text::same(parts[i].as_str(), first);
            let there = text::same(parts[i + 1].as_str(), second);
            proof {
                assert(all[i as int] == parts@[i as int]@);
                assert(all[i + 1] == parts@[i + 1]@);
            }
            if here && there {
                return true;
            }
        }
        i = i + 1;
    }
    false
}

/// The git directory that a `.git` file names, unless there is none or it is that
/// of a submodule.
pub open spec fn linked_to(directory: Seq<char>, contents: Seq<char>) -> Option<Seq<char>> {
    match pointer_from(text::lines(contents), 0) {
        None => None,
        Some(pointer) => {
            let gitdir = path::joined(directory, pointer);
            if adjacent(path::components(gitdir), ".git"@, "modules"@) {
                None
            } else {
                Some(gitdir)
            }
        },
    }
}

/// The git directory that a `.git` file names.
pub fn linked_gitdir(directory: &str, contents: &str) -> (r: Option<String>)
    ensures
        text::opt(r) == linked_to(directory@, contents@),
{
    let lines = text::lines_of(contents);
    let ghost all = text::lines(contents@);
    let mut i: usize = 0;
    while i < lines.len()
        invariant
            i <= lines.len(),
            all == text::texts(lines@),
            all.len() == lines@.len(),
            all == text::lines(contents@),
            pointer_from(all, 0) == pointer_from(all, i as int),
        decreases lines.len() - i,
    {
        proof {
            assert(all[i as int] == lines@[i as int]@);
        }
        let line = text::trimmed(lines[i].as_str());
        if let Some(rest) = text::strip_prefix(line.as_str(), "gitdir:") {
            let pointer = text::trimmed(rest.as_str());
            let gitdir = path::join(directory, pointer.as_str());
            if has_adjacent(gitdir.as_str(), ".git", "modules") {
                return None;
            }
            return Some(gitdir);
        }
        i = i + 1;
    }
    None
}

/// Where a `commondir` file points, unless it is absent or blank.
pub open spec fn common_target(gitdir: Seq<char>, commondir: Option<Seq<char>>) -> Option<
    Seq<char>,
> {
    match commondir {
        Some(contents) => if text::trim(contents).len() > 0 {
            Some(path::joined(gitdir, text::trim(contents)))
        } else {
            None
        },
        None => None,
    }
}

/// The last position of a component.
pub open spec fn last_position(parts: Seq<Seq<char>>, part: Seq<char>) -> Option<int>
    decreases parts.len(),
{
    if parts.len() == 0 {
        None
    } else if parts.last() == part {
        Some(parts.len() - 1)
    } else {
        last_position(parts.drop_last(), part)
    }
}

/// What lies above the last `worktrees` of a path.
pub open spec fn above_worktrees(gitdir: Seq<char>) -> Option<Seq<char>> {
    match last_position(path::components(gitdir), "worktrees"@) {
        Some(i) => Some(path::path_text(path::components(gitdir).take(i))),
        None => None,
    }
}

/// The git directory that a linked worktree shares: where `commondir` points, in
/// its canonical form where it has one; else what lies above `worktrees`.
pub open spec fn shared_gitdir(
    gitdir: Seq<char>,
    commondir: Option<Seq<char>>,
    canonical: Option<Seq<char>>,
) -> Option<Seq<char>> {
    match common_target(gitdir, commondir) {
        Some(resolved) => match canonical {
            Some(c) => Some(c),
            None => Some(resolved),
        },
        None => above_worktrees(gitdir),
    }
}

/// Where a `commondir` file points.
pub fn commondir_target(gitdir: &str, commondir: &Option<String>) -> (r: Option<String>)
    ensures
        text::opt(r) == common_target(gitdir@, text::opt(*commondir)),
{
    match commondir {
        Some(contents) => {
            let relative = text::trimmed(contents.as_str());
            if relative.as_str().unicode_len() > 0 {
                Some(path::join(gitdir, relative.as_str()))
            } else {
                None
            }
        },
        None => None,
    }
}

proof fn lemma_last_position(parts: Seq<Seq<char>>, part: Seq<char>, n: int)
    requires
        0 <= n <= parts.len(),
        forall|k: int| n <= k < parts.len() ==> #[trigger] parts[k] != part,
    ensures
        last_position(parts, part) == last_position(parts.take(n), part),
    decreases parts.len(),
{
    if n == parts.len() {
        assert(parts.take(n) =~= parts);
    } else {
        assert(parts[parts.len() - 1] != part);
        lemma_last_position(parts.drop_last(), part, n);
        assert(parts.drop_last().take(n) =~= parts.take(n));
    }
}

/// The git directory that a linked worktree shares; `canonical` is the canonical
/// form of where its `commondir` points.
pub fn common_gitdir(gitdir: &str, commondir: &Option<String>, canonical: &Option<String>) -> (r:
    Option<String>)
    ensures
        text::opt(r) == shared_gitdir(gitdir@, text::opt(*commondir), text::opt(*canonical)),
{
    if let Some(resolved) = commondir_target(gitdir, commondir) {
        return match canonical {
            Some(c) => Some(c.clone()),
            None => Some(resolved),
        };
    }
    let mut parts = path::parts_of(gitdir);
    let ghost all = path::components(gitdir@);
    let mut i: usize = parts.len();
    while i > 0
        invariant
            i <= parts.len(),
            common_target(gitdir@, text::opt(*commondir)) is None,
            all == path::components(gitdir@),
            all == text::texts(parts@),
            all.len() == parts@.len(),
            forall|k: int| i <= k < all.len() ==> #[trigger] all[k] != "worktrees"@,
        decreases i,
    {
        proof {
            assert(all[i - 1] == parts@[i - 1]@);
        }
        if text::same(parts[i - 1].as_str(), "worktrees") {
            let ghost before = parts@;
            parts.truncate(i - 1);
            proof {
                lemma_last_position(all, "worktrees"@, i as int);
                assert(all.take(i as int).last() == "worktrees"@);
                assert(text::texts(parts@) =~= all.take(i - 1));
            }
            return Some(path::from_parts(&parts));
        }
        i = i - 1;
    }
    proof {
        lemma_last_position(all, "worktrees"@, 0);
        assert(all.take(0).len() == 0);
    }
    None
}

/// The greatest of the times that are not before the epoch, or 0.
pub open spec fn latest(times: Seq<Option<i64>>) -> int
    decreases times.len(),
{
    if times.len() == 0 {
        0
    } else {
        let rest = latest(times.drop_last());
        match times.last() {
            Some(t) => if t > rest {
                t as int
            } else {
                rest
            },
            None => rest,
        }
    }
}

/// The most recent git activity, of the times of the files that git writes on
/// nearly every operation.
pub fn touched(times: &Vec<Option<i64>>) -> (r: u64)
    ensures
        r == latest(times@),
{
    let mut best: u64 = 0;
    let mut i: usize = 0;
    while i < times.len()
        invariant
            i <= times.len(),
            best == latest(times@.take(i as int)),
            best <= i64::MAX,
        decreases times.len() - i,
    {
        proof {
            assert(times@.take(i + 1).drop_last() =~= times@.take(i as int));
        }
        if let Some(t) = times[i] {
            if t >= 0 && t as u64 > best {
                best = t as u64;
            }
        }
        i = i + 1;
    }
    proof {
        assert(times@.take(times@.len() as int) =~= times@);
    }
    best
}

/// What was read of a `.git`: the file's contents where it is one, the contents of
/// the `commondir` that it leads to, the canonical form of where that points, and
/// when git was last active.
#[derive(Debug)]
pub struct GitEntry {
    pub path: String,
    pub is_dir: bool,
    pub contents: Option<String>,
    pub commondir: Option<String>,
    pub canonical: Option<String>,
    pub touched: u64,
}

/// What a `.git` means.
pub open spec fn meaning(directory: Seq<char>, git: GitEntry) -> Option<Candidate> {
    if git.is_dir {
        Some(
            Candidate {
                path: directory,
                kind: CandidateKind::Checkout,
                common_gitdir: git.path@,
                touched: git.touched,
            },
        )
    } else {
        match text::opt(git.contents) {
            None => None,
            Some(contents) => match linked_to(directory, contents) {
                None => None,
                Some(gitdir) => match shared_gitdir(
                    gitdir,
                    text::opt(git.commondir),
                    text::opt(git.canonical),
                ) {
                    None => None,
                    Some(common) => Some(
                        Candidate {
                            path: directory,
                            kind: CandidateKind::Linked,
                            common_gitdir: common,
                            touched: git.touched,
                        },
                    ),
                },
            },
        }
    }
}

/// Decides what a `.git` means: a directory is a checkout's own; a file names the
/// git directory of a linked worktree, unless it is that of a submodule.
pub fn classify(directory: &str, git: &GitEntry) -> (r: Option<Found>)
    ensures
        match r {
            Some(f) => Some(f@),
            None => None,
        } == meaning(directory@, *git),
{
    if git.is_dir {
        return Some(
            Found {
                path: directory.to_owned(),
                kind: CandidateKind::Checkout,
                common_gitdir: git.path.clone(),
                touched: git.touched,
            },
        );
    }
    match &git.contents {
        None => None,
        Some(contents) => match linked_gitdir(directory, contents.as_str()) {
            None => None,
            Some(gitdir) => match common_gitdir(gitdir.as_str(), &git.commondir, &git.canonical) {
                None => None,
                Some(common) => Some(
                    Found {
                        path: directory.to_owned(),
                        kind: CandidateKind::Linked,
                        common_gitdir: common,
                        touched: git.touched,
                    },
                ),
            },
        },
    }
}

/// A directory is searched exactly where it can be read, is a directory, and is neither
/// git's, hidden nor one of those that are passed over.
pub proof fn every_plain_directory_is_a_child(directory: Seq<char>, entries: Seq<Entry>, y: Seq<char>)
    ensures
        children_of(directory, entries).contains(y) <==> (exists|i: int|
            0 <= i < entries.len() && (#[trigger] entries[i]).name is Some && entries[i].is_dir == Some(true) && entries[i].name->0@ != ".git"@ && !text::starts(entries[i].name->0@, "."@) && !skip_list().contains(entries[i].name->0@) && y == path::joined(directory, entries[i].name->0@)),
    decreases entries.len(),
{
    let all = children_of(directory, entries);
    if entries.len() > 0 {
        let rest = entries.drop_last();
        let some = children_of(directory, rest);
        every_plain_directory_is_a_child(directory, rest, y);
        if all.contains(y) {
            let k = choose|k: int| 0 <= k < all.len() && all[k] == y;
            if k < some.len() {
                assert(some[k] == y);
                let i = choose|i: int| 0 <= i < rest.len() && (#[trigger] rest[i]).name is Some && rest[i].is_dir == Some(true) && rest[i].name->0@ != ".git"@ && !text::starts(rest[i].name->0@, "."@) && !skip_list().contains(rest[i].name->0@) && y == path::joined(directory, rest[i].name->0@);
                assert(entries[i] == rest[i]);
            } else {
                assert(entries[rest.len() as int].name is Some && entries[rest.len() as int].is_dir == Some(true) && entries[rest.len() as int].name->0@ != ".git"@ && !text::starts(entries[rest.len() as int].name->0@, "."@) && !skip_list().contains(entries[rest.len() as int].name->0@) && y == path::joined(directory, entries[rest.len() as int].name->0@));
            }
        }
        if exists|i: int| 0 <= i < entries.len() && (#[trigger] entries[i]).name is Some && entries[i].is_dir == Some(true) && entries[i].name->0@ != ".git"@ && !text::starts(entries[i].name->0@, "."@) && !skip_list().contains(entries[i].name->0@) && y == path::joined(directory, entries[i].name->0@) {
            let i = choose|i: int| 0 <= i < entries.len() && (#[trigger] entries[i]).name is Some && entries[i].is_dir == Some(true) && entries[i].name->0@ != ".git"@ && !text::starts(entries[i].name->0@, "."@) && !skip_list().contains(entries[i].name->0@) && y == path::joined(directory, entries[i].name->0@);
            if i < rest.len() {
                assert(rest[i] == entries[i]);
                let k = choose|k: int| 0 <= k < some.len() && some[k] == y;
                assert(all[k] == y);
            } else {
                assert(all[all.len() - 1] == y);
            }
        }
    }
}

/// What is searched next stays on the device of what it was found in, where that is known.
pub proof fn only_another_device_is_left_out(
    children: Seq<Seq<char>>,
    devices: Seq<Option<u64>>,
    level: int,
    device: Option<u64>,
    child: Seq<char>,
    on: Option<u64>,
)
    requires
        children.len() == devices.len(),
    ensures
        on_device(children.push(child), devices.push(on), level, device) == (if device is None || on
            == device {
            on_device(children, devices, level, device).push(Waiting { path: child, level, device })
        } else {
            on_device(children, devices, level, device)
        }),
{
    assert(children.push(child).drop_last() =~= children);
    assert(devices.push(on).drop_last() =~= devices);
}

/// A repository is found wherever an entry is git's, and each marker counts.
pub proof fn what_a_directory_shows(entries: Seq<Entry>, e: Entry)
    requires
        e.name is Some,
        e.is_dir is Some,
    ensures
        e.name->0@ == ".git"@ ==> git_of(entries.push(e)) == e.is_dir && markers(entries.push(e))
            == markers(entries),
        e.name->0@ != ".git"@ ==> git_of(entries.push(e)) == git_of(entries),
        e.name->0@ != ".git"@ && marker_list().contains(e.name->0@) ==> markers(entries.push(e))
            == markers(entries) + 1,
        !marker_list().contains(e.name->0@) ==> markers(entries.push(e)) == markers(entries),
{
    assert(entries.push(e).drop_last() =~= entries);
}

/// The directory of git that worktrees share is the one that is named, by its plain path
/// where that is known, and else the one above its worktrees.
pub proof fn which_directory_of_git_is_shared(
    gitdir: Seq<char>,
    commondir: Option<Seq<char>>,
    canonical: Option<Seq<char>>,
)
    ensures
        commondir is None || text::trim(commondir->0).len() == 0 ==> shared_gitdir(
            gitdir,
            commondir,
            canonical,
        ) == above_worktrees(gitdir),
        commondir is Some && text::trim(commondir->0).len() > 0 ==> shared_gitdir(
            gitdir,
            commondir,
            canonical,
        ) == Some(
            if canonical is Some {
                canonical->0
            } else {
                path::joined(gitdir, text::trim(commondir->0))
            },
        ),
{
}

} // verus!
