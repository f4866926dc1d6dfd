//! What commands share: the home directory and the paths below it, the registry of
//! trees, whose a directory is, consent, and the places of new trees.

use vstd::prelude::*;
use vstd::string::*;

use crate::assoc;
use crate::assoc::Assoc;
use crate::doctor::Geometry;
use crate::error;
use crate::error::{CoreError, ExitClass};
use crate::git;
use crate::json;
use crate::json::{Doc, Json, Kind, Shape};
use crate::model::StatePhase;
use crate::path;
use crate::text;

verus! {

broadcast use vstd::string::group_string_axioms;

// ---------------------------------------------------------------------------
// The home directory
// ---------------------------------------------------------------------------

/// The home directory: the one that is given, that of the environment, or the one
/// below the user's own.
pub open spec fn home_of(given: Option<Seq<char>>, env: Map<Seq<char>, Seq<char>>) -> Option<
    Seq<char>,
> {
    if given is Some {
        given
    } else if env.contains_key("WT_HOME"@) {
        Some(env["WT_HOME"@])
    } else if env.contains_key("HOME"@) {
        Some(path::joined(env["HOME"@], ".wt"@))
    } else {
        None
    }
}

/// Finds the home directory.
pub fn resolve_home(given: &Option<String>, env: &Assoc<String>) -> (r: Result<String, CoreError>)
    requires
        env.wf(),
    ensures
        match home_of(text::opt(*given), assoc::values(env@)) {
            Some(home) => r matches Ok(h) && h@ == home,
            None => r matches Err(e) && e@ == error::fault(
                ExitClass::State,
                "HOME_UNRESOLVED"@,
                "WT_HOME could not be resolved"@,
                "pass `--home DIR`, set WT_HOME, or set HOME"@,
            ),
        },
{
    if let Some(home) = given {
        return Ok(home.clone());
    }
    if let Some(home) = env.get("WT_HOME") {
        return Ok(home.clone());
    }
    if let Some(home) = env.get("HOME") {
        return Ok(path::join(home.as_str(), ".wt"));
    }
    Err(
        CoreError::new(
            ExitClass::State,
            "HOME_UNRESOLVED",
            "WT_HOME could not be resolved",
            "pass `--home DIR`, set WT_HOME, or set HOME",
        ),
    )
}

/// Refuses a home directory of an older kind, of whether the registry and either of
/// the older files are there.
pub fn check_format(registry: bool, old_registry: bool, old_state: bool) -> (r: Result<
    (),
    CoreError,
>)
    ensures
        r is Ok == (!old_registry && !old_state),
        r matches Err(e) ==> e@ == if registry {
            error::fault(
                ExitClass::State,
                "HOME_MIXED"@,
                "WT_HOME contains both old and current formats"@,
                "move or delete WT_HOME, then re-register"@,
            )
        } else {
            error::fault(
                ExitClass::State,
                "HOME_OLD_FORMAT"@,
                "WT_HOME contains the unsupported old format"@,
                "move or delete WT_HOME, then re-register"@,
            )
        },
{
    if !old_registry && !old_state {
        return Ok(());
    }
    if registry {
        Err(
            CoreError::new(
                ExitClass::State,
                "HOME_MIXED",
                "WT_HOME contains both old and current formats",
                "move or delete WT_HOME, then re-register",
            ),
        )
    } else {
        Err(
            CoreError::new(
                ExitClass::State,
                "HOME_OLD_FORMAT",
                "WT_HOME contains the unsupported old format",
                "move or delete WT_HOME, then re-register",
            ),
        )
    }
}

/// The current directory could not be read.
pub fn cwd_missing(why: &str) -> (r: CoreError)
    ensures
        r@ == error::fault(
            ExitClass::State,
            "CWD_MISSING"@,
            "cannot read the current directory: "@ + why@,
            "change to an existing directory and retry"@,
        ),
{
    let message = "cannot read the current directory: ".to_owned().concat(why);
    CoreError::new(
        ExitClass::State,
        "CWD_MISSING",
        message.as_str(),
        "change to an existing directory and retry",
    )
}

/// The path of a lock below the home directory, of a label and a name.
pub open spec fn lock_file(home: Seq<char>, label: Seq<char>, name: Seq<char>, tail: Seq<char>) -> Seq<
    char,
> {
    path::joined(home, "locks/"@ + label + "/"@ + name + tail)
}

fn below_locks(home: &str, label: &str, name: &str, tail: &str) -> (r: String)
    ensures
        r@ == lock_file(home@, label@, name@, tail@),
{
    let rest = "locks/".to_owned().concat(label).concat("/").concat(name).concat(tail);
    path::join(home, rest.as_str())
}

/// The lock of a tree's record.
pub fn state_lock_path(home: &str, label: &str, name: &str) -> (r: String)
    ensures
        r@ == lock_file(home@, label@, name@, ".rmw.lock"@),
{
    below_locks(home, label, name, ".rmw.lock")
}

/// The lock of a tree.
pub fn tree_lock_path(home: &str, label: &str, name: &str) -> (r: String)
    ensures
        r@ == lock_file(home@, label@, name@, ".lock"@),
{
    below_locks(home, label, name, ".lock")
}

/// The lock of a process that uses a tree.
pub fn door_lock_path(home: &str, label: &str, name: &str, pid: u32) -> (r: String)
    ensures
        r@ == lock_file(
            home@,
            label@,
            name@,
            ".doors/"@ + text::decimal(pid as nat) + ".lock"@,
        ),
{
    let tail = ".doors/".to_owned().concat(text::decimal_of(pid as u64).as_str()).concat(".lock");
    below_locks(home, label, name, tail.as_str())
}

/// The lock of a repository's git.
pub fn git_lock_path(home: &str, gitdir_id: &str) -> (r: String)
    ensures
        r@ == path::joined(home@, "locks/git/"@ + gitdir_id@ + ".lock"@),
{
    let rest = "locks/git/".to_owned().concat(gitdir_id).concat(".lock");
    path::join(home, rest.as_str())
}

/// The directory of all caches.
pub open spec fn caches(home: Seq<char>) -> Seq<char> {
    path::joined(home, "cache"@)
}

/// The directory of all caches.
pub fn cache_root(home: &str) -> (r: String)
    ensures
        r@ == caches(home@),
{
    path::join(home, "cache")
}

/// The cache of a tree.
pub fn tree_cache_dir(home: &str, label: &str, name_short: &str) -> (r: String)
    ensures
        r@ == path::joined(
            path::joined(path::joined(caches(home@), "cargo-build"@), label@),
            name_short@,
        ),
{
    let all = path::join(cache_root(home).as_str(), "cargo-build");
    path::join(path::join(all.as_str(), label).as_str(), name_short)
}

// ---------------------------------------------------------------------------
// Waiting and consent
// ---------------------------------------------------------------------------

/// How long a wait is: as it is set, or as usual. In milliseconds.
pub fn duration(value: Option<u64>, default: u64) -> (r: u64)
    ensures
        r == match value {
            Some(v) => v,
            None => default,
        },
{
    match value {
        Some(v) => v,
        None => default,
    }
}

/// How long the lock of a record is waited for.
pub fn rmw_wait(set: Option<u64>) -> (r: u64)
    ensures
        r == match set {
            Some(v) => v,
            None => 5000,
        },
{
    duration(set, 5000)
}

/// How long the lock of a tree is waited for. `given` stands where a wait was asked
/// for, with what it reads as: one that reads as none falls back to the usual wait,
/// not to the one that is set.
pub fn tree_wait(given: Option<Option<u64>>, set: Option<u64>) -> (r: u64)
    ensures
        r == match given {
            Some(Some(v)) => v,
            Some(None) => 30000,
            None => match set {
                Some(v) => v,
                None => 30000,
            },
        },
{
    match given {
        Some(v) => duration(v, 30000),
        None => duration(set, 30000),
    }
}

/// How long the lock of a repository's git is waited for.
pub fn git_wait(set: Option<u64>) -> (r: u64)
    ensures
        r == match set {
            Some(v) => v,
            None => 60000,
        },
{
    duration(set, 60000)
}

/// What becomes of a request for consent.
#[derive(Debug)]
pub enum Consent {
    Given,
    /// Ask this.
    Ask(String),
}

/// Asks for consent to something: it was given before, or it is asked for where
/// someone can answer, or it is refused.
pub fn confirm(action: &str, yes: bool, stdin_is_terminal: bool) -> (r: Result<Consent, CoreError>)
    ensures
        if yes {
            r matches Ok(c) && c is Given
        } else if stdin_is_terminal {
            r matches Ok(c) && (c matches Consent::Ask(q) && q@ == question(action@ + "?"@))
        } else {
            r matches Err(e) && e@ == error::fault(
                ExitClass::Usage,
                "CONFIRM_REQUIRED"@,
                action@ + " requires confirmation"@,
                "re-run with --yes after reviewing the plan"@,
            )
        },
{
    if yes {
        return Ok(Consent::Given);
    }
    if !stdin_is_terminal {
        let message = action.to_owned().concat(" requires confirmation");
        return Err(
            CoreError::new(
                ExitClass::Usage,
                "CONFIRM_REQUIRED",
                message.as_str(),
                "re-run with --yes after reviewing the plan",
            ),
        );
    }
    let q = action.to_owned().concat("?");
    Ok(Consent::Ask(asked(q.as_str())))
}

/// A question as it is put.
pub open spec fn question(q: Seq<char>) -> Seq<char> {
    q + " [y/N] "@
}

/// A question as it is put.
pub fn asked(q: &str) -> (r: String)
    ensures
        r@ == question(q@),
{
    q.to_owned().concat(" [y/N] ")
}

/// Whether an answer consents.
pub open spec fn consents(answer: Seq<char>) -> bool {
    text::lower(text::trim(answer)) == "y"@ || text::lower(text::trim(answer)) == "yes"@
}

/// Whether an answer consents: only `y` and `yes` do, in any case.
pub fn affirmative(answer: &str) -> (r: bool)
    ensures
        r == consents(answer@),
{
    let said = text::lowered(text::trimmed(answer).as_str());
    text::same(said.as_str(), "y") || text::same(said.as_str(), "yes")
}

// ---------------------------------------------------------------------------
// The registry
// ---------------------------------------------------------------------------

/// From what a tree is made.
#[derive(Clone, Copy, Debug, PartialEq, Eq, Structural)]
pub enum SourceKind {
    Canonical,
    Branch,
    Pr,
    Ref,
    Adopted,
}

/// A tree as it is registered: `ports` gives the place in its slot of each port that has
/// a name, and `kind`, `branch`, `pr` and `start` say from what it was made.
#[derive(Debug)]
pub struct TreeRec {
    pub tree_id: String,
    pub label: String,
    pub name: String,
    pub canonical: bool,
    pub path: String,
    pub slot: u32,
    pub geometry: Geometry,
    pub ports: Assoc<u8>,
    pub name_short: String,
    pub session_name: String,
    pub created_at: String,
    pub agent: Option<String>,
    pub meta: Assoc<String>,
    pub kind: SourceKind,
    pub branch: Option<String>,
    pub pr: Option<u64>,
    pub start: Option<String>,
}

/// A repository as it is registered.
#[derive(Debug)]
pub struct LabelRec {
    pub path: String,
    pub gitdir_id: String,
    pub common_gitdir: String,
    pub registered_at: String,
    pub trees_dir: Option<String>,
    pub default_branch: Option<String>,
}

/// What is left of a tree that was removed: its place, the files that were put into it,
/// and when and why it went.
#[derive(Debug)]
pub struct Tombstone {
    pub label: String,
    pub name: String,
    pub slot: u32,
    pub geometry: Geometry,
    pub ports: Assoc<u8>,
    pub name_short: String,
    pub session_name: String,
    pub path: String,
    pub materialized: Vec<String>,
    pub removed_at: String,
    pub reason: String,
}

/// The place that a tree is given: its slot, its ports and its names.
#[derive(Debug)]
pub struct Coordinates {
    pub slot: u32,
    pub geometry: Geometry,
    pub ports: Assoc<u8>,
    pub name_short: String,
    pub session_name: String,
}

/// Whether a tree is at a place.
pub open spec fn placed(tree: TreeRec, at: Coordinates) -> bool {
    &&& tree.slot == at.slot
    &&& tree.geometry == at.geometry
    &&& tree.ports == at.ports
    &&& tree.name_short == at.name_short
    &&& tree.session_name == at.session_name
}

/// A copy of the places of ports.
pub fn copy_ports(ports: &Assoc<u8>) -> (r: Assoc<u8>)
    ensures
        r.entries@ == ports.entries@,
        r@ == ports@,
        r.wf() == ports.wf(),
{
    let mut entries: Vec<(String, u8)> = Vec::new();
    let mut i: usize = 0;
    while i < ports.entries.len()
        invariant
            i <= ports.entries@.len(),
            entries@ =~= ports.entries@.take(i as int),
        decreases ports.entries@.len() - i,
    {
        entries.push((ports.entries[i].0.clone(), ports.entries[i].1));
        i = i + 1;
    }
    proof {
        assert(entries@ =~= ports.entries@);
    }
    Assoc { entries }
}

/// Everything that is registered.
#[derive(Debug)]
pub struct Registry {
    pub labels: Assoc<LabelRec>,
    pub trees: Vec<TreeRec>,
    pub tombstones: Vec<Tombstone>,
}

/// Which trees are those of a label and a name.
pub open spec fn addressed(trees: Seq<TreeRec>, label: Seq<char>, name: Seq<char>) -> Seq<bool> {
    trees.map_values(|t: TreeRec| t.label@ == label && t.name@ == name)
}

/// Which trees are the canonical checkout of a label.
pub open spec fn canonicals(trees: Seq<TreeRec>, label: Seq<char>) -> Seq<bool> {
    trees.map_values(|t: TreeRec| t.canonical && t.label@ == label)
}

/// Which trees are at a path.
pub open spec fn at_path(trees: Seq<TreeRec>, p: Seq<char>) -> Seq<bool> {
    trees.map_values(|t: TreeRec| t.path@ == p)
}

/// Which tombstones are those of a label and a name.
pub open spec fn buried(tombstones: Seq<Tombstone>, label: Seq<char>, name: Seq<char>) -> Seq<bool> {
    tombstones.map_values(|t: Tombstone| t.label@ == label && t.name@ == name)
}

/// Which labels are of a repository.
pub open spec fn of_gitdir(entries: Seq<(String, LabelRec)>, id: Seq<char>) -> Seq<bool> {
    entries.map_values(|e: (String, LabelRec)| e.1.gitdir_id@ == id)
}

/// Which labels are of a checkout.
pub open spec fn of_checkout(entries: Seq<(String, LabelRec)>, p: Seq<char>) -> Seq<bool> {
    entries.map_values(|e: (String, LabelRec)| e.1.path@ == p)
}

/// The place as a number of the kind that vectors count in.
pub open spec fn place(i: Option<usize>) -> Option<int> {
    match i {
        Some(n) => Some(n as int),
        None => None,
    }
}

impl Registry {
    /// Labels are in order, each once.
    pub open spec fn wf(&self) -> bool {
        self.labels.wf()
    }

    /// The first tree of a label and a name.
    pub fn tree_at(&self, label: &str, name: &str) -> (r: Option<usize>)
        ensures
            place(r) == git::first_true(addressed(self.trees@, label@, name@), 0),
            r matches Some(i) ==> i < self.trees@.len() && self.trees@[i as int].label@ == label@
                && self.trees@[i as int].name@ == name@,
    {
        let ghost flags = addressed(self.trees@, label@, name@);
        let mut i: usize = 0;
        while i < self.trees.len()
            invariant
                i <= self.trees.len(),
                flags == addressed(self.trees@, label@, name@),
                git::first_true(flags, 0) == git::first_true(flags, i as int),
            decreases self.trees.len() - i,
        {
            if text::same(self.trees[i].label.as_str(), label) && text::same(
                self.trees[i].name.as_str(),
                name,
            ) {
                return Some(i);
            }
            i = i + 1;
        }
        None
    }

    /// The first canonical checkout of a label.
    pub fn canonical_at(&self, label: &str) -> (r: Option<usize>)
        ensures
            place(r) == git::first_true(canonicals(self.trees@, label@), 0),
            r matches Some(i) ==> i < self.trees@.len() && self.trees@[i as int].label@ == label@
                && self.trees@[i as int].canonical,
    {
        let ghost flags = canonicals(self.trees@, label@);
        let mut i: usize = 0;
        while i < self.trees.len()
            invariant
                i <= self.trees.len(),
                flags == canonicals(self.trees@, label@),
                git::first_true(flags, 0) == git::first_true(flags, i as int),
            decreases self.trees.len() - i,
        {
            if self.trees[i].canonical && text::same(self.trees[i].label.as_str(), label) {
                return Some(i);
            }
            i = i + 1;
        }
        None
    }

    /// The first tree at a path.
    pub fn path_at(&self, p: &str) -> (r: Option<usize>)
        ensures
            place(r) == git::first_true(at_path(self.trees@, p@), 0),
            r matches Some(i) ==> i < self.trees@.len() && self.trees@[i as int].path@ == p@,
    {
        let ghost flags = at_path(self.trees@, p@);
        let mut i: usize = 0;
        while i < self.trees.len()
            invariant
                i <= self.trees.len(),
                flags == at_path(self.trees@, p@),
                git::first_true(flags, 0) == git::first_true(flags, i as int),
            decreases self.trees.len() - i,
        {
            if text::same(self.trees[i].path.as_str(), p) {
                return Some(i);
            }
            i = i + 1;
        }
        None
    }

    /// The first label of a repository.
    pub fn gitdir_at(&self, id: &str) -> (r: Option<usize>)
        ensures
            place(r) == git::first_true(of_gitdir(self.labels.entries@, id@), 0),
            r matches Some(i) ==> i < self.labels.entries@.len(),
    {
        let ghost flags = of_gitdir(self.labels.entries@, id@);
        let mut i: usize = 0;
        while i < self.labels.entries.len()
            invariant
                i <= self.labels.entries.len(),
                flags == of_gitdir(self.labels.entries@, id@),
                git::first_true(flags, 0) == git::first_true(flags, i as int),
            decreases self.labels.entries.len() - i,
        {
            if text::same(self.labels.entries[i].1.gitdir_id.as_str(), id) {
                return Some(i);
            }
            i = i + 1;
        }
        None
    }

    /// The first label whose checkout is at a path.
    pub fn checkout_at(&self, p: &str) -> (r: Option<usize>)
        ensures
            place(r) == git::first_true(of_checkout(self.labels.entries@, p@), 0),
            r matches Some(i) ==> i < self.labels.entries@.len(),
    {
        let ghost flags = of_checkout(self.labels.entries@, p@);
        let mut i: usize = 0;
        while i < self.labels.entries.len()
            invariant
                i <= self.labels.entries.len(),
                flags == of_checkout(self.labels.entries@, p@),
                git::first_true(flags, 0) == git::first_true(flags, i as int),
            decreases self.labels.entries.len() - i,
        {
            if text::same(self.labels.entries[i].1.path.as_str(), p) {
                return Some(i);
            }
            i = i + 1;
        }
        None
    }

    /// The first tombstone of a label and a name.
    pub fn tombstone_at(&self, label: &str, name: &str) -> (r: Option<usize>)
        ensures
            place(r) == git::first_true(buried(self.tombstones@, label@, name@), 0),
            r matches Some(i) ==> i < self.tombstones@.len(),
    {
        let ghost flags = buried(self.tombstones@, label@, name@);
        let mut i: usize = 0;
        while i < self.tombstones.len()
            invariant
                i <= self.tombstones.len(),
                flags == buried(self.tombstones@, label@, name@),
                git::first_true(flags, 0) == git::first_true(flags, i as int),
            decreases self.tombstones.len() - i,
        {
            if text::same(self.tombstones[i].label.as_str(), label) && text::same(
                self.tombstones[i].name.as_str(),
                name,
            ) {
                return Some(i);
            }
            i = i + 1;
        }
        None
    }

    /// The tree of a label and a name, under the name that it is asked for by.
    pub fn tree(&self, label: &str, name: &str, target: &str) -> (r: Result<&TreeRec, CoreError>)
        ensures
            match git::first_true(addressed(self.trees@, label@, name@), 0) {
                Some(i) => r matches Ok(t) && *t == self.trees@[i],
                None => r matches Err(e) && e@ == unknown(target@),
            },
    {
        match self.tree_at(label, name) {
            Some(i) => Ok(&self.trees[i]),
            None => Err(not_found(target)),
        }
    }
}

/// The fault of a target that is not registered.
pub open spec fn unknown(target: Seq<char>) -> error::Fault {
    error::fault(
        ExitClass::NotFound,
        "NOT_FOUND"@,
        "target `"@ + target + "` was not found"@,
        "run `wt list` to list live targets"@,
    )
}

/// A target that is not registered.
pub fn not_found(target: &str) -> (r: CoreError)
    ensures
        r@ == unknown(target@),
{
    let message = "target `".to_owned().concat(target).concat("` was not found");
    CoreError::new(
        ExitClass::NotFound,
        "NOT_FOUND",
        message.as_str(),
        "run `wt list` to list live targets",
    )
}

/// A tree has no record.
pub fn state_missing(target: &str) -> (r: CoreError)
    ensures
        r@ == error::fault(
            ExitClass::State,
            "STATE_CORRUPT"@,
            "state for `"@ + target@ + "` is missing"@,
            "run `wt doctor` and restore or prune the affected record"@,
        ),
{
    let message = "state for `".to_owned().concat(target).concat("` is missing");
    CoreError::new(
        ExitClass::State,
        "STATE_CORRUPT",
        message.as_str(),
        "run `wt doctor` and restore or prune the affected record",
    )
}

// ---------------------------------------------------------------------------
// Scripts
// ---------------------------------------------------------------------------

/// The files of a directory whose contents are looked at for what it builds with.
pub fn looked_into() -> (r: Vec<String>)
    ensures
        text::texts(r@) == seq!["package.json"@, "rustfmt.toml"@, ".rustfmt.toml"@],
{
    let mut names: Vec<String> = Vec::new();
    names.push("package.json".to_owned());
    names.push("rustfmt.toml".to_owned());
    names.push(".rustfmt.toml".to_owned());
    proof {
        assert(text::texts(names@) =~= seq!["package.json"@, "rustfmt.toml"@, ".rustfmt.toml"@]);
    }
    names
}

/// The names of the scripts that a package declares; none of what is no package.
pub open spec fn scripts_in(document: Option<Doc>) -> Seq<Seq<char>> {
    match document {
        Some(d) => match json::member(d, "scripts"@) {
            Some(scripts) => match scripts.shape {
                Shape::Object(members) => members.map_values(|m: (Seq<char>, Doc)| m.0),
                _ => Seq::<Seq<char>>::empty(),
            },
            None => Seq::<Seq<char>>::empty(),
        },
        None => Seq::<Seq<char>>::empty(),
    }
}

/// The names of the scripts that a document declares.
pub fn scripts_of(document: &Option<Json>) -> (r: Vec<String>)
    ensures
        text::texts(r@) == scripts_in(json::doc_option(*document)),
{
    let mut out: Vec<String> = Vec::new();
    let ghost all = scripts_in(json::doc_option(*document));
    proof {
        assert(text::texts(out@) =~= all.take(0));
    }
    if let Some(d) = document {
        if let Some(scripts) = d.get("scripts") {
            proof {
                json::what_a_value_holds(*scripts);
            }
            if let Kind::Object(members) = &scripts.kind {
                let mut i: usize = 0;
                proof {
                    assert(all =~= members@.map_values(|m: (String, Json)| m.0@));
                }
                while i < members.len()
                    invariant
                        i <= members.len(),
                        all == members@.map_values(|m: (String, Json)| m.0@),
                        text::texts(out@) == all.take(i as int),
                    decreases members.len() - i,
                {
                    let ghost prior = text::texts(out@);
                    out.push(members[i].0.clone());
                    proof {
                        assert(text::texts(out@) =~= prior.push(all[i as int]));
                        assert(all.take(i + 1) =~= all.take(i as int).push(all[i as int]));
                    }
                    i = i + 1;
                }
            }
        }
    }
    proof {
        assert(all.take(all.len() as int) =~= all);
        assert(text::texts(out@) =~= all);
    }
    out
}

/// The names of the scripts that a package declares.
pub fn declared_scripts(package: &[u8]) -> (r: Vec<String>)
    ensures
        text::texts(r@) == scripts_in(json::json_document(package@)),
{
    let document = json::parse(package);
    scripts_of(&document)
}

// ---------------------------------------------------------------------------
// Whose a directory is
// ---------------------------------------------------------------------------

/// What a tree's directory holds to show whose it is.
pub open spec fn identity(tree_id: Seq<char>) -> Seq<char> {
    tree_id + "\n"@
}

/// What is written into a tree's directory to show whose it is.
pub fn identity_text(tree_id: &str) -> (r: String)
    ensures
        r@ == identity(tree_id@),
{
    tree_id.to_owned().concat("\n")
}

/// Whether a directory is a tree's, of what is read there.
pub fn identity_ok(read: &Option<String>, tree_id: &str) -> (r: bool)
    ensures
        r == (text::opt(*read) == Some(identity(tree_id@))),
{
    match read {
        Some(said) => text::same(said.as_str(), identity_text(tree_id).as_str()),
        None => false,
    }
}

/// Two trees whose identities differ are never taken for one another.
pub proof fn identities_tell_apart(a: Seq<char>, b: Seq<char>)
    requires
        identity(a) == identity(b),
    ensures
        a == b,
{
    assert(identity(a).take(a.len() as int) =~= a);
    assert(identity(b).take(b.len() as int) =~= b);
    assert(identity(a).len() == a.len() + "\n"@.len());
}

/// The fault of a directory that is no longer a tree's. A canonical checkout can
/// only be repaired; another tree can be pruned, removed or adopted.
pub open spec fn replaced(
    p: Seq<char>,
    label: Seq<char>,
    target: Seq<char>,
    canonical: bool,
) -> error::Fault {
    error::fault(
        ExitClass::State,
        "TREE_REPLACED"@,
        p + " no longer carries its registered identity"@,
        if canonical {
            "run `wt register "@ + p + " --label "@ + label + " --repair`"@
        } else {
            "run `wt prune --records "@ + target + "`, `wt remove "@ + target
                + "`, or `wt adopt "@ + p + "`"@
        },
    )
}

/// Refuses a directory that is no longer a tree's.
pub fn require_identity(
    ok: bool,
    p: &str,
    label: &str,
    target: &str,
    canonical: bool,
) -> (r: Result<(), CoreError>)
    ensures
        r is Ok == ok,
        r matches Err(e) ==> e@ == replaced(p@, label@, target@, canonical),
{
    if ok {
        return Ok(());
    }
    let message = p.to_owned().concat(" no longer carries its registered identity");
    let remedy = if canonical {
        "run `wt register ".to_owned().concat(p).concat(" --label ").concat(label).concat(
            " --repair`",
        )
    } else {
        "run `wt prune --records ".to_owned().concat(target).concat("`, `wt remove ").concat(
            target,
        ).concat("`, or `wt adopt ").concat(p).concat("`")
    };
    Err(CoreError::new(ExitClass::State, "TREE_REPLACED", message.as_str(), remedy.as_str()))
}

/// Whether the lock of a tree tells how it stands: where its record says that
/// something is under way.
pub fn consults_lock(recorded: Option<StatePhase>) -> (r: bool)
    ensures
        r == (recorded matches Some(p) && p != StatePhase::Ready && p != StatePhase::Failed),
{
    match recorded {
        Some(p) => p != StatePhase::Ready && p != StatePhase::Failed,
        None => false,
    }
}

// ---------------------------------------------------------------------------
// The place of a new tree
// ---------------------------------------------------------------------------

/// The first and the last port of a place.
pub open spec fn range(g: Geometry) -> (int, int) {
    (g.port_base as int, g.port_base + g.stride - 1)
}

/// What is taken: the ports, the slots, and the names, by trees and tombstones.
#[derive(Debug)]
pub struct Taken {
    pub ranges: Vec<(u32, u32)>,
    pub slots: Vec<u32>,
    pub name_shorts: Vec<String>,
    pub sessions: Vec<String>,
}

/// The ranges of ports that are taken.
pub open spec fn ranges_of(r: Registry) -> Seq<(int, int)> {
    r.trees@.map_values(|t: TreeRec| range(t.geometry)) + r.tombstones@.map_values(
        |t: Tombstone| range(t.geometry),
    )
}

/// The slots that are taken.
pub open spec fn slots_of(r: Registry) -> Seq<u32> {
    r.trees@.map_values(|t: TreeRec| t.slot) + r.tombstones@.map_values(|t: Tombstone| t.slot)
}

/// The short names that are taken.
pub open spec fn short_names_of(r: Registry) -> Seq<Seq<char>> {
    r.trees@.map_values(|t: TreeRec| t.name_short@) + r.tombstones@.map_values(
        |t: Tombstone| t.name_short@,
    )
}

/// The names of sessions that are taken.
pub open spec fn sessions_of(r: Registry) -> Seq<Seq<char>> {
    r.trees@.map_values(|t: TreeRec| t.session_name@) + r.tombstones@.map_values(
        |t: Tombstone| t.session_name@,
    )
}

/// Numbers as they are counted.
pub open spec fn counted(ranges: Seq<(u32, u32)>) -> Seq<(int, int)> {
    ranges.map_values(|p: (u32, u32)| (p.0 as int, p.1 as int))
}

/// Whether the places of a registry have ports.
pub open spec fn places_hold(r: Registry) -> bool {
    (forall|i: int|
        0 <= i < r.trees@.len() ==> (#[trigger] r.trees@[i]).geometry.port_base
            + r.trees@[i].geometry.stride > 0) && (forall|i: int|
        0 <= i < r.tombstones@.len() ==> (#[trigger] r.tombstones@[i]).geometry.port_base
            + r.tombstones@[i].geometry.stride > 0)
}

fn range_of(g: &Geometry) -> (r: (u32, u32))
    requires
        g.port_base + g.stride > 0,
    ensures
        (r.0 as int, r.1 as int) == range(*g),
{
    (g.port_base as u32, g.port_base as u32 + g.stride as u32 - 1)
}

/// What is taken, of a registry whose places have ports.
pub fn taken(registry: &Registry) -> (r: Taken)
    requires
        places_hold(*registry),
    ensures
        counted(r.ranges@) == ranges_of(*registry),
        r.slots@ == slots_of(*registry),
        assoc::set_of(text::texts(r.name_shorts@), short_names_of(*registry)),
        assoc::set_of(text::texts(r.sessions@), sessions_of(*registry)),
{
    let mut ranges: Vec<(u32, u32)> = Vec::new();
    let mut slots: Vec<u32> = Vec::new();
    let mut shorts: Vec<String> = Vec::new();
    let mut sessions: Vec<String> = Vec::new();
    let ghost all_ranges = ranges_of(*registry);
    let ghost all_slots = slots_of(*registry);
    let ghost all_shorts = short_names_of(*registry);
    let ghost all_sessions = sessions_of(*registry);
    let mut i: usize = 0;
    while i < registry.trees.len()
        invariant
            i <= registry.trees.len(),
            places_hold(*registry),
            all_ranges == ranges_of(*registry),
            all_slots == slots_of(*registry),
            all_shorts == short_names_of(*registry),
            all_sessions == sessions_of(*registry),
            counted(ranges@) =~= all_ranges.take(i as int),
            slots@ =~= all_slots.take(i as int),
            text::texts(shorts@) =~= all_shorts.take(i as int),
            text::texts(sessions@) =~= all_sessions.take(i as int),
        decreases registry.trees.len() - i,
    {
        let t = &registry.trees[i];
        let ghost before = (counted(ranges@), text::texts(shorts@), text::texts(sessions@));
        ranges.push(range_of(&t.geometry));
        slots.push(t.slot);
        shorts.push(t.name_short.clone());
        sessions.push(t.session_name.clone());
        proof {
            let at: int = i as int;
            assert(counted(ranges@) =~= before.0.push(all_ranges[at]));
            assert(text::texts(shorts@) =~= before.1.push(all_shorts[at]));
            assert(text::texts(sessions@) =~= before.2.push(all_sessions[at]));
            assert(all_ranges.take(at + 1) =~= all_ranges.take(at).push(all_ranges[at]));
            assert(all_shorts.take(at + 1) =~= all_shorts.take(at).push(all_shorts[at]));
            assert(all_sessions.take(at + 1) =~= all_sessions.take(at).push(all_sessions[at]));
        }
        i = i + 1;
    }
    let mut k: usize = 0;
    let ghost n = registry.trees@.len() as int;
    while k < registry.tombstones.len()
        invariant
            k <= registry.tombstones.len(),
            n == registry.trees@.len(),
            places_hold(*registry),
            all_ranges == ranges_of(*registry),
            all_slots == slots_of(*registry),
            all_shorts == short_names_of(*registry),
            all_sessions == sessions_of(*registry),
            counted(ranges@) =~= all_ranges.take(n + k),
            slots@ =~= all_slots.take(n + k),
            text::texts(shorts@) =~= all_shorts.take(n + k),
            text::texts(sessions@) =~= all_sessions.take(n + k),
        decreases registry.tombstones.len() - k,
    {
        let t = &registry.tombstones[k];
        let ghost before = (counted(ranges@), text::texts(shorts@), text::texts(sessions@));
        ranges.push(range_of(&t.geometry));
        slots.push(t.slot);
        shorts.push(t.name_short.clone());
        sessions.push(t.session_name.clone());
        proof {
            let at: int = n + k;
            assert(counted(ranges@) =~= before.0.push(all_ranges[at]));
            assert(text::texts(shorts@) =~= before.1.push(all_shorts[at]));
            assert(text::texts(sessions@) =~= before.2.push(all_sessions[at]));
            assert(all_ranges.take(at + 1) =~= all_ranges.take(at).push(all_ranges[at]));
            assert(all_shorts.take(at + 1) =~= all_shorts.take(at).push(all_shorts[at]));
            assert(all_sessions.take(at + 1) =~= all_sessions.take(at).push(all_sessions[at]));
        }
        k = k + 1;
    }
    proof {
        assert(all_ranges.take(n + registry.tombstones@.len()) =~= all_ranges);
        assert(all_slots.take(n + registry.tombstones@.len()) =~= all_slots);
        assert(all_shorts.take(n + registry.tombstones@.len()) =~= all_shorts);
        assert(all_sessions.take(n + registry.tombstones@.len()) =~= all_sessions);
    }
    Taken {
        ranges,
        slots,
        name_shorts: assoc::sorted_set(&shorts),
        sessions: assoc::sorted_set(&sessions),
    }
}

/// Where a tree was buried under the same name, its place is taken again: the place
/// of the tombstone, and how many ports it has; else as many as are set.
pub fn reused(registry: &Registry, label: &str, name: &str, set: u8) -> (r: (Option<usize>, u8))
    ensures
        place(r.0) == git::first_true(buried(registry.tombstones@, label@, name@), 0),
        r.1 == match r.0 {
            Some(i) => registry.tombstones@[i as int].geometry.stride,
            None => set,
        },
{
    match registry.tombstone_at(label, name) {
        Some(i) => (Some(i), registry.tombstones[i].geometry.stride),
        None => (None, set),
    }
}

/// The search for a slot: none is made, and so no port is tried, where a tombstone's
/// place is taken again.
pub fn slot_search(reused: Option<usize>, taken: Vec<u32>, end: u32) -> (r: Option<SlotScan>)
    ensures
        r is Some == (reused is None),
        r matches Some(scan) ==> scan.wf() && scan.taken@ == taken@ && scan.end == end
            && scan.slot == next_free(taken@, 0, end as int) && !scan.found && scan.squatted@
            == Seq::<u32>::empty(),
{
    match reused {
        Some(_) => None,
        None => Some(SlotScan::new(taken, end)),
    }
}

/// The ports of a slot that are tried.
pub fn slot_ports(port_base: u16, stride: u8) -> (r: Vec<u16>)
    requires
        port_base + stride <= u16::MAX + 1,
    ensures
        r@ == Seq::new(stride as nat, |i: int| (port_base + i) as u16),
{
    let ghost all = Seq::new(stride as nat, |i: int| (port_base + i) as u16);
    let mut ports: Vec<u16> = Vec::new();
    let mut i: u8 = 0;
    while i < stride
        invariant
            i <= stride,
            port_base + stride <= u16::MAX + 1,
            all == Seq::new(stride as nat, |k: int| (port_base + k) as u16),
            ports@ =~= all.take(i as int),
        decreases stride - i,
    {
        ports.push(port_base + i as u16);
        i = i + 1;
    }
    proof {
        assert(all.take(stride as int) =~= all);
    }
    ports
}

/// Whether a port is taken for one in use: where a probe says so, or fails.
pub fn port_busy(probed: &Result<bool, CoreError>) -> (r: bool)
    ensures
        r == match *probed {
            Ok(busy) => busy,
            Err(_) => true,
        },
{
    match probed {
        Ok(busy) => *busy,
        Err(_) => true,
    }
}

/// The least slot from a number on that is not taken, or the end.
pub open spec fn next_free(slots: Seq<u32>, from: int, end: int) -> int
    decreases end - from,
{
    if from >= end {
        end
    } else if slots.contains(from as u32) {
        next_free(slots, from + 1, end)
    } else {
        from
    }
}

proof fn lemma_next_free(slots: Seq<u32>, from: int, end: int)
    requires
        0 <= from <= end <= u32::MAX,
    ensures
        from <= next_free(slots, from, end) <= end,
        next_free(slots, from, end) < end ==> !slots.contains(
            next_free(slots, from, end) as u32,
        ),
        forall|s: int|
            from <= s < next_free(slots, from, end) ==> slots.contains(#[trigger] (s as u32)),
    decreases end - from,
{
    if from < end && slots.contains(from as u32) {
        lemma_next_free(slots, from + 1, end);
        assert forall|s: int| from <= s < next_free(slots, from, end) implies slots.contains(
            #[trigger] (s as u32),
        ) by {
            if s > from {
                assert(slots.contains(s as u32));
            }
        }
    }
}

/// A search for a slot whose ports nobody uses, from the first one up.
#[derive(Debug)]
pub struct SlotScan {
    pub taken: Vec<u32>,
    pub end: u32,
    pub slot: u32,
    pub found: bool,
    pub squatted: Vec<u32>,
}

fn is_taken(slots: &Vec<u32>, slot: u32) -> (r: bool)
    ensures
        r == slots@.contains(slot),
{
    let mut i: usize = 0;
    while i < slots.len()
        invariant
            i <= slots.len(),
            forall|k: int| 0 <= k < i ==> #[trigger] slots@[k] != slot,
        decreases slots.len() - i,
    {
        if slots[i] == slot {
            return true;
        }
        i = i + 1;
    }
    false
}

fn next_free_slot(slots: &Vec<u32>, from: u32, end: u32) -> (r: u32)
    requires
        from <= end,
    ensures
        r == next_free(slots@, from as int, end as int),
{
    let mut slot: u32 = from;
    while slot < end && is_taken(slots, slot)
        invariant
            from <= slot <= end,
            next_free(slots@, from as int, end as int) == next_free(
                slots@,
                slot as int,
                end as int,
            ),
        decreases end - slot,
    {
        slot = slot + 1;
    }
    slot
}

impl SlotScan {
    /// What holds at every step: each slot below is taken or was found in use, and
    /// those found in use are below and not taken.
    pub open spec fn wf(&self) -> bool {
        &&& self.slot <= self.end
        &&& self.slot < self.end ==> !self.taken@.contains(self.slot)
        &&& self.found ==> self.slot < self.end
        &&& forall|s: u32|
            s < self.slot ==> self.taken@.contains(s) || #[trigger] self.squatted@.contains(s)
        &&& forall|i: int|
            0 <= i < self.squatted@.len() ==> (#[trigger] self.squatted@[i]) < self.slot
                && !self.taken@.contains(self.squatted@[i])
    }

    /// Begins a search among slots up to an end.
    pub fn new(taken: Vec<u32>, end: u32) -> (r: Self)
        ensures
            r.wf(),
            r.taken@ == taken@,
            r.end == end,
            r.slot == next_free(taken@, 0, end as int),
            !r.found,
            r.squatted@ == Seq::<u32>::empty(),
    {
        proof {
            lemma_next_free(taken@, 0, end as int);
        }
        let slot: u32 = next_free_slot(&taken, 0, end);
        proof {
            assert forall|s: u32| s < slot implies taken@.contains(s) by {
                assert(taken@.contains((s as int) as u32));
            }
        }
        SlotScan { taken, end, slot, found: false, squatted: Vec::new() }
    }

    /// The slot whose ports are to be tried.
    pub fn next(&self) -> (r: Option<u32>)
        ensures
            r == if !self.found && self.slot < self.end {
                Some(self.slot)
            } else {
                None
            },
    {
        if !self.found && self.slot < self.end {
            Some(self.slot)
        } else {
            None
        }
    }

    /// Takes whether one of the ports is in use: then the search goes on, and else
    /// it is at its end.
    pub fn probed(&mut self, busy: bool)
        requires
            old(self).wf(),
            !old(self).found,
            old(self).slot < old(self).end,
        ensures
            final(self).wf(),
            final(self).taken@ == old(self).taken@,
            final(self).end == old(self).end,
            final(self).found == !busy,
            final(self).squatted@ == if busy {
                old(self).squatted@.push(old(self).slot)
            } else {
                old(self).squatted@
            },
            final(self).slot == if busy {
                next_free(old(self).taken@, old(self).slot + 1, old(self).end as int)
            } else {
                old(self).slot as int
            },
    {
        if busy {
            proof {
                lemma_next_free(self.taken@, self.slot + 1, self.end as int);
            }
            let ghost before = self.squatted@;
            let from: u32 = self.slot;
            self.squatted.push(from);
            let slot: u32 = next_free_slot(&self.taken, from + 1, self.end);
            self.slot = slot;
            proof {
                let now = self.squatted@;
                assert(now[before.len() as int] == from);
                assert forall|s: u32| s < slot implies self.taken@.contains(s)
                    || #[trigger] now.contains(s) by {
                    if s < from {
                        if before.contains(s) {
                            let i = choose|i: int| 0 <= i < before.len() && before[i] == s;
                            assert(now[i] == s);
                        }
                    } else if s == from {
                        assert(now.contains(s));
                    } else {
                        assert(self.taken@.contains((s as int) as u32));
                    }
                }
            }
        } else {
            self.found = true;
        }
    }
}

/// The slot at which a search ends with success is the least one that is neither
/// taken nor in use.
pub proof fn the_least_free_slot_is_found(scan: SlotScan, other: u32)
    requires
        scan.wf(),
        scan.found,
        !scan.taken@.contains(other),
        !scan.squatted@.contains(other),
    ensures
        scan.slot <= other,
        !scan.taken@.contains(scan.slot),
        !scan.squatted@.contains(scan.slot),
{
    if scan.squatted@.contains(scan.slot) {
        let i = choose|i: int| 0 <= i < scan.squatted@.len() && scan.squatted@[i] == scan.slot;
        assert(scan.squatted@[i] < scan.slot);
    }
}

/// The home that was given is taken; else the one that is set for this program; else the
/// usual place in the user's own; and there is none only where none of these is known.
pub proof fn which_home_is_taken(given: Option<Seq<char>>, env: Map<Seq<char>, Seq<char>>)
    ensures
        home_of(given, env) is None <==> given is None && !env.contains_key("WT_HOME"@)
            && !env.contains_key("HOME"@),
        given is Some ==> home_of(given, env) == given,
        given is None && env.contains_key("WT_HOME"@) ==> home_of(given, env) == Some(
            env["WT_HOME"@],
        ),
        given is None && !env.contains_key("WT_HOME"@) && env.contains_key("HOME"@) ==> home_of(
            given,
            env,
        ) == Some(path::joined(env["HOME"@], ".wt"@)),
{
}

/// Blanks and the case of letters do not count in an answer, and an empty one is no consent.
pub proof fn what_counts_in_an_answer(a: Seq<char>, b: Seq<char>)
    requires
        text::lower(text::trim(a)) == text::lower(text::trim(b)),
    ensures
        consents(a) == consents(b),
        consents(a) ==> text::lower(text::trim(a)).len() == 1 || text::lower(text::trim(a)).len()
            == 3,
        text::lower(text::trim(a)) == "y"@ ==> consents(a),
        text::lower(text::trim(a)) == "yes"@ ==> consents(a),
{
    reveal_strlit("y");
    reveal_strlit("yes");
}

/// A range of ports holds as many as the stride, and those of trees and of tombstones are
/// all taken, as their slots are.
pub proof fn tombstones_keep_their_place(r: Registry, i: int)
    ensures
        0 <= i < r.trees@.len() ==> slots_of(r)[i] == r.trees@[i].slot && ranges_of(r)[i] == range(
            r.trees@[i].geometry,
        ),
        0 <= i < r.tombstones@.len() ==> slots_of(r)[r.trees@.len() + i] == r.tombstones@[i].slot
            && ranges_of(r)[r.trees@.len() + i] == range(r.tombstones@[i].geometry),
        slots_of(r).len() == r.trees@.len() + r.tombstones@.len(),
        ranges_of(r).len() == r.trees@.len() + r.tombstones@.len(),
        0 <= i < r.trees@.len() ==> range(r.trees@[i].geometry).0 == r.trees@[i].geometry.port_base
            && range(r.trees@[i].geometry).1 - range(r.trees@[i].geometry).0 + 1
            == r.trees@[i].geometry.stride,
{
}

/// A tree is found by its label and name together, and so is a tombstone; a canonical
/// checkout by its label.
pub proof fn what_is_found_by_its_address(
    trees: Seq<TreeRec>,
    tombstones: Seq<Tombstone>,
    label: Seq<char>,
    name: Seq<char>,
    i: int,
)
    ensures
        0 <= i < trees.len() ==> (addressed(trees, label, name)[i] <==> trees[i].label@ == label
            && trees[i].name@ == name),
        0 <= i < trees.len() ==> (canonicals(trees, label)[i] <==> trees[i].canonical
            && trees[i].label@ == label),
        0 <= i < tombstones.len() ==> (buried(tombstones, label, name)[i]
            <==> tombstones[i].label@ == label && tombstones[i].name@ == name),
{
}

} // verus!
