//! Creating a tree: what is refused, which branch it gets, and how it is made ready.

use vstd::prelude::*;
use vstd::string::*;

use crate::assoc::Assoc;
use crate::context;
use crate::context::{Coordinates, Registry, SourceKind, Tombstone, TreeRec};
use crate::course;
use crate::error;
use crate::error::{CoreError, ExitClass};
use crate::git;
use crate::model::DerivedPhase;
use crate::output;
use crate::output::{Notice, NoticeLevel};
use crate::path;
use crate::text;

verus! {

broadcast use vstd::string::group_string_axioms;

// ---------------------------------------------------------------------------
// What is refused
// ---------------------------------------------------------------------------

/// Where a new tree belongs: the place of its label's canonical checkout, and of the
/// tree that has its address already.
#[derive(Clone, Copy, Debug, PartialEq, Eq, Structural)]
pub struct Belongs {
    pub canonical: usize,
    pub existing: Option<usize>,
}

/// The fault of an address that a new tree cannot have. `canonical_target` is the
/// address of the label's canonical checkout.
pub open spec fn refused_address(
    r: Registry,
    label: Seq<char>,
    name: Seq<char>,
    canonical_target: Seq<char>,
) -> Option<error::Fault> {
    if name == "canonical"@ {
        Some(
            error::fault(
                ExitClass::Usage,
                "NAME_REQUIRED"@,
                "new requires <label>/<name>"@,
                "choose a non-canonical tree name"@,
            ),
        )
    } else if r.labels@.contains_key(name) {
        Some(
            error::fault(
                ExitClass::Conflict,
                "NAME_SHADOWS_LABEL"@,
                "tree name shadows a registered label"@,
                "choose another tree name"@,
            ),
        )
    } else if !r.labels@.contains_key(label) {
        Some(
            error::fault(
                ExitClass::NotFound,
                "NOT_FOUND"@,
                "label "@ + label + " is not registered"@,
                "run `wt register` first"@,
            ),
        )
    } else if git::first_true(context::canonicals(r.trees@, label), 0) is None {
        Some(context::unknown(canonical_target))
    } else {
        None
    }
}

/// Finds where a new tree belongs, or refuses its address.
pub fn belongs(registry: &Registry, label: &str, name: &str, canonical_target: &str) -> (r: Result<
    Belongs,
    CoreError,
>)
    requires
        registry.wf(),
    ensures
        match refused_address(*registry, label@, name@, canonical_target@) {
            Some(fault) => r matches Err(e) && e@ == fault,
            None => r matches Ok(b) && context::place(Some(b.canonical)) == git::first_true(
                context::canonicals(registry.trees@, label@),
                0,
            ) && context::place(b.existing) == git::first_true(
                context::addressed(registry.trees@, label@, name@),
                0,
            ),
        },
{
    if text::same(name, "canonical") {
        return Err(
            CoreError::new(
                ExitClass::Usage,
                "NAME_REQUIRED",
                "new requires <label>/<name>",
                "choose a non-canonical tree name",
            ),
        );
    }
    if registry.labels.get(name).is_some() {
        return Err(
            CoreError::new(
                ExitClass::Conflict,
                "NAME_SHADOWS_LABEL",
                "tree name shadows a registered label",
                "choose another tree name",
            ),
        );
    }
    if registry.labels.get(label).is_none() {
        let message = "label ".to_owned().concat(label).concat(" is not registered");
        return Err(
            CoreError::new(
                ExitClass::NotFound,
                "NOT_FOUND",
                message.as_str(),
                "run `wt register` first",
            ),
        );
    }
    match registry.canonical_at(label) {
        Some(canonical) => Ok(Belongs { canonical, existing: registry.tree_at(label, name) }),
        None => Err(context::not_found(canonical_target)),
    }
}

/// The name of a phase in a refusal.
pub open spec fn phase_said(phase: DerivedPhase) -> Seq<char> {
    match phase {
        DerivedPhase::Ready => "Ready"@,
        DerivedPhase::Verifying => "Verifying"@,
        DerivedPhase::Initialising => "Initialising"@,
        DerivedPhase::InitInterrupted => "InitInterrupted"@,
        DerivedPhase::Bootstrapping => "Bootstrapping"@,
        DerivedPhase::Interrupted => "Interrupted"@,
        DerivedPhase::Failed => "Failed"@,
        DerivedPhase::Removing => "Removing"@,
        DerivedPhase::RemoveInterrupted => "RemoveInterrupted"@,
        DerivedPhase::Creating => "Creating"@,
        DerivedPhase::Claimed => "Claimed"@,
        DerivedPhase::Incomplete => "Incomplete"@,
        DerivedPhase::Replaced => "Replaced"@,
        DerivedPhase::Missing => "Missing"@,
        DerivedPhase::Unmanaged => "Unmanaged"@,
        DerivedPhase::StaleGit => "StaleGit"@,
    }
}

/// The name of a phase in a refusal.
pub fn phase_word(phase: DerivedPhase) -> (r: &'static str)
    ensures
        r@ == phase_said(phase),
{
    match phase {
        DerivedPhase::Ready => "Ready",
        DerivedPhase::Verifying => "Verifying",
        DerivedPhase::Initialising => "Initialising",
        DerivedPhase::InitInterrupted => "InitInterrupted",
        DerivedPhase::Bootstrapping => "Bootstrapping",
        DerivedPhase::Interrupted => "Interrupted",
        DerivedPhase::Failed => "Failed",
        DerivedPhase::Removing => "Removing",
        DerivedPhase::RemoveInterrupted => "RemoveInterrupted",
        DerivedPhase::Creating => "Creating",
        DerivedPhase::Claimed => "Claimed",
        DerivedPhase::Incomplete => "Incomplete",
        DerivedPhase::Replaced => "Replaced",
        DerivedPhase::Missing => "Missing",
        DerivedPhase::Unmanaged => "Unmanaged",
        DerivedPhase::StaleGit => "StaleGit",
    }
}

/// A tree that cannot be created over the one that has its address.
pub fn cannot_create(code: &str, target: &str, phase: DerivedPhase, remedy: &str) -> (r: CoreError)
    ensures
        r@ == error::fault(
            ExitClass::Conflict,
            code@,
            "cannot create "@ + target@ + " in phase "@ + phase_said(phase),
            remedy@,
        ),
{
    let message = "cannot create ".to_owned().concat(target).concat(" in phase ").concat(
        phase_word(phase),
    );
    CoreError::new(ExitClass::Conflict, code, message.as_str(), remedy)
}

/// A tree whose path holds something else.
pub fn path_occupied(code: &str, p: &str, remedy: &str) -> (r: CoreError)
    ensures
        r@ == error::fault(
            ExitClass::State,
            code@,
            "tree path "@ + p@ + " is occupied"@,
            remedy@,
        ),
{
    let message = "tree path ".to_owned().concat(p).concat(" is occupied");
    CoreError::new(ExitClass::State, code, message.as_str(), remedy)
}

/// Where a new tree is put: below the directory of its label, the one that is set, or
/// the one below the home directory.
pub open spec fn place_of(
    own: Option<Seq<char>>,
    set: Option<Seq<char>>,
    home: Seq<char>,
    label: Seq<char>,
    name: Seq<char>,
) -> Seq<char> {
    let dir = if own is Some {
        own->0
    } else if set is Some {
        set->0
    } else {
        path::joined(home, "trees"@)
    };
    path::joined(path::joined(dir, label), name)
}

/// Where a new tree is put.
pub fn tree_path(
    own: &Option<String>,
    set: &Option<String>,
    home: &str,
    label: &str,
    name: &str,
) -> (r: String)
    ensures
        r@ == place_of(text::opt(*own), text::opt(*set), home@, label@, name@),
{
    let dir = match own {
        Some(d) => d.clone(),
        None => match set {
            Some(d) => d.clone(),
            None => path::join(home, "trees"),
        },
    };
    path::join(path::join(dir.as_str(), label).as_str(), name)
}

// ---------------------------------------------------------------------------
// The branch
// ---------------------------------------------------------------------------

/// Whether the tree at an address was made for the pull request that is asked for.
pub open spec fn same_pull(existing: Option<TreeRec>, pr: Option<u64>) -> bool {
    existing matches Some(t) && pr is Some && t.pr == pr
}

/// Whether the forge has to be asked: not for a pull request that is on record.
pub fn asks_forge(existing: Option<&TreeRec>, pr: Option<u64>) -> (r: bool)
    ensures
        r == !same_pull(record(existing), pr),
{
    match existing {
        Some(t) => !(pr.is_some() && t.pr == pr),
        None => true,
    }
}

/// The record that is referred to.
pub open spec fn record(existing: Option<&TreeRec>) -> Option<TreeRec> {
    match existing {
        Some(t) => Some(*t),
        None => None,
    }
}

/// How the branch of a tree is found.
#[derive(Debug)]
pub enum Branch {
    Named(String),
    /// By the convention of its label, and else the tree's own name.
    ByConvention,
}

/// What is known of how a branch is found.
pub enum Naming {
    Named(Seq<char>),
    ByConvention,
}

impl View for Branch {
    type V = Naming;

    open spec fn view(&self) -> Naming {
        match self {
            Branch::Named(b) => Naming::Named(b@),
            Branch::ByConvention => Naming::ByConvention,
        }
    }
}

/// The branch of a tree that is created: the one that is asked for; none is named for
/// a detached tree, which has its own name in its place; that of a pull request, or
/// its mirror; and else by convention.
pub open spec fn branch_for(
    asked: Option<Seq<char>>,
    detach: bool,
    pr: Option<u64>,
    origin_branch: Option<Seq<char>>,
    name: Seq<char>,
) -> Naming {
    if asked is Some {
        Naming::Named(asked->0)
    } else if detach {
        Naming::Named(name)
    } else if pr is Some {
        Naming::Named(
            match origin_branch {
                Some(b) => b,
                None => "pr/"@ + text::decimal(pr->0 as nat),
            },
        )
    } else {
        Naming::ByConvention
    }
}

/// The branch of a tree that is created.
pub fn creation_branch(
    asked: &Option<String>,
    detach: bool,
    pr: Option<u64>,
    origin_branch: &Option<String>,
    name: &str,
) -> (r: Branch)
    ensures
        r@ == branch_for(text::opt(*asked), detach, pr, text::opt(*origin_branch), name@),
{
    if let Some(b) = asked {
        return Branch::Named(b.clone());
    }
    if detach {
        return Branch::Named(name.to_owned());
    }
    if let Some(number) = pr {
        return match origin_branch {
            Some(b) => Branch::Named(b.clone()),
            None => Branch::Named("pr/".to_owned().concat(text::decimal_of(number).as_str())),
        };
    }
    Branch::ByConvention
}

/// The branch by convention, where the templates give one, and else the name.
pub fn branch_by_convention(templated: &Option<String>, name: &str) -> (r: String)
    ensures
        r@ == match text::opt(*templated) {
            Some(b) => b,
            None => name@,
        },
{
    match templated {
        Some(b) => b.clone(),
        None => name.to_owned(),
    }
}

/// The branch that is asked for at an address. A tree that is there keeps the branch
/// on record unless another is named, or another pull request.
pub open spec fn requested(
    existing: Option<TreeRec>,
    asked: Option<Seq<char>>,
    detach: bool,
    pr: Option<u64>,
    origin_branch: Option<Seq<char>>,
    name: Seq<char>,
) -> Naming {
    if existing is Some && asked is None && (pr is None || same_pull(existing, pr)) {
        Naming::Named(
            match text::opt(existing->0.branch) {
                Some(b) => b,
                None => name,
            },
        )
    } else {
        branch_for(asked, detach, pr, origin_branch, name)
    }
}

/// The branch that is asked for at an address.
pub fn requested_branch(
    existing: Option<&TreeRec>,
    asked: &Option<String>,
    detach: bool,
    pr: Option<u64>,
    origin_branch: &Option<String>,
    name: &str,
) -> (r: Branch)
    ensures
        r@ == requested(
            record(existing),
            text::opt(*asked),
            detach,
            pr,
            text::opt(*origin_branch),
            name@,
        ),
{
    if let Some(t) = existing {
        if asked.is_none() && (pr.is_none() || t.pr == pr) {
            return match &t.branch {
                Some(b) => Branch::Named(b.clone()),
                None => Branch::Named(name.to_owned()),
            };
        }
    }
    creation_branch(asked, detach, pr, origin_branch, name)
}

/// Asking again for what is there asks for the same branch, whatever the conventions
/// have become: where no branch is named, and no pull request or the one on record.
pub proof fn a_rerun_keeps_its_branch(
    t: TreeRec,
    detach: bool,
    pr: Option<u64>,
    origin_branch: Option<Seq<char>>,
    name: Seq<char>,
)
    requires
        t.branch is Some,
        pr is None || t.pr == pr,
    ensures
        requested(Some(t), None, detach, pr, origin_branch, name) == Naming::Named(
            text::opt(t.branch)->0,
        ),
{
}

/// What the branch of a tree goes by: one that was asked for is taken in any case; else a
/// tree that is there keeps its own, unless another pull request was asked for, which is
/// taken as if no tree were there; a new one without a branch goes by its name, one of a
/// pull request by its branch at origin or its number, and only what is none of these by
/// convention.
pub proof fn what_names_a_branch(
    existing: Option<TreeRec>,
    asked: Option<Seq<char>>,
    detach: bool,
    pr: Option<u64>,
    origin_branch: Option<Seq<char>>,
    name: Seq<char>,
)
    ensures
        ({
            let r = requested(existing, asked, detach, pr, origin_branch, name);
            let fresh = requested(None, None, detach, pr, origin_branch, name);
            &&& asked is Some ==> r == Naming::Named(asked->0)
            &&& asked is None && existing is Some && pr is None ==> r == Naming::Named(
                match existing->0.branch {
                    Some(b) => b@,
                    None => name,
                },
            )
            &&& asked is None && existing is Some && pr is Some && existing->0.pr != pr ==> r == fresh
            &&& asked is None && existing is None ==> r == fresh
            &&& detach ==> fresh == Naming::Named(name)
            &&& !detach && pr is Some && origin_branch is Some ==> fresh == Naming::Named(
                origin_branch->0,
            )
            &&& !detach && pr is Some && origin_branch is None ==> fresh == Naming::Named(
                "pr/"@ + text::decimal(pr->0 as nat),
            )
            &&& r == Naming::ByConvention <==> asked is None && existing is None && !detach && pr
                is None
        }),
{
}

/// A tree is of the same source where it has the branch, and the start too where one was
/// named.
pub proof fn what_is_the_same_source(t: TreeRec, branch: Seq<char>, start: Seq<char>)
    ensures
        same_source(t, branch, None) <==> t.branch is Some && t.branch->0@ == branch,
        same_source(t, branch, Some(start)) <==> same_source(t, branch, None) && t.start is Some
            && t.start->0@ == start,
{
}

/// A name that begins with origin's is only a branch of origin; any other is a local branch
/// first, and then one of origin.
pub proof fn what_a_start_names(branch: Seq<char>, input: Seq<char>)
    requires
        !text::starts(input, "origin/"@),
    ensures
        reference_names("origin/"@ + branch) == (None::<Seq<char>>, "refs/remotes/origin/"@ + branch),
        reference_names(input) == (
            Some("refs/heads/"@ + input),
            "refs/remotes/origin/"@ + input,
        ),
{
    let whole = "origin/"@ + branch;
    assert(whole.take("origin/"@.len() as int) =~= "origin/"@);
    assert(whole.skip("origin/"@.len() as int) =~= branch);
}

/// A tree lies in the directory of its own repository's setting, else in that of the
/// machine's, else in the home of this program.
pub proof fn where_a_tree_lies(
    own: Seq<char>,
    set: Option<Seq<char>>,
    home: Seq<char>,
    label: Seq<char>,
    name: Seq<char>,
)
    ensures
        place_of(Some(own), set, home, label, name) == place_of(None, Some(own), home, label, name),
        place_of(None, Some(own), home, label, name) == path::joined(
            path::joined(own, label),
            name,
        ),
        place_of(None, None, home, label, name) == place_of(
            Some(path::joined(home, "trees"@)),
            set,
            home,
            label,
            name,
        ),
{
}

/// An address is accepted exactly where its name is neither that of the canonical checkout
/// nor a label, and its label is registered and has a canonical checkout. Each reason comes
/// with its own code.
pub proof fn what_address_is_accepted(
    r: Registry,
    label: Seq<char>,
    name: Seq<char>,
    canonical_target: Seq<char>,
)
    ensures
        ({
            let refused = refused_address(r, label, name, canonical_target);
            let there = exists|i: int|
                0 <= i < r.trees@.len() && (#[trigger] r.trees@[i]).canonical && r.trees@[i].label@
                    == label;
            &&& refused is None <==> name != "canonical"@ && !r.labels@.contains_key(name)
                && r.labels@.contains_key(label) && there
            &&& name == "canonical"@ ==> refused->0.code == "NAME_REQUIRED"@
            &&& name != "canonical"@ && r.labels@.contains_key(name) ==> refused->0.code
                == "NAME_SHADOWS_LABEL"@
            &&& name != "canonical"@ && !r.labels@.contains_key(name) && !(r.labels@.contains_key(label)
                && there) ==> refused->0.code == "NOT_FOUND"@
        }),
{
    let flags = context::canonicals(r.trees@, label);
    git::the_first_yes_is_found(flags, 0);
    if git::first_true(flags, 0) is None {
        assert forall|i: int| 0 <= i < r.trees@.len() implies !((#[trigger] r.trees@[i]).canonical
            && r.trees@[i].label@ == label) by {
            assert(!flags[i]);
        }
    } else {
        let i = git::first_true(flags, 0)->0;
        assert(r.trees@[i].canonical);
    }
}

/// A label is found exactly where its origin is the asked-for host, by letters of either case, and path.
pub proof fn every_matching_origin_is_found(origins: Seq<Origin>, host: Seq<char>, p: Seq<char>, y: Seq<char>)
    ensures
        matching(origins, host, p).contains(y) <==> (exists|i: int|
            0 <= i < origins.len() && (#[trigger] origins[i]).location is Some && text::lower((origins[i].location->0).0@) == text::lower(host) && (origins[i].location->0).1@ == p && y == origins[i].label@),
    decreases origins.len(),
{
    let all = matching(origins, host, p);
    if origins.len() > 0 {
        let rest = origins.drop_last();
        let some = matching(rest, host, p);
        every_matching_origin_is_found(rest, host, p, y);
        if all.contains(y) {
            let k = choose|k: int| 0 <= k < all.len() && all[k] == y;
            if k < some.len() {
                assert(some[k] == y);
                let i = choose|i: int| 0 <= i < rest.len() && (#[trigger] rest[i]).location is Some && text::lower((rest[i].location->0).0@) == text::lower(host) && (rest[i].location->0).1@ == p && y == rest[i].label@;
                assert(origins[i] == rest[i]);
            } else {
                assert(origins[rest.len() as int].location is Some && text::lower((origins[rest.len() as int].location->0).0@) == text::lower(host) && (origins[rest.len() as int].location->0).1@ == p && y == origins[rest.len() as int].label@);
            }
        }
        if exists|i: int| 0 <= i < origins.len() && (#[trigger] origins[i]).location is Some && text::lower((origins[i].location->0).0@) == text::lower(host) && (origins[i].location->0).1@ == p && y == origins[i].label@ {
            let i = choose|i: int| 0 <= i < origins.len() && (#[trigger] origins[i]).location is Some && text::lower((origins[i].location->0).0@) == text::lower(host) && (origins[i].location->0).1@ == p && y == origins[i].label@;
            if i < rest.len() {
                assert(rest[i] == origins[i]);
                let k = choose|k: int| 0 <= k < some.len() && some[k] == y;
                assert(all[k] == y);
            } else {
                assert(all[all.len() - 1] == y);
            }
        }
    }
}

/// Whether a tree that is there was made from what is asked for now.
pub open spec fn same_source(t: TreeRec, branch: Seq<char>, start: Option<Seq<char>>) -> bool {
    text::opt(t.branch) == Some(branch) && (start is None || text::opt(t.start) == start)
}

/// Whether a tree that is there was made from what is asked for now.
pub fn source_identical(t: &TreeRec, branch: &str, start: &Option<String>) -> (r: bool)
    ensures
        r == same_source(*t, branch@, text::opt(*start)),
{
    let branch_same = match &t.branch {
        Some(b) => text::same(b.as_str(), branch),
        None => false,
    };
    let start_same = match start {
        Some(s) => match &t.start {
            Some(own) => text::same(own.as_str(), s.as_str()),
            None => false,
        },
        None => true,
    };
    branch_same && start_same
}

/// From what a new tree is made, and the branch that is put on record: none for a
/// detached tree.
pub fn new_source(pr: Option<u64>, detach: bool, branch: &str) -> (r: (SourceKind, Option<String>))
    ensures
        r.0 == if pr is Some {
            SourceKind::Pr
        } else if detach {
            SourceKind::Ref
        } else {
            SourceKind::Branch
        },
        text::opt(r.1) == if detach {
            None
        } else {
            Some(branch@)
        },
{
    let kind = if pr.is_some() {
        SourceKind::Pr
    } else if detach {
        SourceKind::Ref
    } else {
        SourceKind::Branch
    };
    (
        kind,
        if detach {
            None
        } else {
            Some(branch.to_owned())
        },
    )
}

/// What a new tree is asked to be: the branch, whether it is detached from it, the pull
/// request and the start that were named, and what is noted of it.
#[derive(Debug)]
pub struct Wish {
    pub branch: String,
    pub detach: bool,
    pub pr: Option<u64>,
    pub from_ref: Option<String>,
    pub meta: Assoc<String>,
}

/// What is put on record of a new tree.
pub fn new_record(
    tree_id: &str,
    label: &str,
    name: &str,
    p: &str,
    at: Coordinates,
    now: &str,
    wish: Wish,
) -> (r: TreeRec)
    ensures
        r.tree_id@ == tree_id@,
        r.label@ == label@,
        r.name@ == name@,
        !r.canonical,
        r.path@ == p@,
        context::placed(r, at),
        r.created_at@ == now@,
        r.agent is None,
        r.meta == wish.meta,
        r.kind == if wish.pr is Some {
            SourceKind::Pr
        } else if wish.detach {
            SourceKind::Ref
        } else {
            SourceKind::Branch
        },
        text::opt(r.branch) == if wish.detach {
            None
        } else {
            Some(wish.branch@)
        },
        r.pr == wish.pr,
        r.start == wish.from_ref,
{
    let (kind, branch) = new_source(wish.pr, wish.detach, wish.branch.as_str());
    TreeRec {
        tree_id: tree_id.to_owned(),
        label: label.to_owned(),
        name: name.to_owned(),
        canonical: false,
        path: p.to_owned(),
        slot: at.slot,
        geometry: at.geometry,
        ports: at.ports,
        name_short: at.name_short,
        session_name: at.session_name,
        created_at: now.to_owned(),
        agent: None,
        meta: wish.meta,
        kind,
        branch,
        pr: wish.pr,
        start: wish.from_ref,
    }
}

/// The names that an input may be, as references: of a local branch, unless it is
/// one of origin, and of a branch of origin.
pub open spec fn reference_names(input: Seq<char>) -> (Option<Seq<char>>, Seq<char>) {
    match text::after(input, "origin/"@) {
        Some(branch) => (None, "refs/remotes/origin/"@ + branch),
        None => (Some("refs/heads/"@ + input), "refs/remotes/origin/"@ + input),
    }
}

/// The references that an input is looked for under.
pub fn resolve_from(input: &str) -> (r: (Option<String>, String))
    ensures
        text::opt(r.0) == reference_names(input@).0,
        r.1@ == reference_names(input@).1,
{
    match text::strip_prefix(input, "origin/") {
        Some(branch) => (None, "refs/remotes/origin/".to_owned().concat(branch.as_str())),
        None => (
            Some("refs/heads/".to_owned().concat(input)),
            "refs/remotes/origin/".to_owned().concat(input),
        ),
    }
}

/// The origin of a registered repository: its label, and its host and path, where its
/// origin has them.
#[derive(Debug)]
pub struct Origin {
    pub label: String,
    pub location: Option<(String, String)>,
}

/// Whether an origin is the repository of a pull request.
pub open spec fn is_location(o: Origin, host: Seq<char>, p: Seq<char>) -> bool {
    o.location matches Some(l) && text::lower(l.0@) == text::lower(host) && l.1@ == p
}

/// The labels of the origins that are the repository of a pull request.
pub open spec fn matching(origins: Seq<Origin>, host: Seq<char>, p: Seq<char>) -> Seq<Seq<char>>
    decreases origins.len(),
{
    if origins.len() == 0 {
        Seq::<Seq<char>>::empty()
    } else {
        let rest = matching(origins.drop_last(), host, p);
        if is_location(origins.last(), host, p) {
            rest.push(origins.last().label@)
        } else {
            rest
        }
    }
}

/// What a reference names, as far as pull requests go.
#[derive(Debug)]
pub enum Reference {
    Number(u64),
    Url { number: u64, host: String, owner: String, repo: String },
    Other,
}

/// The fault of a pull request's address that is not of exactly one repository.
pub open spec fn unresolved(found: nat) -> error::Fault {
    error::fault(
        ExitClass::State,
        "PR_REPO_UNRESOLVED"@,
        "pull request URL matches "@ + text::decimal(found) + " registered labels"@,
        "register exactly one checkout whose origin matches the pull request URL"@,
    )
}

/// The pull request that is asked for, and the host that it lives on: that of its
/// address, which has to be of the tree's own repository, else that of origin, and
/// `unknown` where that has none.
pub fn requested_pull_request(
    reference: Reference,
    origins: &Vec<Origin>,
    label: &str,
    origin_host: Option<String>,
) -> (r: Result<Option<(u64, String)>, CoreError>)
    ensures
        match reference {
            Reference::Other => r matches Ok(p) && p is None,
            Reference::Number(n) => r matches Ok(p) && (p matches Some(pr) && pr.0 == n && pr.1@
                == match origin_host {
                Some(h) => h@,
                None => "unknown"@,
            }),
            Reference::Url { number, host, owner, repo } => {
                let found = matching(origins@, host@, owner@ + "/"@ + repo@);
                if found.len() == 1 && found[0] == label@ {
                    r matches Ok(p) && (p matches Some(pr) && pr.0 == number && pr.1@ == host@)
                } else {
                    r matches Err(e) && e@ == unresolved(found.len())
                }
            },
        },
{
    match reference {
        Reference::Other => Ok(None),
        Reference::Number(n) => {
            let host = match origin_host {
                Some(h) => h,
                None => "unknown".to_owned(),
            };
            Ok(Some((n, host)))
        },
        Reference::Url { number, host, owner, repo } => {
            match ensure_pr_url_matches(
                origins,
                label,
                host.as_str(),
                owner.as_str(),
                repo.as_str(),
            ) {
                Ok(()) => Ok(Some((number, host))),
                Err(e) => Err(e),
            }
        },
    }
}

/// Refuses a pull request that is not of exactly one registered repository, or of
/// another than the tree's.
pub fn ensure_pr_url_matches(
    origins: &Vec<Origin>,
    label: &str,
    host: &str,
    owner: &str,
    repo: &str,
) -> (r: Result<(), CoreError>)
    ensures
        ({
            let found = matching(origins@, host@, owner@ + "/"@ + repo@);
            if found.len() == 1 && found[0] == label@ {
                r is Ok
            } else {
                r matches Err(e) && e@ == unresolved(found.len())
            }
        }),
{
    let wanted_host = text::lowered(host);
    let wanted = owner.to_owned().concat("/").concat(repo);
    let mut found: Vec<String> = Vec::new();
    let mut i: usize = 0;
    proof {
        assert(text::texts(found@) =~= Seq::<Seq<char>>::empty());
    }
    while i < origins.len()
        invariant
            i <= origins.len(),
            wanted_host@ == text::lower(host@),
            text::texts(found@) == matching(origins@.take(i as int), host@, wanted@),
        decreases origins.len() - i,
    {
        let ghost prior = text::texts(found@);
        proof {
            assert(origins@.take(i + 1).drop_last() =~= origins@.take(i as int));
        }
        if let Some(l) = &origins[i].location {
            if text::same(text::lowered(l.0.as_str()).as_str(), wanted_host.as_str())
                && text::same(l.1.as_str(), wanted.as_str()) {
                found.push(origins[i].label.clone());
                proof {
                    assert(text::texts(found@) =~= prior.push(origins@[i as int].label@));
                }
            }
        }
        i = i + 1;
    }
    proof {
        assert(origins@.take(origins@.len() as int) =~= origins@);
        assert(text::texts(found@).len() == found@.len());
        if found@.len() == 1 {
            assert(text::texts(found@)[0] == found@[0]@);
        }
    }
    if found.len() == 1 && text::same(found[0].as_str(), label) {
        Ok(())
    } else {
        let n: usize = found.len();
        let message = "pull request URL matches ".to_owned().concat(
            text::decimal_of(n as u64).as_str(),
        ).concat(" registered labels");
        Err(
            CoreError::new(
                ExitClass::State,
                "PR_REPO_UNRESOLVED",
                message.as_str(),
                "register exactly one checkout whose origin matches the pull request URL",
            ),
        )
    }
}

/// Whether the forge is asked for the head of a pull request: only GitHub is, and
/// nobody where nothing is fetched.
pub fn asks_for_head(no_fetch: bool, github: bool) -> (r: bool)
    ensures
        r == (!no_fetch && github),
{
    !no_fetch && github
}

// ---------------------------------------------------------------------------
// The registry
// ---------------------------------------------------------------------------

/// The tombstones that are not of a label and a name.
pub open spec fn others(tombstones: Seq<Tombstone>, label: Seq<char>, name: Seq<char>) -> Seq<
    Tombstone,
>
    decreases tombstones.len(),
{
    if tombstones.len() == 0 {
        Seq::<Tombstone>::empty()
    } else {
        let rest = others(tombstones.drop_last(), label, name);
        if tombstones.last().label@ == label && tombstones.last().name@ == name {
            rest
        } else {
            rest.push(tombstones.last())
        }
    }
}

/// Puts a new tree into the registry: behind the others, and in place of what was
/// buried under its name.
pub fn enter(registry: &mut Registry, tree: TreeRec)
    ensures
        final(registry).trees@ == old(registry).trees@.push(tree),
        final(registry).tombstones@ == others(old(registry).tombstones@, tree.label@, tree.name@),
        final(registry).labels == old(registry).labels,
{
    let ghost all = registry.tombstones@;
    let ghost label = tree.label@;
    let ghost name = tree.name@;
    let ghost mut tail = Seq::<Tombstone>::empty();
    let mut i: usize = registry.tombstones.len();
    proof {
        assert(all.take(all.len() as int) =~= all);
        assert(registry.tombstones@ =~= all.take(i as int) + tail);
        assert(others(all, label, name) =~= others(all.take(i as int), label, name) + tail);
    }
    while i > 0
        invariant
            i <= all.len(),
            label == tree.label@,
            name == tree.name@,
            registry.trees@ == old(registry).trees@,
            registry.labels == old(registry).labels,
            registry.tombstones@ == all.take(i as int) + tail,
            others(all, label, name) == others(all.take(i as int), label, name) + tail,
        decreases i,
    {
        let ghost last = all[i - 1];
        proof {
            assert(registry.tombstones@[i - 1] == last);
            assert(all.take(i as int).drop_last() =~= all.take(i - 1));
            assert(all.take(i as int).last() == last);
        }
        if text::same(registry.tombstones[i - 1].label.as_str(), tree.label.as_str())
            && text::same(registry.tombstones[i - 1].name.as_str(), tree.name.as_str()) {
            let _ = registry.tombstones.remove(i - 1);
            proof {
                assert(registry.tombstones@ =~= all.take(i - 1) + tail);
            }
        } else {
            proof {
                let more = seq![last] + tail;
                assert(registry.tombstones@ =~= all.take(i - 1) + more);
                assert(others(all.take(i - 1), label, name).push(last) + tail =~= others(
                    all.take(i - 1),
                    label,
                    name,
                ) + more);
                tail = more;
            }
        }
        i = i - 1;
    }
    proof {
        assert(all.take(0) =~= Seq::<Tombstone>::empty());
        assert(registry.tombstones@ =~= tail);
        assert(others(all.take(0), label, name) + tail =~= tail);
    }
    registry.trees.push(tree);
}

/// What was buried under the name of a new tree is gone from the registry, and
/// nothing else is.
pub proof fn only_its_own_tombstone_goes(
    tombstones: Seq<Tombstone>,
    label: Seq<char>,
    name: Seq<char>,
    t: Tombstone,
)
    ensures
        others(tombstones, label, name).contains(t) == (tombstones.contains(t) && !(t.label@
            == label && t.name@ == name)),
    decreases tombstones.len(),
{
    if tombstones.len() > 0 {
        let rest = tombstones.drop_last();
        let kept = others(rest, label, name);
        let last = tombstones.last();
        only_its_own_tombstone_goes(rest, label, name, t);
        assert(tombstones =~= rest.push(last));
        assert(tombstones.contains(t) == (rest.contains(t) || t == last)) by {
            if rest.contains(t) {
                let i = choose|i: int| 0 <= i < rest.len() && rest[i] == t;
                assert(tombstones[i] == t);
            }
            if t == last {
                assert(tombstones[tombstones.len() - 1] == t);
            }
        }
        assert(kept.push(last).contains(t) == (kept.contains(t) || t == last)) by {
            if kept.contains(t) {
                let i = choose|i: int| 0 <= i < kept.len() && kept[i] == t;
                assert(kept.push(last)[i] == t);
            }
            if t == last {
                assert(kept.push(last)[kept.len() as int] == t);
            }
        }
    }
}

/// Puts a fresh incarnation in the place of the tree that has its address.
pub fn replace(registry: &mut Registry, tree: TreeRec, target: &str) -> (r: Result<(), CoreError>)
    ensures
        ({
            let at = git::first_true(
                context::addressed(old(registry).trees@, tree.label@, tree.name@),
                0,
            );
            match at {
                Some(i) => r is Ok && final(registry).trees@ == old(registry).trees@.update(i, tree),
                None => (r matches Err(e) && e@ == context::unknown(target@))
                    && final(registry).trees@ == old(registry).trees@,
            }
        }),
        final(registry).labels == old(registry).labels,
        final(registry).tombstones == old(registry).tombstones,
{
    match registry.tree_at(tree.label.as_str(), tree.name.as_str()) {
        Some(i) => {
            registry.trees.set(i, tree);
            Ok(())
        },
        None => Err(context::not_found(target)),
    }
}

// ---------------------------------------------------------------------------
// Creating
// ---------------------------------------------------------------------------

/// What is known of the tree at an address when another is asked for there.
#[derive(Clone, Copy, Debug, PartialEq, Eq, Structural)]
pub struct EntryView {
    pub phase: DerivedPhase,
    pub source_identical: bool,
    pub verify_pending: bool,
    pub has_resource_records: bool,
}

/// What the record of a tree says that creating it asks about.
#[derive(Clone, Copy, Debug, PartialEq, Eq, Structural)]
pub struct Recorded {
    pub verify_pending: bool,
    pub resources: usize,
}

/// Describes the tree at an address; one without a record has nothing pending and no
/// resources.
pub fn entry_view(
    phase: DerivedPhase,
    t: &TreeRec,
    branch: &str,
    start: &Option<String>,
    recorded: Option<Recorded>,
) -> (r: EntryView)
    ensures
        r == (EntryView {
            phase,
            source_identical: same_source(*t, branch@, text::opt(*start)),
            verify_pending: recorded matches Some(s) && s.verify_pending,
            has_resource_records: recorded matches Some(s) && s.resources > 0,
        }),
{
    let (verify_pending, has_resource_records) = match recorded {
        Some(s) => (s.verify_pending, s.resources > 0),
        None => (false, false),
    };
    EntryView {
        phase,
        source_identical: source_identical(t, branch, start),
        verify_pending,
        has_resource_records,
    }
}

/// Where a creation that was left in its middle is taken up again.
#[derive(Clone, Copy, Debug, PartialEq, Eq, Structural)]
pub enum StartAt {
    /// Its record has to be written first.
    State,
    /// Its worktree has to be added.
    Git,
    /// Its files are there.
    Bootstrap,
}

/// What was decided about an address.
#[derive(Debug)]
pub enum Decision {
    Allocate,
    AlreadyReady,
    Verify { resumed: bool },
    FreshIncarnation,
    Resume { start: StartAt },
    Refuse { code: String, remedy: String },
}

/// What is done at an address.
#[derive(Clone, Copy, Debug, PartialEq, Eq, Structural)]
pub enum Making {
    /// Create a tree.
    Create,
    /// Create one in the place of the one that is there.
    Replace,
    /// Take its creation up again.
    Resume { start: StartAt },
    /// Verify the one that is there.
    Verify { resumed: bool },
    /// Tell of the one that is there.
    Tell,
}

/// What is done at an address that has a tree.
pub fn at_entry(decision: Decision, target: &str, phase: DerivedPhase) -> (r: Result<
    Making,
    CoreError,
>)
    requires
        !(decision is Allocate),
    ensures
        match decision {
            Decision::Refuse { code, remedy } => r matches Err(e) && e@ == error::fault(
                ExitClass::Conflict,
                code@,
                "cannot create "@ + target@ + " in phase "@ + phase_said(phase),
                remedy@,
            ),
            Decision::AlreadyReady => r == Ok::<Making, CoreError>(Making::Tell),
            Decision::Verify { resumed } => r == Ok::<Making, CoreError>(Making::Verify { resumed }),
            Decision::FreshIncarnation => r == Ok::<Making, CoreError>(Making::Replace),
            Decision::Resume { start } => r == Ok::<Making, CoreError>(Making::Resume { start }),
            Decision::Allocate => true,
        },
{
    match decision {
        Decision::Refuse { code, remedy } => Err(
            cannot_create(code.as_str(), target, phase, remedy.as_str()),
        ),
        Decision::AlreadyReady => Ok(Making::Tell),
        Decision::Verify { resumed } => Ok(Making::Verify { resumed }),
        Decision::FreshIncarnation => Ok(Making::Replace),
        Decision::Resume { start } => Ok(Making::Resume { start }),
        Decision::Allocate => Ok(Making::Create),
    }
}

/// What is done at an address that has no tree: it is created unless its path is
/// refused.
pub fn at_vacancy(decision: Decision, p: &str) -> (r: Result<Making, CoreError>)
    ensures
        match decision {
            Decision::Refuse { code, remedy } => r matches Err(e) && e@ == error::fault(
                ExitClass::State,
                code@,
                "tree path "@ + p@ + " is occupied"@,
                remedy@,
            ),
            _ => r == Ok::<Making, CoreError>(Making::Create),
        },
{
    match decision {
        Decision::Refuse { code, remedy } => Err(path_occupied(code.as_str(), p, remedy.as_str())),
        _ => Ok(Making::Create),
    }
}

/// What is reported of a creation: whether a tree was created, and whether an earlier
/// creation was taken up again.
pub fn making_flags(making: Making) -> (r: (bool, bool))
    ensures
        r.0 == (making is Create || making is Replace),
        r.1 == match making {
            Making::Resume { .. } => true,
            Making::Verify { resumed } => resumed,
            _ => false,
        },
{
    match making {
        Making::Create | Making::Replace => (true, false),
        Making::Resume { .. } => (false, true),
        Making::Verify { resumed } => (false, resumed),
        Making::Tell => (false, false),
    }
}

/// What creating a tree does next.
#[derive(Clone, Copy, Debug, PartialEq, Eq, Structural)]
pub enum CreateStep {
    /// Take the tree's lock.
    Lock,
    /// Read the configuration of the canonical checkout.
    Config,
    /// Give the tree its slot, its ports and its names.
    Allocate,
    /// Record that it is being made.
    WriteState,
    /// Put it into the registry.
    Record,
    /// Look whether its path is there.
    Look,
    /// Add its worktree.
    Add,
    /// Make it ready.
    Finish,
    /// Let the lock go, and tell of it.
    Done,
    Failed,
}

/// What came of a step.
#[derive(Debug)]
pub enum CreateEvent {
    Succeeded,
    /// The tree's path is not there.
    Absent,
    Failure(CoreError),
}

/// What is known of an event.
pub enum CreateNews {
    Succeeded,
    Absent,
    Failure(error::Fault),
}

impl View for CreateEvent {
    type V = CreateNews;

    open spec fn view(&self) -> CreateNews {
        match self {
            CreateEvent::Succeeded => CreateNews::Succeeded,
            CreateEvent::Absent => CreateNews::Absent,
            CreateEvent::Failure(e) => CreateNews::Failure(e@),
        }
    }
}

/// A tree that is being created, created anew, or whose creation is taken up again.
#[derive(Debug)]
pub struct Creating {
    pub making: Making,
    pub step: CreateStep,
    pub locked: bool,
    pub configured: bool,
    /// It is on record as being made since.
    pub state_written: bool,
    /// It is in the registry since.
    pub recorded: bool,
    /// Its worktree was added.
    pub added: bool,
    /// Its path was there.
    pub found: bool,
    pub error: Option<CoreError>,
}

/// What is known of a tree that is being created.
#[verifier::ext_equal]
pub struct Creation {
    pub making: Making,
    pub step: CreateStep,
    pub locked: bool,
    pub configured: bool,
    pub state_written: bool,
    pub recorded: bool,
    pub added: bool,
    pub found: bool,
    pub error: Option<error::Fault>,
}

impl View for Creating {
    type V = Creation;

    open spec fn view(&self) -> Creation {
        Creation {
            making: self.making,
            step: self.step,
            locked: self.locked,
            configured: self.configured,
            state_written: self.state_written,
            recorded: self.recorded,
            added: self.added,
            found: self.found,
            error: match self.error {
                Some(e) => Some(e@),
                None => None,
            },
        }
    }
}

/// How creating begins.
pub open spec fn creation(making: Making) -> Creation {
    Creation {
        making,
        step: CreateStep::Lock,
        locked: false,
        configured: false,
        state_written: false,
        recorded: false,
        added: false,
        found: false,
        error: None,
    }
}

/// What follows the lock: a tree in the place of another keeps what it was given, and
/// a creation that is taken up again writes its record only where it has none.
pub open spec fn under_lock(making: Making) -> CreateStep {
    match making {
        Making::Replace => CreateStep::WriteState,
        Making::Resume { start } => if start == StartAt::State {
            CreateStep::WriteState
        } else {
            CreateStep::Config
        },
        _ => CreateStep::Config,
    }
}

/// Creating after something came of its step.
pub open spec fn created(c: Creation, news: CreateNews) -> Creation {
    match (c.step, news) {
        (CreateStep::Done, _) | (CreateStep::Failed, _) => c,
        (_, CreateNews::Failure(e)) => Creation { step: CreateStep::Failed, error: Some(e), ..c },
        (CreateStep::Lock, _) => Creation { locked: true, step: under_lock(c.making), ..c },
        (CreateStep::Config, _) => Creation {
            configured: true,
            step: match c.making {
                Making::Replace => CreateStep::Finish,
                Making::Resume { .. } => CreateStep::Look,
                _ => CreateStep::Allocate,
            },
            ..c
        },
        (CreateStep::Allocate, _) => Creation { step: CreateStep::WriteState, ..c },
        (CreateStep::WriteState, _) => Creation {
            state_written: true,
            step: if c.making is Resume {
                CreateStep::Config
            } else {
                CreateStep::Record
            },
            ..c
        },
        (CreateStep::Record, _) => Creation { recorded: true, step: CreateStep::Add, ..c },
        (CreateStep::Look, CreateNews::Absent) => Creation { step: CreateStep::Add, ..c },
        (CreateStep::Look, _) => Creation { found: true, step: CreateStep::Finish, ..c },
        (CreateStep::Add, _) => Creation {
            added: true,
            step: if c.making is Replace {
                CreateStep::Config
            } else {
                CreateStep::Finish
            },
            ..c
        },
        (CreateStep::Finish, _) => Creation { locked: false, step: CreateStep::Done, ..c },
    }
}

impl Creating {
    /// Begins to create a tree.
    pub fn new(making: Making) -> (r: Self)
        requires
            making is Create || making is Replace || making is Resume,
        ensures
            r@ == creation(making),
    {
        Creating {
            making,
            step: CreateStep::Lock,
            locked: false,
            configured: false,
            state_written: false,
            recorded: false,
            added: false,
            found: false,
            error: None,
        }
    }

    /// Takes what came of the step, and goes on to the next.
    pub fn advance(&mut self, event: CreateEvent)
        ensures
            final(self)@ == created(old(self)@, event@),
    {
        match (self.step, event) {
            (CreateStep::Done, _) | (CreateStep::Failed, _) => {},
            (_, CreateEvent::Failure(e)) => {
                self.step = CreateStep::Failed;
                self.error = Some(e);
            },
            (CreateStep::Lock, _) => {
                self.locked = true;
                self.step = match self.making {
                    Making::Replace => CreateStep::WriteState,
                    Making::Resume { start } => if start == StartAt::State {
                        CreateStep::WriteState
                    } else {
                        CreateStep::Config
                    },
                    _ => CreateStep::Config,
                };
            },
            (CreateStep::Config, _) => {
                self.configured = true;
                self.step = match self.making {
                    Making::Replace => CreateStep::Finish,
                    Making::Resume { .. } => CreateStep::Look,
                    _ => CreateStep::Allocate,
                };
            },
            (CreateStep::Allocate, _) => {
                self.step = CreateStep::WriteState;
            },
            (CreateStep::WriteState, _) => {
                self.state_written = true;
                self.step = match self.making {
                    Making::Resume { .. } => CreateStep::Config,
                    _ => CreateStep::Record,
                };
            },
            (CreateStep::Record, _) => {
                self.recorded = true;
                self.step = CreateStep::Add;
            },
            (CreateStep::Look, CreateEvent::Absent) => {
                self.step = CreateStep::Add;
            },
            (CreateStep::Look, _) => {
                self.found = true;
                self.step = CreateStep::Finish;
            },
            (CreateStep::Add, _) => {
                self.added = true;
                self.step = match self.making {
                    Making::Replace => CreateStep::Config,
                    _ => CreateStep::Finish,
                };
            },
            (CreateStep::Finish, _) => {
                self.locked = false;
                self.step = CreateStep::Done;
            },
        }
    }
}

/// Creating after a row of events.
pub open spec fn created_all(c: Creation, news: Seq<CreateNews>) -> Creation
    decreases news.len(),
{
    if news.len() == 0 {
        c
    } else {
        created(created_all(c, news.drop_last()), news.last())
    }
}

/// What holds of creating at every step.
pub open spec fn creation_sound(c: Creation) -> bool {
    &&& !(c.step is Lock || c.step is Done || c.step is Failed) ==> c.locked
    &&& (c.step is Record || c.recorded) ==> c.state_written && !(c.making is Resume)
    &&& c.step is Allocate ==> c.making is Create
    &&& c.step is Look ==> c.making is Resume && c.configured
    &&& c.step is Add ==> c.recorded || c.making is Resume
    &&& (c.step is Add && !(c.making is Replace)) ==> c.configured
    &&& ((c.step is Record || (c.step is WriteState && !(c.making is Resume))) && !(
    c.making is Replace)) ==> c.configured
    &&& (c.making is Replace && c.step is Config) ==> c.recorded && c.added
    &&& c.step is Finish ==> c.configured && (c.added || c.found) && (c.recorded
        || c.making is Resume)
    &&& c.step is Done ==> !c.locked && c.configured && (c.added || c.found) && (c.recorded
        || c.making is Resume)
    &&& c.found ==> c.making is Resume
}

/// A tree is created under its lock alone; it is on record as being made before it is
/// in the registry; its worktree is added only where the registry has it; it is made
/// ready only once its worktree is there; and taking a creation up again gives the
/// tree nothing new and leaves the registry as it is.
pub proof fn creating_is_sound(making: Making, news: Seq<CreateNews>)
    requires
        making is Create || making is Replace || making is Resume,
    ensures
        creation_sound(created_all(creation(making), news)),
        created_all(creation(making), news).making == making,
    decreases news.len(),
{
    if news.len() > 0 {
        creating_is_sound(making, news.drop_last());
    }
}

/// What was done by the time that a tree is made ready. A tree that is created, or
/// created anew, went on record and into the registry, and its worktree was added. One
/// whose creation is taken up again went on record only where it had to, is left alone in
/// the registry, and its worktree was added exactly where its path was not there.
pub proof fn a_creation_leaves_nothing_out(making: Making, news: Seq<CreateNews>)
    requires
        making is Create || making is Replace || making is Resume,
    ensures
        ({
            let c = created_all(creation(making), news);
            &&& (c.step is Finish || c.step is Done) ==> {
                &&& c.configured
                &&& c.state_written == (!(making is Resume) || making == (Making::Resume {
                    start: StartAt::State,
                }))
                &&& c.recorded == !(making is Resume)
                &&& c.added == !c.found
            }
            &&& c.step is Failed <==> c.error is Some
            &&& c.step is Add ==> !c.added && !c.found
            &&& !(c.step is Done || c.step is Failed) ==> (c.locked <==> !(c.step is Lock))
        }),
    decreases news.len(),
{
    if news.len() > 0 {
        a_creation_leaves_nothing_out(making, news.drop_last());
        creating_is_sound(making, news.drop_last());
        let c = created_all(creation(making), news.drop_last());
        lemma_creation_so_far(making, news.drop_last());
    }
}

proof fn lemma_creation_so_far(making: Making, news: Seq<CreateNews>)
    requires
        making is Create || making is Replace || making is Resume,
    ensures
        ({
            let c = created_all(creation(making), news);
            let resumes = making is Resume;
            let writes = !resumes || making == (Making::Resume { start: StartAt::State });
            c.step is Failed || c.step is Done || c.step is Finish || {
                &&& c.state_written == (c.step is Record || c.step is Add || c.step is Look || (
                c.step is Config && (resumes || making is Replace))) && c.state_written ==> writes
                &&& (c.step is Record || c.step is Add || c.step is Look || (c.step is Config && !(
                making is Create))) ==> c.state_written == writes
                &&& c.recorded == (!resumes && (c.step is Add || (making is Replace
                    && c.step is Config)))
                &&& c.added == (making is Replace && c.step is Config)
                &&& !c.found
                &&& c.step is WriteState ==> writes && !c.state_written
                &&& (c.step is Lock || c.step is Allocate || (making is Create && c.step is Config))
                    ==> !c.state_written
            }
        }),
    decreases news.len(),
{
    if news.len() > 0 {
        lemma_creation_so_far(making, news.drop_last());
        creating_is_sound(making, news.drop_last());
    }
}

/// What is noted of a creation is noted where it happened, and creating fails with the
/// error of the step that failed, and for nothing else. A tree is given a slot before it
/// first goes on record.
pub proof fn a_creation_notes_what_happened(c: Creation, news: CreateNews)
    requires
        !(c.step is Done),
        !(c.step is Failed),
        c.making is Create || c.making is Replace || c.making is Resume,
    ensures
        ({
            let d = created(c, news);
            let went_well = !(news is Failure);
            &&& d.making == c.making
            &&& d.step is Failed <==> news is Failure
            &&& news matches CreateNews::Failure(e) ==> d.error == Some(e)
            &&& d.configured == (c.configured || (c.step is Config && went_well))
            &&& d.state_written == (c.state_written || (c.step is WriteState && went_well))
            &&& d.recorded == (c.recorded || (c.step is Record && went_well))
            &&& d.added == (c.added || (c.step is Add && went_well))
            &&& d.found == (c.found || (c.step is Look && news is Succeeded))
            &&& (d.step is WriteState && c.making is Create) ==> c.step is Allocate
            &&& went_well && c.step is Allocate ==> d.step is WriteState
            &&& d.step is Done <==> c.step is Finish && went_well
            &&& d.step != c.step
        }),
{
}

// ---------------------------------------------------------------------------
// Making a tree ready
// ---------------------------------------------------------------------------

/// What is done about a file that is to be copied into a tree.
#[derive(Debug)]
pub enum CopyStep {
    Skip(Notice),
    Refuse(CoreError),
    Copy,
}

/// Decides about a file that is to be copied: it is passed over where it is absent,
/// refused where git tracks it, and passed over where something is there already.
pub fn copy_step(
    target: &str,
    p: &str,
    source_missing: bool,
    source_in_git: bool,
    destination_missing: bool,
) -> (r: CopyStep)
    ensures
        if source_missing {
            r matches CopyStep::Skip(n) && n@ == output::about(
                NoticeLevel::Info,
                "COPY_ABSENT"@,
                target@ + ":"@ + p@,
                "copy source "@ + p@ + " is absent"@,
            )
        } else if source_in_git {
            r matches CopyStep::Refuse(e) && e@ == error::fault(
                ExitClass::State,
                "COPY_TRACKED"@,
                "copy source `"@ + p@ + "` is tracked by git"@,
                "remove it from copy or stop tracking it before retrying"@,
            )
        } else if !destination_missing {
            r matches CopyStep::Skip(n) && n@ == output::about(
                NoticeLevel::Info,
                "COPY_EXISTS"@,
                target@ + ":"@ + p@,
                "copy destination "@ + p@ + " already exists"@,
            )
        } else {
            r is Copy
        },
{
    let subject = target.to_owned().concat(":").concat(p);
    if source_missing {
        let message = "copy source ".to_owned().concat(p).concat(" is absent");
        CopyStep::Skip(
            output::notice(NoticeLevel::Info, "COPY_ABSENT", subject.as_str(), message.as_str()),
        )
    } else if source_in_git {
        let message = "copy source `".to_owned().concat(p).concat("` is tracked by git");
        CopyStep::Refuse(
            CoreError::new(
                ExitClass::State,
                "COPY_TRACKED",
                message.as_str(),
                "remove it from copy or stop tracking it before retrying",
            ),
        )
    } else if !destination_missing {
        let message = "copy destination ".to_owned().concat(p).concat(" already exists");
        CopyStep::Skip(
            output::notice(NoticeLevel::Info, "COPY_EXISTS", subject.as_str(), message.as_str()),
        )
    } else {
        CopyStep::Copy
    }
}

/// What making a tree ready does next.
#[derive(Clone, Copy, Debug, PartialEq, Eq, Structural)]
pub enum FinishStep {
    /// Write whose the directory is.
    Identity,
    /// Ask git which of the files it tracks.
    AskGit,
    /// Deal with the file at this place.
    Copy(usize),
    /// Delete the tree's record, since a file was refused.
    DropState,
    /// Record what was copied.
    Mark,
    /// Work the exclude out anew.
    Exclude,
    /// Enter the tree.
    Enter,
    /// Refresh what the tree declares.
    Refresh,
    /// Plan its sync.
    Plan,
    /// Sync it.
    Execute,
    /// Hash the inputs of the sync.
    Hash,
    /// Record the sync.
    RecordSync,
    /// Record that the tree is ready.
    Ready,
    /// Verify it.
    Verify,
    /// The tree is ready.
    Done,
    /// Record that it failed.
    MarkFailed,
    /// Hand on the error.
    Fail,
}

/// What came of a step.
#[derive(Debug)]
pub enum FinishEvent {
    /// It was done.
    Succeeded,
    /// A file was refused.
    Refused(CoreError),
    /// It failed.
    Broke(CoreError),
}

/// What is known of an event.
pub enum FinishNews {
    Succeeded,
    Refused(error::Fault),
    Broke(error::Fault),
}

impl View for FinishEvent {
    type V = FinishNews;

    open spec fn view(&self) -> FinishNews {
        match self {
            FinishEvent::Succeeded => FinishNews::Succeeded,
            FinishEvent::Refused(e) => FinishNews::Refused(e@),
            FinishEvent::Broke(e) => FinishNews::Broke(e@),
        }
    }
}

/// A tree that is being made ready. `copies` is how many files are to be copied,
/// none where that was done before.
#[derive(Debug)]
pub struct Finish {
    pub from_bootstrap: bool,
    pub copies: usize,
    pub no_sync: bool,
    pub verify: bool,
    pub step: FinishStep,
    pub entered: bool,
    pub refreshed: bool,
    /// The sync has a plan, which was carried out.
    pub ran: bool,
    /// The sync has no plan.
    pub unplanned: bool,
    pub ready: bool,
    /// The failure is on record.
    pub marked: bool,
    /// The error that is handed on.
    pub error: Option<CoreError>,
}

/// What is known of a tree that is being made ready.
#[verifier::ext_equal]
pub struct Readying {
    pub from_bootstrap: bool,
    pub copies: usize,
    pub no_sync: bool,
    pub verify: bool,
    pub step: FinishStep,
    pub entered: bool,
    pub refreshed: bool,
    pub ran: bool,
    pub unplanned: bool,
    pub ready: bool,
    pub marked: bool,
    pub error: Option<error::Fault>,
}

impl View for Finish {
    type V = Readying;

    open spec fn view(&self) -> Readying {
        Readying {
            from_bootstrap: self.from_bootstrap,
            copies: self.copies,
            no_sync: self.no_sync,
            verify: self.verify,
            step: self.step,
            entered: self.entered,
            refreshed: self.refreshed,
            ran: self.ran,
            unplanned: self.unplanned,
            ready: self.ready,
            marked: self.marked,
            error: match self.error {
                Some(e) => Some(e@),
                None => None,
            },
        }
    }
}

/// How making a tree ready begins.
pub open spec fn readying(from_bootstrap: bool, copies: usize, no_sync: bool, verify: bool) -> Readying {
    Readying {
        from_bootstrap,
        copies,
        no_sync,
        verify,
        step: FinishStep::Identity,
        entered: false,
        refreshed: false,
        ran: false,
        unplanned: false,
        ready: false,
        marked: false,
        error: None,
    }
}

/// The error that came of a step, or else the one that is known already.
pub open spec fn failing(f: Readying, news: FinishNews) -> Option<error::Fault> {
    match news {
        FinishNews::Succeeded => f.error,
        FinishNews::Refused(e) => Some(e),
        FinishNews::Broke(e) => Some(e),
    }
}

/// What follows the files.
pub open spec fn first_copy(f: Readying) -> FinishStep {
    if f.copies == 0 {
        FinishStep::Mark
    } else {
        FinishStep::Copy(0)
    }
}

/// What follows what a tree declares.
pub open spec fn after_refresh(f: Readying) -> FinishStep {
    if f.no_sync {
        FinishStep::Ready
    } else {
        FinishStep::Plan
    }
}

/// Making a tree ready after something came of its step. Where entering, refreshing
/// or syncing fails, that is recorded before the error is handed on; a sync without a
/// plan is no failure. Where dropping the record of a refused tree or recording a
/// failure fails itself, that error is handed on instead.
pub open spec fn finished(f: Readying, news: FinishNews) -> Readying {
    match (f.step, news) {
        (FinishStep::Done, _) | (FinishStep::Fail, _) => f,
        (FinishStep::Identity, FinishNews::Succeeded) => Readying {
            step: if f.from_bootstrap {
                FinishStep::Mark
            } else {
                FinishStep::AskGit
            },
            ..f
        },
        (FinishStep::AskGit, FinishNews::Succeeded) => Readying { step: first_copy(f), ..f },
        (FinishStep::Copy(i), FinishNews::Succeeded) => Readying {
            step: if i + 1 < f.copies {
                FinishStep::Copy((i + 1) as usize)
            } else {
                FinishStep::Mark
            },
            ..f
        },
        (FinishStep::Copy(_), FinishNews::Refused(e)) => Readying {
            step: FinishStep::DropState,
            error: Some(e),
            ..f
        },
        (FinishStep::DropState, _) => Readying {
            step: FinishStep::Fail,
            error: failing(f, news),
            ..f
        },
        (FinishStep::Mark, FinishNews::Succeeded) => Readying { step: FinishStep::Exclude, ..f },
        (FinishStep::Exclude, FinishNews::Succeeded) => Readying { step: FinishStep::Enter, ..f },
        (FinishStep::Enter, FinishNews::Succeeded) => Readying {
            entered: true,
            step: FinishStep::Refresh,
            ..f
        },
        (FinishStep::Refresh, FinishNews::Succeeded) => Readying {
            refreshed: true,
            step: after_refresh(f),
            ..f
        },
        (FinishStep::Plan, FinishNews::Succeeded) => Readying { step: FinishStep::Execute, ..f },
        (FinishStep::Plan, _) => Readying { unplanned: true, step: FinishStep::Ready, ..f },
        (FinishStep::Execute, FinishNews::Succeeded) => Readying {
            ran: true,
            step: FinishStep::Hash,
            ..f
        },
        (FinishStep::Hash, FinishNews::Succeeded) => Readying { step: FinishStep::RecordSync, ..f },
        (FinishStep::RecordSync, FinishNews::Succeeded) => Readying {
            step: FinishStep::Ready,
            ..f
        },
        (FinishStep::Ready, FinishNews::Succeeded) => Readying {
            ready: true,
            step: if f.verify {
                FinishStep::Verify
            } else {
                FinishStep::Done
            },
            ..f
        },
        (FinishStep::Verify, FinishNews::Succeeded) => Readying { step: FinishStep::Done, ..f },
        (FinishStep::Enter, _) | (FinishStep::Refresh, _) | (FinishStep::Execute, _) => Readying {
            step: FinishStep::MarkFailed,
            error: failing(f, news),
            ..f
        },
        (FinishStep::MarkFailed, FinishNews::Succeeded) => Readying {
            marked: true,
            step: FinishStep::Fail,
            ..f
        },
        _ => Readying { step: FinishStep::Fail, error: failing(f, news), ..f },
    }
}

impl Readying {
    /// What holds at every step: a tree is ready only where it was entered, what it
    /// declares was refreshed, and it was synced, has nothing to sync by, or was not
    /// to be synced.
    pub open spec fn wf(self) -> bool {
        &&& (self.step matches FinishStep::Copy(i) ==> i < self.copies)
        &&& (self.step == FinishStep::Refresh || self.step == FinishStep::Plan || self.step
            == FinishStep::Execute || self.step == FinishStep::Hash || self.step
            == FinishStep::RecordSync || self.step == FinishStep::Ready || self.step
            == FinishStep::Verify || self.step == FinishStep::Done) ==> self.entered
        &&& (self.step == FinishStep::Plan || self.step == FinishStep::Execute || self.step
            == FinishStep::Hash || self.step == FinishStep::RecordSync || self.step
            == FinishStep::Ready || self.step == FinishStep::Verify || self.step
            == FinishStep::Done) ==> self.refreshed
        &&& (self.step == FinishStep::Hash || self.step == FinishStep::RecordSync) ==> self.ran
        &&& (self.step == FinishStep::Ready || self.step == FinishStep::Verify || self.step
            == FinishStep::Done) ==> (self.no_sync || self.ran || self.unplanned)
        &&& (self.step == FinishStep::Verify || self.step == FinishStep::Done) ==> self.ready
        &&& self.step == FinishStep::Verify ==> self.verify
        &&& self.ready ==> self.entered && self.refreshed && (self.no_sync || self.ran
            || self.unplanned)
        &&& self.step == FinishStep::Fail || self.step == FinishStep::DropState || self.step
            == FinishStep::MarkFailed ==> self.error is Some
    }
}

impl Finish {
    /// Begins to make a tree ready.
    pub fn new(from_bootstrap: bool, copies: usize, no_sync: bool, verify: bool) -> (r: Self)
        ensures
            r@.wf(),
            r@ == readying(from_bootstrap, copies, no_sync, verify),
    {
        Finish {
            from_bootstrap,
            copies,
            no_sync,
            verify,
            step: FinishStep::Identity,
            entered: false,
            refreshed: false,
            ran: false,
            unplanned: false,
            ready: false,
            marked: false,
            error: None,
        }
    }

    /// Takes what came of the step, and goes on to the next.
    pub fn advance(&mut self, event: FinishEvent)
        requires
            old(self)@.wf(),
        ensures
            final(self)@.wf(),
            final(self)@ == finished(old(self)@, event@),
    {
        match (self.step, event) {
            (FinishStep::Done, _) | (FinishStep::Fail, _) => {},
            (FinishStep::Identity, FinishEvent::Succeeded) => {
                self.step = if self.from_bootstrap {
                    FinishStep::Mark
                } else {
                    FinishStep::AskGit
                };
            },
            (FinishStep::AskGit, FinishEvent::Succeeded) => {
                self.step = if self.copies == 0 {
                    FinishStep::Mark
                } else {
                    FinishStep::Copy(0)
                };
            },
            (FinishStep::Copy(i), FinishEvent::Succeeded) => {
                self.step = if i < self.copies - 1 {
                    FinishStep::Copy(i + 1)
                } else {
                    FinishStep::Mark
                };
            },
            (FinishStep::Copy(_), FinishEvent::Refused(e)) => {
                self.step = FinishStep::DropState;
                self.error = Some(e);
            },
            (FinishStep::DropState, FinishEvent::Succeeded) => {
                self.step = FinishStep::Fail;
            },
            (FinishStep::Mark, FinishEvent::Succeeded) => {
                self.step = FinishStep::Exclude;
            },
            (FinishStep::Exclude, FinishEvent::Succeeded) => {
                self.step = FinishStep::Enter;
            },
            (FinishStep::Enter, FinishEvent::Succeeded) => {
                self.entered = true;
                self.step = FinishStep::Refresh;
            },
            (FinishStep::Refresh, FinishEvent::Succeeded) => {
                self.refreshed = true;
                self.step = if self.no_sync {
                    FinishStep::Ready
                } else {
                    FinishStep::Plan
                };
            },
            (FinishStep::Plan, FinishEvent::Succeeded) => {
                self.step = FinishStep::Execute;
            },
            (FinishStep::Plan, _) => {
                self.unplanned = true;
                self.step = FinishStep::Ready;
            },
            (FinishStep::Execute, FinishEvent::Succeeded) => {
                self.ran = true;
                self.step = FinishStep::Hash;
            },
            (FinishStep::Hash, FinishEvent::Succeeded) => {
                self.step = FinishStep::RecordSync;
            },
            (FinishStep::RecordSync, FinishEvent::Succeeded) => {
                self.step = FinishStep::Ready;
            },
            (FinishStep::Ready, FinishEvent::Succeeded) => {
                self.ready = true;
                self.step = if self.verify {
                    FinishStep::Verify
                } else {
                    FinishStep::Done
                };
            },
            (FinishStep::Verify, FinishEvent::Succeeded) => {
                self.step = FinishStep::Done;
            },
            (FinishStep::MarkFailed, FinishEvent::Succeeded) => {
                self.marked = true;
                self.step = FinishStep::Fail;
            },
            (step, FinishEvent::Refused(e)) | (step, FinishEvent::Broke(e)) => {
                self.step = match step {
                    FinishStep::Enter | FinishStep::Refresh | FinishStep::Execute => {
                        FinishStep::MarkFailed
                    },
                    _ => FinishStep::Fail,
                };
                self.error = Some(e);
            },
        }
    }
}

/// Making a tree ready after a row of events.
pub open spec fn finished_all(f: Readying, events: Seq<FinishNews>) -> Readying
    decreases events.len(),
{
    if events.len() == 0 {
        f
    } else {
        finished(finished_all(f, events.drop_last()), events.last())
    }
}

/// A tree is called ready only where it was entered and refreshed, and its sync was
/// not wanted, not planned, or carried out; and it is verified only once it is ready.
pub proof fn only_a_finished_tree_is_ready(f: Readying, events: Seq<FinishNews>)
    requires
        f.wf(),
        f.step == FinishStep::Identity,
    ensures
        finished_all(f, events).wf(),
        finished_all(f, events).step == FinishStep::Done ==> {
            let now = finished_all(f, events);
            now.entered && now.refreshed && now.ready && (now.no_sync || now.ran || now.unplanned)
        },
        finished_all(f, events).step == FinishStep::Verify ==> finished_all(f, events).ready,
    decreases events.len(),
{
    if events.len() > 0 {
        only_a_finished_tree_is_ready(f, events.drop_last());
    }
}

/// Where entering a tree, refreshing it or syncing it fails, that goes on record
/// before that very error is handed on.
pub proof fn failures_go_on_record(f: Readying, e: error::Fault)
    requires
        f.step == FinishStep::Enter || f.step == FinishStep::Refresh || f.step
            == FinishStep::Execute,
    ensures
        ({
            let broken = finished(f, FinishNews::Broke(e));
            let told = finished(broken, FinishNews::Succeeded);
            &&& broken.step == FinishStep::MarkFailed
            &&& told.marked
            &&& told.step == FinishStep::Fail
            &&& told.error == Some(e)
        }),
{
}

/// The place of a step in the order in which steps come.
pub open spec fn readying_place(step: FinishStep) -> int {
    match step {
        FinishStep::Identity => 0,
        FinishStep::AskGit => 1,
        FinishStep::Copy(i) => 2 + i,
        FinishStep::Mark => usize::MAX + 3,
        FinishStep::Exclude => usize::MAX + 4,
        FinishStep::Enter => usize::MAX + 5,
        FinishStep::Refresh => usize::MAX + 6,
        FinishStep::Plan => usize::MAX + 7,
        FinishStep::Execute => usize::MAX + 8,
        FinishStep::Hash => usize::MAX + 9,
        FinishStep::RecordSync => usize::MAX + 10,
        FinishStep::Ready => usize::MAX + 11,
        FinishStep::Verify => usize::MAX + 12,
        FinishStep::Done => usize::MAX + 13,
        FinishStep::DropState | FinishStep::MarkFailed | FinishStep::Fail => -1,
    }
}

/// Whether a step is called for.
pub open spec fn readying_calls_for(a: Readying, step: FinishStep) -> bool {
    match step {
        FinishStep::AskGit => !a.from_bootstrap,
        FinishStep::Copy(i) => !a.from_bootstrap && i < a.copies,
        FinishStep::Plan => !a.no_sync,
        FinishStep::Execute | FinishStep::Hash | FinishStep::RecordSync => !a.no_sync && !a.unplanned,
        FinishStep::Verify => a.verify,
        _ => true,
    }
}

/// What holds at every step.
pub open spec fn readying_holds(a: Readying, from_bootstrap: bool, copies: usize, no_sync: bool, verify: bool) -> bool {
    &&& readying_calls_for(a, a.step)
    &&& a.from_bootstrap == from_bootstrap && a.copies == copies
    &&& a.no_sync == no_sync && a.verify == verify
    &&& a.error is None
    &&& !a.marked
    &&& (no_sync || readying_place(a.step) <= readying_place(FinishStep::Plan) ==> !a.unplanned)
    &&& a.entered == (readying_place(a.step) > readying_place(FinishStep::Enter))
    &&& a.refreshed == (readying_place(a.step) > readying_place(FinishStep::Refresh))
    &&& a.ran == (!no_sync && !a.unplanned && readying_place(a.step) > readying_place(FinishStep::Execute))
    &&& a.ready == (readying_place(a.step) > readying_place(FinishStep::Ready))
}

/// What an answer to a step is gone by.
pub open spec fn readying_goes_by(a: Readying, step: FinishStep, e: FinishNews) -> bool {
    match step {
        FinishStep::Plan => e is Succeeded == !a.unplanned,
        FinishStep::DropState | FinishStep::MarkFailed | FinishStep::Fail => true,
        _ => e is Succeeded,
    }
}

/// How it goes on.
pub open spec fn readying_next() -> spec_fn(Readying, FinishNews) -> Readying {
    |a: Readying, e: FinishNews| finished(a, e)
}

/// The step that it is at.
pub open spec fn readying_at() -> spec_fn(Readying) -> FinishStep {
    |a: Readying| a.step
}

/// What a step was answered with, where it was taken and left again.
pub open spec fn readying_given(from_bootstrap: bool, copies: usize, no_sync: bool, verify: bool, events: Seq<FinishNews>, step: FinishStep) -> Option<FinishNews> {
    course::answered(readying_next(), readying_at(), readying(from_bootstrap, copies, no_sync, verify), events, step)
}

proof fn lemma_readying_after(from_bootstrap: bool, copies: usize, no_sync: bool, verify: bool, events: Seq<FinishNews>)
    ensures
        finished_all(readying(from_bootstrap, copies, no_sync, verify), events) == course::after(readying_next(), readying(from_bootstrap, copies, no_sync, verify), events),
    decreases events.len(),
{
    if events.len() > 0 {
        lemma_readying_after(from_bootstrap, copies, no_sync, verify, events.drop_last());
    }
}

#[verifier::spinoff_prover]
proof fn lemma_readying_step(a: Readying, from_bootstrap: bool, copies: usize, no_sync: bool, verify: bool, e: FinishNews, k: FinishStep)
    requires
        !(a.step == FinishStep::DropState || a.step == FinishStep::MarkFailed || a.step == FinishStep::Fail),
        readying_holds(a, from_bootstrap, copies, no_sync, verify),
        !(finished(a, e).step == FinishStep::DropState || finished(a, e).step == FinishStep::MarkFailed || finished(a, e).step == FinishStep::Fail),
    ensures
        ({
            let b = finished(a, e);
            &&& readying_holds(b, from_bootstrap, copies, no_sync, verify)
            &&& b.step == a.step ==> b == a
            &&& b.step != a.step ==> {
                &&& readying_place(b.step) > readying_place(a.step)
                &&& readying_place(k) <= readying_place(a.step) ==> readying_calls_for(b, k) == readying_calls_for(a, k)
                &&& readying_place(a.step) < readying_place(k) < readying_place(b.step) ==> !readying_calls_for(b, k)
            }
        }),
{
}

#[verifier::spinoff_prover]
proof fn lemma_readying_told(a: Readying, from_bootstrap: bool, copies: usize, no_sync: bool, verify: bool, e: FinishNews, k: FinishStep, e0: FinishNews)
    requires
        !(a.step == FinishStep::DropState || a.step == FinishStep::MarkFailed || a.step == FinishStep::Fail),
        readying_holds(a, from_bootstrap, copies, no_sync, verify),
        !(finished(a, e).step == FinishStep::DropState || finished(a, e).step == FinishStep::MarkFailed || finished(a, e).step == FinishStep::Fail),
    ensures
        a.step == k && finished(a, e).step != k ==> readying_goes_by(finished(a, e), k, e),
        readying_place(a.step) > readying_place(k) && readying_goes_by(a, k, e0) ==> readying_goes_by(finished(a, e), k, e0),
{
}

/// Each step of making a tree ready is taken where it is called for, and nowhere else,
/// whatever the events: git is asked and every file is copied unless that was done before;
/// the tree is synced unless that was ruled out or there is nothing to sync by; and it is
/// verified exactly where that was asked for.
pub proof fn a_tree_is_made_ready_by_all_that_is_called_for(from_bootstrap: bool, copies: usize, no_sync: bool, verify: bool, events: Seq<FinishNews>, step: FinishStep)
    requires
        readying_place(readying(from_bootstrap, copies, no_sync, verify).step) <= readying_place(step),
    ensures
        ({
            let a = finished_all(readying(from_bootstrap, copies, no_sync, verify), events);
            !(a.step == FinishStep::DropState || a.step == FinishStep::MarkFailed || a.step == FinishStep::Fail) ==> {
                &&& (match a.step {
                    FinishStep::AskGit => !a.from_bootstrap,
                    FinishStep::Copy(i) => !a.from_bootstrap && i < a.copies,
                    FinishStep::Plan => !a.no_sync,
                    FinishStep::Execute | FinishStep::Hash | FinishStep::RecordSync => !a.no_sync && !a.unplanned,
                    FinishStep::Verify => a.verify,
                    _ => true,
                })
                &&& a.from_bootstrap == from_bootstrap && a.copies == copies
                &&& a.no_sync == no_sync && a.verify == verify
                &&& a.error is None
                &&& !a.marked
                &&& (no_sync || readying_place(a.step) <= readying_place(FinishStep::Plan) ==> !a.unplanned)
                &&& a.entered == (readying_place(a.step) > readying_place(FinishStep::Enter))
                &&& a.refreshed == (readying_place(a.step) > readying_place(FinishStep::Refresh))
                &&& a.ran == (!no_sync && !a.unplanned && readying_place(a.step) > readying_place(FinishStep::Execute))
                &&& a.ready == (readying_place(a.step) > readying_place(FinishStep::Ready))
                &&& readying_place(a.step) > readying_place(step) ==> (readying_given(from_bootstrap, copies, no_sync, verify, events, step) is Some
                    <==> (match step {
                            FinishStep::AskGit => !a.from_bootstrap,
                            FinishStep::Copy(i) => !a.from_bootstrap && i < a.copies,
                            FinishStep::Plan => !a.no_sync,
                            FinishStep::Execute | FinishStep::Hash | FinishStep::RecordSync => !a.no_sync && !a.unplanned,
                            FinishStep::Verify => a.verify,
                            _ => true,
                        }))
                &&& readying_place(a.step) <= readying_place(step) ==> readying_given(from_bootstrap, copies, no_sync, verify, events, step) is None
                &&& readying_given(from_bootstrap, copies, no_sync, verify, events, step) matches Some(e) ==> (match step {
                    FinishStep::Plan => e is Succeeded == !a.unplanned,
                    FinishStep::DropState | FinishStep::MarkFailed | FinishStep::Fail => true,
                    _ => e is Succeeded,
                })
            }
        }),
{
    lemma_readying_after(from_bootstrap, copies, no_sync, verify, events);
    let next = readying_next();
    let at = readying_at();
    let s = readying(from_bootstrap, copies, no_sync, verify);
    let places = |k: FinishStep| readying_place(k);
    let dead = |a: Readying| a.step == FinishStep::DropState || a.step == FinishStep::MarkFailed || a.step == FinishStep::Fail;
    let inv = |a: Readying| readying_holds(a, from_bootstrap, copies, no_sync, verify);
    let called = |a: Readying, k: FinishStep| readying_calls_for(a, k);
    let past = |a: Readying| readying_place(a.step) > readying_place(step);
    let fact = |a: Readying, e: FinishNews| readying_goes_by(a, step, e);
    assert forall|a: Readying, e: FinishNews|
        inv(a) && !dead(a) && !dead(#[trigger] next(a, e)) implies inv(next(a, e)) by {
        lemma_readying_step(a, from_bootstrap, copies, no_sync, verify, e, step);
    }
    assert forall|a: Readying, e: FinishNews|
        inv(a) && !dead(a) && called(a, at(a)) && !dead(#[trigger] next(a, e)) implies {
        let b = next(a, e);
        &&& inv(b)
        &&& at(b) == at(a) ==> b == a
        &&& at(b) != at(a) ==> {
            &&& places(at(b)) > places(at(a))
            &&& called(b, at(b))
            &&& places(step) <= places(at(a)) ==> called(b, step) == called(a, step)
            &&& places(at(a)) < places(step) < places(at(b)) ==> !called(b, step)
        }
    } by {
        lemma_readying_step(a, from_bootstrap, copies, no_sync, verify, e, step);
    }
    course::lemma_taken(next, at, places, dead, inv, called, s, events, step);
    assert forall|a: Readying, e: FinishNews|
        inv(a) && !dead(a) && !dead(#[trigger] next(a, e)) && at(a) == step && at(next(a, e))
            != step implies past(next(a, e)) && fact(next(a, e), e) by {
        lemma_readying_step(a, from_bootstrap, copies, no_sync, verify, e, step);
        lemma_readying_told(a, from_bootstrap, copies, no_sync, verify, e, step, e);
    }
    assert forall|a: Readying, e: FinishNews, e0: FinishNews|
        #![trigger next(a, e), fact(a, e0)]
        inv(a) && !dead(a) && !dead(next(a, e)) && past(a) && fact(a, e0) implies past(next(a, e))
        && fact(next(a, e), e0) && at(a) != step by {
        lemma_readying_step(a, from_bootstrap, copies, no_sync, verify, e, step);
        lemma_readying_told(a, from_bootstrap, copies, no_sync, verify, e, step, e0);
    }
    course::lemma_told(next, at, dead, inv, past, fact, s, events, step);
}

/// What a failure of making a tree ready comes to: only a sync without a plan is passed
/// over. A file that is refused has the record dropped, what fails once the tree is
/// entered goes on record, and the error of what failed is the one that is handed on.
pub proof fn a_failure_is_handed_on(f: Readying, news: FinishNews)
    requires
        readying_place(f.step) >= 0,
        f.step != FinishStep::Done,
    ensures
        ({
            let g = finished(f, news);
            let error = match news {
                FinishNews::Succeeded => None,
                FinishNews::Refused(e) => Some(e),
                FinishNews::Broke(e) => Some(e),
            };
            let dies = !(news is Succeeded) && f.step != FinishStep::Plan;
            &&& dies <==> readying_place(g.step) < 0
            &&& dies ==> g.error == error
            &&& g.step == FinishStep::MarkFailed <==> dies && (f.step == FinishStep::Enter || f.step
                == FinishStep::Refresh || f.step == FinishStep::Execute)
            &&& g.step == FinishStep::DropState <==> f.step is Copy && news is Refused
            &&& !dies ==> g.error == f.error
        }),
{
}

/// What is done once a failure is known: the record is dropped or the failure recorded,
/// and then the error is handed on, or that of doing so.
pub proof fn an_error_is_told_in_the_end(f: Readying, news: FinishNews)
    requires
        f.step == FinishStep::DropState || f.step == FinishStep::MarkFailed,
    ensures
        finished(f, news).step == FinishStep::Fail,
        news is Succeeded ==> finished(f, news).error == f.error,
        news matches FinishNews::Broke(e) ==> finished(f, news).error == Some(e),
        finished(f, news).marked == (f.marked || (f.step == FinishStep::MarkFailed
            && news is Succeeded)),
{
}

/// A tree that failed to verify, of the error of its task; what that tells is told on.
pub fn verify_failed(cause: CoreError) -> (r: CoreError)
    ensures
        r@ == error::telling(
            error::fault(
                ExitClass::ChildFailed,
                "VERIFY_FAILED"@,
                "verification failed: "@ + cause@.message,
                "fix the verify task and run `wt new --verify` again"@,
            ),
            cause@.details,
        ),
{
    let message = "verification failed: ".to_owned().concat(cause.message.as_str());
    CoreError::new(
        ExitClass::ChildFailed,
        "VERIFY_FAILED",
        message.as_str(),
        "fix the verify task and run `wt new --verify` again",
    ).with_details(cause.details)
}

/// The notices of a new tree: those of making it ready, and those of its source.
pub fn source_notices(source: Vec<Notice>, notices: Vec<Notice>) -> (r: Vec<Notice>)
    ensures
        r@ == notices@ + source@,
{
    let mut all = notices;
    let mut source = source;
    all.append(&mut source);
    all
}

/// What is done once a tree was created.
#[derive(Clone, Copy, Debug, PartialEq, Eq, Structural)]
pub enum AfterNew {
    Nothing,
    /// Make its session and attach to it once the summary was shown.
    Session { build: bool },
    /// Make its session without attaching to it.
    Provision { build: bool },
}

/// Decides what is done once a tree was created.
pub fn after_new(no_open: bool, no_build: bool, has_build: bool, attach: bool) -> (r: AfterNew)
    ensures
        r == if no_open {
            AfterNew::Nothing
        } else if attach {
            AfterNew::Session { build: !no_build && has_build }
        } else {
            AfterNew::Provision { build: !no_build && has_build }
        },
{
    let build = !no_build && has_build;
    if no_open {
        AfterNew::Nothing
    } else if attach {
        AfterNew::Session { build }
    } else {
        AfterNew::Provision { build }
    }
}

} // verus!
