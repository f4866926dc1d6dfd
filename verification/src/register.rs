//! Registering a checkout, repairing its registration, and moving it.

use vstd::prelude::*;
use vstd::string::*;

use crate::assoc::Assoc;
use crate::context;
use crate::context::{Coordinates, LabelRec, Registry, SourceKind, TreeRec};
use crate::course;
use crate::error;
use crate::error::{CoreError, ExitClass};
use crate::git;
use crate::model::{DerivedPhase, OpVerb, StatePhase};
use crate::order;
use crate::order::Keyed;
use crate::path;
use crate::snapshot::TiedTo;
use crate::text;

verus! {

broadcast use vstd::string::group_string_axioms;

// ---------------------------------------------------------------------------
// What is refused before anything is looked up
// ---------------------------------------------------------------------------

/// Refuses to repair and to move at once.
pub fn check_flags(repair: bool, moves: bool) -> (r: Result<(), CoreError>)
    ensures
        r is Ok == !(repair && moves),
        r matches Err(e) ==> e@ == error::fault(
            ExitClass::Usage,
            "REPAIR_REFUSED"@,
            "--repair cannot be combined with --move-to"@,
            "use --repair at the registered path or --move-to after moving the checkout"@,
        ),
{
    if repair && moves {
        Err(
            CoreError::new(
                ExitClass::Usage,
                "REPAIR_REFUSED",
                "--repair cannot be combined with --move-to",
                "use --repair at the registered path or --move-to after moving the checkout",
            ),
        )
    } else {
        Ok(())
    }
}

/// Refuses a root that is a symbolic link: a checkout that is registered, or one that
/// was moved.
pub fn check_root(p: &str, is_link: bool, moved: bool) -> (r: Result<(), CoreError>)
    ensures
        r is Ok == !is_link,
        r matches Err(e) ==> e@ == error::fault(
            ExitClass::State,
            "ROOT_IS_SYMLINK"@,
            p@ + " is a symlink"@,
            if moved {
                "move the checkout to a real directory"@
            } else {
                "register the real checkout path"@
            },
        ),
{
    if !is_link {
        return Ok(());
    }
    let message = p.to_owned().concat(" is a symlink");
    let remedy = if moved {
        "move the checkout to a real directory"
    } else {
        "register the real checkout path"
    };
    Err(CoreError::new(ExitClass::State, "ROOT_IS_SYMLINK", message.as_str(), remedy))
}

/// Refuses a path that is not the root of its checkout.
pub fn check_toplevel(p: &str, top: &str) -> (r: Result<(), CoreError>)
    ensures
        r is Ok == path::same_path(p@, top@),
        r matches Err(e) ==> e@ == error::fault(
            ExitClass::State,
            "NOT_A_WORKTREE"@,
            "register path is not the repository root"@,
            "register the checkout root reported by git rev-parse --show-toplevel"@,
        ),
{
    if path::same(p, top) {
        Ok(())
    } else {
        Err(
            CoreError::new(
                ExitClass::State,
                "NOT_A_WORKTREE",
                "register path is not the repository root",
                "register the checkout root reported by git rev-parse --show-toplevel",
            ),
        )
    }
}

/// A text without the given end, as often as it has it.
pub open spec fn trim_all(s: Seq<char>, end: Seq<char>) -> Seq<char>
    decreases s.len(),
{
    if end.len() > 0 && text::ends(s, end) {
        trim_all(s.take(s.len() - end.len()), end)
    } else {
        s
    }
}

/// A text without the given end, as often as it has it.
pub fn without_ends(s: &str, end: &str) -> (r: String)
    requires
        end@.len() > 0,
    ensures
        r@ == trim_all(s@, end@),
{
    let mut rest = s.to_owned();
    loop
        invariant_except_break
            end@.len() > 0,
            trim_all(s@, end@) == trim_all(rest@, end@),
        ensures
            rest@ == trim_all(s@, end@),
        decreases rest@.len(),
    {
        match text::strip_suffix(rest.as_str(), end) {
            Some(shorter) => {
                rest = shorter;
            },
            None => {
                break;
            },
        }
    }
    rest
}

/// The label of a checkout that is given none: the name of its directory.
pub open spec fn label_of(p: Seq<char>) -> Seq<char> {
    match path::name_of(p) {
        Some(name) => trim_all(name, ".git"@),
        None => "repo"@,
    }
}

/// The label of a checkout that is given none.
pub fn default_label(p: &str) -> (r: String)
    ensures
        r@ == label_of(p@),
{
    proof {
        reveal_strlit(".git");
        reveal_strlit("repo");
    }
    match path::file_name(p) {
        Some(name) => without_ends(name.as_str(), ".git"),
        None => "repo".to_owned(),
    }
}

// ---------------------------------------------------------------------------
// Registering
// ---------------------------------------------------------------------------

/// What registering a checkout comes to.
#[derive(Clone, Copy, Debug, PartialEq, Eq, Structural)]
pub enum Registration {
    /// It is the checkout at this place, which may be repaired.
    Repair(usize),
    /// It is registered already, at this place.
    Known(usize),
    /// It is not registered.
    Fresh,
}

/// The fault of a repair that is refused.
pub open spec fn repair_refused(message: Seq<char>, remedy: Seq<char>) -> error::Fault {
    error::fault(ExitClass::State, "REPAIR_REFUSED"@, message, remedy)
}

/// The fault of something that is registered as another thing.
pub open spec fn registered(code: Seq<char>, message: Seq<char>, remedy: Seq<char>) -> error::Fault {
    error::fault(ExitClass::Conflict, code, message, remedy)
}

/// What repairing the registration of a checkout comes to: it must be the label's own
/// canonical checkout.
pub open spec fn repairing(
    r: Registry,
    label: Seq<char>,
    p: Seq<char>,
    common_id: Seq<char>,
) -> Result<int, error::Fault> {
    match git::first_true(context::canonicals(r.trees@, label), 0) {
        None => Err(
            repair_refused(
                "label "@ + label + " has no registered canonical checkout"@,
                "register the checkout without --repair"@,
            ),
        ),
        Some(i) => if r.trees@[i].path@ == p && r.labels@[label].path@ == p
            && r.labels@[label].gitdir_id@ == common_id {
            Ok(i)
        } else {
            Err(
                repair_refused(
                    p + " is not "@ + label + "'s registered canonical checkout"@,
                    "run this command at "@ + r.trees@[i].path@,
                ),
            )
        },
    }
}

/// What registering a checkout comes to: known where the label is its own, and else
/// it is refused where its label, its path or its repository is registered.
pub open spec fn registering(
    r: Registry,
    label: Seq<char>,
    p: Seq<char>,
    common_id: Seq<char>,
    targets: Seq<Seq<char>>,
) -> Result<Option<int>, error::Fault> {
    match git::first_true(context::canonicals(r.trees@, label), 0) {
        Some(i) => if r.trees@[i].path@ == p {
            Ok(Some(i))
        } else {
            Err(
                registered(
                    "PATH_REGISTERED"@,
                    "label "@ + label + " is already registered at "@ + r.trees@[i].path@,
                    "use the existing label or choose another label"@,
                ),
            )
        },
        None => match git::first_true(context::at_path(r.trees@, p), 0) {
            Some(i) => Err(
                registered(
                    "PATH_REGISTERED"@,
                    "path is already registered as "@ + targets[i],
                    "use the existing label"@,
                ),
            ),
            None => match git::first_true(context::of_gitdir(r.labels.entries@, common_id), 0) {
                Some(i) => {
                    let other = r.labels.entries@[i].0@;
                    Err(
                        registered(
                            "GITDIR_REGISTERED"@,
                            "common gitdir is already registered as "@ + other,
                            "use `wt adopt "@ + p + " --label "@ + other + "`"@,
                        ),
                    )
                },
                None => Ok(None),
            },
        },
    }
}

fn conflict(code: &str, message: String, remedy: &str) -> (r: CoreError)
    ensures
        r@ == registered(code@, message@, remedy@),
{
    CoreError::new(ExitClass::Conflict, code, message.as_str(), remedy)
}

/// Decides about the repair of a registration.
pub fn judge_repair(registry: &Registry, label: &str, p: &str, common_id: &str) -> (r: Result<
    Registration,
    CoreError,
>)
    requires
        registry.wf(),
        git::first_true(context::canonicals(registry.trees@, label@), 0) is Some
            ==> registry.labels@.contains_key(label@),
    ensures
        match repairing(*registry, label@, p@, common_id@) {
            Ok(i) => r matches Ok(Registration::Repair(k)) && k == i,
            Err(fault) => r matches Err(e) && e@ == fault,
        },
{
    match registry.canonical_at(label) {
        None => {
            let message = "label ".to_owned().concat(label).concat(
                " has no registered canonical checkout",
            );
            Err(
                CoreError::new(
                    ExitClass::State,
                    "REPAIR_REFUSED",
                    message.as_str(),
                    "register the checkout without --repair",
                ),
            )
        },
        Some(i) => {
            let own = match registry.labels.get(label) {
                Some(rec) => text::same(rec.path.as_str(), p) && text::same(
                    rec.gitdir_id.as_str(),
                    common_id,
                ),
                None => false,
            };
            if text::same(registry.trees[i].path.as_str(), p) && own {
                Ok(Registration::Repair(i))
            } else {
                let message = p.to_owned().concat(" is not ").concat(label).concat(
                    "'s registered canonical checkout",
                );
                let remedy = "run this command at ".to_owned().concat(
                    registry.trees[i].path.as_str(),
                );
                Err(
                    CoreError::new(
                        ExitClass::State,
                        "REPAIR_REFUSED",
                        message.as_str(),
                        remedy.as_str(),
                    ),
                )
            }
        },
    }
}

/// Decides about a registration; `targets` names each registered tree.
pub fn judge(
    registry: &Registry,
    label: &str,
    p: &str,
    common_id: &str,
    targets: &Vec<String>,
) -> (r: Result<Registration, CoreError>)
    requires
        targets@.len() == registry.trees@.len(),
    ensures
        match registering(*registry, label@, p@, common_id@, text::texts(targets@)) {
            Ok(Some(i)) => r matches Ok(Registration::Known(k)) && k == i,
            Ok(None) => r matches Ok(Registration::Fresh),
            Err(fault) => r matches Err(e) && e@ == fault,
        },
{
    if let Some(i) = registry.canonical_at(label) {
        if text::same(registry.trees[i].path.as_str(), p) {
            return Ok(Registration::Known(i));
        }
        let message = "label ".to_owned().concat(label).concat(" is already registered at ").concat(
            registry.trees[i].path.as_str(),
        );
        return Err(
            conflict("PATH_REGISTERED", message, "use the existing label or choose another label"),
        );
    }
    if let Some(i) = registry.path_at(p) {
        proof {
            assert(text::texts(targets@)[i as int] == targets@[i as int]@);
        }
        let message = "path is already registered as ".to_owned().concat(targets[i].as_str());
        return Err(conflict("PATH_REGISTERED", message, "use the existing label"));
    }
    if let Some(i) = registry.gitdir_at(common_id) {
        let other = registry.labels.entries[i].0.as_str();
        let message = "common gitdir is already registered as ".to_owned().concat(other);
        let remedy = "use `wt adopt ".to_owned().concat(p).concat(" --label ").concat(
            other,
        ).concat("`");
        return Err(conflict("GITDIR_REGISTERED", message, remedy.as_str()));
    }
    Ok(Registration::Fresh)
}

/// Refuses to repair a checkout that was not replaced.
pub fn require_replaced(label: &str, phase: DerivedPhase) -> (r: Result<(), CoreError>)
    ensures
        r is Ok == (phase == DerivedPhase::Replaced),
        r matches Err(e) ==> e@ == repair_refused(
            label@ + "'s canonical checkout is not replaced"@,
            "omit --repair for an ordinary idempotent registration"@,
        ),
{
    if phase == DerivedPhase::Replaced {
        return Ok(());
    }
    let message = label.to_owned().concat("'s canonical checkout is not replaced");
    Err(
        CoreError::new(
            ExitClass::State,
            "REPAIR_REFUSED",
            message.as_str(),
            "omit --repair for an ordinary idempotent registration",
        ),
    )
}

/// Whether a registration that is known was left in its middle, and is taken up
/// again.
pub fn resumes(recorded: Option<(StatePhase, Option<OpVerb>)>) -> (r: bool)
    ensures
        r == (recorded == Some((StatePhase::Initialising, Some(OpVerb::Register)))),
{
    match recorded {
        Some((phase, op)) => phase == StatePhase::Initialising && op == Some(OpVerb::Register),
        None => false,
    }
}

/// A label, a path and a repository are each registered once: what is registered anew
/// has none of them yet.
pub proof fn a_fresh_registration_takes_nothing_twice(
    r: Registry,
    label: Seq<char>,
    p: Seq<char>,
    common_id: Seq<char>,
    targets: Seq<Seq<char>>,
)
    requires
        registering(r, label, p, common_id, targets) == Ok::<Option<int>, error::Fault>(None),
    ensures
        forall|i: int|
            0 <= i < r.trees@.len() ==> !((#[trigger] r.trees@[i]).canonical && r.trees@[i].label@
                == label),
        forall|i: int| 0 <= i < r.trees@.len() ==> (#[trigger] r.trees@[i]).path@ != p,
        forall|i: int|
            0 <= i < r.labels.entries@.len() ==> (#[trigger] r.labels.entries@[i]).1.gitdir_id@
                != common_id,
{
    let a = context::canonicals(r.trees@, label);
    let b = context::at_path(r.trees@, p);
    let c = context::of_gitdir(r.labels.entries@, common_id);
    lemma_none_true(a, 0);
    lemma_none_true(b, 0);
    lemma_none_true(c, 0);
    assert forall|i: int| 0 <= i < r.trees@.len() implies !((#[trigger] r.trees@[i]).canonical
        && r.trees@[i].label@ == label) by {
        assert(!a[i]);
    }
    assert forall|i: int| 0 <= i < r.trees@.len() implies (#[trigger] r.trees@[i]).path@ != p by {
        assert(!b[i]);
    }
    assert forall|i: int| 0 <= i < r.labels.entries@.len() implies (
    #[trigger] r.labels.entries@[i]).1.gitdir_id@ != common_id by {
        assert(!c[i]);
    }
}

proof fn lemma_none_true(flags: Seq<bool>, from: int)
    requires
        git::first_true(flags, from) is None,
        0 <= from,
    ensures
        forall|i: int| from <= i < flags.len() ==> !#[trigger] flags[i],
    decreases flags.len() - from,
{
    if from < flags.len() {
        lemma_none_true(flags, from + 1);
    }
}

/// Puts a checkout into the registry: its label, and its tree behind the others.
pub fn enter(registry: &mut Registry, label: &str, rec: LabelRec, tree: TreeRec)
    requires
        old(registry).wf(),
    ensures
        final(registry).wf(),
        final(registry).labels@ == old(registry).labels@.insert(label@, rec),
        final(registry).trees@ == old(registry).trees@.push(tree),
        final(registry).tombstones == old(registry).tombstones,
{
    registry.labels.put(label, rec);
    registry.trees.push(tree);
}

/// What is put on record of a repository that is registered anew: no place for its
/// trees, and no default branch, was named.
pub fn label_record(p: &str, common_id: &str, common: &str, now: &str) -> (r: LabelRec)
    ensures
        r.path@ == p@,
        r.gitdir_id@ == common_id@,
        r.common_gitdir@ == common@,
        r.registered_at@ == now@,
        r.trees_dir is None,
        r.default_branch is None,
{
    LabelRec {
        path: p.to_owned(),
        gitdir_id: common_id.to_owned(),
        common_gitdir: common.to_owned(),
        registered_at: now.to_owned(),
        trees_dir: None,
        default_branch: None,
    }
}

/// Whether a record is that of a checkout that was there already and is taken in now.
pub open spec fn takes_in(
    r: TreeRec,
    tree_id: Seq<char>,
    label: Seq<char>,
    name: Seq<char>,
    p: Seq<char>,
    at: Coordinates,
    now: Seq<char>,
    head: Option<String>,
) -> bool {
    &&& r.tree_id@ == tree_id
    &&& r.label@ == label
    &&& r.name@ == name
    &&& r.path@ == p
    &&& context::placed(r, at)
    &&& r.created_at@ == now
    &&& r.agent is None
    &&& r.meta@ == Map::<Seq<char>, String>::empty()
    &&& r.branch == head
    &&& r.pr is None
    &&& r.start is None
}

fn taken_in(
    tree_id: &str,
    label: &str,
    name: &str,
    p: &str,
    at: Coordinates,
    now: &str,
    head: Option<String>,
    adopts: bool,
) -> (r: TreeRec)
    ensures
        takes_in(r, tree_id@, label@, name@, p@, at, now@, head),
        r.canonical == !adopts,
        r.kind == if adopts {
            SourceKind::Adopted
        } else {
            SourceKind::Canonical
        },
{
    TreeRec {
        tree_id: tree_id.to_owned(),
        label: label.to_owned(),
        name: name.to_owned(),
        canonical: !adopts,
        path: p.to_owned(),
        slot: at.slot,
        geometry: at.geometry,
        ports: at.ports,
        name_short: at.name_short,
        session_name: at.session_name,
        created_at: now.to_owned(),
        agent: None,
        meta: Assoc::new(),
        kind: if adopts {
            SourceKind::Adopted
        } else {
            SourceKind::Canonical
        },
        branch: head,
        pr: None,
        start: None,
    }
}

/// What is put on record of a canonical checkout that is registered anew. `head` is the
/// branch that is checked out in it.
pub fn canonical_record(
    tree_id: &str,
    label: &str,
    p: &str,
    at: Coordinates,
    now: &str,
    head: Option<String>,
) -> (r: TreeRec)
    ensures
        takes_in(r, tree_id@, label@, "canonical"@, p@, at, now@, head),
        r.canonical,
        r.kind == SourceKind::Canonical,
{
    taken_in(tree_id, label, "canonical", p, at, now, head, false)
}

/// What is put on record of a worktree that is adopted. `head` is the branch that is
/// checked out in it.
pub fn adopted_record(
    tree_id: &str,
    label: &str,
    name: &str,
    p: &str,
    at: Coordinates,
    now: &str,
    head: Option<String>,
) -> (r: TreeRec)
    ensures
        takes_in(r, tree_id@, label@, name@, p@, at, now@, head),
        !r.canonical,
        r.kind == SourceKind::Adopted,
{
    taken_in(tree_id, label, name, p, at, now, head, true)
}

/// A checkout that was registered is known from then on: registering it again under
/// its label takes it for the one that is there.
pub proof fn a_registration_is_known_afterwards(
    before: Registry,
    after: Registry,
    label: Seq<char>,
    p: Seq<char>,
    common_id: Seq<char>,
    targets: Seq<Seq<char>>,
    later: Seq<Seq<char>>,
    tree: TreeRec,
)
    requires
        registering(before, label, p, common_id, targets) == Ok::<Option<int>, error::Fault>(None),
        after.trees@ == before.trees@.push(tree),
        tree.canonical,
        tree.label@ == label,
        tree.path@ == p,
    ensures
        registering(after, label, p, common_id, later) == Ok::<Option<int>, error::Fault>(
            Some(before.trees@.len() as int),
        ),
{
    let old_flags = context::canonicals(before.trees@, label);
    let flags = context::canonicals(after.trees@, label);
    lemma_none_true(old_flags, 0);
    assert forall|i: int| 0 <= i < old_flags.len() implies !#[trigger] flags[i] by {
        assert(!old_flags[i]);
    }
    assert(flags[before.trees@.len() as int]);
    lemma_first_is(flags, 0, before.trees@.len() as int);
}

proof fn lemma_first_is(flags: Seq<bool>, from: int, at: int)
    requires
        0 <= from <= at < flags.len(),
        flags[at],
        forall|i: int| from <= i < at ==> !#[trigger] flags[i],
    ensures
        git::first_true(flags, from) == Some(at),
    decreases at - from,
{
    if from < at {
        lemma_first_is(flags, from + 1, at);
    }
}

/// A checkout is fresh wherever neither its label, its path nor its repository is taken; it
/// is known exactly where it is the label's own checkout; and anything else is refused.
pub proof fn what_a_registration_comes_to(
    r: Registry,
    label: Seq<char>,
    p: Seq<char>,
    common_id: Seq<char>,
    targets: Seq<Seq<char>>,
)
    ensures
        ({
            let labelled = exists|i: int|
                0 <= i < r.trees@.len() && (#[trigger] r.trees@[i]).canonical && r.trees@[i].label@
                    == label;
            let lies = exists|i: int| 0 <= i < r.trees@.len() && (#[trigger] r.trees@[i]).path@ == p;
            let shares = exists|i: int|
                0 <= i < r.labels.entries@.len() && (
                #[trigger] r.labels.entries@[i]).1.gitdir_id@ == common_id;
            let judged = registering(r, label, p, common_id, targets);
            &&& judged == Ok::<Option<int>, error::Fault>(None) <==> !labelled && !lies && !shares
            &&& judged matches Ok(Some(i)) ==> 0 <= i < r.trees@.len() && r.trees@[i].canonical
                && r.trees@[i].label@ == label && r.trees@[i].path@ == p
            &&& judged matches Err(e) ==> e.code == if labelled || lies {
                "PATH_REGISTERED"@
            } else {
                "GITDIR_REGISTERED"@
            }
        }),
{
    let a = context::canonicals(r.trees@, label);
    let b = context::at_path(r.trees@, p);
    let c = context::of_gitdir(r.labels.entries@, common_id);
    git::the_first_yes_is_found(a, 0);
    git::the_first_yes_is_found(b, 0);
    git::the_first_yes_is_found(c, 0);
    assert(forall|i: int|
        0 <= i < r.trees@.len() ==> a[i] == ((#[trigger] r.trees@[i]).canonical && r.trees@[i].label@
            == label));
    assert(forall|i: int| 0 <= i < r.trees@.len() ==> b[i] == ((#[trigger] r.trees@[i]).path@ == p));
    assert(forall|i: int|
        0 <= i < r.labels.entries@.len() ==> c[i] == ((
        #[trigger] r.labels.entries@[i]).1.gitdir_id@ == common_id));
    if git::first_true(a, 0) is Some {
        assert(r.trees@[git::first_true(a, 0)->0].canonical);
    }
    if git::first_true(b, 0) is Some {
        assert(r.trees@[git::first_true(b, 0)->0].path@ == p);
    }
    if git::first_true(c, 0) is Some {
        assert(r.labels.entries@[git::first_true(c, 0)->0].1.gitdir_id@ == common_id);
    }
}

/// A repair is made exactly where the label's canonical checkout lies at the path on record
/// and is of the repository on record; it is refused for anything else.
pub proof fn what_is_repaired(r: Registry, label: Seq<char>, p: Seq<char>, common_id: Seq<char>, i: int)
    requires
        0 <= i < r.trees@.len(),
        r.trees@[i].canonical,
        r.trees@[i].label@ == label,
        forall|k: int|
            0 <= k < i ==> !((#[trigger] r.trees@[k]).canonical && r.trees@[k].label@ == label),
    ensures
        repairing(r, label, p, common_id) is Ok <==> r.trees@[i].path@ == p && r.labels@[label].path@
            == p && r.labels@[label].gitdir_id@ == common_id,
        repairing(r, label, p, common_id) matches Ok(k) ==> k == i,
        repairing(r, label, p, common_id) matches Err(e) ==> e.code == "REPAIR_REFUSED"@,
{
    let a = context::canonicals(r.trees@, label);
    git::the_first_yes_is_found(a, 0);
    assert(a[i]);
    let k = git::first_true(a, 0)->0;
    assert(r.trees@[k].canonical && r.trees@[k].label@ == label);
}

// ---------------------------------------------------------------------------
// Admitting a checkout
// ---------------------------------------------------------------------------

/// How a checkout is admitted.
#[derive(Clone, Copy, Debug, PartialEq, Eq, Structural)]
pub enum Way {
    /// It is new.
    Fresh,
    /// It was left in the middle of being admitted.
    Resume,
    /// It was replaced, and is made this program's own again.
    Repair,
    /// It is registered already.
    Known,
}

/// How a checkout is admitted that was judged. One that is known was perhaps left in
/// the middle of being registered: `recorded` is what its own record says.
pub fn way_of(judged: Registration, recorded: Option<(StatePhase, Option<OpVerb>)>) -> (r: Way)
    ensures
        r == match judged {
            Registration::Repair(_) => Way::Repair,
            Registration::Known(_) => if recorded == Some(
                (StatePhase::Initialising, Some(OpVerb::Register)),
            ) {
                Way::Resume
            } else {
                Way::Known
            },
            Registration::Fresh => Way::Fresh,
        },
{
    match judged {
        Registration::Repair(_) => Way::Repair,
        Registration::Known(_) => if resumes(recorded) {
            Way::Resume
        } else {
            Way::Known
        },
        Registration::Fresh => Way::Fresh,
    }
}

/// What admitting a checkout does next.
#[derive(Clone, Copy, Debug, PartialEq, Eq, Structural)]
pub enum AdmitStep {
    /// Take the tree's lock.
    Lock,
    /// Read the configuration that the checkout begins with.
    Config,
    /// Give it its slot, its ports and its names.
    Allocate,
    /// Record that it is being initialised.
    WriteState,
    /// Ask which branch is checked out.
    Branch,
    /// Put it into the registry.
    Record,
    /// Write whose the directory is.
    Identity,
    /// Work the exclude out anew.
    Exclude,
    /// Enter it under the lock that is held.
    Enter,
    /// Enter it as one that was replaced, under the lock that is held.
    Repair,
    /// Enter it as any command does.
    Open,
    /// Refresh what it declares.
    Refresh,
    /// Record that it is ready.
    Ready,
    /// Let the lock go.
    Unlock,
    /// Tell what it declares.
    Report,
    /// Tell what is wrong with its configuration.
    ReportInvalid,
    Failed,
}

/// What came of a step.
#[derive(Debug)]
pub enum AdmitEvent {
    Succeeded,
    Failure(CoreError),
}

/// What is known of an event.
pub enum AdmitNews {
    Succeeded,
    Failure(error::Fault),
}

impl View for AdmitEvent {
    type V = AdmitNews;

    open spec fn view(&self) -> AdmitNews {
        match self {
            AdmitEvent::Succeeded => AdmitNews::Succeeded,
            AdmitEvent::Failure(e) => AdmitNews::Failure(e@),
        }
    }
}

/// A checkout that is being admitted: registered, or adopted.
#[derive(Debug)]
pub struct Admitting {
    pub way: Way,
    pub adopts: bool,
    pub step: AdmitStep,
    /// The tree's lock is held.
    pub locked: bool,
    /// It is on record as being initialised.
    pub initialising: bool,
    /// It is in the registry since.
    pub recorded: bool,
    /// Its directory says whose it is since.
    pub identified: bool,
    pub entered: bool,
    pub refreshed: bool,
    /// It is on record as ready since.
    pub ready: bool,
    pub error: Option<CoreError>,
}

/// What is known of a checkout that is being admitted.
#[verifier::ext_equal]
pub struct Admission {
    pub way: Way,
    pub adopts: bool,
    pub step: AdmitStep,
    pub locked: bool,
    pub initialising: bool,
    pub recorded: bool,
    pub identified: bool,
    pub entered: bool,
    pub refreshed: bool,
    pub ready: bool,
    pub error: Option<error::Fault>,
}

impl View for Admitting {
    type V = Admission;

    open spec fn view(&self) -> Admission {
        Admission {
            way: self.way,
            adopts: self.adopts,
            step: self.step,
            locked: self.locked,
            initialising: self.initialising,
            recorded: self.recorded,
            identified: self.identified,
            entered: self.entered,
            refreshed: self.refreshed,
            ready: self.ready,
            error: match self.error {
                Some(e) => Some(e@),
                None => None,
            },
        }
    }
}

/// How admitting begins. What is known already is entered without its lock.
pub open spec fn admitting(way: Way, adopts: bool) -> Admission {
    Admission {
        way,
        adopts,
        step: if way == Way::Known {
            AdmitStep::Open
        } else {
            AdmitStep::Lock
        },
        locked: false,
        initialising: false,
        recorded: false,
        identified: false,
        entered: false,
        refreshed: false,
        ready: false,
        error: None,
    }
}

/// Admitting after something came of its step. A checkout that is registered anew or
/// again tells what is wrong with its configuration; everything else that fails ends
/// it.
pub open spec fn admitted(a: Admission, news: AdmitNews) -> Admission {
    match (a.step, news) {
        (AdmitStep::Report, _) | (AdmitStep::ReportInvalid, _) | (AdmitStep::Failed, _) => a,
        (step, AdmitNews::Failure(e)) => if step == AdmitStep::Open && !a.adopts && e.code
            == "CONFIG_INVALID"@ {
            Admission { step: AdmitStep::ReportInvalid, error: Some(e), ..a }
        } else {
            Admission { step: AdmitStep::Failed, error: Some(e), ..a }
        },
        (AdmitStep::Lock, _) => Admission {
            locked: true,
            step: match a.way {
                Way::Fresh => AdmitStep::Config,
                Way::Resume => if a.adopts {
                    AdmitStep::Enter
                } else {
                    AdmitStep::Identity
                },
                _ => AdmitStep::Identity,
            },
            ..a
        },
        (AdmitStep::Config, _) => Admission { step: AdmitStep::Allocate, ..a },
        (AdmitStep::Allocate, _) => Admission { step: AdmitStep::WriteState, ..a },
        (AdmitStep::WriteState, _) => Admission {
            initialising: true,
            step: AdmitStep::Branch,
            ..a
        },
        (AdmitStep::Branch, _) => Admission { step: AdmitStep::Record, ..a },
        (AdmitStep::Record, _) => Admission { recorded: true, step: AdmitStep::Identity, ..a },
        (AdmitStep::Identity, _) => Admission { identified: true, step: AdmitStep::Exclude, ..a },
        (AdmitStep::Exclude, _) => Admission {
            step: if a.way == Way::Repair {
                AdmitStep::Repair
            } else {
                AdmitStep::Enter
            },
            ..a
        },
        (AdmitStep::Enter, _) => Admission { entered: true, step: AdmitStep::Refresh, ..a },
        (AdmitStep::Open, _) => Admission { entered: true, step: AdmitStep::Refresh, ..a },
        (AdmitStep::Repair, _) => Admission { entered: true, step: AdmitStep::Unlock, ..a },
        (AdmitStep::Refresh, _) => Admission {
            refreshed: true,
            step: if a.way == Way::Known {
                AdmitStep::Report
            } else {
                AdmitStep::Ready
            },
            ..a
        },
        (AdmitStep::Ready, _) => Admission { ready: true, step: AdmitStep::Unlock, ..a },
        (AdmitStep::Unlock, _) => Admission { locked: false, step: AdmitStep::Report, ..a },
    }
}

impl Admitting {
    /// Begins to admit a checkout.
    pub fn new(way: Way, adopts: bool) -> (r: Self)
        ensures
            r@ == admitting(way, adopts),
    {
        Admitting {
            way,
            adopts,
            step: if way == Way::Known {
                AdmitStep::Open
            } else {
                AdmitStep::Lock
            },
            locked: false,
            initialising: false,
            recorded: false,
            identified: false,
            entered: false,
            refreshed: false,
            ready: false,
            error: None,
        }
    }

    fn succeeded(&mut self)
        requires
            !(old(self).step is Report || old(self).step is ReportInvalid || old(
                self,
            ).step is Failed),
        ensures
            final(self)@ == admitted(old(self)@, AdmitNews::Succeeded),
    {
        match self.step {
            AdmitStep::Lock => {
                self.locked = true;
                self.step = match self.way {
                    Way::Fresh => AdmitStep::Config,
                    Way::Resume => if self.adopts {
                        AdmitStep::Enter
                    } else {
                        AdmitStep::Identity
                    },
                    _ => AdmitStep::Identity,
                };
            },
            AdmitStep::Config => {
                self.step = AdmitStep::Allocate;
            },
            AdmitStep::Allocate => {
                self.step = AdmitStep::WriteState;
            },
            AdmitStep::WriteState => {
                self.initialising = true;
                self.step = AdmitStep::Branch;
            },
            AdmitStep::Branch => {
                self.step = AdmitStep::Record;
            },
            AdmitStep::Record => {
                self.recorded = true;
                self.step = AdmitStep::Identity;
            },
            AdmitStep::Identity => {
                self.identified = true;
                self.step = AdmitStep::Exclude;
            },
            AdmitStep::Exclude => {
                self.step = if self.way == Way::Repair {
                    AdmitStep::Repair
                } else {
                    AdmitStep::Enter
                };
            },
            AdmitStep::Enter | AdmitStep::Open => {
                self.entered = true;
                self.step = AdmitStep::Refresh;
            },
            AdmitStep::Repair => {
                self.entered = true;
                self.step = AdmitStep::Unlock;
            },
            AdmitStep::Refresh => {
                self.refreshed = true;
                self.step = if self.way == Way::Known {
                    AdmitStep::Report
                } else {
                    AdmitStep::Ready
                };
            },
            AdmitStep::Ready => {
                self.ready = true;
                self.step = AdmitStep::Unlock;
            },
            AdmitStep::Unlock => {
                self.locked = false;
                self.step = AdmitStep::Report;
            },
            _ => {},
        }
    }

    /// Takes what came of the step, and goes on to the next.
    pub fn advance(&mut self, event: AdmitEvent)
        ensures
            final(self)@ == admitted(old(self)@, event@),
    {
        match self.step {
            AdmitStep::Report | AdmitStep::ReportInvalid | AdmitStep::Failed => {
                return;
            },
            _ => {},
        }
        match event {
            AdmitEvent::Succeeded => {
                self.succeeded();
            },
            AdmitEvent::Failure(e) => {
                self.step = if self.step == AdmitStep::Open && !self.adopts && text::same(
                    e.code.as_str(),
                    "CONFIG_INVALID",
                ) {
                    AdmitStep::ReportInvalid
                } else {
                    AdmitStep::Failed
                };
                self.error = Some(e);
            },
        }
    }
}

/// Admitting after a row of events.
pub open spec fn admitted_all(a: Admission, news: Seq<AdmitNews>) -> Admission
    decreases news.len(),
{
    if news.len() == 0 {
        a
    } else {
        admitted(admitted_all(a, news.drop_last()), news.last())
    }
}

/// Whether a step changes what is on record or on disk of a checkout.
pub open spec fn changes(step: AdmitStep) -> bool {
    step == AdmitStep::WriteState || step == AdmitStep::Record || step == AdmitStep::Identity
        || step == AdmitStep::Exclude || step == AdmitStep::Enter || step == AdmitStep::Repair
        || step == AdmitStep::Ready
}

/// What holds of admitting at every step.
pub open spec fn sound(a: Admission) -> bool {
    &&& changes(a.step) ==> a.locked
    &&& (a.step is Config || a.step is Allocate || a.step is Unlock) ==> a.locked
    &&& (a.step is Refresh && a.way != Way::Known) ==> a.locked
    &&& (a.step is Config || a.step is Allocate || a.step is WriteState || a.step is Branch
        || a.step is Record) ==> a.way == Way::Fresh
    &&& (a.step is Branch || a.step is Record) ==> a.initialising && a.locked
    &&& a.recorded ==> a.initialising
    &&& (a.initialising || a.recorded) ==> a.way == Way::Fresh
    &&& (a.way == Way::Fresh && (a.step is Identity || a.step is Exclude || a.step is Enter
        || a.step is Refresh || a.step is Ready)) ==> a.recorded
    &&& (!(a.way == Way::Resume && a.adopts) && (a.step is Exclude || a.step is Enter || a.step
        is Repair || ((a.step is Refresh || a.step is Ready) && a.way != Way::Known)))
        ==> a.identified
    &&& (a.step is Refresh || a.step is Ready) ==> a.entered
    &&& a.step is Ready ==> a.refreshed
    &&& (a.step is Ready || a.ready) ==> (a.way == Way::Fresh || a.way == Way::Resume)
    &&& (a.step is Refresh || a.step is Enter) ==> a.way != Way::Repair
    &&& (a.step is Open || a.way == Way::Known) ==> !a.locked && !a.identified
    &&& (a.way == Way::Known) ==> (a.step is Open || a.step is Refresh || a.step is Report
        || a.step is ReportInvalid || a.step is Failed)
    &&& a.step is Open ==> a.way == Way::Known
    &&& a.ready ==> a.entered && a.refreshed && (a.way == Way::Fresh ==> a.recorded) && (!(a.way
        == Way::Resume && a.adopts) ==> a.identified)
    &&& (a.step is Report) ==> !a.locked && a.entered
}

/// A checkout is changed only under its lock; one that is new is on record as being
/// initialised before it is in the registry, so that what is interrupted is found and
/// taken up again; it is called ready only once it is in the registry, its directory
/// says whose it is, and it was entered and refreshed; and a repair or a checkout that
/// is known changes neither the registry nor a phase.
pub proof fn admitting_is_sound(way: Way, adopts: bool, news: Seq<AdmitNews>)
    ensures
        sound(admitted_all(admitting(way, adopts), news)),
        admitted_all(admitting(way, adopts), news).way == way,
        admitted_all(admitting(way, adopts), news).adopts == adopts,
    decreases news.len(),
{
    if news.len() > 0 {
        admitting_is_sound(way, adopts, news.drop_last());
    }
}

/// The place of a step in the order in which steps come.
pub open spec fn admission_place(step: AdmitStep) -> int {
    match step {
        AdmitStep::Lock => 0,
        AdmitStep::Config => 1,
        AdmitStep::Allocate => 2,
        AdmitStep::WriteState => 3,
        AdmitStep::Branch => 4,
        AdmitStep::Record => 5,
        AdmitStep::Identity => 6,
        AdmitStep::Exclude => 7,
        AdmitStep::Repair => 8,
        AdmitStep::Enter => 9,
        AdmitStep::Open => 10,
        AdmitStep::Refresh => 11,
        AdmitStep::Ready => 12,
        AdmitStep::Unlock => 13,
        AdmitStep::Report => 14,
        AdmitStep::ReportInvalid | AdmitStep::Failed => -1,
    }
}

/// Whether a step is called for.
pub open spec fn admission_calls_for(a: Admission, step: AdmitStep) -> bool {
    match step {
        AdmitStep::Lock | AdmitStep::Unlock => a.way != Way::Known,
        AdmitStep::Config | AdmitStep::Allocate | AdmitStep::WriteState | AdmitStep::Branch | AdmitStep::Record => a.way == Way::Fresh,
        AdmitStep::Identity | AdmitStep::Exclude => a.way != Way::Known && !(a.way == Way::Resume && a.adopts),
        AdmitStep::Repair => a.way == Way::Repair,
        AdmitStep::Enter | AdmitStep::Ready => a.way == Way::Fresh || a.way == Way::Resume,
        AdmitStep::Open => a.way == Way::Known,
        AdmitStep::Refresh => a.way != Way::Repair,
        _ => true,
    }
}

/// What holds at every step.
pub open spec fn admission_holds(a: Admission, way: Way, adopts: bool) -> bool {
    &&& admission_calls_for(a, a.step)
    &&& a.way == way && a.adopts == adopts
    &&& a.error is None
    &&& a.initialising == (way == Way::Fresh && admission_place(a.step) > admission_place(AdmitStep::WriteState))
    &&& a.recorded == (way == Way::Fresh && admission_place(a.step) > admission_place(AdmitStep::Record))
    &&& a.identified == (way != Way::Known && !(way == Way::Resume && adopts) && admission_place(a.step) > admission_place(AdmitStep::Identity))
    &&& a.entered == (admission_place(a.step) > admission_place(AdmitStep::Open))
    &&& a.refreshed == (way != Way::Repair && admission_place(a.step) > admission_place(AdmitStep::Refresh))
    &&& a.ready == ((way == Way::Fresh || way == Way::Resume) && admission_place(a.step) > admission_place(AdmitStep::Ready))
    &&& a.locked == (way != Way::Known && admission_place(AdmitStep::Lock) < admission_place(a.step) < admission_place(AdmitStep::Report))
}

/// What an answer to a step is gone by.
pub open spec fn admission_goes_by(a: Admission, step: AdmitStep, e: AdmitNews) -> bool {
    match step {

        AdmitStep::ReportInvalid | AdmitStep::Failed | AdmitStep::Report => true,
        _ => e is Succeeded,
    }
}

/// How it goes on.
pub open spec fn admission_next() -> spec_fn(Admission, AdmitNews) -> Admission {
    |a: Admission, e: AdmitNews| admitted(a, e)
}

/// The step that it is at.
pub open spec fn admission_at() -> spec_fn(Admission) -> AdmitStep {
    |a: Admission| a.step
}

/// What a step was answered with, where it was taken and left again.
pub open spec fn admission_given(way: Way, adopts: bool, events: Seq<AdmitNews>, step: AdmitStep) -> Option<AdmitNews> {
    course::answered(admission_next(), admission_at(), admitting(way, adopts), events, step)
}

proof fn lemma_admission_after(way: Way, adopts: bool, events: Seq<AdmitNews>)
    ensures
        admitted_all(admitting(way, adopts), events) == course::after(admission_next(), admitting(way, adopts), events),
    decreases events.len(),
{
    if events.len() > 0 {
        lemma_admission_after(way, adopts, events.drop_last());
    }
}

#[verifier::spinoff_prover]
proof fn lemma_admission_step(a: Admission, way: Way, adopts: bool, e: AdmitNews, k: AdmitStep)
    requires
        !(a.step == AdmitStep::ReportInvalid || a.step == AdmitStep::Failed),
        admission_holds(a, way, adopts),
        !(admitted(a, e).step == AdmitStep::ReportInvalid || admitted(a, e).step == AdmitStep::Failed),
    ensures
        ({
            let b = admitted(a, e);
            &&& admission_holds(b, way, adopts)
            &&& b.step == a.step ==> b == a
            &&& b.step != a.step ==> {
                &&& admission_place(b.step) > admission_place(a.step)
                &&& admission_place(k) <= admission_place(a.step) ==> admission_calls_for(b, k) == admission_calls_for(a, k)
                &&& admission_place(a.step) < admission_place(k) < admission_place(b.step) ==> !admission_calls_for(b, k)
            }
        }),
{
}

#[verifier::spinoff_prover]
proof fn lemma_admission_told(a: Admission, way: Way, adopts: bool, e: AdmitNews, k: AdmitStep, e0: AdmitNews)
    requires
        !(a.step == AdmitStep::ReportInvalid || a.step == AdmitStep::Failed),
        admission_holds(a, way, adopts),
        !(admitted(a, e).step == AdmitStep::ReportInvalid || admitted(a, e).step == AdmitStep::Failed),
    ensures
        a.step == k && admitted(a, e).step != k ==> admission_goes_by(admitted(a, e), k, e),
        admission_place(a.step) > admission_place(k) && admission_goes_by(a, k, e0) ==> admission_goes_by(admitted(a, e), k, e0),
{
}

/// Each step of admitting a checkout is taken where it is called for, and nowhere else,
/// whatever the events: a new one is given what it needs and goes on record and into the
/// registry; all but one that is known, or adopted in the middle of it, are marked as
/// their own; one that was replaced is repaired, one that is known is entered as any
/// command does, and the others are entered, refreshed and called ready.
pub proof fn a_checkout_is_admitted_by_all_that_is_called_for(way: Way, adopts: bool, events: Seq<AdmitNews>, step: AdmitStep)
    requires
        admission_place(admitting(way, adopts).step) <= admission_place(step),
    ensures
        ({
            let a = admitted_all(admitting(way, adopts), events);
            !(a.step == AdmitStep::ReportInvalid || a.step == AdmitStep::Failed) ==> {
                &&& (match a.step {
                    AdmitStep::Lock | AdmitStep::Unlock => a.way != Way::Known,
                    AdmitStep::Config | AdmitStep::Allocate | AdmitStep::WriteState | AdmitStep::Branch | AdmitStep::Record => a.way == Way::Fresh,
                    AdmitStep::Identity | AdmitStep::Exclude => a.way != Way::Known && !(a.way == Way::Resume && a.adopts),
                    AdmitStep::Repair => a.way == Way::Repair,
                    AdmitStep::Enter | AdmitStep::Ready => a.way == Way::Fresh || a.way == Way::Resume,
                    AdmitStep::Open => a.way == Way::Known,
                    AdmitStep::Refresh => a.way != Way::Repair,
                    _ => true,
                })
                &&& a.way == way && a.adopts == adopts
                &&& a.error is None
                &&& a.initialising == (way == Way::Fresh && admission_place(a.step) > admission_place(AdmitStep::WriteState))
                &&& a.recorded == (way == Way::Fresh && admission_place(a.step) > admission_place(AdmitStep::Record))
                &&& a.identified == (way != Way::Known && !(way == Way::Resume && adopts) && admission_place(a.step) > admission_place(AdmitStep::Identity))
                &&& a.entered == (admission_place(a.step) > admission_place(AdmitStep::Open))
                &&& a.refreshed == (way != Way::Repair && admission_place(a.step) > admission_place(AdmitStep::Refresh))
                &&& a.ready == ((way == Way::Fresh || way == Way::Resume) && admission_place(a.step) > admission_place(AdmitStep::Ready))
                &&& a.locked == (way != Way::Known && admission_place(AdmitStep::Lock) < admission_place(a.step) < admission_place(AdmitStep::Report))
                &&& admission_place(a.step) > admission_place(step) ==> (admission_given(way, adopts, events, step) is Some
                    <==> (match step {
                            AdmitStep::Lock | AdmitStep::Unlock => a.way != Way::Known,
                            AdmitStep::Config | AdmitStep::Allocate | AdmitStep::WriteState | AdmitStep::Branch | AdmitStep::Record => a.way == Way::Fresh,
                            AdmitStep::Identity | AdmitStep::Exclude => a.way != Way::Known && !(a.way == Way::Resume && a.adopts),
                            AdmitStep::Repair => a.way == Way::Repair,
                            AdmitStep::Enter | AdmitStep::Ready => a.way == Way::Fresh || a.way == Way::Resume,
                            AdmitStep::Open => a.way == Way::Known,
                            AdmitStep::Refresh => a.way != Way::Repair,
                            _ => true,
                        }))
                &&& admission_place(a.step) <= admission_place(step) ==> admission_given(way, adopts, events, step) is None
                &&& admission_given(way, adopts, events, step) matches Some(e) ==> (match step {

                    AdmitStep::ReportInvalid | AdmitStep::Failed | AdmitStep::Report => true,
                    _ => e is Succeeded,
                })
            }
        }),
{
    lemma_admission_after(way, adopts, events);
    let next = admission_next();
    let at = admission_at();
    let s = admitting(way, adopts);
    let places = |k: AdmitStep| admission_place(k);
    let dead = |a: Admission| a.step == AdmitStep::ReportInvalid || a.step == AdmitStep::Failed;
    let inv = |a: Admission| admission_holds(a, way, adopts);
    let called = |a: Admission, k: AdmitStep| admission_calls_for(a, k);
    let past = |a: Admission| admission_place(a.step) > admission_place(step);
    let fact = |a: Admission, e: AdmitNews| admission_goes_by(a, step, e);
    assert forall|a: Admission, e: AdmitNews|
        inv(a) && !dead(a) && !dead(#[trigger] next(a, e)) implies inv(next(a, e)) by {
        lemma_admission_step(a, way, adopts, e, step);
    }
    assert forall|a: Admission, e: AdmitNews|
        inv(a) && !dead(a) && called(a, at(a)) && !dead(#[trigger] next(a, e)) implies {
        let b = next(a, e);
        &&& inv(b)
        &&& at(b) == at(a) ==> b == a
        &&& at(b) != at(a) ==> {
            &&& places(at(b)) > places(at(a))
            &&& called(b, at(b))
            &&& places(step) <= places(at(a)) ==> called(b, step) == called(a, step)
            &&& places(at(a)) < places(step) < places(at(b)) ==> !called(b, step)
        }
    } by {
        lemma_admission_step(a, way, adopts, e, step);
    }
    course::lemma_taken(next, at, places, dead, inv, called, s, events, step);
    assert forall|a: Admission, e: AdmitNews|
        inv(a) && !dead(a) && !dead(#[trigger] next(a, e)) && at(a) == step && at(next(a, e))
            != step implies past(next(a, e)) && fact(next(a, e), e) by {
        lemma_admission_step(a, way, adopts, e, step);
        lemma_admission_told(a, way, adopts, e, step, e);
    }
    assert forall|a: Admission, e: AdmitNews, e0: AdmitNews|
        #![trigger next(a, e), fact(a, e0)]
        inv(a) && !dead(a) && !dead(next(a, e)) && past(a) && fact(a, e0) implies past(next(a, e))
        && fact(next(a, e), e0) && at(a) != step by {
        lemma_admission_step(a, way, adopts, e, step);
        lemma_admission_told(a, way, adopts, e, step, e0);
    }
    course::lemma_told(next, at, dead, inv, past, fact, s, events, step);
}

/// Admitting ends early where a step failed, with its error. What is wrong with the
/// configuration of a known checkout that is registered again is told, and no failure.
pub proof fn admitting_ends_for_what_failed(a: Admission, news: AdmitNews)
    requires
        admission_place(a.step) >= 0,
        a.step != AdmitStep::Report,
    ensures
        (admitted(a, news).step == AdmitStep::Failed || admitted(a, news).step
            == AdmitStep::ReportInvalid) <==> news is Failure,
        news matches AdmitNews::Failure(e) ==> admitted(a, news).error == Some(e) && (admitted(
            a,
            news,
        ).step == AdmitStep::ReportInvalid <==> (a.step == AdmitStep::Open && !a.adopts && e.code
            == "CONFIG_INVALID"@)),
{
}

// ---------------------------------------------------------------------------
// Moving
// ---------------------------------------------------------------------------

/// The label of a checkout that was moved: the given one, that of the path that it
/// had, or the name of where it is now.
pub open spec fn moved_label_of(
    r: Registry,
    given: Option<Seq<char>>,
    old_path: Option<Seq<char>>,
    destination: Seq<char>,
) -> Seq<char> {
    if given is Some {
        given->0
    } else {
        match old_path {
            Some(p) => match git::first_true(context::of_checkout(r.labels.entries@, p), 0) {
                Some(i) => r.labels.entries@[i].0@,
                None => label_of(destination),
            },
            None => label_of(destination),
        }
    }
}

/// The label of a checkout that was moved; `old_path` is the path that it had, where
/// that is still there.
pub fn moved_label(
    registry: &Registry,
    given: &Option<String>,
    old_path: &Option<String>,
    destination: &str,
) -> (r: String)
    ensures
        r@ == moved_label_of(*registry, text::opt(*given), text::opt(*old_path), destination@),
{
    if let Some(label) = given {
        return label.clone();
    }
    if let Some(p) = old_path {
        if let Some(i) = registry.checkout_at(p.as_str()) {
            return registry.labels.entries[i].0.clone();
        }
    }
    default_label(destination)
}

/// Finds the canonical checkout of the label that is moved.
pub fn moved_tree(registry: &Registry, label: &str, canonical_target: &str) -> (r: Result<
    usize,
    CoreError,
>)
    requires
        registry.wf(),
    ensures
        if !registry.labels@.contains_key(label@) {
            r matches Err(e) && e@ == error::fault(
                ExitClass::NotFound,
                "NOT_FOUND"@,
                "label "@ + label@ + " is not registered"@,
                "pass the registered label with --label"@,
            )
        } else {
            match git::first_true(context::canonicals(registry.trees@, label@), 0) {
                Some(i) => r matches Ok(k) && k == i,
                None => r matches Err(e) && e@ == context::unknown(canonical_target@),
            }
        },
{
    if registry.labels.get(label).is_none() {
        let message = "label ".to_owned().concat(label).concat(" is not registered");
        return Err(
            CoreError::new(
                ExitClass::NotFound,
                "NOT_FOUND",
                message.as_str(),
                "pass the registered label with --label",
            ),
        );
    }
    match registry.canonical_at(label) {
        Some(i) => Ok(i),
        None => Err(context::not_found(canonical_target)),
    }
}

/// Whether a path or a repository belongs to another label.
pub open spec fn belongs_elsewhere(
    r: Registry,
    label: Seq<char>,
    p: Seq<char>,
    common_id: Seq<char>,
) -> bool {
    (exists|i: int|
        0 <= i < r.labels.entries@.len() && (#[trigger] r.labels.entries@[i]).0@ != label && (
        r.labels.entries@[i].1.path@ == p || r.labels.entries@[i].1.gitdir_id@ == common_id))
        || (exists|i: int|
        0 <= i < r.trees@.len() && (#[trigger] r.trees@[i]).label@ != label && r.trees@[i].path@
            == p)
}

fn elsewhere(registry: &Registry, label: &str, p: &str, common_id: &str) -> (r: bool)
    ensures
        r == belongs_elsewhere(*registry, label@, p@, common_id@),
{
    let mut i: usize = 0;
    while i < registry.labels.entries.len()
        invariant
            i <= registry.labels.entries.len(),
            forall|k: int|
                0 <= k < i ==> !((#[trigger] registry.labels.entries@[k]).0@ != label@ && (
                registry.labels.entries@[k].1.path@ == p@
                    || registry.labels.entries@[k].1.gitdir_id@ == common_id@)),
        decreases registry.labels.entries.len() - i,
    {
        let e = &registry.labels.entries[i];
        if !text::same(e.0.as_str(), label) && (text::same(e.1.path.as_str(), p) || text::same(
            e.1.gitdir_id.as_str(),
            common_id,
        )) {
            return true;
        }
        i = i + 1;
    }
    let mut k: usize = 0;
    while k < registry.trees.len()
        invariant
            k <= registry.trees.len(),
            forall|j: int|
                0 <= j < registry.labels.entries@.len() ==> !((
                #[trigger] registry.labels.entries@[j]).0@ != label@ && (
                registry.labels.entries@[j].1.path@ == p@
                    || registry.labels.entries@[j].1.gitdir_id@ == common_id@)),
            forall|j: int|
                0 <= j < k ==> !((#[trigger] registry.trees@[j]).label@ != label@
                    && registry.trees@[j].path@ == p@),
        decreases registry.trees.len() - k,
    {
        let t = &registry.trees[k];
        if !text::same(t.label.as_str(), label) && text::same(t.path.as_str(), p) {
            return true;
        }
        k = k + 1;
    }
    false
}

/// Judges a checkout that was moved, once git has repaired it: git must know it where
/// it is, and nothing else may have its path or its repository.
pub fn judge_move(
    registry: &Registry,
    label: &str,
    destination: &str,
    common_id: &str,
    top: &str,
    listed: bool,
) -> (r: Result<(), CoreError>)
    ensures
        if !path::same_path(top@, destination@) || !listed {
            r matches Err(e) && e@ == error::fault(
                ExitClass::State,
                "NOT_A_WORKTREE"@,
                "git worktree repair did not restore the moved checkout"@,
                "inspect `git worktree list --porcelain` and repair the checkout"@,
            )
        } else if belongs_elsewhere(*registry, label@, destination@, common_id@) {
            r matches Err(e) && e@ == registered(
                "PATH_REGISTERED"@,
                "the repaired path or gitdir belongs to another registration"@,
                "choose the existing label or move the checkout elsewhere"@,
            )
        } else {
            r is Ok
        },
{
    if !path::same(top, destination) || !listed {
        return Err(
            CoreError::new(
                ExitClass::State,
                "NOT_A_WORKTREE",
                "git worktree repair did not restore the moved checkout",
                "inspect `git worktree list --porcelain` and repair the checkout",
            ),
        );
    }
    if elsewhere(registry, label, destination, common_id) {
        return Err(
            CoreError::new(
                ExitClass::Conflict,
                "PATH_REGISTERED",
                "the repaired path or gitdir belongs to another registration",
                "choose the existing label or move the checkout elsewhere",
            ),
        );
    }
    Ok(())
}

/// Which trees have an identity.
pub open spec fn identified(trees: Seq<TreeRec>, tree_id: Seq<char>) -> Seq<bool> {
    trees.map_values(|t: TreeRec| t.tree_id@ == tree_id)
}

pub(crate) fn identity_at(trees: &Vec<TreeRec>, tree_id: &str) -> (r: Option<usize>)
    ensures
        context::place(r) == git::first_true(identified(trees@, tree_id@), 0),
        r matches Some(i) ==> i < trees@.len(),
{
    let ghost flags = identified(trees@, tree_id@);
    let mut i: usize = 0;
    while i < trees.len()
        invariant
            i <= trees.len(),
            flags == identified(trees@, tree_id@),
            git::first_true(flags, 0) == git::first_true(flags, i as int),
        decreases trees.len() - i,
    {
        if text::same(trees[i].tree_id.as_str(), tree_id) {
            return Some(i);
        }
        i = i + 1;
    }
    None
}

/// What is put on record of a checkout that was moved.
#[derive(Debug)]
pub struct Moved {
    pub path: String,
    pub common_gitdir: String,
    pub gitdir_id: String,
    pub branch: Option<String>,
}

/// Puts a checkout that was moved on record: its label and its tree take the new path,
/// and everything else stays.
pub fn relocate(registry: &mut Registry, label: &str, tree_id: &str, target: &str, moved: Moved) -> (r:
    Result<(), CoreError>)
    requires
        old(registry).wf(),
    ensures
        final(registry).wf(),
        final(registry).tombstones == old(registry).tombstones,
        if !old(registry).labels@.contains_key(label@) {
            (r matches Err(e) && e@ == error::fault(
                ExitClass::NotFound,
                "NOT_FOUND"@,
                "label "@ + label@ + " disappeared during repair"@,
                "retry the registration repair"@,
            )) && final(registry).labels@ == old(registry).labels@ && final(registry).trees@
                == old(registry).trees@
        } else {
            let at = git::first_true(identified(old(registry).trees@, tree_id@), 0);
            match at {
                None => (r matches Err(e) && e@ == context::unknown(target@))
                    && final(registry).labels@ == old(registry).labels@ && final(registry).trees@
                    == old(registry).trees@,
                Some(i) => {
                    &&& r is Ok
                    &&& final(registry).labels@.dom() == old(registry).labels@.dom()
                    &&& forall|k: Seq<char>|
                        k != label@ ==> #[trigger] final(registry).labels@[k] == old(registry).labels@[k]
                    &&& final(registry).labels@[label@].path@ == moved.path@
                    &&& final(registry).labels@[label@].common_gitdir == moved.common_gitdir
                    &&& final(registry).labels@[label@].gitdir_id == moved.gitdir_id
                    &&& final(registry).labels@[label@].registered_at == old(registry).labels@[label@].registered_at
                    &&& text::opt(final(registry).labels@[label@].trees_dir) == text::opt(old(registry).labels@[label@].trees_dir)
                    &&& text::opt(final(registry).labels@[label@].default_branch) == text::opt(old(registry).labels@[label@].default_branch)
                    &&& final(registry).trees@.len() == old(registry).trees@.len()
                    &&& forall|k: int|
                        0 <= k < old(registry).trees@.len() && k != i ==> #[trigger] final(registry).trees@[k] == old(registry).trees@[k]
                    &&& final(registry).trees@[i] == (TreeRec {
                        path: moved.path,
                        branch: moved.branch,
                        ..old(registry).trees@[i]
                    })
                },
            }
        },
{
    let (registered_at, trees_dir, default_branch) = match registry.labels.get(label) {
        Some(rec) => (
            rec.registered_at.clone(),
            rec.trees_dir.clone(),
            rec.default_branch.clone(),
        ),
        None => {
            let message = "label ".to_owned().concat(label).concat(" disappeared during repair");
            return Err(
                CoreError::new(
                    ExitClass::NotFound,
                    "NOT_FOUND",
                    message.as_str(),
                    "retry the registration repair",
                ),
            );
        },
    };
    match identity_at(&registry.trees, tree_id) {
        None => Err(context::not_found(target)),
        Some(i) => {
            let rec = LabelRec {
                path: moved.path.clone(),
                gitdir_id: moved.gitdir_id,
                common_gitdir: moved.common_gitdir,
                registered_at,
                trees_dir,
                default_branch,
            };
            registry.labels.put(label, rec);
            registry.trees[i].path = moved.path;
            registry.trees[i].branch = moved.branch;
            proof {
                assert(registry.labels@.dom() =~= old(registry).labels@.dom());
            }
            Ok(())
        },
    }
}

/// What putting a moved checkout on record does next.
#[derive(Clone, Copy, Debug, PartialEq, Eq, Structural)]
pub enum RelocateStep {
    /// Take the tree's lock.
    LockTree,
    /// Take the lock of its repository.
    LockGit,
    /// Have git repair its worktrees.
    Repair,
    /// Judge where git finds it now.
    Judge,
    /// Ask which branch is checked out.
    Branch,
    /// Put it on record.
    Record,
    /// Ask whether its directory says that it is the one on record.
    Identity,
    /// Let both locks go.
    Unlock,
    /// Go on as with a checkout that is known.
    Done,
    Failed,
}

/// A checkout that was moved and is put on record where it is now.
#[derive(Debug)]
pub struct Relocating {
    pub step: RelocateStep,
    pub tree_locked: bool,
    pub git_locked: bool,
    pub repaired: bool,
    pub judged: bool,
    pub recorded: bool,
    pub error: Option<CoreError>,
}

/// What is known of a checkout that was moved.
#[verifier::ext_equal]
pub struct Relocation {
    pub step: RelocateStep,
    pub tree_locked: bool,
    pub git_locked: bool,
    pub repaired: bool,
    pub judged: bool,
    pub recorded: bool,
    pub error: Option<error::Fault>,
}

impl View for Relocating {
    type V = Relocation;

    open spec fn view(&self) -> Relocation {
        Relocation {
            step: self.step,
            tree_locked: self.tree_locked,
            git_locked: self.git_locked,
            repaired: self.repaired,
            judged: self.judged,
            recorded: self.recorded,
            error: match self.error {
                Some(e) => Some(e@),
                None => None,
            },
        }
    }
}

/// How it begins.
pub open spec fn relocating() -> Relocation {
    Relocation {
        step: RelocateStep::LockTree,
        tree_locked: false,
        git_locked: false,
        repaired: false,
        judged: false,
        recorded: false,
        error: None,
    }
}

/// How it goes on after something came of its step.
pub open spec fn relocated(m: Relocation, news: AdmitNews) -> Relocation {
    match (m.step, news) {
        (RelocateStep::Done, _) | (RelocateStep::Failed, _) => m,
        (_, AdmitNews::Failure(e)) => Relocation {
            step: RelocateStep::Failed,
            error: Some(e),
            ..m
        },
        (RelocateStep::LockTree, _) => Relocation {
            tree_locked: true,
            step: RelocateStep::LockGit,
            ..m
        },
        (RelocateStep::LockGit, _) => Relocation {
            git_locked: true,
            step: RelocateStep::Repair,
            ..m
        },
        (RelocateStep::Repair, _) => Relocation { repaired: true, step: RelocateStep::Judge, ..m },
        (RelocateStep::Judge, _) => Relocation { judged: true, step: RelocateStep::Branch, ..m },
        (RelocateStep::Branch, _) => Relocation { step: RelocateStep::Record, ..m },
        (RelocateStep::Record, _) => Relocation {
            recorded: true,
            step: RelocateStep::Identity,
            ..m
        },
        (RelocateStep::Identity, _) => Relocation { step: RelocateStep::Unlock, ..m },
        (RelocateStep::Unlock, _) => Relocation {
            tree_locked: false,
            git_locked: false,
            step: RelocateStep::Done,
            ..m
        },
    }
}

impl Relocating {
    /// Begins to put a moved checkout on record.
    pub fn new() -> (r: Self)
        ensures
            r@ == relocating(),
    {
        Relocating {
            step: RelocateStep::LockTree,
            tree_locked: false,
            git_locked: false,
            repaired: false,
            judged: false,
            recorded: false,
            error: None,
        }
    }

    /// Takes what came of the step, and goes on to the next.
    pub fn advance(&mut self, event: AdmitEvent)
        ensures
            final(self)@ == relocated(old(self)@, event@),
    {
        match (self.step, event) {
            (RelocateStep::Done, _) | (RelocateStep::Failed, _) => {},
            (_, AdmitEvent::Failure(e)) => {
                self.step = RelocateStep::Failed;
                self.error = Some(e);
            },
            (RelocateStep::LockTree, _) => {
                self.tree_locked = true;
                self.step = RelocateStep::LockGit;
            },
            (RelocateStep::LockGit, _) => {
                self.git_locked = true;
                self.step = RelocateStep::Repair;
            },
            (RelocateStep::Repair, _) => {
                self.repaired = true;
                self.step = RelocateStep::Judge;
            },
            (RelocateStep::Judge, _) => {
                self.judged = true;
                self.step = RelocateStep::Branch;
            },
            (RelocateStep::Branch, _) => {
                self.step = RelocateStep::Record;
            },
            (RelocateStep::Record, _) => {
                self.recorded = true;
                self.step = RelocateStep::Identity;
            },
            (RelocateStep::Identity, _) => {
                self.step = RelocateStep::Unlock;
            },
            (RelocateStep::Unlock, _) => {
                self.tree_locked = false;
                self.git_locked = false;
                self.step = RelocateStep::Done;
            },
        }
    }
}

/// How it stands after a row of events.
pub open spec fn relocated_all(m: Relocation, news: Seq<AdmitNews>) -> Relocation
    decreases news.len(),
{
    if news.len() == 0 {
        m
    } else {
        relocated(relocated_all(m, news.drop_last()), news.last())
    }
}

/// A checkout that was moved is put on record only under both of its locks, taken in
/// their order, and only once git has repaired it and it was judged.
pub proof fn only_a_repaired_move_is_recorded(news: Seq<AdmitNews>)
    ensures
        ({
            let m = relocated_all(relocating(), news);
            &&& (m.step is LockGit ==> m.tree_locked)
            &&& (m.step is Repair ==> m.tree_locked && m.git_locked)
            &&& (m.step is Judge || m.step is Branch || m.step is Record || m.step is Identity
                || m.step is Unlock) ==> m.tree_locked && m.git_locked && m.repaired
            &&& (m.step is Branch || m.step is Record || m.recorded) ==> m.repaired && m.judged
            &&& (m.step is Identity || m.step is Unlock || m.step is Done) ==> m.recorded
            &&& m.step is Done ==> !m.tree_locked && !m.git_locked
        }),
    decreases news.len(),
{
    if news.len() > 0 {
        only_a_repaired_move_is_recorded(news.drop_last());
    }
}

/// The place of a step in the order in which steps come.
pub open spec fn relocation_place(step: RelocateStep) -> int {
    match step {
        RelocateStep::LockTree => 0,
        RelocateStep::LockGit => 1,
        RelocateStep::Repair => 2,
        RelocateStep::Judge => 3,
        RelocateStep::Branch => 4,
        RelocateStep::Record => 5,
        RelocateStep::Identity => 6,
        RelocateStep::Unlock => 7,
        RelocateStep::Done => 8,
        RelocateStep::Failed => -1,
    }
}

/// Whether a step is called for.
pub open spec fn relocation_calls_for(a: Relocation, step: RelocateStep) -> bool {
    match step {

        _ => true,
    }
}

/// What holds at every step.
pub open spec fn relocation_holds(a: Relocation) -> bool {
    &&& relocation_calls_for(a, a.step)
    &&& a.error is None
    &&& a.tree_locked == (relocation_place(RelocateStep::LockTree) < relocation_place(a.step) < relocation_place(RelocateStep::Done))
    &&& a.git_locked == (relocation_place(RelocateStep::LockGit) < relocation_place(a.step) < relocation_place(RelocateStep::Done))
    &&& a.repaired == (relocation_place(a.step) > relocation_place(RelocateStep::Repair))
    &&& a.judged == (relocation_place(a.step) > relocation_place(RelocateStep::Judge))
    &&& a.recorded == (relocation_place(a.step) > relocation_place(RelocateStep::Record))
}

/// What an answer to a step is gone by.
pub open spec fn relocation_goes_by(a: Relocation, step: RelocateStep, e: AdmitNews) -> bool {
    match step {

        RelocateStep::Failed | RelocateStep::Done => true,
        _ => e is Succeeded,
    }
}

/// How it goes on.
pub open spec fn relocation_next() -> spec_fn(Relocation, AdmitNews) -> Relocation {
    |a: Relocation, e: AdmitNews| relocated(a, e)
}

/// The step that it is at.
pub open spec fn relocation_at() -> spec_fn(Relocation) -> RelocateStep {
    |a: Relocation| a.step
}

/// What a step was answered with, where it was taken and left again.
pub open spec fn relocation_given(events: Seq<AdmitNews>, step: RelocateStep) -> Option<AdmitNews> {
    course::answered(relocation_next(), relocation_at(), relocating(), events, step)
}

proof fn lemma_relocation_after(events: Seq<AdmitNews>)
    ensures
        relocated_all(relocating(), events) == course::after(relocation_next(), relocating(), events),
    decreases events.len(),
{
    if events.len() > 0 {
        lemma_relocation_after(events.drop_last());
    }
}

#[verifier::spinoff_prover]
proof fn lemma_relocation_step(a: Relocation, e: AdmitNews, k: RelocateStep)
    requires
        !(a.step == RelocateStep::Failed),
        relocation_holds(a),
        !(relocated(a, e).step == RelocateStep::Failed),
    ensures
        ({
            let b = relocated(a, e);
            &&& relocation_holds(b)
            &&& b.step == a.step ==> b == a
            &&& b.step != a.step ==> {
                &&& relocation_place(b.step) > relocation_place(a.step)
                &&& relocation_place(k) <= relocation_place(a.step) ==> relocation_calls_for(b, k) == relocation_calls_for(a, k)
                &&& relocation_place(a.step) < relocation_place(k) < relocation_place(b.step) ==> !relocation_calls_for(b, k)
            }
        }),
{
}

#[verifier::spinoff_prover]
proof fn lemma_relocation_told(a: Relocation, e: AdmitNews, k: RelocateStep, e0: AdmitNews)
    requires
        !(a.step == RelocateStep::Failed),
        relocation_holds(a),
        !(relocated(a, e).step == RelocateStep::Failed),
    ensures
        a.step == k && relocated(a, e).step != k ==> relocation_goes_by(relocated(a, e), k, e),
        relocation_place(a.step) > relocation_place(k) && relocation_goes_by(a, k, e0) ==> relocation_goes_by(relocated(a, e), k, e0),
{
}

/// Every step of putting a checkout that was moved on record is taken, in its order,
/// whatever the events.
pub proof fn a_move_leaves_nothing_out(events: Seq<AdmitNews>, step: RelocateStep)
    requires
        relocation_place(relocating().step) <= relocation_place(step),
    ensures
        ({
            let a = relocated_all(relocating(), events);
            !(a.step == RelocateStep::Failed) ==> {
                &&& (match a.step {

                    _ => true,
                })
                &&& a.error is None
                &&& a.tree_locked == (relocation_place(RelocateStep::LockTree) < relocation_place(a.step) < relocation_place(RelocateStep::Done))
                &&& a.git_locked == (relocation_place(RelocateStep::LockGit) < relocation_place(a.step) < relocation_place(RelocateStep::Done))
                &&& a.repaired == (relocation_place(a.step) > relocation_place(RelocateStep::Repair))
                &&& a.judged == (relocation_place(a.step) > relocation_place(RelocateStep::Judge))
                &&& a.recorded == (relocation_place(a.step) > relocation_place(RelocateStep::Record))
                &&& relocation_place(a.step) > relocation_place(step) ==> (relocation_given(events, step) is Some
                    <==> (match step {

                            _ => true,
                        }))
                &&& relocation_place(a.step) <= relocation_place(step) ==> relocation_given(events, step) is None
                &&& relocation_given(events, step) matches Some(e) ==> (match step {

                    RelocateStep::Failed | RelocateStep::Done => true,
                    _ => e is Succeeded,
                })
            }
        }),
{
    lemma_relocation_after(events);
    let next = relocation_next();
    let at = relocation_at();
    let s = relocating();
    let places = |k: RelocateStep| relocation_place(k);
    let dead = |a: Relocation| a.step == RelocateStep::Failed;
    let inv = |a: Relocation| relocation_holds(a);
    let called = |a: Relocation, k: RelocateStep| relocation_calls_for(a, k);
    let past = |a: Relocation| relocation_place(a.step) > relocation_place(step);
    let fact = |a: Relocation, e: AdmitNews| relocation_goes_by(a, step, e);
    assert forall|a: Relocation, e: AdmitNews|
        inv(a) && !dead(a) && !dead(#[trigger] next(a, e)) implies inv(next(a, e)) by {
        lemma_relocation_step(a, e, step);
    }
    assert forall|a: Relocation, e: AdmitNews|
        inv(a) && !dead(a) && called(a, at(a)) && !dead(#[trigger] next(a, e)) implies {
        let b = next(a, e);
        &&& inv(b)
        &&& at(b) == at(a) ==> b == a
        &&& at(b) != at(a) ==> {
            &&& places(at(b)) > places(at(a))
            &&& called(b, at(b))
            &&& places(step) <= places(at(a)) ==> called(b, step) == called(a, step)
            &&& places(at(a)) < places(step) < places(at(b)) ==> !called(b, step)
        }
    } by {
        lemma_relocation_step(a, e, step);
    }
    course::lemma_taken(next, at, places, dead, inv, called, s, events, step);
    assert forall|a: Relocation, e: AdmitNews|
        inv(a) && !dead(a) && !dead(#[trigger] next(a, e)) && at(a) == step && at(next(a, e))
            != step implies past(next(a, e)) && fact(next(a, e), e) by {
        lemma_relocation_step(a, e, step);
        lemma_relocation_told(a, e, step, e);
    }
    assert forall|a: Relocation, e: AdmitNews, e0: AdmitNews|
        #![trigger next(a, e), fact(a, e0)]
        inv(a) && !dead(a) && !dead(next(a, e)) && past(a) && fact(a, e0) implies past(next(a, e))
        && fact(next(a, e), e0) && at(a) != step by {
        lemma_relocation_step(a, e, step);
        lemma_relocation_told(a, e, step, e0);
    }
    course::lemma_told(next, at, dead, inv, past, fact, s, events, step);
}

/// It ends early where a step failed, with its error, and for nothing else.
pub proof fn a_move_ends_for_what_failed(m: Relocation, news: AdmitNews)
    requires
        relocation_place(m.step) >= 0,
        m.step != RelocateStep::Done,
    ensures
        relocated(m, news).step == RelocateStep::Failed <==> news is Failure,
        news matches AdmitNews::Failure(e) ==> relocated(m, news).error == Some(e),
{
}

// ---------------------------------------------------------------------------
// What is reported
// ---------------------------------------------------------------------------

/// A resource that a tree declares.
#[derive(Debug)]
pub struct DeclaredResource {
    pub scope: String,
    pub task: String,
    pub tied_to: String,
    pub snapshot_keys: Vec<String>,
}

impl Keyed for DeclaredResource {
    open spec fn key(&self) -> Seq<Seq<int>> {
        seq![order::ranks(self.scope@), order::ranks(self.task@)]
    }

    fn sort_key(&self) -> (r: Vec<Vec<u64>>) {
        let mut key: Vec<Vec<u64>> = Vec::new();
        key.push(order::text_part(self.scope.as_str()));
        key.push(order::text_part(self.task.as_str()));
        proof {
            assert(order::key_view(key@) =~= self.key());
        }
        key
    }
}

/// The name of what a resource is tied to; one that says nothing is tied to its tree.
pub fn tied_name(tied_to: Option<TiedTo>) -> (r: &'static str)
    ensures
        r@ == match tied_to {
            Some(TiedTo::Repo) => "repo"@,
            _ => "tree"@,
        },
{
    match tied_to {
        Some(TiedTo::Repo) => "repo",
        _ => "tree",
    }
}

/// The resources that a tree declares, by scope and task.
pub fn declared_resources(resources: Vec<DeclaredResource>) -> (r: Vec<DeclaredResource>)
    ensures
        r@ == order::sorted(resources@),
{
    order::sort(resources)
}

/// The tasks that are shown: those whose name does not begin with an at-sign.
pub open spec fn shown_tasks(ids: Seq<Seq<char>>) -> Seq<Seq<char>>
    decreases ids.len(),
{
    if ids.len() == 0 {
        Seq::<Seq<char>>::empty()
    } else {
        let rest = shown_tasks(ids.drop_last());
        if ids.last().len() > 0 && ids.last()[0] == '@' {
            rest
        } else {
            rest.push(ids.last())
        }
    }
}

/// The tasks that are shown, of the names of a catalog, which are in order.
pub fn declared_tasks(ids: &Vec<String>) -> (r: Vec<String>)
    ensures
        text::texts(r@) == shown_tasks(text::texts(ids@)),
{
    let ghost all = text::texts(ids@);
    let mut out: Vec<String> = Vec::new();
    let mut i: usize = 0;
    proof {
        assert(text::texts(out@) =~= Seq::<Seq<char>>::empty());
    }
    while i < ids.len()
        invariant
            i <= ids.len(),
            all == text::texts(ids@),
            text::texts(out@) == shown_tasks(all.take(i as int)),
        decreases ids.len() - i,
    {
        let ghost prior = text::texts(out@);
        proof {
            assert(all.take(i + 1).drop_last() =~= all.take(i as int));
            assert(all.take(i + 1).last() == ids@[i as int]@);
        }
        let chars = text::chars_of(ids[i].as_str());
        if !(chars.len() > 0 && chars[0] == '@') {
            out.push(ids[i].clone());
            proof {
                assert(text::texts(out@) =~= prior.push(ids@[i as int]@));
            }
        }
        i = i + 1;
    }
    proof {
        assert(all.take(ids@.len() as int) =~= all);
    }
    out
}

/// Where a configuration is at fault, and how.
#[derive(Debug)]
pub struct ConfigError {
    pub path: String,
    pub line: u32,
    pub col: u32,
    pub message: String,
}

/// What is known of a fault of a configuration.
#[verifier::ext_equal]
pub struct Located {
    pub path: Seq<char>,
    pub line: nat,
    pub col: nat,
    pub message: Seq<char>,
}

impl View for ConfigError {
    type V = Located;

    open spec fn view(&self) -> Located {
        Located {
            path: self.path@,
            line: self.line as nat,
            col: self.col as nat,
            message: self.message@,
        }
    }
}

/// A number, or zero where a text is none.
pub open spec fn number_or_zero(s: Seq<char>) -> nat {
    match text::parse_natural(s, u32::MAX as nat) {
        Some(n) => n,
        None => 0,
    }
}

/// Where a message says that a configuration is at fault: its path, its line, its
/// column and what is wrong, apart by colons. What is not there is taken to be
/// nothing, and the whole message stands for what is wrong.
pub open spec fn located(message: Seq<char>) -> Located {
    match text::cut(message, ':') {
        None => Located { path: message, line: 0, col: 0, message: text::trim(message) },
        Some((p, rest)) => match text::cut(rest, ':') {
            None => Located {
                path: p,
                line: number_or_zero(rest),
                col: 0,
                message: text::trim(message),
            },
            Some((line, more)) => match text::cut(more, ':') {
                None => Located {
                    path: p,
                    line: number_or_zero(line),
                    col: number_or_zero(more),
                    message: text::trim(message),
                },
                Some((col, what)) => Located {
                    path: p,
                    line: number_or_zero(line),
                    col: number_or_zero(col),
                    message: text::trim(what),
                },
            },
        },
    }
}

fn number_in(s: &str) -> (r: u32)
    ensures
        r == number_or_zero(s@),
{
    match text::parse_number(s, 4294967295) {
        Some(n) => n as u32,
        None => 0,
    }
}

/// Where a message says that a configuration is at fault.
pub fn invalid_config(message: &str) -> (r: ConfigError)
    ensures
        r@ == located(message@),
{
    let (p, rest) = match text::split_once(message, ':') {
        None => {
            return ConfigError {
                path: message.to_owned(),
                line: 0,
                col: 0,
                message: text::trimmed(message),
            };
        },
        Some(two) => two,
    };
    let (line, more) = match text::split_once(rest.as_str(), ':') {
        None => {
            return ConfigError {
                path: p,
                line: number_in(rest.as_str()),
                col: 0,
                message: text::trimmed(message),
            };
        },
        Some(two) => two,
    };
    match text::split_once(more.as_str(), ':') {
        None => ConfigError {
            path: p,
            line: number_in(line.as_str()),
            col: number_in(more.as_str()),
            message: text::trimmed(message),
        },
        Some((col, what)) => ConfigError {
            path: p,
            line: number_in(line.as_str()),
            col: number_in(col.as_str()),
            message: text::trimmed(what.as_str()),
        },
    }
}

/// A task is shown unless it is one of this program.
pub proof fn only_inner_tasks_are_hidden(ids: Seq<Seq<char>>, y: Seq<char>)
    ensures
        shown_tasks(ids).contains(y) <==> (exists|i: int|
            0 <= i < ids.len() && !((#[trigger] ids[i]).len() > 0 && ids[i][0] == '@') && y == ids[i]),
    decreases ids.len(),
{
    let all = shown_tasks(ids);
    if ids.len() > 0 {
        let rest = ids.drop_last();
        let some = shown_tasks(rest);
        only_inner_tasks_are_hidden(rest, y);
        if all.contains(y) {
            let k = choose|k: int| 0 <= k < all.len() && all[k] == y;
            if k < some.len() {
                assert(some[k] == y);
                let i = choose|i: int| 0 <= i < rest.len() && !((#[trigger] rest[i]).len() > 0 && rest[i][0] == '@') && y == rest[i];
                assert(ids[i] == rest[i]);
            } else {
                assert(!(ids[rest.len() as int].len() > 0 && ids[rest.len() as int][0] == '@') && y == ids[rest.len() as int]);
            }
        }
        if exists|i: int| 0 <= i < ids.len() && !((#[trigger] ids[i]).len() > 0 && ids[i][0] == '@') && y == ids[i] {
            let i = choose|i: int| 0 <= i < ids.len() && !((#[trigger] ids[i]).len() > 0 && ids[i][0] == '@') && y == ids[i];
            if i < rest.len() {
                assert(rest[i] == ids[i]);
                let k = choose|k: int| 0 <= k < some.len() && some[k] == y;
                assert(all[k] == y);
            } else {
                assert(all[all.len() - 1] == y);
            }
        }
    }
}

/// A checkout that was moved goes by the label that was given, else by the one of where it
/// was, else by the name of where it is.
pub proof fn which_label_a_moved_checkout_has(
    r: Registry,
    given: Option<Seq<char>>,
    old_path: Option<Seq<char>>,
    destination: Seq<char>,
    i: int,
)
    requires
        0 <= i < r.labels.entries@.len(),
    ensures
        given is Some ==> moved_label_of(r, given, old_path, destination) == given->0,
        given is None && old_path is None ==> moved_label_of(r, given, old_path, destination)
            == label_of(destination),
        given is None && old_path == Some(r.labels.entries@[i].1.path@) && (forall|k: int|
            0 <= k < i ==> (#[trigger] r.labels.entries@[k]).1.path@ != r.labels.entries@[i].1.path@)
            ==> moved_label_of(r, given, old_path, destination) == r.labels.entries@[i].0@,
{
    if old_path is Some {
        let flags = context::of_checkout(r.labels.entries@, old_path->0);
        git::the_first_yes_is_found(flags, 0);
        if old_path == Some(r.labels.entries@[i].1.path@) {
            assert(flags[i]);
            let k = git::first_true(flags, 0)->0;
            assert(r.labels.entries@[k].1.path@ == r.labels.entries@[i].1.path@);
        }
    }
}

} // verus!
