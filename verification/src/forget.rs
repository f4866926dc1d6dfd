//! Forgetting a tree: what stands in the way, which of its files go, and what is left in
//! the registry.

use vstd::prelude::*;
use vstd::string::*;

use crate::context;
use crate::context::{Registry, Tombstone, TreeRec};
use crate::course;
use crate::error;
use crate::error::{CoreError, Details, ExitClass};
use crate::lifecycle::{Materialized, MaterializedKind};
use crate::order;
use crate::order::Keyed;
use crate::proc::copy_texts;
use crate::remove;
use crate::remove::DoorHolder;
use crate::text;

verus! {

broadcast use vstd::string::group_string_axioms;

/// Refuses a canonical checkout.
pub fn refuse_canonical(canonical: bool) -> (r: Result<(), CoreError>)
    ensures
        r is Ok == !canonical,
        r matches Err(e) ==> e@ == error::fault(
            ExitClass::Usage,
            "USE_UNREGISTER"@,
            "canonical checkouts are unregistered, not forgotten"@,
            "use `wt unregister <label>`"@,
        ),
{
    if canonical {
        Err(
            CoreError::new(
                ExitClass::Usage,
                "USE_UNREGISTER",
                "canonical checkouts are unregistered, not forgotten",
                "use `wt unregister <label>`",
            ),
        )
    } else {
        Ok(())
    }
}

/// Refuses a tree with resources.
pub fn refuse_resources(target: &str, live: &Vec<String>) -> (r: Result<(), CoreError>)
    ensures
        r is Ok == (live@.len() == 0),
        r matches Err(e) ==> e@ == error::telling(
            error::fault(
                ExitClass::State,
                "RESOURCES_EXIST"@,
                target@ + " still has live resources: "@ + text::join(text::texts(live@), ", "@),
                "use `wt destroy` to tear down the resources, or `wt rm` to remove the tree"@,
            ),
            error::Told::Resources(text::texts(live@)),
        ),
{
    if live.len() == 0 {
        return Ok(());
    }
    let message = target.to_owned().concat(" still has live resources: ").concat(
        text::join_with(live, ", ").as_str(),
    );
    Err(
        CoreError::new(
            ExitClass::State,
            "RESOURCES_EXIST",
            message.as_str(),
            "use `wt destroy` to tear down the resources, or `wt rm` to remove the tree",
        ).with_details(Details::Resources(copy_texts(live))),
    )
}

/// Refuses a tree with a session.
pub fn refuse_session(session: &str, live: bool) -> (r: Result<(), CoreError>)
    ensures
        r is Ok == !live,
        r matches Err(e) ==> e@ == error::fault(
            ExitClass::State,
            "SESSION_LIVE"@,
            "session "@ + session@ + " is still live"@,
            "run `wt close` for the tree, then retry"@,
        ),
{
    if !live {
        return Ok(());
    }
    let message = "session ".to_owned().concat(session).concat(" is still live");
    Err(
        CoreError::new(
            ExitClass::State,
            "SESSION_LIVE",
            message.as_str(),
            "run `wt close` for the tree, then retry",
        ),
    )
}

/// The fault of a tree that someone uses.
pub open spec fn in_use(target: Seq<char>) -> error::Fault {
    error::fault(
        ExitClass::Conflict,
        "TREE_IN_USE"@,
        target + " still has active door holders"@,
        "wait for the door holders to exit, then retry"@,
    )
}

fn used(target: &str) -> (r: CoreError)
    ensures
        r@ == in_use(target@),
{
    let message = target.to_owned().concat(" still has active door holders");
    CoreError::new(
        ExitClass::Conflict,
        "TREE_IN_USE",
        message.as_str(),
        "wait for the door holders to exit, then retry",
    )
}

/// Refuses a tree that someone uses.
pub fn refuse_holders(target: &str, holders: Vec<DoorHolder>) -> (r: Result<(), CoreError>)
    ensures
        r is Ok == (holders@.len() == 0),
        r matches Err(e) ==> e@ == error::telling(
            in_use(target@),
            error::Told::Holders(remove::behind(holders@)),
        ),
{
    if holders.len() == 0 {
        Ok(())
    } else {
        Err(used(target).with_details(Details::Holders(holders)))
    }
}

/// What failing to lock a tree is told as.
pub fn lock_refused(target: &str, e: CoreError) -> (r: CoreError)
    ensures
        r@ == if e@.code == "TREE_IN_USE"@ {
            in_use(target@)
        } else {
            e@
        },
{
    if text::same(e.code.as_str(), "TREE_IN_USE") {
        used(target)
    } else {
        e
    }
}

/// Whether a file is looked at when its tree is forgotten: one that was written into it,
/// outside of this program's own directory, which goes as a whole.
pub open spec fn looked_at(m: Materialized) -> bool {
    m.kind == MaterializedKind::Rendered && m.path@ != ".wt"@ && !text::starts(m.path@, ".wt/"@)
}

/// Whether a file is looked at when its tree is forgotten.
pub fn is_looked_at(m: &Materialized) -> (r: bool)
    ensures
        r == looked_at(*m),
{
    m.kind == MaterializedKind::Rendered && !text::same(m.path.as_str(), ".wt")
        && !text::starts_with(m.path.as_str(), ".wt/")
}

/// Whether a file is this program's to delete: where it holds what was written into it.
/// `now` is the hash of what it holds, where it can be read.
pub open spec fn is_own(m: Materialized, now: Option<Seq<char>>) -> bool {
    m.hash is Some && now == text::opt(m.hash)
}

/// Whether a file is this program's to delete.
pub fn owns(m: &Materialized, now: &Option<String>) -> (r: bool)
    ensures
        r == is_own(*m, text::opt(*now)),
{
    match (&m.hash, now) {
        (Some(h), Some(n)) => text::same(h.as_str(), n.as_str()),
        _ => false,
    }
}

/// What became of a file.
#[derive(Debug)]
pub struct ArtifactReport {
    pub path: String,
    pub action: String,
}

impl Keyed for ArtifactReport {
    open spec fn key(&self) -> Seq<Seq<int>> {
        seq![order::ranks(self.path@)]
    }

    fn sort_key(&self) -> (r: Vec<Vec<u64>>) {
        let mut key: Vec<Vec<u64>> = Vec::new();
        key.push(order::text_part(self.path.as_str()));
        proof {
            assert(order::key_view(key@) =~= self.key());
        }
        key
    }
}

/// What became of a file, of whether it was deleted.
pub fn artifact(p: &str, deleted: bool) -> (r: ArtifactReport)
    ensures
        r.path@ == p@,
        r.action@ == if deleted {
            "deleted"@
        } else {
            "kept"@
        },
{
    let action = if deleted {
        "deleted".to_owned()
    } else {
        "kept".to_owned()
    };
    ArtifactReport { path: p.to_owned(), action }
}

/// What became of files, by path.
pub fn artifacts(list: Vec<ArtifactReport>) -> (r: Vec<ArtifactReport>)
    ensures
        r@ == order::sorted(list@),
{
    order::sort(list)
}

/// A file that was changed since it was written, that cannot be read, or that nothing was
/// recorded of is never deleted.
pub proof fn changed_files_stay(m: Materialized, now: Option<Seq<char>>)
    requires
        now != text::opt(m.hash) || now is None,
    ensures
        !is_own(m, now),
{
}

/// The trees that do not have an identity.
pub open spec fn without(trees: Seq<TreeRec>, tree_id: Seq<char>) -> Seq<TreeRec>
    decreases trees.len(),
{
    if trees.len() == 0 {
        Seq::<TreeRec>::empty()
    } else {
        let rest = without(trees.drop_last(), tree_id);
        if trees.last().tree_id@ == tree_id {
            rest
        } else {
            rest.push(trees.last())
        }
    }
}

/// Whether something is the tombstone of a tree that went: it keeps the tree's address
/// and place, the files that were put into the tree, and when and why it went.
pub open spec fn marks(
    t: Tombstone,
    tree: TreeRec,
    files: Seq<Seq<char>>,
    at: Seq<char>,
    reason: Seq<char>,
) -> bool {
    &&& t.label == tree.label
    &&& t.name == tree.name
    &&& t.slot == tree.slot
    &&& t.geometry == tree.geometry
    &&& t.ports.entries@ == tree.ports.entries@
    &&& t.name_short == tree.name_short
    &&& t.session_name == tree.session_name
    &&& t.path == tree.path
    &&& text::texts(t.materialized@) == files
    &&& t.removed_at@ == at
    &&& t.reason@ == reason
}

/// The tombstone of a tree.
pub fn tombstone_of(tree: &TreeRec, files: Vec<String>, at: &str, reason: &str) -> (r: Tombstone)
    ensures
        marks(r, *tree, text::texts(files@), at@, reason@),
{
    Tombstone {
        label: tree.label.clone(),
        name: tree.name.clone(),
        slot: tree.slot,
        geometry: tree.geometry,
        ports: context::copy_ports(&tree.ports),
        name_short: tree.name_short.clone(),
        session_name: tree.session_name.clone(),
        path: tree.path.clone(),
        materialized: files,
        removed_at: at.to_owned(),
        reason: reason.to_owned(),
    }
}

/// The paths of the files that a tombstone keeps: of those that were put into a tree,
/// the ones with a path that `valid` says may stand on record.
pub open spec fn kept_paths(list: Seq<Materialized>, valid: Seq<bool>) -> Seq<Seq<char>>
    decreases list.len(),
{
    if list.len() == 0 {
        Seq::<Seq<char>>::empty()
    } else {
        let rest = kept_paths(list.drop_last(), valid);
        if valid[list.len() - 1] {
            rest.push(list.last().path@)
        } else {
            rest
        }
    }
}

/// The paths of the files that a tombstone keeps, in the order of the record.
pub fn paths_to_keep(list: &Vec<Materialized>, valid: &Vec<bool>) -> (r: Vec<String>)
    requires
        list@.len() == valid@.len(),
    ensures
        text::texts(r@) == kept_paths(list@, valid@),
{
    let mut out: Vec<String> = Vec::new();
    let mut i: usize = 0;
    proof {
        assert(text::texts(out@) =~= kept_paths(list@.take(0), valid@));
    }
    while i < list.len()
        invariant
            i <= list@.len(),
            list@.len() == valid@.len(),
            text::texts(out@) == kept_paths(list@.take(i as int), valid@),
        decreases list@.len() - i,
    {
        let ghost was = out@;
        proof {
            assert(list@.take(i + 1).drop_last() =~= list@.take(i as int));
        }
        if valid[i] {
            out.push(list[i].path.clone());
            proof {
                assert(text::texts(out@) =~= text::texts(was).push(list@[i as int].path@));
            }
        }
        i = i + 1;
    }
    proof {
        assert(list@.take(list@.len() as int) =~= list@);
    }
    out
}

/// Puts the tombstone of a tree that is forgotten in its place. None of its files are
/// kept in mind: those that were this program's are gone.
pub fn bury_forgotten(registry: &mut Registry, tree: &TreeRec, at: &str)
    ensures
        final(registry).trees@ == without(old(registry).trees@, tree.tree_id@),
        final(registry).tombstones@.len() == old(registry).tombstones@.len() + 1,
        final(registry).tombstones@.drop_last() == old(registry).tombstones@,
        marks(
            final(registry).tombstones@.last(),
            *tree,
            Seq::<Seq<char>>::empty(),
            at@,
            "forgotten"@,
        ),
        final(registry).labels == old(registry).labels,
{
    let files: Vec<String> = Vec::new();
    proof {
        assert(text::texts(files@) =~= Seq::<Seq<char>>::empty());
    }
    let tombstone = tombstone_of(tree, files, at, "forgotten");
    bury(registry, tree.tree_id.as_str(), tombstone);
    proof {
        assert(registry.tombstones@.drop_last() =~= old(registry).tombstones@);
    }
}

/// Puts the tombstone of a tree that was removed in its place, with the files that were
/// put into it.
pub fn bury_removed(
    registry: &mut Registry,
    tree: &TreeRec,
    list: &Vec<Materialized>,
    valid: &Vec<bool>,
    at: &str,
)
    requires
        list@.len() == valid@.len(),
    ensures
        final(registry).trees@ == without(old(registry).trees@, tree.tree_id@),
        final(registry).tombstones@.len() == old(registry).tombstones@.len() + 1,
        final(registry).tombstones@.drop_last() == old(registry).tombstones@,
        marks(
            final(registry).tombstones@.last(),
            *tree,
            kept_paths(list@, valid@),
            at@,
            "removed"@,
        ),
        final(registry).labels == old(registry).labels,
{
    let tombstone = tombstone_of(tree, paths_to_keep(list, valid), at, "removed");
    bury(registry, tree.tree_id.as_str(), tombstone);
    proof {
        assert(registry.tombstones@.drop_last() =~= old(registry).tombstones@);
    }
}

/// Puts a tombstone in the place of a tree.
fn bury(registry: &mut Registry, tree_id: &str, tombstone: Tombstone)
    ensures
        final(registry).trees@ == without(old(registry).trees@, tree_id@),
        final(registry).tombstones@ == old(registry).tombstones@.push(tombstone),
        final(registry).labels == old(registry).labels,
{
    let ghost all = registry.trees@;
    let ghost mut tail = Seq::<TreeRec>::empty();
    let mut i: usize = registry.trees.len();
    proof {
        assert(all.take(all.len() as int) =~= all);
        assert(registry.trees@ =~= all.take(i as int) + tail);
        assert(without(all, tree_id@) =~= without(all.take(i as int), tree_id@) + tail);
    }
    while i > 0
        invariant
            i <= all.len(),
            registry.tombstones@ == old(registry).tombstones@,
            registry.labels == old(registry).labels,
            registry.trees@ == all.take(i as int) + tail,
            without(all, tree_id@) == without(all.take(i as int), tree_id@) + tail,
        decreases i,
    {
        let ghost last = all[i - 1];
        proof {
            assert(registry.trees@[i - 1] == last);
            assert(all.take(i as int).drop_last() =~= all.take(i - 1));
            assert(all.take(i as int).last() == last);
        }
        if text::same(registry.trees[i - 1].tree_id.as_str(), tree_id) {
            let _ = registry.trees.remove(i - 1);
            proof {
                assert(registry.trees@ =~= all.take(i - 1) + tail);
            }
        } else {
            proof {
                let more = seq![last] + tail;
                assert(registry.trees@ =~= all.take(i - 1) + more);
                assert(without(all.take(i - 1), tree_id@).push(last) + tail =~= without(
                    all.take(i - 1),
                    tree_id@,
                ) + more);
                tail = more;
            }
        }
        i = i - 1;
    }
    proof {
        assert(all.take(0) =~= Seq::<TreeRec>::empty());
        assert(registry.trees@ =~= tail);
        assert(without(all.take(0), tree_id@) + tail =~= tail);
    }
    registry.tombstones.push(tombstone);
}

/// A tree that is forgotten leaves no entry, and every other one stays.
pub proof fn only_the_forgotten_tree_goes(trees: Seq<TreeRec>, tree_id: Seq<char>, t: TreeRec)
    ensures
        without(trees, tree_id).contains(t) == (trees.contains(t) && t.tree_id@ != tree_id),
    decreases trees.len(),
{
    if trees.len() > 0 {
        let rest = trees.drop_last();
        let kept = without(rest, tree_id);
        let last = trees.last();
        only_the_forgotten_tree_goes(rest, tree_id, t);
        assert(trees =~= rest.push(last));
        assert(trees.contains(t) == (rest.contains(t) || t == last)) by {
            if rest.contains(t) {
                let i = choose|i: int| 0 <= i < rest.len() && rest[i] == t;
                assert(trees[i] == t);
            }
            if t == last {
                assert(trees[trees.len() - 1] == t);
            }
        }
        assert(kept.push(last).contains(t) == (kept.contains(t) || t == last)) by {
            if kept.contains(t) {
                let i = choose|i: int| 0 <= i < kept.len() && kept[i] == t;
                assert(kept.push(last)[i] == t);
            }
            if t == last {
                assert(kept.push(last)[kept.len() as int] == t);
            }
        }
    }
}

/// What forgetting a tree does next. `again` says that it is asked under the lock.
#[derive(Clone, Copy, Debug, PartialEq, Eq, Structural)]
pub enum ForgetStep {
    /// Ask whether its directory says that it is the one on record.
    Identity { again: bool },
    /// Ask for its resources.
    Resources { again: bool },
    /// Ask for its session.
    Session { again: bool },
    /// Ask who uses it.
    Holders,
    /// Ask whether it is to be forgotten.
    Confirm,
    /// Take its lock.
    Lock,
    /// Read its record.
    State,
    /// Deal with the file at this place of the record.
    File(usize),
    /// Delete this program's own directory in it.
    OwnDir,
    /// Delete its record.
    DropState,
    /// Put a tombstone in its place.
    Bury,
    /// Work the exclude out anew.
    Exclude,
    Done,
    Declined,
    Failed,
}

/// What came of a step.
#[derive(Debug)]
pub enum ForgetEvent {
    Succeeded,
    /// The record was read, with this many files in it.
    Read(usize),
    /// The tree is not to be forgotten.
    No,
    Failure(CoreError),
}

/// What is known of an event.
pub enum ForgetNews {
    Succeeded,
    Read(usize),
    No,
    Failure(error::Fault),
}

impl View for ForgetEvent {
    type V = ForgetNews;

    open spec fn view(&self) -> ForgetNews {
        match self {
            ForgetEvent::Succeeded => ForgetNews::Succeeded,
            ForgetEvent::Read(n) => ForgetNews::Read(*n),
            ForgetEvent::No => ForgetNews::No,
            ForgetEvent::Failure(e) => ForgetNews::Failure(e@),
        }
    }
}

/// A tree that is being forgotten.
#[derive(Debug)]
pub struct Forgetting {
    pub target: String,
    pub step: ForgetStep,
    pub files: usize,
    pub locked: bool,
    /// What stands in the way was asked for under the lock, and nothing does.
    pub cleared: bool,
    pub error: Option<CoreError>,
}

/// What is known of a tree that is being forgotten.
#[verifier::ext_equal]
pub struct Parting {
    pub target: Seq<char>,
    pub step: ForgetStep,
    pub files: usize,
    pub locked: bool,
    pub cleared: bool,
    pub error: Option<error::Fault>,
}

impl View for Forgetting {
    type V = Parting;

    open spec fn view(&self) -> Parting {
        Parting {
            target: self.target@,
            step: self.step,
            files: self.files,
            locked: self.locked,
            cleared: self.cleared,
            error: match self.error {
                Some(e) => Some(e@),
                None => None,
            },
        }
    }
}

/// How forgetting begins.
pub open spec fn parting(target: Seq<char>) -> Parting {
    Parting {
        target,
        step: ForgetStep::Identity { again: false },
        files: 0,
        locked: false,
        cleared: false,
        error: None,
    }
}

/// The error that a failure is told as: a lock that is held means that someone uses the
/// tree.
pub open spec fn told(p: Parting, e: error::Fault) -> error::Fault {
    if p.step == ForgetStep::Lock && e.code == "TREE_IN_USE"@ {
        in_use(p.target)
    } else {
        e
    }
}

/// Forgetting after something came of its step. Of what stands in the way, all but its
/// holders is asked for twice: before the lock is taken, and under it. What does not
/// belong to the step changes nothing.
pub open spec fn parted(p: Parting, news: ForgetNews) -> Parting {
    match (p.step, news) {
        (ForgetStep::Done, _) | (ForgetStep::Declined, _) | (ForgetStep::Failed, _) => p,
        (_, ForgetNews::Failure(e)) => Parting {
            step: ForgetStep::Failed,
            error: Some(told(p, e)),
            ..p
        },
        (ForgetStep::Identity { again }, ForgetNews::Succeeded) => Parting {
            step: ForgetStep::Resources { again },
            ..p
        },
        (ForgetStep::Resources { again }, ForgetNews::Succeeded) => Parting {
            step: ForgetStep::Session { again },
            ..p
        },
        (ForgetStep::Session { again }, ForgetNews::Succeeded) => Parting {
            cleared: again,
            step: if again {
                ForgetStep::State
            } else {
                ForgetStep::Holders
            },
            ..p
        },
        (ForgetStep::Holders, ForgetNews::Succeeded) => Parting { step: ForgetStep::Confirm, ..p },
        (ForgetStep::Confirm, ForgetNews::Succeeded) => Parting { step: ForgetStep::Lock, ..p },
        (ForgetStep::Confirm, ForgetNews::No) => Parting { step: ForgetStep::Declined, ..p },
        (ForgetStep::Lock, ForgetNews::Succeeded) => Parting {
            locked: true,
            step: ForgetStep::Identity { again: true },
            ..p
        },
        (ForgetStep::State, ForgetNews::Read(files)) => Parting {
            files,
            step: if files == 0 {
                ForgetStep::OwnDir
            } else {
                ForgetStep::File(0)
            },
            ..p
        },
        (ForgetStep::File(i), ForgetNews::Succeeded) => Parting {
            step: if i + 1 < p.files {
                ForgetStep::File((i + 1) as usize)
            } else {
                ForgetStep::OwnDir
            },
            ..p
        },
        (ForgetStep::OwnDir, ForgetNews::Succeeded) => Parting { step: ForgetStep::DropState, ..p },
        (ForgetStep::DropState, ForgetNews::Succeeded) => Parting { step: ForgetStep::Bury, ..p },
        (ForgetStep::Bury, ForgetNews::Succeeded) => Parting { step: ForgetStep::Exclude, ..p },
        (ForgetStep::Exclude, ForgetNews::Succeeded) => Parting { step: ForgetStep::Done, ..p },
        _ => p,
    }
}

impl Forgetting {
    /// Begins to forget a tree.
    pub fn new(target: String) -> (r: Self)
        ensures
            r@ == parting(target@),
    {
        Forgetting {
            target,
            step: ForgetStep::Identity { again: false },
            files: 0,
            locked: false,
            cleared: false,
            error: None,
        }
    }

    /// Takes what came of the step, and goes on to the next.
    pub fn advance(&mut self, event: ForgetEvent)
        ensures
            final(self)@ == parted(old(self)@, event@),
    {
        match (self.step, event) {
            (ForgetStep::Done, _) | (ForgetStep::Declined, _) | (ForgetStep::Failed, _) => {},
            (step, ForgetEvent::Failure(e)) => {
                let e = if step == ForgetStep::Lock {
                    lock_refused(self.target.as_str(), e)
                } else {
                    e
                };
                self.step = ForgetStep::Failed;
                self.error = Some(e);
            },
            (ForgetStep::Identity { again }, ForgetEvent::Succeeded) => {
                self.step = ForgetStep::Resources { again };
            },
            (ForgetStep::Resources { again }, ForgetEvent::Succeeded) => {
                self.step = ForgetStep::Session { again };
            },
            (ForgetStep::Session { again }, ForgetEvent::Succeeded) => {
                self.cleared = again;
                self.step = if again {
                    ForgetStep::State
                } else {
                    ForgetStep::Holders
                };
            },
            (ForgetStep::Holders, ForgetEvent::Succeeded) => {
                self.step = ForgetStep::Confirm;
            },
            (ForgetStep::Confirm, ForgetEvent::Succeeded) => {
                self.step = ForgetStep::Lock;
            },
            (ForgetStep::Confirm, ForgetEvent::No) => {
                self.step = ForgetStep::Declined;
            },
            (ForgetStep::Lock, ForgetEvent::Succeeded) => {
                self.locked = true;
                self.step = ForgetStep::Identity { again: true };
            },
            (ForgetStep::State, ForgetEvent::Read(files)) => {
                self.files = files;
                self.step = if files == 0 {
                    ForgetStep::OwnDir
                } else {
                    ForgetStep::File(0)
                };
            },
            (ForgetStep::File(i), ForgetEvent::Succeeded) => {
                self.step = if self.files > 0 && i < self.files - 1 {
                    ForgetStep::File(i + 1)
                } else {
                    ForgetStep::OwnDir
                };
            },
            (ForgetStep::OwnDir, ForgetEvent::Succeeded) => {
                self.step = ForgetStep::DropState;
            },
            (ForgetStep::DropState, ForgetEvent::Succeeded) => {
                self.step = ForgetStep::Bury;
            },
            (ForgetStep::Bury, ForgetEvent::Succeeded) => {
                self.step = ForgetStep::Exclude;
            },
            (ForgetStep::Exclude, ForgetEvent::Succeeded) => {
                self.step = ForgetStep::Done;
            },
            _ => {},
        }
    }
}

/// Forgetting after a row of events.
pub open spec fn parted_all(p: Parting, news: Seq<ForgetNews>) -> Parting
    decreases news.len(),
{
    if news.len() == 0 {
        p
    } else {
        parted(parted_all(p, news.drop_last()), news.last())
    }
}

/// Whether a step deletes something.
pub open spec fn deletes(step: ForgetStep) -> bool {
    step is File || step is OwnDir || step is DropState || step is Bury || step is Exclude
}

/// Nothing of a tree is deleted, and it does not leave the registry, before what stands in
/// the way was asked for under its lock; and a file is dealt with only where the record
/// has it.
pub proof fn nothing_is_deleted_unasked(target: Seq<char>, news: Seq<ForgetNews>)
    ensures
        ({
            let p = parted_all(parting(target), news);
            &&& deletes(p.step) ==> p.locked && p.cleared
            &&& (p.step is State || p.step is Done) ==> p.locked && p.cleared
            &&& (p.step matches ForgetStep::File(i) ==> i < p.files)
            &&& (p.step matches ForgetStep::Identity { again } ==> again == p.locked)
            &&& (p.step matches ForgetStep::Resources { again } ==> again == p.locked)
            &&& (p.step matches ForgetStep::Session { again } ==> again == p.locked)
            &&& p.step is Declined ==> !p.locked
            &&& (p.step is Holders || p.step is Confirm || p.step is Lock) ==> !p.locked
        }),
    decreases news.len(),
{
    if news.len() > 0 {
        nothing_is_deleted_unasked(target, news.drop_last());
    }
}

/// The place of a step in the order in which steps come.
pub open spec fn parting_place(step: ForgetStep) -> int {
    match step {
        ForgetStep::Identity { again } => if again { 6int } else { 0 },
        ForgetStep::Resources { again } => if again { 7int } else { 1 },
        ForgetStep::Session { again } => if again { 8int } else { 2 },
        ForgetStep::Holders => 3,
        ForgetStep::Confirm => 4,
        ForgetStep::Lock => 5,
        ForgetStep::State => 9,
        ForgetStep::File(i) => 10 + i,
        ForgetStep::OwnDir => usize::MAX + 11,
        ForgetStep::DropState => usize::MAX + 12,
        ForgetStep::Bury => usize::MAX + 13,
        ForgetStep::Exclude => usize::MAX + 14,
        ForgetStep::Done => usize::MAX + 15,
        ForgetStep::Declined | ForgetStep::Failed => -1,
    }
}

/// Whether a step is called for.
pub open spec fn parting_calls_for(a: Parting, step: ForgetStep) -> bool {
    match step {
        ForgetStep::File(i) => i < a.files,
        _ => true,
    }
}

/// What holds at every step.
pub open spec fn parting_holds(a: Parting, target: Seq<char>) -> bool {
    &&& parting_calls_for(a, a.step)
    &&& a.target == target
    &&& a.error is None
    &&& a.locked == (parting_place(a.step) > parting_place(ForgetStep::Lock))
    &&& a.cleared == (parting_place(a.step) > parting_place(ForgetStep::Session { again: true }))
}

/// What an answer to a step is gone by.
pub open spec fn parting_goes_by(a: Parting, step: ForgetStep, e: ForgetNews) -> bool {
    match step {
        ForgetStep::State => e == ForgetNews::Read(a.files),
        ForgetStep::Declined | ForgetStep::Failed => true,
        _ => e is Succeeded,
    }
}

/// How it goes on.
pub open spec fn parting_next() -> spec_fn(Parting, ForgetNews) -> Parting {
    |a: Parting, e: ForgetNews| parted(a, e)
}

/// The step that it is at.
pub open spec fn parting_at() -> spec_fn(Parting) -> ForgetStep {
    |a: Parting| a.step
}

/// What a step was answered with, where it was taken and left again.
pub open spec fn parting_given(target: Seq<char>, events: Seq<ForgetNews>, step: ForgetStep) -> Option<ForgetNews> {
    course::answered(parting_next(), parting_at(), parting(target), events, step)
}

proof fn lemma_parting_after(target: Seq<char>, events: Seq<ForgetNews>)
    ensures
        parted_all(parting(target), events) == course::after(parting_next(), parting(target), events),
    decreases events.len(),
{
    if events.len() > 0 {
        lemma_parting_after(target, events.drop_last());
    }
}

#[verifier::spinoff_prover]
proof fn lemma_parting_step(a: Parting, target: Seq<char>, e: ForgetNews, k: ForgetStep)
    requires
        !(a.step == ForgetStep::Declined || a.step == ForgetStep::Failed),
        parting_holds(a, target),
        !(parted(a, e).step == ForgetStep::Declined || parted(a, e).step == ForgetStep::Failed),
    ensures
        ({
            let b = parted(a, e);
            &&& parting_holds(b, target)
            &&& b.step == a.step ==> b == a
            &&& b.step != a.step ==> {
                &&& parting_place(b.step) > parting_place(a.step)
                &&& parting_place(k) <= parting_place(a.step) ==> parting_calls_for(b, k) == parting_calls_for(a, k)
                &&& parting_place(a.step) < parting_place(k) < parting_place(b.step) ==> !parting_calls_for(b, k)
            }
        }),
{
}

#[verifier::spinoff_prover]
proof fn lemma_parting_told(a: Parting, target: Seq<char>, e: ForgetNews, k: ForgetStep, e0: ForgetNews)
    requires
        !(a.step == ForgetStep::Declined || a.step == ForgetStep::Failed),
        parting_holds(a, target),
        !(parted(a, e).step == ForgetStep::Declined || parted(a, e).step == ForgetStep::Failed),
    ensures
        a.step == k && parted(a, e).step != k ==> parting_goes_by(parted(a, e), k, e),
        parting_place(a.step) > parting_place(k) && parting_goes_by(a, k, e0) ==> parting_goes_by(parted(a, e), k, e0),
{
}

/// Every step of forgetting a tree is taken, and in its order, whatever the events: what
/// was asked before the lock is asked again under it, every file on record is dealt with,
/// and then the directory, the record, the entry and the exclude.
pub proof fn forgetting_leaves_nothing_out(target: Seq<char>, events: Seq<ForgetNews>, step: ForgetStep)
    requires
        parting_place(parting(target).step) <= parting_place(step),
    ensures
        ({
            let a = parted_all(parting(target), events);
            !(a.step == ForgetStep::Declined || a.step == ForgetStep::Failed) ==> {
                &&& (match a.step {
                    ForgetStep::File(i) => i < a.files,
                    _ => true,
                })
                &&& a.target == target
                &&& a.error is None
                &&& a.locked == (parting_place(a.step) > parting_place(ForgetStep::Lock))
                &&& a.cleared == (parting_place(a.step) > parting_place(ForgetStep::Session { again: true }))
                &&& parting_place(a.step) > parting_place(step) ==> (parting_given(target, events, step) is Some
                    <==> (match step {
                            ForgetStep::File(i) => i < a.files,
                            _ => true,
                        }))
                &&& parting_place(a.step) <= parting_place(step) ==> parting_given(target, events, step) is None
                &&& parting_given(target, events, step) matches Some(e) ==> (match step {
                    ForgetStep::State => e == ForgetNews::Read(a.files),
                    ForgetStep::Declined | ForgetStep::Failed => true,
                    _ => e is Succeeded,
                })
            }
        }),
{
    lemma_parting_after(target, events);
    let next = parting_next();
    let at = parting_at();
    let s = parting(target);
    let places = |k: ForgetStep| parting_place(k);
    let dead = |a: Parting| a.step == ForgetStep::Declined || a.step == ForgetStep::Failed;
    let inv = |a: Parting| parting_holds(a, target);
    let called = |a: Parting, k: ForgetStep| parting_calls_for(a, k);
    let past = |a: Parting| parting_place(a.step) > parting_place(step);
    let fact = |a: Parting, e: ForgetNews| parting_goes_by(a, step, e);
    assert forall|a: Parting, e: ForgetNews|
        inv(a) && !dead(a) && !dead(#[trigger] next(a, e)) implies inv(next(a, e)) by {
        lemma_parting_step(a, target, e, step);
    }
    assert forall|a: Parting, e: ForgetNews|
        inv(a) && !dead(a) && called(a, at(a)) && !dead(#[trigger] next(a, e)) implies {
        let b = next(a, e);
        &&& inv(b)
        &&& at(b) == at(a) ==> b == a
        &&& at(b) != at(a) ==> {
            &&& places(at(b)) > places(at(a))
            &&& called(b, at(b))
            &&& places(step) <= places(at(a)) ==> called(b, step) == called(a, step)
            &&& places(at(a)) < places(step) < places(at(b)) ==> !called(b, step)
        }
    } by {
        lemma_parting_step(a, target, e, step);
    }
    course::lemma_taken(next, at, places, dead, inv, called, s, events, step);
    assert forall|a: Parting, e: ForgetNews|
        inv(a) && !dead(a) && !dead(#[trigger] next(a, e)) && at(a) == step && at(next(a, e))
            != step implies past(next(a, e)) && fact(next(a, e), e) by {
        lemma_parting_step(a, target, e, step);
        lemma_parting_told(a, target, e, step, e);
    }
    assert forall|a: Parting, e: ForgetNews, e0: ForgetNews|
        #![trigger next(a, e), fact(a, e0)]
        inv(a) && !dead(a) && !dead(next(a, e)) && past(a) && fact(a, e0) implies past(next(a, e))
        && fact(next(a, e), e0) && at(a) != step by {
        lemma_parting_step(a, target, e, step);
        lemma_parting_told(a, target, e, step, e0);
    }
    course::lemma_told(next, at, dead, inv, past, fact, s, events, step);
}

/// Forgetting ends early where it was declined, or where a step failed: with the error of
/// that step, and for a tree whose lock someone holds with one that says so.
pub proof fn forgetting_ends_for_what_failed(p: Parting, news: ForgetNews)
    requires
        parting_place(p.step) >= 0,
        p.step != ForgetStep::Done,
    ensures
        parted(p, news).step == ForgetStep::Failed <==> news is Failure,
        parted(p, news).step == ForgetStep::Declined <==> p.step == ForgetStep::Confirm
            && news is No,
        news matches ForgetNews::Failure(e) ==> (if p.step == ForgetStep::Lock && e.code
            == "TREE_IN_USE"@ {
            parted(p, news).error == Some(in_use(p.target))
        } else {
            parted(p, news).error == Some(e)
        }),
{
}

/// A file that this program wrote is looked at, unless it lies in its own directory; and it
/// is its own exactly where what it holds is what was written.
pub proof fn what_is_this_programs_own(m: Materialized, now: Seq<char>)
    ensures
        looked_at(m) <==> m.kind == MaterializedKind::Rendered && m.path@ != ".wt"@ && !text::starts(
            m.path@,
            ".wt/"@,
        ),
        m.hash is Some ==> (is_own(m, Some(now)) <==> m.hash->0@ == now),
        !is_own(m, None),
{
}

/// A path stays on record exactly where it is one of those that count.
pub proof fn every_file_that_counts_is_kept(list: Seq<Materialized>, valid: Seq<bool>, y: Seq<char>)
    ensures
        kept_paths(list, valid).contains(y) <==> (exists|i: int|
            0 <= i < list.len() && valid[i] && y == (#[trigger] list[i]).path@),
    decreases list.len(),
{
    let all = kept_paths(list, valid);
    if list.len() > 0 {
        let rest = list.drop_last();
        let some = kept_paths(rest, valid);
        every_file_that_counts_is_kept(rest, valid, y);
        if all.contains(y) {
            let k = choose|k: int| 0 <= k < all.len() && all[k] == y;
            if k < some.len() {
                assert(some[k] == y);
                let i = choose|i: int| 0 <= i < rest.len() && valid[i] && y == (#[trigger] rest[i]).path@;
                assert(list[i] == rest[i]);
            } else {
                let i = rest.len() as int;
                assert(valid[i] && y == list[i].path@);
            }
        }
        if exists|i: int| 0 <= i < list.len() && valid[i] && y == (#[trigger] list[i]).path@ {
            let i = choose|i: int| 0 <= i < list.len() && valid[i] && y == (#[trigger] list[i]).path@;
            if i < rest.len() {
                assert(rest[i] == list[i]);
                let k = choose|k: int| 0 <= k < some.len() && some[k] == y;
                assert(all[k] == y);
            } else {
                assert(all[all.len() - 1] == y);
            }
        }
    }
}

} // verus!
