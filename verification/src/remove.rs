//! Removing a tree: the order in which it happens, what is looked at before
//! anything is destroyed, and what is reported of it.

use vstd::prelude::*;
use vstd::string::*;

use crate::course;
use crate::doctor;
use crate::error;
use crate::error::{CoreError, Details, ExitClass};
use crate::git;
use crate::git::StatusEntry;
use crate::order;
use crate::order::Keyed;
use crate::proc::ChildStatus;
use crate::text;

verus! {

broadcast use vstd::string::group_string_axioms;

// ---------------------------------------------------------------------------
// The order of a removal
// ---------------------------------------------------------------------------

/// What a removal does next.
#[derive(Clone, Copy, Debug, PartialEq, Eq, Structural)]
pub enum Step {
    /// Ask whether the plan is to be carried out.
    Confirm,
    /// Close the session.
    CloseSession,
    /// Take the tree's lock alone.
    LockTree,
    /// Look again, and hold what is seen against the plan.
    Revalidate,
    /// Record that the tree is being removed.
    Mark,
    /// Enter the tree and refresh what it declares.
    Enter,
    /// Read the tree's resources.
    ReadRecords,
    /// Destroy the resource at this place.
    Destroy(usize),
    /// Read what is left of the tree's record.
    Reread,
    /// Take the lock of the repository's git.
    LockGit,
    /// Remove the worktree.
    RemoveWorktree,
    /// Let git forget worktrees that are gone.
    PruneWorktrees,
    /// Delete the branch.
    DeleteBranch,
    /// Keep the entry of the tree, for what is left of its resources.
    KeepEntry,
    /// Put a tombstone in place of the tree's entry.
    Bury,
    /// Say what was done.
    Report,
    /// Say that nothing was done.
    ReportNothing,
    /// Fail with the first error of the resources.
    Fail,
}

/// What came of a step.
#[derive(Clone, Copy, Debug, PartialEq, Eq, Structural)]
pub enum Event {
    Confirmed(bool),
    Closed(bool),
    Locked,
    /// The plan still holds; whether the directory is there, and whether it is the
    /// tree's.
    Revalidated { dir_exists: bool, identity_ok: bool },
    Marked,
    Entered,
    /// How many resources there are.
    Records(usize),
    /// A resource was dealt with; whether it failed.
    Destroyed { failed: bool },
    /// Whether the entry is kept for what is left.
    Left { keep_entry: bool },
    GitLocked,
    GitDone,
    BranchDeleted,
    Kept,
    Buried,
}

/// A removal that is under way.
#[derive(Clone, Copy, Debug, PartialEq, Eq, Structural)]
pub struct Removal {
    pub dir_exists: bool,
    pub identity_ok: bool,
    pub session_live: bool,
    pub delete_branch: bool,
    pub step: Step,
    pub confirmed: bool,
    pub locked: bool,
    pub revalidated: bool,
    pub inside: bool,
    pub failed: bool,
    pub keep_entry: bool,
    pub records: usize,
    pub session_closed: bool,
    pub branch_deleted: bool,
}

/// What git is asked for: the worktree of a tree that is there goes; a directory
/// that took its place is left alone; where nothing is there, git forgets it.
pub open spec fn git_step(dir_exists: bool, identity_ok: bool) -> Option<Step> {
    if dir_exists && identity_ok {
        Some(Step::RemoveWorktree)
    } else if dir_exists {
        None
    } else {
        Some(Step::PruneWorktrees)
    }
}

/// What follows git's part.
pub open spec fn after_git(r: Removal) -> Step {
    if r.delete_branch {
        Step::DeleteBranch
    } else if r.keep_entry {
        Step::KeepEntry
    } else {
        Step::Bury
    }
}

/// A removal after something came of its step. What does not belong to the step
/// changes nothing.
pub open spec fn advanced(r: Removal, event: Event) -> Removal {
    match (r.step, event) {
        (Step::Confirm, Event::Confirmed(yes)) => Removal {
            confirmed: yes,
            step: if !yes {
                Step::ReportNothing
            } else if r.session_live {
                Step::CloseSession
            } else {
                Step::LockTree
            },
            ..r
        },
        (Step::CloseSession, Event::Closed(closed)) => Removal {
            session_closed: closed,
            step: Step::LockTree,
            ..r
        },
        (Step::LockTree, Event::Locked) => Removal { locked: true, step: Step::Revalidate, ..r },
        (Step::Revalidate, Event::Revalidated { dir_exists, identity_ok }) => Removal {
            revalidated: true,
            inside: dir_exists && identity_ok,
            step: Step::Mark,
            ..r
        },
        (Step::Mark, Event::Marked) => Removal {
            step: if r.inside {
                Step::Enter
            } else {
                Step::ReadRecords
            },
            ..r
        },
        (Step::Enter, Event::Entered) => Removal { step: Step::ReadRecords, ..r },
        (Step::ReadRecords, Event::Records(n)) => Removal {
            records: n,
            step: if n == 0 {
                Step::Reread
            } else {
                Step::Destroy(0)
            },
            ..r
        },
        (Step::Destroy(i), Event::Destroyed { failed }) => Removal {
            failed: r.failed || failed,
            step: if i + 1 < r.records {
                Step::Destroy((i + 1) as usize)
            } else {
                Step::Reread
            },
            ..r
        },
        (Step::Reread, Event::Left { keep_entry }) => Removal {
            keep_entry,
            step: if r.failed && !keep_entry {
                Step::Fail
            } else {
                Step::LockGit
            },
            ..r
        },
        (Step::LockGit, Event::GitLocked) => Removal {
            step: match git_step(r.dir_exists, r.identity_ok) {
                Some(step) => step,
                None => after_git(r),
            },
            ..r
        },
        (Step::RemoveWorktree, Event::GitDone) | (Step::PruneWorktrees, Event::GitDone) => Removal {
            step: after_git(r),
            ..r
        },
        (Step::DeleteBranch, Event::BranchDeleted) => Removal {
            branch_deleted: true,
            step: if r.keep_entry {
                Step::KeepEntry
            } else {
                Step::Bury
            },
            ..r
        },
        (Step::KeepEntry, Event::Kept) | (Step::Bury, Event::Buried) => Removal {
            step: Step::Report,
            ..r
        },
        _ => r,
    }
}

/// Whether a step comes before anything is touched.
pub open spec fn untouched(step: Step) -> bool {
    step == Step::Confirm || step == Step::CloseSession || step == Step::LockTree || step
        == Step::Revalidate || step == Step::ReportNothing
}

/// How a removal begins: nothing was done or found yet.
pub open spec fn begun(
    dir_exists: bool,
    identity_ok: bool,
    session_live: bool,
    delete_branch: bool,
) -> Removal {
    Removal {
        dir_exists,
        identity_ok,
        session_live,
        delete_branch,
        step: Step::Confirm,
        confirmed: false,
        locked: false,
        revalidated: false,
        inside: false,
        failed: false,
        keep_entry: false,
        records: 0,
        session_closed: false,
        branch_deleted: false,
    }
}

impl Removal {
    /// What holds of a removal at every step: nothing of the tree is touched before
    /// it was confirmed, locked and held against the plan; only the worktree of the
    /// tree itself is removed; and no error of a resource is passed over unless the
    /// entry is kept.
    pub open spec fn wf(self) -> bool {
        &&& (self.step != Step::Confirm && self.step != Step::ReportNothing) ==> self.confirmed
        &&& self.step == Step::Revalidate ==> self.locked
        &&& !untouched(self.step) ==> self.locked && self.revalidated
        &&& self.step == Step::RemoveWorktree ==> self.dir_exists && self.identity_ok
        &&& self.step == Step::PruneWorktrees ==> !self.dir_exists
        &&& self.step == Step::Enter ==> self.inside
        &&& (self.step matches Step::Destroy(i) ==> i < self.records)
        &&& (self.step == Step::LockGit || self.step == Step::RemoveWorktree || self.step
            == Step::PruneWorktrees || self.step == Step::DeleteBranch || self.step
            == Step::KeepEntry || self.step == Step::Bury || self.step == Step::Report)
            ==> (!self.failed || self.keep_entry)
        &&& self.step == Step::Bury ==> !self.keep_entry
        &&& self.step == Step::DeleteBranch ==> self.delete_branch
        &&& self.branch_deleted ==> self.delete_branch
        &&& self.session_closed ==> self.session_live
        &&& self.step == Step::Fail ==> self.failed
    }

    /// Begins a removal with what was seen of the tree: whether its directory is
    /// there and is its own, whether a session runs, and whether a branch is to go
    /// with it.
    pub fn new(dir_exists: bool, identity_ok: bool, session_live: bool, delete_branch: bool) -> (r:
        Self)
        ensures
            r.wf(),
            r == begun(dir_exists, identity_ok, session_live, delete_branch),
    {
        Removal {
            dir_exists,
            identity_ok,
            session_live,
            delete_branch,
            step: Step::Confirm,
            confirmed: false,
            locked: false,
            revalidated: false,
            inside: false,
            failed: false,
            keep_entry: false,
            records: 0,
            session_closed: false,
            branch_deleted: false,
        }
    }

    fn after_git(&self) -> (r: Step)
        ensures
            r == after_git(*self),
    {
        if self.delete_branch {
            Step::DeleteBranch
        } else if self.keep_entry {
            Step::KeepEntry
        } else {
            Step::Bury
        }
    }

    /// Takes what came of the step, and goes on to the next.
    #[verifier::spinoff_prover]
    #[verifier::rlimit(40)]
    pub fn advance(&mut self, event: Event)
        requires
            old(self).wf(),
            event matches Event::Closed(closed) ==> (closed ==> old(self).session_live),
        ensures
            final(self).wf(),
            *final(self) == advanced(*old(self), event),
    {
        match (self.step, event) {
            (Step::Confirm, Event::Confirmed(yes)) => {
                self.confirmed = yes;
                self.step = if !yes {
                    Step::ReportNothing
                } else if self.session_live {
                    Step::CloseSession
                } else {
                    Step::LockTree
                };
            },
            (Step::CloseSession, Event::Closed(closed)) => {
                self.session_closed = closed;
                self.step = Step::LockTree;
            },
            (Step::LockTree, Event::Locked) => {
                self.locked = true;
                self.step = Step::Revalidate;
            },
            (Step::Revalidate, Event::Revalidated { dir_exists, identity_ok }) => {
                self.revalidated = true;
                self.inside = dir_exists && identity_ok;
                self.step = Step::Mark;
            },
            (Step::Mark, Event::Marked) => {
                self.step = if self.inside {
                    Step::Enter
                } else {
                    Step::ReadRecords
                };
            },
            (Step::Enter, Event::Entered) => {
                self.step = Step::ReadRecords;
            },
            (Step::ReadRecords, Event::Records(n)) => {
                self.records = n;
                self.step = if n == 0 {
                    Step::Reread
                } else {
                    Step::Destroy(0)
                };
            },
            (Step::Destroy(i), Event::Destroyed { failed }) => {
                self.failed = self.failed || failed;
                self.step = if i < self.records - 1 {
                    Step::Destroy(i + 1)
                } else {
                    Step::Reread
                };
            },
            (Step::Reread, Event::Left { keep_entry }) => {
                self.keep_entry = keep_entry;
                self.step = if self.failed && !keep_entry {
                    Step::Fail
                } else {
                    Step::LockGit
                };
            },
            (Step::LockGit, Event::GitLocked) => {
                self.step = if self.dir_exists && self.identity_ok {
                    Step::RemoveWorktree
                } else if self.dir_exists {
                    self.after_git()
                } else {
                    Step::PruneWorktrees
                };
            },
            (Step::RemoveWorktree, Event::GitDone) => {
                self.step = self.after_git();
            },
            (Step::PruneWorktrees, Event::GitDone) => {
                self.step = self.after_git();
            },
            (Step::DeleteBranch, Event::BranchDeleted) => {
                self.branch_deleted = true;
                self.step = if self.keep_entry {
                    Step::KeepEntry
                } else {
                    Step::Bury
                };
            },
            (Step::KeepEntry, Event::Kept) => {
                self.step = Step::Report;
            },
            (Step::Bury, Event::Buried) => {
                self.step = Step::Report;
            },
            _ => {},
        }
    }
}

/// A removal after a row of events.
pub open spec fn advanced_all(r: Removal, events: Seq<Event>) -> Removal
    decreases events.len(),
{
    if events.len() == 0 {
        r
    } else {
        advanced(advanced_all(r, events.drop_last()), events.last())
    }
}

/// A directory that took the place of a tree is never removed, and git is not asked
/// about it, whatever happens while the tree's entry is removed.
pub proof fn a_replacement_is_never_removed(r: Removal, events: Seq<Event>)
    requires
        r.step == Step::Confirm,
        r.dir_exists,
        !r.identity_ok,
    ensures
        advanced_all(r, events).step != Step::RemoveWorktree,
        advanced_all(r, events).step != Step::PruneWorktrees,
        advanced_all(r, events).dir_exists && !advanced_all(r, events).identity_ok,
    decreases events.len(),
{
    if events.len() > 0 {
        a_replacement_is_never_removed(r, events.drop_last());
    }
}

/// Nothing of a tree is touched without consent, its lock and a second look: a
/// removal that has come so far was confirmed, locked and held against the plan.
pub proof fn nothing_is_touched_unseen(r: Removal, events: Seq<Event>)
    requires
        r.step == Step::Confirm,
        !r.confirmed && !r.locked && !r.revalidated,
    ensures
        !untouched(advanced_all(r, events).step) ==> advanced_all(r, events).confirmed
            && advanced_all(r, events).locked && advanced_all(r, events).revalidated,
        advanced_all(r, events).step == Step::CloseSession ==> advanced_all(r, events).confirmed,
        (advanced_all(r, events).step == Step::LockTree || advanced_all(r, events).step
            == Step::Revalidate) ==> advanced_all(r, events).confirmed,
        advanced_all(r, events).step == Step::Revalidate ==> advanced_all(r, events).locked,
    decreases events.len(),
{
    if events.len() > 0 {
        nothing_is_touched_unseen(r, events.drop_last());
    }
}

/// An entry is buried only where every resource was destroyed without an error.
pub proof fn no_entry_is_buried_over_an_error(r: Removal, events: Seq<Event>)
    requires
        r.step == Step::Confirm,
    ensures
        advanced_all(r, events).step == Step::Bury ==> !advanced_all(r, events).failed,
    decreases events.len(),
{
    lemma_failed_is_kept(r, events);
}

proof fn lemma_failed_is_kept(r: Removal, events: Seq<Event>)
    requires
        r.step == Step::Confirm,
    ensures
        ({
            let now = advanced_all(r, events);
            let late = now.step == Step::LockGit || now.step == Step::RemoveWorktree || now.step
                == Step::PruneWorktrees || now.step == Step::DeleteBranch || now.step
                == Step::KeepEntry || now.step == Step::Bury || now.step == Step::Report;
            late ==> (!now.failed || now.keep_entry) && (now.step == Step::Bury ==> !now.keep_entry)
        }),
    decreases events.len(),
{
    if events.len() > 0 {
        lemma_failed_is_kept(r, events.drop_last());
    }
}

/// The place of a step in the order in which steps come.
pub open spec fn removal_place(step: Step) -> int {
    match step {
        Step::Confirm => 0,
        Step::CloseSession => 1,
        Step::LockTree => 2,
        Step::Revalidate => 3,
        Step::Mark => 4,
        Step::Enter => 5,
        Step::ReadRecords => 6,
        Step::Destroy(i) => 7 + i,
        Step::Reread => usize::MAX + 8,
        Step::LockGit => usize::MAX + 9,
        Step::RemoveWorktree => usize::MAX + 10,
        Step::PruneWorktrees => usize::MAX + 11,
        Step::DeleteBranch => usize::MAX + 12,
        Step::KeepEntry => usize::MAX + 13,
        Step::Bury => usize::MAX + 14,
        Step::Report => usize::MAX + 15,
        Step::ReportNothing => -1,
        Step::Fail => -1,
    }
}

/// Whether a step is called for.
pub open spec fn removal_calls_for(a: Removal, step: Step) -> bool {
    match step {
        Step::CloseSession => a.session_live,
        Step::Enter => a.inside,
        Step::Destroy(i) => i < a.records,
        Step::RemoveWorktree => a.dir_exists && a.identity_ok,
        Step::PruneWorktrees => !a.dir_exists,
        Step::DeleteBranch => a.delete_branch,
        Step::KeepEntry => a.keep_entry,
        Step::Bury => !a.keep_entry,
        _ => true,
    }
}

/// What holds at every step.
pub open spec fn removal_holds(a: Removal, dir_exists: bool, identity_ok: bool, session_live: bool, delete_branch: bool) -> bool {
    &&& removal_calls_for(a, a.step)
    &&& a.dir_exists == dir_exists && a.identity_ok == identity_ok
    &&& a.session_live == session_live && a.delete_branch == delete_branch
    &&& (removal_place(a.step) > removal_place(Step::Confirm) ==> a.confirmed)
    &&& (removal_place(a.step) > removal_place(Step::Reread) ==> !a.failed || a.keep_entry)
    &&& (a.branch_deleted <==> delete_branch && removal_place(a.step) > removal_place(Step::DeleteBranch))
    &&& (!session_live ==> !a.session_closed)
}

/// What an answer to a step is gone by.
pub open spec fn removal_goes_by(a: Removal, step: Step, e: Event) -> bool {
    match step {
        Step::CloseSession => e == Event::Closed(a.session_closed),
        Step::Revalidate => e matches Event::Revalidated { dir_exists, identity_ok } && a.inside == (dir_exists && identity_ok),
        Step::ReadRecords => e == Event::Records(a.records),
        Step::Destroy(i) => e matches Event::Destroyed { failed } && (failed ==> a.failed),
        Step::Reread => e == Event::Left { keep_entry: a.keep_entry },
        _ => true,
    }
}

/// How it goes on.
pub open spec fn removal_next() -> spec_fn(Removal, Event) -> Removal {
    |a: Removal, e: Event| advanced(a, e)
}

/// The step that it is at.
pub open spec fn removal_at() -> spec_fn(Removal) -> Step {
    |a: Removal| a.step
}

/// What a step was answered with, where it was taken and left again.
pub open spec fn removal_given(dir_exists: bool, identity_ok: bool, session_live: bool, delete_branch: bool, events: Seq<Event>, step: Step) -> Option<Event> {
    course::answered(removal_next(), removal_at(), begun(dir_exists, identity_ok, session_live, delete_branch), events, step)
}

proof fn lemma_removal_after(dir_exists: bool, identity_ok: bool, session_live: bool, delete_branch: bool, events: Seq<Event>)
    ensures
        advanced_all(begun(dir_exists, identity_ok, session_live, delete_branch), events) == course::after(removal_next(), begun(dir_exists, identity_ok, session_live, delete_branch), events),
    decreases events.len(),
{
    if events.len() > 0 {
        lemma_removal_after(dir_exists, identity_ok, session_live, delete_branch, events.drop_last());
    }
}

#[verifier::spinoff_prover]
proof fn lemma_removal_step(a: Removal, dir_exists: bool, identity_ok: bool, session_live: bool, delete_branch: bool, e: Event, k: Step)
    requires
        !(a.step == Step::Fail || a.step == Step::ReportNothing),
        removal_holds(a, dir_exists, identity_ok, session_live, delete_branch),
        !(advanced(a, e).step == Step::Fail || advanced(a, e).step == Step::ReportNothing),
    ensures
        ({
            let b = advanced(a, e);
            &&& removal_holds(b, dir_exists, identity_ok, session_live, delete_branch)
            &&& b.step == a.step ==> b == a
            &&& b.step != a.step ==> {
                &&& removal_place(b.step) > removal_place(a.step)
                &&& removal_place(k) <= removal_place(a.step) ==> removal_calls_for(b, k) == removal_calls_for(a, k)
                &&& removal_place(a.step) < removal_place(k) < removal_place(b.step) ==> !removal_calls_for(b, k)
            }
        }),
{
}

#[verifier::spinoff_prover]
proof fn lemma_removal_told(a: Removal, dir_exists: bool, identity_ok: bool, session_live: bool, delete_branch: bool, e: Event, k: Step, e0: Event)
    requires
        !(a.step == Step::Fail || a.step == Step::ReportNothing),
        removal_holds(a, dir_exists, identity_ok, session_live, delete_branch),
        !(advanced(a, e).step == Step::Fail || advanced(a, e).step == Step::ReportNothing),
    ensures
        a.step == k && advanced(a, e).step != k ==> removal_goes_by(advanced(a, e), k, e),
        removal_place(a.step) > removal_place(k) && removal_goes_by(a, k, e0) ==> removal_goes_by(advanced(a, e), k, e0),
{
}

/// Each step of a removal is taken where it is called for, and nowhere else, whatever the
/// events: a session that runs is closed; a tree that is there and its own is entered and
/// its worktree removed; one that is gone is pruned; every resource is dealt with; the
/// branch is deleted exactly where that was asked for, whatever else holds; and the entry
/// is kept where something of it is left, and else buried.
pub proof fn a_removal_does_what_it_is_called_for(dir_exists: bool, identity_ok: bool, session_live: bool, delete_branch: bool, events: Seq<Event>, step: Step)
    requires
        removal_place(begun(dir_exists, identity_ok, session_live, delete_branch).step) <= removal_place(step),
    ensures
        ({
            let a = advanced_all(begun(dir_exists, identity_ok, session_live, delete_branch), events);
            !(a.step == Step::Fail || a.step == Step::ReportNothing) ==> {
                &&& (match a.step {
                    Step::CloseSession => a.session_live,
                    Step::Enter => a.inside,
                    Step::Destroy(i) => i < a.records,
                    Step::RemoveWorktree => a.dir_exists && a.identity_ok,
                    Step::PruneWorktrees => !a.dir_exists,
                    Step::DeleteBranch => a.delete_branch,
                    Step::KeepEntry => a.keep_entry,
                    Step::Bury => !a.keep_entry,
                    _ => true,
                })
                &&& a.dir_exists == dir_exists && a.identity_ok == identity_ok
                &&& a.session_live == session_live && a.delete_branch == delete_branch
                &&& (removal_place(a.step) > removal_place(Step::Confirm) ==> a.confirmed)
                &&& (removal_place(a.step) > removal_place(Step::Reread) ==> !a.failed || a.keep_entry)
                &&& (a.branch_deleted <==> delete_branch && removal_place(a.step) > removal_place(Step::DeleteBranch))
                &&& (!session_live ==> !a.session_closed)
                &&& removal_place(a.step) > removal_place(step) ==> (removal_given(dir_exists, identity_ok, session_live, delete_branch, events, step) is Some
                    <==> (match step {
                            Step::CloseSession => a.session_live,
                            Step::Enter => a.inside,
                            Step::Destroy(i) => i < a.records,
                            Step::RemoveWorktree => a.dir_exists && a.identity_ok,
                            Step::PruneWorktrees => !a.dir_exists,
                            Step::DeleteBranch => a.delete_branch,
                            Step::KeepEntry => a.keep_entry,
                            Step::Bury => !a.keep_entry,
                            _ => true,
                        }))
                &&& removal_place(a.step) <= removal_place(step) ==> removal_given(dir_exists, identity_ok, session_live, delete_branch, events, step) is None
                &&& removal_given(dir_exists, identity_ok, session_live, delete_branch, events, step) matches Some(e) ==> (match step {
                    Step::CloseSession => e == Event::Closed(a.session_closed),
                    Step::Revalidate => e matches Event::Revalidated { dir_exists, identity_ok } && a.inside == (dir_exists && identity_ok),
                    Step::ReadRecords => e == Event::Records(a.records),
                    Step::Destroy(i) => e matches Event::Destroyed { failed } && (failed ==> a.failed),
                    Step::Reread => e == Event::Left { keep_entry: a.keep_entry },
                    _ => true,
                })
            }
        }),
{
    lemma_removal_after(dir_exists, identity_ok, session_live, delete_branch, events);
    let next = removal_next();
    let at = removal_at();
    let s = begun(dir_exists, identity_ok, session_live, delete_branch);
    let places = |k: Step| removal_place(k);
    let dead = |a: Removal| a.step == Step::Fail || a.step == Step::ReportNothing;
    let inv = |a: Removal| removal_holds(a, dir_exists, identity_ok, session_live, delete_branch);
    let called = |a: Removal, k: Step| removal_calls_for(a, k);
    let past = |a: Removal| removal_place(a.step) > removal_place(step);
    let fact = |a: Removal, e: Event| removal_goes_by(a, step, e);
    assert forall|a: Removal, e: Event|
        inv(a) && !dead(a) && !dead(#[trigger] next(a, e)) implies inv(next(a, e)) by {
        lemma_removal_step(a, dir_exists, identity_ok, session_live, delete_branch, e, step);
    }
    assert forall|a: Removal, e: Event|
        inv(a) && !dead(a) && called(a, at(a)) && !dead(#[trigger] next(a, e)) implies {
        let b = next(a, e);
        &&& inv(b)
        &&& at(b) == at(a) ==> b == a
        &&& at(b) != at(a) ==> {
            &&& places(at(b)) > places(at(a))
            &&& called(b, at(b))
            &&& places(step) <= places(at(a)) ==> called(b, step) == called(a, step)
            &&& places(at(a)) < places(step) < places(at(b)) ==> !called(b, step)
        }
    } by {
        lemma_removal_step(a, dir_exists, identity_ok, session_live, delete_branch, e, step);
    }
    course::lemma_taken(next, at, places, dead, inv, called, s, events, step);
    assert forall|a: Removal, e: Event|
        inv(a) && !dead(a) && !dead(#[trigger] next(a, e)) && at(a) == step && at(next(a, e))
            != step implies past(next(a, e)) && fact(next(a, e), e) by {
        lemma_removal_step(a, dir_exists, identity_ok, session_live, delete_branch, e, step);
        lemma_removal_told(a, dir_exists, identity_ok, session_live, delete_branch, e, step, e);
    }
    assert forall|a: Removal, e: Event, e0: Event|
        #![trigger next(a, e), fact(a, e0)]
        inv(a) && !dead(a) && !dead(next(a, e)) && past(a) && fact(a, e0) implies past(next(a, e))
        && fact(next(a, e), e0) && at(a) != step by {
        lemma_removal_step(a, dir_exists, identity_ok, session_live, delete_branch, e, step);
        lemma_removal_told(a, dir_exists, identity_ok, session_live, delete_branch, e, step, e0);
    }
    course::lemma_told(next, at, dead, inv, past, fact, s, events, step);
}

/// The branch goes where that was asked for: a removal that is past git's part has deleted
/// it, and else has left it alone.
pub proof fn a_branch_goes_where_that_was_asked_for(
    dir_exists: bool,
    identity_ok: bool,
    session_live: bool,
    delete_branch: bool,
    events: Seq<Event>,
)
    ensures
        ({
            let r = advanced_all(
                begun(dir_exists, identity_ok, session_live, delete_branch),
                events,
            );
            (r.step == Step::Bury || r.step == Step::KeepEntry || r.step == Step::Report)
                ==> r.branch_deleted == delete_branch
        }),
{
    a_removal_does_what_it_is_called_for(
        dir_exists,
        identity_ok,
        session_live,
        delete_branch,
        events,
        Step::Confirm,
    );
}

/// A removal comes to nothing only where it was declined, and fails only where a resource
/// failed and nothing of it is left to keep the entry for.
pub proof fn a_removal_stops_where_it_must(r: Removal, event: Event)
    requires
        r.step != Step::Fail,
        r.step != Step::ReportNothing,
    ensures
        advanced(r, event).step == Step::ReportNothing <==> (r.step == Step::Confirm && event
            == Event::Confirmed(false)),
        advanced(r, event).step == Step::Fail <==> (r.step == Step::Reread && r.failed && event
            == Event::Left { keep_entry: false }),
        advanced(r, event).failed <==> (r.failed || (r.step is Destroy && event
            == Event::Destroyed { failed: true })),
{
}

// ---------------------------------------------------------------------------
// Resources
// ---------------------------------------------------------------------------

/// What became of a resource, and how the child ended that tore it down, where there
/// was one.
#[derive(Debug)]
pub struct DestroyedReport {
    pub scope: String,
    pub task: String,
    pub state: String,
    pub child: Option<ChildStatus>,
}

/// What a report of a resource says.
pub struct Fate {
    pub scope: Seq<char>,
    pub task: Seq<char>,
    pub state: Seq<char>,
    pub child: Option<ChildStatus>,
}

impl View for DestroyedReport {
    type V = Fate;

    open spec fn view(&self) -> Fate {
        Fate { scope: self.scope@, task: self.task@, state: self.state@, child: self.child }
    }
}

/// What reports of resources say.
pub open spec fn fates(reports: Seq<DestroyedReport>) -> Seq<Fate> {
    reports.map_values(|d: DestroyedReport| d@)
}

/// The resources that were dealt with, and the first error.
#[derive(Debug)]
pub struct Destruction {
    pub destroyed: Vec<DestroyedReport>,
    pub first_error: Option<CoreError>,
}

impl Destruction {
    /// Nothing was dealt with.
    pub fn new() -> (r: Self)
        ensures
            fates(r.destroyed@) == Seq::<Fate>::empty(),
            r.first_error is None,
    {
        let r = Destruction { destroyed: Vec::new(), first_error: None };
        proof {
            assert(fates(r.destroyed@) =~= Seq::<Fate>::empty());
        }
        r
    }

    /// Takes what became of a resource. One whose teardown failed is orphaned.
    pub fn dealt_with(
        &mut self,
        scope: &str,
        task: &str,
        result: Result<(String, Option<ChildStatus>), CoreError>,
    )
        ensures
            fates(final(self).destroyed@) == fates(old(self).destroyed@).push(
                Fate {
                    scope: scope@,
                    task: task@,
                    state: match result {
                        Ok(done) => done.0@,
                        Err(_) => "orphaned"@,
                    },
                    child: match result {
                        Ok(done) => done.1,
                        Err(_) => None,
                    },
                },
            ),
            final(self).first_error == match (old(self).first_error, result) {
                (None, Err(e)) => Some(e),
                (first, _) => first,
            },
    {
        let ghost before = fates(self.destroyed@);
        let (state, child) = match result {
            Ok(done) => done,
            Err(error) => {
                if self.first_error.is_none() {
                    self.first_error = Some(error);
                }
                ("orphaned".to_owned(), None)
            },
        };
        let one = DestroyedReport { scope: scope.to_owned(), task: task.to_owned(), state, child };
        let ghost o = one@;
        self.destroyed.push(one);
        proof {
            assert(fates(self.destroyed@) =~= before.push(o));
        }
    }
}

/// What is reported of a removal.
#[derive(Debug)]
pub struct RemoveData {
    pub target: String,
    pub removed: bool,
    pub destroyed: Vec<DestroyedReport>,
    pub orphans_kept: Vec<String>,
    pub branch_deleted: bool,
    pub session_closed: bool,
}

/// What a report of a removal says.
#[verifier::ext_equal]
pub struct Gone {
    pub target: Seq<char>,
    pub removed: bool,
    pub destroyed: Seq<Fate>,
    pub orphans_kept: Seq<Seq<char>>,
    pub branch_deleted: bool,
    pub session_closed: bool,
}

impl View for RemoveData {
    type V = Gone;

    open spec fn view(&self) -> Gone {
        Gone {
            target: self.target@,
            removed: self.removed,
            destroyed: fates(self.destroyed@),
            orphans_kept: text::texts(self.orphans_kept@),
            branch_deleted: self.branch_deleted,
            session_closed: self.session_closed,
        }
    }
}

/// The report of a removal that did nothing.
pub fn nothing_removed(target: &str) -> (r: RemoveData)
    ensures
        r.target@ == target@,
        !r.removed,
        r.destroyed@.len() == 0,
        r.orphans_kept@.len() == 0,
        !r.branch_deleted,
        !r.session_closed,
{
    RemoveData {
        target: target.to_owned(),
        removed: false,
        destroyed: Vec::new(),
        orphans_kept: Vec::new(),
        branch_deleted: false,
        session_closed: false,
    }
}

/// The report of a removal that came to its end; `left` holds the resources that
/// the entry was kept for.
pub fn removed(target: &str, removal: &Removal, destruction: Destruction, left: Vec<String>) -> (r:
    RemoveData)
    ensures
        r.target@ == target@,
        r.removed,
        r.destroyed == destruction.destroyed,
        text::texts(r.orphans_kept@) == if removal.keep_entry {
            text::texts(left@)
        } else {
            Seq::<Seq<char>>::empty()
        },
        r.branch_deleted == removal.branch_deleted,
        r.session_closed == removal.session_closed,
{
    let orphans_kept = if removal.keep_entry {
        left
    } else {
        Vec::new()
    };
    proof {
        if !removal.keep_entry {
            assert(text::texts(orphans_kept@) =~= Seq::<Seq<char>>::empty());
        }
    }
    RemoveData {
        target: target.to_owned(),
        removed: true,
        destroyed: destruction.destroyed,
        orphans_kept,
        branch_deleted: removal.branch_deleted,
        session_closed: removal.session_closed,
    }
}

// ---------------------------------------------------------------------------
// Who uses a tree
// ---------------------------------------------------------------------------

/// A process behind a door of a tree.
#[derive(Debug)]
pub struct DoorHolder {
    pub pid: u32,
    pub verb: String,
    pub since: String,
}

/// What is known of a process behind a door.
#[verifier::ext_equal]
pub struct Behind {
    pub pid: u32,
    pub verb: Seq<char>,
    pub since: Seq<char>,
}

impl View for DoorHolder {
    type V = Behind;

    open spec fn view(&self) -> Behind {
        Behind { pid: self.pid, verb: self.verb@, since: self.since@ }
    }
}

/// What is known of processes behind doors.
pub open spec fn behind(holders: Seq<DoorHolder>) -> Seq<Behind> {
    holders.map_values(|h: DoorHolder| h@)
}

/// A copy of processes behind doors.
pub fn copy_holders(holders: &Vec<DoorHolder>) -> (r: Vec<DoorHolder>)
    ensures
        behind(r@) == behind(holders@),
{
    let mut out: Vec<DoorHolder> = Vec::new();
    let mut i: usize = 0;
    while i < holders.len()
        invariant
            i <= holders.len(),
            out@.len() == i,
            forall|k: int| 0 <= k < i ==> (#[trigger] out@[k])@ == holders@[k]@,
        decreases holders.len() - i,
    {
        let h = &holders[i];
        out.push(DoorHolder { pid: h.pid, verb: h.verb.clone(), since: h.since.clone() });
        i = i + 1;
    }
    proof {
        assert(behind(out@) =~= behind(holders@));
    }
    out
}

impl Keyed for DoorHolder {
    open spec fn key(&self) -> Seq<Seq<int>> {
        seq![seq![self.pid as int], order::ranks(self.verb@), order::ranks(self.since@)]
    }

    fn sort_key(&self) -> (r: Vec<Vec<u64>>) {
        let mut key: Vec<Vec<u64>> = Vec::new();
        key.push(order::number_part(self.pid as u64));
        key.push(order::text_part(self.verb.as_str()));
        key.push(order::text_part(self.since.as_str()));
        proof {
            assert(order::key_view(key@) =~= seq![
                seq![self.pid as int],
                order::ranks(self.verb@),
                order::ranks(self.since@),
            ]);
        }
        key
    }
}

/// What was seen of a door's file: whether it is held, and by whom where that is
/// known.
#[derive(Debug)]
pub struct DoorSeen {
    pub held: bool,
    pub holder: Option<DoorHolder>,
}

/// The known holders of the doors that are held.
pub open spec fn held_by(doors: Seq<DoorSeen>) -> Seq<DoorHolder>
    decreases doors.len(),
{
    if doors.len() == 0 {
        Seq::<DoorHolder>::empty()
    } else {
        let rest = held_by(doors.drop_last());
        match doors.last().holder {
            Some(holder) if doors.last().held => rest.push(holder),
            _ => rest,
        }
    }
}

/// Who uses a tree, in the order of the processes.
pub fn door_holders(doors: Vec<DoorSeen>) -> (r: Vec<DoorHolder>)
    ensures
        r@ == order::sorted(held_by(doors@)),
{
    let ghost all = doors@;
    let mut doors = doors;
    let mut back: Vec<DoorHolder> = Vec::new();
    let ghost mut rest = Seq::<DoorHolder>::empty();
    proof {
        assert(all.take(all.len() as int) =~= all);
        assert(held_by(all) + rest =~= held_by(all));
    }
    while doors.len() > 0
        invariant
            doors@.len() <= all.len(),
            doors@ == all.take(doors@.len() as int),
            rest == back@.reverse(),
            held_by(doors@) + rest == held_by(all),
        decreases doors@.len(),
    {
        let ghost now = doors@;
        let door = doors.pop();
        if let Some(door) = door {
            let ghost d = door;
            proof {
                assert(now.drop_last() =~= all.take(now.len() - 1));
            }
            if door.held {
                if let Some(holder) = door.holder {
                    let ghost h = holder;
                    let ghost was = back@;
                    back.push(holder);
                    proof {
                        assert(back@.reverse() =~= seq![h] + was.reverse());
                        assert(held_by(now) == held_by(now.drop_last()).push(h));
                        assert(held_by(now.drop_last()).push(h) + rest =~= held_by(now.drop_last())
                            + (seq![h] + rest));
                        rest = seq![h] + rest;
                    }
                }
            }
        }
    }
    proof {
        assert(held_by(doors@) =~= Seq::<DoorHolder>::empty());
        assert(Seq::<DoorHolder>::empty() + rest =~= rest);
    }
    let mut found: Vec<DoorHolder> = Vec::new();
    let ghost reversed = back@;
    while back.len() > 0
        invariant
            back@.len() <= reversed.len(),
            back@ == reversed.take(back@.len() as int),
            found@ == reversed.skip(back@.len() as int).reverse(),
        decreases back@.len(),
    {
        let ghost n = back@.len() as int;
        if let Some(holder) = back.pop() {
            let ghost h = holder;
            found.push(holder);
            proof {
                assert(reversed.skip(n - 1) =~= seq![h] + reversed.skip(n));
                assert(found@ =~= reversed.skip(n - 1).reverse());
            }
        }
    }
    proof {
        assert(reversed.skip(0) =~= reversed);
    }
    order::sort(found)
}

/// The error of a lock that others hold: who they are is said where it is known, and
/// told in any case.
pub fn in_use(error: &CoreError, holders: &Vec<DoorHolder>) -> (r: CoreError)
    ensures
        r@ == if error@.code == "TREE_IN_USE"@ {
            error::Fault {
                message: if holders@.len() > 0 {
                    "tree is in use by "@ + text::join(doctor::door_texts(holders@), ", "@)
                } else {
                    error@.message
                },
                details: error::Told::Holders(behind(holders@)),
                ..error@
            }
        } else {
            error@
        },
{
    if text::same(error.code.as_str(), "TREE_IN_USE") {
        let message = if holders.len() > 0 {
            let doors = doctor::doors_text(holders);
            let joined = text::join_with(&doors, ", ");
            "tree is in use by ".to_owned().concat(joined.as_str())
        } else {
            error.message.clone()
        };
        CoreError::new(
            error.class,
            error.code.as_str(),
            message.as_str(),
            error.remedy.as_str(),
        ).with_details(Details::Holders(copy_holders(holders)))
    } else {
        error.copy()
    }
}

/// The error of a record that is gone in the middle of a removal.
pub fn state_disappeared() -> (r: CoreError)
    ensures
        r@ == error::fault(
            ExitClass::State,
            "STATE_CORRUPT"@,
            "tree state disappeared during removal"@,
            "run `wt doctor`"@,
        ),
{
    CoreError::new(
        ExitClass::State,
        "STATE_CORRUPT",
        "tree state disappeared during removal",
        "run `wt doctor`",
    )
}

// ---------------------------------------------------------------------------
// What git says of a tree
// ---------------------------------------------------------------------------

/// How a branch stands to its upstream.
#[derive(Clone, Copy, Debug, PartialEq, Eq, Structural)]
pub enum Upstream {
    Absent,
    Present,
    Gone,
}

/// What git was asked about a tree: the entries of its status, its branch, the
/// tracking marker and upstream of the branch and how far it is ahead, the remote
/// branches that hold HEAD, and how HEAD stands to origin's default branch where
/// there is one.
#[derive(Debug)]
pub struct GitAnswers {
    pub status: Vec<StatusEntry>,
    pub branch: Option<String>,
    pub track: String,
    pub upstream: Option<String>,
    pub ahead: u64,
    pub remote_branches: Vec<String>,
    pub default: Option<doctor::DefaultFacts>,
    pub head: Option<String>,
}

/// What is known of a tree from git.
#[derive(Debug)]
pub struct GitObs {
    pub dirty_porcelain: String,
    pub upstream: Upstream,
    pub ahead: u32,
    pub remote_contains_head: bool,
    pub detached: bool,
    pub merged: bool,
}

/// A line of a status.
pub open spec fn status_line(c: git::Change) -> Seq<char> {
    seq![c.index, c.worktree, ' '] + text::utf8_lossy(c.path)
}

/// The lines of a status.
pub open spec fn status_lines(entries: Seq<StatusEntry>) -> Seq<Seq<char>> {
    entries.map_values(|e: StatusEntry| status_line(e@))
}

/// How a branch stands to its upstream, and how far it is ahead of it.
pub open spec fn standing(a: GitAnswers) -> (Upstream, int) {
    if a.branch is None {
        (Upstream::Absent, 0)
    } else if a.track@ == "[gone]"@ {
        (Upstream::Gone, 0)
    } else if a.upstream is Some {
        (
            Upstream::Present,
            if a.ahead > u32::MAX {
                u32::MAX as int
            } else {
                a.ahead as int
            },
        )
    } else {
        (Upstream::Absent, 0)
    }
}

/// Whether HEAD lies before the default branch and is not its end.
pub open spec fn is_merged(a: GitAnswers) -> bool {
    match a.default {
        Some(d) => d.ancestor && text::opt(a.head) != text::opt(d.commit),
        None => false,
    }
}

fn lines_of(entries: &Vec<StatusEntry>) -> (r: Vec<String>)
    ensures
        text::texts(r@) == status_lines(entries@),
{
    let mut out: Vec<String> = Vec::new();
    let mut i: usize = 0;
    while i < entries.len()
        invariant
            i <= entries.len(),
            out@.len() == i,
            forall|k: int| 0 <= k < i ==> (#[trigger] out@[k])@ == status_line(entries@[k]@),
        decreases entries.len() - i,
    {
        let mut line = String::new();
        line.push(entries[i].index);
        line.push(entries[i].worktree);
        line.push(' ');
        proof {
            assert(line@ =~= seq![entries@[i as int].index, entries@[i as int].worktree, ' ']);
        }
        let path = text::lossy(entries[i].path.as_slice());
        out.push(line.concat(path.as_str()));
        i = i + 1;
    }
    proof {
        assert(text::texts(out@) =~= status_lines(entries@));
    }
    out
}

/// Makes out what is known of a tree from git.
pub fn observe_git(a: &GitAnswers) -> (r: GitObs)
    ensures
        r.dirty_porcelain@ == text::join(status_lines(a.status@), "\n"@),
        (r.upstream, r.ahead as int) == standing(*a),
        r.remote_contains_head == (a.remote_branches@.len() > 0),
        r.detached == (a.branch is None),
        r.merged == is_merged(*a),
{
    let lines = lines_of(&a.status);
    let (upstream, ahead): (Upstream, u32) = if a.branch.is_none() {
        (Upstream::Absent, 0)
    } else if text::same(a.track.as_str(), "[gone]") {
        (Upstream::Gone, 0)
    } else if a.upstream.is_some() {
        (
            Upstream::Present,
            if a.ahead > 0xffff_ffff {
                0xffff_ffff
            } else {
                a.ahead as u32
            },
        )
    } else {
        (Upstream::Absent, 0)
    };
    let merged = match &a.default {
        Some(d) => d.ancestor && !text::same_option(&a.head, &d.commit),
        None => false,
    };
    GitObs {
        dirty_porcelain: text::join_with(&lines, "\n"),
        upstream,
        ahead,
        remote_contains_head: a.remote_branches.len() > 0,
        detached: a.branch.is_none(),
        merged,
    }
}

/// How a branch stands to its upstream: it has none without a branch, one that is gone is
/// told as gone whatever else is known, and it is ahead only of one that is there, by the
/// number itself or the largest that can be told.
pub proof fn how_a_branch_stands(a: GitAnswers)
    ensures
        standing(a).0 == Upstream::Gone <==> a.branch is Some && a.track@ == "[gone]"@,
        standing(a).0 == Upstream::Present <==> a.branch is Some && a.track@ != "[gone]"@
            && a.upstream is Some,
        standing(a).0 != Upstream::Present ==> standing(a).1 == 0,
        standing(a).0 == Upstream::Present ==> standing(a).1 <= a.ahead && (standing(a).1 < u32::MAX
            ==> standing(a).1 == a.ahead),
{
}

/// A tree is merged exactly where origin's default branch has its commit and is not at it.
pub proof fn which_tree_is_merged(a: GitAnswers)
    ensures
        is_merged(a) <==> a.default is Some && a.default->0.ancestor && text::opt(a.head)
            != text::opt(a.default->0.commit),
{
}

/// A process is told of exactly where its door is held and it is known.
pub proof fn every_known_holder_is_told(doors: Seq<DoorSeen>, y: DoorHolder)
    ensures
        held_by(doors).contains(y) <==> (exists|i: int|
            0 <= i < doors.len() && (#[trigger] doors[i]).held && doors[i].holder == Some(y)),
    decreases doors.len(),
{
    let all = held_by(doors);
    if doors.len() > 0 {
        let rest = doors.drop_last();
        let some = held_by(rest);
        every_known_holder_is_told(rest, y);
        if all.contains(y) {
            let k = choose|k: int| 0 <= k < all.len() && all[k] == y;
            if k < some.len() {
                assert(some[k] == y);
                let i = choose|i: int| 0 <= i < rest.len() && (#[trigger] rest[i]).held && rest[i].holder == Some(y);
                assert(doors[i] == rest[i]);
            } else {
                assert(doors[rest.len() as int].held && doors[rest.len() as int].holder == Some(y));
            }
        }
        if exists|i: int| 0 <= i < doors.len() && (#[trigger] doors[i]).held && doors[i].holder == Some(y) {
            let i = choose|i: int| 0 <= i < doors.len() && (#[trigger] doors[i]).held && doors[i].holder == Some(y);
            if i < rest.len() {
                assert(rest[i] == doors[i]);
                let k = choose|k: int| 0 <= k < some.len() && some[k] == y;
                assert(all[k] == y);
            } else {
                assert(all[all.len() - 1] == y);
            }
        }
    }
}

} // verus!
