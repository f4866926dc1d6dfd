//! What a tree is and how it stands.

use vstd::prelude::*;
use vstd::string::*;

verus! {

broadcast use vstd::string::group_string_axioms;

/// How a tree stands, as it is derived from what is seen of it.
#[derive(Clone, Copy, Debug, PartialEq, Eq, Structural)]
pub enum DerivedPhase {
    Ready,
    Verifying,
    Initialising,
    InitInterrupted,
    Bootstrapping,
    Interrupted,
    Failed,
    Removing,
    RemoveInterrupted,
    Creating,
    Claimed,
    Incomplete,
    Replaced,
    Missing,
    Unmanaged,
    StaleGit,
}

/// The name of a phase.
pub open spec fn phase_text(phase: DerivedPhase) -> Seq<char> {
    match phase {
        DerivedPhase::Ready => "ready"@,
        DerivedPhase::Verifying => "verifying"@,
        DerivedPhase::Initialising => "initialising"@,
        DerivedPhase::InitInterrupted => "init-interrupted"@,
        DerivedPhase::Bootstrapping => "bootstrapping"@,
        DerivedPhase::Interrupted => "interrupted"@,
        DerivedPhase::Failed => "failed"@,
        DerivedPhase::Removing => "removing"@,
        DerivedPhase::RemoveInterrupted => "remove-interrupted"@,
        DerivedPhase::Creating => "creating"@,
        DerivedPhase::Claimed => "claimed"@,
        DerivedPhase::Incomplete => "incomplete"@,
        DerivedPhase::Replaced => "replaced"@,
        DerivedPhase::Missing => "missing"@,
        DerivedPhase::Unmanaged => "unmanaged"@,
        DerivedPhase::StaleGit => "stale-git"@,
    }
}

/// The name of a phase.
pub fn phase_name(phase: DerivedPhase) -> (r: &'static str)
    ensures
        r@ == phase_text(phase),
{
    match phase {
        DerivedPhase::Ready => "ready",
        DerivedPhase::Verifying => "verifying",
        DerivedPhase::Initialising => "initialising",
        DerivedPhase::InitInterrupted => "init-interrupted",
        DerivedPhase::Bootstrapping => "bootstrapping",
        DerivedPhase::Interrupted => "interrupted",
        DerivedPhase::Failed => "failed",
        DerivedPhase::Removing => "removing",
        DerivedPhase::RemoveInterrupted => "remove-interrupted",
        DerivedPhase::Creating => "creating",
        DerivedPhase::Claimed => "claimed",
        DerivedPhase::Incomplete => "incomplete",
        DerivedPhase::Replaced => "replaced",
        DerivedPhase::Missing => "missing",
        DerivedPhase::Unmanaged => "unmanaged",
        DerivedPhase::StaleGit => "stale-git",
    }
}

/// How a resource stands.
#[derive(Clone, Copy, Debug, PartialEq, Eq, Structural)]
pub enum ResourceState {
    Declared,
    Present,
    Orphaned,
}

/// What a probe of a resource found.
#[derive(Clone, Copy, Debug, PartialEq, Eq, Structural)]
pub enum ProbeFound {
    Present,
    Absent,
    Failed,
}

/// What a resource belongs to: a tree, a repository, or the machine.
#[derive(Clone, Copy, Debug, PartialEq, Eq, Structural)]
pub enum BelongsTo {
    Tree,
    Repo,
    Machine,
}

/// How a tree stands, as it is on record.
#[derive(Clone, Copy, Debug, PartialEq, Eq, Structural)]
pub enum StatePhase {
    Initialising,
    Bootstrapping,
    Ready,
    Failed,
    Removing,
}

/// The operation that a tree is in.
#[derive(Clone, Copy, Debug, PartialEq, Eq, Structural)]
pub enum OpVerb {
    Register,
    Adopt,
    New,
    Sync,
    Remove,
}

} // verus!
