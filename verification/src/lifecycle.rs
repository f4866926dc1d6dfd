//! The record of a tree: what it is in the middle of, and what came of it.

use vstd::prelude::*;
use vstd::string::*;

use crate::error;
use crate::error::{CoreError, ExitClass};
use crate::model::{OpVerb, StatePhase};
use crate::text;

verus! {

broadcast use vstd::string::group_string_axioms;

/// An operation that a tree is in: by which process, and since when.
#[derive(Debug)]
pub struct Operation {
    pub verb: OpVerb,
    pub pid: u32,
    pub started: String,
}

/// When a tree was synced, whether that went well, and what its inputs were.
#[derive(Debug)]
pub struct SyncState {
    pub at: String,
    pub ok: bool,
    pub inputs: Vec<(String, String)>,
    pub log: Option<String>,
}

/// When a tree was verified, and whether that went well.
#[derive(Debug)]
pub struct VerifyState {
    pub at: String,
    pub ok: bool,
    pub log: Option<String>,
}

/// How a file came into a tree.
#[derive(Clone, Copy, Debug, PartialEq, Eq, Structural)]
pub enum MaterializedKind {
    Copied,
    Rendered,
}

/// A file that was put into a tree: how, the hash of what was written, and when it was
/// seen that git does not track it.
#[derive(Debug)]
pub struct Materialized {
    pub path: String,
    pub kind: MaterializedKind,
    pub hash: Option<String>,
    pub checked_at: String,
}

/// The record of a tree.
#[derive(Debug)]
pub struct TreeState {
    pub tree_id: String,
    pub label: String,
    pub name: String,
    pub phase: StatePhase,
    pub op: Option<Operation>,
    pub verify_pending: bool,
    pub sync: Option<SyncState>,
    pub verify: Option<VerifyState>,
    pub materialized: Vec<Materialized>,
    pub last_error: Option<String>,
}

/// The operation of a name.
pub open spec fn verb_of(name: Seq<char>) -> Option<OpVerb> {
    if name == "register"@ {
        Some(OpVerb::Register)
    } else if name == "adopt"@ {
        Some(OpVerb::Adopt)
    } else if name == "new"@ {
        Some(OpVerb::New)
    } else if name == "sync"@ {
        Some(OpVerb::Sync)
    } else if name == "remove"@ {
        Some(OpVerb::Remove)
    } else {
        None
    }
}

/// The operation of a name; any other name is refused.
pub fn op_verb(name: &str) -> (r: Result<OpVerb, CoreError>)
    ensures
        match verb_of(name@) {
            Some(verb) => r == Ok::<OpVerb, CoreError>(verb),
            None => r matches Err(e) && e@ == error::fault(
                ExitClass::Internal,
                "OP_INVALID"@,
                "invalid lifecycle operation"@,
                "report this wt bug"@,
            ),
        },
{
    if text::same(name, "register") {
        Ok(OpVerb::Register)
    } else if text::same(name, "adopt") {
        Ok(OpVerb::Adopt)
    } else if text::same(name, "new") {
        Ok(OpVerb::New)
    } else if text::same(name, "sync") {
        Ok(OpVerb::Sync)
    } else if text::same(name, "remove") {
        Ok(OpVerb::Remove)
    } else {
        Err(
            CoreError::new(
                ExitClass::Internal,
                "OP_INVALID",
                "invalid lifecycle operation",
                "report this wt bug",
            ),
        )
    }
}

/// The record of a tree at the beginning of an operation.
pub fn new_state(
    label: String,
    name: String,
    tree_id: String,
    phase: StatePhase,
    verb: &str,
    pid: u32,
    now: String,
) -> (r: Result<TreeState, CoreError>)
    ensures
        r is Ok == (verb_of(verb@) is Some),
        r matches Ok(s) ==> {
            &&& s.tree_id == tree_id && s.label == label && s.name == name
            &&& s.phase == phase
            &&& s.op == Some(Operation { verb: verb_of(verb@)->0, pid, started: now })
            &&& !s.verify_pending
            &&& s.sync is None && s.verify is None && s.last_error is None
            &&& s.materialized@ == Seq::<Materialized>::empty()
        },
        r matches Err(e) ==> e@ == error::fault(
            ExitClass::Internal,
            "OP_INVALID"@,
            "invalid lifecycle operation"@,
            "report this wt bug"@,
        ),
{
    let verb = match op_verb(verb) {
        Ok(v) => v,
        Err(e) => {
            return Err(e);
        },
    };
    Ok(
        TreeState {
            tree_id,
            label,
            name,
            phase,
            op: Some(Operation { verb, pid, started: now }),
            verify_pending: false,
            sync: None,
            verify: None,
            materialized: Vec::new(),
            last_error: None,
        },
    )
}

impl TreeState {
    /// The tree is being removed: by this process, and from now on.
    pub fn remove(&mut self, pid: u32, now: String)
        ensures
            *final(self) == (TreeState {
                phase: StatePhase::Removing,
                op: Some(Operation { verb: OpVerb::Remove, pid, started: now }),
                ..*old(self)
            }),
    {
        self.phase = StatePhase::Removing;
        self.op = Some(Operation { verb: OpVerb::Remove, pid, started: now });
    }

    /// The operation is over, and the phase is left as it is: what could not be taken
    /// away keeps the tree on record.
    pub fn leave(&mut self)
        ensures
            *final(self) == (TreeState { op: None, ..*old(self) }),
    {
        self.op = None;
    }

    /// The operation is over, and the tree is ready.
    pub fn settle(&mut self)
        ensures
            *final(self) == (TreeState { phase: StatePhase::Ready, op: None, ..*old(self) }),
    {
        self.phase = StatePhase::Ready;
        self.op = None;
    }

    /// Files were copied into the tree, and it is being made ready.
    pub fn bootstrap(&mut self, copied: Vec<Materialized>)
        ensures
            final(self).materialized@ == old(self).materialized@ + copied@,
            *final(self) == (TreeState {
                phase: StatePhase::Bootstrapping,
                materialized: final(self).materialized,
                ..*old(self)
            }),
    {
        let mut copied = copied;
        self.materialized.append(&mut copied);
        self.phase = StatePhase::Bootstrapping;
    }

    /// The tree could not be made ready.
    pub fn fail(&mut self, why: String)
        ensures
            *final(self) == (TreeState {
                phase: StatePhase::Failed,
                op: None,
                last_error: Some(why),
                ..*old(self)
            }),
    {
        self.phase = StatePhase::Failed;
        self.op = None;
        self.last_error = Some(why);
    }

    /// The tree is ready, and is to be verified or not.
    pub fn complete(&mut self, verify: bool)
        ensures
            *final(self) == (TreeState {
                phase: StatePhase::Ready,
                op: None,
                verify_pending: verify,
                last_error: None,
                ..*old(self)
            }),
    {
        self.phase = StatePhase::Ready;
        self.op = None;
        self.verify_pending = verify;
        self.last_error = None;
    }

    /// The tree was synced.
    pub fn synced(&mut self, at: String, inputs: Vec<(String, String)>)
        ensures
            *final(self) == (TreeState {
                sync: Some(SyncState { at, ok: true, inputs, log: None }),
                ..*old(self)
            }),
    {
        self.sync = Some(SyncState { at, ok: true, inputs, log: None });
    }

    /// The tree is to be verified.
    pub fn expect_verify(&mut self)
        ensures
            *final(self) == (TreeState { verify_pending: true, ..*old(self) }),
    {
        self.verify_pending = true;
    }

    /// The tree was verified.
    pub fn verified(&mut self, at: String, log: Option<String>)
        ensures
            *final(self) == (TreeState {
                verify: Some(VerifyState { at, ok: true, log }),
                verify_pending: false,
                ..*old(self)
            }),
    {
        self.verify = Some(VerifyState { at, ok: true, log });
        self.verify_pending = false;
    }

    /// The tree failed to verify: it stays ready, and the failure is on record.
    pub fn refuted(&mut self, at: String, why: String)
        ensures
            *final(self) == (TreeState {
                verify: Some(VerifyState { at, ok: false, log: None }),
                verify_pending: false,
                phase: StatePhase::Ready,
                op: None,
                last_error: Some(why),
                ..*old(self)
            }),
    {
        self.verify = Some(VerifyState { at, ok: false, log: None });
        self.verify_pending = false;
        self.phase = StatePhase::Ready;
        self.op = None;
        self.last_error = Some(why);
    }
}

/// Each verb is known by its own name, and no other name is one.
pub proof fn which_verbs_are_known(name: Seq<char>)
    ensures
        verb_of("register"@) == Some(OpVerb::Register),
        verb_of("adopt"@) == Some(OpVerb::Adopt),
        verb_of("new"@) == Some(OpVerb::New),
        verb_of("sync"@) == Some(OpVerb::Sync),
        verb_of("remove"@) == Some(OpVerb::Remove),
        verb_of(name) is Some ==> name == "register"@ || name == "adopt"@ || name == "new"@ || name
            == "sync"@ || name == "remove"@,
{
    reveal_strlit("register");
    reveal_strlit("adopt");
    reveal_strlit("new");
    reveal_strlit("sync");
    reveal_strlit("remove");
    assert("register"@.len() == 8 && "adopt"@.len() == 5 && "new"@.len() == 3 && "sync"@.len() == 4
        && "remove"@.len() == 6);
}

} // verus!
