//! Locks: their levels and order, what an attempt to take one leads to, and who
//! holds the slots of a named lock.

use vstd::prelude::*;
use vstd::string::*;

use crate::error;
use crate::error::{CoreError, ExitClass};
use crate::json;
use crate::json::Scalar;
use crate::path;
use crate::text;

verus! {

broadcast use vstd::string::group_string_axioms;

/// How long, in milliseconds, to wait between two attempts at one lock, and after
/// a slot was freed while its holders were read.
pub const RETRY: u64 = 5;

/// How long, in milliseconds, to wait between two sweeps over a named lock.
pub const SWEEP: u64 = 100;

// ---------------------------------------------------------------------------
// Levels
// ---------------------------------------------------------------------------

/// The level of a lock. Locks are taken in the order of their levels.
#[derive(Clone, Copy, Debug, PartialEq, Eq, Structural)]
pub enum Level {
    Anchor,
    Tree,
    RepoGit,
    Resource,
    Named,
    RegistryRmw,
    StateRmw,
}

/// The place of a level in the order.
pub open spec fn rank(level: Level) -> int {
    match level {
        Level::Anchor => 0,
        Level::Tree => 1,
        Level::RepoGit => 2,
        Level::Resource => 3,
        Level::Named => 4,
        Level::RegistryRmw => 5,
        Level::StateRmw => 6,
    }
}

/// The name of a level.
pub open spec fn level_name(level: Level) -> Seq<char> {
    match level {
        Level::Anchor => "Anchor"@,
        Level::Tree => "Tree"@,
        Level::RepoGit => "RepoGit"@,
        Level::Resource => "Resource"@,
        Level::Named => "Named"@,
        Level::RegistryRmw => "RegistryRmw"@,
        Level::StateRmw => "StateRmw"@,
    }
}

impl Level {
    /// The place of the level in the order.
    pub fn number(self) -> (r: u8)
        ensures
            r == rank(self),
    {
        match self {
            Level::Anchor => 0,
            Level::Tree => 1,
            Level::RepoGit => 2,
            Level::Resource => 3,
            Level::Named => 4,
            Level::RegistryRmw => 5,
            Level::StateRmw => 6,
        }
    }

    /// The name of the level.
    pub fn name(self) -> (r: &'static str)
        ensures
            r@ == level_name(self),
    {
        match self {
            Level::Anchor => "Anchor",
            Level::Tree => "Tree",
            Level::RepoGit => "RepoGit",
            Level::Resource => "Resource",
            Level::Named => "Named",
            Level::RegistryRmw => "RegistryRmw",
            Level::StateRmw => "StateRmw",
        }
    }
}

/// Whether a lock is shared with others that share it, or held alone.
#[derive(Clone, Copy, Debug, PartialEq, Eq, Structural)]
pub enum Mode {
    Shared,
    Exclusive,
}

/// Whether levels rise from each to the next.
pub open spec fn rising(levels: Seq<Level>) -> bool {
    forall|i: int, j: int|
        0 <= i < j < levels.len() ==> rank(#[trigger] levels[i]) < rank(#[trigger] levels[j])
}

/// The levels that one thread holds, in the order in which it took them.
#[derive(Debug)]
pub struct Held {
    pub levels: Vec<Level>,
}

impl View for Held {
    type V = Seq<Level>;

    open spec fn view(&self) -> Seq<Level> {
        self.levels@
    }
}

/// Whether a thread that holds some levels may take another.
pub open spec fn may_take(held: Seq<Level>, level: Level) -> bool {
    held.len() > 0 ==> rank(held.last()) < rank(level)
}

impl Held {
    /// Whether the levels were taken in order.
    pub open spec fn wf(&self) -> bool {
        rising(self@)
    }

    /// No level.
    pub fn new() -> (r: Self)
        ensures
            r.wf(),
            r@ == Seq::<Level>::empty(),
    {
        Held { levels: Vec::new() }
    }

    /// Whether the level may be taken next: it is above all that are held.
    pub fn may_acquire(&self, level: Level) -> (r: bool)
        ensures
            r == may_take(self@, level),
    {
        let len: usize = self.levels.len();
        len == 0 || self.levels[len - 1].number() < level.number()
    }

    /// Whether the level may be given back next: it was taken last.
    pub fn may_release(&self, level: Level) -> (r: bool)
        ensures
            r == (self@.len() > 0 && self@.last() == level),
    {
        let len: usize = self.levels.len();
        len > 0 && self.levels[len - 1] == level
    }

    /// Records that the level was taken.
    pub fn trace_acquire(&mut self, level: Level)
        requires
            old(self).wf(),
            may_take(old(self)@, level),
        ensures
            final(self).wf(),
            final(self)@ == old(self)@.push(level),
    {
        self.levels.push(level);
    }

    /// Records that the level was given back.
    pub fn trace_release(&mut self, level: Level)
        requires
            old(self).wf(),
            old(self)@.len() > 0,
            old(self)@.last() == level,
        ensures
            final(self).wf(),
            final(self)@ == old(self)@.drop_last(),
    {
        let _ = self.levels.pop();
    }
}

/// A level that counts as held while its lock is being taken: given back unless
/// the lock was got.
#[derive(Debug)]
pub struct TraceEntry {
    pub level: Level,
    pub active: bool,
}

impl TraceEntry {
    /// Begins to take a lock; the level is recorded where `active`.
    pub fn new(held: &mut Held, level: Level, active: bool) -> (r: Self)
        requires
            old(held).wf(),
            active ==> may_take(old(held)@, level),
        ensures
            r.level == level,
            r.active == active,
            final(held).wf(),
            final(held)@ == if active {
                old(held)@.push(level)
            } else {
                old(held)@
            },
    {
        if active {
            held.trace_acquire(level);
        }
        TraceEntry { level, active }
    }

    /// The lock was got: its level stays recorded.
    pub fn disarm(&mut self)
        ensures
            final(self).level == old(self).level,
            !final(self).active,
    {
        self.active = false;
    }

    /// Ends the attempt.
    pub fn end(self, held: &mut Held)
        requires
            old(held).wf(),
            self.active ==> old(held)@.len() > 0 && old(held)@.last() == self.level,
        ensures
            final(held).wf(),
            final(held)@ == if self.active {
                old(held)@.drop_last()
            } else {
                old(held)@
            },
    {
        if self.active {
            held.trace_release(self.level);
        }
    }
}

/// A level that may be taken is above every level that is held.
pub proof fn a_taken_level_is_the_highest(held: Seq<Level>, level: Level, i: int)
    requires
        rising(held),
        may_take(held, level),
        0 <= i < held.len(),
    ensures
        rank(held[i]) < rank(level),
{
    if i < held.len() - 1 {
        assert(rank(held[i]) < rank(held[held.len() - 1]));
    }
}

/// Two threads never wait for each other: where each keeps the order, the first
/// cannot want a level that the second holds while the second wants one that the
/// first holds.
pub proof fn no_two_wait_for_each_other(a: Seq<Level>, b: Seq<Level>, want_a: Level, want_b: Level)
    requires
        rising(a),
        rising(b),
        may_take(a, want_a),
        may_take(b, want_b),
    ensures
        !(a.contains(want_b) && b.contains(want_a)),
{
    if a.contains(want_b) && b.contains(want_a) {
        let i = choose|i: int| 0 <= i < a.len() && a[i] == want_b;
        let j = choose|j: int| 0 <= j < b.len() && b[j] == want_a;
        a_taken_level_is_the_highest(a, want_a, i);
        a_taken_level_is_the_highest(b, want_b, j);
    }
}

/// Threads that keep the order never wait in a circle: if each of a row of
/// threads wants a level that the next one holds, the wants rise along the row, so
/// the last cannot want one that the first holds.
pub proof fn no_circle_of_waits(held: Seq<Seq<Level>>, wants: Seq<Level>)
    requires
        held.len() > 0,
        held.len() == wants.len(),
        forall|i: int| 0 <= i < held.len() ==> rising(#[trigger] held[i]),
        forall|i: int| 0 <= i < held.len() ==> may_take(#[trigger] held[i], wants[i]),
        forall|i: int| 0 <= i < held.len() - 1 ==> (#[trigger] held[i + 1]).contains(wants[i]),
    ensures
        rank(wants[0]) <= rank(wants.last()),
        !held[0].contains(wants.last()),
    decreases held.len(),
{
    let n = held.len();
    if n > 1 {
        let h = held.drop_last();
        let w = wants.drop_last();
        assert forall|i: int| 0 <= i < h.len() implies rising(#[trigger] h[i]) by {
            assert(h[i] == held[i]);
        }
        assert forall|i: int| 0 <= i < h.len() implies may_take(#[trigger] h[i], w[i]) by {
            assert(h[i] == held[i]);
        }
        assert forall|i: int| 0 <= i < h.len() - 1 implies (#[trigger] h[i + 1]).contains(
            w[i],
        ) by {
            assert(h[i + 1] == held[i + 1]);
        }
        no_circle_of_waits(h, w);
        assert(held[(n - 2) + 1].contains(wants[n - 2]));
        let last = held[n - 1];
        let j = choose|j: int| 0 <= j < last.len() && last[j] == wants[n - 2];
        a_taken_level_is_the_highest(last, wants[n - 1], j);
    }
    if held[0].contains(wants.last()) {
        let first = held[0];
        let k = choose|k: int| 0 <= k < first.len() && first[k] == wants.last();
        a_taken_level_is_the_highest(first, wants[0], k);
    }
}

// ---------------------------------------------------------------------------
// One lock
// ---------------------------------------------------------------------------

/// Who holds a lock, and for what.
#[derive(Debug)]
pub struct Holder {
    pub pid: u32,
    pub target: String,
    pub verb: String,
    pub since: String,
}

/// What a holder's record says.
pub struct Owner {
    pub pid: u32,
    pub target: Seq<char>,
    pub verb: Seq<char>,
    pub since: Seq<char>,
}

impl View for Holder {
    type V = Owner;

    open spec fn view(&self) -> Owner {
        Owner { pid: self.pid, target: self.target@, verb: self.verb@, since: self.since@ }
    }
}

impl Holder {
    /// The process with the given id as a holder.
    pub fn current(pid: u32, target: &str, verb: &str, since: &str) -> (r: Self)
        ensures
            r@ == (Owner { pid, target: target@, verb: verb@, since: since@ }),
    {
        Holder {
            pid,
            target: target.to_owned(),
            verb: verb.to_owned(),
            since: since.to_owned(),
        }
    }

    /// A copy of the record.
    pub fn copy(&self) -> (r: Self)
        ensures
            r@ == self@,
    {
        Holder {
            pid: self.pid,
            target: self.target.clone(),
            verb: self.verb.clone(),
            since: self.since.clone(),
        }
    }
}

/// A lock that is wanted: how, how long in milliseconds to wait for it, and
/// whether its level counts in the order.
#[derive(Debug)]
pub struct Wanted {
    pub path: String,
    pub level: Level,
    pub mode: Mode,
    pub wait: u64,
    pub traced: bool,
}

/// What a wanted lock is.
pub struct Want {
    pub path: Seq<char>,
    pub level: Level,
    pub mode: Mode,
    pub wait: u64,
    pub traced: bool,
}

impl View for Wanted {
    type V = Want;

    open spec fn view(&self) -> Want {
        Want {
            path: self.path@,
            level: self.level,
            mode: self.mode,
            wait: self.wait,
            traced: self.traced,
        }
    }
}

/// A wanted lock.
pub open spec fn want(path: Seq<char>, level: Level, mode: Mode, wait: u64) -> Want {
    Want { path, level, mode, wait, traced: true }
}

fn wanted(path: &str, level: Level, mode: Mode, wait: u64) -> (r: Wanted)
    ensures
        r@ == want(path@, level, mode, wait),
{
    Wanted { path: path.to_owned(), level, mode, wait, traced: true }
}

/// The lock of an anchor. It is not waited for: a refresh that is under way is the
/// reason not to start another.
pub fn anchor(path: &str) -> (r: Wanted)
    ensures
        r@ == want(path@, Level::Anchor, Mode::Exclusive, 0),
{
    wanted(path, Level::Anchor, Mode::Exclusive, 0)
}

/// The lock of a tree. Only an exclusive one is waited for.
pub fn tree(path: &str, mode: Mode, wait: u64) -> (r: Wanted)
    ensures
        r@ == want(
            path@,
            Level::Tree,
            mode,
            if mode == Mode::Shared {
                0
            } else {
                wait
            },
        ),
{
    let wait: u64 = if mode == Mode::Shared {
        0
    } else {
        wait
    };
    wanted(path, Level::Tree, mode, wait)
}

/// The lock of a repository's git.
pub fn git(path: &str, wait: u64) -> (r: Wanted)
    ensures
        r@ == want(path@, Level::RepoGit, Mode::Exclusive, wait),
{
    wanted(path, Level::RepoGit, Mode::Exclusive, wait)
}

/// The lock of a resource.
pub fn resource(path: &str, wait: u64) -> (r: Wanted)
    ensures
        r@ == want(path@, Level::Resource, Mode::Exclusive, wait),
{
    wanted(path, Level::Resource, Mode::Exclusive, wait)
}

/// The lock of the registry while it is read and written.
pub fn registry_rmw(path: &str, wait: u64) -> (r: Wanted)
    ensures
        r@ == want(path@, Level::RegistryRmw, Mode::Exclusive, wait),
{
    wanted(path, Level::RegistryRmw, Mode::Exclusive, wait)
}

/// The lock of a state document while it is read and written.
pub fn state_rmw(path: &str, wait: u64) -> (r: Wanted)
    ensures
        r@ == want(path@, Level::StateRmw, Mode::Exclusive, wait),
{
    wanted(path, Level::StateRmw, Mode::Exclusive, wait)
}

/// The file of a door. It stands beside its tree's lock, so its level does not
/// count again.
pub fn door(path: &str) -> (r: Wanted)
    ensures
        r@ == (Want {
            path: path@,
            level: Level::Tree,
            mode: Mode::Exclusive,
            wait: 0,
            traced: false,
        }),
{
    Wanted {
        path: path.to_owned(),
        level: Level::Tree,
        mode: Mode::Exclusive,
        wait: 0,
        traced: false,
    }
}

/// What an attempt at a lock came to.
#[derive(Debug)]
pub enum Attempt {
    Taken,
    Busy,
    Failed(String),
}

/// What to do after an attempt at a lock.
#[derive(Debug)]
pub enum AcquireStep {
    /// The lock is held. Its holder is written into it where `record`, and the
    /// time that it took is worth telling where `waited`.
    Hold { record: bool, waited: bool },
    /// Try again after so many milliseconds.
    Sleep(u64),
    Fail(CoreError),
}

/// Whether the holder is written into the lock. Those who share a tree have files
/// of their own and must not write the common one.
pub open spec fn recorded(level: Level, mode: Mode) -> bool {
    mode == Mode::Exclusive || level != Level::Tree
}

/// What is wrong where a lock was not got in time.
pub open spec fn late(level: Level, mode: Mode, path: Seq<char>) -> error::Fault {
    let message = "timed out waiting for "@ + path;
    match (level, mode) {
        (Level::Tree, Mode::Shared) => error::fault(
            ExitClass::Conflict,
            "TREE_BUSY"@,
            message,
            "wait for the lifecycle operation to finish and retry"@,
        ),
        (Level::Tree, Mode::Exclusive) => error::fault(
            ExitClass::Conflict,
            "TREE_IN_USE"@,
            message,
            "wait for or stop the processes using the tree"@,
        ),
        (Level::RegistryRmw, _) | (Level::StateRmw, _) => error::fault(
            ExitClass::Timeout,
            "LOCK_TIMEOUT"@,
            message,
            "retry after the short state update finishes"@,
        ),
        _ => error::fault(
            ExitClass::Conflict,
            "LOCK_HELD"@,
            message,
            "wait for the named operation or choose a longer wait"@,
        ),
    }
}

/// The error of a lock that was not got in time.
pub fn timeout_error(level: Level, mode: Mode, path: &str) -> (r: CoreError)
    ensures
        r@ == late(level, mode, path@),
{
    let message = "timed out waiting for ".to_owned().concat(path);
    let (class, code, remedy) = match (level, mode) {
        (Level::Tree, Mode::Shared) => (
            ExitClass::Conflict,
            "TREE_BUSY",
            "wait for the lifecycle operation to finish and retry",
        ),
        (Level::Tree, Mode::Exclusive) => (
            ExitClass::Conflict,
            "TREE_IN_USE",
            "wait for or stop the processes using the tree",
        ),
        (Level::RegistryRmw, _) | (Level::StateRmw, _) => (
            ExitClass::Timeout,
            "LOCK_TIMEOUT",
            "retry after the short state update finishes",
        ),
        _ => (
            ExitClass::Conflict,
            "LOCK_HELD",
            "wait for the named operation or choose a longer wait",
        ),
    };
    CoreError::new(class, code, message.as_str(), remedy)
}

/// What is wrong with a lock's file.
pub open spec fn unusable(action: Seq<char>, path: Seq<char>, why: Seq<char>) -> error::Fault {
    error::fault(
        ExitClass::Internal,
        "LOCK_IO_FAILED"@,
        action + " "@ + path + ": "@ + why,
        "retry the operation and inspect lock-directory permissions if it repeats"@,
    )
}

/// The error of a lock's file that cannot be used.
pub fn lock_io(action: &str, path: &str, why: &str) -> (r: CoreError)
    ensures
        r@ == unusable(action@, path@, why@),
{
    let message = action.to_owned().concat(" ").concat(path).concat(": ").concat(why);
    CoreError::new(
        ExitClass::Internal,
        "LOCK_IO_FAILED",
        message.as_str(),
        "retry the operation and inspect lock-directory permissions if it repeats",
    )
}

/// Decides what follows an attempt at a lock after `elapsed` milliseconds, where
/// an earlier attempt `waited` or not: a taken lock is held, one that is busy is
/// tried again until the wait is over, and any other failure ends the attempt.
pub fn after_attempt(wanted: &Wanted, attempt: &Attempt, elapsed: u64, waited: bool) -> (r:
    AcquireStep)
    ensures
        match *attempt {
            Attempt::Taken => r == (AcquireStep::Hold {
                record: recorded(wanted.level, wanted.mode),
                waited,
            }),
            Attempt::Busy => if elapsed >= wanted.wait {
                r matches AcquireStep::Fail(e) && e@ == late(
                    wanted.level,
                    wanted.mode,
                    wanted.path@,
                )
            } else {
                r == AcquireStep::Sleep(RETRY)
            },
            Attempt::Failed(why) => r matches AcquireStep::Fail(e) && e@ == unusable(
                "acquire lock"@,
                wanted.path@,
                why@,
            ),
        },
{
    match attempt {
        Attempt::Taken => AcquireStep::Hold {
            record: wanted.mode == Mode::Exclusive || wanted.level != Level::Tree,
            waited,
        },
        Attempt::Busy => if elapsed >= wanted.wait {
            AcquireStep::Fail(timeout_error(wanted.level, wanted.mode, wanted.path.as_str()))
        } else {
            AcquireStep::Sleep(RETRY)
        },
        Attempt::Failed(why) => AcquireStep::Fail(
            lock_io("acquire lock", wanted.path.as_str(), why.as_str()),
        ),
    }
}

/// The fields of the record of a taken lock.
pub open spec fn flock_fields(path: Seq<char>, level: Level, mode: Mode) -> Seq<
    (Seq<char>, json::Plain),
> {
    seq![
        ("level"@, json::Plain::Text(level_name(level))),
        (
            "mode"@,
            json::Plain::Text(
                match mode {
                    Mode::Shared => "shared"@,
                    Mode::Exclusive => "exclusive"@,
                },
            ),
        ),
        ("path"@, json::Plain::Text(path)),
    ]
}

/// The line that records that a lock was taken.
pub fn trace_flock(path: &str, level: Level, mode: Mode) -> (r: String)
    ensures
        r@ == json::object_text(flock_fields(path@, level, mode)) + "\n"@,
{
    let said = match mode {
        Mode::Shared => "shared",
        Mode::Exclusive => "exclusive",
    };
    let mut record: Vec<(String, Scalar)> = Vec::new();
    record.push(json::field("level", Scalar::Text(level.name().to_owned())));
    record.push(json::field("mode", Scalar::Text(said.to_owned())));
    record.push(json::field("path", Scalar::Text(path.to_owned())));
    proof {
        assert(json::fields(record@) =~= flock_fields(path@, level, mode));
    }
    json::write_object(&record).concat("\n")
}

// ---------------------------------------------------------------------------
// Named locks
// ---------------------------------------------------------------------------

/// The file of a slot.
pub open spec fn slot_path(dir: Seq<char>, slot: int) -> Seq<char> {
    path::joined(dir, text::decimal(slot as nat) + ".lock"@)
}

/// The file of a slot.
pub fn named_slot_path(dir: &str, slot: u16) -> (r: String)
    ensures
        r@ == slot_path(dir@, slot as int),
{
    let name = text::decimal_of(slot as u64).concat(".lock");
    path::join(dir, name.as_str())
}

/// A slot that is held, and by whom where that is known.
#[derive(Debug)]
pub struct NamedSlotHolder {
    pub slot: u16,
    pub path: String,
    pub holder: Option<Holder>,
}

/// The slots of a named lock that are held.
#[derive(Debug)]
pub struct NamedOccupancy {
    pub slots: u16,
    pub holders: Vec<NamedSlotHolder>,
}

/// Why a named lock was not got.
#[derive(Debug)]
pub enum NamedAcquireError {
    Held(NamedOccupancy),
    Other(CoreError),
}

/// What is seen of a slot.
#[derive(Debug)]
pub enum SlotState {
    Free,
    Held(Option<Holder>),
}

/// What is known of a held slot.
pub struct Occupied {
    pub slot: int,
    pub path: Seq<char>,
    pub holder: Option<Owner>,
}

/// A holder where one is known.
pub open spec fn owner(holder: Option<Holder>) -> Option<Owner> {
    match holder {
        Some(h) => Some(h@),
        None => None,
    }
}

impl View for NamedSlotHolder {
    type V = Occupied;

    open spec fn view(&self) -> Occupied {
        Occupied { slot: self.slot as int, path: self.path@, holder: owner(self.holder) }
    }
}

/// What is known of held slots.
pub open spec fn occupied(holders: Seq<NamedSlotHolder>) -> Seq<Occupied> {
    holders.map_values(|h: NamedSlotHolder| h@)
}

/// The held ones of the first slots, in the order of their numbers.
pub open spec fn held_slots(dir: Seq<char>, seen: Seq<SlotState>) -> Seq<Occupied>
    decreases seen.len(),
{
    if seen.len() == 0 {
        Seq::<Occupied>::empty()
    } else {
        let rest = held_slots(dir, seen.drop_last());
        let slot = seen.len() - 1;
        match seen.last() {
            SlotState::Free => rest,
            SlotState::Held(holder) => rest.push(
                Occupied { slot, path: slot_path(dir, slot), holder: owner(holder) },
            ),
        }
    }
}

/// The slots of a named lock that are held, of what was seen of each.
pub fn named_occupancy(dir: &str, seen: &Vec<SlotState>) -> (r: NamedOccupancy)
    requires
        seen@.len() <= u16::MAX,
    ensures
        r.slots == seen@.len(),
        occupied(r.holders@) == held_slots(dir@, seen@),
{
    let mut holders: Vec<NamedSlotHolder> = Vec::new();
    let mut slot: u16 = 0;
    proof {
        assert(occupied(holders@) =~= Seq::<Occupied>::empty());
    }
    while (slot as usize) < seen.len()
        invariant
            slot <= seen@.len() <= u16::MAX,
            occupied(holders@) == held_slots(dir@, seen@.take(slot as int)),
        decreases seen@.len() - slot,
    {
        let ghost prior = occupied(holders@);
        proof {
            assert(seen@.take(slot + 1).drop_last() =~= seen@.take(slot as int));
        }
        if let SlotState::Held(known) = &seen[slot as usize] {
            let holder = match known {
                Some(h) => Some(h.copy()),
                None => None,
            };
            let one = NamedSlotHolder { slot, path: named_slot_path(dir, slot), holder };
            let ghost o = one@;
            holders.push(one);
            proof {
                assert(occupied(holders@) =~= prior.push(o));
            }
        }
        slot = slot + 1;
    }
    proof {
        assert(seen@.take(seen@.len() as int) =~= seen@);
    }
    NamedOccupancy { slots: slot, holders }
}

/// The held slots are reported in rising order, each at most once, and all are
/// held exactly where as many are reported as there are.
pub proof fn held_slots_rise(dir: Seq<char>, seen: Seq<SlotState>)
    ensures
        held_slots(dir, seen).len() <= seen.len(),
        forall|i: int|
            0 <= i < held_slots(dir, seen).len() ==> 0 <= (#[trigger] held_slots(dir, seen)[i]).slot
                < seen.len(),
        forall|i: int, j: int|
            0 <= i < j < held_slots(dir, seen).len() ==> (#[trigger] held_slots(dir, seen)[i]).slot
                < (#[trigger] held_slots(dir, seen)[j]).slot,
        (held_slots(dir, seen).len() == seen.len()) == (forall|i: int|
            0 <= i < seen.len() ==> (#[trigger] seen[i]) is Held),
    decreases seen.len(),
{
    if seen.len() > 0 {
        let rest = seen.drop_last();
        held_slots_rise(dir, rest);
        let all = held_slots(dir, seen);
        let some = held_slots(dir, rest);
        assert forall|i: int| 0 <= i < rest.len() implies rest[i] == seen[i] by {}
        if seen.last() is Held {
            assert(all == some.push(all.last()));
            if all.len() == seen.len() {
                assert forall|i: int| 0 <= i < seen.len() implies (#[trigger] seen[i]) is Held by {
                    if i < rest.len() {
                        assert(rest[i] is Held);
                    }
                }
            }
            if forall|i: int| 0 <= i < seen.len() ==> (#[trigger] seen[i]) is Held {
                assert forall|i: int| 0 <= i < rest.len() implies (#[trigger] rest[i]) is Held by {
                    assert(seen[i] is Held);
                }
            }
        } else {
            assert(!(seen[seen.len() - 1] is Held));
        }
    }
}

/// A named lock that is being taken: slot after slot, sweep after sweep.
#[derive(Debug)]
pub struct NamedWait {
    pub slots: u16,
    pub wait: Option<u64>,
    pub next: u16,
}

/// What to do about a named lock.
#[derive(Debug)]
pub enum NamedStep {
    /// Try the slot.
    Try(u16),
    /// The time is over: read who holds the slots.
    Survey,
    /// Wait so many milliseconds, then try the first slot.
    Sleep(u64),
    /// The slot was got.
    Took(u16),
    /// All slots are held.
    Full,
    Fail(CoreError),
}

impl NamedWait {
    /// Whether there is a slot to try.
    pub open spec fn wf(&self) -> bool {
        self.next < self.slots
    }

    /// Begins with the first slot.
    pub fn new(slots: u16, wait: Option<u64>) -> (r: Self)
        requires
            slots > 0,
        ensures
            r.wf(),
            r.slots == slots,
            r.wait == wait,
            r.next == 0,
    {
        NamedWait { slots, wait, next: 0 }
    }

    /// Decides what follows an attempt at the next slot. One that is held leads to
    /// the slot after it, and after the last to a pause or, where the wait is
    /// over, to a look at the holders. Any other failure ends the attempt.
    pub fn tried(&mut self, outcome: Result<(), CoreError>, elapsed: u64) -> (r: NamedStep)
        requires
            old(self).wf(),
        ensures
            final(self).wf(),
            final(self).slots == old(self).slots,
            final(self).wait == old(self).wait,
            match outcome {
                Ok(_) => r == NamedStep::Took(old(self).next) && final(self).next == old(self).next,
                Err(e) => if e@.code != "LOCK_HELD"@ {
                    r matches NamedStep::Fail(f) && f@ == e@ && final(self).next == old(self).next
                } else if old(self).next + 1 < old(self).slots {
                    r == NamedStep::Try((old(self).next + 1) as u16) && final(self).next == old(
                        self,
                    ).next + 1
                } else {
                    final(self).next == 0 && r == match old(self).wait {
                        Some(limit) => if elapsed >= limit {
                            NamedStep::Survey
                        } else if limit - elapsed < SWEEP {
                            NamedStep::Sleep((limit - elapsed) as u64)
                        } else {
                            NamedStep::Sleep(SWEEP)
                        },
                        None => NamedStep::Sleep(SWEEP),
                    }
                },
            },
    {
        match outcome {
            Ok(_) => NamedStep::Took(self.next),
            Err(error) => {
                if !text::same(error.code.as_str(), "LOCK_HELD") {
                    return NamedStep::Fail(error);
                }
                if self.next < self.slots - 1 {
                    self.next = self.next + 1;
                    return NamedStep::Try(self.next);
                }
                self.next = 0;
                match self.wait {
                    Some(limit) => if elapsed >= limit {
                        NamedStep::Survey
                    } else if limit - elapsed < SWEEP {
                        NamedStep::Sleep(limit - elapsed)
                    } else {
                        NamedStep::Sleep(SWEEP)
                    },
                    None => NamedStep::Sleep(SWEEP),
                }
            },
        }
    }

    /// Decides what follows a look at the holders: a slot that was freed since is
    /// tried after a short pause.
    pub fn surveyed(&self, occupancy: &NamedOccupancy) -> (r: NamedStep)
        ensures
            r == if occupancy.holders@.len() < self.slots {
                NamedStep::Sleep(RETRY)
            } else {
                NamedStep::Full
            },
    {
        if occupancy.holders.len() < self.slots as usize {
            NamedStep::Sleep(RETRY)
        } else {
            NamedStep::Full
        }
    }
}

/// A slot is told of exactly where it is held, by its number and by who holds it.
pub proof fn every_held_slot_is_told(dir: Seq<char>, seen: Seq<SlotState>, i: int)
    requires
        0 <= i < seen.len(),
    ensures
        seen[i] matches SlotState::Held(holder) ==> held_slots(dir, seen).contains(
            Occupied { slot: i, path: slot_path(dir, i), holder: owner(holder) },
        ),
        seen[i] is Free ==> forall|k: int|
            0 <= k < held_slots(dir, seen).len() ==> (#[trigger] held_slots(dir, seen)[k]).slot != i,
    decreases seen.len(),
{
    let all = held_slots(dir, seen);
    let rest = seen.drop_last();
    let some = held_slots(dir, rest);
    if i < rest.len() {
        assert(rest[i] == seen[i]);
        every_held_slot_is_told(dir, rest, i);
        if seen[i] is Held {
            let x = Occupied { slot: i, path: slot_path(dir, i), holder: owner(seen[i]->Held_0) };
            let k = choose|k: int| 0 <= k < some.len() && some[k] == x;
            assert(all[k] == x);
        } else {
            assert forall|k: int| 0 <= k < all.len() implies (#[trigger] all[k]).slot != i by {
                if k < some.len() {
                    assert(all[k] == some[k]);
                }
            }
        }
    } else {
        if seen[i] is Held {
            assert(all[all.len() - 1].slot == i);
        } else {
            lemma_slots_below(dir, rest);
        }
    }
}

proof fn lemma_slots_below(dir: Seq<char>, seen: Seq<SlotState>)
    ensures
        forall|k: int|
            0 <= k < held_slots(dir, seen).len() ==> (#[trigger] held_slots(dir, seen)[k]).slot
                < seen.len(),
    decreases seen.len(),
{
    if seen.len() > 0 {
        let all = held_slots(dir, seen);
        let some = held_slots(dir, seen.drop_last());
        lemma_slots_below(dir, seen.drop_last());
        assert forall|k: int| 0 <= k < all.len() implies (#[trigger] all[k]).slot < seen.len() by {
            if k < some.len() {
                assert(all[k] == some[k]);
            }
        }
    }
}

/// A lock that did not come in time is told by what it guards: one who wanted the tree with
/// others hears that it is busy, one who wanted it alone that it is in use, and a short
/// update of the registry or of a record is a matter of time.
pub proof fn what_a_late_lock_is_called(level: Level, mode: Mode, path: Seq<char>)
    ensures
        late(level, mode, path).code == (if level == Level::Tree && mode == Mode::Shared {
            "TREE_BUSY"@
        } else if level == Level::Tree {
            "TREE_IN_USE"@
        } else if level == Level::RegistryRmw || level == Level::StateRmw {
            "LOCK_TIMEOUT"@
        } else {
            "LOCK_HELD"@
        }),
        late(level, mode, path).class == ExitClass::Timeout <==> level == Level::RegistryRmw || level
            == Level::StateRmw,
{
}

} // verus!
