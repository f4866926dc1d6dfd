//! What is reported of trees: how they stand to git, their ports, their resources,
//! and who uses them.

use vstd::prelude::*;
use vstd::string::*;

use crate::assoc;
use crate::assoc::Assoc;
use crate::course;
use crate::doctor::Geometry;
use crate::error::CoreError;
use crate::git::{AheadBehind, StatusEntry};
use crate::model;
use crate::model::{BelongsTo, DerivedPhase, ProbeFound, ResourceState};
use crate::order;
use crate::order::Keyed;
use crate::text;

verus! {

broadcast use vstd::string::group_string_axioms;

// ---------------------------------------------------------------------------
// How a tree stands to git
// ---------------------------------------------------------------------------

/// A count as it is reported: as it is, or the largest that can be.
pub open spec fn capped(n: u64) -> u32 {
    if n <= u32::MAX {
        n as u32
    } else {
        u32::MAX
    }
}

/// A count as it is reported.
pub fn to_u32(value: u64) -> (r: u32)
    ensures
        r == capped(value),
{
    if value <= 4294967295 {
        value as u32
    } else {
        4294967295
    }
}

/// How much of a tree is not committed.
#[derive(Clone, Copy, Debug, PartialEq, Eq, Structural)]
pub struct DirtyReport {
    pub modified: u64,
    pub untracked: u64,
}

/// Whether a change is one to a file that git tracks.
pub open spec fn is_modified(e: StatusEntry) -> bool {
    e.index != '?' && e.worktree != '?'
}

/// Whether a change is a file that git does not track.
pub open spec fn is_untracked(e: StatusEntry) -> bool {
    e.index == '?'
}

/// How many changes are to files that git tracks.
pub open spec fn modified_in(status: Seq<StatusEntry>) -> nat
    decreases status.len(),
{
    if status.len() == 0 {
        0
    } else {
        modified_in(status.drop_last()) + if is_modified(status.last()) {
            1nat
        } else {
            0nat
        }
    }
}

/// How many changes are files that git does not track.
pub open spec fn untracked_in(status: Seq<StatusEntry>) -> nat
    decreases status.len(),
{
    if status.len() == 0 {
        0
    } else {
        untracked_in(status.drop_last()) + if is_untracked(status.last()) {
            1nat
        } else {
            0nat
        }
    }
}

/// Counts what is not committed.
pub fn dirt(status: &Vec<StatusEntry>) -> (r: DirtyReport)
    ensures
        r.modified == modified_in(status@),
        r.untracked == untracked_in(status@),
{
    let mut modified: u64 = 0;
    let mut untracked: u64 = 0;
    let len: usize = status.len();
    let mut i: usize = 0;
    while i < status.len()
        invariant
            i <= status.len(),
            len == status.len(),
            modified == modified_in(status@.take(i as int)),
            untracked == untracked_in(status@.take(i as int)),
            modified <= i,
            untracked <= i,
        decreases status.len() - i,
    {
        proof {
            assert(status@.take(i + 1).drop_last() =~= status@.take(i as int));
        }
        if status[i].index != '?' && status[i].worktree != '?' {
            modified = modified + 1;
        }
        if status[i].index == '?' {
            untracked = untracked + 1;
        }
        i = i + 1;
    }
    proof {
        assert(status@.take(status@.len() as int) =~= status@);
    }
    DirtyReport { modified, untracked }
}

/// No change is counted twice.
pub proof fn no_change_counts_twice(status: Seq<StatusEntry>)
    ensures
        modified_in(status) + untracked_in(status) <= status.len(),
    decreases status.len(),
{
    if status.len() > 0 {
        no_change_counts_twice(status.drop_last());
    }
}

/// Every change is counted: one that git shows with two question marks as untracked, and
/// every other one, whatever its letters, as modified. A status as git gives it, with a
/// question mark in both places or in neither, is counted whole.
pub proof fn every_change_counts(status: Seq<StatusEntry>, e: StatusEntry)
    ensures
        modified_in(status.push(e)) == modified_in(status) + if e.index != '?' && e.worktree != '?' {
            1nat
        } else {
            0nat
        },
        untracked_in(status.push(e)) == untracked_in(status) + if e.index == '?' {
            1nat
        } else {
            0nat
        },
        modified_in(Seq::<StatusEntry>::empty()) == 0,
        untracked_in(Seq::<StatusEntry>::empty()) == 0,
        (forall|i: int|
            0 <= i < status.len() ==> ((#[trigger] status[i]).index == '?' <==> status[i].worktree
                == '?')) ==> modified_in(status) + untracked_in(status) == status.len(),
    decreases status.len(),
{
    assert(status.push(e).drop_last() =~= status);
    if status.len() > 0 {
        let init = status.drop_last();
        every_change_counts(init, status.last());
        assert(init.push(status.last()) =~= status);
        assert(forall|i: int| 0 <= i < init.len() ==> init[i] == status[i]);
    }
}

/// How far a tree is from its upstream.
#[derive(Clone, Copy, Debug, PartialEq, Eq, Structural)]
pub struct UpstreamReport {
    pub ahead: u32,
    pub behind: u32,
}

/// What git says of a tree that is there and is its own: its branch, its changes, the
/// commit that it is at where it has no branch, what is said of its upstream and how
/// far it is from that, how far it is behind the default branch of origin where there
/// is one, and what has drifted.
#[derive(Debug)]
pub struct GitFacts {
    pub branch: Option<String>,
    pub status: Vec<StatusEntry>,
    pub head: String,
    pub track: String,
    pub upstream: Option<AheadBehind>,
    pub behind_default: Option<u64>,
    pub drift: Vec<String>,
}

/// The upstream as it is reported: none of a tree without a branch, or whose upstream
/// is gone.
pub open spec fn upstream_of(g: GitFacts) -> Option<UpstreamReport> {
    if g.branch is None || g.track@ == "[gone]"@ {
        None
    } else {
        match g.upstream {
            Some(u) => Some(UpstreamReport { ahead: capped(u.ahead), behind: capped(u.behind) }),
            None => None,
        }
    }
}

fn upstream_report(g: &GitFacts) -> (r: Option<UpstreamReport>)
    ensures
        r == upstream_of(*g),
{
    if g.branch.is_none() || text::same(g.track.as_str(), "[gone]") {
        None
    } else {
        match &g.upstream {
            Some(u) => Some(UpstreamReport { ahead: to_u32(u.ahead), behind: to_u32(u.behind) }),
            None => None,
        }
    }
}

/// The upstream is told of exactly where there is a branch whose upstream is not gone and
/// git knows how far it is; each number as it is, or the largest that can be told.
pub proof fn an_upstream_is_told_where_it_is_there(g: GitFacts)
    ensures
        upstream_of(g) is Some <==> g.branch is Some && g.track@ != "[gone]"@ && g.upstream is Some,
        upstream_of(g) matches Some(r) ==> {
            &&& r.ahead <= g.upstream->0.ahead && r.behind <= g.upstream->0.behind
            &&& r.ahead < u32::MAX ==> r.ahead == g.upstream->0.ahead
            &&& r.behind < u32::MAX ==> r.behind == g.upstream->0.behind
        },
{
}

/// Whether it is asked what has drifted: not in haste, and only where origin has the
/// default branch and the last sync had inputs.
pub fn asks_drift(fast: bool, origin_has_default: bool, inputs: usize) -> (r: bool)
    ensures
        r == (!fast && origin_has_default && inputs > 0),
{
    !fast && origin_has_default && inputs > 0
}

// ---------------------------------------------------------------------------
// Sync
// ---------------------------------------------------------------------------

/// The inputs that are not as they were, of what they were and are; of as many as both
/// are there.
pub open spec fn changed_of(entries: Seq<(String, String)>, now: Seq<Seq<char>>) -> Seq<Seq<char>>
    decreases entries.len(),
{
    if entries.len() == 0 {
        Seq::<Seq<char>>::empty()
    } else {
        let rest = changed_of(entries.drop_last(), now);
        let i = entries.len() - 1;
        if i < now.len() && entries[i].1@ != now[i] {
            rest.push(entries[i].0@)
        } else {
            rest
        }
    }
}

/// The inputs of a sync that are not as they were, in order.
pub fn sync_changed(inputs: &Assoc<String>, now: &Vec<String>) -> (r: Vec<String>)
    requires
        inputs.wf(),
    ensures
        text::texts(r@) == changed_of(inputs.entries@, text::texts(now@)),
        assoc::ascending(text::texts(r@)),
{
    let ghost all = inputs.entries@;
    let ghost hashes = text::texts(now@);
    let mut out: Vec<String> = Vec::new();
    let mut i: usize = 0;
    proof {
        assert(text::texts(out@) =~= Seq::<Seq<char>>::empty());
    }
    while i < inputs.entries.len()
        invariant
            i <= inputs.entries.len(),
            inputs.wf(),
            all == inputs.entries@,
            hashes == text::texts(now@),
            text::texts(out@) == changed_of(all.take(i as int), hashes),
            assoc::ascending(text::texts(out@)),
            forall|k: int, j: int|
                0 <= k < out@.len() && i <= j < all.len() ==> assoc::text_lt(
                    #[trigger] text::texts(out@)[k],
                    (#[trigger] all[j]).0@,
                ),
        decreases inputs.entries.len() - i,
    {
        let ghost prior = text::texts(out@);
        proof {
            assert(all.take(i + 1).drop_last() =~= all.take(i as int));
        }
        if i < now.len() && !text::same(inputs.entries[i].1.as_str(), now[i].as_str()) {
            out.push(inputs.entries[i].0.clone());
            proof {
                assert(text::texts(out@) =~= prior.push(all[i as int].0@));
                assert(hashes[i as int] == now@[i as int]@);
            }
        } else {
            proof {
                if i < now.len() {
                    assert(hashes[i as int] == now@[i as int]@);
                }
            }
        }
        i = i + 1;
    }
    proof {
        assert(all.take(all.len() as int) =~= all);
    }
    out
}

/// An input is told of exactly where it is not as it was.
pub proof fn every_input_that_changed_is_told(entries: Seq<(String, String)>, now: Seq<Seq<char>>, y: Seq<char>)
    ensures
        changed_of(entries, now).contains(y) <==> (exists|i: int|
            0 <= i < entries.len() && i < now.len() && (#[trigger] entries[i]).1@ != now[i] && y == entries[i].0@),
    decreases entries.len(),
{
    let all = changed_of(entries, now);
    if entries.len() > 0 {
        let rest = entries.drop_last();
        let some = changed_of(rest, now);
        every_input_that_changed_is_told(rest, now, y);
        if all.contains(y) {
            let k = choose|k: int| 0 <= k < all.len() && all[k] == y;
            if k < some.len() {
                assert(some[k] == y);
                let i = choose|i: int| 0 <= i < rest.len() && i < now.len() && (#[trigger] rest[i]).1@ != now[i] && y == rest[i].0@;
                assert(entries[i] == rest[i]);
            } else {
                let i = rest.len() as int;
                assert(i < now.len() && entries[rest.len() as int].1@ != now[i] && y == entries[rest.len() as int].0@);
            }
        }
        if exists|i: int| 0 <= i < entries.len() && i < now.len() && (#[trigger] entries[i]).1@ != now[i] && y == entries[i].0@ {
            let i = choose|i: int| 0 <= i < entries.len() && i < now.len() && (#[trigger] entries[i]).1@ != now[i] && y == entries[i].0@;
            if i < rest.len() {
                assert(rest[i] == entries[i]);
                let k = choose|k: int| 0 <= k < some.len() && some[k] == y;
                assert(all[k] == y);
            } else {
                assert(all[all.len() - 1] == y);
            }
        }
    }
}

/// A sync that is on record.
#[derive(Debug)]
pub struct SyncFacts {
    pub ok: bool,
    pub at: String,
}

/// How the sync of a tree stands, in a word.
pub open spec fn sync_word(sync: Option<SyncFacts>, changed: nat) -> Seq<char> {
    match sync {
        None => "never"@,
        Some(s) => if !s.ok {
            "failed"@
        } else if changed > 0 {
            "stale"@
        } else {
            "ok"@
        },
    }
}

/// A tree that was never synced, whose sync failed, one with changed inputs and one without
/// are told apart, and each is told for what it is.
pub proof fn a_sync_is_told_for_what_it_is(sync: Option<SyncFacts>, changed: nat)
    ensures
        sync_word(sync, changed) == "never"@ <==> sync is None,
        sync_word(sync, changed) == "failed"@ <==> sync is Some && !sync->0.ok,
        sync_word(sync, changed) == "stale"@ <==> sync is Some && sync->0.ok && changed > 0,
        sync_word(sync, changed) == "ok"@ <==> sync is Some && sync->0.ok && changed == 0,
{
    reveal_strlit("never");
    reveal_strlit("failed");
    reveal_strlit("stale");
    reveal_strlit("ok");
    assert("never"@[0] == 'n' && "failed"@[0] == 'f' && "stale"@[0] == 's' && "ok"@[0] == 'o');
}

/// How the sync of a tree stands, in a word.
pub fn sync_state(sync: &Option<SyncFacts>, changed: usize) -> (r: &'static str)
    ensures
        r@ == sync_word(*sync, changed as nat),
{
    match sync {
        None => "never",
        Some(s) => if !s.ok {
            "failed"
        } else if changed > 0 {
            "stale"
        } else {
            "ok"
        },
    }
}

// ---------------------------------------------------------------------------
// Ports
// ---------------------------------------------------------------------------

/// A port of a tree: its name, its place, and what a probe said, where one was made
/// and went well.
#[derive(Debug)]
pub struct PortFacts {
    pub name: String,
    pub index: u8,
    pub probed: Option<bool>,
}

/// A port as it is reported.
#[derive(Debug)]
pub struct PortReport {
    pub name: String,
    pub port: u16,
    pub bound: Option<bool>,
    pub index: u8,
}

impl Keyed for PortReport {
    open spec fn key(&self) -> Seq<Seq<int>> {
        seq![seq![self.index as int]]
    }

    fn sort_key(&self) -> (r: Vec<Vec<u64>>) {
        let mut key: Vec<Vec<u64>> = Vec::new();
        key.push(order::number_part(self.index as u64));
        proof {
            assert(order::key_view(key@) =~= seq![seq![self.index as int]]);
        }
        key
    }
}

/// A port as it is reported: nothing is said of whether it is in use where no probe
/// was to be made.
pub open spec fn port_reported(p: PortFacts, port_base: u16, fast: bool) -> PortReport {
    PortReport {
        name: p.name,
        port: (port_base + p.index) as u16,
        bound: if fast {
            None
        } else {
            p.probed
        },
        index: p.index,
    }
}

/// A port is the one at its place above the base, and whether it is in use is told as it
/// was probed, unless no probe was to be made.
pub proof fn a_port_is_told_by_its_place(p: PortFacts, port_base: u16, fast: bool)
    requires
        port_base + p.index <= u16::MAX,
    ensures
        port_reported(p, port_base, fast).port - port_base == p.index,
        port_reported(p, port_base, fast).index == p.index,
        port_reported(p, port_base, fast).name == p.name,
        fast ==> port_reported(p, port_base, fast).bound is None,
        !fast ==> port_reported(p, port_base, fast).bound == p.probed,
{
}

/// Whether two reports of ports say the same.
pub open spec fn same_port(a: PortReport, b: PortReport) -> bool {
    a.name@ == b.name@ && a.port == b.port && a.bound == b.bound && a.index == b.index
}

/// The ports of a tree, by their places.
pub fn port_reports(ports: &Vec<PortFacts>, port_base: u16, fast: bool) -> (r: Vec<PortReport>)
    requires
        forall|i: int|
            0 <= i < ports@.len() ==> port_base + (#[trigger] ports@[i]).index <= u16::MAX,
    ensures
        exists|given: Seq<PortReport>|
            #![trigger order::sorted(given)]
            given.len() == ports@.len() && (forall|i: int|
                0 <= i < given.len() ==> same_port(
                    #[trigger] given[i],
                    port_reported(ports@[i], port_base, fast),
                )) && r@ == order::sorted(given),
{
    let mut out: Vec<PortReport> = Vec::new();
    let mut i: usize = 0;
    while i < ports.len()
        invariant
            i <= ports.len(),
            forall|k: int|
                0 <= k < ports@.len() ==> port_base + (#[trigger] ports@[k]).index <= u16::MAX,
            out@.len() == i,
            forall|k: int|
                0 <= k < i ==> same_port(
                    #[trigger] out@[k],
                    port_reported(ports@[k], port_base, fast),
                ),
        decreases ports.len() - i,
    {
        let p = &ports[i];
        let bound = if fast {
            None
        } else {
            p.probed
        };
        out.push(
            PortReport {
                name: p.name.clone(),
                port: port_base + p.index as u16,
                bound,
                index: p.index,
            },
        );
        i = i + 1;
    }
    order::sort(out)
}

// ---------------------------------------------------------------------------
// Resources
// ---------------------------------------------------------------------------

/// What a resource belongs to, in a word.
pub open spec fn tied_word(tied_to: BelongsTo) -> Seq<char> {
    match tied_to {
        BelongsTo::Tree => "tree"@,
        BelongsTo::Repo => "repo"@,
        BelongsTo::Machine => "machine"@,
    }
}

/// What a resource belongs to, in a word.
pub fn tied_name(tied_to: BelongsTo) -> (r: &'static str)
    ensures
        r@ == tied_word(tied_to),
{
    match tied_to {
        BelongsTo::Tree => "tree",
        BelongsTo::Repo => "repo",
        BelongsTo::Machine => "machine",
    }
}

/// How a resource stands, in a word.
pub fn state_name(state: ResourceState) -> (r: &'static str)
    ensures
        r@ == match state {
            ResourceState::Declared => "declared"@,
            ResourceState::Present => "present"@,
            ResourceState::Orphaned => "orphaned"@,
        },
{
    match state {
        ResourceState::Declared => "declared",
        ResourceState::Present => "present",
        ResourceState::Orphaned => "orphaned",
    }
}

/// What a probe found, in a word.
pub fn probe_name(found: ProbeFound) -> (r: &'static str)
    ensures
        r@ == match found {
            ProbeFound::Present => "present"@,
            ProbeFound::Absent => "absent"@,
            ProbeFound::Failed => "failed"@,
        },
{
    match found {
        ProbeFound::Present => "present",
        ProbeFound::Absent => "absent",
        ProbeFound::Failed => "failed",
    }
}

/// A resource as it is reported.
#[derive(Debug)]
pub struct ResourceReport {
    pub scope: String,
    pub task: String,
    pub tied_to: BelongsTo,
    pub name: String,
    pub state: ResourceState,
    pub reason: Option<String>,
    pub outside: bool,
    pub undeclared: bool,
    pub has_instance: bool,
    pub holder: Option<String>,
    pub last_probe: Option<(String, ProbeFound)>,
    pub last_error: Option<(String, String, String)>,
}

/// The place of what a resource belongs to among the others.
pub open spec fn tied_rank(tied_to: BelongsTo) -> int {
    match tied_to {
        BelongsTo::Tree => 0,
        BelongsTo::Repo => 1,
        BelongsTo::Machine => 2,
    }
}

impl Keyed for ResourceReport {
    open spec fn key(&self) -> Seq<Seq<int>> {
        seq![
            seq![tied_rank(self.tied_to)],
            order::ranks(self.scope@),
            order::ranks(self.task@),
        ]
    }

    fn sort_key(&self) -> (r: Vec<Vec<u64>>) {
        let rank: u64 = match self.tied_to {
            BelongsTo::Tree => 0,
            BelongsTo::Repo => 1,
            BelongsTo::Machine => 2,
        };
        let mut key: Vec<Vec<u64>> = Vec::new();
        key.push(order::number_part(rank));
        key.push(order::text_part(self.scope.as_str()));
        key.push(order::text_part(self.task.as_str()));
        proof {
            assert(order::key_view(key@) =~= self.key());
        }
        key
    }
}

/// The resources of a tree: its own first, then those of its repository, then those of
/// the machine, each by scope and task.
pub fn resource_reports(resources: Vec<ResourceReport>) -> (r: Vec<ResourceReport>)
    ensures
        r@ == order::sorted(resources@),
{
    order::sort(resources)
}

/// What a resource belongs to: a label, where it belongs to a repository.
#[derive(Debug)]
pub struct SharedKey {
    pub tied_to: BelongsTo,
    pub label: Option<String>,
}

/// Whether a resource that trees share is reported of the trees of a label.
pub open spec fn shared_with(key: SharedKey, label: Seq<char>) -> bool {
    match key.tied_to {
        BelongsTo::Tree => false,
        BelongsTo::Repo => text::opt(key.label) == Some(label),
        BelongsTo::Machine => true,
    }
}

/// Whether a resource that trees share is reported of the trees of a label.
pub fn is_shared_with(key: &SharedKey, label: &str) -> (r: bool)
    ensures
        r == shared_with(*key, label@),
{
    match key.tied_to {
        BelongsTo::Tree => false,
        BelongsTo::Repo => text::is_some_text(&key.label, label),
        BelongsTo::Machine => true,
    }
}

/// The places of the resources that are reported of the trees of a label.
pub open spec fn shared_places(keys: Seq<SharedKey>, label: Seq<char>) -> Seq<usize>
    decreases keys.len(),
{
    if keys.len() == 0 {
        Seq::<usize>::empty()
    } else {
        let rest = shared_places(keys.drop_last(), label);
        if shared_with(keys.last(), label) {
            rest.push((keys.len() - 1) as usize)
        } else {
            rest
        }
    }
}

/// The places of the resources that are reported of the trees of a label.
pub fn for_tree(keys: &Vec<SharedKey>, label: &str) -> (r: Vec<usize>)
    ensures
        r@ == shared_places(keys@, label@),
{
    let mut out: Vec<usize> = Vec::new();
    let mut i: usize = 0;
    while i < keys.len()
        invariant
            i <= keys.len(),
            out@ == shared_places(keys@.take(i as int), label@),
        decreases keys.len() - i,
    {
        proof {
            assert(keys@.take(i + 1).drop_last() =~= keys@.take(i as int));
        }
        if is_shared_with(&keys[i], label) {
            out.push(i);
        }
        i = i + 1;
    }
    proof {
        assert(keys@.take(keys@.len() as int) =~= keys@);
    }
    out
}

/// A resource of the machine is reported of every tree, one of a repository of the trees of
/// its label alone, and one of a tree is not shared.
pub proof fn what_is_shared(keys: Seq<SharedKey>, label: Seq<char>, place: usize)
    requires
        keys.len() <= usize::MAX,
    ensures
        shared_places(keys, label).contains(place) <==> (place < keys.len() && (keys[place as
            int].tied_to == BelongsTo::Machine || (keys[place as int].tied_to == BelongsTo::Repo
            && keys[place as int].label is Some && keys[place as int].label->0@ == label))),
    decreases keys.len(),
{
    let all = shared_places(keys, label);
    if keys.len() > 0 {
        let rest = keys.drop_last();
        let some = shared_places(rest, label);
        what_is_shared(rest, label, place);
        if all.contains(place) {
            let k = choose|k: int| 0 <= k < all.len() && all[k] == place;
            if k < some.len() {
                assert(some[k] == place);
            }
        }
        if some.contains(place) {
            let k = choose|k: int| 0 <= k < some.len() && some[k] == place;
            assert(all[k] == place);
        } else if place == keys.len() - 1 && shared_with(keys.last(), label) {
            assert(all[all.len() - 1] == place);
        }
    }
}

/// Whether a resource is probed from the tree that stands for a label.
pub fn probed_for_label(key: &SharedKey, label: &str) -> (r: bool)
    ensures
        r == (key.tied_to == BelongsTo::Repo && text::opt(key.label) == Some(label@)),
{
    key.tied_to == BelongsTo::Repo && text::is_some_text(&key.label, label)
}

/// The trees that stand for their labels: the first of each label that is there and is
/// its own.
pub open spec fn standing(trees: Seq<(String, bool)>) -> Map<Seq<char>, usize>
    decreases trees.len(),
{
    if trees.len() == 0 {
        Map::empty()
    } else {
        let rest = standing(trees.drop_last());
        let last = trees.last();
        if last.1 && !rest.contains_key(last.0@) {
            rest.insert(last.0@, (trees.len() - 1) as usize)
        } else {
            rest
        }
    }
}

/// The trees that stand for their labels, of the label of each tree and whether it is
/// there and is its own. What belongs to the machine is probed from the first of them.
pub fn probe_trees(trees: &Vec<(String, bool)>) -> (r: Assoc<usize>)
    ensures
        r.wf(),
        r@ == standing(trees@),
{
    let mut out: Assoc<usize> = Assoc::new();
    let mut i: usize = 0;
    while i < trees.len()
        invariant
            i <= trees.len(),
            out.wf(),
            out@ == standing(trees@.take(i as int)),
        decreases trees.len() - i,
    {
        proof {
            assert(trees@.take(i + 1).drop_last() =~= trees@.take(i as int));
        }
        if trees[i].1 && out.get(trees[i].0.as_str()).is_none() {
            out.put(trees[i].0.as_str(), i);
        }
        i = i + 1;
    }
    proof {
        assert(trees@.take(trees@.len() as int) =~= trees@);
    }
    out
}

/// A tree that stands for a label is of that label, is there and is its own.
pub proof fn a_standing_tree_is_usable(trees: Seq<(String, bool)>, label: Seq<char>)
    requires
        trees.len() <= usize::MAX,
        standing(trees).contains_key(label),
    ensures
        standing(trees)[label] < trees.len(),
        trees[standing(trees)[label] as int].0@ == label,
        trees[standing(trees)[label] as int].1,
    decreases trees.len(),
{
    let rest = trees.drop_last();
    if standing(rest).contains_key(label) {
        a_standing_tree_is_usable(rest, label);
    }
}

/// A label has a tree that stands for it wherever one of its trees is there and is its
/// own, and then it is the first of these.
pub proof fn the_first_usable_tree_stands(trees: Seq<(String, bool)>, i: int)
    requires
        trees.len() <= usize::MAX,
        0 <= i < trees.len(),
        trees[i].1,
    ensures
        standing(trees).contains_key(trees[i].0@),
        standing(trees)[trees[i].0@] <= i,
    decreases trees.len(),
{
    if i < trees.len() - 1 {
        let rest = trees.drop_last();
        assert(rest[i] == trees[i]);
        the_first_usable_tree_stands(rest, i);
    } else {
        let rest = trees.drop_last();
        if standing(rest).contains_key(trees[i].0@) {
            a_standing_tree_is_usable(rest, trees[i].0@);
        }
    }
}

// ---------------------------------------------------------------------------
// Sessions and holders
// ---------------------------------------------------------------------------

/// Whether a tree has a session, in a word.
pub fn session_state(no_backend: bool, asked: &Result<bool, CoreError>) -> (r: &'static str)
    ensures
        r@ == if no_backend {
            "no"@
        } else {
            match *asked {
                Ok(true) => "yes"@,
                Ok(false) => "no"@,
                Err(_) => "unknown"@,
            }
        },
{
    if no_backend {
        return "no";
    }
    match asked {
        Ok(yes) => if *yes {
            "yes"
        } else {
            "no"
        },
        Err(_) => "unknown",
    }
}

/// A process that uses a tree, as it is reported.
#[derive(Debug)]
pub struct ListLockReport {
    pub label: String,
    pub name: String,
    pub pid: u32,
    pub verb: String,
    pub since: String,
}

impl Keyed for ListLockReport {
    open spec fn key(&self) -> Seq<Seq<int>> {
        seq![order::ranks(self.label@), order::ranks(self.name@), seq![self.pid as int]]
    }

    fn sort_key(&self) -> (r: Vec<Vec<u64>>) {
        let mut key: Vec<Vec<u64>> = Vec::new();
        key.push(order::text_part(self.label.as_str()));
        key.push(order::text_part(self.name.as_str()));
        key.push(order::number_part(self.pid as u64));
        proof {
            assert(order::key_view(key@) =~= self.key());
        }
        key
    }
}

/// The processes that use trees, by label, tree and process.
pub fn lock_reports(locks: Vec<ListLockReport>) -> (r: Vec<ListLockReport>)
    ensures
        r@ == order::sorted(locks@),
{
    order::sort(locks)
}

// ---------------------------------------------------------------------------
// The report of a tree
// ---------------------------------------------------------------------------

/// What is seen of a tree. `git` is what git says, where the tree is there and is its
/// own.
#[derive(Debug)]
pub struct ListFacts {
    pub target: String,
    pub label: String,
    pub name: String,
    pub canonical: bool,
    pub tree_id: String,
    pub path: String,
    pub slot: u32,
    pub geometry: Geometry,
    pub phase: DerivedPhase,
    pub git: Option<GitFacts>,
    pub sync: Option<SyncFacts>,
    pub changed: Vec<String>,
    pub verify: Option<(bool, String)>,
    pub session: String,
    pub session_name: String,
    pub agent: Option<String>,
    pub resources: Vec<ResourceReport>,
    pub ports: Vec<PortFacts>,
    pub disk_kb: Option<u64>,
}

/// What is reported of a tree's sync.
#[derive(Debug)]
pub struct SyncReport {
    pub state: String,
    pub at: Option<String>,
    pub changed: Vec<String>,
    pub drift: Vec<String>,
}

/// What is reported of a tree.
#[derive(Debug)]
pub struct TreeReport {
    pub target: String,
    pub label: String,
    pub name: String,
    pub canonical: bool,
    pub tree_id: String,
    pub path: String,
    pub slot: u32,
    pub geometry: Geometry,
    pub phase: String,
    pub branch: Option<String>,
    pub detached_sha: Option<String>,
    pub dirty: Option<DirtyReport>,
    pub upstream: Option<UpstreamReport>,
    pub behind_default: Option<u32>,
    pub sync: SyncReport,
    pub verify: Option<(bool, String)>,
    pub session: String,
    pub session_name: String,
    pub agent: Option<String>,
    pub resources: Vec<ResourceReport>,
    pub ports: Vec<PortReport>,
    pub disk_kb: Option<u64>,
}

/// What a report says that git tells.
pub open spec fn tells_git(r: TreeReport, git: Option<GitFacts>) -> bool {
    match git {
        Some(g) => {
            &&& r.branch == g.branch
            &&& text::opt(r.detached_sha) == if g.branch is None {
                Some(g.head@)
            } else {
                None
            }
            &&& (r.dirty matches Some(d) && d.modified == modified_in(g.status@) && d.untracked
                == untracked_in(g.status@))
            &&& r.upstream == upstream_of(g)
            &&& r.behind_default == match g.behind_default {
                Some(n) => Some(capped(n)),
                None => None,
            }
            &&& r.sync.drift == g.drift
        },
        None => {
            &&& r.branch is None
            &&& r.detached_sha is None
            &&& r.dirty is None
            &&& r.upstream is None
            &&& r.behind_default is None
            &&& r.sync.drift@ == Seq::<String>::empty()
        },
    }
}

/// What a report says of the sync of a tree: inputs have changed only in one that is
/// there and is its own.
pub open spec fn tells_sync(r: TreeReport, f: ListFacts) -> bool {
    &&& (if f.git is Some {
        r.sync.changed == f.changed
    } else {
        r.sync.changed@ == Seq::<String>::empty()
    })
    &&& r.sync.state@ == sync_word(f.sync, r.sync.changed@.len())
    &&& r.sync.at == match f.sync {
        Some(s) => Some(s.at),
        None => None,
    }
}

/// What a report says of what git tells: the commit only where there is no branch, every
/// change, and nothing at all of a tree that is not there or not its own. Inputs have
/// changed, and the sync is stale, only in one that is.
pub proof fn a_report_tells_what_git_tells(r: TreeReport, f: ListFacts)
    requires
        tells_git(r, f.git),
        tells_sync(r, f),
    ensures
        f.git matches Some(g) ==> {
            &&& r.branch == g.branch
            &&& r.detached_sha is Some <==> g.branch is None
            &&& r.detached_sha matches Some(sha) ==> sha@ == g.head@
            &&& (forall|i: int|
                0 <= i < g.status@.len() ==> ((#[trigger] g.status@[i]).index == '?'
                    <==> g.status@[i].worktree == '?')) ==> r.dirty->0.modified
                + r.dirty->0.untracked == g.status@.len()
            &&& r.behind_default is Some <==> g.behind_default is Some
            &&& r.behind_default matches Some(n) ==> n <= g.behind_default->0 && (n < u32::MAX ==> n
                == g.behind_default->0)
            &&& r.sync.changed == f.changed && r.sync.drift == g.drift
        },
        f.git is None ==> r.branch is None && r.detached_sha is None && r.dirty is None
            && r.upstream is None && r.behind_default is None && r.sync.changed@.len() == 0
            && r.sync.drift@.len() == 0,
        r.sync.state@ == "stale"@ <==> f.sync is Some && f.sync->0.ok && f.git is Some
            && f.changed@.len() > 0,
        r.sync.at is Some <==> f.sync is Some,
        r.sync.at is Some ==> r.sync.at->0 == f.sync->0.at,
{
    a_sync_is_told_for_what_it_is(f.sync, r.sync.changed@.len());
    if f.git is Some {
        let status = f.git->0.status@;
        if status.len() > 0 {
            every_change_counts(status.drop_last(), status.last());
            every_change_counts(status, status.last());
        }
    }
}

/// Reports a tree, of what is seen of it.
pub fn tree_report(f: ListFacts, fast: bool) -> (r: TreeReport)
    requires
        forall|i: int|
            0 <= i < f.ports@.len() ==> f.geometry.port_base + (#[trigger] f.ports@[i]).index
                <= u16::MAX,
    ensures
        r.target == f.target && r.label == f.label && r.name == f.name,
        r.canonical == f.canonical && r.tree_id == f.tree_id && r.path == f.path,
        r.slot == f.slot && r.geometry == f.geometry,
        r.phase@ == model::phase_text(f.phase),
        tells_git(r, f.git),
        tells_sync(r, f),
        r.verify == f.verify && r.session == f.session,
        r.session_name == f.session_name && r.agent == f.agent,
        r.resources@ == order::sorted(f.resources@),
        exists|given: Seq<PortReport>|
            #![trigger order::sorted(given)]
            given.len() == f.ports@.len() && (forall|i: int|
                0 <= i < given.len() ==> same_port(
                    #[trigger] given[i],
                    port_reported(f.ports@[i], f.geometry.port_base, fast),
                )) && r.ports@ == order::sorted(given),
        r.disk_kb == f.disk_kb,
{
    let ports = port_reports(&f.ports, f.geometry.port_base, fast);
    let resources = resource_reports(f.resources);
    let usable = f.git.is_some();
    let changed: Vec<String> = if usable {
        f.changed
    } else {
        Vec::new()
    };
    let state = sync_state(&f.sync, changed.len());
    let at = match f.sync {
        Some(s) => Some(s.at),
        None => None,
    };
    let (branch, detached_sha, dirty, upstream, behind_default, drift) = match f.git {
        Some(g) => {
            let dirty = dirt(&g.status);
            let upstream = upstream_report(&g);
            let behind: Option<u32> = match g.behind_default {
                Some(n) => Some(to_u32(n)),
                None => None,
            };
            let detached = if g.branch.is_none() {
                Some(g.head)
            } else {
                None
            };
            (g.branch, detached, Some(dirty), upstream, behind, g.drift)
        },
        None => (None, None, None, None, None, Vec::new()),
    };
    TreeReport {
        target: f.target,
        label: f.label,
        name: f.name,
        canonical: f.canonical,
        tree_id: f.tree_id,
        path: f.path,
        slot: f.slot,
        geometry: f.geometry,
        phase: text::owned(model::phase_name(f.phase)),
        branch,
        detached_sha,
        dirty,
        upstream,
        behind_default,
        sync: SyncReport { state: text::owned(state), at, changed, drift },
        verify: f.verify,
        session: f.session,
        session_name: f.session_name,
        agent: f.agent,
        resources,
        ports,
        disk_kb: f.disk_kb,
    }
}

} // verus!
