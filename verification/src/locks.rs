//! The list of locks: those of trees, and those with slots that configurations name.

use vstd::prelude::*;
use vstd::string::*;

use crate::order;
use crate::order::Keyed;
use crate::summary::LockRow;
use crate::text;

verus! {

broadcast use vstd::string::group_string_axioms;

impl Keyed for LockRow {
    open spec fn key(&self) -> Seq<Seq<int>> {
        seq![seq![self.level as int], order::ranks(self.name@)]
    }

    fn sort_key(&self) -> (r: Vec<Vec<u64>>) {
        let mut key: Vec<Vec<u64>> = Vec::new();
        key.push(order::number_part(self.level as u64));
        key.push(order::text_part(self.name.as_str()));
        proof {
            assert(order::key_view(key@) =~= self.key());
        }
        key
    }
}

/// The locks by level and name.
pub fn lock_list(locks: Vec<LockRow>) -> (r: Vec<LockRow>)
    ensures
        r@ == order::sorted(locks@),
{
    order::sort(locks)
}

/// The lock of a tree as it is listed.
pub fn tree_lock(target: &str, p: &str, held: bool, holder: Option<(u32, String)>) -> (r: LockRow)
    ensures
        r.level == 1 && r.name@ == target@ && r.path@ == p@ && r.held == held && r.holder
            == holder,
        r.slots is None && r.held_slots is None && r.holders@.len() == 0,
{
    LockRow {
        level: 1,
        name: target.to_owned(),
        held,
        slots: None,
        held_slots: None,
        holders: Vec::new(),
        holder,
        path: p.to_owned(),
    }
}

/// How many slots are held, as it is listed.
pub open spec fn slots_held(n: nat) -> u32 {
    if n <= u16::MAX {
        n as u32
    } else {
        u16::MAX as u32
    }
}

/// A lock with slots as it is listed.
pub fn named_lock(
    label: &str,
    name: &str,
    p: &str,
    slots: u16,
    holders: Vec<(u32, Option<(u32, String)>)>,
) -> (r: LockRow)
    ensures
        r.level == 4 && r.name@ == label@ + ":"@ + name@ && r.path@ == p@,
        r.held == (holders@.len() > 0) && r.holder is None,
        r.slots == Some(slots as u32),
        r.held_slots == Some(slots_held(holders@.len())),
        r.holders == holders,
{
    let n: usize = holders.len();
    let held_slots: u32 = if n <= 65535 {
        n as u32
    } else {
        65535
    };
    LockRow {
        level: 4,
        name: label.to_owned().concat(":").concat(name),
        held: held_slots > 0,
        slots: Some(slots as u32),
        held_slots: Some(held_slots),
        holders,
        holder: None,
        path: p.to_owned(),
    }
}

/// A lock that a tree's configuration names: of which label, and how many slots it has;
/// and whether the tree is canonical.
#[derive(Debug)]
pub struct NamedLock {
    pub label: String,
    pub name: String,
    pub slots: u16,
    pub canonical: bool,
}

/// What a lock is known by.
pub open spec fn lock_key(l: NamedLock) -> (Seq<char>, Seq<char>) {
    (l.label@, l.name@)
}

fn find_lock(locks: &Vec<NamedLock>, label: &str, name: &str, canonical: bool) -> (r: Option<usize>)
    ensures
        match r {
            Some(i) => i < locks@.len() && locks@[i as int].canonical == canonical && lock_key(
                locks@[i as int],
            ) == (label@, name@) && (forall|k: int|
                0 <= k < i ==> !((#[trigger] locks@[k]).canonical == canonical && lock_key(
                    locks@[k],
                ) == (label@, name@))),
            None => forall|k: int|
                0 <= k < locks@.len() ==> !((#[trigger] locks@[k]).canonical == canonical
                    && lock_key(locks@[k]) == (label@, name@)),
        },
{
    let mut i: usize = 0;
    while i < locks.len()
        invariant
            i <= locks.len(),
            forall|k: int|
                0 <= k < i ==> !((#[trigger] locks@[k]).canonical == canonical && lock_key(
                    locks@[k],
                ) == (label@, name@)),
        decreases locks.len() - i,
    {
        if locks[i].canonical == canonical && text::same(locks[i].label.as_str(), label)
            && text::same(locks[i].name.as_str(), name) {
            return Some(i);
        }
        i = i + 1;
    }
    None
}

/// How many slots a lock has, of those that configurations name: what a canonical
/// checkout says stands before what another tree says, and the first of each.
pub fn slots_of(locks: &Vec<NamedLock>, label: &str, name: &str) -> (r: Option<u16>)
    ensures
        match r {
            Some(n) => exists|i: int|
                0 <= i < locks@.len() && (#[trigger] locks@[i]).slots == n && lock_key(locks@[i])
                    == (label@, name@) && (forall|k: int|
                    0 <= k < locks@.len() && lock_key(#[trigger] locks@[k]) == (label@, name@)
                        ==> (locks@[k].canonical ==> locks@[i].canonical && i <= k) && (
                    !locks@[k].canonical && !locks@[i].canonical ==> i <= k)),
            None => forall|k: int|
                0 <= k < locks@.len() ==> lock_key(#[trigger] locks@[k]) != (label@, name@),
        },
{
    match find_lock(locks, label, name, true) {
        Some(i) => Some(locks[i].slots),
        None => match find_lock(locks, label, name, false) {
            Some(i) => Some(locks[i].slots),
            None => None,
        },
    }
}

} // verus!
