//! Pruning: what is left over and what is done about it.

use vstd::prelude::*;
use vstd::string::*;

use crate::assoc;
use crate::assoc::Assoc;
use crate::course;
use crate::error;
use crate::error::{CoreError, ExitClass};
use crate::fsx::Listed;
use crate::model;
use crate::model::DerivedPhase;
use crate::order;
use crate::order::Keyed;
use crate::output;
use crate::output::Notice;
use crate::path;
use crate::proc::copy_texts;
use crate::remove;
use crate::remove::RemoveData;
use crate::text;

verus! {

broadcast use vstd::string::group_string_axioms;

/// What is done about something that is left over.
#[derive(Clone, Copy, Debug, PartialEq, Eq, Structural)]
pub enum PruneAction {
    Keep,
    Remove,
    DestroyRecords,
    Collect,
    DeleteState,
    DeleteCache,
    DeleteExclusive,
}

/// The name of an action.
pub open spec fn action_text(action: PruneAction) -> Seq<char> {
    match action {
        PruneAction::Keep => "keep"@,
        PruneAction::Remove => "remove"@,
        PruneAction::DestroyRecords => "destroy-records"@,
        PruneAction::Collect => "collect"@,
        PruneAction::DeleteState => "delete-state"@,
        PruneAction::DeleteCache => "delete-cache"@,
        PruneAction::DeleteExclusive => "delete-exclusive"@,
    }
}

/// The name of an action.
pub fn action_name(action: PruneAction) -> (r: &'static str)
    ensures
        r@ == action_text(action),
{
    match action {
        PruneAction::Keep => "keep",
        PruneAction::Remove => "remove",
        PruneAction::DestroyRecords => "destroy-records",
        PruneAction::Collect => "collect",
        PruneAction::DeleteState => "delete-state",
        PruneAction::DeleteCache => "delete-cache",
        PruneAction::DeleteExclusive => "delete-exclusive",
    }
}

/// What came of an action: the report of a removal; how many records there were and how
/// many are left; whether anything was deleted; or that it was kept or collected.
#[derive(Debug)]
pub enum ItemResult {
    Removed(RemoveData),
    Records { records: usize, remaining: usize },
    Deleted(bool),
    Kept,
    Collected,
}

/// What is known of what came of an action.
pub enum Outcome {
    Removed(remove::Gone),
    Records { records: int, remaining: int },
    Deleted(bool),
    Kept,
    Collected,
}

impl View for ItemResult {
    type V = Outcome;

    open spec fn view(&self) -> Outcome {
        match self {
            ItemResult::Removed(data) => Outcome::Removed(data@),
            ItemResult::Records { records, remaining } => Outcome::Records {
                records: *records as int,
                remaining: *remaining as int,
            },
            ItemResult::Deleted(yes) => Outcome::Deleted(*yes),
            ItemResult::Kept => Outcome::Kept,
            ItemResult::Collected => Outcome::Collected,
        }
    }
}

/// Something that is left over, why it is, what is done about it, and what came of
/// that.
#[derive(Debug)]
pub struct PruneItem {
    pub target: String,
    pub reasons: Vec<String>,
    pub action: PruneAction,
    pub result: Option<ItemResult>,
}

/// What is planned for something.
#[verifier::ext_equal]
pub struct Item {
    pub target: Seq<char>,
    pub reasons: Seq<Seq<char>>,
    pub action: PruneAction,
    pub result: Option<Outcome>,
}

impl View for PruneItem {
    type V = Item;

    open spec fn view(&self) -> Item {
        Item {
            target: self.target@,
            reasons: text::texts(self.reasons@),
            action: self.action,
            result: match self.result {
                Some(r) => Some(r@),
                None => None,
            },
        }
    }
}

/// What is planned for some things.
pub open spec fn item_views(items: Seq<PruneItem>) -> Seq<Item> {
    items.map_values(|i: PruneItem| i@)
}

/// An item for one reason.
pub open spec fn item(target: Seq<char>, reason: Seq<char>, action: PruneAction) -> Item {
    Item { target, reasons: seq![reason], action, result: None }
}

fn one_reason(target: &str, reason: &str, action: PruneAction) -> (r: PruneItem)
    ensures
        r@ == item(target@, reason@, action),
{
    let mut reasons: Vec<String> = Vec::new();
    reasons.push(reason.to_owned());
    proof {
        assert(text::texts(reasons@) =~= seq![reason@]);
    }
    PruneItem { target: target.to_owned(), reasons, action, result: None }
}

// ---------------------------------------------------------------------------
// The plan
// ---------------------------------------------------------------------------

/// What the records of one tree come to: they are destroyed where the tree is gone,
/// replaced, or was left in the middle of its removal; else it is refused.
pub fn plan_records(target: &str, phase: DerivedPhase) -> (r: Result<PruneItem, CoreError>)
    ensures
        r is Ok == (phase == DerivedPhase::Missing || phase == DerivedPhase::Replaced || phase
            == DerivedPhase::RemoveInterrupted),
        r matches Ok(i) ==> i@ == item(target@, "records"@, PruneAction::DestroyRecords),
        r matches Err(e) ==> e@ == error::fault(
            ExitClass::State,
            "PRUNE_RECORDS_REFUSED"@,
            target@ + " is in phase "@ + model::phase_text(phase),
            "use --records only for missing, replaced, or remove-interrupted trees"@,
        ),
{
    match phase {
        DerivedPhase::Missing | DerivedPhase::Replaced | DerivedPhase::RemoveInterrupted => Ok(
            one_reason(target, "records", PruneAction::DestroyRecords),
        ),
        _ => {
            let message = target.to_owned().concat(" is in phase ").concat(
                model::phase_name(phase),
            );
            Err(
                CoreError::new(
                    ExitClass::State,
                    "PRUNE_RECORDS_REFUSED",
                    message.as_str(),
                    "use --records only for missing, replaced, or remove-interrupted trees",
                ),
            )
        },
    }
}

/// What git says of a tree that may go with its branch.
#[derive(Clone, Copy, Debug, PartialEq, Eq, Structural)]
pub struct BranchFacts {
    pub dirty: bool,
    pub gone: bool,
    pub merged: bool,
}

/// A tree that may be left over. What git says of it is asked only where branches
/// are looked at and the tree is ready.
#[derive(Debug)]
pub struct TreeFacts {
    pub label: String,
    pub target: String,
    pub canonical: bool,
    pub phase: DerivedPhase,
    pub orphaned: bool,
    pub branch: Option<BranchFacts>,
}

/// What a tree that is missing, or that has orphaned records, comes to.
pub open spec fn first_reason(t: TreeFacts) -> (Seq<Seq<char>>, PruneAction) {
    if t.phase == DerivedPhase::Missing {
        (seq!["missing"@], PruneAction::Remove)
    } else if t.orphaned {
        (seq!["orphaned-records"@], PruneAction::DestroyRecords)
    } else {
        (Seq::<Seq<char>>::empty(), PruneAction::Keep)
    }
}

/// Reasons with one more where it holds.
pub open spec fn with_reason(reasons: Seq<Seq<char>>, holds: bool, reason: Seq<char>) -> Seq<
    Seq<char>,
> {
    if holds {
        reasons.push(reason)
    } else {
        reasons
    }
}

/// What a tree comes to: why, and what is done. A tree whose branch is merged or
/// gone goes, unless it holds changes.
pub open spec fn tree_reasons(t: TreeFacts, merged: bool, gone: bool) -> (
    Seq<Seq<char>>,
    PruneAction,
) {
    let (reasons, action) = first_reason(t);
    if (merged || gone) && t.phase == DerivedPhase::Ready && t.branch is Some {
        let b = t.branch->0;
        let more = with_reason(
            with_reason(reasons, merged && b.merged, "merged"@),
            gone && b.gone,
            "gone"@,
        );
        if more.len() == 0 {
            (more, action)
        } else if b.dirty {
            (more.push("dirty"@), PruneAction::Keep)
        } else {
            (more, PruneAction::Remove)
        }
    } else {
        (reasons, action)
    }
}

/// What a tree is planned for, if anything. A canonical checkout never is.
pub open spec fn tree_item(t: TreeFacts, label: Option<Seq<char>>, merged: bool, gone: bool) -> Option<
    Item,
> {
    if t.canonical || !matches_label(label, t.label@) {
        None
    } else {
        let (reasons, action) = tree_reasons(t, merged, gone);
        if reasons.len() == 0 {
            None
        } else {
            Some(Item { target: t.target@, reasons, action, result: None })
        }
    }
}

/// Whether a label is one that is looked at: the given one, or any.
pub open spec fn matches_label(filter: Option<Seq<char>>, label: Seq<char>) -> bool {
    match filter {
        Some(f) => f == label,
        None => true,
    }
}

/// Whether a label is one that is looked at.
pub fn label_matches(filter: &Option<String>, label: &str) -> (r: bool)
    ensures
        r == matches_label(text::opt(*filter), label@),
{
    match filter {
        Some(f) => text::same(f.as_str(), label),
        None => true,
    }
}

fn plan_tree(t: &TreeFacts, label: &Option<String>, merged: bool, gone: bool) -> (r: Option<
    PruneItem,
>)
    ensures
        match r {
            Some(i) => Some(i@),
            None => None,
        } == tree_item(*t, text::opt(*label), merged, gone),
{
    if t.canonical || !label_matches(label, t.label.as_str()) {
        return None;
    }
    let mut reasons: Vec<String> = Vec::new();
    let mut action = PruneAction::Keep;
    if t.phase == DerivedPhase::Missing {
        reasons.push("missing".to_owned());
        action = PruneAction::Remove;
    } else if t.orphaned {
        reasons.push("orphaned-records".to_owned());
        action = PruneAction::DestroyRecords;
    }
    proof {
        assert(text::texts(reasons@) =~= first_reason(*t).0);
    }
    if (merged || gone) && t.phase == DerivedPhase::Ready {
        if let Some(b) = t.branch {
            let ghost r0 = text::texts(reasons@);
            if merged && b.merged {
                reasons.push("merged".to_owned());
            }
            let ghost r1 = with_reason(r0, merged && b.merged, "merged"@);
            proof {
                assert(text::texts(reasons@) =~= r1);
            }
            if gone && b.gone {
                reasons.push("gone".to_owned());
            }
            let ghost r2 = with_reason(r1, gone && b.gone, "gone"@);
            proof {
                assert(text::texts(reasons@) =~= r2);
                assert(r2.len() == reasons@.len());
            }
            if reasons.len() > 0 {
                if b.dirty {
                    action = PruneAction::Keep;
                    reasons.push("dirty".to_owned());
                    proof {
                        assert(text::texts(reasons@) =~= r2.push("dirty"@));
                    }
                } else {
                    action = PruneAction::Remove;
                }
            }
        }
    }
    proof {
        assert(text::texts(reasons@) == tree_reasons(*t, merged, gone).0);
        assert(text::texts(reasons@).len() == reasons@.len());
    }
    if reasons.len() == 0 {
        None
    } else {
        Some(PruneItem { target: t.target.clone(), reasons, action, result: None })
    }
}

/// A tree that holds changes is never planned for removal because its branch is
/// merged or gone.
pub proof fn changes_keep_a_tree(t: TreeFacts, label: Option<Seq<char>>, merged: bool, gone: bool)
    requires
        t.phase == DerivedPhase::Ready,
        t.branch matches Some(b) && b.dirty,
    ensures
        tree_item(t, label, merged, gone) matches Some(i) ==> i.action != PruneAction::Remove,
{
}

/// A tree without orphaned records is planned for removal only where it is
/// missing, or where branches are looked at and its branch is merged or gone.
pub proof fn removal_has_a_reason(t: TreeFacts, label: Option<Seq<char>>, merged: bool, gone: bool)
    requires
        !t.orphaned,
        tree_item(t, label, merged, gone) matches Some(i) && i.action == PruneAction::Remove,
    ensures
        t.phase == DerivedPhase::Missing || (t.branch matches Some(b) && !b.dirty && ((merged
            && b.merged) || (gone && b.gone))),
        !t.canonical,
{
}

/// Which trees are planned for, and what for. A tree that is missing goes. One that is
/// ready and holds no changes goes where merged branches are looked at and its branch is
/// merged, or where branches that are gone are looked at and its upstream is gone: each
/// of the two suffices. One with changes that would go for that is kept. What has orphaned
/// records and does not go has them destroyed. Nothing else is planned, no canonical
/// checkout, and nothing of a label that is not looked at.
pub proof fn what_is_planned_for_a_tree(
    t: TreeFacts,
    label: Option<Seq<char>>,
    merged: bool,
    gone: bool,
)
    ensures
        ({
            let looked_at = !t.canonical && (label is None || label == Some(t.label@));
            let missing = t.phase == DerivedPhase::Missing;
            let judged = t.phase == DerivedPhase::Ready && t.branch is Some;
            let by_merge = judged && merged && t.branch->0.merged;
            let by_gone = judged && gone && t.branch->0.gone;
            let asked = judged && (merged || gone);
            let plan = tree_item(t, label, merged, gone);
            &&& plan is Some <==> looked_at && (missing || t.orphaned || by_merge || by_gone)
            &&& plan matches Some(i) ==> {
                &&& i.target == t.target@
                &&& i.result is None
                &&& i.action == PruneAction::Remove <==> missing || (asked && !t.branch->0.dirty && (
                by_merge || by_gone || t.orphaned))
                &&& i.action == PruneAction::Keep <==> asked && t.branch->0.dirty && (by_merge
                    || by_gone || t.orphaned)
                &&& i.action == PruneAction::DestroyRecords <==> t.orphaned && !missing && !asked
                &&& i.reasons.contains("merged"@) <==> by_merge
                &&& i.reasons.contains("gone"@) <==> by_gone
                &&& i.reasons.contains("missing"@) <==> missing
                &&& i.reasons.contains("orphaned-records"@) <==> t.orphaned && !missing
                &&& i.reasons.contains("dirty"@) <==> i.action == PruneAction::Keep
            }
        }),
{
    reveal_strlit("merged");
    reveal_strlit("gone");
    reveal_strlit("missing");
    reveal_strlit("orphaned-records");
    reveal_strlit("dirty");
    assert("merged"@[0] == 'm' && "gone"@[0] == 'g' && "missing"@[1] == 'i' && "dirty"@[0] == 'd'
        && "orphaned-records"@[0] == 'o' && "merged"@[1] == 'e' && "missing"@[0] == 'm');
    let plan = tree_item(t, label, merged, gone);
    if plan is Some {
        let r = plan->0.reasons;
        let first = first_reason(t).0;
        assert forall|x: Seq<char>| r.contains(x) <==> (exists|k: int| 0 <= k < r.len() && r[k] == x) by {}
        if r.len() > 0 {
            assert(r.contains(r[0]));
        }
        if r.len() > 1 {
            assert(r.contains(r[1]));
        }
        if r.len() > 2 {
            assert(r.contains(r[2]));
        }
        if r.len() > 3 {
            assert(r.contains(r[3]));
        }
    }
}

/// A tombstone: of which label, of which tree, and the name of its session.
#[derive(Debug)]
pub struct Grave {
    pub label: String,
    pub name: String,
    pub target: String,
    pub session: String,
}

/// What is left over: tombstones, trees, state files and caches of no tree, and
/// holders that are gone, with what is looked at.
#[derive(Debug)]
pub struct Leftovers {
    pub label: Option<String>,
    pub merged: bool,
    pub gone: bool,
    pub graves: Vec<Grave>,
    pub trees: Vec<TreeFacts>,
    pub state_orphans: Vec<String>,
    pub cache_orphans: Vec<String>,
    pub stale: Vec<String>,
}

/// What tombstones come to.
pub open spec fn grave_items(graves: Seq<Grave>, label: Option<Seq<char>>) -> Seq<Item>
    decreases graves.len(),
{
    if graves.len() == 0 {
        Seq::<Item>::empty()
    } else {
        let rest = grave_items(graves.drop_last(), label);
        if matches_label(label, graves.last().label@) {
            rest.push(item(graves.last().target@, "tombstone"@, PruneAction::Collect))
        } else {
            rest
        }
    }
}

/// What trees come to.
pub open spec fn tree_items(
    trees: Seq<TreeFacts>,
    label: Option<Seq<char>>,
    merged: bool,
    gone: bool,
) -> Seq<Item>
    decreases trees.len(),
{
    if trees.len() == 0 {
        Seq::<Item>::empty()
    } else {
        let rest = tree_items(trees.drop_last(), label, merged, gone);
        match tree_item(trees.last(), label, merged, gone) {
            Some(i) => rest.push(i),
            None => rest,
        }
    }
}

/// What paths or names come to, all for one reason.
pub open spec fn plain_items(targets: Seq<Seq<char>>, reason: Seq<char>, action: PruneAction) -> Seq<
    Item,
> {
    targets.map_values(|t: Seq<char>| item(t, reason, action))
}

/// All that is left over, in the order in which it is looked at.
pub open spec fn candidates(l: Leftovers) -> Seq<Item> {
    grave_items(l.graves@, text::opt(l.label)) + tree_items(
        l.trees@,
        text::opt(l.label),
        l.merged,
        l.gone,
    ) + plain_items(text::texts(l.state_orphans@), "state-orphan"@, PruneAction::DeleteState)
        + plain_items(text::texts(l.cache_orphans@), "cache-orphan"@, PruneAction::DeleteCache)
        + plain_items(
        text::texts(l.stale@),
        "stale-exclusive-holder"@,
        PruneAction::DeleteExclusive,
    )
}

/// A plan: for each target the last that was found.
pub open spec fn planned(items: Seq<Item>) -> Map<Seq<char>, Item>
    decreases items.len(),
{
    if items.len() == 0 {
        Map::empty()
    } else {
        planned(items.drop_last()).insert(items.last().target, items.last())
    }
}

/// What a plan holds.
pub open spec fn plan_view(map: Map<Seq<char>, PruneItem>) -> Map<Seq<char>, Item> {
    Map::new(|k: Seq<char>| map.contains_key(k), |k: Seq<char>| map[k]@)
}

fn add_plain(out: &mut Vec<PruneItem>, targets: &Vec<String>, reason: &str, action: PruneAction)
    ensures
        item_views(final(out)@) == item_views(old(out)@) + plain_items(
            text::texts(targets@),
            reason@,
            action,
        ),
{
    let ghost start = item_views(out@);
    let ghost all = plain_items(text::texts(targets@), reason@, action);
    let mut i: usize = 0;
    proof {
        assert(start + all.take(0) =~= start);
    }
    while i < targets.len()
        invariant
            i <= targets.len(),
            all == plain_items(text::texts(targets@), reason@, action),
            item_views(out@) == start + all.take(i as int),
        decreases targets.len() - i,
    {
        let ghost prior = item_views(out@);
        out.push(one_reason(targets[i].as_str(), reason, action));
        proof {
            assert(item_views(out@) =~= prior.push(all[i as int]));
            assert(start + all.take(i + 1) =~= (start + all.take(i as int)).push(all[i as int]));
        }
        i = i + 1;
    }
    proof {
        assert(all.take(targets@.len() as int) =~= all);
    }
}

fn candidates_of(l: &Leftovers) -> (r: Vec<PruneItem>)
    ensures
        item_views(r@) == candidates(*l),
{
    let mut out: Vec<PruneItem> = Vec::new();
    let ghost label = text::opt(l.label);
    let mut i: usize = 0;
    proof {
        assert(item_views(out@) =~= Seq::<Item>::empty());
    }
    while i < l.graves.len()
        invariant
            i <= l.graves.len(),
            label == text::opt(l.label),
            item_views(out@) == grave_items(l.graves@.take(i as int), label),
        decreases l.graves.len() - i,
    {
        let ghost prior = item_views(out@);
        proof {
            assert(l.graves@.take(i + 1).drop_last() =~= l.graves@.take(i as int));
        }
        let grave = &l.graves[i];
        if label_matches(&l.label, grave.label.as_str()) {
            let one = one_reason(grave.target.as_str(), "tombstone", PruneAction::Collect);
            let ghost o = one@;
            out.push(one);
            proof {
                assert(item_views(out@) =~= prior.push(o));
            }
        }
        i = i + 1;
    }
    proof {
        assert(l.graves@.take(l.graves@.len() as int) =~= l.graves@);
    }
    let ghost graves = item_views(out@);
    let mut k: usize = 0;
    proof {
        assert(graves + tree_items(l.trees@.take(0), label, l.merged, l.gone) =~= graves);
    }
    while k < l.trees.len()
        invariant
            k <= l.trees.len(),
            label == text::opt(l.label),
            item_views(out@) == graves + tree_items(
                l.trees@.take(k as int),
                label,
                l.merged,
                l.gone,
            ),
        decreases l.trees.len() - k,
    {
        let ghost prior = item_views(out@);
        let ghost so_far = tree_items(l.trees@.take(k as int), label, l.merged, l.gone);
        proof {
            assert(l.trees@.take(k + 1).drop_last() =~= l.trees@.take(k as int));
        }
        if let Some(one) = plan_tree(&l.trees[k], &l.label, l.merged, l.gone) {
            let ghost o = one@;
            out.push(one);
            proof {
                assert(item_views(out@) =~= prior.push(o));
                assert((graves + so_far).push(o) =~= graves + so_far.push(o));
            }
        }
        k = k + 1;
    }
    proof {
        assert(l.trees@.take(l.trees@.len() as int) =~= l.trees@);
    }
    add_plain(&mut out, &l.state_orphans, "state-orphan", PruneAction::DeleteState);
    add_plain(&mut out, &l.cache_orphans, "cache-orphan", PruneAction::DeleteCache);
    add_plain(&mut out, &l.stale, "stale-exclusive-holder", PruneAction::DeleteExclusive);
    out
}

/// Plans what is done about what is left over, in the order of the targets.
pub fn plan(l: &Leftovers) -> (r: Assoc<PruneItem>)
    ensures
        r.wf(),
        plan_view(r@) == planned(candidates(*l)),
{
    let mut found = candidates_of(l);
    let ghost all = item_views(found@);
    let mut back: Vec<PruneItem> = Vec::new();
    while found.len() > 0
        invariant
            found@.len() <= all.len(),
            item_views(found@) == all.take(found@.len() as int),
            back@.len() == all.len() - found@.len(),
            forall|k: int|
                0 <= k < back@.len() ==> (#[trigger] back@[k])@ == all[all.len() - 1 - k],
        decreases found@.len(),
    {
        let ghost n = found@.len() as int;
        proof {
            assert(item_views(found@)[n - 1] == found@[n - 1]@);
        }
        if let Some(one) = found.pop() {
            back.push(one);
            proof {
                assert(item_views(found@) =~= all.take(n - 1));
            }
        }
    }
    let mut r: Assoc<PruneItem> = Assoc::new();
    let ghost mut done: int = 0;
    proof {
        assert(plan_view(r@) =~= planned(all.take(0)));
    }
    while back.len() > 0
        invariant
            r.wf(),
            0 <= done <= all.len(),
            back@.len() == all.len() - done,
            forall|k: int|
                0 <= k < back@.len() ==> (#[trigger] back@[k])@ == all[all.len() - 1 - k],
            plan_view(r@) == planned(all.take(done)),
        decreases back@.len(),
    {
        let ghost before = plan_view(r@);
        proof {
            assert(back@[back@.len() - 1]@ == all[done]);
            assert(all.take(done + 1).drop_last() =~= all.take(done));
        }
        if let Some(one) = back.pop() {
            let key = one.target.clone();
            let ghost o = one@;
            r.put(key.as_str(), one);
            proof {
                assert(plan_view(r@) =~= before.insert(o.target, o));
                done = done + 1;
            }
        }
    }
    proof {
        assert(all.take(done) =~= all);
    }
    r
}

proof fn lemma_planned(items: Seq<Item>, k: Seq<char>)
    requires
        planned(items).contains_key(k),
    ensures
        planned(items)[k].target == k,
        items.contains(planned(items)[k]),
    decreases items.len(),
{
    if items.len() > 0 {
        let rest = items.drop_last();
        if items.last().target == k {
            assert(items[items.len() - 1] == planned(items)[k]);
        } else {
            lemma_planned(rest, k);
            let i = choose|i: int| 0 <= i < rest.len() && rest[i] == planned(rest)[k];
            assert(items[i] == planned(items)[k]);
        }
    }
}

/// What is planned is one of the things that were found, under its own target.
pub proof fn plans_are_found(l: Leftovers, target: Seq<char>)
    requires
        planned(candidates(l)).contains_key(target),
    ensures
        planned(candidates(l))[target].target == target,
        candidates(l).contains(planned(candidates(l))[target]),
{
    lemma_planned(candidates(l), target);
}

/// A tombstone is collected where its label is looked at, and no other.
pub proof fn graves_that_are_looked_at(graves: Seq<Grave>, label: Option<Seq<char>>, y: Item)
    ensures
        grave_items(graves, label).contains(y) <==> (exists|i: int|
            0 <= i < graves.len() && (label is None || label == Some((#[trigger] graves[i]).label@)) && y == item(graves[i].target@, "tombstone"@, PruneAction::Collect)),
    decreases graves.len(),
{
    let all = grave_items(graves, label);
    if graves.len() > 0 {
        let rest = graves.drop_last();
        let some = grave_items(rest, label);
        graves_that_are_looked_at(rest, label, y);
        if all.contains(y) {
            let k = choose|k: int| 0 <= k < all.len() && all[k] == y;
            if k < some.len() {
                assert(some[k] == y);
                let i = choose|i: int| 0 <= i < rest.len() && (label is None || label == Some((#[trigger] rest[i]).label@)) && y == item(rest[i].target@, "tombstone"@, PruneAction::Collect);
                assert(graves[i] == rest[i]);
            } else {
                assert((label is None || label == Some(graves[rest.len() as int].label@)) && y == item(graves[rest.len() as int].target@, "tombstone"@, PruneAction::Collect));
            }
        }
        if exists|i: int| 0 <= i < graves.len() && (label is None || label == Some((#[trigger] graves[i]).label@)) && y == item(graves[i].target@, "tombstone"@, PruneAction::Collect) {
            let i = choose|i: int| 0 <= i < graves.len() && (label is None || label == Some((#[trigger] graves[i]).label@)) && y == item(graves[i].target@, "tombstone"@, PruneAction::Collect);
            if i < rest.len() {
                assert(rest[i] == graves[i]);
                let k = choose|k: int| 0 <= k < some.len() && some[k] == y;
                assert(all[k] == y);
            } else {
                assert(all[all.len() - 1] == y);
            }
        }
    }
}

/// What trees come to is what each of them comes to, none left out.
pub proof fn trees_that_are_looked_at(trees: Seq<TreeFacts>, label: Option<Seq<char>>, merged: bool, gone: bool, y: Item)
    ensures
        tree_items(trees, label, merged, gone).contains(y) <==> (exists|i: int|
            0 <= i < trees.len() && tree_item((#[trigger] trees[i]), label, merged, gone) == Some(y)),
    decreases trees.len(),
{
    let all = tree_items(trees, label, merged, gone);
    if trees.len() > 0 {
        let rest = trees.drop_last();
        let some = tree_items(rest, label, merged, gone);
        trees_that_are_looked_at(rest, label, merged, gone, y);
        if all.contains(y) {
            let k = choose|k: int| 0 <= k < all.len() && all[k] == y;
            if k < some.len() {
                assert(some[k] == y);
                let i = choose|i: int| 0 <= i < rest.len() && tree_item((#[trigger] rest[i]), label, merged, gone) == Some(y);
                assert(trees[i] == rest[i]);
            } else {
                assert(tree_item(trees[rest.len() as int], label, merged, gone) == Some(y));
            }
        }
        if exists|i: int| 0 <= i < trees.len() && tree_item((#[trigger] trees[i]), label, merged, gone) == Some(y) {
            let i = choose|i: int| 0 <= i < trees.len() && tree_item((#[trigger] trees[i]), label, merged, gone) == Some(y);
            if i < rest.len() {
                assert(rest[i] == trees[i]);
                let k = choose|k: int| 0 <= k < some.len() && some[k] == y;
                assert(all[k] == y);
            } else {
                assert(all[all.len() - 1] == y);
            }
        }
    }
}

proof fn lemma_planned_alone(items: Seq<Item>, i: int)
    requires
        0 <= i < items.len(),
        forall|j: int|
            0 <= j < items.len() && (#[trigger] items[j]).target == items[i].target ==> items[j]
                == items[i],
    ensures
        planned(items).contains_key(items[i].target),
        planned(items)[items[i].target] == items[i],
    decreases items.len(),
{
    let rest = items.drop_last();
    if items.last().target == items[i].target {
        assert(items[items.len() - 1] == items[i]);
    } else {
        assert(rest[i] == items[i]);
        assert forall|j: int| 0 <= j < rest.len() && (#[trigger] rest[j]).target
            == rest[i].target implies rest[j] == rest[i] by {
            assert(items[j] == rest[j]);
        }
        lemma_planned_alone(rest, i);
    }
}

/// What is found is planned: everything that comes to something has its place in the plan,
/// unless something else was found under the same target.
pub proof fn what_is_found_is_planned(l: Leftovers, it: Item)
    requires
        candidates(l).contains(it),
        forall|j: int|
            0 <= j < candidates(l).len() && (#[trigger] candidates(l)[j]).target == it.target
                ==> candidates(l)[j] == it,
    ensures
        planned(candidates(l)).contains_key(it.target),
        planned(candidates(l))[it.target] == it,
{
    let all = candidates(l);
    let i = choose|i: int| 0 <= i < all.len() && all[i] == it;
    lemma_planned_alone(all, i);
}

/// Everything that is left over is a candidate: the tombstones and the trees that come to
/// something, each state file, each cache, and each holder that is gone, to be deleted.
pub proof fn all_that_is_left_over_is_found(l: Leftovers, it: Item)
    ensures
        candidates(l).contains(it) <==> {
            ||| exists|i: int|
                0 <= i < l.graves@.len() && (l.label is None || l.label->0@ == (
                #[trigger] l.graves@[i]).label@) && it == item(
                    l.graves@[i].target@,
                    "tombstone"@,
                    PruneAction::Collect,
                )
            ||| exists|i: int|
                0 <= i < l.trees@.len() && tree_item(
                    #[trigger] l.trees@[i],
                    text::opt(l.label),
                    l.merged,
                    l.gone,
                ) == Some(it)
            ||| exists|i: int|
                0 <= i < l.state_orphans@.len() && it == item(
                    (#[trigger] l.state_orphans@[i])@,
                    "state-orphan"@,
                    PruneAction::DeleteState,
                )
            ||| exists|i: int|
                0 <= i < l.cache_orphans@.len() && it == item(
                    (#[trigger] l.cache_orphans@[i])@,
                    "cache-orphan"@,
                    PruneAction::DeleteCache,
                )
            ||| exists|i: int|
                0 <= i < l.stale@.len() && it == item(
                    (#[trigger] l.stale@[i])@,
                    "stale-exclusive-holder"@,
                    PruneAction::DeleteExclusive,
                )
        },
{
    let label = text::opt(l.label);
    let a = grave_items(l.graves@, label);
    let b = tree_items(l.trees@, label, l.merged, l.gone);
    let c = plain_items(text::texts(l.state_orphans@), "state-orphan"@, PruneAction::DeleteState);
    let d = plain_items(text::texts(l.cache_orphans@), "cache-orphan"@, PruneAction::DeleteCache);
    let e = plain_items(
        text::texts(l.stale@),
        "stale-exclusive-holder"@,
        PruneAction::DeleteExclusive,
    );
    graves_that_are_looked_at(l.graves@, label, it);
    trees_that_are_looked_at(l.trees@, label, l.merged, l.gone, it);
    lemma_one_of(a, b, it);
    lemma_one_of(a + b, c, it);
    lemma_one_of(a + b + c, d, it);
    lemma_one_of(a + b + c + d, e, it);
    lemma_plain(l.state_orphans@, "state-orphan"@, PruneAction::DeleteState, it);
    lemma_plain(l.cache_orphans@, "cache-orphan"@, PruneAction::DeleteCache, it);
    lemma_plain(l.stale@, "stale-exclusive-holder"@, PruneAction::DeleteExclusive, it);
    assert(label is None <==> l.label is None);
}

proof fn lemma_one_of(a: Seq<Item>, b: Seq<Item>, it: Item)
    ensures
        (a + b).contains(it) <==> a.contains(it) || b.contains(it),
{
    if a.contains(it) {
        let k = choose|k: int| 0 <= k < a.len() && a[k] == it;
        assert((a + b)[k] == it);
    }
    if b.contains(it) {
        let k = choose|k: int| 0 <= k < b.len() && b[k] == it;
        assert((a + b)[a.len() + k] == it);
    }
    if (a + b).contains(it) {
        let k = choose|k: int| 0 <= k < (a + b).len() && (a + b)[k] == it;
        if k < a.len() {
            assert(a[k] == it);
        } else {
            assert(b[k - a.len()] == it);
        }
    }
}

proof fn lemma_plain(list: Seq<String>, reason: Seq<char>, action: PruneAction, it: Item)
    ensures
        plain_items(text::texts(list), reason, action).contains(it) <==> (exists|i: int|
            0 <= i < list.len() && it == item((#[trigger] list[i])@, reason, action)),
{
    let all = plain_items(text::texts(list), reason, action);
    if all.contains(it) {
        let k = choose|k: int| 0 <= k < all.len() && all[k] == it;
        assert(it == item(list[k]@, reason, action));
    }
    if exists|i: int| 0 <= i < list.len() && it == item((#[trigger] list[i])@, reason, action) {
        let i = choose|i: int| 0 <= i < list.len() && it == item((#[trigger] list[i])@, reason, action);
        assert(all[i] == it);
    }
}

/// How a plan is dealt with.
#[derive(Clone, Copy, Debug, PartialEq, Eq, Structural)]
pub enum Consent {
    Apply,
    Ask,
    ReportOnly,
}

/// Decides how a plan is dealt with: carried out where that was said before, asked
/// about where someone can answer, and else only reported.
pub fn consent(yes: bool, stdin_is_terminal: bool) -> (r: Consent)
    ensures
        r == if yes {
            Consent::Apply
        } else if stdin_is_terminal {
            Consent::Ask
        } else {
            Consent::ReportOnly
        },
{
    if yes {
        Consent::Apply
    } else if stdin_is_terminal {
        Consent::Ask
    } else {
        Consent::ReportOnly
    }
}

// ---------------------------------------------------------------------------
// Carrying a plan out
// ---------------------------------------------------------------------------

/// A step of carrying a plan out.
#[derive(Debug)]
pub enum PruneStep {
    Remove(String),
    DestroyRecords(String),
    DeleteState(String),
    /// Delete what lies below the cache's root, given by its path from there;
    /// nothing where it does not lie there. Then its directory, where it is empty.
    DeleteCache { relative: Option<String>, parent: Option<String> },
    DeleteExclusive(String),
    PruneGit(String),
    CloseSession(String),
    /// Drop the tombstones of these labels and names.
    DropTombstones(Vec<(String, String)>),
    RecomputeExclude(String),
}

/// What a step does.
pub enum PruneMove {
    Remove(Seq<char>),
    DestroyRecords(Seq<char>),
    DeleteState(Seq<char>),
    DeleteCache { relative: Option<Seq<char>>, parent: Option<Seq<char>> },
    DeleteExclusive(Seq<char>),
    PruneGit(Seq<char>),
    CloseSession(Seq<char>),
    DropTombstones(Seq<(Seq<char>, Seq<char>)>),
    RecomputeExclude(Seq<char>),
}

impl View for PruneStep {
    type V = PruneMove;

    open spec fn view(&self) -> PruneMove {
        match self {
            PruneStep::Remove(t) => PruneMove::Remove(t@),
            PruneStep::DestroyRecords(t) => PruneMove::DestroyRecords(t@),
            PruneStep::DeleteState(t) => PruneMove::DeleteState(t@),
            PruneStep::DeleteCache { relative, parent } => PruneMove::DeleteCache {
                relative: text::opt(*relative),
                parent: text::opt(*parent),
            },
            PruneStep::DeleteExclusive(t) => PruneMove::DeleteExclusive(t@),
            PruneStep::PruneGit(l) => PruneMove::PruneGit(l@),
            PruneStep::CloseSession(s) => PruneMove::CloseSession(s@),
            PruneStep::DropTombstones(list) => PruneMove::DropTombstones(text::pairs(list@)),
            PruneStep::RecomputeExclude(l) => PruneMove::RecomputeExclude(l@),
        }
    }
}

/// What steps do.
pub open spec fn prune_moves(steps: Seq<PruneStep>) -> Seq<PruneMove> {
    steps.map_values(|s: PruneStep| s@)
}

/// What is done about an item at its place in the plan. Nothing is done about one that
/// is kept, and a tombstone is collected at the end.
pub open spec fn item_move(i: Item, cache_root: Seq<char>) -> Option<PruneMove> {
    match i.action {
        PruneAction::Remove => Some(PruneMove::Remove(i.target)),
        PruneAction::DestroyRecords => Some(PruneMove::DestroyRecords(i.target)),
        PruneAction::DeleteState => Some(PruneMove::DeleteState(i.target)),
        PruneAction::DeleteCache => Some(
            PruneMove::DeleteCache {
                relative: path::below(i.target, cache_root),
                parent: path::parent_of(i.target),
            },
        ),
        PruneAction::DeleteExclusive => Some(PruneMove::DeleteExclusive(i.target)),
        PruneAction::Keep => None,
        PruneAction::Collect => None,
    }
}

/// What is done about an item at its place in the plan.
pub fn item_step(i: &PruneItem, cache_root: &str) -> (r: Option<PruneStep>)
    ensures
        match r {
            Some(step) => Some(step@),
            None => None,
        } == item_move(i@, cache_root@),
{
    match i.action {
        PruneAction::Remove => Some(PruneStep::Remove(i.target.clone())),
        PruneAction::DestroyRecords => Some(PruneStep::DestroyRecords(i.target.clone())),
        PruneAction::DeleteState => Some(PruneStep::DeleteState(i.target.clone())),
        PruneAction::DeleteCache => {
            let relative = path::strip_base(i.target.as_str(), cache_root);
            let parent = path::parent(i.target.as_str());
            Some(PruneStep::DeleteCache { relative, parent })
        },
        PruneAction::DeleteExclusive => Some(PruneStep::DeleteExclusive(i.target.clone())),
        PruneAction::Keep => None,
        PruneAction::Collect => None,
    }
}

/// Only what lies below the cache's root is deleted as a cache, and by its path
/// from there.
pub proof fn caches_stay_contained(i: Item, cache_root: Seq<char>)
    requires
        i.action == PruneAction::DeleteCache,
    ensures
        item_move(i, cache_root) matches Some(PruneMove::DeleteCache { relative, parent }) && (
        relative is Some ==> path::under(i.target, cache_root)),
{
}

/// The repositories whose git forgets worktrees that are gone.
pub open spec fn git_moves(labels: Seq<Seq<char>>, filter: Option<Seq<char>>) -> Seq<PruneMove>
    decreases labels.len(),
{
    if labels.len() == 0 {
        Seq::<PruneMove>::empty()
    } else {
        let rest = git_moves(labels.drop_last(), filter);
        if matches_label(filter, labels.last()) {
            rest.push(PruneMove::PruneGit(labels.last()))
        } else {
            rest
        }
    }
}

/// The tombstones that are collected.
pub open spec fn own_graves(graves: Seq<Grave>, filter: Option<Seq<char>>) -> Seq<Grave>
    decreases graves.len(),
{
    if graves.len() == 0 {
        graves
    } else {
        let rest = own_graves(graves.drop_last(), filter);
        if matches_label(filter, graves.last().label@) {
            rest.push(graves.last())
        } else {
            rest
        }
    }
}

/// The sessions that are closed with their tombstones.
pub open spec fn session_moves(own: Seq<Grave>) -> Seq<PruneMove> {
    own.map_values(|g: Grave| PruneMove::CloseSession(g.session@))
}

/// The labels and names of tombstones.
pub open spec fn grave_names(own: Seq<Grave>) -> Seq<(Seq<char>, Seq<char>)> {
    own.map_values(|g: Grave| (g.label@, g.name@))
}

/// The labels of tombstones.
pub open spec fn grave_labels(own: Seq<Grave>) -> Seq<Seq<char>> {
    own.map_values(|g: Grave| g.label@)
}

/// The excludes that are worked out anew.
pub open spec fn exclude_moves(labels: Seq<Seq<char>>) -> Seq<PruneMove> {
    labels.map_values(|l: Seq<char>| PruneMove::RecomputeExclude(l))
}

/// How a prune ends, of the labels and the tombstones that are there once its items
/// were carried out: git of each repository, then the sessions of the tombstones, and
/// where there are any, the tombstones themselves and the excludes of their labels,
/// each once.
pub open spec fn collecting(
    labels: Seq<Seq<char>>,
    graves: Seq<Grave>,
    filter: Option<Seq<char>>,
) -> Seq<PruneMove> {
    let own = own_graves(graves, filter);
    let first = git_moves(labels, filter) + session_moves(own);
    if own.len() == 0 {
        first
    } else {
        first + seq![PruneMove::DropTombstones(grave_names(own))] + exclude_moves(
            assoc::the_set(grave_labels(own)),
        )
    }
}

fn push_git(steps: &mut Vec<PruneStep>, labels: &Vec<String>, filter: &Option<String>)
    ensures
        prune_moves(final(steps)@) == prune_moves(old(steps)@) + git_moves(
            text::texts(labels@),
            text::opt(*filter),
        ),
{
    let ghost start = prune_moves(steps@);
    let ghost all = text::texts(labels@);
    let ghost f = text::opt(*filter);
    let mut i: usize = 0;
    proof {
        assert(start + git_moves(all.take(0), f) =~= start);
    }
    while i < labels.len()
        invariant
            i <= labels.len(),
            all == text::texts(labels@),
            f == text::opt(*filter),
            prune_moves(steps@) == start + git_moves(all.take(i as int), f),
        decreases labels.len() - i,
    {
        let ghost prior = prune_moves(steps@);
        let ghost so_far = git_moves(all.take(i as int), f);
        proof {
            assert(all.take(i + 1).drop_last() =~= all.take(i as int));
            assert(all.take(i + 1).last() == labels@[i as int]@);
        }
        if label_matches(filter, labels[i].as_str()) {
            steps.push(PruneStep::PruneGit(labels[i].clone()));
            proof {
                let o = PruneMove::PruneGit(labels@[i as int]@);
                assert(prune_moves(steps@) =~= prior.push(o));
                assert((start + so_far).push(o) =~= start + so_far.push(o));
            }
        }
        i = i + 1;
    }
    proof {
        assert(all.take(labels@.len() as int) =~= all);
    }
}

fn push_sessions(steps: &mut Vec<PruneStep>, graves: &Vec<Grave>, filter: &Option<String>) -> (r: (
    Vec<String>,
    Vec<(String, String)>,
))
    ensures
        prune_moves(final(steps)@) == prune_moves(old(steps)@) + session_moves(
            own_graves(graves@, text::opt(*filter)),
        ),
        text::texts(r.0@) == grave_labels(own_graves(graves@, text::opt(*filter))),
        text::pairs(r.1@) == grave_names(own_graves(graves@, text::opt(*filter))),
{
    let ghost start = prune_moves(steps@);
    let ghost f = text::opt(*filter);
    let mut labels: Vec<String> = Vec::new();
    let mut names: Vec<(String, String)> = Vec::new();
    let mut i: usize = 0;
    proof {
        let none = own_graves(graves@.take(0), f);
        assert(start + session_moves(none) =~= start);
        assert(text::texts(labels@) =~= grave_labels(none));
        assert(text::pairs(names@) =~= grave_names(none));
    }
    while i < graves.len()
        invariant
            i <= graves.len(),
            f == text::opt(*filter),
            prune_moves(steps@) == start + session_moves(own_graves(graves@.take(i as int), f)),
            text::texts(labels@) == grave_labels(own_graves(graves@.take(i as int), f)),
            text::pairs(names@) == grave_names(own_graves(graves@.take(i as int), f)),
        decreases graves.len() - i,
    {
        let ghost prior = prune_moves(steps@);
        let ghost own = own_graves(graves@.take(i as int), f);
        let ghost g = graves@[i as int];
        let ghost old_labels = text::texts(labels@);
        let ghost old_names = text::pairs(names@);
        proof {
            assert(graves@.take(i + 1).drop_last() =~= graves@.take(i as int));
        }
        if label_matches(filter, graves[i].label.as_str()) {
            steps.push(PruneStep::CloseSession(graves[i].session.clone()));
            labels.push(graves[i].label.clone());
            names.push((graves[i].label.clone(), graves[i].name.clone()));
            proof {
                let o = PruneMove::CloseSession(g.session@);
                assert(prune_moves(steps@) =~= prior.push(o));
                assert(session_moves(own.push(g)) =~= session_moves(own).push(o));
                assert((start + session_moves(own)).push(o) =~= start + session_moves(own).push(o));
                assert(text::texts(labels@) =~= old_labels.push(g.label@));
                assert(grave_labels(own.push(g)) =~= grave_labels(own).push(g.label@));
                assert(text::pairs(names@) =~= old_names.push((g.label@, g.name@)));
                assert(grave_names(own.push(g)) =~= grave_names(own).push((g.label@, g.name@)));
            }
        }
        i = i + 1;
    }
    proof {
        assert(graves@.take(graves@.len() as int) =~= graves@);
    }
    (labels, names)
}

/// The steps that a prune ends with.
pub fn collect(labels: &Vec<String>, graves: &Vec<Grave>, filter: &Option<String>) -> (r: Vec<
    PruneStep,
>)
    ensures
        prune_moves(r@) == collecting(text::texts(labels@), graves@, text::opt(*filter)),
{
    let mut steps: Vec<PruneStep> = Vec::new();
    let ghost own = own_graves(graves@, text::opt(*filter));
    proof {
        assert(prune_moves(steps@) =~= Seq::<PruneMove>::empty());
    }
    push_git(&mut steps, labels, filter);
    proof {
        assert(prune_moves(steps@) =~= git_moves(text::texts(labels@), text::opt(*filter)));
    }
    let (grave_labels_own, names) = push_sessions(&mut steps, graves, filter);
    let ghost first = prune_moves(steps@);
    proof {
        assert(text::texts(grave_labels_own@).len() == grave_labels_own@.len());
        assert(grave_labels(own).len() == own.len());
    }
    if grave_labels_own.len() > 0 {
        steps.push(PruneStep::DropTombstones(names));
        let set = assoc::sorted_set(&grave_labels_own);
        let ghost labels_set = text::texts(set@);
        let ghost tail = exclude_moves(labels_set);
        let ghost lead = first + seq![PruneMove::DropTombstones(grave_names(own))];
        let mut k: usize = 0;
        proof {
            assert(prune_moves(steps@) =~= lead);
            assert(lead + tail.take(0) =~= lead);
        }
        while k < set.len()
            invariant
                k <= set.len(),
                labels_set == text::texts(set@),
                tail == exclude_moves(labels_set),
                prune_moves(steps@) == lead + tail.take(k as int),
            decreases set.len() - k,
        {
            let ghost prior = prune_moves(steps@);
            steps.push(PruneStep::RecomputeExclude(set[k].clone()));
            proof {
                assert(labels_set[k as int] == set@[k as int]@);
                assert(prune_moves(steps@) =~= prior.push(tail[k as int]));
                assert(lead + tail.take(k + 1) =~= (lead + tail.take(k as int)).push(
                    tail[k as int],
                ));
            }
            k = k + 1;
        }
        proof {
            assert(tail.take(set@.len() as int) =~= tail);
            assoc::lemma_the_set(labels_set, grave_labels(own));
        }
    }
    steps
}

proof fn lemma_own_graves(graves: Seq<Grave>, filter: Option<Seq<char>>, i: int) -> (k: int)
    requires
        0 <= i < graves.len(),
        matches_label(filter, graves[i].label@),
    ensures
        0 <= k < own_graves(graves, filter).len(),
        own_graves(graves, filter)[k] == graves[i],
    decreases graves.len(),
{
    if i == graves.len() - 1 {
        own_graves(graves, filter).len() - 1
    } else {
        lemma_own_graves(graves.drop_last(), filter, i)
    }
}

/// Every tombstone that is there once the items were carried out is collected, that of
/// a tree which this very prune removed like any other: its session is closed, it is
/// dropped, and the exclude of its label is worked out anew.
pub proof fn what_was_removed_is_collected(
    labels: Seq<Seq<char>>,
    graves: Seq<Grave>,
    filter: Option<Seq<char>>,
    i: int,
)
    requires
        0 <= i < graves.len(),
        matches_label(filter, graves[i].label@),
    ensures
        collecting(labels, graves, filter).contains(PruneMove::CloseSession(graves[i].session@)),
        collecting(labels, graves, filter).contains(
            PruneMove::DropTombstones(grave_names(own_graves(graves, filter))),
        ),
        grave_names(own_graves(graves, filter)).contains((graves[i].label@, graves[i].name@)),
        collecting(labels, graves, filter).contains(PruneMove::RecomputeExclude(graves[i].label@)),
{
    let own = own_graves(graves, filter);
    let k = lemma_own_graves(graves, filter, i);
    let git = git_moves(labels, filter);
    let all = collecting(labels, graves, filter);
    let set = assoc::the_set(grave_labels(own));
    assoc::the_set_is_one(grave_labels(own));
    assert(all[git.len() + k] == PruneMove::CloseSession(graves[i].session@));
    let d = git.len() + own.len();
    assert(all[d as int] == PruneMove::DropTombstones(grave_names(own)));
    assert(grave_names(own)[k] == (graves[i].label@, graves[i].name@));
    assert(grave_labels(own)[k] == graves[i].label@);
    assert(grave_labels(own).contains(graves[i].label@));
    assert(set.contains(graves[i].label@));
    let m = choose|m: int| 0 <= m < set.len() && set[m] == graves[i].label@;
    assert(exclude_moves(set)[m] == PruneMove::RecomputeExclude(graves[i].label@));
    assert(all[d + 1 + m] == PruneMove::RecomputeExclude(graves[i].label@));
}

/// A tombstone is among those that are collected where its label is looked at.
pub proof fn tombstones_that_are_collected(graves: Seq<Grave>, filter: Option<Seq<char>>, y: Grave)
    ensures
        own_graves(graves, filter).contains(y) <==> (exists|i: int|
            0 <= i < graves.len() && (filter is None || filter == Some((#[trigger] graves[i]).label@)) && y == graves[i]),
    decreases graves.len(),
{
    let all = own_graves(graves, filter);
    if graves.len() > 0 {
        let rest = graves.drop_last();
        let some = own_graves(rest, filter);
        tombstones_that_are_collected(rest, filter, y);
        if all.contains(y) {
            let k = choose|k: int| 0 <= k < all.len() && all[k] == y;
            if k < some.len() {
                assert(some[k] == y);
                let i = choose|i: int| 0 <= i < rest.len() && (filter is None || filter == Some((#[trigger] rest[i]).label@)) && y == rest[i];
                assert(graves[i] == rest[i]);
            } else {
                assert((filter is None || filter == Some(graves[rest.len() as int].label@)) && y == graves[rest.len() as int]);
            }
        }
        if exists|i: int| 0 <= i < graves.len() && (filter is None || filter == Some((#[trigger] graves[i]).label@)) && y == graves[i] {
            let i = choose|i: int| 0 <= i < graves.len() && (filter is None || filter == Some((#[trigger] graves[i]).label@)) && y == graves[i];
            if i < rest.len() {
                assert(rest[i] == graves[i]);
                let k = choose|k: int| 0 <= k < some.len() && some[k] == y;
                assert(all[k] == y);
            } else {
                assert(all[all.len() - 1] == y);
            }
        }
    }
}

/// Git of each repository whose label is looked at forgets what is gone, and of no other.
pub proof fn git_of_each_repository_is_pruned(labels: Seq<Seq<char>>, filter: Option<Seq<char>>, y: PruneMove)
    ensures
        git_moves(labels, filter).contains(y) <==> (exists|i: int|
            0 <= i < labels.len() && (filter is None || filter == Some((#[trigger] labels[i]))) && y == PruneMove::PruneGit(labels[i])),
    decreases labels.len(),
{
    let all = git_moves(labels, filter);
    if labels.len() > 0 {
        let rest = labels.drop_last();
        let some = git_moves(rest, filter);
        git_of_each_repository_is_pruned(rest, filter, y);
        if all.contains(y) {
            let k = choose|k: int| 0 <= k < all.len() && all[k] == y;
            if k < some.len() {
                assert(some[k] == y);
                let i = choose|i: int| 0 <= i < rest.len() && (filter is None || filter == Some((#[trigger] rest[i]))) && y == PruneMove::PruneGit(rest[i]);
                assert(labels[i] == rest[i]);
            } else {
                assert((filter is None || filter == Some(labels[rest.len() as int])) && y == PruneMove::PruneGit(labels[rest.len() as int]));
            }
        }
        if exists|i: int| 0 <= i < labels.len() && (filter is None || filter == Some((#[trigger] labels[i]))) && y == PruneMove::PruneGit(labels[i]) {
            let i = choose|i: int| 0 <= i < labels.len() && (filter is None || filter == Some((#[trigger] labels[i]))) && y == PruneMove::PruneGit(labels[i]);
            if i < rest.len() {
                assert(rest[i] == labels[i]);
                let k = choose|k: int| 0 <= k < some.len() && some[k] == y;
                assert(all[k] == y);
            } else {
                assert(all[all.len() - 1] == y);
            }
        }
    }
}

/// How far a plan is carried out.
#[derive(Clone, Copy, Debug, PartialEq, Eq, Structural)]
pub enum PruneStage {
    /// Carry out the item at this place.
    Item(usize),
    /// Read which labels and tombstones there are now.
    Read,
    /// Take the step at this place of those that end the prune.
    Collect(usize),
    Done,
    Failed,
}

/// What came of a stage.
#[derive(Debug)]
pub enum PruneEvent {
    Failure(CoreError),
    Finished,
    Removed { data: RemoveData, notices: Vec<Notice> },
    Records { records: usize, remaining: usize, notices: Vec<Notice> },
    Deleted(bool),
    Registry { labels: Vec<String>, graves: Vec<Grave> },
}

/// What is known of an event.
pub enum PruneNews {
    Failure(error::Fault),
    Finished,
    Removed { data: remove::Gone, notices: Seq<output::Said> },
    Records { records: int, remaining: int, notices: Seq<output::Said> },
    Deleted(bool),
    Registry { labels: Seq<Seq<char>>, graves: Seq<Grave> },
}

impl View for PruneEvent {
    type V = PruneNews;

    open spec fn view(&self) -> PruneNews {
        match self {
            PruneEvent::Failure(e) => PruneNews::Failure(e@),
            PruneEvent::Finished => PruneNews::Finished,
            PruneEvent::Removed { data, notices } => PruneNews::Removed {
                data: data@,
                notices: output::said(notices@),
            },
            PruneEvent::Records { records, remaining, notices } => PruneNews::Records {
                records: *records as int,
                remaining: *remaining as int,
                notices: output::said(notices@),
            },
            PruneEvent::Deleted(yes) => PruneNews::Deleted(*yes),
            PruneEvent::Registry { labels, graves } => PruneNews::Registry {
                labels: text::texts(labels@),
                graves: graves@,
            },
        }
    }
}

/// A plan that is being carried out; `steps` are those that end it, once they are
/// known.
#[derive(Debug)]
pub struct Pruning {
    pub items: Vec<PruneItem>,
    pub filter: Option<String>,
    pub stage: PruneStage,
    pub steps: Vec<PruneStep>,
    pub notices: Vec<Notice>,
    pub error: Option<CoreError>,
}

/// What is known of a plan that is being carried out.
#[verifier::ext_equal]
pub struct Course {
    pub items: Seq<Item>,
    pub filter: Option<Seq<char>>,
    pub stage: PruneStage,
    pub steps: Seq<PruneMove>,
    pub notices: Seq<output::Said>,
    pub error: Option<error::Fault>,
}

impl View for Pruning {
    type V = Course;

    open spec fn view(&self) -> Course {
        Course {
            items: item_views(self.items@),
            filter: text::opt(self.filter),
            stage: self.stage,
            steps: prune_moves(self.steps@),
            notices: output::said(self.notices@),
            error: match self.error {
                Some(e) => Some(e@),
                None => None,
            },
        }
    }
}

/// Whether an action is one that is carried out at its place in the plan.
pub open spec fn acts(action: PruneAction) -> bool {
    action != PruneAction::Keep && action != PruneAction::Collect
}

/// The first item from a place on that something is done about; their number where
/// there is none.
pub open spec fn next_act(items: Seq<Item>, from: int) -> int
    decreases items.len() - from,
{
    if from >= items.len() {
        items.len() as int
    } else if acts(items[from].action) {
        from
    } else {
        next_act(items, from + 1)
    }
}

/// The stage that carries the items out from a place on.
pub open spec fn stage_from(items: Seq<Item>, from: int) -> PruneStage {
    if next_act(items, from) < items.len() {
        PruneStage::Item(next_act(items, from) as usize)
    } else {
        PruneStage::Read
    }
}

/// Items, those of one action with what came of it.
pub open spec fn marked(items: Seq<Item>, action: PruneAction, outcome: Outcome) -> Seq<Item> {
    items.map_values(
        |i: Item|
            if i.action == action {
                Item { result: Some(outcome), ..i }
            } else {
                i
            },
    )
}

/// How carrying a plan out begins: what is kept is settled.
pub open spec fn course(items: Seq<Item>, filter: Option<Seq<char>>) -> Course {
    Course {
        items: marked(items, PruneAction::Keep, Outcome::Kept),
        filter,
        stage: stage_from(items, 0),
        steps: Seq::<PruneMove>::empty(),
        notices: Seq::<output::Said>::empty(),
        error: None,
    }
}

/// With an item carried out.
pub open spec fn carried(c: Course, i: int, outcome: Outcome, notices: Seq<output::Said>) -> Course {
    Course {
        items: c.items.update(i, Item { result: Some(outcome), ..c.items[i] }),
        stage: stage_from(c.items, i + 1),
        notices: c.notices + notices,
        ..c
    }
}

/// At a step of those that end the prune; with the last of them the tombstones are
/// collected.
pub open spec fn at_step(c: Course, k: int) -> Course {
    if k < c.steps.len() {
        Course { stage: PruneStage::Collect(k as usize), ..c }
    } else {
        Course {
            items: marked(c.items, PruneAction::Collect, Outcome::Collected),
            stage: PruneStage::Done,
            ..c
        }
    }
}

/// Carrying a plan out after something came of its stage. What does not belong to the
/// stage, or to the action of its item, changes nothing.
pub open spec fn pruned(c: Course, news: PruneNews) -> Course {
    match (c.stage, news) {
        (PruneStage::Done, _) | (PruneStage::Failed, _) => c,
        (_, PruneNews::Failure(e)) => Course { stage: PruneStage::Failed, error: Some(e), ..c },
        (PruneStage::Item(i), PruneNews::Removed { data, notices }) => if c.items[i as int].action
            == PruneAction::Remove {
            carried(c, i as int, Outcome::Removed(data), notices)
        } else {
            c
        },
        (PruneStage::Item(i), PruneNews::Records { records, remaining, notices }) => if c.items[i as
            int].action == PruneAction::DestroyRecords {
            carried(c, i as int, Outcome::Records { records, remaining }, notices)
        } else {
            c
        },
        (PruneStage::Item(i), PruneNews::Finished) => if c.items[i as int].action
            == PruneAction::DeleteState {
            carried(c, i as int, Outcome::Deleted(true), Seq::<output::Said>::empty())
        } else {
            c
        },
        (PruneStage::Item(i), PruneNews::Deleted(yes)) => if c.items[i as int].action
            == PruneAction::DeleteCache || c.items[i as int].action
            == PruneAction::DeleteExclusive {
            carried(c, i as int, Outcome::Deleted(yes), Seq::<output::Said>::empty())
        } else {
            c
        },
        (PruneStage::Read, PruneNews::Registry { labels, graves }) => at_step(
            Course { steps: collecting(labels, graves, c.filter), ..c },
            0,
        ),
        (PruneStage::Collect(k), PruneNews::Finished) => at_step(c, k + 1),
        _ => c,
    }
}

fn mark(items: &mut Vec<PruneItem>, action: PruneAction, kept: bool)
    ensures
        item_views(final(items)@) == marked(
            item_views(old(items)@),
            action,
            if kept {
                Outcome::Kept
            } else {
                Outcome::Collected
            },
        ),
{
    let ghost start = item_views(items@);
    let ghost outcome = if kept {
        Outcome::Kept
    } else {
        Outcome::Collected
    };
    let ghost want = marked(start, action, outcome);
    let mut i: usize = 0;
    while i < items.len()
        invariant
            i <= items@.len(),
            items@.len() == start.len(),
            want == marked(start, action, outcome),
            outcome == if kept {
                Outcome::Kept
            } else {
                Outcome::Collected
            },
            forall|k: int| 0 <= k < i ==> (#[trigger] items@[k])@ == want[k],
            forall|k: int| i <= k < items@.len() ==> (#[trigger] items@[k])@ == start[k],
        decreases items@.len() - i,
    {
        if items[i].action == action {
            let result = if kept {
                ItemResult::Kept
            } else {
                ItemResult::Collected
            };
            set_result(items, i, result);
        }
        i = i + 1;
    }
    proof {
        assert(item_views(items@) =~= want);
    }
}

fn set_result(items: &mut Vec<PruneItem>, i: usize, result: ItemResult)
    requires
        i < old(items)@.len(),
    ensures
        final(items)@.len() == old(items)@.len(),
        item_views(final(items)@) == item_views(old(items)@).update(
            i as int,
            Item { result: Some(result@), ..old(items)@[i as int]@ },
        ),
        forall|k: int| 0 <= k < final(items)@.len() && k != i ==> final(items)@[k] == old(items)@[k],
        final(items)@[i as int]@ == (Item { result: Some(result@), ..old(items)@[i as int]@ }),
{
    let ghost start = item_views(items@);
    let one = PruneItem {
        target: items[i].target.clone(),
        reasons: copy_texts(&items[i].reasons),
        action: items[i].action,
        result: Some(result),
    };
    let ghost o = one@;
    items.set(i, one);
    proof {
        assert(item_views(items@) =~= start.update(i as int, o));
    }
}

fn find_stage(items: &Vec<PruneItem>, from: usize) -> (r: PruneStage)
    requires
        from <= items@.len(),
    ensures
        r == stage_from(item_views(items@), from as int),
{
    let ghost all = item_views(items@);
    let mut i: usize = from;
    while i < items.len()
        invariant
            i <= items@.len(),
            all == item_views(items@),
            next_act(all, from as int) == next_act(all, i as int),
        decreases items@.len() - i,
    {
        proof {
            assert(all[i as int].action == items@[i as int].action);
        }
        match items[i].action {
            PruneAction::Keep | PruneAction::Collect => {},
            _ => {
                return PruneStage::Item(i);
            },
        }
        i = i + 1;
    }
    PruneStage::Read
}

proof fn lemma_marks_keep_actions(items: Seq<Item>, other: Seq<Item>, from: int)
    requires
        items.len() == other.len(),
        forall|k: int| 0 <= k < items.len() ==> (#[trigger] items[k]).action == other[k].action,
        0 <= from,
    ensures
        stage_from(items, from) == stage_from(other, from),
        next_act(items, from) == next_act(other, from),
        from <= items.len() ==> from <= next_act(items, from) <= items.len(),
    decreases items.len() - from,
{
    if from < items.len() {
        assert(items[from].action == other[from].action);
        if !acts(items[from].action) {
            lemma_marks_keep_actions(items, other, from + 1);
        }
    }
}

impl Pruning {
    /// What holds of a plan at every stage: its place is one that there is.
    pub open spec fn wf(&self) -> bool {
        &&& (self.stage matches PruneStage::Item(i) ==> i < self.items@.len())
        &&& (self.stage matches PruneStage::Collect(k) ==> k < self.steps@.len())
    }

    /// Begins to carry a plan out, for one label or for all.
    pub fn new(items: Vec<PruneItem>, filter: Option<String>) -> (r: Self)
        ensures
            r.wf(),
            r@ == course(item_views(items@), text::opt(filter)),
    {
        let ghost all = item_views(items@);
        let mut items = items;
        mark(&mut items, PruneAction::Keep, true);
        proof {
            lemma_marks_keep_actions(item_views(items@), all, 0);
        }
        let stage = find_stage(&items, 0);
        let r = Pruning {
            items,
            filter,
            stage,
            steps: Vec::new(),
            notices: Vec::new(),
            error: None,
        };
        proof {
            assert(r@ =~= course(all, text::opt(filter)));
        }
        r
    }

    fn carry(&mut self, i: usize, result: ItemResult, notices: Vec<Notice>)
        requires
            i < old(self).items@.len(),
            old(self).stage == PruneStage::Item(i),
        ensures
            final(self).wf(),
            final(self)@ == carried(old(self)@, i as int, result@, output::said(notices@)),
    {
        let ghost before = self@;
        let mut more = notices;
        let ghost said = output::said(more@);
        set_result(&mut self.items, i, result);
        self.notices.append(&mut more);
        let ghost now = item_views(self.items@);
        proof {
            lemma_marks_keep_actions(now, before.items, i + 1);
            assert(output::said(self.notices@) =~= before.notices + said);
        }
        let count: usize = self.items.len();
        assert(i < count);
        self.stage = find_stage(&self.items, i + 1);
    }

    fn step_to(&mut self, k: usize)
        ensures
            final(self).wf(),
            final(self)@ == at_step(old(self)@, k as int),
    {
        if k < self.steps.len() {
            self.stage = PruneStage::Collect(k);
        } else {
            mark(&mut self.items, PruneAction::Collect, false);
            self.stage = PruneStage::Done;
        }
    }

    /// Takes what came of the stage, and goes on to the next.
    pub fn advance(&mut self, event: PruneEvent)
        requires
            old(self).wf(),
        ensures
            final(self).wf(),
            final(self)@ == pruned(old(self)@, event@),
    {
        match (self.stage, event) {
            (PruneStage::Done, _) | (PruneStage::Failed, _) => {},
            (_, PruneEvent::Failure(e)) => {
                self.stage = PruneStage::Failed;
                self.error = Some(e);
            },
            (PruneStage::Item(i), PruneEvent::Removed { data, notices }) => {
                if self.items[i].action == PruneAction::Remove {
                    self.carry(i, ItemResult::Removed(data), notices);
                }
            },
            (PruneStage::Item(i), PruneEvent::Records { records, remaining, notices }) => {
                if self.items[i].action == PruneAction::DestroyRecords {
                    self.carry(i, ItemResult::Records { records, remaining }, notices);
                }
            },
            (PruneStage::Item(i), PruneEvent::Finished) => {
                if self.items[i].action == PruneAction::DeleteState {
                    let none: Vec<Notice> = Vec::new();
                    proof {
                        assert(output::said(none@) =~= Seq::<output::Said>::empty());
                    }
                    self.carry(i, ItemResult::Deleted(true), none);
                }
            },
            (PruneStage::Item(i), PruneEvent::Deleted(yes)) => {
                if self.items[i].action == PruneAction::DeleteCache || self.items[i].action
                    == PruneAction::DeleteExclusive {
                    let none: Vec<Notice> = Vec::new();
                    proof {
                        assert(output::said(none@) =~= Seq::<output::Said>::empty());
                    }
                    self.carry(i, ItemResult::Deleted(yes), none);
                }
            },
            (PruneStage::Read, PruneEvent::Registry { labels, graves }) => {
                self.steps = collect(&labels, &graves, &self.filter);
                self.step_to(0);
            },
            (PruneStage::Collect(k), PruneEvent::Finished) => {
                let count: usize = self.steps.len();
                assert(k < count);
                self.step_to(k + 1);
            },
            _ => {},
        }
    }
}

/// Carrying a plan out after a row of events.
pub open spec fn pruned_all(c: Course, news: Seq<PruneNews>) -> Course
    decreases news.len(),
{
    if news.len() == 0 {
        c
    } else {
        pruned(pruned_all(c, news.drop_last()), news.last())
    }
}

/// A plan that was carried out has a result for every item.
pub proof fn every_item_has_a_result(items: Seq<Item>, filter: Option<Seq<char>>, news: Seq<PruneNews>)
    requires
        items.len() <= usize::MAX,
        pruned_all(course(items, filter), news).stage == PruneStage::Done,
    ensures
        pruned_all(course(items, filter), news).items.len() == items.len(),
        forall|i: int|
            0 <= i < items.len() ==> (#[trigger] pruned_all(
                course(items, filter),
                news,
            ).items[i]).result is Some,
{
    lemma_results(items, filter, news);
}

spec fn behind_stage(c: Course, i: int) -> bool {
    match c.stage {
        PruneStage::Item(k) => i < k,
        PruneStage::Failed => false,
        _ => true,
    }
}

proof fn lemma_results(items: Seq<Item>, filter: Option<Seq<char>>, news: Seq<PruneNews>)
    requires
        items.len() <= usize::MAX,
    ensures
        ({
            let c = pruned_all(course(items, filter), news);
            &&& c.items.len() == items.len()
            &&& (c.stage matches PruneStage::Item(k) ==> k < items.len())
            &&& forall|i: int|
                0 <= i < items.len() ==> {
                    let it = #[trigger] c.items[i];
                    &&& it.action == items[i].action
                    &&& it.action == PruneAction::Keep ==> it.result is Some
                    &&& acts(it.action) && behind_stage(c, i) ==> it.result is Some
                    &&& it.action == PruneAction::Collect && c.stage == PruneStage::Done
                        ==> it.result is Some
                }
        }),
    decreases news.len(),
{
    let c = pruned_all(course(items, filter), news);
    if news.len() == 0 {
        lemma_marks_keep_actions(items, items, 0);
        lemma_next_act(items, 0);
    } else {
        lemma_results(items, filter, news.drop_last());
        let b = pruned_all(course(items, filter), news.drop_last());
        if let PruneStage::Item(k) = b.stage {
            lemma_marks_keep_actions(b.items, items, k + 1);
            lemma_next_act(b.items, k + 1);
        }
    }
}

proof fn lemma_next_act(items: Seq<Item>, from: int)
    requires
        0 <= from,
    ensures
        forall|i: int|
            from <= i < items.len() && i < next_act(items, from) ==> !acts(
                (#[trigger] items[i]).action,
            ),
    decreases items.len() - from,
{
    if from < items.len() && !acts(items[from].action) {
        lemma_next_act(items, from + 1);
    }
}

/// Nothing that is to be done is passed over: the stage that carries the items out is the
/// first one that is not kept or a tombstone, and where there is none the registry is read.
pub proof fn nothing_to_do_is_passed_over(items: Seq<Item>, from: int)
    requires
        0 <= from <= items.len() <= usize::MAX,
    ensures
        match stage_from(items, from) {
            PruneStage::Item(k) => {
                &&& from <= k < items.len()
                &&& items[k as int].action != PruneAction::Keep && items[k as int].action
                    != PruneAction::Collect
                &&& forall|i: int|
                    from <= i < k ==> (#[trigger] items[i]).action == PruneAction::Keep
                        || items[i].action == PruneAction::Collect
            },
            PruneStage::Read => forall|i: int|
                from <= i < items.len() ==> (#[trigger] items[i]).action == PruneAction::Keep
                    || items[i].action == PruneAction::Collect,
            _ => false,
        },
    decreases items.len() - from,
{
    if from < items.len() && (items[from].action == PruneAction::Keep || items[from].action
        == PruneAction::Collect) {
        nothing_to_do_is_passed_over(items, from + 1);
        assert(next_act(items, from) == next_act(items, from + 1));
    }
}

/// An item is reported by what came of it, and by nothing else, and the others are left as
/// they were. Only a failure ends it early, with its error.
pub proof fn an_item_is_reported_by_what_came_of_it(c: Course, news: PruneNews, k: usize)
    requires
        c.stage == PruneStage::Item(k),
        k < c.items.len(),
    ensures
        ({
            let d = pruned(c, news);
            let action = c.items[k as int].action;
            let told = d.items[k as int].result;
            &&& d.stage == PruneStage::Failed <==> news is Failure
            &&& news matches PruneNews::Failure(e) ==> d.error == Some(e) && d.items == c.items
            &&& news matches PruneNews::Removed { data, notices } ==> (action == PruneAction::Remove
                ==> told == Some(Outcome::Removed(data)) && d.notices == c.notices + notices)
            &&& news matches PruneNews::Records { records, remaining, notices } ==> (action
                == PruneAction::DestroyRecords ==> told == Some(
                Outcome::Records { records, remaining },
            ) && d.notices == c.notices + notices)
            &&& news is Finished ==> (action == PruneAction::DeleteState ==> told == Some(
                Outcome::Deleted(true),
            ))
            &&& news matches PruneNews::Deleted(yes) ==> (action == PruneAction::DeleteCache || action
                == PruneAction::DeleteExclusive ==> told == Some(Outcome::Deleted(yes)))
            &&& d.items.len() == c.items.len()
            &&& forall|i: int| 0 <= i < c.items.len() && i != k ==> #[trigger] d.items[i] == c.items[i]
            &&& d != c && !(news is Failure) ==> d.stage == stage_from(c.items, k + 1)
        }),
{
}

/// What an item comes to in the end: one that is kept is told as kept, and a tombstone as
/// collected once the last step is done.
pub proof fn what_is_kept_is_told_as_kept(items: Seq<Item>, filter: Option<Seq<char>>, i: int)
    requires
        0 <= i < items.len(),
    ensures
        course(items, filter).items[i].result == if items[i].action == PruneAction::Keep {
            Some(Outcome::Kept)
        } else {
            items[i].result
        },
        course(items, filter).items[i].target == items[i].target,
        course(items, filter).items[i].reasons == items[i].reasons,
        course(items, filter).items[i].action == items[i].action,
{
}

// ---------------------------------------------------------------------------
// Destroying records
// ---------------------------------------------------------------------------

/// What destroying the records of a tree does next. They are taken in the order in
/// which they are destroyed, the newest first.
#[derive(Clone, Copy, Debug, PartialEq, Eq, Structural)]
pub enum RecordsStep {
    /// Lock the resource of the record at this place.
    Lock(usize),
    /// Destroy it.
    Destroy(usize),
    /// Count the records that are left.
    Count,
    /// Lock git of the tree's repository.
    LockGit,
    /// Let it forget worktrees that are gone.
    PruneGit,
    Done,
    Failed,
}

/// What came of a step.
#[derive(Debug)]
pub enum RecordsEvent {
    Failure(CoreError),
    Finished,
    Destroyed(Option<Notice>),
    Left(usize),
}

/// What is known of an event.
pub enum RecordsNews {
    Failure(error::Fault),
    Finished,
    Destroyed(Option<output::Said>),
    Left(int),
}

impl View for RecordsEvent {
    type V = RecordsNews;

    open spec fn view(&self) -> RecordsNews {
        match self {
            RecordsEvent::Failure(e) => RecordsNews::Failure(e@),
            RecordsEvent::Finished => RecordsNews::Finished,
            RecordsEvent::Destroyed(n) => RecordsNews::Destroyed(
                match n {
                    Some(notice) => Some(notice@),
                    None => None,
                },
            ),
            RecordsEvent::Left(n) => RecordsNews::Left(*n as int),
        }
    }
}

/// The records of a tree that are being destroyed. `alone` says that this is all that
/// was asked for: each resource is locked then, and git of the tree's repository
/// forgets worktrees at the end.
#[derive(Debug)]
pub struct Records {
    pub alone: bool,
    pub records: usize,
    pub step: RecordsStep,
    pub remaining: usize,
    pub notices: Vec<Notice>,
    pub error: Option<CoreError>,
}

/// What is known of records that are being destroyed.
#[verifier::ext_equal]
pub struct Purge {
    pub alone: bool,
    pub records: int,
    pub step: RecordsStep,
    pub remaining: int,
    pub notices: Seq<output::Said>,
    pub error: Option<error::Fault>,
}

impl View for Records {
    type V = Purge;

    open spec fn view(&self) -> Purge {
        Purge {
            alone: self.alone,
            records: self.records as int,
            step: self.step,
            remaining: self.remaining as int,
            notices: output::said(self.notices@),
            error: match self.error {
                Some(e) => Some(e@),
                None => None,
            },
        }
    }
}

/// The step that begins with the record at a place.
pub open spec fn at_record(alone: bool, records: int, i: int) -> RecordsStep {
    if i >= records {
        RecordsStep::Count
    } else if alone {
        RecordsStep::Lock(i as usize)
    } else {
        RecordsStep::Destroy(i as usize)
    }
}

/// How destroying records begins.
pub open spec fn purge(alone: bool, records: int) -> Purge {
    Purge {
        alone,
        records,
        step: at_record(alone, records, 0),
        remaining: 0,
        notices: Seq::<output::Said>::empty(),
        error: None,
    }
}

/// Destroying records after something came of its step. A record that could not be
/// destroyed stays and stops nothing; any other error does. What does not belong to
/// the step changes nothing.
pub open spec fn purged(p: Purge, news: RecordsNews) -> Purge {
    match (p.step, news) {
        (RecordsStep::Done, _) | (RecordsStep::Failed, _) => p,
        (RecordsStep::Destroy(i), RecordsNews::Failure(_)) => Purge {
            step: at_record(p.alone, p.records, i + 1),
            ..p
        },
        (_, RecordsNews::Failure(e)) => Purge { step: RecordsStep::Failed, error: Some(e), ..p },
        (RecordsStep::Lock(i), RecordsNews::Finished) => Purge { step: RecordsStep::Destroy(i), ..p },
        (RecordsStep::Destroy(i), RecordsNews::Destroyed(notice)) => Purge {
            step: at_record(p.alone, p.records, i + 1),
            notices: match notice {
                Some(n) => p.notices.push(n),
                None => p.notices,
            },
            ..p
        },
        (RecordsStep::Count, RecordsNews::Left(n)) => Purge {
            remaining: n,
            step: if p.alone {
                RecordsStep::LockGit
            } else {
                RecordsStep::Done
            },
            ..p
        },
        (RecordsStep::LockGit, RecordsNews::Finished) => Purge { step: RecordsStep::PruneGit, ..p },
        (RecordsStep::PruneGit, RecordsNews::Finished) => Purge { step: RecordsStep::Done, ..p },
        _ => p,
    }
}

impl Records {
    /// What holds of records that are destroyed: the place is one that there is.
    pub open spec fn wf(&self) -> bool {
        &&& (self.step matches RecordsStep::Lock(i) ==> i < self.records)
        &&& (self.step matches RecordsStep::Destroy(i) ==> i < self.records)
    }

    fn step_at(&self, i: usize) -> (r: RecordsStep)
        ensures
            r == at_record(self.alone, self.records as int, i as int),
    {
        if i >= self.records {
            RecordsStep::Count
        } else if self.alone {
            RecordsStep::Lock(i)
        } else {
            RecordsStep::Destroy(i)
        }
    }

    /// Begins to destroy so many records of a tree.
    pub fn new(alone: bool, records: usize) -> (r: Self)
        ensures
            r.wf(),
            r@ == purge(alone, records as int),
    {
        let mut r = Records {
            alone,
            records,
            step: RecordsStep::Count,
            remaining: 0,
            notices: Vec::new(),
            error: None,
        };
        let step = r.step_at(0);
        r.step = step;
        proof {
            assert(r@ =~= purge(alone, records as int));
        }
        r
    }

    /// Takes what came of the step, and goes on to the next.
    pub fn advance(&mut self, event: RecordsEvent)
        requires
            old(self).wf(),
        ensures
            final(self).wf(),
            final(self)@ == purged(old(self)@, event@),
    {
        let ghost before = self@;
        match (self.step, event) {
            (RecordsStep::Done, _) | (RecordsStep::Failed, _) => {},
            (RecordsStep::Destroy(i), RecordsEvent::Failure(_)) => {
                self.step = self.step_at(i + 1);
            },
            (_, RecordsEvent::Failure(e)) => {
                self.step = RecordsStep::Failed;
                self.error = Some(e);
            },
            (RecordsStep::Lock(i), RecordsEvent::Finished) => {
                self.step = RecordsStep::Destroy(i);
            },
            (RecordsStep::Destroy(i), RecordsEvent::Destroyed(notice)) => {
                self.step = self.step_at(i + 1);
                if let Some(n) = notice {
                    let ghost said = n@;
                    self.notices.push(n);
                    proof {
                        assert(output::said(self.notices@) =~= before.notices.push(said));
                    }
                }
            },
            (RecordsStep::Count, RecordsEvent::Left(n)) => {
                self.remaining = n;
                self.step = if self.alone {
                    RecordsStep::LockGit
                } else {
                    RecordsStep::Done
                };
            },
            (RecordsStep::LockGit, RecordsEvent::Finished) => {
                self.step = RecordsStep::PruneGit;
            },
            (RecordsStep::PruneGit, RecordsEvent::Finished) => {
                self.step = RecordsStep::Done;
            },
            _ => {},
        }
    }

    /// What came of destroying the records.
    pub fn result(&self) -> (r: ItemResult)
        ensures
            r@ == (Outcome::Records { records: self@.records, remaining: self@.remaining }),
    {
        ItemResult::Records { records: self.records, remaining: self.remaining }
    }
}

/// Destroying records after a row of events.
pub open spec fn purged_all(p: Purge, news: Seq<RecordsNews>) -> Purge
    decreases news.len(),
{
    if news.len() == 0 {
        p
    } else {
        purged(purged_all(p, news.drop_last()), news.last())
    }
}

/// The place of a step in the order in which steps come.
pub open spec fn purge_place(step: RecordsStep) -> int {
    match step {
        RecordsStep::Lock(i) => 2 * i,
        RecordsStep::Destroy(i) => 2 * i + 1,
        RecordsStep::Count => usize::MAX + usize::MAX + 2,
        RecordsStep::LockGit => usize::MAX + usize::MAX + 3,
        RecordsStep::PruneGit => usize::MAX + usize::MAX + 4,
        RecordsStep::Done => usize::MAX + usize::MAX + 5,
        RecordsStep::Failed => -1,
    }
}

/// Whether a step is called for.
pub open spec fn purge_calls_for(a: Purge, step: RecordsStep) -> bool {
    match step {
        RecordsStep::Lock(i) => a.alone && i < a.records,
        RecordsStep::Destroy(i) => i < a.records,
        RecordsStep::LockGit | RecordsStep::PruneGit => a.alone,
        _ => true,
    }
}

/// What holds at every step.
pub open spec fn purge_holds(a: Purge, alone: bool, records: int) -> bool {
    &&& purge_calls_for(a, a.step)
    &&& a.alone == alone && a.records == records
    &&& 0 <= records <= usize::MAX
    &&& a.error is None
}

/// What an answer to a step is gone by.
pub open spec fn purge_goes_by(a: Purge, step: RecordsStep, e: RecordsNews) -> bool {
    match step {
        RecordsStep::Count => e == RecordsNews::Left(a.remaining),
        RecordsStep::Destroy(_) => e is Failure || e is Destroyed,
        RecordsStep::Failed | RecordsStep::Done => true,
        _ => e is Finished,
    }
}

/// How it goes on.
pub open spec fn purge_next() -> spec_fn(Purge, RecordsNews) -> Purge {
    |a: Purge, e: RecordsNews| purged(a, e)
}

/// The step that it is at.
pub open spec fn purge_at() -> spec_fn(Purge) -> RecordsStep {
    |a: Purge| a.step
}

/// What a step was answered with, where it was taken and left again.
pub open spec fn purge_given(alone: bool, records: int, events: Seq<RecordsNews>, step: RecordsStep) -> Option<RecordsNews> {
    course::answered(purge_next(), purge_at(), purge(alone, records), events, step)
}

proof fn lemma_purge_after(alone: bool, records: int, events: Seq<RecordsNews>)
    ensures
        purged_all(purge(alone, records), events) == course::after(purge_next(), purge(alone, records), events),
    decreases events.len(),
{
    if events.len() > 0 {
        lemma_purge_after(alone, records, events.drop_last());
    }
}

#[verifier::spinoff_prover]
proof fn lemma_purge_step(a: Purge, alone: bool, records: int, e: RecordsNews, k: RecordsStep)
    requires
        !(a.step == RecordsStep::Failed),
        purge_holds(a, alone, records),
        !(purged(a, e).step == RecordsStep::Failed),
    ensures
        ({
            let b = purged(a, e);
            &&& purge_holds(b, alone, records)
            &&& b.step == a.step ==> b == a
            &&& b.step != a.step ==> {
                &&& purge_place(b.step) > purge_place(a.step)
                &&& purge_place(k) <= purge_place(a.step) ==> purge_calls_for(b, k) == purge_calls_for(a, k)
                &&& purge_place(a.step) < purge_place(k) < purge_place(b.step) ==> !purge_calls_for(b, k)
            }
        }),
{
}

#[verifier::spinoff_prover]
proof fn lemma_purge_told(a: Purge, alone: bool, records: int, e: RecordsNews, k: RecordsStep, e0: RecordsNews)
    requires
        !(a.step == RecordsStep::Failed),
        purge_holds(a, alone, records),
        !(purged(a, e).step == RecordsStep::Failed),
    ensures
        a.step == k && purged(a, e).step != k ==> purge_goes_by(purged(a, e), k, e),
        purge_place(a.step) > purge_place(k) && purge_goes_by(a, k, e0) ==> purge_goes_by(purged(a, e), k, e0),
{
}

/// Each step of destroying records is taken where it is called for, and nowhere else,
/// whatever the events and whatever came of other records: each record is destroyed, and
/// where records are all that was asked for its resource is locked first, and git is
/// locked and pruned in the end.
pub proof fn every_record_is_dealt_with(alone: bool, records: int, events: Seq<RecordsNews>, step: RecordsStep)
    requires
        purge_place(purge(alone, records).step) <= purge_place(step),
        0 <= records <= usize::MAX,
    ensures
        ({
            let a = purged_all(purge(alone, records), events);
            !(a.step == RecordsStep::Failed) ==> {
                &&& (match a.step {
                    RecordsStep::Lock(i) => a.alone && i < a.records,
                    RecordsStep::Destroy(i) => i < a.records,
                    RecordsStep::LockGit | RecordsStep::PruneGit => a.alone,
                    _ => true,
                })
                &&& a.alone == alone && a.records == records
                &&& 0 <= records <= usize::MAX
                &&& a.error is None
                &&& purge_place(a.step) > purge_place(step) ==> (purge_given(alone, records, events, step) is Some
                    <==> (match step {
                            RecordsStep::Lock(i) => a.alone && i < a.records,
                            RecordsStep::Destroy(i) => i < a.records,
                            RecordsStep::LockGit | RecordsStep::PruneGit => a.alone,
                            _ => true,
                        }))
                &&& purge_place(a.step) <= purge_place(step) ==> purge_given(alone, records, events, step) is None
                &&& purge_given(alone, records, events, step) matches Some(e) ==> (match step {
                    RecordsStep::Count => e == RecordsNews::Left(a.remaining),
                    RecordsStep::Destroy(_) => e is Failure || e is Destroyed,
                    RecordsStep::Failed | RecordsStep::Done => true,
                    _ => e is Finished,
                })
            }
        }),
{
    lemma_purge_after(alone, records, events);
    let next = purge_next();
    let at = purge_at();
    let s = purge(alone, records);
    let places = |k: RecordsStep| purge_place(k);
    let dead = |a: Purge| a.step == RecordsStep::Failed;
    let inv = |a: Purge| purge_holds(a, alone, records);
    let called = |a: Purge, k: RecordsStep| purge_calls_for(a, k);
    let past = |a: Purge| purge_place(a.step) > purge_place(step);
    let fact = |a: Purge, e: RecordsNews| purge_goes_by(a, step, e);
    assert forall|a: Purge, e: RecordsNews|
        inv(a) && !dead(a) && !dead(#[trigger] next(a, e)) implies inv(next(a, e)) by {
        lemma_purge_step(a, alone, records, e, step);
    }
    assert forall|a: Purge, e: RecordsNews|
        inv(a) && !dead(a) && called(a, at(a)) && !dead(#[trigger] next(a, e)) implies {
        let b = next(a, e);
        &&& inv(b)
        &&& at(b) == at(a) ==> b == a
        &&& at(b) != at(a) ==> {
            &&& places(at(b)) > places(at(a))
            &&& called(b, at(b))
            &&& places(step) <= places(at(a)) ==> called(b, step) == called(a, step)
            &&& places(at(a)) < places(step) < places(at(b)) ==> !called(b, step)
        }
    } by {
        lemma_purge_step(a, alone, records, e, step);
    }
    course::lemma_taken(next, at, places, dead, inv, called, s, events, step);
    assert forall|a: Purge, e: RecordsNews|
        inv(a) && !dead(a) && !dead(#[trigger] next(a, e)) && at(a) == step && at(next(a, e))
            != step implies past(next(a, e)) && fact(next(a, e), e) by {
        lemma_purge_step(a, alone, records, e, step);
        lemma_purge_told(a, alone, records, e, step, e);
    }
    assert forall|a: Purge, e: RecordsNews, e0: RecordsNews|
        #![trigger next(a, e), fact(a, e0)]
        inv(a) && !dead(a) && !dead(next(a, e)) && past(a) && fact(a, e0) implies past(next(a, e))
        && fact(next(a, e), e0) && at(a) != step by {
        lemma_purge_step(a, alone, records, e, step);
        lemma_purge_told(a, alone, records, e, step, e0);
    }
    course::lemma_told(next, at, dead, inv, past, fact, s, events, step);
}

/// Destroying records fails where a step failed, with its error, but for a record that could
/// not be destroyed.
pub proof fn destroying_fails_for_what_failed(p: Purge, news: RecordsNews)
    requires
        p.step != RecordsStep::Failed,
        p.step != RecordsStep::Done,
    ensures
        purged(p, news).step == RecordsStep::Failed <==> (news is Failure && !(p.step is Destroy)),
        !(p.step is Destroy) ==> (news matches RecordsNews::Failure(e) ==> purged(p, news).error
            == Some(e)),
        p.step is Destroy ==> (news matches RecordsNews::Destroyed(Some(n)) ==> purged(
            p,
            news,
        ).notices == p.notices.push(n)),
{
}

/// Where records are all that was asked for, a record is destroyed only right after its
/// resource was locked; and git is touched only then, and only under its lock.
pub proof fn records_go_under_their_locks(
    alone: bool,
    records: int,
    news: Seq<RecordsNews>,
    last: RecordsNews,
)
    ensures
        ({
            let before = purged_all(purge(alone, records), news);
            let after = purged(before, last);
            &&& alone && after.step != before.step ==> (after.step matches RecordsStep::Destroy(i)
                ==> before.step == RecordsStep::Lock(i) && last is Finished)
            &&& after.step == RecordsStep::PruneGit ==> alone
            &&& after.step == RecordsStep::PruneGit && before.step != RecordsStep::PruneGit
                ==> before.step == RecordsStep::LockGit && last is Finished
        }),
    decreases news.len(),
{
    lemma_purge_kind(alone, records, news);
}

proof fn lemma_purge_kind(alone: bool, records: int, news: Seq<RecordsNews>)
    ensures
        ({
            let p = purged_all(purge(alone, records), news);
            &&& p.alone == alone
            &&& (p.step == RecordsStep::LockGit || p.step == RecordsStep::PruneGit ==> alone)
        }),
    decreases news.len(),
{
    if news.len() > 0 {
        lemma_purge_kind(alone, records, news.drop_last());
    }
}

/// The tombstones that stay when those of some labels and names are dropped.
pub open spec fn staying(graves: Seq<Grave>, dropped: Seq<(Seq<char>, Seq<char>)>) -> Seq<Grave>
    decreases graves.len(),
{
    if graves.len() == 0 {
        Seq::<Grave>::empty()
    } else {
        let rest = staying(graves.drop_last(), dropped);
        if dropped.contains((graves.last().label@, graves.last().name@)) {
            rest
        } else {
            rest.push(graves.last())
        }
    }
}

fn has_pair(list: &Vec<(String, String)>, label: &str, name: &str) -> (r: bool)
    ensures
        r == text::pairs(list@).contains((label@, name@)),
{
    let ghost all = text::pairs(list@);
    let mut i: usize = 0;
    while i < list.len()
        invariant
            i <= list.len(),
            all == text::pairs(list@),
            forall|k: int| 0 <= k < i ==> #[trigger] all[k] != (label@, name@),
        decreases list.len() - i,
    {
        if text::same(list[i].0.as_str(), label) && text::same(list[i].1.as_str(), name) {
            proof {
                assert(all[i as int] == (label@, name@));
            }
            return true;
        }
        i = i + 1;
    }
    false
}

/// Drops tombstones; the others keep their order.
pub fn drop_tombstones(graves: Vec<Grave>, dropped: &Vec<(String, String)>) -> (r: Vec<Grave>)
    ensures
        r@ == staying(graves@, text::pairs(dropped@)),
{
    let ghost all = graves@;
    let ghost gone = text::pairs(dropped@);
    let mut kept: Vec<Grave> = graves;
    let mut i: usize = kept.len();
    proof {
        assert(all.take(all.len() as int) =~= all);
        assert(all.skip(all.len() as int) =~= Seq::<Grave>::empty());
        assert(staying(Seq::<Grave>::empty(), gone) =~= Seq::<Grave>::empty());
    }
    let ghost mut tail = Seq::<Grave>::empty();
    proof {
        assert(kept@ =~= all.take(i as int) + tail);
        assert(staying(all, gone) =~= staying(all.take(i as int), gone) + tail);
    }
    while i > 0
        invariant
            i <= all.len(),
            gone == text::pairs(dropped@),
            kept@ == all.take(i as int) + tail,
            staying(all, gone) == staying(all.take(i as int), gone) + tail,
        decreases i,
    {
        let ghost last = all[i - 1];
        proof {
            assert(kept@[i - 1] == last);
            assert(all.take(i as int).drop_last() =~= all.take(i - 1));
            assert(all.take(i as int).last() == last);
        }
        if has_pair(dropped, kept[i - 1].label.as_str(), kept[i - 1].name.as_str()) {
            let _ = kept.remove(i - 1);
            proof {
                assert(kept@ =~= all.take(i - 1) + tail);
            }
        } else {
            proof {
                let more = seq![last] + tail;
                assert(kept@ =~= all.take(i - 1) + more);
                assert(staying(all.take(i - 1), gone).push(last) + tail =~= staying(
                    all.take(i - 1),
                    gone,
                ) + more);
                tail = more;
            }
        }
        i = i - 1;
    }
    proof {
        assert(all.take(0) =~= Seq::<Grave>::empty());
        assert(kept@ =~= tail);
        assert(staying(all.take(0), gone) + tail =~= tail);
    }
    kept
}

/// A tombstone that was not dropped stays.
pub proof fn other_tombstones_stay(
    graves: Seq<Grave>,
    dropped: Seq<(Seq<char>, Seq<char>)>,
    i: int,
)
    requires
        0 <= i < graves.len(),
        !dropped.contains((graves[i].label@, graves[i].name@)),
    ensures
        staying(graves, dropped).contains(graves[i]),
    decreases graves.len(),
{
    let rest = graves.drop_last();
    let some = staying(rest, dropped);
    let all = staying(graves, dropped);
    if i == graves.len() - 1 {
        assert(all[all.len() - 1] == graves[i]);
    } else {
        other_tombstones_stay(rest, dropped, i);
        let k = choose|k: int| 0 <= k < some.len() && some[k] == rest[i];
        assert(all[k] == graves[i]);
    }
}

/// A tombstone stays exactly where its label and name are not among those that are dropped.
pub proof fn dropped_tombstones_go(graves: Seq<Grave>, dropped: Seq<(Seq<char>, Seq<char>)>, y: Grave)
    ensures
        staying(graves, dropped).contains(y) <==> (exists|i: int|
            0 <= i < graves.len() && !dropped.contains(((#[trigger] graves[i]).label@, graves[i].name@)) && y == graves[i]),
    decreases graves.len(),
{
    let all = staying(graves, dropped);
    if graves.len() > 0 {
        let rest = graves.drop_last();
        let some = staying(rest, dropped);
        dropped_tombstones_go(rest, dropped, y);
        if all.contains(y) {
            let k = choose|k: int| 0 <= k < all.len() && all[k] == y;
            if k < some.len() {
                assert(some[k] == y);
                let i = choose|i: int| 0 <= i < rest.len() && !dropped.contains(((#[trigger] rest[i]).label@, rest[i].name@)) && y == rest[i];
                assert(graves[i] == rest[i]);
            } else {
                assert(!dropped.contains((graves[rest.len() as int].label@, graves[rest.len() as int].name@)) && y == graves[rest.len() as int]);
            }
        }
        if exists|i: int| 0 <= i < graves.len() && !dropped.contains(((#[trigger] graves[i]).label@, graves[i].name@)) && y == graves[i] {
            let i = choose|i: int| 0 <= i < graves.len() && !dropped.contains(((#[trigger] graves[i]).label@, graves[i].name@)) && y == graves[i];
            if i < rest.len() {
                assert(rest[i] == graves[i]);
                let k = choose|k: int| 0 <= k < some.len() && some[k] == y;
                assert(all[k] == y);
            } else {
                assert(all[all.len() - 1] == y);
            }
        }
    }
}

// ---------------------------------------------------------------------------
// What belongs to no tree
// ---------------------------------------------------------------------------

/// A file of a label's directory: its path, and what names it.
#[derive(Debug)]
pub struct OwnedFile {
    pub path: String,
    pub name: Option<String>,
}

/// A label's directory.
#[derive(Debug)]
pub struct LabelDir {
    pub path: String,
    pub name: Option<String>,
    pub is_dir: bool,
    pub files: Vec<OwnedFile>,
}

/// The files that no owner claims.
pub open spec fn unclaimed(
    files: Seq<OwnedFile>,
    label: Seq<char>,
    claims: Seq<(Seq<char>, Seq<char>)>,
    spare: Option<Seq<char>>,
) -> Seq<Seq<char>>
    decreases files.len(),
{
    if files.len() == 0 {
        Seq::<Seq<char>>::empty()
    } else {
        let rest = unclaimed(files.drop_last(), label, claims, spare);
        match text::opt(files.last().name) {
            Some(name) => if Some(name) == spare || claims.contains((label, name)) {
                rest
            } else {
                rest.push(files.last().path@)
            },
            None => rest,
        }
    }
}

/// The state files of no tree: those of a label's directory whose name is that of
/// no registered tree, but for the repository's own.
pub open spec fn state_orphans_of(
    dirs: Seq<LabelDir>,
    filter: Option<Seq<char>>,
    trees: Seq<(Seq<char>, Seq<char>)>,
) -> Seq<Seq<char>>
    decreases dirs.len(),
{
    if dirs.len() == 0 {
        Seq::<Seq<char>>::empty()
    } else {
        let rest = state_orphans_of(dirs.drop_last(), filter, trees);
        let d = dirs.last();
        match text::opt(d.name) {
            Some(label) => if label == "_machine.json"@ || !d.is_dir || !matches_label(
                filter,
                label,
            ) {
                rest
            } else {
                rest + unclaimed(d.files@, label, trees, Some("_repo"@))
            },
            None => rest,
        }
    }
}

/// The caches of no tree: the directory of a label that is not registered, and the
/// entries below a registered one that no tree or tombstone claims.
pub open spec fn cache_orphans_of(
    dirs: Seq<LabelDir>,
    filter: Option<Seq<char>>,
    labels: Seq<Seq<char>>,
    claims: Seq<(Seq<char>, Seq<char>)>,
) -> Seq<Seq<char>>
    decreases dirs.len(),
{
    if dirs.len() == 0 {
        Seq::<Seq<char>>::empty()
    } else {
        let rest = cache_orphans_of(dirs.drop_last(), filter, labels, claims);
        let d = dirs.last();
        match text::opt(d.name) {
            Some(label) => if !matches_label(filter, label) {
                rest
            } else if !labels.contains(label) {
                rest.push(d.path@)
            } else if !d.is_dir {
                rest
            } else {
                rest + unclaimed(d.files@, label, claims, None)
            },
            None => rest,
        }
    }
}

fn push_unclaimed(
    out: &mut Vec<Listed>,
    files: &Vec<OwnedFile>,
    label: &str,
    claims: &Vec<(String, String)>,
    spare: &Option<String>,
)
    ensures
        listed_paths(final(out)@) == listed_paths(old(out)@) + unclaimed(
            files@,
            label@,
            text::pairs(claims@),
            text::opt(*spare),
        ),
{
    let ghost start = listed_paths(out@);
    let ghost known = text::pairs(claims@);
    let ghost s = text::opt(*spare);
    let mut i: usize = 0;
    proof {
        assert(start + unclaimed(files@.take(0), label@, known, s) =~= start);
    }
    while i < files.len()
        invariant
            i <= files.len(),
            known == text::pairs(claims@),
            s == text::opt(*spare),
            listed_paths(out@) == start + unclaimed(files@.take(i as int), label@, known, s),
        decreases files.len() - i,
    {
        let ghost prior = listed_paths(out@);
        let ghost so_far = unclaimed(files@.take(i as int), label@, known, s);
        proof {
            assert(files@.take(i + 1).drop_last() =~= files@.take(i as int));
        }
        if let Some(name) = &files[i].name {
            let spared = match spare {
                Some(other) => text::same(other.as_str(), name.as_str()),
                None => false,
            };
            if !spared && !has_pair(claims, label, name.as_str()) {
                out.push(Listed { path: files[i].path.clone() });
                proof {
                    let p = files@[i as int].path@;
                    assert(listed_paths(out@) =~= prior.push(p));
                    assert((start + so_far).push(p) =~= start + so_far.push(p));
                }
            }
        }
        i = i + 1;
    }
    proof {
        assert(files@.take(files@.len() as int) =~= files@);
    }
}

/// The paths of a list.
pub open spec fn listed_paths(list: Seq<Listed>) -> Seq<Seq<char>> {
    list.map_values(|l: Listed| l.path@)
}

/// Whether a list holds some paths, in the order of paths.
pub open spec fn sorts(list: Seq<Listed>, paths: Seq<Seq<char>>) -> bool {
    exists|given: Seq<Listed>|
        #![trigger order::sorted(given)]
        listed_paths(given) == paths && list == order::sorted(given)
}

/// Finds the state files of no tree, of what the directories hold.
pub fn state_orphans(dirs: &Vec<LabelDir>, filter: &Option<String>, trees: &Vec<(String, String)>) -> (r:
    Vec<Listed>)
    ensures
        sorts(r@, state_orphans_of(dirs@, text::opt(*filter), text::pairs(trees@))),
{
    let mut out: Vec<Listed> = Vec::new();
    let spare: Option<String> = Some("_repo".to_owned());
    let ghost f = text::opt(*filter);
    let ghost known = text::pairs(trees@);
    let mut i: usize = 0;
    proof {
        assert(listed_paths(out@) =~= Seq::<Seq<char>>::empty());
    }
    while i < dirs.len()
        invariant
            i <= dirs.len(),
            f == text::opt(*filter),
            known == text::pairs(trees@),
            text::opt(spare) == Some("_repo"@),
            listed_paths(out@) == state_orphans_of(dirs@.take(i as int), f, known),
        decreases dirs.len() - i,
    {
        proof {
            assert(dirs@.take(i + 1).drop_last() =~= dirs@.take(i as int));
        }
        let d = &dirs[i];
        if let Some(label) = &d.name {
            if !text::same(label.as_str(), "_machine.json") && d.is_dir && label_matches(
                filter,
                label.as_str(),
            ) {
                push_unclaimed(&mut out, &d.files, label.as_str(), trees, &spare);
            }
        }
        i = i + 1;
    }
    proof {
        assert(dirs@.take(dirs@.len() as int) =~= dirs@);
    }
    order::sort(out)
}

/// Finds the caches of no tree, of what the directories hold. `claims` names the
/// caches of the trees and tombstones.
pub fn cache_orphans(
    dirs: &Vec<LabelDir>,
    filter: &Option<String>,
    labels: &Vec<String>,
    claims: &Vec<(String, String)>,
) -> (r: Vec<Listed>)
    ensures
        sorts(
            r@,
            cache_orphans_of(
                dirs@,
                text::opt(*filter),
                text::texts(labels@),
                text::pairs(claims@),
            ),
        ),
{
    let mut out: Vec<Listed> = Vec::new();
    let spare: Option<String> = None;
    let ghost f = text::opt(*filter);
    let ghost ls = text::texts(labels@);
    let ghost known = text::pairs(claims@);
    let mut i: usize = 0;
    proof {
        assert(listed_paths(out@) =~= Seq::<Seq<char>>::empty());
    }
    while i < dirs.len()
        invariant
            i <= dirs.len(),
            f == text::opt(*filter),
            ls == text::texts(labels@),
            known == text::pairs(claims@),
            spare is None,
            listed_paths(out@) == cache_orphans_of(dirs@.take(i as int), f, ls, known),
        decreases dirs.len() - i,
    {
        let ghost prior = listed_paths(out@);
        proof {
            assert(dirs@.take(i + 1).drop_last() =~= dirs@.take(i as int));
        }
        let d = &dirs[i];
        if let Some(label) = &d.name {
            if label_matches(filter, label.as_str()) {
                if !text::listed(labels, label.as_str()) {
                    out.push(Listed { path: d.path.clone() });
                    proof {
                        assert(listed_paths(out@) =~= prior.push(d.path@));
                    }
                } else if d.is_dir {
                    push_unclaimed(&mut out, &d.files, label.as_str(), claims, &spare);
                }
            }
        }
        i = i + 1;
    }
    proof {
        assert(dirs@.take(dirs@.len() as int) =~= dirs@);
    }
    order::sort(out)
}

/// What a cache of no tree is called: its path below the directory of all caches.
pub fn cache_subject(p: &str, cache_root: &str) -> (r: String)
    ensures
        r@ == match path::below(p@, cache_root@) {
            Some(rest) => rest,
            None => p@,
        },
{
    match path::strip_base(p, cache_root) {
        Some(rest) => rest,
        None => p.to_owned(),
    }
}

/// What a state file of no tree is called: the label of its directory, and its own name.
pub fn state_subject(label: &str, name: &str) -> (r: String)
    ensures
        r@ == label@ + "/"@ + name@,
{
    label.to_owned().concat("/").concat(name)
}

proof fn lemma_unclaimed_spares(
    files: Seq<OwnedFile>,
    label: Seq<char>,
    claims: Seq<(Seq<char>, Seq<char>)>,
    spare: Option<Seq<char>>,
    p: Seq<char>,
)
    requires
        unclaimed(files, label, claims, spare).contains(p),
    ensures
        exists|i: int|
            0 <= i < files.len() && (#[trigger] files[i]).path@ == p && (text::opt(files[i].name)
                matches Some(name) && !claims.contains((label, name))),
    decreases files.len(),
{
    let all = unclaimed(files, label, claims, spare);
    let k = choose|k: int| 0 <= k < all.len() && all[k] == p;
    let rest = files.drop_last();
    let some = unclaimed(rest, label, claims, spare);
    if k < some.len() {
        assert(some[k] == p);
        assert(some.contains(p));
        lemma_unclaimed_spares(rest, label, claims, spare, p);
        let i = choose|i: int|
            0 <= i < rest.len() && (#[trigger] rest[i]).path@ == p && (text::opt(rest[i].name)
                matches Some(name) && !claims.contains((label, name)));
        assert(files[i] == rest[i]);
    } else {
        assert(files[files.len() - 1].path@ == p);
    }
}

/// The cache of a tree or a tombstone is never an orphan: what is unclaimed bears
/// no name that one of them claims.
pub proof fn claimed_files_are_spared(
    files: Seq<OwnedFile>,
    label: Seq<char>,
    claims: Seq<(Seq<char>, Seq<char>)>,
    spare: Option<Seq<char>>,
    i: int,
)
    requires
        0 <= i < files.len(),
        text::opt(files[i].name) matches Some(name) && claims.contains((label, name)),
        forall|a: int, b: int|
            0 <= a < files.len() && 0 <= b < files.len() && (#[trigger] files[a]).path@ == (
            #[trigger] files[b]).path@ ==> text::opt(files[a].name) == text::opt(files[b].name),
    ensures
        !unclaimed(files, label, claims, spare).contains(files[i].path@),
{
    if unclaimed(files, label, claims, spare).contains(files[i].path@) {
        lemma_unclaimed_spares(files, label, claims, spare, files[i].path@);
        let k = choose|k: int|
            0 <= k < files.len() && (#[trigger] files[k]).path@ == files[i].path@ && (text::opt(
                files[k].name,
            ) matches Some(name) && !claims.contains((label, name)));
        assert(files[k].path@ == files[i].path@);
    }
}

/// A file is unclaimed exactly where it has a name that is neither spared nor claimed.
pub proof fn what_nobody_claims_is_found(files: Seq<OwnedFile>, label: Seq<char>, claims: Seq<(Seq<char>, Seq<char>)>, spare: Option<Seq<char>>, y: Seq<char>)
    ensures
        unclaimed(files, label, claims, spare).contains(y) <==> (exists|i: int|
            0 <= i < files.len() && (#[trigger] files[i]).name is Some && spare != Some(files[i].name->0@) && !claims.contains((label, files[i].name->0@)) && y == files[i].path@),
    decreases files.len(),
{
    let all = unclaimed(files, label, claims, spare);
    if files.len() > 0 {
        let rest = files.drop_last();
        let some = unclaimed(rest, label, claims, spare);
        what_nobody_claims_is_found(rest, label, claims, spare, y);
        if all.contains(y) {
            let k = choose|k: int| 0 <= k < all.len() && all[k] == y;
            if k < some.len() {
                assert(some[k] == y);
                let i = choose|i: int| 0 <= i < rest.len() && (#[trigger] rest[i]).name is Some && spare != Some(rest[i].name->0@) && !claims.contains((label, rest[i].name->0@)) && y == rest[i].path@;
                assert(files[i] == rest[i]);
            } else {
                assert(files[rest.len() as int].name is Some && spare != Some(files[rest.len() as int].name->0@) && !claims.contains((label, files[rest.len() as int].name->0@)) && y == files[rest.len() as int].path@);
            }
        }
        if exists|i: int| 0 <= i < files.len() && (#[trigger] files[i]).name is Some && spare != Some(files[i].name->0@) && !claims.contains((label, files[i].name->0@)) && y == files[i].path@ {
            let i = choose|i: int| 0 <= i < files.len() && (#[trigger] files[i]).name is Some && spare != Some(files[i].name->0@) && !claims.contains((label, files[i].name->0@)) && y == files[i].path@;
            if i < rest.len() {
                assert(rest[i] == files[i]);
                let k = choose|k: int| 0 <= k < some.len() && some[k] == y;
                assert(all[k] == y);
            } else {
                assert(all[all.len() - 1] == y);
            }
        }
    }
}

/// A state file is an orphan exactly where it lies in the directory of a label that is
/// looked at, and its name is neither that of a registered tree nor the repository's own.
pub proof fn state_of_no_tree_is_found(dirs: Seq<LabelDir>, filter: Option<Seq<char>>, trees: Seq<(Seq<char>, Seq<char>)>, y: Seq<char>)
    ensures
        state_orphans_of(dirs, filter, trees).contains(y) <==> (exists|i: int|
            0 <= i < dirs.len() && (#[trigger] dirs[i]).name is Some && dirs[i].name->0@ != "_machine.json"@ && dirs[i].is_dir && (filter is None || filter == Some(dirs[i].name->0@)) && unclaimed(dirs[i].files@, dirs[i].name->0@, trees, Some("_repo"@)).contains(y)),
    decreases dirs.len(),
{
    let all = state_orphans_of(dirs, filter, trees);
    if dirs.len() > 0 {
        let rest = dirs.drop_last();
        let some = state_orphans_of(rest, filter, trees);
        state_of_no_tree_is_found(rest, filter, trees, y);
        let last = unclaimed(dirs.last().files@, dirs.last().name->0@, trees, Some("_repo"@));
        if all.contains(y) {
            let k = choose|k: int| 0 <= k < all.len() && all[k] == y;
            if k < some.len() {
                assert(some[k] == y);
                let i = choose|i: int| 0 <= i < rest.len() && (#[trigger] rest[i]).name is Some && rest[i].name->0@ != "_machine.json"@ && rest[i].is_dir && (filter is None || filter == Some(rest[i].name->0@)) && unclaimed(rest[i].files@, rest[i].name->0@, trees, Some("_repo"@)).contains(y);
                assert(dirs[i] == rest[i]);
            } else {
                assert(last[k - some.len()] == y);
                assert(dirs[rest.len() as int].name is Some && dirs[rest.len() as int].name->0@ != "_machine.json"@ && dirs[rest.len() as int].is_dir && (filter is None || filter == Some(dirs[rest.len() as int].name->0@)) && unclaimed(dirs[rest.len() as int].files@, dirs[rest.len() as int].name->0@, trees, Some("_repo"@)).contains(y));
            }
        }
        if exists|i: int| 0 <= i < dirs.len() && (#[trigger] dirs[i]).name is Some && dirs[i].name->0@ != "_machine.json"@ && dirs[i].is_dir && (filter is None || filter == Some(dirs[i].name->0@)) && unclaimed(dirs[i].files@, dirs[i].name->0@, trees, Some("_repo"@)).contains(y) {
            let i = choose|i: int| 0 <= i < dirs.len() && (#[trigger] dirs[i]).name is Some && dirs[i].name->0@ != "_machine.json"@ && dirs[i].is_dir && (filter is None || filter == Some(dirs[i].name->0@)) && unclaimed(dirs[i].files@, dirs[i].name->0@, trees, Some("_repo"@)).contains(y);
            if i < rest.len() {
                assert(rest[i] == dirs[i]);
                let k = choose|k: int| 0 <= k < some.len() && some[k] == y;
                assert(all[k] == y);
            } else {
                let k = choose|k: int| 0 <= k < last.len() && last[k] == y;
                assert(all[some.len() + k] == y);
            }
        }
    }
}

/// A cache is an orphan exactly where its label is looked at and is not registered, or
/// where it lies in the directory of one that is and no tree or tombstone claims it.
pub proof fn caches_of_no_tree_are_found(dirs: Seq<LabelDir>, filter: Option<Seq<char>>, labels: Seq<Seq<char>>, claims: Seq<(Seq<char>, Seq<char>)>, y: Seq<char>)
    ensures
        cache_orphans_of(dirs, filter, labels, claims).contains(y) <==> (exists|i: int|
            0 <= i < dirs.len() && (#[trigger] dirs[i]).name is Some && (filter is None || filter == Some(dirs[i].name->0@)) && (if labels.contains(dirs[i].name->0@) { dirs[i].is_dir && unclaimed(dirs[i].files@, dirs[i].name->0@, claims, None).contains(y) } else { y == dirs[i].path@ })),
    decreases dirs.len(),
{
    let all = cache_orphans_of(dirs, filter, labels, claims);
    if dirs.len() > 0 {
        let rest = dirs.drop_last();
        let some = cache_orphans_of(rest, filter, labels, claims);
        caches_of_no_tree_are_found(rest, filter, labels, claims, y);
        let last = unclaimed(dirs.last().files@, dirs.last().name->0@, claims, None);
        if all.contains(y) {
            let k = choose|k: int| 0 <= k < all.len() && all[k] == y;
            if k < some.len() {
                assert(some[k] == y);
                let i = choose|i: int| 0 <= i < rest.len() && (#[trigger] rest[i]).name is Some && (filter is None || filter == Some(rest[i].name->0@)) && (if labels.contains(rest[i].name->0@) { rest[i].is_dir && unclaimed(rest[i].files@, rest[i].name->0@, claims, None).contains(y) } else { y == rest[i].path@ });
                assert(dirs[i] == rest[i]);
            } else {
                if labels.contains(dirs.last().name->0@) {
                    assert(last[k - some.len()] == y);
                }
                assert(dirs[rest.len() as int].name is Some && (filter is None || filter == Some(dirs[rest.len() as int].name->0@)) && (if labels.contains(dirs[rest.len() as int].name->0@) { dirs[rest.len() as int].is_dir && unclaimed(dirs[rest.len() as int].files@, dirs[rest.len() as int].name->0@, claims, None).contains(y) } else { y == dirs[rest.len() as int].path@ }));
            }
        }
        if exists|i: int| 0 <= i < dirs.len() && (#[trigger] dirs[i]).name is Some && (filter is None || filter == Some(dirs[i].name->0@)) && (if labels.contains(dirs[i].name->0@) { dirs[i].is_dir && unclaimed(dirs[i].files@, dirs[i].name->0@, claims, None).contains(y) } else { y == dirs[i].path@ }) {
            let i = choose|i: int| 0 <= i < dirs.len() && (#[trigger] dirs[i]).name is Some && (filter is None || filter == Some(dirs[i].name->0@)) && (if labels.contains(dirs[i].name->0@) { dirs[i].is_dir && unclaimed(dirs[i].files@, dirs[i].name->0@, claims, None).contains(y) } else { y == dirs[i].path@ });
            if i < rest.len() {
                assert(rest[i] == dirs[i]);
                let k = choose|k: int| 0 <= k < some.len() && some[k] == y;
                assert(all[k] == y);
            } else {
                if labels.contains(dirs.last().name->0@) {
                    let k = choose|k: int| 0 <= k < last.len() && last[k] == y;
                    assert(all[some.len() + k] == y);
                } else {
                    assert(all[all.len() - 1] == y);
                }
            }
        }
    }
}

/// A store of exclusive holders: its name, and its keys with whether each one's
/// holder is alive.
#[derive(Debug)]
pub struct HolderStore {
    pub store: String,
    pub keys: Vec<(String, bool)>,
}

/// A holder that is gone.
#[derive(Debug)]
pub struct StaleHolder {
    pub target: String,
    pub store: usize,
    pub key: String,
}

/// What is known of a holder that is gone.
#[verifier::ext_equal]
pub struct Stale {
    pub target: Seq<char>,
    pub store: int,
    pub key: Seq<char>,
}

impl View for StaleHolder {
    type V = Stale;

    open spec fn view(&self) -> Stale {
        Stale { target: self.target@, store: self.store as int, key: self.key@ }
    }
}

impl Keyed for StaleHolder {
    open spec fn key(&self) -> Seq<Seq<int>> {
        seq![order::ranks(self.target@)]
    }

    fn sort_key(&self) -> (r: Vec<Vec<u64>>) {
        let mut key: Vec<Vec<u64>> = Vec::new();
        key.push(order::text_part(self.target.as_str()));
        proof {
            assert(order::key_view(key@) =~= seq![order::ranks(self.target@)]);
        }
        key
    }
}

/// What is known of holders that are gone.
pub open spec fn stale_views(list: Seq<StaleHolder>) -> Seq<Stale> {
    list.map_values(|s: StaleHolder| s@)
}

/// The keys of a store whose holder is gone.
pub open spec fn stale_keys(store: Seq<char>, place: int, keys: Seq<(String, bool)>) -> Seq<Stale>
    decreases keys.len(),
{
    if keys.len() == 0 {
        Seq::<Stale>::empty()
    } else {
        let rest = stale_keys(store, place, keys.drop_last());
        if keys.last().1 {
            rest
        } else {
            rest.push(
                Stale {
                    target: store + ":exclusive."@ + keys.last().0@,
                    store: place,
                    key: keys.last().0@,
                },
            )
        }
    }
}

/// The holders of stores that are gone.
pub open spec fn stale_of(stores: Seq<HolderStore>) -> Seq<Stale>
    decreases stores.len(),
{
    if stores.len() == 0 {
        Seq::<Stale>::empty()
    } else {
        stale_of(stores.drop_last()) + stale_keys(
            stores.last().store@,
            stores.len() - 1,
            stores.last().keys@,
        )
    }
}

/// A key of a store is found exactly where its holder is gone.
pub proof fn every_holder_that_is_gone_is_found(store: Seq<char>, place: int, keys: Seq<(String, bool)>, y: Stale)
    ensures
        stale_keys(store, place, keys).contains(y) <==> (exists|i: int|
            0 <= i < keys.len() && !(#[trigger] keys[i]).1 && y == (Stale { target: store + ":exclusive."@ + keys[i].0@, store: place, key: keys[i].0@ })),
    decreases keys.len(),
{
    let all = stale_keys(store, place, keys);
    if keys.len() > 0 {
        let rest = keys.drop_last();
        let some = stale_keys(store, place, rest);
        every_holder_that_is_gone_is_found(store, place, rest, y);
        if all.contains(y) {
            let k = choose|k: int| 0 <= k < all.len() && all[k] == y;
            if k < some.len() {
                assert(some[k] == y);
                let i = choose|i: int| 0 <= i < rest.len() && !(#[trigger] rest[i]).1 && y == (Stale { target: store + ":exclusive."@ + rest[i].0@, store: place, key: rest[i].0@ });
                assert(keys[i] == rest[i]);
            } else {
                assert(!keys[rest.len() as int].1 && y == (Stale { target: store + ":exclusive."@ + keys[rest.len() as int].0@, store: place, key: keys[rest.len() as int].0@ }));
            }
        }
        if exists|i: int| 0 <= i < keys.len() && !(#[trigger] keys[i]).1 && y == (Stale { target: store + ":exclusive."@ + keys[i].0@, store: place, key: keys[i].0@ }) {
            let i = choose|i: int| 0 <= i < keys.len() && !(#[trigger] keys[i]).1 && y == (Stale { target: store + ":exclusive."@ + keys[i].0@, store: place, key: keys[i].0@ });
            if i < rest.len() {
                assert(rest[i] == keys[i]);
                let k = choose|k: int| 0 <= k < some.len() && some[k] == y;
                assert(all[k] == y);
            } else {
                assert(all[all.len() - 1] == y);
            }
        }
    }
}

/// What is found of stores is what is found of each of them.
pub proof fn holders_of_every_store_are_found(stores: Seq<HolderStore>, y: Stale)
    ensures
        stale_of(stores).contains(y) <==> (exists|i: int|
            0 <= i < stores.len() && stale_keys((#[trigger] stores[i]).store@, i, stores[i].keys@).contains(y)),
    decreases stores.len(),
{
    let all = stale_of(stores);
    if stores.len() > 0 {
        let rest = stores.drop_last();
        let some = stale_of(rest);
        holders_of_every_store_are_found(rest, y);
        let last = stale_keys(stores.last().store@, stores.len() - 1, stores.last().keys@);
        if all.contains(y) {
            let k = choose|k: int| 0 <= k < all.len() && all[k] == y;
            if k < some.len() {
                assert(some[k] == y);
                let i = choose|i: int| 0 <= i < rest.len() && stale_keys((#[trigger] rest[i]).store@, i, rest[i].keys@).contains(y);
                assert(stores[i] == rest[i]);
            } else {
                let i = rest.len() as int;
                assert(last[k - some.len()] == y);
                assert(stale_keys(stores[i].store@, i, stores[i].keys@).contains(y));
            }
        }
        if exists|i: int| 0 <= i < stores.len() && stale_keys((#[trigger] stores[i]).store@, i, stores[i].keys@).contains(y) {
            let i = choose|i: int| 0 <= i < stores.len() && stale_keys((#[trigger] stores[i]).store@, i, stores[i].keys@).contains(y);
            if i < rest.len() {
                assert(rest[i] == stores[i]);
                let k = choose|k: int| 0 <= k < some.len() && some[k] == y;
                assert(all[k] == y);
            } else {
                let k = choose|k: int| 0 <= k < last.len() && last[k] == y;
                assert(all[some.len() + k] == y);
            }
        }
    }
}

/// Finds the exclusive holders that are gone, in the order of their targets.
pub fn stale_exclusive_entries(stores: &Vec<HolderStore>) -> (r: Vec<StaleHolder>)
    ensures
        exists|given: Seq<StaleHolder>|
            #![trigger order::sorted(given)]
            stale_views(given) == stale_of(stores@) && r@ == order::sorted(given),
{
    let mut out: Vec<StaleHolder> = Vec::new();
    let mut i: usize = 0;
    proof {
        assert(stale_views(out@) =~= Seq::<Stale>::empty());
    }
    while i < stores.len()
        invariant
            i <= stores.len(),
            stale_views(out@) == stale_of(stores@.take(i as int)),
        decreases stores.len() - i,
    {
        let ghost start = stale_views(out@);
        let s = &stores[i];
        let mut k: usize = 0;
        proof {
            assert(start + stale_keys(s.store@, i as int, s.keys@.take(0)) =~= start);
        }
        while k < s.keys.len()
            invariant
                k <= s.keys.len(),
                stale_views(out@) == start + stale_keys(
                    s.store@,
                    i as int,
                    s.keys@.take(k as int),
                ),
            decreases s.keys.len() - k,
        {
            let ghost prior = stale_views(out@);
            let ghost so_far = stale_keys(s.store@, i as int, s.keys@.take(k as int));
            proof {
                assert(s.keys@.take(k + 1).drop_last() =~= s.keys@.take(k as int));
            }
            if !s.keys[k].1 {
                let target = s.store.clone().concat(":exclusive.").concat(s.keys[k].0.as_str());
                let one = StaleHolder { target, store: i, key: s.keys[k].0.clone() };
                let ghost o = one@;
                out.push(one);
                proof {
                    assert(stale_views(out@) =~= prior.push(o));
                    assert((start + so_far).push(o) =~= start + so_far.push(o));
                }
            }
            k = k + 1;
        }
        proof {
            assert(s.keys@.take(s.keys@.len() as int) =~= s.keys@);
            assert(stores@.take(i + 1).drop_last() =~= stores@.take(i as int));
        }
        i = i + 1;
    }
    proof {
        assert(stores@.take(stores@.len() as int) =~= stores@);
    }
    order::sort(out)
}

/// Whether the target that a holder names is a registered tree; `None` stands for
/// a holder that names none.
pub fn arena_holder_is_live(holder: &Option<(String, String)>, trees: &Vec<(String, String)>) -> (r:
    bool)
    ensures
        r == match *holder {
            Some(t) => text::pairs(trees@).contains((t.0@, t.1@)),
            None => false,
        },
{
    match holder {
        Some(t) => has_pair(trees, t.0.as_str(), t.1.as_str()),
        None => false,
    }
}

/// Whether a holder is collected, of what its key holds now: only one that is still
/// there and gone.
pub fn collects_holder(alive: Option<bool>) -> (r: bool)
    ensures
        r == (alive == Some(false)),
{
    match alive {
        Some(live) => !live,
        None => false,
    }
}

} // verus!
