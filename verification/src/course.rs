//! What holds of a machine after any row of events, of what holds of each of its steps.

use vstd::prelude::*;

verus! {

/// A machine after a row of events.
pub open spec fn after<S, E>(next: spec_fn(S, E) -> S, s: S, events: Seq<E>) -> S
    decreases events.len(),
{
    if events.len() == 0 {
        s
    } else {
        next(after(next, s, events.drop_last()), events.last())
    }
}

/// What a machine was answered with when it last left a step, where it took it.
pub open spec fn answered<S, E, K>(
    next: spec_fn(S, E) -> S,
    at: spec_fn(S) -> K,
    s: S,
    events: Seq<E>,
    k: K,
) -> Option<E>
    decreases events.len(),
{
    if events.len() == 0 {
        None
    } else {
        let before = after(next, s, events.drop_last());
        if at(before) == k && at(next(before, events.last())) != k {
            Some(events.last())
        } else {
            answered(next, at, s, events.drop_last(), k)
        }
    }
}

/// What every event keeps holds after any row of events.
pub proof fn lemma_kept<S, E>(
    next: spec_fn(S, E) -> S,
    inv: spec_fn(S) -> bool,
    s: S,
    events: Seq<E>,
)
    requires
        inv(s),
        forall|a: S, e: E| inv(a) ==> inv(#[trigger] next(a, e)),
    ensures
        inv(after(next, s, events)),
    decreases events.len(),
{
    if events.len() > 0 {
        lemma_kept(next, inv, s, events.drop_last());
    }
}

/// Where a machine goes on from step to step in one order, a step is taken exactly where
/// it is called for, if no event passes one over that is called for or comes to one that
/// is not. A machine that is dead stays so.
pub proof fn lemma_taken<S, E, K>(
    next: spec_fn(S, E) -> S,
    at: spec_fn(S) -> K,
    place: spec_fn(K) -> int,
    dead: spec_fn(S) -> bool,
    inv: spec_fn(S) -> bool,
    called: spec_fn(S, K) -> bool,
    s: S,
    events: Seq<E>,
    k: K,
)
    requires
        inv(s),
        called(s, at(s)),
        place(at(s)) <= place(k),
        at(s) != k ==> place(at(s)) < place(k),
        forall|a: S| place(#[trigger] at(a)) == place(k) ==> at(a) == k,
        forall|a: S, e: E| dead(a) ==> dead(#[trigger] next(a, e)),
        forall|a: S, e: E|
            inv(a) && !dead(a) && called(a, at(a)) && !dead(#[trigger] next(a, e)) ==> {
                let b = next(a, e);
                &&& inv(b)
                &&& at(b) == at(a) ==> b == a
                &&& at(b) != at(a) ==> {
                    &&& place(at(b)) > place(at(a))
                    &&& called(b, at(b))
                    &&& place(k) <= place(at(a)) ==> called(b, k) == called(a, k)
                    &&& place(at(a)) < place(k) < place(at(b)) ==> !called(b, k)
                }
            },
    ensures
        ({
            let a = after(next, s, events);
            !dead(a) ==> {
                &&& inv(a)
                &&& called(a, at(a))
                &&& place(at(a)) > place(k) ==> (answered(next, at, s, events, k) is Some
                    <==> called(a, k))
                &&& place(at(a)) <= place(k) ==> answered(next, at, s, events, k) is None
            }
        }),
    decreases events.len(),
{
    if events.len() > 0 {
        lemma_taken(next, at, place, dead, inv, called, s, events.drop_last(), k);
        let a = after(next, s, events.drop_last());
        assert(place(at(a)) == place(k) ==> at(a) == k);
    }
}

/// What a machine was answered with at a step stays true of it, where the event that
/// leaves the step makes it true and no later one undoes it.
pub proof fn lemma_told<S, E, K>(
    next: spec_fn(S, E) -> S,
    at: spec_fn(S) -> K,
    dead: spec_fn(S) -> bool,
    inv: spec_fn(S) -> bool,
    past: spec_fn(S) -> bool,
    fact: spec_fn(S, E) -> bool,
    s: S,
    events: Seq<E>,
    k: K,
)
    requires
        inv(s),
        forall|a: S, e: E| dead(a) ==> dead(#[trigger] next(a, e)),
        forall|a: S, e: E| inv(a) && !dead(a) && !dead(#[trigger] next(a, e)) ==> inv(next(a, e)),
        forall|a: S, e: E|
            inv(a) && !dead(a) && !dead(#[trigger] next(a, e)) && at(a) == k && at(next(a, e)) != k
                ==> past(next(a, e)) && fact(next(a, e), e),
        forall|a: S, e: E, e0: E|
            #![trigger next(a, e), fact(a, e0)]
            inv(a) && !dead(a) && !dead(next(a, e)) && past(a) && fact(a, e0) ==> past(next(a, e))
                && fact(next(a, e), e0) && at(a) != k,
    ensures
        ({
            let a = after(next, s, events);
            !dead(a) ==> inv(a) && (answered(next, at, s, events, k) matches Some(e) ==> past(a)
                && fact(a, e))
        }),
    decreases events.len(),
{
    if events.len() > 0 {
        lemma_told(next, at, dead, inv, past, fact, s, events.drop_last(), k);
    }
}

} // verus!
