//! A map from strings, kept in the order of its keys.

use vstd::prelude::*;
use vstd::string::*;

use crate::order;
use crate::text;

verus! {

broadcast use vstd::string::group_string_axioms;

/// Entries with distinct keys, in the order of the keys.
#[derive(Debug)]
pub struct Assoc<V> {
    pub entries: Vec<(String, V)>,
}

/// Whether the string `a` sorts before the string `b`.
pub open spec fn text_lt(a: Seq<char>, b: Seq<char>) -> bool {
    order::text_le(a, b) && a != b
}

/// Whether the keys rise.
pub open spec fn rising<V>(entries: Seq<(String, V)>) -> bool {
    forall|i: int, j: int|
        0 <= i < j < entries.len() ==> text_lt((#[trigger] entries[i]).0@, (#[trigger] entries[j]).0@)
}

/// Whether the entry at `i` has the key `k`.
pub open spec fn keyed_at<V>(entries: Seq<(String, V)>, k: Seq<char>, i: int) -> bool {
    0 <= i < entries.len() && entries[i].0@ == k
}

/// Whether some entry has the key `k`.
pub open spec fn has_key<V>(entries: Seq<(String, V)>, k: Seq<char>) -> bool {
    exists|i: int| keyed_at(entries, k, i)
}

/// The map of the entries.
pub open spec fn map_of<V>(entries: Seq<(String, V)>) -> Map<Seq<char>, V> {
    Map::new(
        |k: Seq<char>| has_key(entries, k),
        |k: Seq<char>| entries[choose|i: int| keyed_at(entries, k, i)].1,
    )
}

impl<V> View for Assoc<V> {
    type V = Map<Seq<char>, V>;

    open spec fn view(&self) -> Map<Seq<char>, V> {
        map_of(self.entries@)
    }
}

proof fn lemma_lt(a: Seq<char>, b: Seq<char>, c: Seq<char>)
    ensures
        text_lt(a, b) && text_lt(b, c) ==> text_lt(a, c),
        text_lt(a, b) ==> !text_lt(b, a),
        a == b || text_lt(a, b) || text_lt(b, a),
        !text_lt(a, a),
{
    order::part_order(order::ranks(a), order::ranks(b), order::ranks(c));
    order::part_order(order::ranks(b), order::ranks(a), order::ranks(c));
    if order::ranks(a) == order::ranks(b) {
        order::lemma_ranks_injective(a, b);
    }
    if text_lt(a, b) && text_lt(b, c) && a == c {
        order::part_order(order::ranks(a), order::ranks(b), order::ranks(a));
    }
}

proof fn lemma_one_place<V>(entries: Seq<(String, V)>, k: Seq<char>, i: int)
    requires
        rising(entries),
        keyed_at(entries, k, i),
    ensures
        map_of(entries).dom().contains(k),
        map_of(entries)[k] == entries[i].1,
{
    let j = choose|j: int| keyed_at(entries, k, j);
    assert(keyed_at(entries, k, j));
    if i < j {
        lemma_lt(entries[i].0@, entries[j].0@, k);
    } else if j < i {
        lemma_lt(entries[j].0@, entries[i].0@, k);
    }
}

fn before(a: &str, b: &str) -> (r: bool)
    ensures
        r == text_lt(a@, b@),
{
    let mut x: Vec<Vec<u64>> = Vec::new();
    x.push(order::text_part(a));
    let mut y: Vec<Vec<u64>> = Vec::new();
    y.push(order::text_part(b));
    let le = order::key_not_after(&x, &y);
    proof {
        let kx = order::key_view(x@);
        let ky = order::key_view(y@);
        assert(kx =~= seq![order::ranks(a@)]);
        assert(ky =~= seq![order::ranks(b@)]);
        assert(kx[0] == order::ranks(a@) && ky[0] == order::ranks(b@));
        assert(kx.skip(1) =~= Seq::<Seq<int>>::empty());
        reveal_with_fuel(order::key_le, 2);
        order::part_order(order::ranks(a@), order::ranks(b@), order::ranks(a@));
    }
    le && !text::same(a, b)
}

impl<V> Assoc<V> {
    /// Whether the keys are distinct and in order.
    pub open spec fn wf(&self) -> bool {
        rising(self.entries@)
    }

    /// The empty map.
    pub fn new() -> (r: Self)
        ensures
            r.wf(),
            r@ == Map::<Seq<char>, V>::empty(),
            r.entries@.len() == 0,
    {
        let r = Assoc { entries: Vec::new() };
        proof {
            assert(r@ =~= Map::<Seq<char>, V>::empty());
        }
        r
    }

    /// The first place whose key does not sort before `key`.
    fn place(&self, key: &str) -> (r: usize)
        requires
            self.wf(),
        ensures
            r <= self.entries@.len(),
            forall|i: int| 0 <= i < r ==> text_lt((#[trigger] self.entries@[i]).0@, key@),
            forall|i: int|
                r <= i < self.entries@.len() ==> !text_lt((#[trigger] self.entries@[i]).0@, key@),
    {
        let mut i: usize = 0;
        while i < self.entries.len() && before(self.entries[i].0.as_str(), key)
            invariant
                i <= self.entries@.len(),
                forall|k: int| 0 <= k < i ==> text_lt((#[trigger] self.entries@[k]).0@, key@),
            decreases self.entries@.len() - i,
        {
            i = i + 1;
        }
        proof {
            assert forall|k: int| i <= k < self.entries@.len() implies !text_lt(
                (#[trigger] self.entries@[k]).0@,
                key@,
            ) by {
                if k > i {
                    lemma_lt(self.entries@[i as int].0@, self.entries@[k].0@, key@);
                }
            }
        }
        i
    }

    /// The place of a key, where it is there.
    pub fn find(&self, key: &str) -> (r: Option<usize>)
        requires
            self.wf(),
        ensures
            r is Some == self@.dom().contains(key@),
            r matches Some(i) ==> keyed_at(self.entries@, key@, i as int) && self@[key@]
                == self.entries@[i as int].1,
    {
        let mut i: usize = 0;
        while i < self.entries.len()
            invariant
                i <= self.entries@.len(),
                self.wf(),
                forall|k: int| 0 <= k < i ==> (#[trigger] self.entries@[k]).0@ != key@,
            decreases self.entries@.len() - i,
        {
            if text::same(self.entries[i].0.as_str(), key) {
                proof {
                    lemma_one_place(self.entries@, key@, i as int);
                }
                return Some(i);
            }
            i = i + 1;
        }
        None
    }

    /// The value of a key, where it is there.
    pub fn get(&self, key: &str) -> (r: Option<&V>)
        requires
            self.wf(),
        ensures
            r is Some == self@.dom().contains(key@),
            r matches Some(v) ==> *v == self@[key@],
    {
        match self.find(key) {
            Some(i) => Some(&self.entries[i].1),
            None => None,
        }
    }

    /// Gives a key a value, in place of the one that it had.
    pub fn put(&mut self, key: &str, value: V)
        requires
            old(self).wf(),
        ensures
            final(self).wf(),
            final(self)@ == old(self)@.insert(key@, value),
    {
        let at: usize = self.place(key);
        let ghost was = self.entries@;
        let ghost old_map = self@;
        let there = at < self.entries.len() && text::same(self.entries[at].0.as_str(), key);
        if there {
            let _ = self.entries.remove(at);
        }
        let ghost cut = self.entries@;
        self.entries.insert(at, (key.to_owned(), value));
        proof {
            let now = self.entries@;
            assert forall|i: int, j: int| 0 <= i < j < now.len() implies text_lt(
                (#[trigger] now[i]).0@,
                (#[trigger] now[j]).0@,
            ) by {
                let wi = if i < at { i } else if i == at { -1 } else if there { i } else { i - 1 };
                let wj = if j < at { j } else if j == at { -1 } else if there { j } else { j - 1 };
                if wi >= 0 {
                    assert(now[i] == was[wi]);
                }
                if wj >= 0 {
                    assert(now[j] == was[wj]);
                }
                if i == at {
                    lemma_lt(was[wj].0@, key@, key@);
                    if there {
                        lemma_lt(was[at as int].0@, was[wj].0@, key@);
                    }
                    assert(was[wj].0@ != key@) by {
                        if was[wj].0@ == key@ {
                            if !there {
                                assert(at < was.len());
                                if wj > at {
                                    lemma_lt(was[at as int].0@, was[wj].0@, key@);
                                }
                            }
                        }
                    }
                }
            }
            assert(rising(now));
            assert forall|k: Seq<char>| self@.dom().contains(k) == old_map.insert(
                key@,
                value,
            ).dom().contains(k) by {
                if k == key@ {
                    assert(keyed_at(now, k, at as int));
                } else {
                    if has_key(was, k) {
                        let i = choose|i: int| keyed_at(was, k, i);
                        let n = if i < at { i } else if there { i } else { i + 1 };
                        assert(keyed_at(now, k, n));
                    }
                    if has_key(now, k) {
                        let i = choose|i: int| keyed_at(now, k, i);
                        let w = if i < at { i } else if there { i } else { i - 1 };
                        assert(i != at);
                        assert(keyed_at(was, k, w));
                    }
                }
            }
            assert forall|k: Seq<char>| #[trigger] self@.dom().contains(k) implies self@[k]
                == old_map.insert(key@, value)[k] by {
                if k == key@ {
                    lemma_one_place(now, k, at as int);
                } else {
                    let i = choose|i: int| keyed_at(now, k, i);
                    assert(keyed_at(now, k, i));
                    let w = if i < at { i } else if there { i } else { i - 1 };
                    assert(keyed_at(was, k, w));
                    lemma_one_place(now, k, i);
                    lemma_one_place(was, k, w);
                    assert(now[i] == was[w]);
                }
            }
            assert(self@ =~= old_map.insert(key@, value));
        }
    }

    /// Takes a key out.
    pub fn remove(&mut self, key: &str) -> (r: bool)
        requires
            old(self).wf(),
        ensures
            final(self).wf(),
            r == old(self)@.dom().contains(key@),
            final(self)@ == old(self)@.remove(key@),
    {
        let ghost was = self.entries@;
        let ghost old_map = self@;
        match self.find(key) {
            None => {
                proof {
                    assert(self@ =~= old_map.remove(key@));
                }
                false
            },
            Some(at) => {
                let _ = self.entries.remove(at);
                proof {
                    let now = self.entries@;
                    assert forall|i: int, j: int| 0 <= i < j < now.len() implies text_lt(
                        (#[trigger] now[i]).0@,
                        (#[trigger] now[j]).0@,
                    ) by {
                        let wi = if i < at { i } else { i + 1 };
                        let wj = if j < at { j } else { j + 1 };
                        assert(now[i] == was[wi] && now[j] == was[wj]);
                    }
                    assert forall|k: Seq<char>| self@.dom().contains(k) == old_map.remove(
                        key@,
                    ).dom().contains(k) by {
                        if k == key@ {
                            if has_key(now, k) {
                                let i = choose|i: int| keyed_at(now, k, i);
                                let w = if i < at { i } else { i + 1 };
                                assert(now[i] == was[w]);
                                if w < at {
                                    lemma_lt(was[w].0@, was[at as int].0@, k);
                                } else {
                                    lemma_lt(was[at as int].0@, was[w].0@, k);
                                }
                            }
                        } else {
                            if has_key(was, k) {
                                let i = choose|i: int| keyed_at(was, k, i);
                                let n = if i < at { i } else { i - 1 };
                                assert(i != at);
                                assert(keyed_at(now, k, n));
                            }
                            if has_key(now, k) {
                                let i = choose|i: int| keyed_at(now, k, i);
                                let w = if i < at { i } else { i + 1 };
                                assert(keyed_at(was, k, w));
                            }
                        }
                    }
                    assert forall|k: Seq<char>| #[trigger] self@.dom().contains(k) implies self@[k]
                        == old_map.remove(key@)[k] by {
                        let i = choose|i: int| keyed_at(now, k, i);
                        assert(keyed_at(now, k, i));
                        let w = if i < at { i } else { i + 1 };
                        assert(keyed_at(was, k, w));
                        lemma_one_place(now, k, i);
                        lemma_one_place(was, k, w);
                    }
                    assert(self@ =~= old_map.remove(key@));
                }
                true
            },
        }
    }
}

// ---------------------------------------------------------------------------
// Environments
// ---------------------------------------------------------------------------

/// What a map of strings holds.
pub open spec fn values(map: Map<Seq<char>, String>) -> Map<Seq<char>, Seq<char>> {
    Map::new(|k: Seq<char>| map.contains_key(k), |k: Seq<char>| map[k]@)
}

/// The entries up to a place.
spec fn part_of(entries: Seq<(String, String)>, n: int) -> Map<Seq<char>, Seq<char>>
    decreases n,
{
    if n <= 0 {
        Map::empty()
    } else {
        part_of(entries, n - 1).insert(entries[n - 1].0@, entries[n - 1].1@)
    }
}

proof fn lemma_part(entries: Seq<(String, String)>, n: int)
    requires
        rising(entries),
        0 <= n <= entries.len(),
    ensures
        forall|k: Seq<char>|
            #![trigger part_of(entries, n).contains_key(k)]
            part_of(entries, n).contains_key(k) == exists|i: int|
                0 <= i < n && #[trigger] keyed_at(entries, k, i),
        forall|i: int|
            0 <= i < n ==> part_of(entries, n)[(#[trigger] entries[i]).0@] == entries[i].1@,
    decreases n,
{
    if n > 0 {
        lemma_part(entries, n - 1);
        let last = entries[n - 1].0@;
        assert(keyed_at(entries, last, n - 1));
        assert forall|k: Seq<char>| part_of(entries, n).contains_key(k) == exists|i: int|
            0 <= i < n && #[trigger] keyed_at(entries, k, i) by {
            if part_of(entries, n - 1).contains_key(k) {
                let i = choose|i: int| 0 <= i < n - 1 && #[trigger] keyed_at(entries, k, i);
                assert(keyed_at(entries, k, i));
            }
            if exists|i: int| 0 <= i < n && #[trigger] keyed_at(entries, k, i) {
                let i = choose|i: int| 0 <= i < n && #[trigger] keyed_at(entries, k, i);
                if i == n - 1 {
                    assert(k == last);
                } else {
                    assert(part_of(entries, n - 1).contains_key(k));
                }
            }
        }
        assert forall|i: int| 0 <= i < n implies part_of(entries, n)[(#[trigger] entries[i]).0@]
            == entries[i].1@ by {
            if i < n - 1 {
                assert(text_lt(entries[i].0@, entries[n - 1].0@));
            }
        }
    }
}

proof fn lemma_whole(entries: Seq<(String, String)>)
    requires
        rising(entries),
    ensures
        part_of(entries, entries.len() as int) == values(map_of(entries)),
{
    let n = entries.len() as int;
    lemma_part(entries, n);
    let a = part_of(entries, n);
    let b = values(map_of(entries));
    assert forall|k: Seq<char>| a.contains_key(k) == b.contains_key(k) by {
        if has_key(entries, k) {
            let i = choose|i: int| keyed_at(entries, k, i);
            assert(keyed_at(entries, k, i));
        }
        if a.contains_key(k) {
            let i = choose|i: int| 0 <= i < n && #[trigger] keyed_at(entries, k, i);
            assert(has_key(entries, k));
        }
    }
    assert forall|k: Seq<char>| #[trigger] a.contains_key(k) implies a[k] == b[k] by {
        let i = choose|i: int| 0 <= i < n && #[trigger] keyed_at(entries, k, i);
        lemma_one_place(entries, k, i);
        assert(a[entries[i].0@] == entries[i].1@);
    }
    assert(a =~= b);
}

/// Adds all of one map to another; where both have a key, the value that was
/// added stands.
pub fn overlay(base: Assoc<String>, over: &Assoc<String>) -> (r: Assoc<String>)
    requires
        base.wf(),
        over.wf(),
    ensures
        r.wf(),
        values(r@) == values(base@).union_prefer_right(values(over@)),
{
    let ghost start = values(base@);
    let mut r = base;
    let mut i: usize = 0;
    proof {
        assert(values(r@) =~= start.union_prefer_right(part_of(over.entries@, 0)));
    }
    while i < over.entries.len()
        invariant
            i <= over.entries@.len(),
            r.wf(),
            over.wf(),
            values(r@) == start.union_prefer_right(part_of(over.entries@, i as int)),
        decreases over.entries@.len() - i,
    {
        let ghost before = values(r@);
        let ghost k = over.entries@[i as int].0@;
        let ghost v = over.entries@[i as int].1@;
        r.put(over.entries[i].0.as_str(), over.entries[i].1.clone());
        proof {
            assert(values(r@) =~= before.insert(k, v));
            assert(before.insert(k, v) =~= start.union_prefer_right(
                part_of(over.entries@, i + 1),
            ));
        }
        i = i + 1;
    }
    proof {
        lemma_whole(over.entries@);
    }
    r
}

/// A copy of a map.
pub fn copy(map: &Assoc<String>) -> (r: Assoc<String>)
    requires
        map.wf(),
    ensures
        r.wf(),
        values(r@) == values(map@),
{
    let none: Assoc<String> = Assoc::new();
    proof {
        assert(values(none@).union_prefer_right(values(map@)) =~= values(map@));
    }
    overlay(none, map)
}

// ---------------------------------------------------------------------------
// Sets
// ---------------------------------------------------------------------------

/// Whether strings are distinct and in order.
pub open spec fn ascending(list: Seq<Seq<char>>) -> bool {
    forall|i: int, j: int| 0 <= i < j < list.len() ==> text_lt(#[trigger] list[i], #[trigger] list[j])
}

/// Whether a list holds, in order and each once, the strings of another.
pub open spec fn set_of(list: Seq<Seq<char>>, all: Seq<Seq<char>>) -> bool {
    &&& ascending(list)
    &&& forall|x: Seq<char>| #[trigger] list.contains(x) == all.contains(x)
}

/// The strings of a list, in order and each once.
pub open spec fn the_set(all: Seq<Seq<char>>) -> Seq<Seq<char>> {
    choose|list: Seq<Seq<char>>| set_of(list, all)
}

spec fn with_text(s: Seq<Seq<char>>, x: Seq<char>) -> Seq<Seq<char>>
    decreases s.len(),
{
    if s.len() == 0 {
        seq![x]
    } else if s.last() == x {
        s
    } else if text_lt(s.last(), x) {
        s.push(x)
    } else {
        with_text(s.drop_last(), x).push(s.last())
    }
}

proof fn lemma_with_text(s: Seq<Seq<char>>, x: Seq<char>)
    requires
        ascending(s),
    ensures
        ascending(with_text(s, x)),
        forall|y: Seq<char>| #[trigger] with_text(s, x).contains(y) == (s.contains(y) || y == x),
    decreases s.len(),
{
    let r = with_text(s, x);
    if s.len() == 0 {
        assert(r[0] == x);
    } else {
        let n = s.len() - 1;
        let last = s[n];
        let t = s.drop_last();
        lemma_lt(last, x, last);
        if last == x {
            assert(s[n] == x);
        } else if text_lt(last, x) {
            assert forall|i: int, j: int| 0 <= i < j < r.len() implies text_lt(
                #[trigger] r[i],
                #[trigger] r[j],
            ) by {
                if j == s.len() && i < n {
                    assert(text_lt(s[i], s[n]));
                    lemma_lt(s[i], last, x);
                }
            }
            assert forall|y: Seq<char>| #[trigger] r.contains(y) == (s.contains(y) || y == x) by {
                if s.contains(y) {
                    let k = choose|k: int| 0 <= k < s.len() && s[k] == y;
                    assert(r[k] == y);
                }
                assert(r[s.len() as int] == x);
            }
        } else {
            assert(ascending(t));
            lemma_with_text(t, x);
            let w = with_text(t, x);
            assert forall|i: int, j: int| 0 <= i < j < r.len() implies text_lt(
                #[trigger] r[i],
                #[trigger] r[j],
            ) by {
                if j == w.len() {
                    assert(w.contains(w[i]));
                    if t.contains(w[i]) {
                        let k = choose|k: int| 0 <= k < t.len() && t[k] == w[i];
                        assert(text_lt(s[k], s[n]));
                    }
                }
            }
            assert forall|y: Seq<char>| #[trigger] r.contains(y) == (s.contains(y) || y == x) by {
                assert(w.contains(y) == (t.contains(y) || y == x));
                if w.contains(y) {
                    let k = choose|k: int| 0 <= k < w.len() && w[k] == y;
                    assert(r[k] == y);
                }
                if t.contains(y) {
                    let k = choose|k: int| 0 <= k < t.len() && t[k] == y;
                    assert(s[k] == y);
                }
                if s.contains(y) {
                    let k = choose|k: int| 0 <= k < s.len() && s[k] == y;
                    if k < n {
                        assert(t[k] == y);
                    }
                }
                assert(r[w.len() as int] == last);
                assert(s[n] == last);
            }
        }
    }
}

proof fn lemma_some_set(all: Seq<Seq<char>>) -> (list: Seq<Seq<char>>)
    ensures
        set_of(list, all),
    decreases all.len(),
{
    if all.len() == 0 {
        Seq::<Seq<char>>::empty()
    } else {
        let init = all.drop_last();
        let s = lemma_some_set(init);
        lemma_with_text(s, all.last());
        let r = with_text(s, all.last());
        assert forall|y: Seq<char>| #[trigger] r.contains(y) == all.contains(y) by {
            assert(s.contains(y) == init.contains(y));
            if init.contains(y) {
                let k = choose|k: int| 0 <= k < init.len() && init[k] == y;
                assert(all[k] == y);
            }
            if all.contains(y) {
                let k = choose|k: int| 0 <= k < all.len() && all[k] == y;
                if k < all.len() - 1 {
                    assert(init[k] == y);
                }
            }
            assert(all[all.len() - 1] == all.last());
        }
        r
    }
}

/// Every list has one that holds its strings in order and each once.
pub proof fn the_set_is_one(all: Seq<Seq<char>>)
    ensures
        set_of(the_set(all), all),
{
    let list = lemma_some_set(all);
    assert(set_of(list, all));
}

proof fn lemma_ascending_is_one(a: Seq<Seq<char>>, b: Seq<Seq<char>>)
    requires
        ascending(a),
        ascending(b),
        forall|x: Seq<char>| #[trigger] a.contains(x) == b.contains(x),
    ensures
        a == b,
    decreases a.len(),
{
    if a.len() == 0 {
        if b.len() > 0 {
            assert(b.contains(b[0]));
            assert(a.contains(b[0]));
        }
        assert(a =~= b);
    } else {
        let n = a.len() - 1;
        let m = b.len() - 1;
        assert(a.contains(a[n]));
        assert(b.contains(a[n]));
        assert(b.contains(b[m]));
        assert(a.contains(b[m]));
        let i = choose|i: int| 0 <= i < b.len() && b[i] == a[n];
        let j = choose|j: int| 0 <= j < a.len() && a[j] == b[m];
        lemma_lt(a[n], b[m], a[n]);
        lemma_lt(b[m], a[n], b[m]);
        if i < m {
            assert(text_lt(b[i], b[m]));
        }
        if j < n {
            assert(text_lt(a[j], a[n]));
        }
        assert(a[n] == b[m]);
        let x = a.drop_last();
        let y = b.drop_last();
        assert forall|t: Seq<char>| #[trigger] x.contains(t) == y.contains(t) by {
            if x.contains(t) {
                let k = choose|k: int| 0 <= k < x.len() && x[k] == t;
                assert(a[k] == t);
                assert(a.contains(t));
                assert(b.contains(t));
                let l = choose|l: int| 0 <= l < b.len() && b[l] == t;
                assert(text_lt(a[k], a[n]));
                lemma_lt(t, t, t);
                assert(l != m);
                assert(y[l] == t);
            }
            if y.contains(t) {
                let k = choose|k: int| 0 <= k < y.len() && y[k] == t;
                assert(b[k] == t);
                assert(b.contains(t));
                assert(a.contains(t));
                let l = choose|l: int| 0 <= l < a.len() && a[l] == t;
                assert(text_lt(b[k], b[m]));
                lemma_lt(t, t, t);
                assert(l != n);
                assert(x[l] == t);
            }
        }
        assert(ascending(x));
        assert(ascending(y));
        lemma_ascending_is_one(x, y);
        assert(a =~= x.push(a[n]));
        assert(b =~= y.push(b[m]));
    }
}

/// Only one list holds the strings of another in order and each once.
pub proof fn lemma_the_set(list: Seq<Seq<char>>, all: Seq<Seq<char>>)
    requires
        set_of(list, all),
    ensures
        the_set(all) == list,
{
    let other = the_set(all);
    assert(set_of(other, all));
    assert forall|x: Seq<char>| #[trigger] list.contains(x) == other.contains(x) by {
        assert(list.contains(x) == all.contains(x));
        assert(other.contains(x) == all.contains(x));
    }
    lemma_ascending_is_one(list, other);
}

/// The strings of a list, in order and each once.
pub fn sorted_set(all: &Vec<String>) -> (r: Vec<String>)
    ensures
        set_of(text::texts(r@), text::texts(all@)),
{
    let ghost list = text::texts(all@);
    let mut set: Assoc<bool> = Assoc::new();
    let mut i: usize = 0;
    while i < all.len()
        invariant
            i <= all@.len(),
            list == text::texts(all@),
            set.wf(),
            forall|x: Seq<char>| #[trigger] set@.contains_key(x) == list.take(i as int).contains(x),
        decreases all@.len() - i,
    {
        let ghost before = set@;
        set.put(all[i].as_str(), true);
        proof {
            assert forall|x: Seq<char>| #[trigger] set@.contains_key(x) == list.take(
                i + 1,
            ).contains(x) by {
                let now = list.take(i + 1);
                let was = list.take(i as int);
                if now.contains(x) {
                    let k = choose|k: int| 0 <= k < now.len() && now[k] == x;
                    if k < i {
                        assert(was[k] == x);
                    }
                }
                if was.contains(x) {
                    let k = choose|k: int| 0 <= k < was.len() && was[k] == x;
                    assert(now[k] == x);
                }
                assert(now[i as int] == list[i as int]);
            }
        }
        i = i + 1;
    }
    let mut out: Vec<String> = Vec::new();
    let mut n: usize = 0;
    while n < set.entries.len()
        invariant
            n <= set.entries@.len(),
            out@.len() == n,
            forall|k: int| 0 <= k < n ==> (#[trigger] out@[k])@ == set.entries@[k].0@,
        decreases set.entries@.len() - n,
    {
        out.push(set.entries[n].0.clone());
        n = n + 1;
    }
    proof {
        assert(list.take(all@.len() as int) =~= list);
        let got = text::texts(out@);
        assert forall|i: int, j: int| 0 <= i < j < got.len() implies text_lt(
            #[trigger] got[i],
            #[trigger] got[j],
        ) by {
            assert(got[i] == set.entries@[i].0@);
            assert(got[j] == set.entries@[j].0@);
        }
        assert forall|x: Seq<char>| #[trigger] got.contains(x) == list.contains(x) by {
            if got.contains(x) {
                let k = choose|k: int| 0 <= k < got.len() && got[k] == x;
                assert(keyed_at(set.entries@, x, k));
                assert(set@.contains_key(x));
            }
            if list.contains(x) {
                assert(set@.contains_key(x));
                let k = choose|k: int| keyed_at(set.entries@, x, k);
                assert(got[k] == x);
            }
        }
    }
    out
}

} // verus!
