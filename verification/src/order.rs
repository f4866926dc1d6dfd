//! The order in which reports are sorted: keys are lists of parts, a part is a
//! list of numbers (the code points of a string, or one number), and both are
//! compared from the left.

use vstd::prelude::*;
use vstd::utf8::*;

use crate::text;

verus! {

/// Whether the part `a` comes no later than the part `b`.
pub open spec fn part_le(a: Seq<int>, b: Seq<int>) -> bool
    decreases a.len(),
{
    if a.len() == 0 {
        true
    } else if b.len() == 0 {
        false
    } else if a[0] != b[0] {
        a[0] < b[0]
    } else {
        part_le(a.skip(1), b.skip(1))
    }
}

/// Whether the key `a` comes no later than the key `b`.
pub open spec fn key_le(a: Seq<Seq<int>>, b: Seq<Seq<int>>) -> bool
    decreases a.len(),
{
    if a.len() == 0 {
        true
    } else if b.len() == 0 {
        false
    } else if a[0] != b[0] {
        part_le(a[0], b[0])
    } else {
        key_le(a.skip(1), b.skip(1))
    }
}

proof fn lemma_unskip<A>(a: Seq<A>, b: Seq<A>)
    requires
        a.len() > 0,
        b.len() > 0,
        a[0] == b[0],
        a.skip(1) == b.skip(1),
    ensures
        a == b,
{
    assert(a.len() == a.skip(1).len() + 1);
    assert(b.len() == b.skip(1).len() + 1);
    assert forall|i: int| 0 <= i < a.len() implies a[i] == b[i] by {
        if i > 0 {
            assert(a.skip(1)[i - 1] == a[i]);
            assert(b.skip(1)[i - 1] == b[i]);
        }
    }
    assert(a =~= b);
}

/// The order of parts is total, transitive and antisymmetric.
pub proof fn part_order(a: Seq<int>, b: Seq<int>, c: Seq<int>)
    ensures
        part_le(a, a),
        part_le(a, b) || part_le(b, a),
        part_le(a, b) && part_le(b, a) ==> a == b,
        part_le(a, b) && part_le(b, c) ==> part_le(a, c),
    decreases a.len() + b.len() + c.len(),
{
    if a.len() > 0 && b.len() > 0 && c.len() > 0 {
        part_order(a.skip(1), b.skip(1), c.skip(1));
        if a[0] == b[0] && part_le(a, b) && part_le(b, a) {
            lemma_unskip(a, b);
        }
    } else if a.len() > 0 && b.len() > 0 {
        part_order(a.skip(1), b.skip(1), c);
        if a[0] == b[0] && part_le(a, b) && part_le(b, a) {
            lemma_unskip(a, b);
        }
    } else if a.len() > 0 {
        part_order(a.skip(1), b, c);
    } else if part_le(b, a) {
        assert(a =~= b);
    }
}

/// The order of keys is total, transitive and antisymmetric.
pub proof fn key_order(a: Seq<Seq<int>>, b: Seq<Seq<int>>, c: Seq<Seq<int>>)
    ensures
        key_le(a, a),
        key_le(a, b) || key_le(b, a),
        key_le(a, b) && key_le(b, a) ==> a == b,
        key_le(a, b) && key_le(b, c) ==> key_le(a, c),
    decreases a.len() + b.len() + c.len(),
{
    if a.len() > 0 && b.len() > 0 {
        part_order(a[0], b[0], if c.len() > 0 { c[0] } else { a[0] });
        part_order(b[0], a[0], a[0]);
        if c.len() > 0 {
            part_order(b[0], c[0], a[0]);
            key_order(a.skip(1), b.skip(1), c.skip(1));
        } else {
            key_order(a.skip(1), b.skip(1), c);
        }
        if a[0] == b[0] && key_le(a, b) && key_le(b, a) {
            lemma_unskip(a, b);
        }
    } else if a.len() > 0 {
        key_order(a.skip(1), b, c);
    } else if key_le(b, a) {
        assert(a =~= b);
    }
}

/// The code points of a string.
pub open spec fn ranks(s: Seq<char>) -> Seq<int> {
    s.map_values(|c: char| (c as u32) as int)
}

/// Whether the string `a` sorts no later than the string `b`.
pub open spec fn text_le(a: Seq<char>, b: Seq<char>) -> bool {
    part_le(ranks(a), ranks(b))
}

/// Different strings have different code points.
pub proof fn lemma_ranks_injective(a: Seq<char>, b: Seq<char>)
    requires
        ranks(a) == ranks(b),
    ensures
        a == b,
{
    assert(a.len() == ranks(a).len());
    assert(b.len() == ranks(b).len());
    assert forall|i: int| 0 <= i < a.len() implies a[i] == b[i] by {
        assert(ranks(a)[i] == (a[i] as u32) as int);
        assert(ranks(b)[i] == (b[i] as u32) as int);
        char_u32_cast(a[i], a[i] as u32);
        char_u32_cast(b[i], b[i] as u32);
    }
    assert(a =~= b);
}

/// What a part holds.
pub open spec fn part_view(part: Seq<u64>) -> Seq<int> {
    part.map_values(|n: u64| n as int)
}

/// What a key holds.
pub open spec fn key_view(key: Seq<Vec<u64>>) -> Seq<Seq<int>> {
    key.map_values(|p: Vec<u64>| part_view(p@))
}

/// The code points of a string as a part of a key.
pub fn text_part(s: &str) -> (r: Vec<u64>)
    ensures
        part_view(r@) == ranks(s@),
{
    let a = text::chars_of(s);
    let mut out: Vec<u64> = Vec::new();
    let mut i: usize = 0;
    while i < a.len()
        invariant
            i <= a.len(),
            a@ == s@,
            part_view(out@) == ranks(a@.take(i as int)),
        decreases a.len() - i,
    {
        let ghost prior = out@;
        let n: u32 = a[i] as u32;
        out.push(n as u64);
        proof {
            assert(part_view(out@) =~= part_view(prior).push(n as int));
            assert(a@.take(i + 1) =~= a@.take(i as int).push(a@[i as int]));
            assert(ranks(a@.take(i + 1)) =~= ranks(a@.take(i as int)).push(n as int));
            assert(part_view(out@) =~= ranks(a@.take(i + 1)));
        }
        i = i + 1;
    }
    proof {
        assert(a@.take(a@.len() as int) =~= a@);
    }
    out
}

/// One number as a part of a key.
pub fn number_part(n: u64) -> (r: Vec<u64>)
    ensures
        part_view(r@) == seq![n as int],
{
    let mut out: Vec<u64> = Vec::new();
    out.push(n);
    proof {
        assert(part_view(out@) =~= seq![n as int]);
    }
    out
}

/// An optional string as a part of a key: absent before every present one.
pub open spec fn option_rank(s: Option<Seq<char>>) -> Seq<int> {
    match s {
        None => Seq::<int>::empty(),
        Some(t) => seq![1int] + ranks(t),
    }
}

/// An optional string as a part of a key.
pub fn option_part(s: &Option<String>) -> (r: Vec<u64>)
    ensures
        part_view(r@) == option_rank(text::opt(*s)),
{
    let mut out: Vec<u64> = Vec::new();
    match s {
        None => {
            proof {
                assert(part_view(out@) =~= Seq::<int>::empty());
            }
        },
        Some(t) => {
            out.push(1);
            let mut rest = text_part(t.as_str());
            let ghost tail = rest@;
            out.append(&mut rest);
            proof {
                assert(part_view(tail) == ranks(t@));
                assert(part_view(out@) =~= seq![1int] + part_view(tail));
            }
        },
    }
    out
}

fn part_not_after(a: &Vec<u64>, b: &Vec<u64>) -> (r: bool)
    ensures
        r == part_le(part_view(a@), part_view(b@)),
{
    let mut i: usize = 0;
    let ghost x = part_view(a@);
    let ghost y = part_view(b@);
    proof {
        assert(x.skip(0) =~= x);
        assert(y.skip(0) =~= y);
    }
    loop
        invariant
            i <= a.len(),
            i <= b.len(),
            x == part_view(a@),
            y == part_view(b@),
            part_le(x, y) == part_le(x.skip(i as int), y.skip(i as int)),
        decreases a.len() - i,
    {
        if i == a.len() {
            return true;
        }
        if i == b.len() {
            return false;
        }
        proof {
            assert(x.skip(i as int)[0] == a@[i as int]);
            assert(y.skip(i as int)[0] == b@[i as int]);
            assert(x.skip(i as int).skip(1) =~= x.skip(i + 1));
            assert(y.skip(i as int).skip(1) =~= y.skip(i + 1));
        }
        if a[i] != b[i] {
            return a[i] < b[i];
        }
        i = i + 1;
    }
}

fn part_same(a: &Vec<u64>, b: &Vec<u64>) -> (r: bool)
    ensures
        r == (part_view(a@) == part_view(b@)),
{
    let r = part_not_after(a, b) && part_not_after(b, a);
    proof {
        part_order(part_view(a@), part_view(b@), part_view(a@));
    }
    r
}

/// Whether one key comes no later than another.
pub fn key_not_after(a: &Vec<Vec<u64>>, b: &Vec<Vec<u64>>) -> (r: bool)
    ensures
        r == key_le(key_view(a@), key_view(b@)),
{
    let mut i: usize = 0;
    let ghost x = key_view(a@);
    let ghost y = key_view(b@);
    proof {
        assert(x.skip(0) =~= x);
        assert(y.skip(0) =~= y);
    }
    loop
        invariant
            i <= a.len(),
            i <= b.len(),
            x == key_view(a@),
            y == key_view(b@),
            key_le(x, y) == key_le(x.skip(i as int), y.skip(i as int)),
        decreases a.len() - i,
    {
        if i == a.len() {
            return true;
        }
        if i == b.len() {
            return false;
        }
        proof {
            assert(x.skip(i as int)[0] == part_view(a@[i as int]@));
            assert(y.skip(i as int)[0] == part_view(b@[i as int]@));
            assert(x.skip(i as int).skip(1) =~= x.skip(i + 1));
            assert(y.skip(i as int).skip(1) =~= y.skip(i + 1));
        }
        if !part_same(&a[i], &b[i]) {
            return part_not_after(&a[i], &b[i]);
        }
        i = i + 1;
    }
}

/// A thing that is sorted by a key.
pub trait Keyed: Sized {
    /// The key.
    spec fn key(&self) -> Seq<Seq<int>>;

    /// The key, as it is compared.
    fn sort_key(&self) -> (r: Vec<Vec<u64>>)
        ensures
            key_view(r@) == self.key(),
    ;
}

/// `x` put into `s` after everything that does not come later.
pub open spec fn place<T: Keyed>(s: Seq<T>, x: T) -> Seq<T>
    decreases s.len(),
{
    if s.len() == 0 || key_le(s.last().key(), x.key()) {
        s.push(x)
    } else {
        place(s.drop_last(), x).push(s.last())
    }
}

/// The things of `s` in the order of their keys; those with equal keys keep
/// the order they had.
pub open spec fn sorted<T: Keyed>(s: Seq<T>) -> Seq<T>
    decreases s.len(),
{
    if s.len() == 0 {
        s
    } else {
        place(sorted(s.drop_last()), s.last())
    }
}

/// Whether the keys never fall.
pub open spec fn in_order<T: Keyed>(s: Seq<T>) -> bool {
    forall|i: int, j: int|
        0 <= i <= j < s.len() ==> key_le((#[trigger] s[i]).key(), (#[trigger] s[j]).key())
}

proof fn lemma_place<T: Keyed>(s: Seq<T>, x: T)
    requires
        in_order(s),
    ensures
        in_order(place(s, x)),
        place(s, x).to_multiset() == s.to_multiset().insert(x),
        place(s, x).len() == s.len() + 1,
        forall|i: int|
            0 <= i <= s.len() ==> (#[trigger] place(s, x)[i] == x || s.contains(place(s, x)[i])),
    decreases s.len(),
{
    broadcast use vstd::seq_lib::group_to_multiset_ensures;

    key_order(x.key(), x.key(), x.key());
    if s.len() == 0 || key_le(s.last().key(), x.key()) {
        assert forall|i: int, j: int| 0 <= i <= j < s.len() + 1 implies key_le(
            (#[trigger] s.push(x)[i]).key(),
            (#[trigger] s.push(x)[j]).key(),
        ) by {
            if i < s.len() && j == s.len() {
                key_order(s[i].key(), s.last().key(), x.key());
            } else if i < s.len() {
                assert(s.push(x)[i] == s[i]);
                assert(s.push(x)[j] == s[j]);
            }
        }
        assert forall|i: int| 0 <= i <= s.len() implies (#[trigger] s.push(x)[i] == x || s.contains(
            s.push(x)[i],
        )) by {
            if i < s.len() {
                assert(s.push(x)[i] == s[i]);
            }
        }
    } else {
        let t = s.drop_last();
        let y = s.last();
        lemma_place(t, x);
        let p = place(t, x);
        assert(s =~= t.push(y));
        key_order(x.key(), y.key(), x.key());
        key_order(y.key(), y.key(), y.key());
        assert forall|i: int, j: int| 0 <= i <= j < p.push(y).len() implies key_le(
            (#[trigger] p.push(y)[i]).key(),
            (#[trigger] p.push(y)[j]).key(),
        ) by {
            if j == p.len() && i < p.len() {
                assert(p[i] == x || t.contains(p[i]));
                if p[i] != x {
                    let k = choose|k: int| 0 <= k < t.len() && t[k] == p[i];
                    assert(s[k] == t[k]);
                    assert(key_le(s[k].key(), s[s.len() - 1].key()));
                }
            } else if j < p.len() {
                assert(p.push(y)[i] == p[i] && p.push(y)[j] == p[j]);
            }
        }
        assert(p.push(y).to_multiset() =~= s.to_multiset().insert(x));
        assert forall|i: int| 0 <= i <= s.len() implies (#[trigger] p.push(y)[i] == x || s.contains(
            p.push(y)[i],
        )) by {
            if i < p.len() {
                assert(p.push(y)[i] == p[i]);
                if p[i] != x {
                    let k = choose|k: int| 0 <= k < t.len() && t[k] == p[i];
                    assert(s[k] == t[k]);
                }
            } else {
                assert(s[s.len() - 1] == y);
            }
        }
    }
}

/// Sorting puts the keys in order and keeps every thing exactly as often as it
/// occurred.
pub proof fn sorting_orders_and_keeps<T: Keyed>(s: Seq<T>)
    ensures
        in_order(sorted(s)),
        sorted(s).to_multiset() == s.to_multiset(),
        sorted(s).len() == s.len(),
    decreases s.len(),
{
    broadcast use vstd::seq_lib::group_to_multiset_ensures;

    if s.len() > 0 {
        sorting_orders_and_keeps(s.drop_last());
        lemma_place(sorted(s.drop_last()), s.last());
        assert(s =~= s.drop_last().push(s.last()));
        assert(sorted(s).to_multiset() =~= s.to_multiset());
    }
}

/// The things of `s` whose key is `k`, in their order.
pub open spec fn with_key<T: Keyed>(s: Seq<T>, k: Seq<Seq<int>>) -> Seq<T>
    decreases s.len(),
{
    if s.len() == 0 {
        s
    } else if s.last().key() == k {
        with_key(s.drop_last(), k).push(s.last())
    } else {
        with_key(s.drop_last(), k)
    }
}

proof fn lemma_place_stable<T: Keyed>(s: Seq<T>, x: T, k: Seq<Seq<int>>)
    requires
        in_order(s),
    ensures
        with_key(place(s, x), k) == with_key(s.push(x), k),
    decreases s.len(),
{
    reveal_with_fuel(with_key, 3);
    if s.len() == 0 || key_le(s.last().key(), x.key()) {
    } else {
        let t = s.drop_last();
        let y = s.last();
        lemma_place_stable(t, x, k);
        assert(place(t, x).push(y).drop_last() =~= place(t, x));
        assert(s.push(x).drop_last() =~= s);
        assert(t.push(x).drop_last() =~= t);
        assert(s =~= t.push(y));
        key_order(x.key(), y.key(), x.key());
        assert(x.key() != y.key());
    }
}

/// Sorting keeps the order of the things whose keys are equal.
pub proof fn sorting_is_stable<T: Keyed>(s: Seq<T>, k: Seq<Seq<int>>)
    ensures
        with_key(sorted(s), k) == with_key(s, k),
    decreases s.len(),
{
    if s.len() > 0 {
        let t = s.drop_last();
        sorting_is_stable(t, k);
        sorting_orders_and_keeps(t);
        lemma_place_stable(sorted(t), s.last(), k);
        assert(sorted(t).push(s.last()).drop_last() =~= sorted(t));
    }
}

proof fn lemma_place_at<T: Keyed>(s: Seq<T>, x: T, j: int)
    requires
        0 <= j <= s.len(),
        j > 0 ==> key_le(s[j - 1].key(), x.key()),
        forall|i: int| j <= i < s.len() ==> !key_le((#[trigger] s[i]).key(), x.key()),
    ensures
        place(s, x) == s.insert(j, x),
    decreases s.len(),
{
    if s.len() == 0 || key_le(s.last().key(), x.key()) {
        assert(j == s.len());
        assert(s.insert(j, x) =~= s.push(x));
    } else {
        let t = s.drop_last();
        assert(j < s.len());
        assert forall|i: int| j <= i < t.len() implies !key_le((#[trigger] t[i]).key(), x.key()) by {
            assert(t[i] == s[i]);
        }
        if j > 0 {
            assert(t[j - 1] == s[j - 1]);
        }
        lemma_place_at(t, x, j);
        assert(s.insert(j, x) =~= t.insert(j, x).push(s.last()));
    }
}

/// The things in the order of their keys.
pub fn sort<T: Keyed>(items: Vec<T>) -> (r: Vec<T>)
    ensures
        r@ == sorted(items@),
{
    let ghost all = items@;
    let mut rest = items;
    let mut out: Vec<T> = Vec::new();
    let ghost mut done: int = 0;
    proof {
        assert(all.take(0) =~= Seq::<T>::empty());
        assert(out@ =~= sorted(all.take(0)));
        assert(all.skip(0) =~= all);
    }
    while rest.len() > 0
        invariant
            0 <= done <= all.len(),
            rest@ == all.skip(done),
            out@ == sorted(all.take(done)),
        decreases rest.len(),
    {
        let ghost prior = rest@;
        let x = rest.remove(0);
        proof {
            assert(x == all[done]);
            assert(rest@ =~= all.skip(done + 1));
        }
        let key = x.sort_key();
        let mut j: usize = out.len();
        while j > 0 && !key_not_after(&out[j - 1].sort_key(), &key)
            invariant
                j <= out.len(),
                key_view(key@) == x.key(),
                forall|i: int| j <= i < out@.len() ==> !key_le((#[trigger] out@[i]).key(), x.key()),
            decreases j,
        {
            j = j - 1;
        }
        proof {
            lemma_place_at(out@, x, j as int);
            assert(all.take(done + 1).drop_last() =~= all.take(done));
            assert(all.take(done + 1).last() == x);
        }
        out.insert(j, x);
        proof {
            done = done + 1;
        }
    }
    proof {
        assert(all.take(done) =~= all);
    }
    out
}

/// What is sorted is what there was: each thing of the result is one of the list.
pub proof fn sorted_from<T: Keyed>(s: Seq<T>, i: int)
    requires
        0 <= i < sorted(s).len(),
    ensures
        s.contains(sorted(s)[i]),
{
    sorting_orders_and_keeps(s);
    s.to_multiset_ensures();
    sorted(s).to_multiset_ensures();
    let x = sorted(s)[i];
    assert(sorted(s).contains(x));
    assert(sorted(s).to_multiset().count(x) > 0);
    assert(s.to_multiset().count(x) > 0);
}

proof fn lemma_two_with_key<T: Keyed>(s: Seq<T>, i: int, j: int)
    requires
        0 <= i < j < s.len(),
        s[i].key() == s[j].key(),
    ensures
        with_key(s, s[j].key()).len() >= 2,
    decreases s.len(),
{
    let k = s[j].key();
    let t = s.drop_last();
    if j < s.len() - 1 {
        lemma_two_with_key(t, i, j);
    } else {
        lemma_one_with_key(t, i);
    }
}

proof fn lemma_one_with_key<T: Keyed>(s: Seq<T>, i: int)
    requires
        0 <= i < s.len(),
    ensures
        with_key(s, s[i].key()).len() >= 1,
    decreases s.len(),
{
    if i < s.len() - 1 {
        lemma_one_with_key(s.drop_last(), i);
    }
}

proof fn lemma_with_key_apart<T: Keyed>(s: Seq<T>, k: Seq<Seq<int>>)
    requires
        forall|i: int, j: int|
            0 <= i < j < s.len() ==> (#[trigger] s[i]).key() != (#[trigger] s[j]).key(),
    ensures
        with_key(s, k).len() <= 1,
        with_key(s, k).len() == 1 ==> exists|i: int| 0 <= i < s.len() && (#[trigger] s[i]).key() == k,
    decreases s.len(),
{
    if s.len() > 0 {
        let t = s.drop_last();
        assert forall|i: int, j: int| 0 <= i < j < t.len() implies (#[trigger] t[i]).key() != (
        #[trigger] t[j]).key() by {
            assert(s[i].key() != s[j].key());
        }
        lemma_with_key_apart(t, k);
        if with_key(t, k).len() == 1 {
            let i = choose|i: int| 0 <= i < t.len() && (#[trigger] t[i]).key() == k;
            assert(s[i].key() != s[s.len() - 1].key());
            assert(s[i].key() == k);
        } else if s.last().key() == k {
            assert(s[s.len() - 1].key() == k);
        }
    }
}

/// Sorting gives keys that rise, each greater than the one before it, where no two of
/// the things have the same.
pub proof fn distinct_keys_rise<T: Keyed>(s: Seq<T>)
    requires
        forall|i: int, j: int|
            0 <= i < j < s.len() ==> (#[trigger] s[i]).key() != (#[trigger] s[j]).key(),
    ensures
        forall|i: int, j: int|
            0 <= i < j < sorted(s).len() ==> {
                &&& key_le((#[trigger] sorted(s)[i]).key(), (#[trigger] sorted(s)[j]).key())
                &&& sorted(s)[i].key() != sorted(s)[j].key()
            },
{
    let r = sorted(s);
    sorting_orders_and_keeps(s);
    assert forall|i: int, j: int| 0 <= i < j < r.len() implies {
        &&& key_le((#[trigger] r[i]).key(), (#[trigger] r[j]).key())
        &&& r[i].key() != r[j].key()
    } by {
        if r[i].key() == r[j].key() {
            let k = r[j].key();
            lemma_two_with_key(r, i, j);
            sorting_is_stable(s, k);
            lemma_with_key_apart(s, k);
        }
    }
}

} // verus!
