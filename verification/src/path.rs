//! Paths as text: their components, parents, names and how they are joined.

use vstd::prelude::*;
use vstd::string::*;

use crate::order;
use crate::text;

verus! {

broadcast use vstd::string::group_string_axioms;

/// Whether a path starts at the root.
pub open spec fn absolute(p: Seq<char>) -> bool {
    p.len() > 0 && p[0] == '/'
}

/// The component that stands for the root.
pub open spec fn root() -> Seq<char> {
    seq!['/']
}

/// The component that stands for the current directory.
pub open spec fn here() -> Seq<char> {
    seq!['.']
}

/// The component that stands for the parent directory.
pub open spec fn up() -> Seq<char> {
    seq!['.', '.']
}

/// The pieces between separators that name something: empty ones do not, nor
/// does `.` but at the front of a relative path.
pub open spec fn named(pieces: Seq<Seq<char>>, from_root: bool) -> Seq<Seq<char>>
    decreases pieces.len(),
{
    if pieces.len() == 0 {
        Seq::<Seq<char>>::empty()
    } else {
        let init = named(pieces.drop_last(), from_root);
        let last = pieces.last();
        if last.len() == 0 || (last == here() && (from_root || pieces.len() > 1)) {
            init
        } else {
            init.push(last)
        }
    }
}

/// The components of a path, the root first where it starts there.
pub open spec fn components(p: Seq<char>) -> Seq<Seq<char>> {
    let parts = named(text::split(p, '/'), absolute(p));
    if absolute(p) {
        seq![root()] + parts
    } else {
        parts
    }
}

/// The path that the given components make.
pub open spec fn path_text(parts: Seq<Seq<char>>) -> Seq<char> {
    if parts.len() > 0 && parts[0] == root() {
        root() + text::join(parts.skip(1), seq!['/'])
    } else {
        text::join(parts, seq!['/'])
    }
}

/// Whether two paths have the same components.
pub open spec fn same_path(a: Seq<char>, b: Seq<char>) -> bool {
    components(a) == components(b)
}

/// Whether a path lies at or below another, by components.
pub open spec fn under(p: Seq<char>, base: Seq<char>) -> bool {
    parts_under(components(p), components(base))
}

/// Whether components begin with others.
pub open spec fn parts_under(p: Seq<Seq<char>>, base: Seq<Seq<char>>) -> bool {
    base.len() <= p.len() && p.take(base.len() as int) == base
}

/// Whether a component names an entry, rather than the root, the current or
/// the parent directory.
pub open spec fn is_name(part: Seq<char>) -> bool {
    part != root() && part != here() && part != up()
}

/// The last component, where it names an entry.
pub open spec fn name_of(p: Seq<char>) -> Option<Seq<char>> {
    let parts = components(p);
    if parts.len() > 0 && is_name(parts.last()) {
        Some(parts.last())
    } else {
        None
    }
}

/// Where the shortest beginning of a text that has the given components ends, at
/// `from` or after it.
pub open spec fn end_of(p: Seq<char>, parts: Seq<Seq<char>>, from: int) -> int
    decreases p.len() - from,
{
    if from >= p.len() || components(p.take(from)) == parts {
        from
    } else {
        end_of(p, parts, from + 1)
    }
}

/// The path without its last component, as it is written: the shortest beginning of
/// it that has the others. The root and the empty path have none.
pub open spec fn parent_of(p: Seq<char>) -> Option<Seq<char>> {
    let parts = components(p);
    if parts.len() == 0 || (parts.len() == 1 && parts[0] == root()) {
        None
    } else {
        Some(p.take(end_of(p, parts.drop_last(), 0)))
    }
}

proof fn lemma_end_of(p: Seq<char>, parts: Seq<Seq<char>>, from: int, k: int)
    requires
        0 <= from <= k <= p.len(),
        components(p.take(k)) == parts,
    ensures
        from <= end_of(p, parts, from) <= k,
        components(p.take(end_of(p, parts, from))) == parts,
    decreases p.len() - from,
{
    if from >= p.len() {
        assert(p.take(from) == p.take(k));
    } else if components(p.take(from)) != parts {
        lemma_end_of(p, parts, from + 1, k);
    }
}

proof fn lemma_end_in_bounds(p: Seq<char>, parts: Seq<Seq<char>>, from: int)
    requires
        0 <= from <= p.len(),
    ensures
        from <= end_of(p, parts, from) <= p.len(),
    decreases p.len() - from,
{
    if from < p.len() && components(p.take(from)) != parts {
        lemma_end_in_bounds(p, parts, from + 1);
    }
}

/// The empty path has no components.
pub proof fn lemma_empty_has_no_parts()
    ensures
        components(Seq::<char>::empty()) == Seq::<Seq<char>>::empty(),
{
    let pieces = text::split(Seq::<char>::empty(), '/');
    assert(pieces.drop_last() =~= Seq::<Seq<char>>::empty());
    reveal_with_fuel(named, 2);
    assert(components(Seq::<char>::empty()) =~= Seq::<Seq<char>>::empty());
}

/// Every beginning of the components of a path is that of a beginning of its text.
proof fn lemma_beginnings(p: Seq<char>, m: int) -> (k: int)
    requires
        0 <= m <= components(p).len(),
    ensures
        0 <= k <= p.len(),
        components(p.take(k)) == components(p).take(m),
    decreases p.len(),
{
    let n = p.len() as int;
    if m == components(p).len() {
        assert(p.take(n) =~= p);
        assert(components(p).take(m) =~= components(p));
        n
    } else if n == 0 {
        assert(p =~= Seq::<char>::empty());
        lemma_empty_has_no_parts();
        0
    } else if n == 1 && p[0] == '/' {
        assert(p.drop_last() =~= Seq::<char>::empty());
        let pieces = text::split(p, '/');
        assert(pieces =~= seq![Seq::<char>::empty(), Seq::<char>::empty()]) by {
            reveal_with_fuel(text::split, 2);
        }
        assert(pieces.drop_last() =~= seq![Seq::<char>::empty()]);
        assert(pieces.drop_last().drop_last() =~= Seq::<Seq<char>>::empty());
        reveal_with_fuel(named, 3);
        assert(components(p) =~= seq![root()]);
        lemma_empty_has_no_parts();
        assert(p.take(0) =~= Seq::<char>::empty());
        assert(components(p).take(0) =~= Seq::<Seq<char>>::empty());
        0
    } else {
        let q = p.drop_last();
        let from_root = absolute(p);
        assert(absolute(q) == from_root);
        let a = text::split(p, '/');
        let b = text::split(q, '/');
        text::lemma_split_nonempty(q, '/');
        if p.last() == '/' {
            assert(a.drop_last() =~= b);
            assert(components(p) =~= components(q));
        } else {
            assert(a.drop_last() =~= b.drop_last());
            assert(a.len() == b.len());
        }
        assert(m <= components(q).len());
        assert(components(p).take(m) =~= components(q).take(m));
        let k = lemma_beginnings(q, m);
        assert(q.take(k) =~= p.take(k));
        k
    }
}

/// The parent of a path has all of its components but the last.
pub proof fn a_parent_lacks_the_last_part(p: Seq<char>)
    requires
        parent_of(p) is Some,
    ensures
        components(parent_of(p)->0) == components(p).drop_last(),
        parent_of(p)->0.is_prefix_of(p),
{
    let parts = components(p);
    let k = lemma_beginnings(p, parts.len() - 1);
    assert(parts.take(parts.len() - 1) =~= parts.drop_last());
    lemma_end_of(p, parts.drop_last(), 0, k);
}

/// `rest` taken from the directory `base`; an absolute one replaces it.
pub open spec fn joined(base: Seq<char>, rest: Seq<char>) -> Seq<char> {
    if absolute(rest) || base.len() == 0 {
        rest
    } else if base.last() == '/' {
        base + rest
    } else {
        base + seq!['/'] + rest
    }
}

/// A name that is joined to a directory is its last component.
pub proof fn lemma_joined_parts(dir: Seq<char>, name: Seq<char>)
    requires
        dir.len() > 0,
        name.len() > 0,
        name != here(),
        !name.contains('/'),
    ensures
        components(joined(dir, name)) == components(dir).push(name),
{
    assert(name[0] != '/');
    let p = joined(dir, name);
    let from_root = absolute(dir);
    if dir.last() == '/' {
        let d = dir.drop_last();
        assert(dir =~= d.push('/'));
        text::lemma_split_tail(d, name, '/');
        text::lemma_split_tail(d, Seq::<char>::empty(), '/');
        assert(d.push('/') + Seq::<char>::empty() =~= dir);
        let pieces = text::split(d, '/');
        assert(pieces.push(name).drop_last() =~= pieces);
        assert(pieces.push(Seq::<char>::empty()).drop_last() =~= pieces);
        assert(named(text::split(dir, '/'), from_root) == named(pieces, from_root));
        assert(named(text::split(p, '/'), from_root) == named(pieces, from_root).push(name));
    } else {
        assert(p =~= dir.push('/') + name);
        text::lemma_split_tail(dir, name, '/');
        let pieces = text::split(dir, '/');
        assert(pieces.push(name).drop_last() =~= pieces);
    }
    assert(absolute(p) == from_root);
    assert(components(p) =~= components(dir).push(name));
}

/// Whether a path starts at the root.
pub fn is_absolute(p: &str) -> (r: bool)
    ensures
        r == absolute(p@),
{
    let a = text::chars_of(p);
    a.len() > 0 && a[0] == '/'
}

fn is_here(s: &String) -> (r: bool)
    ensures
        r == (s@ == here()),
{
    proof {
        reveal_strlit(".");
        assert("."@ =~= here());
    }
    text::same(s.as_str(), ".")
}

fn is_up(s: &String) -> (r: bool)
    ensures
        r == (s@ == up()),
{
    proof {
        reveal_strlit("..");
        assert(".."@ =~= up());
    }
    text::same(s.as_str(), "..")
}

fn is_root(s: &String) -> (r: bool)
    ensures
        r == (s@ == root()),
{
    proof {
        reveal_strlit("/");
        assert("/"@ =~= root());
    }
    text::same(s.as_str(), "/")
}

/// The components of a path.
pub fn parts_of(p: &str) -> (r: Vec<String>)
    ensures
        text::texts(r@) == components(p@),
{
    let pieces = text::split_on(p, '/');
    let from_root = is_absolute(p);
    let mut out: Vec<String> = Vec::new();
    let ghost all = text::texts(pieces@);
    let ghost head = if from_root {
        seq![root()]
    } else {
        Seq::<Seq<char>>::empty()
    };
    if from_root {
        out.push("/".to_owned());
        proof {
            reveal_strlit("/");
            assert("/"@ =~= root());
        }
    }
    let mut i: usize = 0;
    proof {
        assert(text::texts(out@) =~= head + named(all.take(0), from_root));
    }
    while i < pieces.len()
        invariant
            i <= pieces.len(),
            all == text::texts(pieces@),
            text::texts(out@) == head + named(all.take(i as int), from_root),
        decreases pieces.len() - i,
    {
        let ghost done = text::texts(out@);
        proof {
            assert(all.take(i + 1).drop_last() =~= all.take(i as int));
            assert(all.take(i + 1).last() == pieces@[i as int]@);
        }
        let skip = pieces[i].as_str().is_empty() || (is_here(&pieces[i]) && (from_root || i > 0));
        if !skip {
            out.push(pieces[i].clone());
            proof {
                assert(text::texts(out@) =~= done.push(pieces@[i as int]@));
                assert(text::texts(out@) =~= head + named(all.take(i + 1), from_root));
            }
        }
        i = i + 1;
    }
    proof {
        assert(all.take(all.len() as int) =~= all);
        assert(text::texts(out@) =~= components(p@));
    }
    out
}

/// The path that the given components make.
pub fn from_parts(parts: &Vec<String>) -> (r: String)
    ensures
        r@ == path_text(text::texts(parts@)),
{
    let ghost all = text::texts(parts@);
    if parts.len() > 0 && is_root(&parts[0]) {
        let mut rest: Vec<String> = Vec::new();
        let mut i: usize = 1;
        proof {
            assert(text::texts(rest@) =~= all.subrange(1, 1));
        }
        while i < parts.len()
            invariant
                1 <= i <= parts.len(),
                all == text::texts(parts@),
                text::texts(rest@) == all.subrange(1, i as int),
            decreases parts.len() - i,
        {
            let ghost prior = text::texts(rest@);
            rest.push(parts[i].clone());
            proof {
                assert(text::texts(rest@) =~= prior.push(parts@[i as int]@));
                assert(all[i as int] == parts@[i as int]@);
                assert(text::texts(rest@) =~= all.subrange(1, i + 1));
            }
            i = i + 1;
        }
        proof {
            assert(all.subrange(1, all.len() as int) =~= all.skip(1));
            assert(all[0] == parts@[0]@);
            reveal_strlit("/");
            assert("/"@ =~= root());
            assert("/"@ =~= seq!['/']);
        }
        let tail = text::join_with(&rest, "/");
        "/".to_owned().concat(tail.as_str())
    } else {
        proof {
            if all.len() > 0 {
                assert(all[0] == parts@[0]@);
            }
            reveal_strlit("/");
            assert("/"@ =~= seq!['/']);
        }
        text::join_with(parts, "/")
    }
}

fn same_parts(a: &Vec<String>, b: &Vec<String>, n: usize) -> (r: bool)
    requires
        n <= a.len(),
        n <= b.len(),
    ensures
        r == (text::texts(a@).take(n as int) == text::texts(b@).take(n as int)),
{
    let ghost x = text::texts(a@);
    let ghost y = text::texts(b@);
    let mut i: usize = 0;
    while i < n
        invariant
            i <= n,
            n <= a.len(),
            n <= b.len(),
            x == text::texts(a@),
            y == text::texts(b@),
            forall|k: int| 0 <= k < i ==> x[k] == y[k],
        decreases n - i,
    {
        if !text::same(a[i].as_str(), b[i].as_str()) {
            proof {
                assert(x.take(n as int)[i as int] != y.take(n as int)[i as int]);
            }
            return false;
        }
        i = i + 1;
    }
    proof {
        assert(x.take(n as int) =~= y.take(n as int));
    }
    true
}

/// Whether a path lies at or below another, by components.
pub fn starts_with(p: &str, base: &str) -> (r: bool)
    ensures
        r == under(p@, base@),
{
    let a = parts_of(p);
    let b = parts_of(base);
    proof {
        assert(text::texts(a@).len() == a@.len());
        assert(text::texts(b@).len() == b@.len());
        assert(text::texts(b@).take(b@.len() as int) =~= text::texts(b@));
    }
    b.len() <= a.len() && same_parts(&a, &b, b.len())
}

/// Whether two paths have the same components.
pub fn same(a: &str, b: &str) -> (r: bool)
    ensures
        r == same_path(a@, b@),
{
    let x = parts_of(a);
    let y = parts_of(b);
    proof {
        assert(text::texts(x@).len() == x@.len());
        assert(text::texts(y@).len() == y@.len());
        assert(text::texts(x@).take(x@.len() as int) =~= text::texts(x@));
        assert(text::texts(y@).take(y@.len() as int) =~= text::texts(y@));
    }
    x.len() == y.len() && same_parts(&x, &y, x.len())
}

/// The name of the entry that a path ends in.
pub fn file_name(p: &str) -> (r: Option<String>)
    ensures
        text::opt(r) == name_of(p@),
{
    let parts = parts_of(p);
    let n: usize = parts.len();
    proof {
        assert(text::texts(parts@).len() == n);
        if n > 0 {
            assert(text::texts(parts@).last() == parts@[n - 1]@);
        }
    }
    if n > 0 && !is_root(&parts[n - 1]) && !is_here(&parts[n - 1]) && !is_up(&parts[n - 1]) {
        Some(parts[n - 1].clone())
    } else {
        None
    }
}

fn has_parts(chars: &Vec<char>, end: usize, parts: &Vec<String>) -> (r: bool)
    requires
        end <= chars@.len(),
    ensures
        r == (components(chars@.take(end as int)) == text::texts(parts@)),
{
    let front = text::slice(chars, 0, end);
    let own = parts_of(front.as_str());
    proof {
        assert(front@ =~= chars@.take(end as int));
        assert(text::texts(own@).len() == own@.len());
        assert(text::texts(parts@).len() == parts@.len());
        assert(text::texts(own@).take(own@.len() as int) =~= text::texts(own@));
        assert(text::texts(parts@).take(parts@.len() as int) =~= text::texts(parts@));
    }
    own.len() == parts.len() && same_parts(&own, parts, parts.len())
}

fn find_end(chars: &Vec<char>, parts: &Vec<String>) -> (r: usize)
    ensures
        r == end_of(chars@, text::texts(parts@), 0),
        r <= chars@.len(),
{
    let mut k: usize = 0;
    while k < chars.len() && !has_parts(chars, k, parts)
        invariant
            k <= chars@.len(),
            end_of(chars@, text::texts(parts@), 0) == end_of(
                chars@,
                text::texts(parts@),
                k as int,
            ),
        decreases chars@.len() - k,
    {
        k = k + 1;
    }
    k
}

/// The path without its last component.
pub fn parent(p: &str) -> (r: Option<String>)
    ensures
        text::opt(r) == parent_of(p@),
{
    let mut parts = parts_of(p);
    let n: usize = parts.len();
    proof {
        assert(text::texts(parts@).len() == n);
        if n > 0 {
            assert(text::texts(parts@)[0] == parts@[0]@);
        }
        lemma_end_in_bounds(p@, components(p@).drop_last(), 0);
    }
    if n == 0 || (n == 1 && is_root(&parts[0])) {
        None
    } else {
        let ghost all = text::texts(parts@);
        parts.truncate(n - 1);
        proof {
            assert(text::texts(parts@) =~= all.drop_last());
        }
        let chars = text::chars_of(p);
        let end = find_end(&chars, &parts);
        Some(text::slice(&chars, 0, end))
    }
}

/// A path taken from a directory.
pub fn join(base: &str, rest: &str) -> (r: String)
    ensures
        r@ == joined(base@, rest@),
{
    let a = text::chars_of(base);
    if is_absolute(rest) || a.len() == 0 {
        rest.to_owned()
    } else if a[a.len() - 1] == '/' {
        base.to_owned().concat(rest)
    } else {
        proof {
            reveal_strlit("/");
            assert("/"@ =~= seq!['/']);
        }
        base.to_owned().concat("/").concat(rest)
    }
}

/// The position of the last `c`, or none.
pub open spec fn last_of(s: Seq<char>, c: char) -> Option<int>
    decreases s.len(),
{
    if s.len() == 0 {
        None
    } else if s.last() == c {
        Some(s.len() - 1)
    } else {
        last_of(s.drop_last(), c)
    }
}

/// The stem and the extension of an entry's name: they part at the last dot,
/// and a dot at the front parts nothing.
pub open spec fn stem_and_extension(name: Seq<char>) -> (Seq<char>, Option<Seq<char>>) {
    match last_of(name, '.') {
        Some(i) if i > 0 => (name.take(i), Some(name.skip(i + 1))),
        _ => (name, None),
    }
}

/// `last_of` points at an occurrence.
pub proof fn lemma_last_of(s: Seq<char>, c: char)
    ensures
        last_of(s, c) matches Some(i) ==> 0 <= i < s.len() && s[i] == c,
    decreases s.len(),
{
    if s.len() > 0 && s.last() != c {
        lemma_last_of(s.drop_last(), c);
    }
}

/// The stem and the extension of an entry's name.
pub fn split_name(name: &str) -> (r: (String, Option<String>))
    ensures
        (r.0@, text::opt(r.1)) == stem_and_extension(name@),
{
    let a = text::chars_of(name);
    let mut i: usize = a.len();
    proof {
        assert(a@.take(i as int) =~= name@);
        lemma_last_of(name@, '.');
    }
    while i > 0 && a[i - 1] != '.'
        invariant
            i <= a.len(),
            a@ == name@,
            last_of(name@, '.') == last_of(a@.take(i as int), '.'),
        decreases i,
    {
        proof {
            assert(a@.take(i as int).drop_last() =~= a@.take(i - 1));
        }
        i = i - 1;
    }
    if i > 1 {
        proof {
            assert(a@.subrange(0, i - 1) =~= name@.take(i - 1));
            assert(a@.subrange(i as int, a@.len() as int) =~= name@.skip(i as int));
        }
        (text::slice(&a, 0, i - 1), Some(text::slice(&a, i, a.len())))
    } else {
        (name.to_owned(), None)
    }
}

/// How a component is sorted: the root before the current directory, that before
/// the parent, and names after them all, by their characters.
pub open spec fn component_rank(part: Seq<char>) -> Seq<int> {
    if part == root() {
        seq![0int]
    } else if part == here() {
        seq![1int]
    } else if part == up() {
        seq![2int]
    } else {
        seq![3int] + order::ranks(part)
    }
}

/// The components of a path as a key to sort by.
pub open spec fn path_key(p: Seq<char>) -> Seq<Seq<int>> {
    components(p).map_values(|part: Seq<char>| component_rank(part))
}

/// Only paths with the same components are sorted alike.
pub proof fn lemma_keys_tell_apart(a: Seq<char>, b: Seq<char>)
    requires
        path_key(a) == path_key(b),
    ensures
        same_path(a, b),
{
    let x = components(a);
    let y = components(b);
    assert(path_key(a).len() == x.len());
    assert(path_key(b).len() == y.len());
    assert forall|i: int| 0 <= i < x.len() implies x[i] == y[i] by {
        let p = component_rank(x[i]);
        let q = component_rank(y[i]);
        assert(path_key(a)[i] == p);
        assert(path_key(b)[i] == q);
        assert(p[0] == q[0]);
        if p[0] == 3 {
            assert(order::ranks(x[i]) =~= p.skip(1));
            assert(order::ranks(y[i]) =~= q.skip(1));
            order::lemma_ranks_injective(x[i], y[i]);
        }
    }
    assert(x =~= y);
}

fn component_part(part: &String) -> (r: Vec<u64>)
    ensures
        order::part_view(r@) == component_rank(part@),
{
    if is_root(part) {
        order::number_part(0)
    } else if is_here(part) {
        order::number_part(1)
    } else if is_up(part) {
        order::number_part(2)
    } else {
        let mut out = order::number_part(3);
        let ghost first = order::part_view(out@);
        let mut rest = order::text_part(part.as_str());
        let ghost more = order::part_view(rest@);
        out.append(&mut rest);
        proof {
            assert(order::part_view(out@) =~= first + more);
        }
        out
    }
}

/// The components of a path as a key to sort by.
pub fn key_of(p: &str) -> (r: Vec<Vec<u64>>)
    ensures
        order::key_view(r@) == path_key(p@),
{
    let parts = parts_of(p);
    let ghost all = text::texts(parts@);
    let mut out: Vec<Vec<u64>> = Vec::new();
    let mut i: usize = 0;
    while i < parts.len()
        invariant
            i <= parts.len(),
            all == text::texts(parts@),
            order::key_view(out@) == all.take(i as int).map_values(
                |part: Seq<char>| component_rank(part),
            ),
        decreases parts.len() - i,
    {
        let ghost prior = order::key_view(out@);
        out.push(component_part(&parts[i]));
        proof {
            assert(all[i as int] == parts@[i as int]@);
            assert(order::key_view(out@) =~= prior.push(component_rank(all[i as int])));
            assert(order::key_view(out@) =~= all.take(i + 1).map_values(
                |part: Seq<char>| component_rank(part),
            ));
        }
        i = i + 1;
    }
    proof {
        assert(all.take(all.len() as int) =~= all);
    }
    out
}

/// A text without the separators that lead it, nor the dots that name no directory.
pub open spec fn led_by_name(t: Seq<char>) -> Seq<char>
    decreases t.len(),
{
    if t.len() > 0 && (t[0] == '/' || (t[0] == '.' && (t.len() == 1 || t[1] == '/'))) {
        led_by_name(t.skip(1))
    } else {
        t
    }
}

/// What lies below a directory, as a path from there, as it is written; none of what
/// does not. It begins behind the components of the directory and ends with the last
/// of the path.
pub open spec fn below(p: Seq<char>, base: Seq<char>) -> Option<Seq<char>> {
    if under(p, base) {
        let end = end_of(p, components(p), 0);
        let start = end_of(p, components(base), 0);
        if components(base).len() == 0 {
            Some(p.take(end))
        } else {
            Some(led_by_name(p.subrange(start, end)))
        }
    } else {
        None
    }
}

proof fn lemma_ends_in_order(p: Seq<char>, parts: Seq<Seq<char>>)
    requires
        parts_under(components(p), parts),
    ensures
        0 <= end_of(p, parts, 0) <= end_of(p, components(p), 0) <= p.len(),
{
    let n = p.len() as int;
    assert(p.take(n) =~= p);
    lemma_end_of(p, components(p), 0, n);
    let q = p.take(end_of(p, components(p), 0));
    let k = lemma_beginnings(q, parts.len() as int);
    assert(q.take(k) =~= p.take(k));
    lemma_end_of(p, parts, 0, k);
}

fn name_first(chars: &Vec<char>, start: usize, end: usize) -> (r: String)
    requires
        start <= end <= chars@.len(),
    ensures
        r@ == led_by_name(chars@.subrange(start as int, end as int)),
{
    let mut i: usize = start;
    while i < end && (chars[i] == '/' || (chars[i] == '.' && (i == end - 1 || chars[i + 1] == '/')))
        invariant
            start <= i <= end <= chars@.len(),
            led_by_name(chars@.subrange(start as int, end as int)) == led_by_name(
                chars@.subrange(i as int, end as int),
            ),
        decreases end - i,
    {
        proof {
            assert(chars@.subrange(i as int, end as int).skip(1) =~= chars@.subrange(
                i + 1,
                end as int,
            ));
        }
        i = i + 1;
    }
    text::slice(chars, i, end)
}

/// A path as one from a directory above it.
pub fn strip_base(p: &str, base: &str) -> (r: Option<String>)
    ensures
        text::opt(r) == below(p@, base@),
{
    if !starts_with(p, base) {
        return None;
    }
    let parts = parts_of(p);
    let above = parts_of(base);
    let chars = text::chars_of(p);
    let end = find_end(&chars, &parts);
    proof {
        assert(text::texts(above@).len() == above@.len());
    }
    if above.len() == 0 {
        proof {
            assert(chars@.subrange(0, end as int) =~= p@.take(end as int));
        }
        return Some(text::slice(&chars, 0, end));
    }
    let start = find_end(&chars, &above);
    proof {
        lemma_ends_in_order(p@, components(base@));
    }
    Some(name_first(&chars, start, end))
}

} // verus!
