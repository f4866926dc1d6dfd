//! Text as sequences of characters: splitting, trimming, joining, numbers and
//! the order in which strings are sorted.

use vstd::prelude::*;
use vstd::string::*;
use vstd::utf8::*;

verus! {

broadcast use vstd::string::group_string_axioms;

/// `String::push` appends the given character to the end of the string.
pub assume_specification[ String::push ](s: &mut String, c: char)
    ensures
        final(s)@ == old(s)@.push(c),
;

/// What an optional string holds.
pub open spec fn opt(value: Option<String>) -> Option<Seq<char>> {
    match value {
        Some(s) => Some(s@),
        None => None,
    }
}

/// What a list of strings holds.
pub open spec fn texts(values: Seq<String>) -> Seq<Seq<char>> {
    values.map_values(|s: String| s@)
}

/// What a list of key and value pairs holds.
pub open spec fn pairs(values: Seq<(String, String)>) -> Seq<(Seq<char>, Seq<char>)> {
    values.map_values(|p: (String, String)| (p.0@, p.1@))
}

/// The characters of a string, in order.
pub fn chars_of(s: &str) -> (r: Vec<char>)
    ensures
        r@ == s@,
{
    let mut out: Vec<char> = Vec::new();
    for c in it: s.chars()
        invariant
            it.seq() == s@,
            out@ == s@.take(it.index() as int),
    {
        proof {
            assert(s@.take(it.index() + 1) =~= s@.take(it.index() as int).push(s@[it.index() as int]));
        }
        out.push(c);
    }
    proof {
        assert(s@.take(s@.len() as int) =~= s@);
    }
    out
}

/// The string made of the given characters.
pub fn string_of(chars: &Vec<char>) -> (r: String)
    ensures
        r@ == chars@,
{
    let mut out = String::new();
    let mut i: usize = 0;
    while i < chars.len()
        invariant
            i <= chars.len(),
            out@ == chars@.take(i as int),
        decreases chars.len() - i,
    {
        proof {
            assert(chars@.take(i + 1) =~= chars@.take(i as int).push(chars@[i as int]));
        }
        out.push(chars[i]);
        i = i + 1;
    }
    proof {
        assert(chars@.take(chars@.len() as int) =~= chars@);
    }
    out
}

/// Whether two byte sequences are the same.
pub fn same_bytes(a: &[u8], b: &[u8]) -> (r: bool)
    ensures
        r == (a@ == b@),
{
    if a.len() != b.len() {
        return false;
    }
    let mut i: usize = 0;
    while i < a.len()
        invariant
            i <= a.len(),
            a.len() == b.len(),
            forall|k: int| 0 <= k < i ==> a@[k] == b@[k],
        decreases a.len() - i,
    {
        if a[i] != b[i] {
            proof {
                assert(a@[i as int] != b@[i as int]);
            }
            return false;
        }
        i = i + 1;
    }
    proof {
        assert(a@ =~= b@);
    }
    true
}

/// Whether two strings hold the same characters.
pub fn same(a: &str, b: &str) -> (r: bool)
    ensures
        r == (a@ == b@),
{
    let r = same_bytes(a.as_bytes(), b.as_bytes());
    proof {
        encode_utf8_decode_utf8(a@);
        encode_utf8_decode_utf8(b@);
    }
    r
}

/// Whether a text is one of some.
pub fn listed(list: &Vec<String>, s: &str) -> (r: bool)
    ensures
        r == texts(list@).contains(s@),
{
    let ghost all = texts(list@);
    let mut i: usize = 0;
    while i < list.len()
        invariant
            i <= list.len(),
            all == texts(list@),
            forall|k: int| 0 <= k < i ==> #[trigger] all[k] != s@,
        decreases list.len() - i,
    {
        if same(list[i].as_str(), s) {
            proof {
                assert(all[i as int] == s@);
            }
            return true;
        }
        i = i + 1;
    }
    false
}

/// Whether two texts that may be missing are the same, or both missing.
pub fn same_option(a: &Option<String>, b: &Option<String>) -> (r: bool)
    ensures
        r == (opt(*a) == opt(*b)),
{
    match (a, b) {
        (Some(x), Some(y)) => same(x.as_str(), y.as_str()),
        (None, None) => true,
        _ => false,
    }
}

/// Whether a text that may be missing is the given one.
pub fn is_some_text(a: &Option<String>, b: &str) -> (r: bool)
    ensures
        r == (opt(*a) == Some(b@)),
{
    match a {
        Some(s) => same(s.as_str(), b),
        None => false,
    }
}

/// A copy of a string.
pub fn owned(s: &str) -> (r: String)
    ensures
        r@ == s@,
{
    s.to_owned()
}

// ---------------------------------------------------------------------------
// Pieces of a string
// ---------------------------------------------------------------------------

/// The part of a string between two character positions.
pub fn slice(chars: &Vec<char>, from: usize, to: usize) -> (r: String)
    requires
        from <= to <= chars.len(),
    ensures
        r@ == chars@.subrange(from as int, to as int),
{
    let mut out = String::new();
    let mut i: usize = from;
    while i < to
        invariant
            from <= i <= to <= chars.len(),
            out@ == chars@.subrange(from as int, i as int),
        decreases to - i,
    {
        proof {
            assert(chars@.subrange(from as int, i + 1) =~= chars@.subrange(
                from as int,
                i as int,
            ).push(chars@[i as int]));
        }
        out.push(chars[i]);
        i = i + 1;
    }
    out
}

/// Whether `s` begins with `prefix`.
pub open spec fn starts(s: Seq<char>, prefix: Seq<char>) -> bool {
    prefix.len() <= s.len() && s.take(prefix.len() as int) == prefix
}

/// Whether `s` ends with `suffix`.
pub open spec fn ends(s: Seq<char>, suffix: Seq<char>) -> bool {
    suffix.len() <= s.len() && s.skip(s.len() - suffix.len()) == suffix
}

/// What follows `prefix` in `s`, where `s` begins with it.
pub open spec fn after(s: Seq<char>, prefix: Seq<char>) -> Option<Seq<char>> {
    if starts(s, prefix) {
        Some(s.skip(prefix.len() as int))
    } else {
        None
    }
}

/// What precedes `suffix` in `s`, where `s` ends with it.
pub open spec fn before(s: Seq<char>, suffix: Seq<char>) -> Option<Seq<char>> {
    if ends(s, suffix) {
        Some(s.take(s.len() - suffix.len()))
    } else {
        None
    }
}

fn matches_at(chars: &Vec<char>, at: usize, part: &Vec<char>) -> (r: bool)
    requires
        at + part.len() <= chars.len(),
    ensures
        r == (chars@.subrange(at as int, at + part.len()) == part@),
{
    let mut i: usize = 0;
    while i < part.len()
        invariant
            i <= part.len(),
            at + part.len() <= chars.len(),
            forall|k: int| 0 <= k < i ==> chars@[at + k] == part@[k],
        decreases part.len() - i,
    {
        if chars[at + i] != part[i] {
            proof {
                assert(chars@.subrange(at as int, at + part.len())[i as int] != part@[i as int]);
            }
            return false;
        }
        i = i + 1;
    }
    proof {
        assert(chars@.subrange(at as int, at + part.len()) =~= part@);
    }
    true
}

/// Whether a string begins with the given prefix.
pub fn starts_with(s: &str, prefix: &str) -> (r: bool)
    ensures
        r == starts(s@, prefix@),
{
    let a = chars_of(s);
    let b = chars_of(prefix);
    proof {
        if b@.len() <= a@.len() {
            assert(a@.subrange(0, b@.len() as int) =~= a@.take(b@.len() as int));
        }
    }
    b.len() <= a.len() && matches_at(&a, 0, &b)
}

/// Whether a string ends with the given suffix.
pub fn ends_with(s: &str, suffix: &str) -> (r: bool)
    ensures
        r == ends(s@, suffix@),
{
    let a = chars_of(s);
    let b = chars_of(suffix);
    proof {
        if b@.len() <= a@.len() {
            assert(a@.subrange(a@.len() - b@.len(), a@.len() as int) =~= a@.skip(
                a@.len() - b@.len(),
            ));
        }
    }
    b.len() <= a.len() && matches_at(&a, a.len() - b.len(), &b)
}

/// The rest of a string after a prefix that it begins with.
pub fn strip_prefix(s: &str, prefix: &str) -> (r: Option<String>)
    ensures
        opt(r) == after(s@, prefix@),
{
    if starts_with(s, prefix) {
        let a = chars_of(s);
        let n: usize = prefix.unicode_len();
        proof {
            assert(a@.subrange(n as int, a@.len() as int) =~= s@.skip(prefix@.len() as int));
        }
        Some(slice(&a, n, a.len()))
    } else {
        None
    }
}

/// The part of a string before a suffix that it ends with.
pub fn strip_suffix(s: &str, suffix: &str) -> (r: Option<String>)
    ensures
        opt(r) == before(s@, suffix@),
{
    if ends_with(s, suffix) {
        let a = chars_of(s);
        let n: usize = suffix.unicode_len();
        proof {
            assert(a@.subrange(0, a@.len() - n) =~= s@.take(s@.len() - suffix@.len()));
        }
        Some(slice(&a, 0, a.len() - n))
    } else {
        None
    }
}

/// Whether `part` occurs somewhere in `s`.
pub open spec fn occurs(s: Seq<char>, part: Seq<char>) -> bool {
    exists|i: int| occurs_at(s, part, i)
}

/// Whether `part` stands in `s` from position `i` on.
pub open spec fn occurs_at(s: Seq<char>, part: Seq<char>, i: int) -> bool {
    0 <= i && i + part.len() <= s.len() && s.subrange(i, i + part.len()) == part
}

/// Whether a string holds the given part.
pub fn contains(s: &str, part: &str) -> (r: bool)
    ensures
        r == occurs(s@, part@),
{
    let a = chars_of(s);
    let b = chars_of(part);
    if b.len() > a.len() {
        return false;
    }
    let last: usize = a.len() - b.len();
    let mut i: usize = 0;
    loop
        invariant
            a@ == s@,
            b@ == part@,
            b.len() <= a.len(),
            last == a.len() - b.len(),
            i <= last,
            forall|k: int| 0 <= k < i ==> !occurs_at(s@, part@, k),
        decreases last - i,
    {
        if matches_at(&a, i, &b) {
            proof {
                assert(occurs_at(s@, part@, i as int));
            }
            return true;
        }
        if i == last {
            return false;
        }
        i = i + 1;
    }
}

/// The position of the first character equal to `c` at or after `from`, or the
/// length of the sequence where there is none.
pub open spec fn find_from(s: Seq<char>, c: char, from: int) -> int
    decreases s.len() - from,
{
    if from >= s.len() {
        s.len() as int
    } else if s[from] == c {
        from
    } else {
        find_from(s, c, from + 1)
    }
}

/// The position of the first `c`, or the length where there is none.
pub open spec fn find(s: Seq<char>, c: char) -> int {
    find_from(s, c, 0)
}

/// `find` points at the first occurrence.
pub proof fn lemma_find_from(s: Seq<char>, c: char, from: int)
    requires
        0 <= from <= s.len(),
    ensures
        from <= find_from(s, c, from) <= s.len(),
        find_from(s, c, from) < s.len() ==> s[find_from(s, c, from)] == c,
        forall|k: int| from <= k < find_from(s, c, from) ==> s[k] != c,
    decreases s.len() - from,
{
    if from < s.len() && s[from] != c {
        lemma_find_from(s, c, from + 1);
    }
}

/// The first position of a character, or the length where it does not occur.
pub fn find_char(chars: &Vec<char>, c: char, from: usize) -> (r: usize)
    requires
        from <= chars.len(),
    ensures
        r == find_from(chars@, c, from as int),
        from <= r <= chars.len(),
{
    proof {
        lemma_find_from(chars@, c, from as int);
    }
    let mut i: usize = from;
    while i < chars.len()
        invariant
            from <= i <= chars.len(),
            find_from(chars@, c, from as int) == find_from(chars@, c, i as int),
        decreases chars.len() - i,
    {
        if chars[i] == c {
            return i;
        }
        i = i + 1;
    }
    i
}

/// The two parts around the first `c`, where it occurs.
pub open spec fn cut(s: Seq<char>, c: char) -> Option<(Seq<char>, Seq<char>)> {
    if find(s, c) < s.len() {
        Some((s.take(find(s, c)), s.skip(find(s, c) + 1)))
    } else {
        None
    }
}

/// The parts of a string around the first occurrence of a character.
pub fn split_once(s: &str, c: char) -> (r: Option<(String, String)>)
    ensures
        r is Some == (cut(s@, c) is Some),
        r matches Some(p) ==> (p.0@, p.1@) == cut(s@, c)->0,
{
    let a = chars_of(s);
    let i: usize = find_char(&a, c, 0);
    if i < a.len() {
        proof {
            assert(a@.subrange(0, i as int) =~= s@.take(i as int));
            assert(a@.subrange(i + 1, a@.len() as int) =~= s@.skip(i + 1));
        }
        Some((slice(&a, 0, i), slice(&a, i + 1, a.len())))
    } else {
        None
    }
}

/// The pieces of `s` between the characters equal to `c`.
pub open spec fn split(s: Seq<char>, c: char) -> Seq<Seq<char>>
    decreases s.len(),
{
    if s.len() == 0 {
        seq![Seq::<char>::empty()]
    } else {
        let init = split(s.drop_last(), c);
        if s.last() == c {
            init.push(Seq::<char>::empty())
        } else {
            init.drop_last().push(init.last().push(s.last()))
        }
    }
}

/// What follows the last separator is the last piece.
pub proof fn lemma_split_tail(s: Seq<char>, tail: Seq<char>, c: char)
    requires
        !tail.contains(c),
    ensures
        split(s.push(c) + tail, c) == split(s, c).push(tail),
    decreases tail.len(),
{
    let all = s.push(c) + tail;
    if tail.len() == 0 {
        assert(all =~= s.push(c));
        assert(all.drop_last() =~= s);
        assert(tail =~= Seq::<char>::empty());
    } else {
        let t = tail.drop_last();
        assert(tail[tail.len() - 1] != c);
        assert(!t.contains(c)) by {
            if t.contains(c) {
                let i = choose|i: int| 0 <= i < t.len() && t[i] == c;
                assert(tail[i] == c);
            }
        }
        lemma_split_tail(s, t, c);
        assert(all.drop_last() =~= s.push(c) + t);
        assert(split(s, c).push(t).drop_last() =~= split(s, c));
        assert(t.push(tail.last()) =~= tail);
    }
}

/// There is always at least one piece.
pub proof fn lemma_split_nonempty(s: Seq<char>, c: char)
    ensures
        split(s, c).len() >= 1,
    decreases s.len(),
{
    if s.len() > 0 {
        lemma_split_nonempty(s.drop_last(), c);
    }
}

/// The pieces of a string between the given separator.
pub fn split_on(s: &str, c: char) -> (r: Vec<String>)
    ensures
        texts(r@) == split(s@, c),
        r@.len() >= 1,
{
    let a = chars_of(s);
    let mut out: Vec<String> = Vec::new();
    let mut current = String::new();
    let mut i: usize = 0;
    proof {
        assert(a@.take(0) =~= Seq::<char>::empty());
        assert(texts(out@).push(current@) =~= split(a@.take(0), c));
    }
    while i < a.len()
        invariant
            i <= a.len(),
            a@ == s@,
            texts(out@).push(current@) == split(a@.take(i as int), c),
        decreases a.len() - i,
    {
        let ghost prior = a@.take(i as int);
        let ghost done = texts(out@);
        proof {
            assert(a@.take(i + 1).drop_last() =~= prior);
            assert(a@.take(i + 1).last() == a@[i as int]);
            assert(done.push(current@).drop_last() =~= done);
        }
        if a[i] == c {
            out.push(current);
            current = String::new();
            proof {
                assert(texts(out@) =~= split(prior, c));
            }
        } else {
            current.push(a[i]);
        }
        i = i + 1;
        proof {
            assert(texts(out@).push(current@) =~= split(a@.take(i as int), c));
        }
    }
    proof {
        assert(a@.take(a@.len() as int) =~= a@);
    }
    let ghost done = texts(out@);
    let ghost last = current@;
    out.push(current);
    proof {
        assert(texts(out@) =~= done.push(last));
    }
    out
}

/// The pieces joined with `sep` between them.
pub open spec fn join(parts: Seq<Seq<char>>, sep: Seq<char>) -> Seq<char>
    decreases parts.len(),
{
    if parts.len() == 0 {
        Seq::<char>::empty()
    } else if parts.len() == 1 {
        parts[0]
    } else {
        join(parts.drop_last(), sep) + sep + parts.last()
    }
}

/// The strings joined with a separator between them.
pub fn join_with(parts: &Vec<String>, sep: &str) -> (r: String)
    ensures
        r@ == join(texts(parts@), sep@),
{
    let mut out = String::new();
    let mut i: usize = 0;
    while i < parts.len()
        invariant
            i <= parts.len(),
            out@ == join(texts(parts@).take(i as int), sep@),
        decreases parts.len() - i,
    {
        let ghost prior = texts(parts@).take(i as int);
        let ghost next = texts(parts@).take(i + 1);
        proof {
            assert(next.drop_last() =~= prior);
            assert(next.last() == parts@[i as int]@);
        }
        if i > 0 {
            out.append(sep);
        }
        out.append(parts[i].as_str());
        proof {
            if i == 0 {
                assert(next.len() == 1 && next[0] == parts@[0]@);
                assert(out@ =~= next[0]);
            }
        }
        i = i + 1;
    }
    proof {
        assert(texts(parts@).take(parts@.len() as int) =~= texts(parts@));
    }
    out
}

/// Splitting a string and joining its pieces with the separator gives the
/// string back.
pub proof fn split_then_join(s: Seq<char>, c: char)
    ensures
        join(split(s, c), seq![c]) == s,
    decreases s.len(),
{
    if s.len() > 0 {
        let t = s.drop_last();
        let init = split(t, c);
        split_then_join(t, c);
        lemma_split_nonempty(t, c);
        if s.last() == c {
            assert(init.push(Seq::<char>::empty()).drop_last() =~= init);
            assert(join(split(s, c), seq![c]) =~= t + seq![c]);
            assert(t + seq![c] =~= s);
        } else {
            let grown = init.drop_last().push(init.last().push(s.last()));
            assert(grown.drop_last() =~= init.drop_last());
            if init.len() == 1 {
                assert(init.last() == t);
                assert(grown[0] =~= s);
            } else {
                assert(join(grown, seq![c]) =~= join(init, seq![c]).push(s.last()));
                assert(t.push(s.last()) =~= s);
            }
        }
    } else {
        assert(split(s, c)[0] =~= s);
    }
}

// ---------------------------------------------------------------------------
// White space, lines and words
// ---------------------------------------------------------------------------

/// The characters with the Unicode property `White_Space`.
pub open spec fn is_space(c: char) -> bool {
    let n = c as u32;
    ||| 0x9 <= n <= 0xd
    ||| n == 0x20
    ||| n == 0x85
    ||| n == 0xa0
    ||| n == 0x1680
    ||| 0x2000 <= n <= 0x200a
    ||| n == 0x2028
    ||| n == 0x2029
    ||| n == 0x202f
    ||| n == 0x205f
    ||| n == 0x3000
}

/// Whether a character is white space.
pub fn space(c: char) -> (r: bool)
    ensures
        r == is_space(c),
{
    let n: u32 = c as u32;
    (0x9 <= n && n <= 0xd) || n == 0x20 || n == 0x85 || n == 0xa0 || n == 0x1680 || (0x2000 <= n
        && n <= 0x200a) || n == 0x2028 || n == 0x2029 || n == 0x202f || n == 0x205f || n == 0x3000
}

/// `s` without the white space at its start.
pub open spec fn trim_start(s: Seq<char>) -> Seq<char>
    decreases s.len(),
{
    if s.len() > 0 && is_space(s[0]) {
        trim_start(s.skip(1))
    } else {
        s
    }
}

/// `s` without the white space at its end.
pub open spec fn trim_end(s: Seq<char>) -> Seq<char>
    decreases s.len(),
{
    if s.len() > 0 && is_space(s.last()) {
        trim_end(s.drop_last())
    } else {
        s
    }
}

/// `s` without the white space at either end.
pub open spec fn trim(s: Seq<char>) -> Seq<char> {
    trim_end(trim_start(s))
}

/// The string without the white space at its end.
pub fn trimmed_end(s: &str) -> (r: String)
    ensures
        r@ == trim_end(s@),
{
    let a = chars_of(s);
    let mut n: usize = a.len();
    proof {
        assert(a@.take(n as int) =~= s@);
    }
    while n > 0 && space(a[n - 1])
        invariant
            n <= a.len(),
            a@ == s@,
            trim_end(a@.take(n as int)) == trim_end(s@),
        decreases n,
    {
        proof {
            assert(a@.take(n as int).drop_last() =~= a@.take(n - 1));
        }
        n = n - 1;
    }
    proof {
        assert(a@.subrange(0, n as int) =~= a@.take(n as int));
    }
    slice(&a, 0, n)
}

/// The string without the white space at its start.
pub fn trimmed_start(s: &str) -> (r: String)
    ensures
        r@ == trim_start(s@),
{
    let a = chars_of(s);
    let mut i: usize = 0;
    proof {
        assert(a@.skip(0) =~= s@);
    }
    while i < a.len() && space(a[i])
        invariant
            i <= a.len(),
            a@ == s@,
            trim_start(a@.skip(i as int)) == trim_start(s@),
        decreases a.len() - i,
    {
        proof {
            assert(a@.skip(i as int).skip(1) =~= a@.skip(i + 1));
        }
        i = i + 1;
    }
    proof {
        assert(a@.subrange(i as int, a@.len() as int) =~= a@.skip(i as int));
    }
    slice(&a, i, a.len())
}

/// The string without the white space at either end.
pub fn trimmed(s: &str) -> (r: String)
    ensures
        r@ == trim(s@),
{
    let t = trimmed_start(s);
    trimmed_end(t.as_str())
}

/// A line without the carriage return at its end.
pub open spec fn without_cr(line: Seq<char>) -> Seq<char> {
    if line.len() > 0 && line.last() == '\r' {
        line.drop_last()
    } else {
        line
    }
}

/// The lines of a text: each ends at a line feed, a carriage return right before
/// that is no part of the line, and what follows the last line feed is a line as
/// it stands, unless it is empty.
pub open spec fn lines(s: Seq<char>) -> Seq<Seq<char>> {
    let parts = split(s, '\n');
    let ended = parts.drop_last().map_values(|line: Seq<char>| without_cr(line));
    if parts.last().len() == 0 {
        ended
    } else {
        ended.push(parts.last())
    }
}

/// The lines of a text.
pub fn lines_of(s: &str) -> (r: Vec<String>)
    ensures
        texts(r@) == lines(s@),
{
    let parts = split_on(s, '\n');
    let ghost all = texts(parts@);
    let n: usize = parts.len();
    let mut out: Vec<String> = Vec::new();
    let mut i: usize = 0;
    while i < n - 1
        invariant
            i < n,
            n == parts.len(),
            texts(parts@) == all,
            texts(out@) == all.take(i as int).map_values(|line: Seq<char>| without_cr(line)),
        decreases n - i,
    {
        let a = chars_of(parts[i].as_str());
        let m: usize = a.len();
        let line = if m > 0 && a[m - 1] == '\r' {
            proof {
                assert(a@.subrange(0, m - 1) =~= a@.drop_last());
            }
            slice(&a, 0, m - 1)
        } else {
            string_of(&a)
        };
        let ghost prior = texts(out@);
        out.push(line);
        proof {
            assert(all[i as int] == parts@[i as int]@);
            assert(line@ == without_cr(all[i as int]));
            assert(texts(out@) =~= prior.push(line@));
            assert(texts(out@) =~= all.take(i + 1).map_values(
                |line: Seq<char>| without_cr(line),
            ));
        }
        i = i + 1;
    }
    proof {
        assert(all.last() == parts@[n - 1]@);
        assert(all.take(n - 1) =~= all.drop_last());
    }
    if !parts[n - 1].as_str().is_empty() {
        let ghost prior = texts(out@);
        out.push(parts[n - 1].clone());
        proof {
            assert(texts(out@) =~= prior.push(all.last()));
        }
    }
    out
}

/// The words of a text: the non-empty runs without white space.
pub open spec fn words(s: Seq<char>) -> Seq<Seq<char>>
    decreases s.len(),
{
    if s.len() == 0 {
        Seq::<Seq<char>>::empty()
    } else if is_space(s.last()) {
        words(s.drop_last())
    } else if s.len() == 1 || is_space(s[s.len() - 2]) {
        words(s.drop_last()).push(seq![s.last()])
    } else {
        let init = words(s.drop_last());
        init.drop_last().push(init.last().push(s.last()))
    }
}

/// A text that ends in a visible character has a last word.
pub proof fn lemma_words_nonempty(s: Seq<char>)
    requires
        s.len() > 0,
        !is_space(s.last()),
    ensures
        words(s).len() > 0,
    decreases s.len(),
{
}

/// The words of a text.
pub fn words_of(s: &str) -> (r: Vec<String>)
    ensures
        texts(r@) == words(s@),
{
    let a = chars_of(s);
    let mut out: Vec<String> = Vec::new();
    let mut current = String::new();
    let mut open = false;
    let mut i: usize = 0;
    proof {
        assert(a@.take(0) =~= Seq::<char>::empty());
        assert(texts(out@) =~= words(a@.take(0)));
    }
    while i < a.len()
        invariant
            i <= a.len(),
            a@ == s@,
            open == (i > 0 && !is_space(a@[i - 1])),
            open ==> words(a@.take(i as int)) == texts(out@).push(current@),
            !open ==> words(a@.take(i as int)) == texts(out@) && current@.len() == 0,
        decreases a.len() - i,
    {
        let ghost prior = a@.take(i as int);
        let ghost next = a@.take(i + 1);
        let ghost done = texts(out@);
        proof {
            assert(next.drop_last() =~= prior);
            assert(next.last() == a@[i as int]);
            if i > 0 {
                assert(next[next.len() - 2] == a@[i - 1]);
            }
            assert(done.push(current@).drop_last() =~= done);
        }
        if space(a[i]) {
            if open {
                out.push(current);
                current = String::new();
                proof {
                    assert(texts(out@) =~= words(prior));
                }
            }
            open = false;
        } else {
            let ghost held = current@;
            current.push(a[i]);
            proof {
                if !open {
                    assert(held =~= Seq::<char>::empty());
                    assert(current@ =~= seq![a@[i as int]]);
                }
            }
            open = true;
        }
        i = i + 1;
    }
    proof {
        assert(a@.take(a@.len() as int) =~= a@);
    }
    if open {
        let ghost done = texts(out@);
        let ghost last = current@;
        out.push(current);
        proof {
            assert(texts(out@) =~= done.push(last));
        }
    }
    out
}

// ---------------------------------------------------------------------------
// Characters, padding and numbers
// ---------------------------------------------------------------------------

/// Whether a character is one of the ten decimal digits.
pub open spec fn is_digit(c: char) -> bool {
    '0' <= c <= '9'
}

/// Whether every character is a decimal digit.
pub open spec fn all_digits(s: Seq<char>) -> bool {
    forall|i: int| 0 <= i < s.len() ==> is_digit(#[trigger] s[i])
}

/// Whether a character is a decimal digit.
pub fn digit(c: char) -> (r: bool)
    ensures
        r == is_digit(c),
{
    '0' <= c && c <= '9'
}

/// `n` copies of a character.
pub open spec fn repeat(c: char, n: nat) -> Seq<char> {
    Seq::new(n, |i: int| c)
}

/// The string of `n` copies of a character.
pub fn repeated(c: char, n: usize) -> (r: String)
    ensures
        r@ == repeat(c, n as nat),
{
    let mut out = String::new();
    let mut i: usize = 0;
    while i < n
        invariant
            i <= n,
            out@ == repeat(c, i as nat),
        decreases n - i,
    {
        out.push(c);
        i = i + 1;
        proof {
            assert(repeat(c, i as nat) =~= repeat(c, (i - 1) as nat).push(c));
        }
    }
    out
}

/// `s` followed by spaces up to `width` characters.
pub open spec fn pad_right(s: Seq<char>, width: nat) -> Seq<char> {
    if s.len() >= width {
        s
    } else {
        s + repeat(' ', (width - s.len()) as nat)
    }
}

/// The string followed by spaces up to the given number of characters.
pub fn padded_right(s: &str, width: usize) -> (r: String)
    ensures
        r@ == pad_right(s@, width as nat),
{
    let n: usize = s.unicode_len();
    let out = s.to_owned();
    if n >= width {
        out
    } else {
        let fill = repeated(' ', width - n);
        out.concat(fill.as_str())
    }
}

/// The character of a decimal digit.
pub open spec fn digit_char(d: int) -> char {
    (48 + d) as char
}

/// A natural number in decimal.
pub open spec fn decimal(n: nat) -> Seq<char>
    decreases n,
{
    if n < 10 {
        seq![digit_char(n as int)]
    } else {
        decimal(n / 10).push(digit_char((n % 10) as int))
    }
}

fn digit_of(d: u64) -> (r: char)
    requires
        d < 10,
    ensures
        r == digit_char(d as int),
{
    (48u8 + d as u8) as char
}

/// A number in decimal.
pub fn decimal_of(n: u64) -> (r: String)
    ensures
        r@ == decimal(n as nat),
    decreases n,
{
    if n < 10 {
        let mut out = String::new();
        out.push(digit_of(n));
        proof {
            assert(out@ =~= decimal(n as nat));
        }
        out
    } else {
        let mut out = decimal_of(n / 10);
        out.push(digit_of(n % 10));
        out
    }
}

/// A whole number in decimal, with a minus sign before a negative one.
pub open spec fn signed_decimal(n: int) -> Seq<char> {
    if n < 0 {
        seq!['-'] + decimal((-n) as nat)
    } else {
        decimal(n as nat)
    }
}

/// A signed number in decimal.
pub fn signed_decimal_of(n: i64) -> (r: String)
    ensures
        r@ == signed_decimal(n as int),
{
    if n < 0 {
        let size: u64 = (-(n as i128)) as u64;
        let digits = decimal_of(size);
        let mut out = String::new();
        out.push('-');
        let out = out.concat(digits.as_str());
        proof {
            assert(out@ =~= signed_decimal(n as int));
        }
        out
    } else {
        decimal_of(n as u64)
    }
}

/// A number in decimal with at least `width` digits.
pub open spec fn zero_padded(n: nat, width: nat) -> Seq<char> {
    if decimal(n).len() >= width {
        decimal(n)
    } else {
        repeat('0', (width - decimal(n).len()) as nat) + decimal(n)
    }
}

/// A number in decimal, with zeros before it up to the given width.
pub fn zero_padded_of(n: u64, width: usize) -> (r: String)
    ensures
        r@ == zero_padded(n as nat, width as nat),
{
    let digits = decimal_of(n);
    let len: usize = digits.as_str().unicode_len();
    if len >= width {
        digits
    } else {
        repeated('0', width - len).concat(digits.as_str())
    }
}

/// The number that a run of decimal digits stands for.
pub open spec fn value_of(digits: Seq<char>) -> nat
    decreases digits.len(),
{
    if digits.len() == 0 {
        0
    } else {
        value_of(digits.drop_last()) * 10 + ((digits.last() as u32 - 48) as nat)
    }
}

/// What a text says as a natural number of at most `max`: digits, at least
/// one, with an optional plus sign before them.
pub open spec fn parse_natural(s: Seq<char>, max: nat) -> Option<nat> {
    let digits = if s.len() > 0 && s[0] == '+' {
        s.skip(1)
    } else {
        s
    };
    if digits.len() > 0 && all_digits(digits) && value_of(digits) <= max {
        Some(value_of(digits))
    } else {
        None
    }
}

proof fn lemma_value_grows(digits: Seq<char>, n: int)
    requires
        0 <= n <= digits.len(),
        all_digits(digits),
    ensures
        value_of(digits.take(n)) <= value_of(digits),
    decreases digits.len() - n,
{
    if n == digits.len() {
        assert(digits.take(n) =~= digits);
    } else {
        lemma_value_grows(digits, n + 1);
        assert(digits.take(n + 1).drop_last() =~= digits.take(n));
    }
}

/// The number that a text says, where it is one of at most `max`.
pub fn parse_number(s: &str, max: u64) -> (r: Option<u64>)
    ensures
        r is Some == (parse_natural(s@, max as nat) is Some),
        r matches Some(n) ==> parse_natural(s@, max as nat) == Some(n as nat),
{
    let a = chars_of(s);
    let from: usize = if a.len() > 0 && a[0] == '+' { 1 } else { 0 };
    let ghost digits = s@.skip(from as int);
    proof {
        if from == 0 {
            assert(digits =~= s@);
        }
    }
    if from == a.len() {
        return None;
    }
    let mut total: u64 = 0;
    let mut i: usize = from;
    proof {
        assert(digits.take(0) =~= Seq::<char>::empty());
    }
    while i < a.len()
        invariant
            from <= i <= a.len(),
            from <= 1,
            a@ == s@,
            from < a.len(),
            from == (if s@.len() > 0 && s@[0] == '+' { 1int } else { 0int }),
            digits == s@.skip(from as int),
            digits == if s@.len() > 0 && s@[0] == '+' { s@.skip(1) } else { s@ },
            forall|k: int| 0 <= k < i - from ==> is_digit(digits[k]),
            total == value_of(digits.take(i - from)),
            total <= max,
        decreases a.len() - i,
    {
        let c = a[i];
        proof {
            assert(digits[i - from] == c);
        }
        if !digit(c) {
            return None;
        }
        let d: u64 = (c as u32 - 48) as u64;
        proof {
            assert(digits.take(i + 1 - from).drop_last() =~= digits.take(i - from));
            assert(digits.take(i + 1 - from).last() == c);
            assert(value_of(digits.take(i + 1 - from)) == total * 10 + d);
        }
        let wide: u128 = (total as u128) * 10 + (d as u128);
        if wide > max as u128 {
            proof {
                if all_digits(digits) {
                    lemma_value_grows(digits, i + 1 - from);
                }
            }
            return None;
        }
        total = wide as u64;
        i = i + 1;
    }
    proof {
        assert(digits.take(digits.len() as int) =~= digits);
    }
    Some(total)
}

proof fn lemma_decimal_digits(n: nat)
    ensures
        decimal(n).len() >= 1,
        all_digits(decimal(n)),
        value_of(decimal(n)) == n,
    decreases n,
{
    if n < 10 {
        assert(decimal(n).drop_last() =~= Seq::<char>::empty());
        assert(value_of(Seq::<char>::empty()) == 0);
    } else {
        lemma_decimal_digits(n / 10);
        assert(decimal(n).drop_last() =~= decimal(n / 10));
    }
}

/// A number written in decimal reads back as the number.
pub proof fn decimal_reads_back(n: nat, max: nat)
    requires
        n <= max,
    ensures
        parse_natural(decimal(n), max) == Some(n),
{
    lemma_decimal_digits(n);
    assert(is_digit(decimal(n)[0]));
}

/// Every `c` in `s` replaced by the text `with`.
pub open spec fn replace(s: Seq<char>, c: char, with: Seq<char>) -> Seq<char>
    decreases s.len(),
{
    if s.len() == 0 {
        Seq::<char>::empty()
    } else if s.last() == c {
        replace(s.drop_last(), c, with) + with
    } else {
        replace(s.drop_last(), c, with).push(s.last())
    }
}

/// The string with every given character replaced by a text.
pub fn replaced(s: &str, c: char, with: &str) -> (r: String)
    ensures
        r@ == replace(s@, c, with@),
{
    let a = chars_of(s);
    let mut out = String::new();
    let mut i: usize = 0;
    while i < a.len()
        invariant
            i <= a.len(),
            a@ == s@,
            out@ == replace(a@.take(i as int), c, with@),
        decreases a.len() - i,
    {
        proof {
            assert(a@.take(i + 1).drop_last() =~= a@.take(i as int));
        }
        if a[i] == c {
            out.append(with);
        } else {
            out.push(a[i]);
        }
        i = i + 1;
    }
    proof {
        assert(a@.take(a@.len() as int) =~= a@);
    }
    out
}

/// An ASCII capital as its small letter; any other character as it is.
pub open spec fn lower_char(c: char) -> char {
    if 'A' <= c <= 'Z' {
        ((c as u32) + 32) as char
    } else {
        c
    }
}

/// A text with its ASCII capitals as small letters.
pub open spec fn lower(s: Seq<char>) -> Seq<char> {
    s.map_values(|c: char| lower_char(c))
}

/// The string with its ASCII capitals as small letters.
pub fn lowered(s: &str) -> (r: String)
    ensures
        r@ == lower(s@),
{
    let a = chars_of(s);
    let mut out = String::new();
    let mut i: usize = 0;
    while i < a.len()
        invariant
            i <= a.len(),
            a@ == s@,
            out@ == lower(a@.take(i as int)),
        decreases a.len() - i,
    {
        let c = a[i];
        if 'A' <= c && c <= 'Z' {
            out.push((c as u8 + 32) as char);
        } else {
            out.push(c);
        }
        proof {
            assert(lower(a@.take(i + 1)) =~= lower(a@.take(i as int)).push(lower_char(c)));
        }
        i = i + 1;
    }
    proof {
        assert(a@.take(a@.len() as int) =~= a@);
    }
    out
}

// ---------------------------------------------------------------------------
// Text out of bytes
// ---------------------------------------------------------------------------

/// The text of bytes that need not be UTF-8, as `String::from_utf8_lossy` gives
/// it.
pub uninterp spec fn utf8_lossy(bytes: Seq<u8>) -> Seq<char>;

/// `String::from_utf8_lossy` gives the text of UTF-8 bytes, and puts a
/// replacement character wherever the bytes are not UTF-8.
#[verifier::external_body]
pub(crate) fn from_lossy(bytes: &[u8]) -> (r: String)
    ensures
        r@ == utf8_lossy(bytes@),
        valid_utf8(bytes@) ==> r@ == decode_utf8(bytes@),
{
    String::from_utf8_lossy(bytes).into_owned()
}

/// What `String::from_utf8` says of bytes that are not UTF-8.
pub uninterp spec fn utf8_fault(bytes: Seq<u8>) -> Seq<char>;

/// `String::from_utf8` gives the text of UTF-8 bytes, and says where other
/// bytes stop being UTF-8.
#[verifier::external_body]
pub(crate) fn from_strict(bytes: Vec<u8>) -> (r: Result<String, String>)
    ensures
        r is Ok == valid_utf8(bytes@),
        r matches Ok(s) ==> s@ == decode_utf8(bytes@),
        r matches Err(e) ==> e@ == utf8_fault(bytes@),
{
    String::from_utf8(bytes).map_err(|error| error.to_string())
}

/// The text of bytes that need not be UTF-8.
pub fn lossy(bytes: &[u8]) -> (r: String)
    ensures
        r@ == utf8_lossy(bytes@),
        valid_utf8(bytes@) ==> r@ == decode_utf8(bytes@),
{
    from_lossy(bytes)
}

/// The pieces of bytes between the bytes equal to `b`.
pub open spec fn split_bytes(s: Seq<u8>, b: u8) -> Seq<Seq<u8>>
    decreases s.len(),
{
    if s.len() == 0 {
        seq![Seq::<u8>::empty()]
    } else {
        let init = split_bytes(s.drop_last(), b);
        if s.last() == b {
            init.push(Seq::<u8>::empty())
        } else {
            init.drop_last().push(init.last().push(s.last()))
        }
    }
}

/// What a list of byte strings holds.
pub open spec fn byte_texts(values: Seq<Vec<u8>>) -> Seq<Seq<u8>> {
    values.map_values(|v: Vec<u8>| v@)
}

/// The pieces of bytes between the given separator.
pub fn split_bytes_on(s: &[u8], b: u8) -> (r: Vec<Vec<u8>>)
    ensures
        byte_texts(r@) == split_bytes(s@, b),
        r@.len() >= 1,
{
    let mut out: Vec<Vec<u8>> = Vec::new();
    let mut current: Vec<u8> = Vec::new();
    let mut i: usize = 0;
    proof {
        assert(s@.take(0) =~= Seq::<u8>::empty());
        assert(byte_texts(out@).push(current@) =~= split_bytes(s@.take(0), b));
    }
    while i < s.len()
        invariant
            i <= s.len(),
            byte_texts(out@).push(current@) == split_bytes(s@.take(i as int), b),
        decreases s.len() - i,
    {
        let ghost prior = s@.take(i as int);
        let ghost done = byte_texts(out@);
        proof {
            assert(s@.take(i + 1).drop_last() =~= prior);
            assert(s@.take(i + 1).last() == s@[i as int]);
            assert(done.push(current@).drop_last() =~= done);
        }
        if s[i] == b {
            out.push(current);
            current = Vec::new();
            proof {
                assert(byte_texts(out@) =~= split_bytes(prior, b));
            }
        } else {
            current.push(s[i]);
        }
        i = i + 1;
        proof {
            assert(byte_texts(out@).push(current@) =~= split_bytes(s@.take(i as int), b));
        }
    }
    proof {
        assert(s@.take(s@.len() as int) =~= s@);
    }
    let ghost done = byte_texts(out@);
    let ghost last = current@;
    out.push(current);
    proof {
        assert(byte_texts(out@) =~= done.push(last));
    }
    out
}

/// What `str::parse` says of a text that is no `u64`.
pub uninterp spec fn number_fault(s: Seq<char>) -> Seq<char>;

/// `str::parse::<u64>` says why a text is no number; a text that is one gets an
/// empty answer.
#[verifier::external_body]
pub(crate) fn why_no_number(s: &str) -> (r: String)
    ensures
        r@ == number_fault(s@),
{
    s.parse::<u64>().map_or_else(|error| error.to_string(), |_| String::new())
}

proof fn lemma_find_skips(k: Seq<char>, v: Seq<char>, c: char, from: int)
    requires
        0 <= from <= k.len(),
        forall|i: int| 0 <= i < k.len() ==> k[i] != c,
    ensures
        find_from(k + seq![c] + v, c, from) == k.len(),
    decreases k.len() - from,
{
    let s = k + seq![c] + v;
    if from < k.len() {
        assert(s[from] == k[from]);
        lemma_find_skips(k, v, c, from + 1);
    } else {
        assert(s[from] == c);
    }
}

/// A word, a separator that the word does not hold, and a rest are cut back
/// into the word and the rest.
pub proof fn lemma_cut(k: Seq<char>, v: Seq<char>, c: char)
    requires
        forall|i: int| 0 <= i < k.len() ==> k[i] != c,
    ensures
        cut(k + seq![c] + v, c) == Some((k, v)),
{
    lemma_find_skips(k, v, c, 0);
    let s = k + seq![c] + v;
    assert(s.take(k.len() as int) =~= k);
    assert(s.skip(k.len() as int + 1) =~= v);
}

proof fn lemma_find_none(s: Seq<char>, c: char, from: int)
    requires
        0 <= from <= s.len(),
        forall|i: int| 0 <= i < s.len() ==> s[i] != c,
    ensures
        find_from(s, c, from) == s.len(),
    decreases s.len() - from,
{
    if from < s.len() {
        lemma_find_none(s, c, from + 1);
    }
}

/// A text without the separator is not cut.
pub proof fn lemma_no_cut(s: Seq<char>, c: char)
    requires
        forall|i: int| 0 <= i < s.len() ==> s[i] != c,
    ensures
        cut(s, c) is None,
{
    lemma_find_none(s, c, 0);
}

} // verus!
