//! What commands say to people: a headline with facts below it, or a table.

use vstd::prelude::*;
use vstd::string::*;
use vstd::utf8::*;

use crate::text;


verus! {

broadcast use vstd::string::group_string_axioms;

// ---------------------------------------------------------------------------
// Blocks
// ---------------------------------------------------------------------------

/// How wide a text is taken to be: as many columns as it takes bytes.
pub open spec fn width(s: Seq<char>) -> nat {
    encode_utf8(s).len()
}

fn width_of(s: &str) -> (r: usize)
    ensures
        r == width(s@),
{
    s.as_bytes().len()
}

/// The larger of two numbers.
pub open spec fn larger(a: nat, b: nat) -> nat {
    if a >= b {
        a
    } else {
        b
    }
}

/// How wide the widest key is.
pub open spec fn key_width(facts: Seq<(Seq<char>, Seq<char>)>) -> nat
    decreases facts.len(),
{
    if facts.len() == 0 {
        0
    } else {
        larger(key_width(facts.drop_last()), width(facts.last().0))
    }
}

/// Facts, one on a line each, with their values below each other.
pub open spec fn fact_lines(facts: Seq<(Seq<char>, Seq<char>)>, w: nat) -> Seq<char>
    decreases facts.len(),
{
    if facts.len() == 0 {
        Seq::<char>::empty()
    } else {
        fact_lines(facts.drop_last(), w) + ("\n  "@ + text::pad_right(facts.last().0, w) + "  "@
            + facts.last().1)
    }
}

/// A headline with facts below it.
pub open spec fn block_text(headline: Seq<char>, facts: Seq<(Seq<char>, Seq<char>)>) -> Seq<char> {
    headline + fact_lines(facts, key_width(facts))
}

/// Facts that are gathered.
#[derive(Debug)]
pub struct Facts {
    pub list: Vec<(String, String)>,
}

impl View for Facts {
    type V = Seq<(Seq<char>, Seq<char>)>;

    open spec fn view(&self) -> Seq<(Seq<char>, Seq<char>)> {
        text::pairs(self.list@)
    }
}

/// Facts with one more, where it holds.
pub open spec fn fact_if(
    facts: Seq<(Seq<char>, Seq<char>)>,
    holds: bool,
    key: Seq<char>,
    value: Seq<char>,
) -> Seq<(Seq<char>, Seq<char>)> {
    if holds {
        facts.push((key, value))
    } else {
        facts
    }
}

impl Facts {
    /// No facts.
    pub fn none() -> (r: Self)
        ensures
            r@ == Seq::<(Seq<char>, Seq<char>)>::empty(),
    {
        let r = Facts { list: Vec::new() };
        proof {
            assert(r@ =~= Seq::<(Seq<char>, Seq<char>)>::empty());
        }
        r
    }

    /// The facts and one more.
    pub fn and(self, key: &str, value: &str) -> (r: Self)
        ensures
            r@ == self@.push((key@, value@)),
    {
        let ghost before = self@;
        let mut list = self.list;
        list.push((key.to_owned(), value.to_owned()));
        let r = Facts { list };
        proof {
            assert(r@ =~= before.push((key@, value@)));
        }
        r
    }

    /// The facts, and one more where it holds.
    pub fn and_if(self, holds: bool, key: &str, value: &str) -> (r: Self)
        ensures
            r@ == fact_if(self@, holds, key@, value@),
    {
        if holds {
            self.and(key, value)
        } else {
            self
        }
    }
}

/// A headline with facts below it.
pub fn block(headline: &str, facts: &Facts) -> (r: String)
    ensures
        r@ == block_text(headline@, facts@),
{
    let ghost all = facts@;
    let mut w: usize = 0;
    let mut i: usize = 0;
    while i < facts.list.len()
        invariant
            i <= facts.list.len(),
            all == facts@,
            w == key_width(all.take(i as int)),
        decreases facts.list.len() - i,
    {
        proof {
            assert(all.take(i + 1).drop_last() =~= all.take(i as int));
            assert(all.take(i + 1).last() == (facts.list@[i as int].0@, facts.list@[i as int].1@));
        }
        let own: usize = width_of(facts.list[i].0.as_str());
        if own > w {
            w = own;
        }
        i = i + 1;
    }
    proof {
        assert(all.take(facts.list@.len() as int) =~= all);
    }
    let mut out = headline.to_owned();
    let mut k: usize = 0;
    proof {
        assert(headline@ + fact_lines(all.take(0), w as nat) =~= headline@);
    }
    while k < facts.list.len()
        invariant
            k <= facts.list.len(),
            all == facts@,
            out@ == headline@ + fact_lines(all.take(k as int), w as nat),
        decreases facts.list.len() - k,
    {
        let ghost so_far = fact_lines(all.take(k as int), w as nat);
        let line = "\n  ".to_owned().concat(
            text::padded_right(facts.list[k].0.as_str(), w).as_str(),
        ).concat("  ").concat(facts.list[k].1.as_str());
        out.append(line.as_str());
        proof {
            assert(all.take(k + 1).drop_last() =~= all.take(k as int));
            assert(all.take(k + 1).last() == (facts.list@[k as int].0@, facts.list@[k as int].1@));
            assert(headline@ + so_far + line@ =~= headline@ + (so_far + line@));
        }
        k = k + 1;
    }
    proof {
        assert(all.take(facts.list@.len() as int) =~= all);
    }
    out
}

/// A plan as it is shown before consent is asked for.
pub fn consent_block(headline: &str, facts: &Facts) -> (r: String)
    ensures
        r@ == block_text(headline@, facts@),
{
    block(headline, facts)
}

/// A word for one thing or for several.
pub fn plural<'a>(count: usize, one: &'a str, several: &'a str) -> (r: &'a str)
    ensures
        r@ == if count == 1 {
            one@
        } else {
            several@
        },
{
    if count == 1 {
        one
    } else {
        several
    }
}

// ---------------------------------------------------------------------------
// Tables
// ---------------------------------------------------------------------------

/// The rows of a table.
pub open spec fn rows_view(rows: Seq<Vec<String>>) -> Seq<Seq<Seq<char>>> {
    rows.map_values(|r: Vec<String>| text::texts(r@))
}

/// How wide a column is: as its header, or its widest cell.
pub open spec fn column_width(header: Seq<char>, rows: Seq<Seq<Seq<char>>>, i: int) -> nat
    decreases rows.len(),
{
    if rows.len() == 0 {
        width(header)
    } else {
        let rest = column_width(header, rows.drop_last(), i);
        if i < rows.last().len() {
            larger(rest, width(rows.last()[i]))
        } else {
            rest
        }
    }
}

/// How wide the columns are.
pub open spec fn column_widths(headers: Seq<Seq<char>>, rows: Seq<Seq<Seq<char>>>) -> Seq<nat> {
    Seq::new(headers.len(), |i: int| column_width(headers[i], rows, i))
}

/// The cells of a row, each as wide as its column but for the last column.
pub open spec fn cells(row: Seq<Seq<char>>, widths: Seq<nat>) -> Seq<Seq<char>> {
    Seq::new(
        if row.len() <= widths.len() {
            row.len()
        } else {
            widths.len()
        },
        |i: int|
            if i + 1 == widths.len() {
                row[i]
            } else {
                text::pad_right(row[i], widths[i])
            },
    )
}

/// A row as it is written.
pub open spec fn row_text(row: Seq<Seq<char>>, widths: Seq<nat>) -> Seq<char> {
    text::join(cells(row, widths), "  "@)
}

/// Rows, one on a line each.
pub open spec fn row_lines(rows: Seq<Seq<Seq<char>>>, widths: Seq<nat>) -> Seq<char>
    decreases rows.len(),
{
    if rows.len() == 0 {
        Seq::<char>::empty()
    } else {
        row_lines(rows.drop_last(), widths) + ("\n  "@ + row_text(rows.last(), widths))
    }
}

/// A headline with a table below it; the headline alone where the table has no rows.
pub open spec fn table_text(
    headline: Seq<char>,
    headers: Seq<Seq<char>>,
    rows: Seq<Seq<Seq<char>>>,
) -> Seq<char> {
    if rows.len() == 0 {
        headline
    } else {
        let widths = column_widths(headers, rows);
        headline + ("\n  "@ + row_text(headers, widths)) + row_lines(rows, widths)
    }
}

/// Numbers as they are counted.
pub open spec fn counted(widths: Seq<usize>) -> Seq<nat> {
    widths.map_values(|w: usize| w as nat)
}

/// A row as it is written.
pub fn table_row(row: &Vec<String>, widths: &Vec<usize>) -> (r: String)
    ensures
        r@ == row_text(text::texts(row@), counted(widths@)),
{
    let ghost all = cells(text::texts(row@), counted(widths@));
    let n: usize = if row.len() <= widths.len() {
        row.len()
    } else {
        widths.len()
    };
    let mut out: Vec<String> = Vec::new();
    let mut i: usize = 0;
    proof {
        assert(text::texts(row@).len() == row@.len());
        assert(counted(widths@).len() == widths@.len());
        assert(all.len() == n);
        assert(text::texts(out@) =~= all.take(0));
    }
    while i < n
        invariant
            i <= n,
            n <= row.len(),
            n <= widths.len(),
            all == cells(text::texts(row@), counted(widths@)),
            all.len() == n,
            counted(widths@).len() == widths@.len(),
            text::texts(out@) == all.take(i as int),
        decreases n - i,
    {
        let ghost prior = text::texts(out@);
        proof {
            assert(text::texts(row@)[i as int] == row@[i as int]@);
            assert(counted(widths@)[i as int] == widths@[i as int] as nat);
        }
        if i == widths.len() - 1 {
            out.push(row[i].clone());
        } else {
            out.push(text::padded_right(row[i].as_str(), widths[i]));
        }
        proof {
            assert(text::texts(out@) =~= prior.push(all[i as int]));
            assert(all.take(i + 1) =~= all.take(i as int).push(all[i as int]));
        }
        i = i + 1;
    }
    proof {
        assert(all.take(n as int) =~= all);
    }
    text::join_with(&out, "  ")
}

fn one_width(header: &str, rows: &Vec<Vec<String>>, i: usize) -> (r: usize)
    ensures
        r == column_width(header@, rows_view(rows@), i as int),
{
    let ghost all = rows_view(rows@);
    let mut w: usize = width_of(header);
    let mut k: usize = 0;
    while k < rows.len()
        invariant
            k <= rows.len(),
            all == rows_view(rows@),
            w == column_width(header@, all.take(k as int), i as int),
        decreases rows.len() - k,
    {
        proof {
            assert(all.take(k + 1).drop_last() =~= all.take(k as int));
            assert(all.take(k + 1).last() == text::texts(rows@[k as int]@));
            assert(text::texts(rows@[k as int]@).len() == rows@[k as int]@.len());
        }
        if i < rows[k].len() {
            let own: usize = width_of(rows[k][i].as_str());
            if own > w {
                w = own;
            }
        }
        k = k + 1;
    }
    proof {
        assert(all.take(rows@.len() as int) =~= all);
    }
    w
}

/// A headline with a table below it.
pub fn table(headline: &str, headers: &Vec<String>, rows: &Vec<Vec<String>>) -> (r: String)
    ensures
        r@ == table_text(headline@, text::texts(headers@), rows_view(rows@)),
{
    proof {
        assert(rows_view(rows@).len() == rows@.len());
        assert(text::texts(headers@).len() == headers@.len());
    }
    if rows.len() == 0 {
        return headline.to_owned();
    }
    let ghost all = rows_view(rows@);
    let ghost want = column_widths(text::texts(headers@), all);
    let mut widths: Vec<usize> = Vec::new();
    let mut i: usize = 0;
    proof {
        assert(counted(widths@) =~= want.take(0));
    }
    while i < headers.len()
        invariant
            i <= headers.len(),
            all == rows_view(rows@),
            want == column_widths(text::texts(headers@), all),
            want.len() == headers@.len(),
            counted(widths@) == want.take(i as int),
        decreases headers.len() - i,
    {
        let ghost prior = counted(widths@);
        widths.push(one_width(headers[i].as_str(), rows, i));
        proof {
            assert(text::texts(headers@)[i as int] == headers@[i as int]@);
            assert(counted(widths@) =~= prior.push(want[i as int]));
            assert(want.take(i + 1) =~= want.take(i as int).push(want[i as int]));
        }
        i = i + 1;
    }
    proof {
        assert(want.take(headers@.len() as int) =~= want);
    }
    let mut out = headline.to_owned();
    let first = "\n  ".to_owned().concat(table_row(headers, &widths).as_str());
    out.append(first.as_str());
    let ghost lead = out@;
    let mut k: usize = 0;
    proof {
        assert(lead + row_lines(all.take(0), want) =~= lead);
    }
    while k < rows.len()
        invariant
            k <= rows.len(),
            all == rows_view(rows@),
            counted(widths@) == want,
            out@ == lead + row_lines(all.take(k as int), want),
        decreases rows.len() - k,
    {
        let ghost so_far = row_lines(all.take(k as int), want);
        let line = "\n  ".to_owned().concat(table_row(&rows[k], &widths).as_str());
        out.append(line.as_str());
        proof {
            assert(all.take(k + 1).drop_last() =~= all.take(k as int));
            assert(all.take(k + 1).last() == text::texts(rows@[k as int]@));
            assert(lead + so_far + line@ =~= lead + (so_far + line@));
        }
        k = k + 1;
    }
    proof {
        assert(all.take(rows@.len() as int) =~= all);
    }
    out
}

proof fn lemma_width_covers(s: Seq<char>)
    ensures
        s.len() <= width(s),
    decreases s.len(),
{
    if s.len() > 0 {
        lemma_width_covers(s.drop_first());
        assert(encode_utf8(s) == encode_scalar(s[0] as u32) + encode_utf8(s.drop_first()));
    }
}

proof fn lemma_column_covers(header: Seq<char>, rows: Seq<Seq<Seq<char>>>, i: int, k: int)
    requires
        0 <= k < rows.len(),
        0 <= i < rows[k].len(),
    ensures
        width(rows[k][i]) <= column_width(header, rows, i),
    decreases rows.len(),
{
    if k < rows.len() - 1 {
        lemma_column_covers(header, rows.drop_last(), i, k);
        assert(rows.drop_last()[k] == rows[k]);
    }
}

/// The columns of a table are below each other: each cell but that of the last column
/// is as long as its column is wide.
pub proof fn columns_line_up(headers: Seq<Seq<char>>, rows: Seq<Seq<Seq<char>>>, k: int, i: int)
    requires
        0 <= k < rows.len(),
        0 <= i < rows[k].len(),
        i + 1 < headers.len(),
    ensures
        cells(rows[k], column_widths(headers, rows))[i].len() == column_widths(headers, rows)[i],
{
    let w = column_widths(headers, rows);
    lemma_column_covers(headers[i], rows, i, k);
    lemma_width_covers(rows[k][i]);
}

} // verus!
