//! The environment of a tree as text: for a shell to read, for a file, and for people.

use vstd::prelude::*;
use vstd::string::*;

use crate::text;
use crate::tmux;

verus! {

broadcast use vstd::string::group_string_axioms;

/// A value as one word of a shell.
pub fn quote(value: &str) -> (r: String)
    ensures
        r@ == tmux::quoted(value@),
{
    tmux::shell_quote(value)
}

/// A variable as a shell sets it.
pub open spec fn exported(key: Seq<char>, value: Seq<char>) -> Seq<char> {
    "export "@ + key + "="@ + tmux::quoted(value)
}

fn export(key: &str, value: &str) -> (r: String)
    ensures
        r@ == exported(key@, value@),
{
    "export ".to_owned().concat(key).concat("=").concat(quote(value).as_str())
}

/// Variables as a shell sets them.
pub open spec fn exports(env: Seq<(String, String)>) -> Seq<Seq<char>> {
    env.map_values(|e: (String, String)| exported(e.0@, e.1@))
}

/// Variables as they are in a file.
pub open spec fn assignments(env: Seq<(String, String)>) -> Seq<Seq<char>> {
    env.map_values(|e: (String, String)| e.0@ + "="@ + e.1@)
}

fn export_lines(env: &Vec<(String, String)>) -> (r: Vec<String>)
    ensures
        text::texts(r@) == exports(env@),
{
    let ghost all = exports(env@);
    let mut out: Vec<String> = Vec::new();
    let mut i: usize = 0;
    proof {
        assert(text::texts(out@) =~= all.take(0));
    }
    while i < env.len()
        invariant
            i <= env.len(),
            all == exports(env@),
            text::texts(out@) == all.take(i as int),
        decreases env.len() - i,
    {
        let ghost prior = text::texts(out@);
        out.push(export(env[i].0.as_str(), env[i].1.as_str()));
        proof {
            assert(text::texts(out@) =~= prior.push(all[i as int]));
            assert(all.take(i + 1) =~= all.take(i as int).push(all[i as int]));
        }
        i = i + 1;
    }
    proof {
        assert(all.take(env@.len() as int) =~= all);
    }
    out
}

fn assignment_lines(env: &Vec<(String, String)>) -> (r: Vec<String>)
    ensures
        text::texts(r@) == assignments(env@),
{
    let ghost all = assignments(env@);
    let mut out: Vec<String> = Vec::new();
    let mut i: usize = 0;
    proof {
        assert(text::texts(out@) =~= all.take(0));
    }
    while i < env.len()
        invariant
            i <= env.len(),
            all == assignments(env@),
            text::texts(out@) == all.take(i as int),
        decreases env.len() - i,
    {
        let ghost prior = text::texts(out@);
        out.push(env[i].0.clone().concat("=").concat(env[i].1.as_str()));
        proof {
            assert(text::texts(out@) =~= prior.push(all[i as int]));
            assert(all.take(i + 1) =~= all.take(i as int).push(all[i as int]));
        }
        i = i + 1;
    }
    proof {
        assert(all.take(env@.len() as int) =~= all);
    }
    out
}

/// What a variable was before a tree was entered: its value, or that it was not set.
pub type Prior = Option<String>;

/// The variables that a tree had set and that are not set in the next one, of those that
/// were not set before.
pub open spec fn dropped(prior: Seq<(String, Prior)>, applied: Seq<Seq<char>>) -> Seq<Seq<char>>
    decreases prior.len(),
{
    if prior.len() == 0 {
        Seq::<Seq<char>>::empty()
    } else {
        let rest = dropped(prior.drop_last(), applied);
        let last = prior.last();
        if last.1 is None && !applied.contains(last.0@) {
            rest.push("unset "@ + last.0@)
        } else {
            rest
        }
    }
}

/// The environment for a shell to read: each variable is set, and what the tree before
/// had set and this one does not is unset. `prior` is what the tree before had applied,
/// with what was there before it, and `applied` what this one applies.
pub fn shell_text(env: &Vec<(String, String)>, prior: &Vec<(String, Prior)>, applied: &Vec<String>) -> (r:
    String)
    ensures
        r@ == text::join(
            exports(env@) + dropped(prior@, text::texts(applied@)),
            "\n"@,
        ),
{
    let mut lines = export_lines(env);
    let ghost start = text::texts(lines@);
    let ghost own = text::texts(applied@);
    let mut i: usize = 0;
    proof {
        assert(start + dropped(prior@.take(0), own) =~= start);
    }
    while i < prior.len()
        invariant
            i <= prior.len(),
            own == text::texts(applied@),
            text::texts(lines@) == start + dropped(prior@.take(i as int), own),
        decreases prior.len() - i,
    {
        let ghost so_far = dropped(prior@.take(i as int), own);
        let ghost before = text::texts(lines@);
        proof {
            assert(prior@.take(i + 1).drop_last() =~= prior@.take(i as int));
        }
        if prior[i].1.is_none() && !text::listed(applied, prior[i].0.as_str()) {
            let one = "unset ".to_owned().concat(prior[i].0.as_str());
            let ghost o = one@;
            lines.push(one);
            proof {
                assert(text::texts(lines@) =~= before.push(o));
                assert((start + so_far).push(o) =~= start + so_far.push(o));
            }
        }
        i = i + 1;
    }
    proof {
        assert(prior@.take(prior@.len() as int) =~= prior@);
    }
    text::join_with(&lines, "\n")
}

/// The environment for a file.
pub fn dotenv_text(env: &Vec<(String, String)>) -> (r: String)
    ensures
        r@ == text::join(assignments(env@), "\n"@),
{
    text::join_with(&assignment_lines(env), "\n")
}

/// A directory of programs: whether it is there, and what it holds.
#[derive(Debug)]
pub struct BinReport {
    pub dir: String,
    pub exists: bool,
    pub executables: Vec<String>,
}

/// Directories of programs, in words.
pub open spec fn inventory(bins: Seq<BinReport>) -> Seq<Seq<char>> {
    bins.map_values(
        |b: BinReport|
            b.dir@ + "\t"@ + (if b.exists {
                "present"@
            } else {
                "missing"@
            }) + "\t"@ + text::join(text::texts(b.executables@), ","@),
    )
}

/// The environment for people: its variables, and the directories of programs.
pub fn inventory_text(env: &Vec<(String, String)>, bins: &Vec<BinReport>) -> (r: String)
    ensures
        r@ == text::join(
            assignments(env@) + seq![Seq::<char>::empty(), "bin inventory:"@] + inventory(bins@),
            "\n"@,
        ),
{
    let mut lines = assignment_lines(env);
    let ghost first = text::texts(lines@);
    lines.push(String::new());
    lines.push("bin inventory:".to_owned());
    let ghost lead = first + seq![Seq::<char>::empty(), "bin inventory:"@];
    let ghost all = inventory(bins@);
    let mut i: usize = 0;
    proof {
        assert(text::texts(lines@) =~= lead);
        assert(lead + all.take(0) =~= lead);
    }
    while i < bins.len()
        invariant
            i <= bins.len(),
            all == inventory(bins@),
            text::texts(lines@) == lead + all.take(i as int),
        decreases bins.len() - i,
    {
        let ghost prior = text::texts(lines@);
        let word = if bins[i].exists {
            "present"
        } else {
            "missing"
        };
        lines.push(
            bins[i].dir.clone().concat("\t").concat(word).concat("\t").concat(
                text::join_with(&bins[i].executables, ",").as_str(),
            ),
        );
        proof {
            assert(text::texts(lines@) =~= prior.push(all[i as int]));
            assert(lead + all.take(i + 1) =~= (lead + all.take(i as int)).push(all[i as int]));
        }
        i = i + 1;
    }
    proof {
        assert(all.take(bins@.len() as int) =~= all);
    }
    text::join_with(&lines, "\n")
}

/// What was restored, as a shell does it: what had a value is set to it, and the rest is
/// unset.
pub open spec fn restored(list: Seq<(String, Prior)>) -> Seq<Seq<char>> {
    list.map_values(
        |e: (String, Prior)|
            match text::opt(e.1) {
                Some(v) => exported(e.0@, v),
                None => "unset "@ + e.0@,
            },
    )
}

/// The end of an environment for a shell to read. `key` is the variable that tells which
/// tree was entered; what was restored is known only where that could be read.
pub fn deactivate_text(key: &str, list: &Vec<(String, Prior)>) -> (r: String)
    ensures
        r@ == text::join(seq!["unset "@ + key@] + restored(list@), "\n"@),
{
    let mut lines: Vec<String> = Vec::new();
    lines.push("unset ".to_owned().concat(key));
    let ghost lead = seq!["unset "@ + key@];
    let ghost all = restored(list@);
    let mut i: usize = 0;
    proof {
        assert(text::texts(lines@) =~= lead);
        assert(lead + all.take(0) =~= lead);
    }
    while i < list.len()
        invariant
            i <= list.len(),
            all == restored(list@),
            text::texts(lines@) == lead + all.take(i as int),
        decreases list.len() - i,
    {
        let ghost prior = text::texts(lines@);
        let one = match &list[i].1 {
            Some(v) => export(list[i].0.as_str(), v.as_str()),
            None => "unset ".to_owned().concat(list[i].0.as_str()),
        };
        lines.push(one);
        proof {
            assert(text::texts(lines@) =~= prior.push(all[i as int]));
            assert(lead + all.take(i + 1) =~= (lead + all.take(i as int)).push(all[i as int]));
        }
        i = i + 1;
    }
    proof {
        assert(all.take(list@.len() as int) =~= all);
    }
    text::join_with(&lines, "\n")
}

/// A shell that reads a variable takes its value to be what it was, whatever characters
/// it holds.
pub proof fn a_shell_reads_values_back(key: Seq<char>, value: Seq<char>)
    ensures
        exported(key, value) == "export "@ + key + "="@ + tmux::quoted(value),
        tmux::shell_word(tmux::quoted(value), false) == Some(value),
{
    tmux::quoting_reads_back(value);
}

/// A variable is dropped exactly where it was not there before and is not set now.
pub proof fn every_variable_that_was_not_there_is_dropped(prior: Seq<(String, Prior)>, applied: Seq<Seq<char>>, y: Seq<char>)
    ensures
        dropped(prior, applied).contains(y) <==> (exists|i: int|
            0 <= i < prior.len() && (#[trigger] prior[i]).1 is None && !applied.contains(prior[i].0@) && y == "unset "@ + prior[i].0@),
    decreases prior.len(),
{
    let all = dropped(prior, applied);
    if prior.len() > 0 {
        let rest = prior.drop_last();
        let some = dropped(rest, applied);
        every_variable_that_was_not_there_is_dropped(rest, applied, y);
        if all.contains(y) {
            let k = choose|k: int| 0 <= k < all.len() && all[k] == y;
            if k < some.len() {
                assert(some[k] == y);
                let i = choose|i: int| 0 <= i < rest.len() && (#[trigger] rest[i]).1 is None && !applied.contains(rest[i].0@) && y == "unset "@ + rest[i].0@;
                assert(prior[i] == rest[i]);
            } else {
                assert(prior[rest.len() as int].1 is None && !applied.contains(prior[rest.len() as int].0@) && y == "unset "@ + prior[rest.len() as int].0@);
            }
        }
        if exists|i: int| 0 <= i < prior.len() && (#[trigger] prior[i]).1 is None && !applied.contains(prior[i].0@) && y == "unset "@ + prior[i].0@ {
            let i = choose|i: int| 0 <= i < prior.len() && (#[trigger] prior[i]).1 is None && !applied.contains(prior[i].0@) && y == "unset "@ + prior[i].0@;
            if i < rest.len() {
                assert(rest[i] == prior[i]);
                let k = choose|k: int| 0 <= k < some.len() && some[k] == y;
                assert(all[k] == y);
            } else {
                assert(all[all.len() - 1] == y);
            }
        }
    }
}

/// A variable is restored to what it was, and one that was not there is dropped.
pub proof fn every_variable_is_restored(list: Seq<(String, Prior)>, i: int)
    requires
        0 <= i < list.len(),
    ensures
        restored(list).len() == list.len(),
        list[i].1 is None ==> restored(list)[i] == "unset "@ + list[i].0@,
        list[i].1 is Some ==> restored(list)[i] == "export "@ + list[i].0@ + "="@ + tmux::quoted(
            list[i].1->0@,
        ),
{
}

} // verus!
