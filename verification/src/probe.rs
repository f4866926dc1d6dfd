//! Small questions to the machine before anything is proposed to it.

use vstd::prelude::*;
use vstd::string::*;

use crate::path;
use crate::proc;
use crate::proc::{CommandRequest, ProcessOutput};
use crate::text;

verus! {

broadcast use vstd::string::group_string_axioms;

/// The request that asks whether the terminal database knows an entry; none where
/// the program that could say is not installed.
pub fn terminfo_request(infocmp: &Option<String>, entry: &str) -> (r: Option<CommandRequest>)
    ensures
        match *infocmp {
            None => r is None,
            Some(program) => r matches Some(q) && {
                &&& q.program@ == program@
                &&& text::texts(q.args@) == seq!["-1"@, entry@]
                &&& q.cwd is None
                &&& q.env.wf()
                &&& q.env@ == Map::<Seq<char>, String>::empty()
                &&& q.remove_env@.len() == 0
                &&& !q.clear_env
            },
        },
{
    match infocmp {
        None => None,
        Some(program) => {
            let mut request = CommandRequest::new(program.as_str());
            request.args = proc::Args::none().and("-1").and(entry).list;
            Some(request)
        },
    }
}

/// Whether the terminal database knows an entry: nothing is claimed of one where
/// nobody could be asked.
pub fn has_terminfo(answer: Option<&ProcessOutput>) -> (r: bool)
    ensures
        r == (answer matches Some(output) && output.succeeded()),
{
    match answer {
        Some(output) => output.success(),
        None => false,
    }
}

/// Whether a program is installed, of where it was found.
pub fn installed(found: &Option<String>) -> (r: bool)
    ensures
        r == (*found is Some),
{
    found.is_some()
}

/// The first that was found.
pub open spec fn first_found(found: Seq<Option<String>>, from: int) -> Option<int>
    decreases found.len() - from,
{
    if from < 0 || from >= found.len() {
        None
    } else if found[from] is Some {
        Some(from)
    } else {
        first_found(found, from + 1)
    }
}

/// The place of the first package manager that is installed, of where each was
/// found.
pub fn package_manager(found: &Vec<Option<String>>) -> (r: Option<usize>)
    ensures
        match first_found(found@, 0) {
            Some(i) => r matches Some(k) && k == i,
            None => r is None,
        },
{
    let mut i: usize = 0;
    while i < found.len()
        invariant
            i <= found.len(),
            first_found(found@, 0) == first_found(found@, i as int),
        decreases found.len() - i,
    {
        if found[i].is_some() {
            return Some(i);
        }
        i = i + 1;
    }
    None
}

/// A text without the dashes at its front.
pub open spec fn without_dashes(s: Seq<char>) -> Seq<char>
    decreases s.len(),
{
    if s.len() > 0 && s[0] == '-' {
        without_dashes(s.skip(1))
    } else {
        s
    }
}

/// What stands behind the last slash.
pub open spec fn base_name(s: Seq<char>) -> Seq<char> {
    match path::last_of(s, '/') {
        Some(i) => s.skip(i + 1),
        None => s,
    }
}

proof fn lemma_last(s: Seq<char>, n: int)
    requires
        0 <= n <= s.len(),
        forall|k: int| n <= k < s.len() ==> s[k] != '/',
    ensures
        path::last_of(s, '/') == path::last_of(s.take(n), '/'),
    decreases s.len(),
{
    if n == s.len() {
        assert(s.take(n) =~= s);
    } else {
        lemma_last(s.drop_last(), n);
        assert(s.drop_last().take(n) =~= s.take(n));
    }
}

fn base(name: &str) -> (r: String)
    ensures
        r@ == base_name(name@),
{
    let a = text::chars_of(name);
    let mut i: usize = a.len();
    while i > 0
        invariant
            i <= a.len(),
            a@ == name@,
            forall|k: int| i <= k < a@.len() ==> a@[k] != '/',
        decreases i,
    {
        if a[i - 1] == '/' {
            proof {
                lemma_last(a@, i as int);
                assert(a@.take(i as int).last() == '/');
                assert(a@.subrange(i as int, a@.len() as int) =~= a@.skip(i as int));
            }
            return text::slice(&a, i, a.len());
        }
        i = i - 1;
    }
    proof {
        lemma_last(a@, 0);
        assert(a@.take(0).len() == 0);
    }
    name.to_owned()
}

/// The name of a program as a list of processes gives it: without the dash of a
/// login shell and without its directory; none where nothing is left.
pub open spec fn program_said(stdout: Seq<u8>) -> Option<Seq<char>> {
    let name = base_name(without_dashes(text::trim(text::utf8_lossy(stdout))));
    if name.len() > 0 {
        Some(name)
    } else {
        None
    }
}

/// The request that asks for the program of a process; none where there is no
/// process to ask about or nobody to ask.
pub fn parent_request(parent: i32, ps: &Option<String>) -> (r: Option<CommandRequest>)
    ensures
        r is Some == (parent > 1 && *ps is Some),
        r matches Some(q) ==> {
            &&& q.program@ == ps->0@
            &&& text::texts(q.args@) == seq![
                "-o"@,
                "comm="@,
                "-p"@,
                text::signed_decimal(parent as int),
            ]
            &&& q.cwd is None
            &&& q.env@ == Map::<Seq<char>, String>::empty()
            &&& q.remove_env@.len() == 0
            &&& !q.clear_env
        },
{
    if parent <= 1 {
        return None;
    }
    match ps {
        None => None,
        Some(program) => {
            let mut request = CommandRequest::new(program.as_str());
            let pid = text::signed_decimal_of(parent as i64);
            request.args = proc::Args::none().and("-o").and("comm=").and("-p").and(
                pid.as_str(),
            ).list;
            Some(request)
        },
    }
}

/// Reads the program of a process.
pub fn parent_program(output: &ProcessOutput) -> (r: Option<String>)
    ensures
        text::opt(r) == if output.succeeded() {
            program_said(output.stdout@)
        } else {
            None
        },
{
    if !output.success() {
        return None;
    }
    let said = text::lossy(output.stdout.as_slice());
    let name = text::trimmed(said.as_str());
    let a = text::chars_of(name.as_str());
    let mut i: usize = 0;
    proof {
        assert(a@.skip(0) =~= a@);
    }
    while i < a.len() && a[i] == '-'
        invariant
            i <= a.len(),
            a@ == name@,
            without_dashes(a@) == without_dashes(a@.skip(i as int)),
        decreases a.len() - i,
    {
        proof {
            assert(a@.skip(i as int)[0] == a@[i as int]);
            assert(a@.skip(i as int).skip(1) =~= a@.skip(i + 1));
        }
        i = i + 1;
    }
    proof {
        assert(a@.subrange(i as int, a@.len() as int) =~= a@.skip(i as int));
        if i < a@.len() {
            assert(a@.skip(i as int)[0] == a@[i as int]);
        }
    }
    let bare = text::slice(&a, i, a.len());
    let name = base(bare.as_str());
    if name.as_str().unicode_len() > 0 {
        Some(name)
    } else {
        None
    }
}

/// A name that is one of the known ones.
pub open spec fn known(name: Option<Seq<char>>, shells: Seq<Seq<char>>) -> Option<Seq<char>> {
    match name {
        Some(n) => if shells.contains(n) {
            Some(n)
        } else {
            None
        },
        None => None,
    }
}

/// The shell to install into: the program that called, where it is a known shell;
/// else the login shell, where that is one.
pub fn detected_shell(parent: &Option<String>, login: &Option<String>, shells: &Vec<String>) -> (r:
    Option<String>)
    ensures
        text::opt(r) == match known(text::opt(*parent), text::texts(shells@)) {
            Some(name) => Some(name),
            None => match text::opt(*login) {
                Some(shell) => known(Some(base_name(shell)), text::texts(shells@)),
                None => None,
            },
        },
{
    if let Some(name) = parent {
        if text::listed(shells, name.as_str()) {
            return Some(name.clone());
        }
    }
    match login {
        None => None,
        Some(shell) => {
            let name = base(shell.as_str());
            if text::listed(shells, name.as_str()) {
                Some(name)
            } else {
                None
            }
        },
    }
}

/// The first that was found is taken, and none only where none was.
pub proof fn the_first_that_was_found(found: Seq<Option<String>>, from: int)
    requires
        0 <= from,
    ensures
        match first_found(found, from) {
            Some(i) => from <= i < found.len() && found[i] is Some && forall|k: int|
                from <= k < i ==> (#[trigger] found[k]) is None,
            None => forall|k: int| from <= k < found.len() ==> (#[trigger] found[k]) is None,
        },
    decreases found.len() - from,
{
    if from < found.len() && found[from] is None {
        the_first_that_was_found(found, from + 1);
    }
}

} // verus!
