//! Entering a tree: when it may be, what its resources give to the environment, what
//! is said about that, and which files are written into it.

use vstd::prelude::*;
use vstd::string::*;

use crate::assoc::Assoc;
use crate::context;
use crate::context::{Registry, TreeRec};
use crate::course;
use crate::error;
use crate::error::{CoreError, ExitClass};
use crate::git;
use crate::lifecycle::{Materialized, MaterializedKind};
use crate::model::{DerivedPhase, ResourceState, StatePhase};
use crate::new;
use crate::order;
use crate::order::Keyed;
use crate::output;
use crate::output::{Notice, NoticeLevel};
use crate::path;
use crate::register;
use crate::text;

verus! {

broadcast use vstd::string::group_string_axioms;

// ---------------------------------------------------------------------------
// When a tree may be entered
// ---------------------------------------------------------------------------

/// What is said of a tree whose last operation failed.
pub open spec fn not_ready(target: Seq<char>) -> output::Said {
    output::about(
        NoticeLevel::Warn,
        "TREE_NOT_READY"@,
        target,
        "tree is usable but its last lifecycle operation failed"@,
    )
}

fn unready_notice(target: &str) -> (r: Notice)
    ensures
        r@ == not_ready(target@),
{
    output::notice(
        NoticeLevel::Warn,
        "TREE_NOT_READY",
        target,
        "tree is usable but its last lifecycle operation failed",
    )
}

/// The fault of a tree that something is under way with.
pub open spec fn busy(target: Seq<char>, phase: DerivedPhase) -> error::Fault {
    error::fault(
        ExitClass::Conflict,
        "TREE_BUSY"@,
        target + " is in phase "@ + new::phase_said(phase),
        "wait for the lifecycle operation or run its documented resume verb"@,
    )
}

/// Refuses a tree that something is under way with; says whether it is one whose last
/// operation failed.
pub fn may_enter(target: &str, phase: DerivedPhase) -> (r: Result<Option<Notice>, CoreError>)
    ensures
        match phase {
            DerivedPhase::Ready => r matches Ok(n) && n is None,
            DerivedPhase::Failed => r matches Ok(n) && (n matches Some(notice) && notice@
                == not_ready(target@)),
            _ => r matches Err(e) && e@ == busy(target@, phase),
        },
{
    match phase {
        DerivedPhase::Ready => Ok(None),
        DerivedPhase::Failed => Ok(Some(unready_notice(target))),
        _ => {
            let message = target.to_owned().concat(" is in phase ").concat(
                new::phase_word(phase),
            );
            Err(
                CoreError::new(
                    ExitClass::Conflict,
                    "TREE_BUSY",
                    message.as_str(),
                    "wait for the lifecycle operation or run its documented resume verb",
                ),
            )
        },
    }
}

/// Whether a notice of entering a tree is shown: a missing directory of programs
/// always is.
pub fn door_notice_shown(code: &str, quiet: bool, terminal: bool, verbose: bool) -> (r: bool)
    ensures
        r == (code@ == "BIN_DIR_MISSING"@ || (!quiet && (terminal || verbose))),
{
    text::same(code, "BIN_DIR_MISSING") || (!quiet && (terminal || verbose))
}

/// The fault of a tree that was replaced while ports were added to it.
pub open spec fn outrun() -> error::Fault {
    error::fault(
        ExitClass::Conflict,
        "TREE_REPLACED"@,
        "tree incarnation changed while appending ports"@,
        "retry the door against the current tree"@,
    )
}

/// A tree was replaced while ports were added to it.
pub fn ports_outrun() -> (r: CoreError)
    ensures
        r@ == outrun(),
{
    CoreError::new(
        ExitClass::Conflict,
        "TREE_REPLACED",
        "tree incarnation changed while appending ports",
        "retry the door against the current tree",
    )
}

/// The scope of the current directory in a tree: the path below its root, or the root
/// itself.
pub open spec fn scope_of(cwd: Seq<char>, root: Seq<char>) -> Seq<char> {
    match path::below(cwd, root) {
        Some(p) => if p.len() == 0 {
            "."@
        } else {
            p
        },
        None => "."@,
    }
}

/// The scope of the current directory in a tree.
pub fn cwd_scope(cwd: &str, root: &str) -> (r: String)
    ensures
        r@ == scope_of(cwd@, root@),
{
    match path::strip_base(cwd, root) {
        Some(p) => {
            let chars = text::chars_of(p.as_str());
            if chars.len() == 0 {
                ".".to_owned()
            } else {
                p
            }
        },
        None => ".".to_owned(),
    }
}

/// Where a command in a tree runs: in the current directory where that is inside, and
/// else at its root.
pub fn door_cwd(cwd: &str, root: &str) -> (r: String)
    ensures
        r@ == if path::under(cwd@, root@) {
            cwd@
        } else {
            root@
        },
{
    if path::starts_with(cwd, root) {
        cwd.to_owned()
    } else {
        root.to_owned()
    }
}

/// The source of a file that is written into a tree; one that is not there is
/// refused.
pub fn file_source(source: &str, read: Option<String>) -> (r: Result<String, CoreError>)
    ensures
        match read {
            Some(content) => r == Ok::<String, CoreError>(content),
            None => r matches Err(e) && e@ == error::fault(
                ExitClass::State,
                "FILE_SOURCE_MISSING"@,
                "file source `"@ + source@ + "` is missing"@,
                "restore the source file or disable the rendered file"@,
            ),
        },
{
    match read {
        Some(content) => Ok(content),
        None => {
            let message = "file source `".to_owned().concat(source).concat("` is missing");
            Err(
                CoreError::new(
                    ExitClass::State,
                    "FILE_SOURCE_MISSING",
                    message.as_str(),
                    "restore the source file or disable the rendered file",
                ),
            )
        },
    }
}

// ---------------------------------------------------------------------------
// What resources give to the environment
// ---------------------------------------------------------------------------

/// A resource: its place among all, how it stands, and its variables.
#[derive(Debug)]
pub struct ResourceEnv {
    pub place: u64,
    pub state: ResourceState,
    pub env: Assoc<String>,
}

/// What a resource gives to the environment.
#[derive(Debug)]
pub struct Contribution {
    pub place: u64,
    pub env: Vec<(String, String)>,
}

impl Keyed for Contribution {
    open spec fn key(&self) -> Seq<Seq<int>> {
        seq![seq![self.place as int]]
    }

    fn sort_key(&self) -> (r: Vec<Vec<u64>>) {
        let mut key: Vec<Vec<u64>> = Vec::new();
        key.push(order::number_part(self.place));
        proof {
            assert(order::key_view(key@) =~= seq![seq![self.place as int]]);
        }
        key
    }
}

/// Whether a variable may come from a resource: none of this program's own, and not
/// the search path.
pub open spec fn may_contribute(key: Seq<char>) -> bool {
    !text::starts(key, "WT_"@) && key != "PATH"@
}

/// The variables that may come from a resource.
pub open spec fn contributed_of(entries: Seq<(String, String)>) -> Seq<(Seq<char>, Seq<char>)>
    decreases entries.len(),
{
    if entries.len() == 0 {
        Seq::<(Seq<char>, Seq<char>)>::empty()
    } else {
        let rest = contributed_of(entries.drop_last());
        if may_contribute(entries.last().0@) {
            rest.push((entries.last().0@, entries.last().1@))
        } else {
            rest
        }
    }
}

/// What is known of a contribution.
pub open spec fn given_of(c: Contribution) -> (u64, Seq<(Seq<char>, Seq<char>)>) {
    (c.place, text::pairs(c.env@))
}

/// What resources give: those that are present, in the order in which they are listed.
pub open spec fn contributions(records: Seq<ResourceEnv>) -> Seq<
    (u64, Seq<(Seq<char>, Seq<char>)>),
>
    decreases records.len(),
{
    if records.len() == 0 {
        Seq::<(u64, Seq<(Seq<char>, Seq<char>)>)>::empty()
    } else {
        let rest = contributions(records.drop_last());
        let last = records.last();
        if last.state == ResourceState::Present {
            rest.push((last.place, contributed_of(last.env.entries@)))
        } else {
            rest
        }
    }
}

fn contributed(env: &Assoc<String>) -> (r: Vec<(String, String)>)
    ensures
        text::pairs(r@) == contributed_of(env.entries@),
{
    let ghost all = env.entries@;
    let mut out: Vec<(String, String)> = Vec::new();
    let mut i: usize = 0;
    proof {
        assert(text::pairs(out@) =~= Seq::<(Seq<char>, Seq<char>)>::empty());
    }
    while i < env.entries.len()
        invariant
            i <= env.entries.len(),
            all == env.entries@,
            text::pairs(out@) == contributed_of(all.take(i as int)),
        decreases env.entries.len() - i,
    {
        let ghost prior = text::pairs(out@);
        proof {
            assert(all.take(i + 1).drop_last() =~= all.take(i as int));
        }
        let e = &env.entries[i];
        if !text::starts_with(e.0.as_str(), "WT_") && !text::same(e.0.as_str(), "PATH") {
            out.push((e.0.clone(), e.1.clone()));
            proof {
                assert(text::pairs(out@) =~= prior.push((all[i as int].0@, all[i as int].1@)));
            }
        }
        i = i + 1;
    }
    proof {
        assert(all.take(all.len() as int) =~= all);
    }
    out
}

/// What resources give to the environment: those that are present, by their places,
/// without the variables that are this program's own or the search path.
pub fn present_resource_env(records: &Vec<ResourceEnv>) -> (r: Vec<Contribution>)
    ensures
        exists|given: Seq<Contribution>|
            #![trigger order::sorted(given)]
            given.map_values(|c: Contribution| given_of(c)) == contributions(records@) && r@
                == order::sorted(given),
{
    let mut out: Vec<Contribution> = Vec::new();
    let mut i: usize = 0;
    let ghost view = |c: Contribution| given_of(c);
    proof {
        assert(out@.map_values(view) =~= contributions(records@.take(0)));
    }
    while i < records.len()
        invariant
            i <= records.len(),
            view == (|c: Contribution| given_of(c)),
            out@.map_values(view) == contributions(records@.take(i as int)),
        decreases records.len() - i,
    {
        let ghost prior = out@.map_values(view);
        proof {
            assert(records@.take(i + 1).drop_last() =~= records@.take(i as int));
        }
        if records[i].state == ResourceState::Present {
            let one = Contribution { place: records[i].place, env: contributed(&records[i].env) };
            let ghost o = given_of(one);
            out.push(one);
            proof {
                assert(out@.map_values(view) =~= prior.push(o));
            }
        }
        i = i + 1;
    }
    proof {
        assert(records@.take(records@.len() as int) =~= records@);
    }
    order::sort(out)
}

/// No resource sets one of this program's own variables, or the search path.
pub proof fn resources_leave_own_variables_alone(entries: Seq<(String, String)>, i: int)
    requires
        0 <= i < contributed_of(entries).len(),
    ensures
        may_contribute(contributed_of(entries)[i].0),
    decreases entries.len(),
{
    let rest = entries.drop_last();
    if i < contributed_of(rest).len() {
        resources_leave_own_variables_alone(rest, i);
    }
}

// ---------------------------------------------------------------------------
// What is said about the environment
// ---------------------------------------------------------------------------

/// What is said about missing directories of programs.
pub open spec fn missing_said(target: Seq<char>, bins: Seq<Seq<char>>) -> Seq<output::Said> {
    bins.map_values(
        |p: Seq<char>|
            output::about(
                NoticeLevel::Warn,
                "BIN_DIR_MISSING"@,
                target,
                "declared bin directory "@ + p + " is missing"@,
            ),
    )
}

/// What is said about values of the caller that were kept.
pub open spec fn kept_said(target: Seq<char>, keys: Seq<Seq<char>>) -> Seq<output::Said> {
    keys.map_values(
        |k: Seq<char>|
            output::about(
                NoticeLevel::Info,
                "ENV_KEPT"@,
                target,
                "kept the caller's value for "@ + k,
            ),
    )
}

/// What is said about the environment, before it is put in order.
pub open spec fn env_said(
    target: Seq<char>,
    bins: Seq<Seq<char>>,
    activation_ignored: bool,
    kept: Seq<Seq<char>>,
) -> Seq<output::Said> {
    missing_said(target, bins) + (if activation_ignored {
        seq![
            output::about(
                NoticeLevel::Warn,
                "ACTIVATION_IGNORED"@,
                target,
                "invalid WT_ACTIVATION metadata was ignored"@,
            ),
        ]
    } else {
        Seq::<output::Said>::empty()
    }) + kept_said(target, kept)
}

/// What is said about the environment of a tree, in the order of notices.
pub fn env_notices(
    target: &str,
    missing_bins: &Vec<String>,
    activation_ignored: bool,
    kept: &Vec<String>,
) -> (r: Vec<Notice>)
    ensures
        exists|given: Seq<Notice>|
            #![trigger order::sorted(given)]
            output::said(given) == env_said(
                target@,
                text::texts(missing_bins@),
                activation_ignored,
                text::texts(kept@),
            ) && r@ == order::sorted(given),
{
    let mut out: Vec<Notice> = Vec::new();
    let ghost first = missing_said(target@, text::texts(missing_bins@));
    let mut i: usize = 0;
    proof {
        assert(output::said(out@) =~= first.take(0));
    }
    while i < missing_bins.len()
        invariant
            i <= missing_bins.len(),
            first == missing_said(target@, text::texts(missing_bins@)),
            output::said(out@) == first.take(i as int),
        decreases missing_bins.len() - i,
    {
        let ghost prior = output::said(out@);
        let message = "declared bin directory ".to_owned().concat(
            missing_bins[i].as_str(),
        ).concat(" is missing");
        let one = output::notice(
            NoticeLevel::Warn,
            "BIN_DIR_MISSING",
            target,
            message.as_str(),
        );
        let ghost o = one@;
        out.push(one);
        proof {
            assert(output::said(out@) =~= prior.push(o));
            assert(o == first[i as int]);
            assert(first.take(i + 1) =~= first.take(i as int).push(first[i as int]));
        }
        i = i + 1;
    }
    proof {
        assert(first.take(missing_bins@.len() as int) =~= first);
    }
    if activation_ignored {
        let ghost prior = output::said(out@);
        let one = output::notice(
            NoticeLevel::Warn,
            "ACTIVATION_IGNORED",
            target,
            "invalid WT_ACTIVATION metadata was ignored",
        );
        let ghost o = one@;
        out.push(one);
        proof {
            assert(output::said(out@) =~= prior + seq![o]);
        }
    } else {
        proof {
            assert(output::said(out@) =~= first + Seq::<output::Said>::empty());
        }
    }
    let ghost lead = output::said(out@);
    let ghost last = kept_said(target@, text::texts(kept@));
    let mut k: usize = 0;
    proof {
        assert(lead + last.take(0) =~= lead);
    }
    while k < kept.len()
        invariant
            k <= kept.len(),
            last == kept_said(target@, text::texts(kept@)),
            output::said(out@) == lead + last.take(k as int),
        decreases kept.len() - k,
    {
        let ghost prior = output::said(out@);
        let message = "kept the caller's value for ".to_owned().concat(kept[k].as_str());
        let one = output::notice(NoticeLevel::Info, "ENV_KEPT", target, message.as_str());
        let ghost o = one@;
        out.push(one);
        proof {
            assert(output::said(out@) =~= prior.push(o));
            assert(o == last[k as int]);
            assert(lead + last.take(k + 1) =~= (lead + last.take(k as int)).push(last[k as int]));
        }
        k = k + 1;
    }
    proof {
        assert(last.take(kept@.len() as int) =~= last);
    }
    order::sort(out)
}

// ---------------------------------------------------------------------------
// Files that are written into a tree
// ---------------------------------------------------------------------------

/// Whether a character is an octal digit.
pub open spec fn is_octal(c: char) -> bool {
    '0' <= c <= '7'
}

/// The number that octal digits are.
pub open spec fn octal_value(digits: Seq<char>) -> nat
    decreases digits.len(),
{
    if digits.len() == 0 {
        0
    } else {
        octal_value(digits.drop_last()) * 8 + (digits.last() as nat - '0' as nat) as nat
    }
}

/// The digits of a number that may have a sign.
pub open spec fn unsigned_part(s: Seq<char>) -> Seq<char> {
    if s.len() > 0 && s[0] == '+' {
        s.skip(1)
    } else {
        s
    }
}

/// The number that a text is in octal, where it is one that fits.
pub open spec fn octal(s: Seq<char>) -> Option<nat> {
    let digits = unsigned_part(s);
    if digits.len() > 0 && (forall|i: int| 0 <= i < digits.len() ==> is_octal(#[trigger] digits[i]))
        && octal_value(digits) <= u32::MAX {
        Some(octal_value(digits))
    } else {
        None
    }
}

proof fn lemma_octal_grows(digits: Seq<char>, n: int)
    requires
        0 <= n <= digits.len(),
        forall|i: int| 0 <= i < digits.len() ==> is_octal(#[trigger] digits[i]),
    ensures
        octal_value(digits.take(n)) <= octal_value(digits),
    decreases digits.len() - n,
{
    if n < digits.len() {
        lemma_octal_grows(digits, n + 1);
        assert(digits.take(n + 1).drop_last() =~= digits.take(n));
        assert(is_octal(digits[n]));
    } else {
        assert(digits.take(n) =~= digits);
    }
}

/// Reads a number in octal.
pub fn parse_octal(s: &str) -> (r: Option<u32>)
    ensures
        match r {
            Some(n) => Some(n as nat),
            None => None,
        } == octal(s@),
{
    let chars = text::chars_of(s);
    let start: usize = if chars.len() > 0 && chars[0] == '+' {
        1
    } else {
        0
    };
    let ghost digits = unsigned_part(s@);
    proof {
        assert(digits =~= chars@.skip(start as int));
    }
    if start == chars.len() {
        return None;
    }
    let mut n: u32 = 0;
    let mut i: usize = start;
    proof {
        assert(digits.take(0) =~= Seq::<char>::empty());
    }
    while i < chars.len()
        invariant
            start <= i <= chars.len(),
            digits == chars@.skip(start as int),
            digits == unsigned_part(s@),
            digits.len() > 0,
            forall|k: int| 0 <= k < i - start ==> is_octal(#[trigger] digits[k]),
            n == octal_value(digits.take(i - start)),
        decreases chars.len() - i,
    {
        let c = chars[i];
        proof {
            assert(digits[i - start] == c);
            assert(digits.take(i - start + 1).drop_last() =~= digits.take(i - start));
            assert(digits.take(i - start + 1).last() == c);
        }
        if !('0' <= c && c <= '7') {
            return None;
        }
        let d: u32 = c as u32 - '0' as u32;
        if n > (4294967295 - d) / 8 {
            proof {
                assert(octal_value(digits.take(i - start + 1)) == n * 8 + d);
                assert(octal_value(digits.take(i - start + 1)) > u32::MAX);
                if forall|k: int| 0 <= k < digits.len() ==> is_octal(#[trigger] digits[k]) {
                    lemma_octal_grows(digits, i - start + 1);
                }
            }
            return None;
        }
        n = n * 8 + d;
        i = i + 1;
    }
    proof {
        assert(digits.take(i - start) =~= digits);
    }
    Some(n)
}

/// A file that is to be written into a tree: where, with which mode, and the hash of
/// what it is to hold.
#[derive(Debug)]
pub struct RenderItem {
    pub path: String,
    pub mode: String,
    pub hash: String,
}

/// What is known of a file that is to be written.
#[verifier::ext_equal]
pub struct Wanted {
    pub path: Seq<char>,
    pub mode: Seq<char>,
    pub hash: Seq<char>,
}

impl View for RenderItem {
    type V = Wanted;

    open spec fn view(&self) -> Wanted {
        Wanted { path: self.path@, mode: self.mode@, hash: self.hash@ }
    }
}

/// What is known of files that are to be written.
pub open spec fn wanted(items: Seq<RenderItem>) -> Seq<Wanted> {
    items.map_values(|i: RenderItem| i@)
}

/// What is on record of a file that was put into a tree.
#[verifier::ext_equal]
pub struct Kept {
    pub path: Seq<char>,
    pub kind: MaterializedKind,
    pub hash: Option<Seq<char>>,
    pub checked_at: Seq<char>,
}

impl View for Materialized {
    type V = Kept;

    open spec fn view(&self) -> Kept {
        Kept {
            path: self.path@,
            kind: self.kind,
            hash: text::opt(self.hash),
            checked_at: self.checked_at@,
        }
    }
}

/// What is on record of files.
pub open spec fn kept(list: Seq<Materialized>) -> Seq<Kept> {
    list.map_values(|m: Materialized| m@)
}

impl Keyed for Materialized {
    open spec fn key(&self) -> Seq<Seq<int>> {
        seq![order::ranks(self.path@)]
    }

    fn sort_key(&self) -> (r: Vec<Vec<u64>>) {
        let mut key: Vec<Vec<u64>> = Vec::new();
        key.push(order::text_part(self.path.as_str()));
        proof {
            assert(order::key_view(key@) =~= self.key());
        }
        key
    }
}

/// Which files are at a path.
pub open spec fn kept_at(list: Seq<Kept>, p: Seq<char>) -> Seq<bool> {
    list.map_values(|k: Kept| k.path == p)
}

/// Which files are at a path and were written.
pub open spec fn rendered_at(list: Seq<Kept>, p: Seq<char>) -> Seq<bool> {
    list.map_values(|k: Kept| k.path == p && k.kind == MaterializedKind::Rendered)
}

/// The hash of what was written at a path, where anything was.
pub open spec fn recorded_hash(list: Seq<Kept>, p: Seq<char>) -> Option<Option<Seq<char>>> {
    match git::first_true(rendered_at(list, p), 0) {
        Some(i) => Some(list[i].hash),
        None => None,
    }
}

/// The record with a file that was written: the one at its path is it now, and else it
/// is new.
pub open spec fn recorded(list: Seq<Kept>, p: Seq<char>, hash: Seq<char>, at: Seq<char>) -> Seq<Kept> {
    match git::first_true(kept_at(list, p), 0) {
        Some(i) => list.update(
            i,
            Kept { kind: MaterializedKind::Rendered, hash: Some(hash), ..list[i] },
        ),
        None => list.push(
            Kept {
                path: p,
                kind: MaterializedKind::Rendered,
                hash: Some(hash),
                checked_at: at,
            },
        ),
    }
}

fn find_kept(list: &Vec<Materialized>, p: &str) -> (r: Option<usize>)
    ensures
        context::place(r) == git::first_true(kept_at(kept(list@), p@), 0),
        r matches Some(i) ==> i < list@.len(),
{
    let ghost flags = kept_at(kept(list@), p@);
    let mut i: usize = 0;
    while i < list.len()
        invariant
            i <= list.len(),
            flags == kept_at(kept(list@), p@),
            git::first_true(flags, 0) == git::first_true(flags, i as int),
        decreases list.len() - i,
    {
        if text::same(list[i].path.as_str(), p) {
            return Some(i);
        }
        i = i + 1;
    }
    None
}

/// The hash of what was written at a path, where anything was.
pub fn render_record(list: &Vec<Materialized>, p: &str) -> (r: Option<Option<String>>)
    ensures
        match r {
            Some(h) => Some(text::opt(h)),
            None => None,
        } == recorded_hash(kept(list@), p@),
{
    let ghost flags = rendered_at(kept(list@), p@);
    let mut i: usize = 0;
    while i < list.len()
        invariant
            i <= list.len(),
            flags == rendered_at(kept(list@), p@),
            git::first_true(flags, 0) == git::first_true(flags, i as int),
        decreases list.len() - i,
    {
        if text::same(list[i].path.as_str(), p) && list[i].kind == MaterializedKind::Rendered {
            return Some(list[i].hash.clone());
        }
        i = i + 1;
    }
    None
}

fn record(list: &mut Vec<Materialized>, p: &str, hash: &str, at: &str) -> (fresh: bool)
    ensures
        kept(final(list)@) == recorded(kept(old(list)@), p@, hash@, at@),
        fresh == (git::first_true(kept_at(kept(old(list)@), p@), 0) is None),
{
    let ghost before = kept(list@);
    match find_kept(list, p) {
        Some(i) => {
            let old_path = list[i].path.clone();
            let old_at = list[i].checked_at.clone();
            let one = Materialized {
                path: old_path,
                kind: MaterializedKind::Rendered,
                hash: Some(hash.to_owned()),
                checked_at: old_at,
            };
            let ghost o = one@;
            list.set(i, one);
            proof {
                assert(kept(list@) =~= before.update(i as int, o));
            }
            false
        },
        None => {
            let one = Materialized {
                path: p.to_owned(),
                kind: MaterializedKind::Rendered,
                hash: Some(hash.to_owned()),
                checked_at: at.to_owned(),
            };
            let ghost o = one@;
            list.push(one);
            proof {
                assert(kept(list@) =~= before.push(o));
            }
            true
        },
    }
}

/// What writing files does next.
#[derive(Clone, Copy, Debug, PartialEq, Eq, Structural)]
pub enum RenderStep {
    /// Ask git which of the files it tracks.
    AskGit,
    /// Hold the file at this place against what is there.
    Compare(usize),
    /// Nothing is to be written.
    Settled,
    /// Lock the tree's record, and read it again.
    Lock,
    /// Hold the file at this place against what is there, under the lock.
    Decide(usize),
    /// Write the file at this place.
    Write(usize),
    /// Write the tree's record.
    Save,
    /// Work the exclude out anew.
    Exclude,
    Done,
    Failed,
}

/// What came of a step.
#[derive(Debug)]
pub enum RenderEvent {
    Failure(CoreError),
    Finished,
    /// Whether the file is to be written.
    Differs(bool),
    /// The tree's record, where there is one, and the time.
    Record { list: Option<Vec<Materialized>>, now: String },
}

/// What is known of an event.
pub enum Rendered {
    Failure(error::Fault),
    Finished,
    Differs(bool),
    Record { list: Option<Seq<Kept>>, now: Seq<char> },
}

/// The record, where there is one.
pub open spec fn kept_option(list: Option<Vec<Materialized>>) -> Option<Seq<Kept>> {
    match list {
        Some(l) => Some(kept(l@)),
        None => None,
    }
}

impl View for RenderEvent {
    type V = Rendered;

    open spec fn view(&self) -> Rendered {
        match self {
            RenderEvent::Failure(e) => Rendered::Failure(e@),
            RenderEvent::Finished => Rendered::Finished,
            RenderEvent::Differs(yes) => Rendered::Differs(*yes),
            RenderEvent::Record { list, now } => Rendered::Record {
                list: kept_option(*list),
                now: now@,
            },
        }
    }
}

/// Files that are being written into a tree.
#[derive(Debug)]
pub struct Rendering {
    pub items: Vec<RenderItem>,
    pub step: RenderStep,
    pub materialized: Vec<Materialized>,
    pub checked_at: String,
    pub changed_set: bool,
    pub changed_bytes: bool,
    pub error: Option<CoreError>,
}

/// What is known of files that are being written.
#[verifier::ext_equal]
pub struct Work {
    pub items: Seq<Wanted>,
    pub step: RenderStep,
    pub materialized: Seq<Kept>,
    pub checked_at: Seq<char>,
    pub changed_set: bool,
    pub changed_bytes: bool,
    pub error: Option<error::Fault>,
}

impl View for Rendering {
    type V = Work;

    open spec fn view(&self) -> Work {
        Work {
            items: wanted(self.items@),
            step: self.step,
            materialized: kept(self.materialized@),
            checked_at: self.checked_at@,
            changed_set: self.changed_set,
            changed_bytes: self.changed_bytes,
            error: match self.error {
                Some(e) => Some(e@),
                None => None,
            },
        }
    }
}

/// The fault of a tree without a record.
pub open spec fn no_state() -> error::Fault {
    error::fault(
        ExitClass::State,
        "STATE_CORRUPT"@,
        "tree state is missing"@,
        "run `wt doctor` and repair the tree state"@,
    )
}

/// Whether a file is held against what git tracks: all are, or those that are not on
/// record.
pub open spec fn to_check(list: Seq<Kept>, p: Seq<char>, check_all: bool) -> bool {
    check_all || git::first_true(kept_at(list, p), 0) is None
}

/// The files that are held against what git tracks.
pub open spec fn checked_paths(items: Seq<Wanted>, list: Seq<Kept>, check_all: bool) -> Seq<Seq<char>>
    decreases items.len(),
{
    if items.len() == 0 {
        Seq::<Seq<char>>::empty()
    } else {
        let rest = checked_paths(items.drop_last(), list, check_all);
        if to_check(list, items.last().path, check_all) {
            rest.push(items.last().path)
        } else {
            rest
        }
    }
}

/// The files that are held against what git tracks.
pub fn paths_to_check(items: &Vec<RenderItem>, list: &Vec<Materialized>, check_all: bool) -> (r: Vec<
    String,
>)
    ensures
        text::texts(r@) == checked_paths(wanted(items@), kept(list@), check_all),
{
    let ghost all = wanted(items@);
    let mut out: Vec<String> = Vec::new();
    let mut i: usize = 0;
    proof {
        assert(text::texts(out@) =~= Seq::<Seq<char>>::empty());
    }
    while i < items.len()
        invariant
            i <= items.len(),
            all == wanted(items@),
            text::texts(out@) == checked_paths(all.take(i as int), kept(list@), check_all),
        decreases items.len() - i,
    {
        let ghost prior = text::texts(out@);
        proof {
            assert(all.take(i + 1).drop_last() =~= all.take(i as int));
            assert(all.take(i + 1).last() == items@[i as int]@);
        }
        if check_all || find_kept(list, items[i].path.as_str()).is_none() {
            out.push(items[i].path.clone());
            proof {
                assert(text::texts(out@) =~= prior.push(items@[i as int].path@));
            }
        }
        i = i + 1;
    }
    proof {
        assert(all.take(items@.len() as int) =~= all);
    }
    out
}

/// How writing files begins: not at all where there are none; refused where the tree
/// has no record.
pub open spec fn begun(items: Seq<Wanted>, state: Option<Seq<Kept>>, check_all: bool) -> Work {
    let w = Work {
        items,
        step: RenderStep::Done,
        materialized: match state {
            Some(list) => list,
            None => Seq::<Kept>::empty(),
        },
        checked_at: Seq::<char>::empty(),
        changed_set: false,
        changed_bytes: false,
        error: None,
    };
    if items.len() == 0 {
        w
    } else {
        match state {
            None => Work { step: RenderStep::Failed, error: Some(no_state()), ..w },
            Some(list) => Work {
                step: if checked_paths(items, list, check_all).len() == 0 {
                    RenderStep::Compare(0)
                } else {
                    RenderStep::AskGit
                },
                ..w
            },
        }
    }
}

/// With a file dealt with under the lock.
pub open spec fn after_item(w: Work, i: int) -> Work {
    Work {
        step: if i + 1 < w.items.len() {
            RenderStep::Decide((i + 1) as usize)
        } else if w.changed_bytes {
            RenderStep::Save
        } else {
            RenderStep::Done
        },
        ..w
    }
}

/// Writing files after something came of its step. What does not belong to the step
/// changes nothing.
pub open spec fn rendered(w: Work, event: Rendered) -> Work {
    match (w.step, event) {
        (RenderStep::Done, _) | (RenderStep::Failed, _) => w,
        (_, Rendered::Failure(e)) => Work { step: RenderStep::Failed, error: Some(e), ..w },
        (RenderStep::AskGit, Rendered::Finished) => Work { step: RenderStep::Compare(0), ..w },
        (RenderStep::Compare(i), Rendered::Differs(yes)) => Work {
            step: if yes {
                RenderStep::Lock
            } else if i + 1 < w.items.len() {
                RenderStep::Compare((i + 1) as usize)
            } else {
                RenderStep::Settled
            },
            ..w
        },
        (RenderStep::Settled, Rendered::Finished) => Work { step: RenderStep::Done, ..w },
        (RenderStep::Lock, Rendered::Record { list, now }) => match list {
            Some(l) => Work { materialized: l, checked_at: now, step: RenderStep::Decide(0), ..w },
            None => Work { step: RenderStep::Failed, error: Some(no_state()), ..w },
        },
        (RenderStep::Decide(i), Rendered::Differs(yes)) => if !yes {
            after_item(w, i as int)
        } else if octal(w.items[i as int].mode) is None {
            Work {
                step: RenderStep::Failed,
                error: Some(
                    error::fault(
                        ExitClass::State,
                        "CONFIG_INVALID"@,
                        "render mode is invalid"@,
                        "use a four-digit octal mode"@,
                    ),
                ),
                ..w
            }
        } else {
            Work { step: RenderStep::Write(i), ..w }
        },
        (RenderStep::Write(i), Rendered::Finished) => after_item(
            Work {
                changed_bytes: true,
                changed_set: w.changed_set || git::first_true(
                    kept_at(w.materialized, w.items[i as int].path),
                    0,
                ) is None,
                materialized: recorded(
                    w.materialized,
                    w.items[i as int].path,
                    w.items[i as int].hash,
                    w.checked_at,
                ),
                ..w
            },
            i as int,
        ),
        (RenderStep::Save, Rendered::Finished) => Work {
            step: if w.changed_set {
                RenderStep::Exclude
            } else {
                RenderStep::Done
            },
            ..w
        },
        (RenderStep::Exclude, Rendered::Finished) => Work { step: RenderStep::Done, ..w },
        _ => w,
    }
}

impl Rendering {
    /// What holds at every step: the place of a file is one of a file; only a file with
    /// a mode is written; and what is new on record was written.
    pub open spec fn wf(&self) -> bool {
        work_wf(self@)
    }

    /// Begins to write files; `state` is the tree's record, where it has one.
    pub fn new(items: Vec<RenderItem>, state: Option<Vec<Materialized>>, check_all: bool) -> (r: Self)
        ensures
            r.wf(),
            r@ == begun(wanted(items@), kept_option(state), check_all),
    {
        let mut materialized: Vec<Materialized> = Vec::new();
        let mut step = RenderStep::Done;
        let mut error: Option<CoreError> = None;
        proof {
            assert(wanted(items@).len() == items@.len());
            assert(kept(materialized@) =~= Seq::<Kept>::empty());
            reveal_strlit("");
            assert(""@ =~= Seq::<char>::empty());
        }
        match state {
            Some(list) => {
                if items.len() > 0 {
                    let check = paths_to_check(&items, &list, check_all);
                    proof {
                        assert(text::texts(check@).len() == check@.len());
                    }
                    step = if check.len() == 0 {
                        RenderStep::Compare(0)
                    } else {
                        RenderStep::AskGit
                    };
                }
                materialized = list;
            },
            None => {
                if items.len() > 0 {
                    step = RenderStep::Failed;
                    error = Some(missing_state());
                }
            },
        }
        Rendering {
            items,
            step,
            materialized,
            checked_at: text::owned(""),
            changed_set: false,
            changed_bytes: false,
            error,
        }
    }

    fn next_item(&mut self, i: usize)
        requires
            i < old(self).items@.len(),
        ensures
            final(self)@ == after_item(old(self)@, i as int),
    {
        proof {
            assert(self@.items.len() == self.items@.len());
        }
        self.step = if i < self.items.len() - 1 {
            RenderStep::Decide(i + 1)
        } else if self.changed_bytes {
            RenderStep::Save
        } else {
            RenderStep::Done
        };
    }

    /// Takes what came of the step, and goes on to the next.
    pub fn advance(&mut self, event: RenderEvent)
        requires
            old(self).wf(),
        ensures
            final(self).wf(),
            final(self)@ == rendered(old(self)@, event@),
    {
        proof {
            assert(self@.items.len() == self.items@.len());
        }
        match self.step {
            RenderStep::Done | RenderStep::Failed => {
                return;
            },
            _ => {},
        }
        match event {
            RenderEvent::Failure(e) => {
                self.step = RenderStep::Failed;
                self.error = Some(e);
            },
            RenderEvent::Finished => {
                match self.step {
                    RenderStep::AskGit => {
                        self.step = RenderStep::Compare(0);
                    },
                    RenderStep::Settled | RenderStep::Exclude => {
                        self.step = RenderStep::Done;
                    },
                    RenderStep::Write(i) => {
                        proof {
                            assert(self@.items[i as int] == self.items@[i as int]@);
                        }
                        let fresh = record(
                            &mut self.materialized,
                            self.items[i].path.as_str(),
                            self.items[i].hash.as_str(),
                            self.checked_at.as_str(),
                        );
                        self.changed_bytes = true;
                        self.changed_set = self.changed_set || fresh;
                        self.next_item(i);
                    },
                    RenderStep::Save => {
                        self.step = if self.changed_set {
                            RenderStep::Exclude
                        } else {
                            RenderStep::Done
                        };
                    },
                    _ => {},
                }
            },
            RenderEvent::Differs(yes) => {
                match self.step {
                    RenderStep::Compare(i) => {
                        self.step = if yes {
                            RenderStep::Lock
                        } else if i < self.items.len() - 1 {
                            RenderStep::Compare(i + 1)
                        } else {
                            RenderStep::Settled
                        };
                    },
                    RenderStep::Decide(i) => {
                        proof {
                            assert(self@.items[i as int] == self.items@[i as int]@);
                        }
                        if !yes {
                            self.next_item(i);
                        } else if parse_octal(self.items[i].mode.as_str()).is_none() {
                            self.step = RenderStep::Failed;
                            self.error = Some(
                                CoreError::new(
                                    ExitClass::State,
                                    "CONFIG_INVALID",
                                    "render mode is invalid",
                                    "use a four-digit octal mode",
                                ),
                            );
                        } else {
                            self.step = RenderStep::Write(i);
                        }
                    },
                    _ => {},
                }
            },
            RenderEvent::Record { list, now } => {
                if self.step == RenderStep::Lock {
                    match list {
                        Some(l) => {
                            self.materialized = l;
                            self.checked_at = now;
                            self.step = RenderStep::Decide(0);
                        },
                        None => {
                            self.step = RenderStep::Failed;
                            self.error = Some(missing_state());
                        },
                    }
                }
            },
        }
    }

    /// What is put on record: by path.
    pub fn to_save(self) -> (r: Vec<Materialized>)
        ensures
            r@ == order::sorted(self.materialized@),
    {
        order::sort(self.materialized)
    }
}

/// A tree has no record.
fn missing_state() -> (r: CoreError)
    ensures
        r@ == no_state(),
{
    CoreError::new(
        ExitClass::State,
        "STATE_CORRUPT",
        "tree state is missing",
        "run `wt doctor` and repair the tree state",
    )
}

/// What holds of writing files at every step.
pub open spec fn work_wf(w: Work) -> bool {
    &&& (w.step matches RenderStep::Compare(i) ==> i < w.items.len())
    &&& (w.step matches RenderStep::Decide(i) ==> i < w.items.len())
    &&& (w.step matches RenderStep::Write(i) ==> i < w.items.len() && octal(
        w.items[i as int].mode,
    ) is Some)
    &&& (w.step == RenderStep::AskGit || w.step == RenderStep::Settled || w.step
        == RenderStep::Lock) ==> w.items.len() > 0
    &&& w.changed_set ==> w.changed_bytes
    &&& w.step == RenderStep::Save ==> w.changed_bytes
    &&& w.step == RenderStep::Exclude ==> w.changed_set
}

proof fn lemma_first_true(flags: Seq<bool>, from: int)
    requires
        0 <= from,
    ensures
        match git::first_true(flags, from) {
            Some(i) => from <= i < flags.len() && flags[i] && (forall|k: int|
                from <= k < i ==> !#[trigger] flags[k]),
            None => forall|k: int| from <= k < flags.len() ==> !#[trigger] flags[k],
        },
    decreases flags.len() - from,
{
    if from < flags.len() && !flags[from] {
        lemma_first_true(flags, from + 1);
    }
}

proof fn lemma_first_is(flags: Seq<bool>, from: int, i: int)
    requires
        0 <= from <= i < flags.len(),
        flags[i],
        forall|k: int| from <= k < i ==> !#[trigger] flags[k],
    ensures
        git::first_true(flags, from) == Some(i),
    decreases i - from,
{
    if from < i {
        lemma_first_is(flags, from + 1, i);
    }
}

/// A file that was written is on record with the hash of what was written, and the
/// records of other files are as they were.
pub proof fn written_files_are_recorded(
    list: Seq<Kept>,
    p: Seq<char>,
    hash: Seq<char>,
    at: Seq<char>,
    other: Seq<char>,
)
    requires
        other != p,
    ensures
        recorded_hash(recorded(list, p, hash, at), p) == Some(Some(hash)),
        recorded_hash(recorded(list, p, hash, at), other) == recorded_hash(list, other),
{
    let now = recorded(list, p, hash, at);
    lemma_first_true(kept_at(list, p), 0);
    lemma_first_true(rendered_at(list, other), 0);
    match git::first_true(kept_at(list, p), 0) {
        Some(i) => {
            assert forall|k: int| 0 <= k < i implies !#[trigger] rendered_at(now, p)[k] by {
                assert(!kept_at(list, p)[k]);
            }
            assert(rendered_at(now, p)[i]);
            lemma_first_is(rendered_at(now, p), 0, i);
            assert(list[i].path == p) by {
                assert(kept_at(list, p)[i]);
            }
            assert(rendered_at(now, other) =~= rendered_at(list, other));
        },
        None => {
            let n = list.len() as int;
            assert forall|k: int| 0 <= k < n implies !#[trigger] rendered_at(now, p)[k] by {
                assert(!kept_at(list, p)[k]);
            }
            assert(rendered_at(now, p)[n]);
            lemma_first_is(rendered_at(now, p), 0, n);
            let a = rendered_at(list, other);
            let b = rendered_at(now, other);
            assert(b =~= a.push(false));
            lemma_first_true(b, 0);
            match git::first_true(a, 0) {
                Some(i) => {
                    assert forall|k: int| 0 <= k < i implies !#[trigger] b[k] by {
                        assert(!a[k]);
                    }
                    assert(b[i] == a[i]);
                    lemma_first_is(b, 0, i);
                    assert(now[i] == list[i]);
                },
                None => {
                    if let Some(i) = git::first_true(b, 0) {
                        assert(b[i]);
                        if i < n {
                            assert(a[i]);
                        }
                    }
                },
            }
        },
    }
}

/// Where a file is new on record, the exclude is worked out anew before writing files
/// is done.
pub proof fn new_files_are_excluded(w: Work)
    requires
        work_wf(w),
        w.step == RenderStep::Save,
        w.changed_set,
    ensures
        rendered(w, Rendered::Finished).step == RenderStep::Exclude,
{
}

// ---------------------------------------------------------------------------
// The exclude
// ---------------------------------------------------------------------------

/// The files that a tree or a tombstone of a label has put into it.
#[derive(Debug)]
pub struct Owned {
    pub label: String,
    pub paths: Vec<String>,
}

/// The files of a label.
pub open spec fn owned_paths(owners: Seq<Owned>, label: Seq<char>) -> Seq<Seq<char>>
    decreases owners.len(),
{
    if owners.len() == 0 {
        Seq::<Seq<char>>::empty()
    } else {
        let rest = owned_paths(owners.drop_last(), label);
        if owners.last().label@ == label {
            rest + text::texts(owners.last().paths@)
        } else {
            rest
        }
    }
}

/// The paths that git is told to pass over for a label: this program's own directory
/// and its temporary files, and the files of the label's trees and tombstones.
pub open spec fn excluded(trees: Seq<Owned>, tombstones: Seq<Owned>, label: Seq<char>) -> Seq<
    Seq<char>,
> {
    seq![".wt/"@, "**/.wt-tmp-*"@] + owned_paths(trees, label) + owned_paths(tombstones, label)
}

fn push_owned(out: &mut Vec<String>, owners: &Vec<Owned>, label: &str)
    ensures
        text::texts(final(out)@) == text::texts(old(out)@) + owned_paths(owners@, label@),
{
    let ghost start = text::texts(out@);
    let mut i: usize = 0;
    proof {
        assert(start + owned_paths(owners@.take(0), label@) =~= start);
    }
    while i < owners.len()
        invariant
            i <= owners.len(),
            text::texts(out@) == start + owned_paths(owners@.take(i as int), label@),
        decreases owners.len() - i,
    {
        let ghost so_far = owned_paths(owners@.take(i as int), label@);
        proof {
            assert(owners@.take(i + 1).drop_last() =~= owners@.take(i as int));
        }
        if text::same(owners[i].label.as_str(), label) {
            let ghost lead = text::texts(out@);
            let ghost all = text::texts(owners@[i as int].paths@);
            let mut k: usize = 0;
            proof {
                assert(lead + all.take(0) =~= lead);
            }
            while k < owners[i as usize].paths.len()
                invariant
                    i < owners.len(),
                    k <= owners@[i as int].paths@.len(),
                    all == text::texts(owners@[i as int].paths@),
                    text::texts(out@) == lead + all.take(k as int),
                decreases owners@[i as int].paths@.len() - k,
            {
                let ghost prior = text::texts(out@);
                out.push(owners[i].paths[k].clone());
                proof {
                    assert(text::texts(out@) =~= prior.push(all[k as int]));
                    assert(lead + all.take(k + 1) =~= (lead + all.take(k as int)).push(
                        all[k as int],
                    ));
                }
                k = k + 1;
            }
            proof {
                assert(all.take(all.len() as int) =~= all);
                assert(start + so_far + all =~= start + (so_far + all));
            }
        }
        i = i + 1;
    }
    proof {
        assert(owners@.take(owners@.len() as int) =~= owners@);
    }
}

/// The paths that git is told to pass over for a label.
pub fn exclude_paths(trees: &Vec<Owned>, tombstones: &Vec<Owned>, label: &str) -> (r: Vec<String>)
    ensures
        text::texts(r@) == excluded(trees@, tombstones@, label@),
{
    let mut out: Vec<String> = Vec::new();
    out.push(".wt/".to_owned());
    out.push("**/.wt-tmp-*".to_owned());
    proof {
        assert(text::texts(out@) =~= seq![".wt/"@, "**/.wt-tmp-*"@]);
    }
    push_owned(&mut out, trees, label);
    push_owned(&mut out, tombstones, label);
    out
}

// ---------------------------------------------------------------------------
// Entering
// ---------------------------------------------------------------------------

/// Puts ports that were added to a tree on record; every other thing stays. The tree is
/// found by its identity: one that was replaced since is refused.
pub fn record_ports(registry: &mut Registry, tree_id: &str, ports: &Assoc<u8>) -> (r: Result<
    (),
    CoreError,
>)
    ensures
        final(registry).labels == old(registry).labels,
        final(registry).tombstones == old(registry).tombstones,
        match git::first_true(register::identified(old(registry).trees@, tree_id@), 0) {
            None => (r matches Err(e) && e@ == outrun()) && final(registry).trees@ == old(registry).trees@,
            Some(i) => {
                &&& r is Ok
                &&& final(registry).trees@.len() == old(registry).trees@.len()
                &&& forall|k: int|
                    0 <= k < old(registry).trees@.len() && k != i ==> #[trigger] final(registry).trees@[k] == old(registry).trees@[k]
                &&& final(registry).trees@[i].ports.entries@ == ports.entries@
                &&& final(registry).trees@[i] == (TreeRec {
                    ports: final(registry).trees@[i].ports,
                    ..old(registry).trees@[i]
                })
            },
        },
{
    match register::identity_at(&registry.trees, tree_id) {
        None => Err(ports_outrun()),
        Some(i) => {
            registry.trees[i].ports = context::copy_ports(ports);
            Ok(())
        },
    }
}

/// What entering a tree does next.
#[derive(Clone, Copy, Debug, PartialEq, Eq, Structural)]
pub enum EnterStep {
    /// Ask whether the directory says that it is the tree on record.
    Identity,
    /// Read the tree's record.
    State,
    /// Ask whether someone holds the tree's lock.
    Consult,
    /// Derive how the tree stands.
    Phase,
    /// Take the tree's lock together with others, without waiting.
    LockTree,
    /// Take the lock of those who entered.
    LockDoor,
    /// Read the configuration.
    Config,
    /// Give a place to each port of the configuration that has none.
    Ports,
    /// Put the ports that got a place on record.
    RecordPorts,
    /// Gather the directories and files that the environment is made of.
    Sources,
    /// Put the environment together.
    Assemble,
    /// Write the files of the tree.
    Render,
    Done,
    Failed,
}

/// What came of a step.
#[derive(Debug)]
pub enum EnterEvent {
    Succeeded,
    /// The record was read: the phase that it says, where there is one.
    Read(Option<StatePhase>),
    /// This is how the tree stands.
    Stands(DerivedPhase),
    /// Whether a port got a place.
    Placed(bool),
    /// The environment is put together, and this is said about it.
    Assembled(Vec<Notice>),
    Failure(CoreError),
}

/// What is known of an event.
pub enum EnterNews {
    Succeeded,
    Read(Option<StatePhase>),
    Stands(DerivedPhase),
    Placed(bool),
    Assembled(Seq<output::Said>),
    Failure(error::Fault),
}

impl View for EnterEvent {
    type V = EnterNews;

    open spec fn view(&self) -> EnterNews {
        match self {
            EnterEvent::Succeeded => EnterNews::Succeeded,
            EnterEvent::Read(phase) => EnterNews::Read(*phase),
            EnterEvent::Stands(phase) => EnterNews::Stands(*phase),
            EnterEvent::Placed(any) => EnterNews::Placed(*any),
            EnterEvent::Assembled(notices) => EnterNews::Assembled(output::said(notices@)),
            EnterEvent::Failure(e) => EnterNews::Failure(e@),
        }
    }
}

/// A tree that is being entered. `held` says that it is entered by one who holds its
/// lock alone, in the middle of an operation.
#[derive(Debug)]
pub struct Entering {
    pub target: String,
    pub held: bool,
    pub step: EnterStep,
    /// The directory said that it is the tree on record.
    pub identified: bool,
    pub tree_locked: bool,
    pub door_locked: bool,
    /// The last operation with the tree failed.
    pub unready: bool,
    pub notices: Vec<Notice>,
    pub error: Option<CoreError>,
}

/// What is known of a tree that is being entered.
#[verifier::ext_equal]
pub struct Entry {
    pub target: Seq<char>,
    pub held: bool,
    pub step: EnterStep,
    pub identified: bool,
    pub tree_locked: bool,
    pub door_locked: bool,
    pub unready: bool,
    pub notices: Seq<output::Said>,
    pub error: Option<error::Fault>,
}

impl View for Entering {
    type V = Entry;

    open spec fn view(&self) -> Entry {
        Entry {
            target: self.target@,
            held: self.held,
            step: self.step,
            identified: self.identified,
            tree_locked: self.tree_locked,
            door_locked: self.door_locked,
            unready: self.unready,
            notices: output::said(self.notices@),
            error: match self.error {
                Some(e) => Some(e@),
                None => None,
            },
        }
    }
}

/// How entering a tree begins: with whose the directory is, unless that was asked by the
/// operation that it is part of.
pub open spec fn entering(target: Seq<char>, held: bool) -> Entry {
    Entry {
        target,
        held,
        step: if held {
            EnterStep::State
        } else {
            EnterStep::Identity
        },
        identified: false,
        tree_locked: false,
        door_locked: false,
        unready: false,
        notices: Seq::<output::Said>::empty(),
        error: None,
    }
}

/// Entering that ends with a fault: its locks are let go.
pub open spec fn shut(e: Entry, fault: error::Fault) -> Entry {
    Entry {
        step: EnterStep::Failed,
        tree_locked: false,
        door_locked: false,
        error: Some(fault),
        ..e
    }
}

/// Whether the lock says more of a tree than its record: whether what is on record as
/// under way still is.
pub open spec fn consults(phase: Option<StatePhase>) -> bool {
    phase is Some && phase != Some(StatePhase::Ready) && phase != Some(StatePhase::Failed)
}

/// Entering after something came of its step. An event that is no answer to the step
/// leaves it as it is.
pub open spec fn entered(e: Entry, news: EnterNews) -> Entry {
    match (e.step, news) {
        (EnterStep::Done, _) | (EnterStep::Failed, _) => e,
        (_, EnterNews::Failure(fault)) => shut(e, fault),
        (EnterStep::Identity, EnterNews::Succeeded) => Entry {
            identified: true,
            step: EnterStep::State,
            ..e
        },
        (EnterStep::State, EnterNews::Read(phase)) => Entry {
            step: if e.held {
                EnterStep::Config
            } else if consults(phase) {
                EnterStep::Consult
            } else {
                EnterStep::Phase
            },
            ..e
        },
        (EnterStep::Consult, EnterNews::Succeeded) => Entry { step: EnterStep::Phase, ..e },
        (EnterStep::Phase, EnterNews::Stands(phase)) => match phase {
            DerivedPhase::Ready => Entry { step: EnterStep::LockTree, ..e },
            DerivedPhase::Failed => Entry {
                unready: true,
                step: EnterStep::LockTree,
                ..e
            },
            _ => shut(e, busy(e.target, phase)),
        },
        (EnterStep::LockTree, EnterNews::Succeeded) => Entry {
            tree_locked: true,
            step: EnterStep::LockDoor,
            ..e
        },
        (EnterStep::LockDoor, EnterNews::Succeeded) => Entry {
            door_locked: true,
            step: EnterStep::Config,
            ..e
        },
        (EnterStep::Config, EnterNews::Succeeded) => Entry { step: EnterStep::Ports, ..e },
        (EnterStep::Ports, EnterNews::Placed(any)) => Entry {
            step: if any {
                EnterStep::RecordPorts
            } else {
                EnterStep::Sources
            },
            ..e
        },
        (EnterStep::RecordPorts, EnterNews::Succeeded) => Entry { step: EnterStep::Sources, ..e },
        (EnterStep::Sources, EnterNews::Succeeded) => Entry { step: EnterStep::Assemble, ..e },
        (EnterStep::Assemble, EnterNews::Assembled(said)) => Entry {
            notices: said,
            step: EnterStep::Render,
            ..e
        },
        (EnterStep::Render, EnterNews::Succeeded) => Entry {
            notices: if e.unready {
                e.notices.push(not_ready(e.target))
            } else {
                e.notices
            },
            step: EnterStep::Done,
            ..e
        },
        _ => e,
    }
}

impl Entering {
    /// Begins to enter a tree.
    pub fn new(target: String, held: bool) -> (r: Self)
        ensures
            r@ == entering(target@, held),
    {
        let r = Entering {
            target,
            held,
            step: if held {
                EnterStep::State
            } else {
                EnterStep::Identity
            },
            identified: false,
            tree_locked: false,
            door_locked: false,
            unready: false,
            notices: Vec::new(),
            error: None,
        };
        proof {
            assert(output::said(r.notices@) =~= Seq::<output::Said>::empty());
        }
        r
    }

    fn shut(&mut self, fault: CoreError)
        ensures
            final(self)@ == shut(old(self)@, fault@),
    {
        self.step = EnterStep::Failed;
        self.tree_locked = false;
        self.door_locked = false;
        self.error = Some(fault);
    }

    fn succeeded(&mut self)
        ensures
            final(self)@ == entered(old(self)@, EnterNews::Succeeded),
    {
        match self.step {
            EnterStep::Identity => {
                self.identified = true;
                self.step = EnterStep::State;
            },
            EnterStep::Consult => {
                self.step = EnterStep::Phase;
            },
            EnterStep::LockTree => {
                self.tree_locked = true;
                self.step = EnterStep::LockDoor;
            },
            EnterStep::LockDoor => {
                self.door_locked = true;
                self.step = EnterStep::Config;
            },
            EnterStep::Config => {
                self.step = EnterStep::Ports;
            },
            EnterStep::RecordPorts => {
                self.step = EnterStep::Sources;
            },
            EnterStep::Sources => {
                self.step = EnterStep::Assemble;
            },
            EnterStep::Render => {
                if self.unready {
                    let ghost was = self.notices@;
                    let notice = unready_notice(self.target.as_str());
                    self.notices.push(notice);
                    proof {
                        assert(output::said(self.notices@) =~= output::said(was).push(
                            not_ready(self.target@),
                        ));
                    }
                }
                self.step = EnterStep::Done;
            },
            _ => {},
        }
    }

    fn stands(&mut self, phase: DerivedPhase)
        requires
            old(self).step is Phase,
        ensures
            final(self)@ == entered(old(self)@, EnterNews::Stands(phase)),
    {
        match may_enter(self.target.as_str(), phase) {
            Ok(notice) => {
                if notice.is_some() {
                    self.unready = true;
                }
                self.step = EnterStep::LockTree;
            },
            Err(e) => {
                self.shut(e);
            },
        }
    }

    /// Takes what came of the step, and goes on to the next.
    pub fn advance(&mut self, event: EnterEvent)
        ensures
            final(self)@ == entered(old(self)@, event@),
    {
        if self.step == EnterStep::Done || self.step == EnterStep::Failed {
            return;
        }
        match event {
            EnterEvent::Failure(e) => {
                self.shut(e);
            },
            EnterEvent::Succeeded => {
                self.succeeded();
            },
            EnterEvent::Read(phase) => {
                if self.step == EnterStep::State {
                    let consult = match phase {
                        None | Some(StatePhase::Ready) | Some(StatePhase::Failed) => false,
                        _ => true,
                    };
                    self.step = if self.held {
                        EnterStep::Config
                    } else if consult {
                        EnterStep::Consult
                    } else {
                        EnterStep::Phase
                    };
                }
            },
            EnterEvent::Stands(phase) => {
                if self.step == EnterStep::Phase {
                    self.stands(phase);
                }
            },
            EnterEvent::Placed(any) => {
                if self.step == EnterStep::Ports {
                    self.step = if any {
                        EnterStep::RecordPorts
                    } else {
                        EnterStep::Sources
                    };
                }
            },
            EnterEvent::Assembled(notices) => {
                if self.step == EnterStep::Assemble {
                    self.notices = notices;
                    self.step = EnterStep::Render;
                }
            },
        }
    }
}

/// Entering after a row of events.
pub open spec fn entered_all(e: Entry, news: Seq<EnterNews>) -> Entry
    decreases news.len(),
{
    if news.len() == 0 {
        e
    } else {
        entered(entered_all(e, news.drop_last()), news.last())
    }
}

/// Whether a step changes anything, or runs what the tree configures.
pub open spec fn acts(step: EnterStep) -> bool {
    step == EnterStep::LockTree || step == EnterStep::LockDoor || step == EnterStep::Config || step
        == EnterStep::Ports || step == EnterStep::RecordPorts || step == EnterStep::Sources || step
        == EnterStep::Assemble || step == EnterStep::Render
}

/// What holds of entering a tree at every step.
pub open spec fn entry_sound(e: Entry) -> bool {
    &&& !e.held && !(e.step is Identity || e.step is Failed) ==> e.identified
    &&& e.step is LockDoor ==> e.tree_locked
    &&& !e.held && acts(e.step) && !(e.step is LockTree || e.step is LockDoor) ==> e.tree_locked
        && e.door_locked
    &&& !e.held && e.step is Done ==> e.tree_locked && e.door_locked
    &&& e.held ==> !e.tree_locked && !e.door_locked && !e.unready && !(e.step is Identity
        || e.step is Consult || e.step is Phase || e.step is LockTree || e.step is LockDoor)
    &&& e.step is Failed ==> !e.tree_locked && !e.door_locked && e.error is Some
    &&& e.error is Some ==> e.step is Failed
}

/// A tree is entered only where its directory said that it is the tree on record: until
/// then nothing is changed, locked or run. It is changed only by those who hold its
/// locks, which stay with one who entered and are let go by one who could not; and the
/// one who enters in the middle of an operation takes none.
pub proof fn entering_asks_whose_first(target: Seq<char>, held: bool, news: Seq<EnterNews>)
    ensures
        ({
            let e = entered_all(entering(target, held), news);
            &&& entry_sound(e)
            &&& e.held == held
            &&& e.target == target
            &&& !held && acts(e.step) ==> e.identified
        }),
    decreases news.len(),
{
    if news.len() > 0 {
        entering_asks_whose_first(target, held, news.drop_last());
    }
}

/// A tree that something is under way with is not entered.
pub proof fn a_busy_tree_is_not_entered(e: Entry, phase: DerivedPhase)
    requires
        e.step is Phase,
        phase != DerivedPhase::Ready,
        phase != DerivedPhase::Failed,
    ensures
        entered(e, EnterNews::Stands(phase)) == shut(e, busy(e.target, phase)),
{
}

/// The place of a step in the order in which steps come.
pub open spec fn entry_place(step: EnterStep) -> int {
    match step {
        EnterStep::Identity => 0,
        EnterStep::State => 1,
        EnterStep::Consult => 2,
        EnterStep::Phase => 3,
        EnterStep::LockTree => 4,
        EnterStep::LockDoor => 5,
        EnterStep::Config => 6,
        EnterStep::Ports => 7,
        EnterStep::RecordPorts => 8,
        EnterStep::Sources => 9,
        EnterStep::Assemble => 10,
        EnterStep::Render => 11,
        EnterStep::Done => 12,
        EnterStep::Failed => -1,
    }
}

/// Whether a step is called for.
pub open spec fn entry_calls_for(a: Entry, step: EnterStep) -> bool {
    match step {
        EnterStep::Identity | EnterStep::Consult | EnterStep::Phase | EnterStep::LockTree | EnterStep::LockDoor => !a.held,
        _ => true,
    }
}

/// What holds at every step.
pub open spec fn entry_holds(a: Entry, target: Seq<char>, held: bool) -> bool {
    &&& entry_calls_for(a, a.step)
    &&& a.target == target && a.held == held
    &&& a.error is None
    &&& a.identified == (!held && entry_place(a.step) > entry_place(EnterStep::Identity))
    &&& a.tree_locked == (!held && entry_place(a.step) > entry_place(EnterStep::LockTree))
    &&& a.door_locked == (!held && entry_place(a.step) > entry_place(EnterStep::LockDoor))
    &&& (held || entry_place(a.step) <= entry_place(EnterStep::Phase) ==> !a.unready)
}

/// What an answer to a step is gone by.
pub open spec fn entry_goes_by(a: Entry, step: EnterStep, e: EnterNews) -> bool {
    match step {
        EnterStep::Phase => e == EnterNews::Stands(if a.unready { DerivedPhase::Failed } else { DerivedPhase::Ready }),
        EnterStep::Assemble => e matches EnterNews::Assembled(said) && a.notices == (if a.unready && a.step == EnterStep::Done { said.push(not_ready(a.target)) } else { said }),
        _ => true,
    }
}

/// How it goes on.
pub open spec fn entry_next() -> spec_fn(Entry, EnterNews) -> Entry {
    |a: Entry, e: EnterNews| entered(a, e)
}

/// The step that it is at.
pub open spec fn entry_at() -> spec_fn(Entry) -> EnterStep {
    |a: Entry| a.step
}

/// What a step was answered with, where it was taken and left again.
pub open spec fn entry_given(target: Seq<char>, held: bool, events: Seq<EnterNews>, step: EnterStep) -> Option<EnterNews> {
    course::answered(entry_next(), entry_at(), entering(target, held), events, step)
}

proof fn lemma_entry_after(target: Seq<char>, held: bool, events: Seq<EnterNews>)
    ensures
        entered_all(entering(target, held), events) == course::after(entry_next(), entering(target, held), events),
    decreases events.len(),
{
    if events.len() > 0 {
        lemma_entry_after(target, held, events.drop_last());
    }
}

#[verifier::spinoff_prover]
proof fn lemma_entry_step(a: Entry, target: Seq<char>, held: bool, e: EnterNews, k: EnterStep)
    requires
        k != EnterStep::Consult && k != EnterStep::RecordPorts,
        !(a.step == EnterStep::Failed),
        entry_holds(a, target, held),
        !(entered(a, e).step == EnterStep::Failed),
    ensures
        ({
            let b = entered(a, e);
            &&& entry_holds(b, target, held)
            &&& b.step == a.step ==> b == a
            &&& b.step != a.step ==> {
                &&& entry_place(b.step) > entry_place(a.step)
                &&& entry_place(k) <= entry_place(a.step) ==> entry_calls_for(b, k) == entry_calls_for(a, k)
                &&& entry_place(a.step) < entry_place(k) < entry_place(b.step) ==> !entry_calls_for(b, k)
            }
        }),
{
}

#[verifier::spinoff_prover]
proof fn lemma_entry_told(a: Entry, target: Seq<char>, held: bool, e: EnterNews, k: EnterStep, e0: EnterNews)
    requires
        !(a.step == EnterStep::Failed),
        entry_holds(a, target, held),
        !(entered(a, e).step == EnterStep::Failed),
    ensures
        a.step == k && entered(a, e).step != k ==> entry_goes_by(entered(a, e), k, e),
        entry_place(a.step) > entry_place(k) && entry_goes_by(a, k, e0) ==> entry_goes_by(entered(a, e), k, e0),
{
}

/// Each step of entering a tree is taken where it is called for, and nowhere else,
/// whatever the events: one who holds the tree already neither asks whose it is, how it
/// stands, nor takes a lock; anyone else does all of that; and both read the
/// configuration, give places to the ports, put the environment together and write the
/// files. A tree that failed is entered with a word on that, after all that was said.
pub proof fn a_tree_is_entered_by_all_that_is_called_for(target: Seq<char>, held: bool, events: Seq<EnterNews>, step: EnterStep)
    requires
        entry_place(entering(target, held).step) <= entry_place(step),
        step != EnterStep::Consult && step != EnterStep::RecordPorts,
    ensures
        ({
            let a = entered_all(entering(target, held), events);
            !(a.step == EnterStep::Failed) ==> {
                &&& (match a.step {
                    EnterStep::Identity | EnterStep::Consult | EnterStep::Phase | EnterStep::LockTree | EnterStep::LockDoor => !a.held,
                    _ => true,
                })
                &&& a.target == target && a.held == held
                &&& a.error is None
                &&& a.identified == (!held && entry_place(a.step) > entry_place(EnterStep::Identity))
                &&& a.tree_locked == (!held && entry_place(a.step) > entry_place(EnterStep::LockTree))
                &&& a.door_locked == (!held && entry_place(a.step) > entry_place(EnterStep::LockDoor))
                &&& (held || entry_place(a.step) <= entry_place(EnterStep::Phase) ==> !a.unready)
                &&& entry_place(a.step) > entry_place(step) ==> (entry_given(target, held, events, step) is Some
                    <==> (match step {
                            EnterStep::Identity | EnterStep::Consult | EnterStep::Phase | EnterStep::LockTree | EnterStep::LockDoor => !a.held,
                            _ => true,
                        }))
                &&& entry_place(a.step) <= entry_place(step) ==> entry_given(target, held, events, step) is None
                &&& entry_given(target, held, events, step) matches Some(e) ==> (match step {
                    EnterStep::Phase => e == EnterNews::Stands(if a.unready { DerivedPhase::Failed } else { DerivedPhase::Ready }),
                    EnterStep::Assemble => e matches EnterNews::Assembled(said) && a.notices == (if a.unready && a.step == EnterStep::Done { said.push(not_ready(a.target)) } else { said }),
                    _ => true,
                })
            }
        }),
{
    lemma_entry_after(target, held, events);
    let next = entry_next();
    let at = entry_at();
    let s = entering(target, held);
    let places = |k: EnterStep| entry_place(k);
    let dead = |a: Entry| a.step == EnterStep::Failed;
    let inv = |a: Entry| entry_holds(a, target, held);
    let called = |a: Entry, k: EnterStep| entry_calls_for(a, k);
    let past = |a: Entry| entry_place(a.step) > entry_place(step);
    let fact = |a: Entry, e: EnterNews| entry_goes_by(a, step, e);
    assert forall|a: Entry, e: EnterNews|
        inv(a) && !dead(a) && !dead(#[trigger] next(a, e)) implies inv(next(a, e)) by {
        lemma_entry_step(a, target, held, e, step);
    }
    assert forall|a: Entry, e: EnterNews|
        inv(a) && !dead(a) && called(a, at(a)) && !dead(#[trigger] next(a, e)) implies {
        let b = next(a, e);
        &&& inv(b)
        &&& at(b) == at(a) ==> b == a
        &&& at(b) != at(a) ==> {
            &&& places(at(b)) > places(at(a))
            &&& called(b, at(b))
            &&& places(step) <= places(at(a)) ==> called(b, step) == called(a, step)
            &&& places(at(a)) < places(step) < places(at(b)) ==> !called(b, step)
        }
    } by {
        lemma_entry_step(a, target, held, e, step);
    }
    course::lemma_taken(next, at, places, dead, inv, called, s, events, step);
    assert forall|a: Entry, e: EnterNews|
        inv(a) && !dead(a) && !dead(#[trigger] next(a, e)) && at(a) == step && at(next(a, e))
            != step implies past(next(a, e)) && fact(next(a, e), e) by {
        lemma_entry_step(a, target, held, e, step);
        lemma_entry_told(a, target, held, e, step, e);
    }
    assert forall|a: Entry, e: EnterNews, e0: EnterNews|
        #![trigger next(a, e), fact(a, e0)]
        inv(a) && !dead(a) && !dead(next(a, e)) && past(a) && fact(a, e0) implies past(next(a, e))
        && fact(next(a, e), e0) && at(a) != step by {
        lemma_entry_step(a, target, held, e, step);
        lemma_entry_told(a, target, held, e, step, e0);
    }
    course::lemma_told(next, at, dead, inv, past, fact, s, events, step);
}

/// What decides on the way: the lock is consulted where the record says that something is
/// under way with the tree, ports go on record where any was given a place, and a tree is
/// entered where it is ready or has failed.
pub proof fn what_was_read_decides(e: Entry, news: EnterNews)
    requires
        entry_place(e.step) >= 0,
        e.step != EnterStep::Done,
    ensures
        entered(e, news).step == EnterStep::Failed <==> (news is Failure || (e.step
            == EnterStep::Phase && (news matches EnterNews::Stands(phase) && phase
            != DerivedPhase::Ready && phase != DerivedPhase::Failed))),
        news matches EnterNews::Failure(f) ==> entered(e, news).error == Some(f),
        (e.step == EnterStep::State && !e.held) ==> (news matches EnterNews::Read(phase) ==> entered(
            e,
            news,
        ).step == (match phase {
            None | Some(StatePhase::Ready) | Some(StatePhase::Failed) => EnterStep::Phase,
            Some(_) => EnterStep::Consult,
        })),
        e.step == EnterStep::Ports ==> (news matches EnterNews::Placed(any) ==> entered(
            e,
            news,
        ).step == (if any {
            EnterStep::RecordPorts
        } else {
            EnterStep::Sources
        })),
{
}

/// A resource contributes each of its variables, but for this program's own and the search
/// path.
pub proof fn every_variable_that_may_is_contributed(entries: Seq<(String, String)>, y: (Seq<char>, Seq<char>))
    ensures
        contributed_of(entries).contains(y) <==> (exists|i: int|
            0 <= i < entries.len() && !text::starts((#[trigger] entries[i]).0@, "WT_"@) && entries[i].0@ != "PATH"@ && y == (entries[i].0@, entries[i].1@)),
    decreases entries.len(),
{
    let all = contributed_of(entries);
    if entries.len() > 0 {
        let rest = entries.drop_last();
        let some = contributed_of(rest);
        every_variable_that_may_is_contributed(rest, y);
        if all.contains(y) {
            let k = choose|k: int| 0 <= k < all.len() && all[k] == y;
            if k < some.len() {
                assert(some[k] == y);
                let i = choose|i: int| 0 <= i < rest.len() && !text::starts((#[trigger] rest[i]).0@, "WT_"@) && rest[i].0@ != "PATH"@ && y == (rest[i].0@, rest[i].1@);
                assert(entries[i] == rest[i]);
            } else {
                assert(!text::starts(entries[rest.len() as int].0@, "WT_"@) && entries[rest.len() as int].0@ != "PATH"@ && y == (entries[rest.len() as int].0@, entries[rest.len() as int].1@));
            }
        }
        if exists|i: int| 0 <= i < entries.len() && !text::starts((#[trigger] entries[i]).0@, "WT_"@) && entries[i].0@ != "PATH"@ && y == (entries[i].0@, entries[i].1@) {
            let i = choose|i: int| 0 <= i < entries.len() && !text::starts((#[trigger] entries[i]).0@, "WT_"@) && entries[i].0@ != "PATH"@ && y == (entries[i].0@, entries[i].1@);
            if i < rest.len() {
                assert(rest[i] == entries[i]);
                let k = choose|k: int| 0 <= k < some.len() && some[k] == y;
                assert(all[k] == y);
            } else {
                assert(all[all.len() - 1] == y);
            }
        }
    }
}

/// Each resource that is present contributes, and no other.
pub proof fn every_present_resource_contributes(records: Seq<ResourceEnv>, y: (u64, Seq<(Seq<char>, Seq<char>)>))
    ensures
        contributions(records).contains(y) <==> (exists|i: int|
            0 <= i < records.len() && (#[trigger] records[i]).state == ResourceState::Present && y == (records[i].place, contributed_of(records[i].env.entries@))),
    decreases records.len(),
{
    let all = contributions(records);
    if records.len() > 0 {
        let rest = records.drop_last();
        let some = contributions(rest);
        every_present_resource_contributes(rest, y);
        if all.contains(y) {
            let k = choose|k: int| 0 <= k < all.len() && all[k] == y;
            if k < some.len() {
                assert(some[k] == y);
                let i = choose|i: int| 0 <= i < rest.len() && (#[trigger] rest[i]).state == ResourceState::Present && y == (rest[i].place, contributed_of(rest[i].env.entries@));
                assert(records[i] == rest[i]);
            } else {
                assert(records[rest.len() as int].state == ResourceState::Present && y == (records[rest.len() as int].place, contributed_of(records[rest.len() as int].env.entries@)));
            }
        }
        if exists|i: int| 0 <= i < records.len() && (#[trigger] records[i]).state == ResourceState::Present && y == (records[i].place, contributed_of(records[i].env.entries@)) {
            let i = choose|i: int| 0 <= i < records.len() && (#[trigger] records[i]).state == ResourceState::Present && y == (records[i].place, contributed_of(records[i].env.entries@));
            if i < rest.len() {
                assert(rest[i] == records[i]);
                let k = choose|k: int| 0 <= k < some.len() && some[k] == y;
                assert(all[k] == y);
            } else {
                assert(all[all.len() - 1] == y);
            }
        }
    }
}

/// The files of each owner of a label are its own, and no others.
pub proof fn every_file_of_a_label_is_excluded(owners: Seq<Owned>, label: Seq<char>, y: Seq<char>)
    ensures
        owned_paths(owners, label).contains(y) <==> (exists|i: int|
            0 <= i < owners.len() && (#[trigger] owners[i]).label@ == label && text::texts(owners[i].paths@).contains(y)),
    decreases owners.len(),
{
    let all = owned_paths(owners, label);
    if owners.len() > 0 {
        let rest = owners.drop_last();
        let some = owned_paths(rest, label);
        every_file_of_a_label_is_excluded(rest, label, y);
        let last = text::texts(owners.last().paths@);
        if all.contains(y) {
            let k = choose|k: int| 0 <= k < all.len() && all[k] == y;
            if k < some.len() {
                assert(some[k] == y);
                let i = choose|i: int| 0 <= i < rest.len() && (#[trigger] rest[i]).label@ == label && text::texts(rest[i].paths@).contains(y);
                assert(owners[i] == rest[i]);
            } else {
                assert(last[k - some.len()] == y);
                assert(owners[rest.len() as int].label@ == label && text::texts(owners[rest.len() as int].paths@).contains(y));
            }
        }
        if exists|i: int| 0 <= i < owners.len() && (#[trigger] owners[i]).label@ == label && text::texts(owners[i].paths@).contains(y) {
            let i = choose|i: int| 0 <= i < owners.len() && (#[trigger] owners[i]).label@ == label && text::texts(owners[i].paths@).contains(y);
            if i < rest.len() {
                assert(rest[i] == owners[i]);
                let k = choose|k: int| 0 <= k < some.len() && some[k] == y;
                assert(all[k] == y);
            } else {
                let k = choose|k: int| 0 <= k < last.len() && last[k] == y;
                assert(all[some.len() + k] == y);
            }
        }
    }
}

/// A file is checked wherever all are, or it is not on record yet.
pub proof fn which_files_are_checked(list: Seq<Kept>, p: Seq<char>, check_all: bool)
    ensures
        to_check(list, p, check_all) <==> check_all || forall|i: int|
            0 <= i < list.len() ==> (#[trigger] list[i]).path != p,
{
    let flags = kept_at(list, p);
    git::the_first_yes_is_found(flags, 0);
    assert(forall|i: int| 0 <= i < list.len() ==> flags[i] == ((#[trigger] list[i]).path == p));
    if git::first_true(flags, 0) is Some {
        assert(list[git::first_true(flags, 0)->0].path == p);
    }
}

/// Every file that differs is written, and no other: the first that differs takes the lock,
/// under it each one is looked at again, and the record is saved exactly where something
/// was written, and the exclude worked out anew exactly where a file is new.
pub proof fn what_differs_is_written(w: Work, yes: bool, i: usize)
    requires
        i < w.items.len(),
        w.items.len() <= usize::MAX,
    ensures
        w.step == RenderStep::Compare(i) ==> rendered(w, Rendered::Differs(yes)).step == (if yes {
            RenderStep::Lock
        } else if i + 1 == w.items.len() {
            RenderStep::Settled
        } else {
            RenderStep::Compare((i + 1) as usize)
        }),
        w.step == RenderStep::Decide(i) && yes && octal(w.items[i as int].mode) is Some ==> rendered(
            w,
            Rendered::Differs(yes),
        ).step == RenderStep::Write(i),
        w.step == RenderStep::Decide(i) && yes && octal(w.items[i as int].mode) is None ==> rendered(
            w,
            Rendered::Differs(yes),
        ).step == RenderStep::Failed,
        (w.step == RenderStep::Decide(i) && !yes || w.step == RenderStep::Write(i)) ==> rendered(
            w,
            if w.step is Write {
                Rendered::Finished
            } else {
                Rendered::Differs(yes)
            },
        ).step == (if i + 1 < w.items.len() {
            RenderStep::Decide((i + 1) as usize)
        } else if w.changed_bytes || w.step is Write {
            RenderStep::Save
        } else {
            RenderStep::Done
        }),
        w.step == RenderStep::Write(i) ==> rendered(w, Rendered::Finished).changed_bytes && (rendered(
            w,
            Rendered::Finished,
        ).changed_set <==> w.changed_set || forall|k: int|
            0 <= k < w.materialized.len() ==> (#[trigger] w.materialized[k]).path
                != w.items[i as int].path),
        w.step == RenderStep::Save ==> rendered(w, Rendered::Finished).step == (if w.changed_set {
            RenderStep::Exclude
        } else {
            RenderStep::Done
        }),
{
    which_files_are_checked(w.materialized, w.items[i as int].path, false);
}

} // verus!
