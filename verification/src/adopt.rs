//! Adopting a worktree that git knows: its label, its name, and what is refused.

use vstd::prelude::*;
use vstd::string::*;

use crate::context;
use crate::context::{Registry, TreeRec};
use crate::error;
use crate::error::{CoreError, ExitClass};
use crate::git;
use crate::model::StatePhase;
use crate::path;
use crate::register::Way;
use crate::text;

verus! {

broadcast use vstd::string::group_string_axioms;

/// The label that a repository is registered under.
pub open spec fn label_in(r: Registry, gitdir: Seq<char>) -> Option<Seq<char>> {
    match git::first_true(context::of_gitdir(r.labels.entries@, gitdir), 0) {
        Some(i) => Some(r.labels.entries@[i].0@),
        None => None,
    }
}

/// The label of a worktree that is adopted: that of its repository. Another one that is
/// asked for is refused, and so is one without any.
pub open spec fn adopted_label(requested: Option<Seq<char>>, actual: Option<Seq<char>>) -> Result<
    Seq<char>,
    error::Fault,
> {
    match (requested, actual) {
        (Some(r), Some(a)) => if r == a {
            Ok(r)
        } else {
            Err(
                error::fault(
                    ExitClass::Conflict,
                    "GITDIR_REGISTERED"@,
                    "worktree belongs to label "@ + a,
                    "use `--label "@ + a + "`"@,
                ),
            )
        },
        (Some(r), None) => Ok(r),
        (None, Some(a)) => Ok(a),
        (None, None) => Err(
            error::fault(
                ExitClass::Conflict,
                "GITDIR_REGISTERED"@,
                "worktree's repository is not registered"@,
                "register its canonical checkout first"@,
            ),
        ),
    }
}

/// Finds the label of a worktree that is adopted.
pub fn label_for(registry: &Registry, gitdir: &str, requested: &Option<String>) -> (r: Result<
    String,
    CoreError,
>)
    ensures
        match adopted_label(text::opt(*requested), label_in(*registry, gitdir@)) {
            Ok(label) => r matches Ok(l) && l@ == label,
            Err(fault) => r matches Err(e) && e@ == fault,
        },
{
    let actual = match registry.gitdir_at(gitdir) {
        Some(i) => Some(registry.labels.entries[i].0.clone()),
        None => None,
    };
    match (requested, actual) {
        (Some(r), Some(a)) => {
            if text::same(r.as_str(), a.as_str()) {
                Ok(r.clone())
            } else {
                let message = "worktree belongs to label ".to_owned().concat(a.as_str());
                let remedy = "use `--label ".to_owned().concat(a.as_str()).concat("`");
                Err(
                    CoreError::new(
                        ExitClass::Conflict,
                        "GITDIR_REGISTERED",
                        message.as_str(),
                        remedy.as_str(),
                    ),
                )
            }
        },
        (Some(r), None) => Ok(r.clone()),
        (None, Some(a)) => Ok(a),
        (None, None) => Err(
            CoreError::new(
                ExitClass::Conflict,
                "GITDIR_REGISTERED",
                "worktree's repository is not registered",
                "register its canonical checkout first",
            ),
        ),
    }
}

/// Refuses a worktree that git does not list.
pub fn require_listed(listed: bool) -> (r: Result<(), CoreError>)
    ensures
        r is Ok == listed,
        r matches Err(e) ==> e@ == error::fault(
            ExitClass::State,
            "NOT_A_WORKTREE"@,
            "path is not listed by git worktree list"@,
            "adopt a linked worktree belonging to the registered repository"@,
        ),
{
    if listed {
        Ok(())
    } else {
        Err(
            CoreError::new(
                ExitClass::State,
                "NOT_A_WORKTREE",
                "path is not listed by git worktree list",
                "adopt a linked worktree belonging to the registered repository",
            ),
        )
    }
}

/// The name of a worktree that is adopted: the given one, or that of its directory.
pub fn adopted_name(given: &Option<String>, p: &str) -> (r: String)
    ensures
        r@ == match text::opt(*given) {
            Some(name) => name,
            None => match path::name_of(p@) {
                Some(name) => name,
                None => "work"@,
            },
        },
{
    match given {
        Some(name) => name.clone(),
        None => match path::file_name(p) {
            Some(name) => name,
            None => "work".to_owned(),
        },
    }
}

/// What adopting a worktree comes to: it is known at this place, or it is new.
pub fn judge(registry: &Registry, label: &str, name: &str, p: &str) -> (r: Result<
    Option<usize>,
    CoreError,
>)
    ensures
        match git::first_true(context::addressed(registry.trees@, label@, name@), 0) {
            Some(i) => r matches Ok(Some(k)) && k == i,
            None => if git::first_true(context::at_path(registry.trees@, p@), 0) is Some {
                r matches Err(e) && e@ == error::fault(
                    ExitClass::Conflict,
                    "PATH_REGISTERED"@,
                    "path is already registered"@,
                    "use the existing target"@,
                )
            } else {
                r matches Ok(None)
            },
        },
{
    if let Some(i) = registry.tree_at(label, name) {
        return Ok(Some(i));
    }
    if registry.path_at(p).is_some() {
        return Err(
            CoreError::new(
                ExitClass::Conflict,
                "PATH_REGISTERED",
                "path is already registered",
                "use the existing target",
            ),
        );
    }
    Ok(None)
}

/// How a worktree is adopted: one that is known was perhaps left in the middle of it.
pub fn adoption(known: bool, recorded: Option<StatePhase>) -> (r: Way)
    ensures
        r == if !known {
            Way::Fresh
        } else if recorded == Some(StatePhase::Initialising) {
            Way::Resume
        } else {
            Way::Known
        },
{
    if !known {
        return Way::Fresh;
    }
    match recorded {
        Some(StatePhase::Initialising) => Way::Resume,
        _ => Way::Known,
    }
}

/// Puts a worktree that is adopted into the registry, behind the others. Its label is
/// there already.
pub fn enter(registry: &mut Registry, tree: TreeRec)
    ensures
        final(registry).trees@ == old(registry).trees@.push(tree),
        final(registry).labels == old(registry).labels,
        final(registry).tombstones == old(registry).tombstones,
{
    registry.trees.push(tree);
}

/// What is reported of an adoption: whether the worktree was adopted, and whether an
/// earlier adoption was taken up again.
pub fn adoption_flags(way: Way) -> (r: (bool, bool))
    ensures
        r.0 == (way == Way::Fresh),
        r.1 == (way == Way::Resume),
{
    (way == Way::Fresh, way == Way::Resume)
}

/// A worktree is adopted under a label wherever one was asked for or found, as long as the
/// two do not differ, and then under that one.
pub proof fn which_label_a_worktree_gets(requested: Option<Seq<char>>, actual: Option<Seq<char>>)
    ensures
        adopted_label(requested, actual) is Err <==> (requested is None && actual is None) || (
        requested is Some && actual is Some && requested != actual),
        adopted_label(requested, actual) matches Ok(label) ==> (requested is Some ==> requested
            == Some(label)) && (actual is Some ==> actual == Some(label)),
        adopted_label(requested, actual) matches Err(e) ==> e.code == "GITDIR_REGISTERED"@,
{
}

/// A repository's label is found wherever one of the registered ones has it.
pub proof fn the_label_of_a_repository_is_found(r: Registry, gitdir: Seq<char>)
    ensures
        label_in(r, gitdir) is Some <==> (exists|i: int|
            0 <= i < r.labels.entries@.len() && (
            #[trigger] r.labels.entries@[i]).1.gitdir_id@ == gitdir),
        label_in(r, gitdir) matches Some(label) ==> exists|i: int|
            0 <= i < r.labels.entries@.len() && (
            #[trigger] r.labels.entries@[i]).1.gitdir_id@ == gitdir && r.labels.entries@[i].0@
                == label,
{
    let flags = context::of_gitdir(r.labels.entries@, gitdir);
    git::the_first_yes_is_found(flags, 0);
    if label_in(r, gitdir) is Some {
        let i = git::first_true(flags, 0)->0;
        assert(r.labels.entries@[i].1.gitdir_id@ == gitdir);
    } else {
        assert forall|i: int| 0 <= i < r.labels.entries@.len() implies (
        #[trigger] r.labels.entries@[i]).1.gitdir_id@ != gitdir by {
            assert(!flags[i]);
        }
    }
}

} // verus!
