//! Frozen recipes of resources: which one runs, where, and with what
//! environment, and when it must not run because what it was recorded with is
//! gone.

use vstd::prelude::*;
use vstd::string::*;

use crate::assoc;
use crate::assoc::Assoc;
use crate::error;
use crate::error::{CoreError, ExitClass};
use crate::git;
use crate::path;
use crate::proc;
use crate::proc::{CommandRequest, ExpandedCommand, Tee};
use crate::text;

verus! {

broadcast use vstd::string::group_string_axioms;

/// What is done with a resource.
#[derive(Clone, Copy, Debug, PartialEq, Eq, Structural)]
pub enum Action {
    Exists,
    Destroy,
    Run,
}

/// The name of an action.
pub open spec fn action_name(action: Action) -> Seq<char> {
    match action {
        Action::Exists => "Exists"@,
        Action::Destroy => "Destroy"@,
        Action::Run => "Run"@,
    }
}

/// How long, in milliseconds, the recipes of a resource may take.
#[derive(Clone, Copy, Debug, PartialEq, Eq, Structural)]
pub struct Deadlines {
    pub probe: u64,
    pub destroy: u64,
    pub run: Option<u64>,
}

/// What the settings say of the deadlines, in milliseconds: `None` where a setting
/// is no duration; of the last, also whether it is there.
#[derive(Clone, Copy, Debug)]
pub struct TaskDefaults {
    pub probe_timeout: Option<u64>,
    pub destroy_timeout: Option<u64>,
    pub timeout: Option<Option<u64>>,
}

impl Deadlines {
    /// The deadlines of the settings; the first that is no duration is an error.
    pub fn from_settings(settings: &TaskDefaults) -> (r: Result<Self, CoreError>)
        ensures
            r is Ok == (settings.probe_timeout is Some && settings.destroy_timeout is Some
                && settings.timeout != Some(None::<u64>)),
            r matches Ok(d) ==> {
                &&& Some(d.probe) == settings.probe_timeout
                &&& Some(d.destroy) == settings.destroy_timeout
                &&& d.run == match settings.timeout {
                    Some(t) => t,
                    None => None,
                }
            },
            r matches Err(e) ==> e@ == if settings.probe_timeout is None {
                git::unresolved("task.probe_timeout"@)
            } else if settings.destroy_timeout is None {
                git::unresolved("task.destroy_timeout"@)
            } else {
                git::unresolved("task.timeout"@)
            },
    {
        let probe: u64 = match git::resolved_duration(settings.probe_timeout, "task.probe_timeout") {
            Ok(ms) => ms,
            Err(e) => return Err(e),
        };
        let destroy: u64 = match git::resolved_duration(
            settings.destroy_timeout,
            "task.destroy_timeout",
        ) {
            Ok(ms) => ms,
            Err(e) => return Err(e),
        };
        let run: Option<u64> = match settings.timeout {
            None => None,
            Some(value) => match git::resolved_duration(value, "task.timeout") {
                Ok(ms) => Some(ms),
                Err(e) => return Err(e),
            },
        };
        Ok(Deadlines { probe, destroy, run })
    }

    /// How long an action may take; a run without a deadline as long as it likes.
    pub fn for_action(self, action: Action) -> (r: Option<u64>)
        ensures
            r == match action {
                Action::Exists => Some(self.probe),
                Action::Destroy => Some(self.destroy),
                Action::Run => self.run,
            },
    {
        match action {
            Action::Exists => Some(self.probe),
            Action::Destroy => Some(self.destroy),
            Action::Run => self.run,
        }
    }
}

/// Which of the standard streams are terminals.
#[derive(Clone, Copy, Debug, PartialEq, Eq, Structural)]
pub struct Tty {
    pub stdin: bool,
    pub stdout: bool,
    pub stderr: bool,
}

/// How a recipe is run.
#[derive(Debug)]
pub struct ExecutionOptions {
    pub tree_replaced: bool,
    pub deadlines: Deadlines,
    pub log: Option<String>,
    pub tee: Tee,
}

/// What a resource belongs to.
#[derive(Clone, Copy, Debug, PartialEq, Eq, Structural)]
pub enum TiedTo {
    Tree,
    Repo,
}

/// A resource as it was when it was recorded.
#[derive(Debug)]
pub struct ResourceSnapshot {
    pub tied_to: TiedTo,
    pub cwd_rel: String,
    pub exists: Option<ExpandedCommand>,
    pub destroy: ExpandedCommand,
    pub run: Option<ExpandedCommand>,
    pub env: Assoc<String>,
    pub bin_dirs: Vec<String>,
    pub tree: String,
}

/// The recipe of an action.
pub open spec fn recipe_of(snapshot: ResourceSnapshot, action: Action) -> Option<ExpandedCommand> {
    match action {
        Action::Exists => snapshot.exists,
        Action::Destroy => Some(snapshot.destroy),
        Action::Run => snapshot.run,
    }
}

/// What is wrong with a snapshot without the recipe.
pub open spec fn no_recipe(action: Action) -> error::Fault {
    error::fault(
        ExitClass::State,
        "CONFIG_INVALID"@,
        "snapshot has no "@ + action_name(action) + " recipe"@,
        "refresh the resource declaration from a valid task"@,
    )
}

/// The recipe of an action.
pub fn command_for(snapshot: &ResourceSnapshot, action: Action) -> (r: Result<
    &ExpandedCommand,
    CoreError,
>)
    ensures
        match recipe_of(*snapshot, action) {
            Some(command) => r matches Ok(c) && *c == command,
            None => r matches Err(e) && e@ == no_recipe(action),
        },
{
    let found = match action {
        Action::Exists => snapshot.exists.as_ref(),
        Action::Destroy => Some(&snapshot.destroy),
        Action::Run => snapshot.run.as_ref(),
    };
    match found {
        Some(command) => Ok(command),
        None => {
            let name = match action {
                Action::Exists => "Exists",
                Action::Destroy => "Destroy",
                Action::Run => "Run",
            };
            let message = "snapshot has no ".to_owned().concat(name).concat(" recipe");
            Err(
                CoreError::new(
                    ExitClass::State,
                    "CONFIG_INVALID",
                    message.as_str(),
                    "refresh the resource declaration from a valid task",
                ),
            )
        },
    }
}

/// A recipe as a person would type it.
pub open spec fn recipe_said(command: ExpandedCommand) -> Seq<char> {
    match command {
        ExpandedCommand::Shell { shell } => shell@,
        ExpandedCommand::Argv { argv } => text::join(text::texts(argv@), " "@),
    }
}

/// A recipe as a person would type it.
pub fn recipe_text(command: &ExpandedCommand) -> (r: String)
    ensures
        r@ == recipe_said(*command),
{
    match command {
        ExpandedCommand::Shell { shell } => shell.clone(),
        ExpandedCommand::Argv { argv } => text::join_with(argv, " "),
    }
}

// ---------------------------------------------------------------------------
// The search path
// ---------------------------------------------------------------------------

/// Whether a path is one of some.
pub open spec fn among(p: Seq<char>, dirs: Seq<Seq<char>>) -> bool {
    exists|i: int| 0 <= i < dirs.len() && path::same_path(p, #[trigger] dirs[i])
}

/// The entries that are none of some.
pub open spec fn without(entries: Seq<Seq<char>>, dirs: Seq<Seq<char>>) -> Seq<Seq<char>>
    decreases entries.len(),
{
    if entries.len() == 0 {
        Seq::<Seq<char>>::empty()
    } else if among(entries.last(), dirs) {
        without(entries.drop_last(), dirs)
    } else {
        without(entries.drop_last(), dirs).push(entries.last())
    }
}

/// The directories of a tree that are taken off the search path: its binaries and
/// its shims.
pub open spec fn tree_dirs(bin_dirs: Seq<Seq<char>>, tree: Seq<char>) -> Seq<Seq<char>> {
    bin_dirs.push(path::joined(tree, ".wt/shims"@))
}

/// A search path without the directories of a tree.
pub open spec fn stripped(search: Seq<char>, bin_dirs: Seq<Seq<char>>, tree: Seq<char>) -> Seq<
    char,
> {
    text::join(without(text::split(search, ':'), tree_dirs(bin_dirs, tree)), ":"@)
}

/// An environment whose search path does not lead into a tree.
pub open spec fn strip(
    env: Map<Seq<char>, Seq<char>>,
    bin_dirs: Seq<Seq<char>>,
    tree: Seq<char>,
) -> Map<Seq<char>, Seq<char>> {
    if env.contains_key("PATH"@) {
        env.insert("PATH"@, stripped(env["PATH"@], bin_dirs, tree))
    } else {
        env
    }
}

fn is_among(p: &str, dirs: &Vec<String>) -> (r: bool)
    ensures
        r == among(p@, text::texts(dirs@)),
{
    let ghost all = text::texts(dirs@);
    let mut i: usize = 0;
    while i < dirs.len()
        invariant
            i <= dirs.len(),
            all == text::texts(dirs@),
            forall|k: int| 0 <= k < i ==> !path::same_path(p@, #[trigger] all[k]),
        decreases dirs.len() - i,
    {
        if path::same(p, dirs[i].as_str()) {
            proof {
                assert(path::same_path(p@, all[i as int]));
            }
            return true;
        }
        i = i + 1;
    }
    false
}

/// Takes the directories of a tree off the search path of an environment.
pub fn strip_tree_paths(environment: &mut Assoc<String>, bin_dirs: &Vec<String>, tree: &str)
    requires
        old(environment).wf(),
    ensures
        final(environment).wf(),
        assoc::values(final(environment)@) == strip(
            assoc::values(old(environment)@),
            text::texts(bin_dirs@),
            tree@,
        ),
{
    let search = match environment.get("PATH") {
        Some(search) => search.clone(),
        None => return,
    };
    let shims = path::join(tree, ".wt/shims");
    let dirs = proc::Args::none().and_all(bin_dirs).and(shims.as_str()).list;
    let ghost all_dirs = tree_dirs(text::texts(bin_dirs@), tree@);
    proof {
        assert(text::texts(dirs@) =~= all_dirs);
    }
    let entries = text::split_on(search.as_str(), ':');
    let ghost all = text::split(search@, ':');
    let mut kept: Vec<String> = Vec::new();
    let mut i: usize = 0;
    proof {
        assert(text::texts(kept@) =~= Seq::<Seq<char>>::empty());
    }
    while i < entries.len()
        invariant
            i <= entries.len(),
            all == text::texts(entries@),
            text::texts(dirs@) == all_dirs,
            text::texts(kept@) == without(all.take(i as int), all_dirs),
        decreases entries.len() - i,
    {
        let ghost prior = text::texts(kept@);
        proof {
            assert(all.take(i + 1).drop_last() =~= all.take(i as int));
            assert(all.take(i + 1).last() == entries@[i as int]@);
        }
        if !is_among(entries[i].as_str(), &dirs) {
            kept.push(entries[i].clone());
            proof {
                assert(text::texts(kept@) =~= prior.push(entries@[i as int]@));
            }
        }
        i = i + 1;
    }
    proof {
        assert(all.take(entries@.len() as int) =~= all);
    }
    let joined = text::join_with(&kept, ":");
    let ghost before = assoc::values(environment@);
    let ghost said = joined@;
    environment.put("PATH", joined);
    proof {
        assert(assoc::values(environment@) =~= before.insert("PATH"@, said));
    }
}

proof fn lemma_without(entries: Seq<Seq<char>>, dirs: Seq<Seq<char>>)
    ensures
        forall|i: int|
            0 <= i < without(entries, dirs).len() ==> !among(
                #[trigger] without(entries, dirs)[i],
                dirs,
            ) && entries.contains(without(entries, dirs)[i]),
    decreases entries.len(),
{
    if entries.len() > 0 {
        lemma_without(entries.drop_last(), dirs);
        let all = without(entries, dirs);
        let some = without(entries.drop_last(), dirs);
        assert forall|i: int| 0 <= i < all.len() implies !among(#[trigger] all[i], dirs)
            && entries.contains(all[i]) by {
            if i < some.len() {
                assert(all[i] == some[i]);
                let k = choose|k: int|
                    0 <= k < entries.drop_last().len() && entries.drop_last()[k] == some[i];
                assert(entries[k] == all[i]);
            } else {
                assert(entries[entries.len() - 1] == all[i]);
            }
        }
    }
}

/// No entry that stays on the search path leads into the tree, and none is new.
pub proof fn a_stripped_path_leaves_the_tree(
    search: Seq<char>,
    bin_dirs: Seq<Seq<char>>,
    tree: Seq<char>,
    i: int,
)
    requires
        0 <= i < without(text::split(search, ':'), tree_dirs(bin_dirs, tree)).len(),
    ensures
        !among(
            without(text::split(search, ':'), tree_dirs(bin_dirs, tree))[i],
            tree_dirs(bin_dirs, tree),
        ),
        text::split(search, ':').contains(
            without(text::split(search, ':'), tree_dirs(bin_dirs, tree))[i],
        ),
{
    lemma_without(text::split(search, ':'), tree_dirs(bin_dirs, tree));
}

// ---------------------------------------------------------------------------
// Execution
// ---------------------------------------------------------------------------

/// One flag for each recipe of a snapshot.
#[derive(Clone, Copy, Debug, PartialEq, Eq, Structural)]
pub struct RecipeFlags {
    pub exists: bool,
    pub destroy: bool,
    pub run: bool,
}

/// The flag of the recipe that an action selects.
pub open spec fn flag_of(flags: RecipeFlags, action: Action) -> bool {
    match action {
        Action::Exists => flags.exists,
        Action::Destroy => flags.destroy,
        Action::Run => flags.run,
    }
}

/// What is seen of the places that a recipe needs: whether the tree and each of
/// its directories of binaries are there, which recipes name a binary that was
/// recorded there, the directory for temporary files, and whether the repository is
/// there.
#[derive(Debug)]
pub struct Places {
    pub tree_is_dir: bool,
    pub bins: Vec<bool>,
    pub names_recorded_exe: RecipeFlags,
    pub tmpdir: Option<String>,
    pub repo_is_dir: bool,
}

/// What becomes of a recipe.
#[derive(Debug)]
pub enum Execution {
    Run(CommandRequest),
    Orphaned { reason: String, remedy: String, recipe: String },
}

/// Whether all are true.
pub open spec fn all_true(flags: Seq<bool>) -> bool {
    forall|i: int| 0 <= i < flags.len() ==> #[trigger] flags[i]
}

/// Whether the tree, or a directory of its binaries, is gone.
pub open spec fn tree_gone(places: Places, replaced: bool) -> bool {
    replaced || !places.tree_is_dir
}

/// The environment of a recipe: that of the caller under the recorded one, without
/// the tree's directories where something of it is gone.
pub open spec fn recipe_env(
    snapshot: ResourceSnapshot,
    invoker: Map<Seq<char>, Seq<char>>,
    places: Places,
    replaced: bool,
) -> Map<Seq<char>, Seq<char>> {
    let env = invoker.union_prefer_right(assoc::values(snapshot.env@));
    if tree_gone(places, replaced) || !all_true(places.bins@) {
        strip(env, text::texts(snapshot.bin_dirs@), snapshot.tree@)
    } else {
        env
    }
}

/// Where a recipe runs: in its tree, or outside of it where it is gone, or in the
/// repository.
pub open spec fn recipe_cwd(
    snapshot: ResourceSnapshot,
    repo: Seq<char>,
    places: Places,
    replaced: bool,
) -> Seq<char> {
    match snapshot.tied_to {
        TiedTo::Tree => if tree_gone(places, replaced) {
            match places.tmpdir {
                Some(dir) => dir@,
                None => "/tmp"@,
            }
        } else {
            path::joined(snapshot.tree@, snapshot.cwd_rel@)
        },
        TiedTo::Repo => path::joined(repo, snapshot.cwd_rel@),
    }
}

/// Why a recipe must not run: it names a binary that went with the tree, or its
/// repository is gone.
pub open spec fn orphaned(
    snapshot: ResourceSnapshot,
    action: Action,
    command: ExpandedCommand,
    places: Places,
    replaced: bool,
) -> Option<(Seq<char>, Seq<char>)> {
    if (tree_gone(places, replaced) || !all_true(places.bins@)) && flag_of(
        places.names_recorded_exe,
        action,
    ) {
        Some(
            (
                "exe_missing"@,
                "rebuild the tree's binaries, or destroy by hand: `"@ + recipe_said(command) + "`"@,
            ),
        )
    } else if snapshot.tied_to == TiedTo::Repo && !places.repo_is_dir {
        Some(("repo_root_missing"@, "`wt register … --move-to`, or destroy by hand"@))
    } else {
        None
    }
}

fn every(flags: &Vec<bool>) -> (r: bool)
    ensures
        r == all_true(flags@),
{
    let mut i: usize = 0;
    while i < flags.len()
        invariant
            i <= flags.len(),
            forall|k: int| 0 <= k < i ==> #[trigger] flags@[k],
        decreases flags.len() - i,
    {
        if !flags[i] {
            return false;
        }
        i = i + 1;
    }
    true
}

/// Decides what becomes of a frozen recipe: which command runs, where and with
/// what environment, or why it must not.
pub fn execute_observed(
    snapshot: &ResourceSnapshot,
    action: Action,
    invoker_env: &Assoc<String>,
    current_repo_root: &str,
    tree_replaced: bool,
    places: &Places,
) -> (r: Result<Execution, CoreError>)
    requires
        snapshot.env.wf(),
        invoker_env.wf(),
    ensures
        match recipe_of(*snapshot, action) {
            None => r matches Err(e) && e@ == no_recipe(action),
            Some(command) => match orphaned(*snapshot, action, command, *places, tree_replaced) {
                Some(why) => r matches Ok(x) && x matches Execution::Orphaned {
                    reason,
                    remedy,
                    recipe,
                } && reason@ == why.0 && remedy@ == why.1 && recipe@ == recipe_said(command),
                None => if command matches ExpandedCommand::Argv { argv } && argv@.len() == 0 {
                    r matches Err(e) && e@ == error::fault(
                        ExitClass::State,
                        "CONFIG_INVALID"@,
                        "an argv command is empty"@,
                        "give the command at least one argv element"@,
                    )
                } else {
                    r matches Ok(x) && x matches Execution::Run(q) && {
                        &&& text::opt(q.cwd) == Some(
                            recipe_cwd(*snapshot, current_repo_root@, *places, tree_replaced),
                        )
                        &&& q.env.wf()
                        &&& assoc::values(q.env@) == recipe_env(
                            *snapshot,
                            assoc::values(invoker_env@),
                            *places,
                            tree_replaced,
                        )
                        &&& q.remove_env@.len() == 0
                        &&& q.clear_env
                        &&& match command {
                            ExpandedCommand::Shell { shell } => q.program@ == "sh"@ && text::texts(
                                q.args@,
                            ) == seq!["-c"@, shell@],
                            ExpandedCommand::Argv { argv } => q.program@ == argv@[0]@
                                && text::texts(q.args@) == text::texts(argv@).skip(1),
                        }
                    }
                },
            },
        },
{
    let command = match command_for(snapshot, action) {
        Ok(command) => command,
        Err(e) => return Err(e),
    };
    let recipe = recipe_text(command);
    let tree_missing = tree_replaced || !places.tree_is_dir;
    let bin_missing = !every(&places.bins);
    let names_exe = match action {
        Action::Exists => places.names_recorded_exe.exists,
        Action::Destroy => places.names_recorded_exe.destroy,
        Action::Run => places.names_recorded_exe.run,
    };
    if (tree_missing || bin_missing) && names_exe {
        let remedy = "rebuild the tree's binaries, or destroy by hand: `".to_owned().concat(
            recipe.as_str(),
        ).concat("`");
        return Ok(Execution::Orphaned { reason: "exe_missing".to_owned(), remedy, recipe });
    }
    let base = assoc::copy(invoker_env);
    let mut environment = assoc::overlay(base, &snapshot.env);
    if tree_missing || bin_missing {
        strip_tree_paths(&mut environment, &snapshot.bin_dirs, snapshot.tree.as_str());
    }
    let cwd = match snapshot.tied_to {
        TiedTo::Tree => if !tree_missing {
            path::join(snapshot.tree.as_str(), snapshot.cwd_rel.as_str())
        } else {
            match &places.tmpdir {
                Some(dir) => dir.clone(),
                None => "/tmp".to_owned(),
            }
        },
        TiedTo::Repo => {
            if !places.repo_is_dir {
                return Ok(
                    Execution::Orphaned {
                        reason: "repo_root_missing".to_owned(),
                        remedy: "`wt register … --move-to`, or destroy by hand".to_owned(),
                        recipe,
                    },
                );
            }
            path::join(current_repo_root, snapshot.cwd_rel.as_str())
        },
    };
    match CommandRequest::expanded(command, cwd.as_str(), environment) {
        Ok(request) => Ok(Execution::Run(request)),
        Err(e) => Err(e),
    }
}

/// What was recorded stands over what the caller has: a variable of the snapshot
/// has its recorded value, unless it is the search path of a tree that is gone;
/// any other has the caller's.
pub proof fn recorded_variables_stand(
    snapshot: ResourceSnapshot,
    invoker: Map<Seq<char>, Seq<char>>,
    places: Places,
    replaced: bool,
    name: Seq<char>,
)
    requires
        name != "PATH"@,
    ensures
        ({
            let env = recipe_env(snapshot, invoker, places, replaced);
            let own = assoc::values(snapshot.env@);
            if own.contains_key(name) {
                env.contains_key(name) && env[name] == own[name]
            } else {
                env.contains_key(name) == invoker.contains_key(name) && (invoker.contains_key(name)
                    ==> env[name] == invoker[name])
            }
        }),
{
}

/// Only the recipe that is selected is looked at: what the others name does not keep it
/// from running.
pub proof fn only_the_selected_recipe_counts(
    snapshot: ResourceSnapshot,
    action: Action,
    command: ExpandedCommand,
    a: Places,
    b: Places,
    replaced: bool,
)
    requires
        flag_of(a.names_recorded_exe, action) == flag_of(b.names_recorded_exe, action),
        b == (Places { names_recorded_exe: b.names_recorded_exe, ..a }),
    ensures
        orphaned(snapshot, action, command, a, replaced) == orphaned(
            snapshot,
            action,
            command,
            b,
            replaced,
        ),
{
}

/// A recipe of a tree that is gone does not run in it.
pub proof fn no_recipe_runs_in_a_missing_tree(
    snapshot: ResourceSnapshot,
    repo: Seq<char>,
    places: Places,
    replaced: bool,
)
    requires
        snapshot.tied_to == TiedTo::Tree,
        tree_gone(places, replaced),
    ensures
        recipe_cwd(snapshot, repo, places, replaced) == match places.tmpdir {
            Some(dir) => dir@,
            None => "/tmp"@,
        },
{
}

/// The names of what would run in some directories, in order and each once.
pub fn capture_bin_exes(executables: &Vec<String>) -> (r: Vec<String>)
    ensures
        assoc::set_of(text::texts(r@), text::texts(executables@)),
{
    assoc::sorted_set(executables)
}

/// The time of a probe, or the epoch where the clock cannot be used.
pub fn probe_time(stamp: Result<String, CoreError>) -> (r: String)
    ensures
        r@ == match stamp {
            Ok(s) => s@,
            Err(_) => "1970-01-01T00:00:00.000000000Z"@,
        },
{
    match stamp {
        Ok(s) => s,
        Err(_) => "1970-01-01T00:00:00.000000000Z".to_owned(),
    }
}

/// An entry of a search path stays exactly where it is none of the given directories.
pub proof fn only_what_is_among_them_goes(entries: Seq<Seq<char>>, dirs: Seq<Seq<char>>, y: Seq<char>)
    ensures
        without(entries, dirs).contains(y) <==> (exists|i: int|
            0 <= i < entries.len() && !among((#[trigger] entries[i]), dirs) && y == entries[i]),
    decreases entries.len(),
{
    let all = without(entries, dirs);
    if entries.len() > 0 {
        let rest = entries.drop_last();
        let some = without(rest, dirs);
        only_what_is_among_them_goes(rest, dirs, y);
        if all.contains(y) {
            let k = choose|k: int| 0 <= k < all.len() && all[k] == y;
            if k < some.len() {
                assert(some[k] == y);
                let i = choose|i: int| 0 <= i < rest.len() && !among((#[trigger] rest[i]), dirs) && y == rest[i];
                assert(entries[i] == rest[i]);
            } else {
                assert(!among(entries[rest.len() as int], dirs) && y == entries[rest.len() as int]);
            }
        }
        if exists|i: int| 0 <= i < entries.len() && !among((#[trigger] entries[i]), dirs) && y == entries[i] {
            let i = choose|i: int| 0 <= i < entries.len() && !among((#[trigger] entries[i]), dirs) && y == entries[i];
            if i < rest.len() {
                assert(rest[i] == entries[i]);
                let k = choose|k: int| 0 <= k < some.len() && some[k] == y;
                assert(all[k] == y);
            } else {
                assert(all[all.len() - 1] == y);
            }
        }
    }
}

/// A recipe runs in the environment of the one who runs it, under what is on record; only
/// its search path is another where the tree or one of its directories is gone.
pub proof fn what_a_recipe_runs_in(
    snapshot: ResourceSnapshot,
    invoker: Map<Seq<char>, Seq<char>>,
    places: Places,
    replaced: bool,
    key: Seq<char>,
)
    ensures
        ({
            let env = recipe_env(snapshot, invoker, places, replaced);
            let own = assoc::values(snapshot.env@);
            let whole = !replaced && places.tree_is_dir && forall|i: int|
                0 <= i < places.bins@.len() ==> #[trigger] places.bins@[i];
            &&& env.contains_key(key) <==> invoker.contains_key(key) || own.contains_key(key)
            &&& (key != "PATH"@ || whole) && own.contains_key(key) ==> env[key] == own[key]
            &&& (key != "PATH"@ || whole) && !own.contains_key(key) && invoker.contains_key(key)
                ==> env[key] == invoker[key]
            &&& key == "PATH"@ && !whole && own.contains_key(key) ==> env[key] == stripped(
                own[key],
                text::texts(snapshot.bin_dirs@),
                snapshot.tree@,
            )
        }),
{
}

/// A recipe runs in its directory of the tree, or of the repository that it is tied to; only
/// one of a tree that is gone runs elsewhere.
pub proof fn where_a_recipe_runs(
    snapshot: ResourceSnapshot,
    repo: Seq<char>,
    places: Places,
    replaced: bool,
)
    ensures
        snapshot.tied_to == TiedTo::Repo ==> recipe_cwd(snapshot, repo, places, replaced)
            == path::joined(repo, snapshot.cwd_rel@),
        snapshot.tied_to == TiedTo::Tree && !replaced && places.tree_is_dir ==> recipe_cwd(
            snapshot,
            repo,
            places,
            replaced,
        ) == path::joined(snapshot.tree@, snapshot.cwd_rel@),
        snapshot.tied_to == TiedTo::Tree && (replaced || !places.tree_is_dir) ==> recipe_cwd(
            snapshot,
            repo,
            places,
            replaced,
        ) == (match places.tmpdir {
            Some(dir) => dir@,
            None => "/tmp"@,
        }),
{
}

/// A recipe is orphaned exactly where it names a program of the tree, which is gone or lacks
/// a directory, or where it is tied to a repository that is gone.
pub proof fn which_recipe_is_orphaned(
    snapshot: ResourceSnapshot,
    action: Action,
    command: ExpandedCommand,
    places: Places,
    replaced: bool,
)
    ensures
        ({
            let lacking = replaced || !places.tree_is_dir || exists|i: int|
                0 <= i < places.bins@.len() && !#[trigger] places.bins@[i];
            let named = match action {
                Action::Exists => places.names_recorded_exe.exists,
                Action::Destroy => places.names_recorded_exe.destroy,
                Action::Run => places.names_recorded_exe.run,
            };
            let found = orphaned(snapshot, action, command, places, replaced);
            &&& found is Some <==> (lacking && named) || (snapshot.tied_to == TiedTo::Repo
                && !places.repo_is_dir)
            &&& found matches Some(f) ==> f.0 == if lacking && named {
                "exe_missing"@
            } else {
                "repo_root_missing"@
            }
        }),
{
}

} // verus!
