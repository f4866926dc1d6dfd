//! Running tasks and resources: which steps a run takes, what is recorded of it, and
//! what is reported.

use vstd::prelude::*;
use vstd::string::*;

use crate::assoc;
use crate::assoc::Assoc;
use crate::course;
use crate::error;
use crate::error::{CoreError, Details, ExitClass};
use crate::model::{ProbeFound, ResourceState};
use crate::order;
use crate::order::Keyed;
use crate::output;
use crate::output::{Notice, NoticeLevel};
use crate::path;
use crate::proc::{ChildStatus, ExpandedCommand, ProcessOutput, Tee};
use crate::snapshot::{capture_bin_exes, ResourceSnapshot, TiedTo};
use crate::text;

verus! {

broadcast use vstd::string::group_string_axioms;

// ---------------------------------------------------------------------------
// Keys and paths
// ---------------------------------------------------------------------------

/// What a resource is known by. One that is tied to its tree has the tree's name.
#[derive(Debug)]
pub struct ResourceKey {
    pub label: String,
    pub tied_to: TiedTo,
    pub name: Option<String>,
    pub scope: String,
    pub task: String,
}

/// What is known of a key.
#[verifier::ext_equal]
pub struct Key {
    pub label: Seq<char>,
    pub tied_to: TiedTo,
    pub name: Option<Seq<char>>,
    pub scope: Seq<char>,
    pub task: Seq<char>,
}

impl View for ResourceKey {
    type V = Key;

    open spec fn view(&self) -> Key {
        Key {
            label: self.label@,
            tied_to: self.tied_to,
            name: text::opt(self.name),
            scope: self.scope@,
            task: self.task@,
        }
    }
}

/// The key of a resource of a tree.
pub open spec fn key_of(
    label: Seq<char>,
    name: Seq<char>,
    tied_to: TiedTo,
    scope: Seq<char>,
    task: Seq<char>,
) -> Key {
    Key {
        label,
        tied_to,
        name: if tied_to == TiedTo::Tree {
            Some(name)
        } else {
            None
        },
        scope,
        task,
    }
}

/// The key of a resource of a tree.
pub fn resource_key(label: &str, name: &str, tied_to: TiedTo, scope: &str, task: &str) -> (r:
    ResourceKey)
    ensures
        r@ == key_of(label@, name@, tied_to, scope@, task@),
{
    let name = if tied_to == TiedTo::Tree {
        Some(name.to_owned())
    } else {
        None
    };
    ResourceKey {
        label: label.to_owned(),
        tied_to,
        name,
        scope: scope.to_owned(),
        task: task.to_owned(),
    }
}

/// What a resource is tied to; one that does not say is refused.
pub fn require_tied(id: &str, tied_to: Option<TiedTo>) -> (r: Result<TiedTo, CoreError>)
    ensures
        match tied_to {
            Some(t) => r == Ok::<TiedTo, CoreError>(t),
            None => r matches Err(e) && e@ == error::fault(
                ExitClass::State,
                "CONFIG_INVALID"@,
                "resource "@ + id@ + " has no tied_to"@,
                "set tied_to to tree or repo"@,
            ),
        },
{
    match tied_to {
        Some(t) => Ok(t),
        None => {
            let message = "resource ".to_owned().concat(id).concat(" has no tied_to");
            Err(
                CoreError::new(
                    ExitClass::State,
                    "CONFIG_INVALID",
                    message.as_str(),
                    "set tied_to to tree or repo",
                ),
            )
        },
    }
}

/// What a resource is recorded under: its task, with its scope where that is not the
/// root.
pub open spec fn scoped(scope: Seq<char>, task: Seq<char>) -> Seq<char> {
    if scope == "."@ {
        task
    } else {
        scope + "/"@ + task
    }
}

/// What a resource is recorded under.
pub fn scoped_id(scope: &str, task: &str) -> (r: String)
    ensures
        r@ == scoped(scope@, task@),
{
    if text::same(scope, ".") {
        task.to_owned()
    } else {
        scope.to_owned().concat("/").concat(task)
    }
}

/// The lock of a resource, below the home directory. `scope` is the scope as it is
/// written in the names of files.
pub open spec fn resource_lock(home: Seq<char>, key: Key, scope: Seq<char>) -> Seq<char> {
    let tied = match key.tied_to {
        TiedTo::Tree => "tree/"@ + (match key.name {
            Some(name) => name,
            None => "canonical"@,
        }) + "/"@,
        TiedTo::Repo => "repo/"@,
    };
    path::joined(
        home,
        "locks/"@ + key.label + "/res/"@ + tied + scope + "/"@ + key.task + ".lock"@,
    )
}

/// The lock of a resource.
pub fn resource_lock_path(home: &str, key: &ResourceKey, scope: &str) -> (r: String)
    ensures
        r@ == resource_lock(home@, key@, scope@),
{
    let tied = match key.tied_to {
        TiedTo::Tree => {
            let name = match &key.name {
                Some(name) => name.clone(),
                None => "canonical".to_owned(),
            };
            "tree/".to_owned().concat(name.as_str()).concat("/")
        },
        TiedTo::Repo => "repo/".to_owned(),
    };
    let rest = "locks/".to_owned().concat(key.label.as_str()).concat("/res/").concat(
        tied.as_str(),
    ).concat(scope).concat("/").concat(key.task.as_str()).concat(".lock");
    path::join(home, rest.as_str())
}

/// A lock by name of a label.
pub fn named_lock_path(home: &str, label: &str, name: &str) -> (r: String)
    ensures
        r@ == path::joined(home@, "locks/"@ + label@ + "/named/"@ + name@ + ".lock"@),
{
    let rest = "locks/".to_owned().concat(label).concat("/named/").concat(name).concat(".lock");
    path::join(home, rest.as_str())
}

/// The lock of a repository's record.
pub fn repo_lock_path(home: &str, label: &str) -> (r: String)
    ensures
        r@ == path::joined(home@, "locks/"@ + label@ + "/_repo.rmw.lock"@),
{
    let rest = "locks/".to_owned().concat(label).concat("/_repo.rmw.lock");
    path::join(home, rest.as_str())
}

/// The log of a task: none where none is kept. `scope` is the scope as it is written in
/// the names of files, and `stamp` the time.
pub open spec fn log_of(root: Seq<char>, scope: Seq<char>, id: Seq<char>, stamp: Seq<char>) -> Seq<
    char,
> {
    path::joined(
        path::joined(root, ".wt/logs"@),
        scope + "-"@ + text::replace(id, '/', "_"@) + "-"@ + text::replace(
            text::replace(stamp, '.', "-"@),
            ':',
            "-"@,
        ) + ".log"@,
    )
}

/// The log of a task.
pub fn log_path(root: &str, scope: &str, id: &str, stamp: &str, no_log: bool) -> (r: Option<String>)
    ensures
        text::opt(r) == if no_log {
            None
        } else {
            Some(log_of(root@, scope@, id@, stamp@))
        },
{
    if no_log {
        return None;
    }
    let dir = path::join(root, ".wt/logs");
    let dots = text::replaced(stamp, '.', "-");
    let when = text::replaced(dots.as_str(), ':', "-");
    let name = scope.to_owned().concat("-").concat(
        text::replaced(id, '/', "_").as_str(),
    ).concat("-").concat(when.as_str()).concat(".log");
    Some(path::join(dir.as_str(), name.as_str()))
}

/// How many logs stay before a new one is written.
pub fn logs_kept(keep: usize) -> (r: usize)
    ensures
        r == if keep == 0 {
            0
        } else {
            keep - 1
        },
{
    if keep == 0 {
        0
    } else {
        keep - 1
    }
}

// ---------------------------------------------------------------------------
// Waits
// ---------------------------------------------------------------------------

/// The first of some waits that was given, with what it reads as.
pub open spec fn first_given(a: Option<Option<u64>>, b: Option<Option<u64>>) -> Option<Option<u64>> {
    if a is Some {
        a
    } else {
        b
    }
}

/// A wait as it was given, with what it reads as.
pub open spec fn wait_of(given: Option<Option<u64>>, default: u64) -> u64 {
    match given {
        Some(Some(v)) => v,
        _ => default,
    }
}

fn wait(given: Option<Option<u64>>, default: u64) -> (r: u64)
    ensures
        r == wait_of(given, default),
{
    match given {
        Some(Some(v)) => v,
        _ => default,
    }
}

fn either(a: Option<Option<u64>>, b: Option<Option<u64>>) -> (r: Option<Option<u64>>)
    ensures
        r == first_given(a, b),
{
    if a.is_some() {
        a
    } else {
        b
    }
}

/// How long the lock of git is waited for in a run, in milliseconds.
pub fn git_lock_wait(given: Option<Option<u64>>, set: Option<Option<u64>>) -> (r: u64)
    ensures
        r == wait_of(first_given(given, set), 60000),
{
    wait(either(given, set), 60000)
}

/// How long the lock of a resource is waited for, in milliseconds.
pub fn resource_lock_wait(given: Option<Option<u64>>, set: Option<Option<u64>>) -> (r: u64)
    ensures
        r == wait_of(first_given(given, set), 120000),
{
    wait(either(given, set), 120000)
}

/// How long a probe of a task may take, in milliseconds.
pub fn probe_timeout(own: Option<Option<u64>>, set: Option<Option<u64>>) -> (r: u64)
    ensures
        r == wait_of(first_given(own, set), 10000),
{
    wait(either(own, set), 10000)
}

/// How long a task may take, where there is a bound: the one that is given, its own, or
/// the one that is set.
pub fn task_timeout(
    given: Option<Option<u64>>,
    own: Option<Option<u64>>,
    set: Option<Option<u64>>,
) -> (r: Option<u64>)
    ensures
        r == match first_given(given, first_given(own, set)) {
            Some(v) => v,
            None => None,
        },
{
    match either(given, either(own, set)) {
        Some(v) => v,
        None => None,
    }
}

/// Where the output of a task is shown: apart from a report that is read by programs.
pub fn tee(json: bool) -> (r: Tee)
    ensures
        r == if json {
            Tee::Stderr
        } else {
            Tee::Inherit
        },
{
    if json {
        Tee::Stderr
    } else {
        Tee::Inherit
    }
}

// ---------------------------------------------------------------------------
// Tasks
// ---------------------------------------------------------------------------

/// The fault of a task without its directory.
pub open spec fn no_cwd(cwd: Seq<char>) -> error::Fault {
    error::fault(
        ExitClass::State,
        "CWD_MISSING"@,
        "task cwd "@ + cwd + " is missing"@,
        "create the directory or correct task.cwd"@,
    )
}

/// Refuses a task whose directory is not there.
pub fn require_cwd(cwd: &str, is_dir: bool) -> (r: Result<(), CoreError>)
    ensures
        r is Ok == is_dir,
        r matches Err(e) ==> e@ == no_cwd(cwd@),
{
    if is_dir {
        return Ok(());
    }
    let message = "task cwd ".to_owned().concat(cwd).concat(" is missing");
    Err(
        CoreError::new(
            ExitClass::State,
            "CWD_MISSING",
            message.as_str(),
            "create the directory or correct task.cwd",
        ),
    )
}

/// What becomes of a task.
#[derive(Clone, Copy, Debug, PartialEq, Eq, Structural)]
pub enum TaskMove {
    /// What it makes is there.
    Present,
    /// It has nothing to run.
    Skip,
    Run,
}

/// The fault of a probe that failed.
pub open spec fn probe_fault(id: Seq<char>) -> error::Fault {
    error::fault(
        ExitClass::ChildFailed,
        "TASK_PROBE_FAILED"@,
        "probe for "@ + id + " failed"@,
        "fix the probe and retry"@,
    )
}

/// Decides about a task, of what its probe found, where it has one, and whether it has
/// something to run.
pub fn task_move(id: &str, probed: Option<ProbeFound>, has_run: bool) -> (r: Result<
    TaskMove,
    CoreError,
>)
    ensures
        match probed {
            Some(ProbeFound::Present) => r == Ok::<TaskMove, CoreError>(TaskMove::Present),
            Some(ProbeFound::Failed) => r matches Err(e) && e@ == probe_fault(id@),
            _ => r == Ok::<TaskMove, CoreError>(
                if has_run {
                    TaskMove::Run
                } else {
                    TaskMove::Skip
                },
            ),
        },
{
    match probed {
        Some(ProbeFound::Present) => {
            return Ok(TaskMove::Present);
        },
        Some(ProbeFound::Failed) => {
            let message = "probe for ".to_owned().concat(id).concat(" failed");
            return Err(
                CoreError::new(
                    ExitClass::ChildFailed,
                    "TASK_PROBE_FAILED",
                    message.as_str(),
                    "fix the probe and retry",
                ),
            );
        },
        _ => {},
    }
    if has_run {
        Ok(TaskMove::Run)
    } else {
        Ok(TaskMove::Skip)
    }
}

/// What a task that did not run is reported as.
pub fn task_status(step: TaskMove) -> (r: &'static str)
    ensures
        r@ == match step {
            TaskMove::Present => "present"@,
            TaskMove::Skip => "skipped"@,
            TaskMove::Run => "ok"@,
        },
{
    match step {
        TaskMove::Present => "present",
        TaskMove::Skip => "skipped",
        TaskMove::Run => "ok",
    }
}

/// The fault of a task that failed, which tells how its child ended.
pub open spec fn task_fault(code: Seq<char>, task: Seq<char>, output: ProcessOutput) -> error::Fault {
    error::telling(
        error::fault(
            if output.timed_out {
                ExitClass::Timeout
            } else {
                ExitClass::ChildFailed
            },
            if output.timed_out {
                "TIMEOUT"@
            } else {
                code
            },
            "task `"@ + task + "` exited "@ + text::signed_decimal(output.child.mapped()),
            "inspect the child output and task log, then retry"@,
        ),
        error::Told::Child(output.child),
    )
}

/// A command that runs a task ends with the status of a task that failed in time: its
/// own code, or 128 and the signal that ended it.
pub proof fn a_failing_task_hands_on_its_status(
    command: Seq<char>,
    task: Seq<char>,
    output: ProcessOutput,
    own: i32,
)
    requires
        output::runs_a_task(command),
        !output.timed_out,
        output.child.code is Some || output.child.signal is Some,
    ensures
        output::exit_status(command, false, task_fault("TASK_FAILED"@, task, output), own)
            == output.child.mapped(),
{
}

/// A task that failed.
pub fn child_failed(code: &str, task: &str, output: &ProcessOutput) -> (r: CoreError)
    requires
        output.child.valid(),
    ensures
        r@ == task_fault(code@, task@, *output),
{
    let exit: i32 = output.mapped_exit();
    let message = "task `".to_owned().concat(task).concat("` exited ").concat(
        text::signed_decimal_of(exit as i64).as_str(),
    );
    let failed = if output.timed_out {
        CoreError::new(
            ExitClass::Timeout,
            "TIMEOUT",
            message.as_str(),
            "inspect the child output and task log, then retry",
        )
    } else {
        CoreError::new(
            ExitClass::ChildFailed,
            code,
            message.as_str(),
            "inspect the child output and task log, then retry",
        )
    };
    failed.with_details(Details::Child(output.child))
}

/// What came of a task that ran.
pub fn task_result(task: &str, output: &ProcessOutput) -> (r: Result<ChildStatus, CoreError>)
    requires
        output.child.valid(),
    ensures
        r is Ok == output.succeeded(),
        r matches Ok(child) ==> child == output.child,
        r matches Err(e) ==> e@ == task_fault("TASK_FAILED"@, task@, *output),
{
    if output.success() {
        Ok(output.child)
    } else {
        Err(child_failed("TASK_FAILED", task, output))
    }
}

// ---------------------------------------------------------------------------
// Plans
// ---------------------------------------------------------------------------

/// A step of a run as it is reported.
#[derive(Debug)]
pub struct StepReport {
    pub id: String,
    pub scope: String,
    pub status: String,
    pub child: Option<ChildStatus>,
    pub duration_ms: u64,
}

/// A run of a plan: the steps that were taken, and the last child and log.
#[derive(Debug)]
pub struct PlanRun {
    pub root: String,
    pub length: usize,
    pub steps: Vec<StepReport>,
    pub child: Option<ChildStatus>,
    pub log: Option<String>,
    pub notices: Vec<Notice>,
}

impl PlanRun {
    /// No more steps were taken than the plan has.
    pub open spec fn wf(&self) -> bool {
        self.steps@.len() <= self.length
    }

    /// Begins to carry a plan of so many steps out.
    pub fn new(root: String, length: usize) -> (r: Self)
        ensures
            r.wf(),
            r.root == root && r.length == length,
            r.steps@ == Seq::<StepReport>::empty(),
            r.child is None && r.log is None,
            r.notices@ == Seq::<Notice>::empty(),
    {
        PlanRun {
            root,
            length,
            steps: Vec::new(),
            child: None,
            log: None,
            notices: Vec::new(),
        }
    }

    /// Takes a step that was taken: its child and its log are the last ones, where it
    /// has them.
    pub fn took(&mut self, step: StepReport, log: Option<String>, notices: Vec<Notice>)
        requires
            old(self).wf(),
            old(self).steps@.len() < old(self).length,
        ensures
            final(self).wf(),
            final(self).root == old(self).root && final(self).length == old(self).length,
            final(self).steps@ == old(self).steps@.push(step),
            final(self).child == if step.child is Some {
                step.child
            } else {
                old(self).child
            },
            final(self).log == if log is Some {
                log
            } else {
                old(self).log
            },
            final(self).notices@ == old(self).notices@ + notices@,
    {
        if step.child.is_some() {
            self.child = step.child;
        }
        if log.is_some() {
            self.log = log;
        }
        let mut notices = notices;
        self.notices.append(&mut notices);
        self.steps.push(step);
    }

    /// Whether the run is in the middle of a sync.
    pub fn in_sync(&self) -> (r: bool)
        ensures
            r == (self.root@ == "sync"@ && self.steps@.len() < self.length),
    {
        text::same(self.root.as_str(), "sync") && self.steps.len() < self.length
    }
}

// ---------------------------------------------------------------------------
// Resources
// ---------------------------------------------------------------------------

/// What carrying a resource's recipe out came to.
#[derive(Debug)]
pub enum EffectResult {
    Carried { child: Option<ChildStatus> },
    Failed { message: String, reason: String, child: Option<ChildStatus> },
}

/// What is known of an effect.
pub enum Effect {
    Carried { child: Option<ChildStatus> },
    Failed { message: Seq<char>, reason: Seq<char>, child: Option<ChildStatus> },
}

impl View for EffectResult {
    type V = Effect;

    open spec fn view(&self) -> Effect {
        match self {
            EffectResult::Carried { child } => Effect::Carried { child: *child },
            EffectResult::Failed { message, reason, child } => Effect::Failed {
                message: message@,
                reason: reason@,
                child: *child,
            },
        }
    }
}

/// What a child that carried a recipe out came to.
pub fn effect_of(output: &ProcessOutput) -> (r: EffectResult)
    requires
        output.child.valid(),
    ensures
        r@ == if output.succeeded() {
            Effect::Carried { child: Some(output.child) }
        } else {
            Effect::Failed {
                message: "child exited "@ + text::signed_decimal(output.child.mapped()),
                reason: if output.timed_out {
                    "timeout"@
                } else {
                    "child_failed"@
                },
                child: Some(output.child),
            }
        },
{
    if output.success() {
        return EffectResult::Carried { child: Some(output.child) };
    }
    let exit: i32 = output.mapped_exit();
    let message = "child exited ".to_owned().concat(
        text::signed_decimal_of(exit as i64).as_str(),
    );
    let reason = if output.timed_out {
        "timeout".to_owned()
    } else {
        "child_failed".to_owned()
    };
    EffectResult::Failed { message, reason, child: Some(output.child) }
}

/// What a recipe that could not be carried out came to.
pub fn orphaned_effect(reason: String, remedy: String) -> (r: EffectResult)
    ensures
        r@ == (Effect::Failed { message: remedy@, reason: reason@, child: None }),
{
    EffectResult::Failed { message: remedy, reason, child: None }
}

/// The child of an effect.
pub fn effect_child(effect: &EffectResult) -> (r: Option<ChildStatus>)
    ensures
        r == match effect@ {
            Effect::Carried { child } => child,
            Effect::Failed { message: _, reason: _, child } => child,
        },
{
    match effect {
        EffectResult::Carried { child } => *child,
        EffectResult::Failed { message: _, reason: _, child } => *child,
    }
}

/// How a resource stands after a step, in a word.
pub fn resource_status(state: Option<ResourceState>) -> (r: &'static str)
    ensures
        r@ == match state {
            Some(ResourceState::Declared) => "declared"@,
            Some(ResourceState::Present) => "present"@,
            Some(ResourceState::Orphaned) => "orphaned"@,
            None => "dropped"@,
        },
{
    match state {
        Some(ResourceState::Declared) => "declared",
        Some(ResourceState::Present) => "present",
        Some(ResourceState::Orphaned) => "orphaned",
        None => "dropped",
    }
}

/// What is said of a step of a resource.
pub open spec fn step_said(code: Seq<char>, task: Seq<char>) -> output::Said {
    output::about(
        NoticeLevel::Info,
        code,
        task,
        if code == "RESOURCE_DECLARED_EXTERNAL"@ {
            "declared; created by the application"@
        } else {
            "resource transition reported "@ + code
        },
    )
}

/// What is said of a step of a resource.
pub fn step_notices(codes: &Vec<String>, task: &str) -> (r: Vec<Notice>)
    ensures
        output::said(r@) == text::texts(codes@).map_values(|c: Seq<char>| step_said(c, task@)),
{
    let ghost all = text::texts(codes@).map_values(|c: Seq<char>| step_said(c, task@));
    let mut out: Vec<Notice> = Vec::new();
    let mut i: usize = 0;
    proof {
        assert(output::said(out@) =~= all.take(0));
    }
    while i < codes.len()
        invariant
            i <= codes.len(),
            all == text::texts(codes@).map_values(|c: Seq<char>| step_said(c, task@)),
            output::said(out@) == all.take(i as int),
        decreases codes.len() - i,
    {
        let ghost prior = output::said(out@);
        let code = codes[i].as_str();
        let message = if text::same(code, "RESOURCE_DECLARED_EXTERNAL") {
            "declared; created by the application".to_owned()
        } else {
            "resource transition reported ".to_owned().concat(code)
        };
        let one = output::notice(NoticeLevel::Info, code, task, message.as_str());
        let ghost o = one@;
        out.push(one);
        proof {
            assert(output::said(out@) =~= prior.push(o));
            assert(o == all[i as int]);
            assert(all.take(i + 1) =~= all.take(i as int).push(all[i as int]));
        }
        i = i + 1;
    }
    proof {
        assert(all.take(codes@.len() as int) =~= all);
    }
    out
}

/// A resource without a record.
pub fn record_missing(task: &str) -> (r: CoreError)
    ensures
        r@ == error::fault(
            ExitClass::State,
            "RESOURCE_RECORD_MISSING"@,
            "resource "@ + task@ + " has no declaration record"@,
            "run the task again to refresh its declaration"@,
        ),
{
    let message = "resource ".to_owned().concat(task).concat(" has no declaration record");
    CoreError::new(
        ExitClass::State,
        "RESOURCE_RECORD_MISSING",
        message.as_str(),
        "run the task again to refresh its declaration",
    )
}

/// Puts what is left of a resource on record: nothing of one that is gone.
pub fn persist<V>(records: &mut Assoc<V>, scope: &str, task: &str, record: Option<V>)
    requires
        old(records).wf(),
    ensures
        final(records).wf(),
        final(records)@ == match record {
            Some(v) => old(records)@.insert(scoped(scope@, task@), v),
            None => old(records)@.remove(scoped(scope@, task@)),
        },
{
    let id = scoped_id(scope, task);
    match record {
        Some(v) => {
            records.put(id.as_str(), v);
        },
        None => {
            let _ = records.remove(id.as_str());
        },
    }
}

/// Whether an error of a resource's environment is passed over when what a tree
/// declares is refreshed: what is not defined yet may be later.
pub fn skips_refresh(code: &str) -> (r: bool)
    ensures
        r == (code@ == "ENV_UNDEFINED"@),
{
    text::same(code, "ENV_UNDEFINED")
}

/// What goes on record of a resource that was passed over.
pub fn refresh_skipped(scope: &str, task: &str) -> (r: String)
    ensures
        r@ == "REFRESH_SKIPPED:"@ + scope@ + ":"@ + task@,
{
    "REFRESH_SKIPPED:".to_owned().concat(scope).concat(":").concat(task)
}

/// The probe before a stored resource is destroyed: what is on record as being there,
/// or as orphaned, is taken to be there.
pub fn trusts_record(state: ResourceState) -> (r: bool)
    ensures
        r == (state == ResourceState::Present || state == ResourceState::Orphaned),
{
    state == ResourceState::Present || state == ResourceState::Orphaned
}

/// A recorded resource: when it was recorded, and under what.
#[derive(Debug)]
pub struct Recorded {
    pub recorded_at: String,
    pub scope: String,
    pub task: String,
}

impl Keyed for Recorded {
    open spec fn key(&self) -> Seq<Seq<int>> {
        seq![order::ranks(self.recorded_at@), order::ranks(scoped(self.scope@, self.task@))]
    }

    fn sort_key(&self) -> (r: Vec<Vec<u64>>) {
        let mut key: Vec<Vec<u64>> = Vec::new();
        key.push(order::text_part(self.recorded_at.as_str()));
        let id = scoped_id(self.scope.as_str(), self.task.as_str());
        key.push(order::text_part(id.as_str()));
        proof {
            assert(order::key_view(key@) =~= self.key());
        }
        key
    }
}

fn backwards<T>(items: Vec<T>) -> (r: Vec<T>)
    ensures
        r@ == items@.reverse(),
{
    let ghost all = items@;
    let mut items = items;
    let mut out: Vec<T> = Vec::new();
    while items.len() > 0
        invariant
            out@.len() + items@.len() == all.len(),
            items@ == all.take(items@.len() as int),
            out@ == all.reverse().take(out@.len() as int),
        decreases items@.len(),
    {
        let ghost n = items@.len() as int;
        if let Some(one) = items.pop() {
            out.push(one);
            proof {
                assert(items@ =~= all.take(n - 1));
                assert(all.reverse()[all.len() - n] == all[n - 1]);
                assert(out@ =~= all.reverse().take(out@.len() as int));
            }
        }
    }
    proof {
        assert(all.reverse().take(all.len() as int) =~= all.reverse());
    }
    out
}

/// The newest first; of the same time, the last by what they are recorded under. Those
/// that are alike stay in their order.
pub open spec fn newest_first(items: Seq<Recorded>) -> Seq<Recorded> {
    order::sorted(items.reverse()).reverse()
}

/// Puts resources in the order in which they are destroyed: the newest first.
pub fn newest_resources_first(items: Vec<Recorded>) -> (r: Vec<Recorded>)
    ensures
        r@ == newest_first(items@),
{
    backwards(order::sort(backwards(items)))
}

/// What was recorded last is destroyed first.
pub proof fn the_newest_comes_first(items: Seq<Recorded>, i: int, j: int)
    requires
        0 <= i < j < items.len(),
    ensures
        newest_first(items).len() == items.len(),
        order::key_le(newest_first(items)[j].key(), newest_first(items)[i].key()),
{
    let back = items.reverse();
    order::sorting_orders_and_keeps(back);
    let s = order::sorted(back);
    let n = s.len() as int;
    assert(newest_first(items)[i] == s[n - 1 - i]);
    assert(newest_first(items)[j] == s[n - 1 - j]);
}

// ---------------------------------------------------------------------------
// A plan that is only shown
// ---------------------------------------------------------------------------

/// A step of a plan: where its task comes from, in the word for that, where it runs,
/// what it runs and by what it is present, and what it locks.
#[derive(Debug)]
pub struct PlanNode<R, E> {
    pub id: String,
    pub scope: String,
    pub origin: String,
    pub cwd: String,
    pub run: R,
    pub exists: E,
    pub lock: Option<String>,
    pub sys_locks: Vec<String>,
    pub resource: bool,
    pub tied_to: Option<TiedTo>,
}

/// A step of a plan as it is shown.
#[derive(Debug)]
pub struct DryRunStep<R, E> {
    pub id: String,
    pub scope: String,
    pub origin: String,
    pub cwd: String,
    pub run: R,
    pub exists: E,
    pub lock: Option<String>,
    pub sys_locks: Vec<String>,
    pub resource: bool,
    pub tied_to: Option<String>,
}

/// What a step is tied to, in a word.
pub open spec fn tied_said(tied_to: Option<TiedTo>) -> Option<Seq<char>> {
    match tied_to {
        Some(TiedTo::Tree) => Some("tree"@),
        Some(TiedTo::Repo) => Some("repo"@),
        None => None,
    }
}

/// Whether a step is shown as it is: its origin in small letters, and what it is tied
/// to in a word.
pub open spec fn shows<R, E>(shown: DryRunStep<R, E>, node: PlanNode<R, E>) -> bool {
    &&& shown.id == node.id && shown.scope == node.scope && shown.cwd == node.cwd
    &&& shown.origin@ == text::lower(node.origin@)
    &&& shown.run == node.run && shown.exists == node.exists
    &&& shown.lock == node.lock && shown.sys_locks == node.sys_locks
    &&& shown.resource == node.resource
    &&& text::opt(shown.tied_to) == tied_said(node.tied_to)
}

fn show<R, E>(node: PlanNode<R, E>) -> (r: DryRunStep<R, E>)
    ensures
        shows(r, node),
{
    let tied_to = match node.tied_to {
        Some(TiedTo::Tree) => Some("tree".to_owned()),
        Some(TiedTo::Repo) => Some("repo".to_owned()),
        None => None,
    };
    DryRunStep {
        id: node.id,
        scope: node.scope,
        origin: text::lowered(node.origin.as_str()),
        cwd: node.cwd,
        run: node.run,
        exists: node.exists,
        lock: node.lock,
        sys_locks: node.sys_locks,
        resource: node.resource,
        tied_to,
    }
}

/// Shows a plan without carrying it out: its steps, in their order.
pub fn dry_run<R, E>(nodes: Vec<PlanNode<R, E>>) -> (r: Vec<DryRunStep<R, E>>)
    ensures
        r@.len() == nodes@.len(),
        forall|i: int| 0 <= i < r@.len() ==> shows(#[trigger] r@[i], nodes@[i]),
{
    let ghost all = nodes@;
    let mut left = nodes;
    let mut out: Vec<DryRunStep<R, E>> = Vec::new();
    while left.len() > 0
        invariant
            left@.len() + out@.len() == all.len(),
            left@ == all.take(left@.len() as int),
            forall|i: int|
                0 <= i < out@.len() ==> shows(#[trigger] out@[i], all[all.len() - 1 - i]),
        decreases left@.len(),
    {
        let ghost n = left@.len() as int;
        if let Some(node) = left.pop() {
            proof {
                assert(node == all[n - 1]);
                assert(left@ =~= all.take(n - 1));
            }
            out.push(show(node));
        }
    }
    let ghost back = out@;
    let r = backwards(out);
    proof {
        assert forall|i: int| 0 <= i < r@.len() implies shows(#[trigger] r@[i], all[i]) by {
            let k = back.len() - 1 - i;
            assert(r@[i] == back[k]);
            assert(shows(back[k], all[all.len() - 1 - k]));
        }
    }
    r
}

// ---------------------------------------------------------------------------
// Declarations
// ---------------------------------------------------------------------------

/// The recipes of a resource, with everything in them filled in.
#[derive(Debug)]
pub struct Recipes {
    pub exists: Option<ExpandedCommand>,
    pub destroy: ExpandedCommand,
    pub run: Option<ExpandedCommand>,
}

/// A resource as its tree declares it: its recipes and what they need, so that it can be
/// destroyed when the tree is gone.
#[derive(Debug)]
pub struct Declaration {
    pub key: ResourceKey,
    pub name: String,
    pub snapshot: ResourceSnapshot,
    pub bin_exes: Vec<String>,
    pub home: String,
    pub recorded_at: String,
}

/// Where a tree declares something: its directory, its directories of binaries and what
/// was found in them, and the home directory.
#[derive(Debug)]
pub struct Site {
    pub tree: String,
    pub bins: Vec<String>,
    pub executables: Vec<String>,
    pub home: String,
}

/// The directories of binaries of a tree.
pub open spec fn bins_below(tree: Seq<char>, bins: Seq<Seq<char>>) -> Seq<Seq<char>> {
    bins.map_values(|b: Seq<char>| path::joined(tree, b))
}

fn all_below(tree: &str, bins: &Vec<String>) -> (r: Vec<String>)
    ensures
        text::texts(r@) == bins_below(tree@, text::texts(bins@)),
{
    let ghost all = bins_below(tree@, text::texts(bins@));
    let mut out: Vec<String> = Vec::new();
    let mut i: usize = 0;
    proof {
        assert(text::texts(out@) =~= all.take(0));
    }
    while i < bins.len()
        invariant
            i <= bins.len(),
            all == bins_below(tree@, text::texts(bins@)),
            text::texts(out@) == all.take(i as int),
        decreases bins.len() - i,
    {
        let ghost prior = text::texts(out@);
        let one = path::join(tree, bins[i].as_str());
        out.push(one);
        proof {
            assert(text::texts(out@) =~= prior.push(all[i as int]));
            assert(all.take(i + 1) =~= all.take(i as int).push(all[i as int]));
        }
        i = i + 1;
    }
    proof {
        assert(all.take(all.len() as int) =~= all);
    }
    out
}

/// Declares a resource. Its name is the one that its environment gives, and else the one
/// that it has by default; `env` is what of its environment is kept.
pub fn declare(
    key: ResourceKey,
    given_name: Option<String>,
    default_name: String,
    cwd: String,
    recipes: Recipes,
    env: Assoc<String>,
    site: &Site,
    now: &str,
) -> (r: Declaration)
    ensures
        r.key == key,
        r.name == match given_name {
            Some(name) => name,
            None => default_name,
        },
        r.snapshot.tied_to == key.tied_to,
        r.snapshot.cwd_rel == cwd,
        r.snapshot.exists == recipes.exists,
        r.snapshot.destroy == recipes.destroy,
        r.snapshot.run == recipes.run,
        r.snapshot.env == env,
        text::texts(r.snapshot.bin_dirs@) == bins_below(site.tree@, text::texts(site.bins@)),
        r.snapshot.tree@ == site.tree@,
        assoc::set_of(text::texts(r.bin_exes@), text::texts(site.executables@)),
        r.home@ == site.home@,
        r.recorded_at@ == now@,
{
    let tied_to = key.tied_to;
    let name = match given_name {
        Some(name) => name,
        None => default_name,
    };
    Declaration {
        key,
        name,
        snapshot: ResourceSnapshot {
            tied_to,
            cwd_rel: cwd,
            exists: recipes.exists,
            destroy: recipes.destroy,
            run: recipes.run,
            env,
            bin_dirs: all_below(site.tree.as_str(), &site.bins),
            tree: site.tree.clone(),
        },
        bin_exes: capture_bin_exes(&site.executables),
        home: site.home.clone(),
        recorded_at: now.to_owned(),
    }
}

/// What refreshing a declaration does next.
#[derive(Clone, Copy, Debug, PartialEq, Eq, Structural)]
pub enum RefreshStep {
    /// Put the environment of the resource together.
    Environment,
    /// Put it on record that the resource was passed over.
    RecordSkip,
    /// Look what there is in the directories of binaries.
    Binaries,
    /// Fill the recipes in.
    Expand,
    /// Take what is the tree's own out of the environment that is kept.
    Strip,
    /// Take the lock of the repository's record.
    Lock,
    /// Read the repository's record.
    Read,
    /// Put the declaration on record.
    Store,
    Done,
    Failed,
}

/// What came of a step.
#[derive(Debug)]
pub enum RefreshEvent {
    Succeeded,
    Failure(CoreError),
}

/// What is known of an event.
pub enum RefreshNews {
    Succeeded,
    Failure(error::Fault),
}

impl View for RefreshEvent {
    type V = RefreshNews;

    open spec fn view(&self) -> RefreshNews {
        match self {
            RefreshEvent::Succeeded => RefreshNews::Succeeded,
            RefreshEvent::Failure(e) => RefreshNews::Failure(e@),
        }
    }
}

/// A declaration that is being refreshed.
#[derive(Debug)]
pub struct Refreshing {
    pub tied_to: TiedTo,
    pub step: RefreshStep,
    /// Its environment could not be put together yet.
    pub skipped: bool,
    /// Its environment was put together.
    pub assembled: bool,
    /// What is the tree's own was taken out of it.
    pub stripped: bool,
    /// The lock of the repository's record is held.
    pub locked: bool,
    /// It is on record.
    pub stored: bool,
    pub error: Option<CoreError>,
}

/// What is known of a declaration that is being refreshed.
#[verifier::ext_equal]
pub struct Refresh {
    pub tied_to: TiedTo,
    pub step: RefreshStep,
    pub skipped: bool,
    pub assembled: bool,
    pub stripped: bool,
    pub locked: bool,
    pub stored: bool,
    pub error: Option<error::Fault>,
}

impl View for Refreshing {
    type V = Refresh;

    open spec fn view(&self) -> Refresh {
        Refresh {
            tied_to: self.tied_to,
            step: self.step,
            skipped: self.skipped,
            assembled: self.assembled,
            stripped: self.stripped,
            locked: self.locked,
            stored: self.stored,
            error: match self.error {
                Some(e) => Some(e@),
                None => None,
            },
        }
    }
}

/// How refreshing a declaration begins.
pub open spec fn refreshing(tied_to: TiedTo) -> Refresh {
    Refresh {
        tied_to,
        step: RefreshStep::Environment,
        skipped: false,
        assembled: false,
        stripped: false,
        locked: false,
        stored: false,
        error: None,
    }
}

/// Refreshing a declaration after something came of its step. What needs something that
/// is not defined yet is passed over, and that is put on record; any other error ends
/// it. What a repository keeps is rid of what is the tree's own, and is read and written
/// under its lock.
pub open spec fn refreshed(f: Refresh, news: RefreshNews) -> Refresh {
    match (f.step, news) {
        (RefreshStep::Done, _) | (RefreshStep::Failed, _) => f,
        (RefreshStep::Environment, RefreshNews::Failure(e)) if e.code == "ENV_UNDEFINED"@ =>
        Refresh { skipped: true, step: RefreshStep::RecordSkip, ..f },
        (_, RefreshNews::Failure(e)) => Refresh {
            step: RefreshStep::Failed,
            locked: false,
            error: Some(e),
            ..f
        },
        (RefreshStep::Environment, _) => Refresh {
            assembled: true,
            step: RefreshStep::Binaries,
            ..f
        },
        (RefreshStep::RecordSkip, _) => Refresh { step: RefreshStep::Done, ..f },
        (RefreshStep::Binaries, _) => Refresh { step: RefreshStep::Expand, ..f },
        (RefreshStep::Expand, _) => Refresh {
            step: match f.tied_to {
                TiedTo::Tree => RefreshStep::Store,
                TiedTo::Repo => RefreshStep::Strip,
            },
            ..f
        },
        (RefreshStep::Strip, _) => Refresh { stripped: true, step: RefreshStep::Lock, ..f },
        (RefreshStep::Lock, _) => Refresh { locked: true, step: RefreshStep::Read, ..f },
        (RefreshStep::Read, _) => Refresh { step: RefreshStep::Store, ..f },
        (RefreshStep::Store, _) => Refresh {
            stored: true,
            locked: false,
            step: RefreshStep::Done,
            ..f
        },
    }
}

impl Refreshing {
    /// Begins to refresh a declaration.
    pub fn new(tied_to: TiedTo) -> (r: Self)
        ensures
            r@ == refreshing(tied_to),
    {
        Refreshing {
            tied_to,
            step: RefreshStep::Environment,
            skipped: false,
            assembled: false,
            stripped: false,
            locked: false,
            stored: false,
            error: None,
        }
    }

    fn succeeded(&mut self)
        ensures
            final(self)@ == refreshed(old(self)@, RefreshNews::Succeeded),
    {
        match self.step {
            RefreshStep::Environment => {
                self.assembled = true;
                self.step = RefreshStep::Binaries;
            },
            RefreshStep::RecordSkip => {
                self.step = RefreshStep::Done;
            },
            RefreshStep::Binaries => {
                self.step = RefreshStep::Expand;
            },
            RefreshStep::Expand => {
                self.step = match self.tied_to {
                    TiedTo::Tree => RefreshStep::Store,
                    TiedTo::Repo => RefreshStep::Strip,
                };
            },
            RefreshStep::Strip => {
                self.stripped = true;
                self.step = RefreshStep::Lock;
            },
            RefreshStep::Lock => {
                self.locked = true;
                self.step = RefreshStep::Read;
            },
            RefreshStep::Read => {
                self.step = RefreshStep::Store;
            },
            RefreshStep::Store => {
                self.stored = true;
                self.locked = false;
                self.step = RefreshStep::Done;
            },
            RefreshStep::Done | RefreshStep::Failed => {},
        }
    }

    /// Takes what came of the step, and goes on to the next.
    pub fn advance(&mut self, event: RefreshEvent)
        ensures
            final(self)@ == refreshed(old(self)@, event@),
    {
        match event {
            RefreshEvent::Succeeded => {
                self.succeeded();
            },
            RefreshEvent::Failure(e) => {
                if self.step == RefreshStep::Done || self.step == RefreshStep::Failed {
                    return;
                }
                if self.step == RefreshStep::Environment && skips_refresh(e.code.as_str()) {
                    self.skipped = true;
                    self.step = RefreshStep::RecordSkip;
                } else {
                    self.step = RefreshStep::Failed;
                    self.locked = false;
                    self.error = Some(e);
                }
            },
        }
    }
}

/// Refreshing a declaration after a row of events.
pub open spec fn refreshed_all(f: Refresh, news: Seq<RefreshNews>) -> Refresh
    decreases news.len(),
{
    if news.len() == 0 {
        f
    } else {
        refreshed(refreshed_all(f, news.drop_last()), news.last())
    }
}

/// What holds of a declaration that is being refreshed at every step.
pub open spec fn refresh_sound(f: Refresh) -> bool {
    &&& f.step is Store ==> f.assembled && (f.tied_to == TiedTo::Repo ==> f.stripped && f.locked)
    &&& f.step is Read ==> f.locked && f.stripped && f.tied_to == TiedTo::Repo
    &&& f.step is Lock ==> f.stripped && f.tied_to == TiedTo::Repo
    &&& f.step is Strip ==> f.tied_to == TiedTo::Repo
    &&& (f.step is Binaries || f.step is Expand || f.step is Strip || f.step is Lock || f.step
        is Read) ==> f.assembled
    &&& f.skipped ==> !f.assembled
    &&& f.stored ==> f.assembled && (f.tied_to == TiedTo::Repo ==> f.stripped)
    &&& f.step is Environment ==> !f.skipped && !f.assembled
    &&& (f.step is Done || f.step is Failed) ==> !f.locked
    &&& f.step is Done ==> f.stored || f.skipped
    &&& f.step is RecordSkip ==> f.skipped && !f.locked
}

/// A declaration goes on record only with an environment that is complete, and what a
/// repository keeps only under its lock and without what is the tree's own. In the end
/// it is on record or was passed over, never both, and no lock is held.
pub proof fn a_declaration_is_complete(tied_to: TiedTo, news: Seq<RefreshNews>)
    ensures
        refresh_sound(refreshed_all(refreshing(tied_to), news)),
        refreshed_all(refreshing(tied_to), news).tied_to == tied_to,
        ({
            let f = refreshed_all(refreshing(tied_to), news);
            !(f.stored && f.skipped)
        }),
    decreases news.len(),
{
    if news.len() > 0 {
        a_declaration_is_complete(tied_to, news.drop_last());
    }
}

/// The place of a step in the order in which steps come.
pub open spec fn refresh_place(step: RefreshStep) -> int {
    match step {
        RefreshStep::Environment => 0,
        RefreshStep::RecordSkip => 1,
        RefreshStep::Binaries => 2,
        RefreshStep::Expand => 3,
        RefreshStep::Strip => 4,
        RefreshStep::Lock => 5,
        RefreshStep::Read => 6,
        RefreshStep::Store => 7,
        RefreshStep::Done => 8,
        RefreshStep::Failed => -1,
    }
}

/// Whether a step is called for.
pub open spec fn refresh_calls_for(a: Refresh, step: RefreshStep) -> bool {
    match step {
        RefreshStep::RecordSkip => a.skipped,
        RefreshStep::Binaries | RefreshStep::Expand | RefreshStep::Store => !a.skipped,
        RefreshStep::Strip | RefreshStep::Lock | RefreshStep::Read => !a.skipped && a.tied_to == TiedTo::Repo,
        _ => true,
    }
}

/// What holds at every step.
pub open spec fn refresh_holds(a: Refresh, tied_to: TiedTo) -> bool {
    &&& refresh_calls_for(a, a.step)
    &&& a.tied_to == tied_to
    &&& a.error is None
    &&& (a.step == RefreshStep::Environment ==> !a.skipped)
    &&& a.assembled == (!a.skipped && refresh_place(a.step) > refresh_place(RefreshStep::Environment))
    &&& a.stripped == (!a.skipped && tied_to == TiedTo::Repo && refresh_place(a.step) > refresh_place(RefreshStep::Strip))
    &&& a.stored == (!a.skipped && refresh_place(a.step) > refresh_place(RefreshStep::Store))
    &&& a.locked == (!a.skipped && tied_to == TiedTo::Repo && refresh_place(RefreshStep::Lock) < refresh_place(a.step) < refresh_place(RefreshStep::Done))
}

/// What an answer to a step is gone by.
pub open spec fn refresh_goes_by(a: Refresh, step: RefreshStep, e: RefreshNews) -> bool {
    match step {
        RefreshStep::Environment => a.skipped == (e is Failure) && (e matches RefreshNews::Failure(f) ==> f.code == "ENV_UNDEFINED"@),
        RefreshStep::Failed | RefreshStep::Done => true,
        _ => e is Succeeded,
    }
}

/// How it goes on.
pub open spec fn refresh_next() -> spec_fn(Refresh, RefreshNews) -> Refresh {
    |a: Refresh, e: RefreshNews| refreshed(a, e)
}

/// The step that it is at.
pub open spec fn refresh_at() -> spec_fn(Refresh) -> RefreshStep {
    |a: Refresh| a.step
}

/// What a step was answered with, where it was taken and left again.
pub open spec fn refresh_given(tied_to: TiedTo, events: Seq<RefreshNews>, step: RefreshStep) -> Option<RefreshNews> {
    course::answered(refresh_next(), refresh_at(), refreshing(tied_to), events, step)
}

proof fn lemma_refresh_after(tied_to: TiedTo, events: Seq<RefreshNews>)
    ensures
        refreshed_all(refreshing(tied_to), events) == course::after(refresh_next(), refreshing(tied_to), events),
    decreases events.len(),
{
    if events.len() > 0 {
        lemma_refresh_after(tied_to, events.drop_last());
    }
}

#[verifier::spinoff_prover]
proof fn lemma_refresh_step(a: Refresh, tied_to: TiedTo, e: RefreshNews, k: RefreshStep)
    requires
        !(a.step == RefreshStep::Failed),
        refresh_holds(a, tied_to),
        !(refreshed(a, e).step == RefreshStep::Failed),
    ensures
        ({
            let b = refreshed(a, e);
            &&& refresh_holds(b, tied_to)
            &&& b.step == a.step ==> b == a
            &&& b.step != a.step ==> {
                &&& refresh_place(b.step) > refresh_place(a.step)
                &&& refresh_place(k) <= refresh_place(a.step) ==> refresh_calls_for(b, k) == refresh_calls_for(a, k)
                &&& refresh_place(a.step) < refresh_place(k) < refresh_place(b.step) ==> !refresh_calls_for(b, k)
            }
        }),
{
}

#[verifier::spinoff_prover]
proof fn lemma_refresh_told(a: Refresh, tied_to: TiedTo, e: RefreshNews, k: RefreshStep, e0: RefreshNews)
    requires
        !(a.step == RefreshStep::Failed),
        refresh_holds(a, tied_to),
        !(refreshed(a, e).step == RefreshStep::Failed),
    ensures
        a.step == k && refreshed(a, e).step != k ==> refresh_goes_by(refreshed(a, e), k, e),
        refresh_place(a.step) > refresh_place(k) && refresh_goes_by(a, k, e0) ==> refresh_goes_by(refreshed(a, e), k, e0),
{
}

/// Each step of refreshing a declaration is taken where it is called for, and nowhere
/// else, whatever the events: it is passed over exactly where its environment lacks
/// something, and that goes on record; else it is filled in and stored, and where it is
/// tied to the repository, without what is the tree's own and under the lock.
pub proof fn a_declaration_is_refreshed_by_all_that_is_called_for(tied_to: TiedTo, events: Seq<RefreshNews>, step: RefreshStep)
    requires
        refresh_place(refreshing(tied_to).step) <= refresh_place(step),
    ensures
        ({
            let a = refreshed_all(refreshing(tied_to), events);
            !(a.step == RefreshStep::Failed) ==> {
                &&& (match a.step {
                    RefreshStep::RecordSkip => a.skipped,
                    RefreshStep::Binaries | RefreshStep::Expand | RefreshStep::Store => !a.skipped,
                    RefreshStep::Strip | RefreshStep::Lock | RefreshStep::Read => !a.skipped && a.tied_to == TiedTo::Repo,
                    _ => true,
                })
                &&& a.tied_to == tied_to
                &&& a.error is None
                &&& (a.step == RefreshStep::Environment ==> !a.skipped)
                &&& a.assembled == (!a.skipped && refresh_place(a.step) > refresh_place(RefreshStep::Environment))
                &&& a.stripped == (!a.skipped && tied_to == TiedTo::Repo && refresh_place(a.step) > refresh_place(RefreshStep::Strip))
                &&& a.stored == (!a.skipped && refresh_place(a.step) > refresh_place(RefreshStep::Store))
                &&& a.locked == (!a.skipped && tied_to == TiedTo::Repo && refresh_place(RefreshStep::Lock) < refresh_place(a.step) < refresh_place(RefreshStep::Done))
                &&& refresh_place(a.step) > refresh_place(step) ==> (refresh_given(tied_to, events, step) is Some
                    <==> (match step {
                            RefreshStep::RecordSkip => a.skipped,
                            RefreshStep::Binaries | RefreshStep::Expand | RefreshStep::Store => !a.skipped,
                            RefreshStep::Strip | RefreshStep::Lock | RefreshStep::Read => !a.skipped && a.tied_to == TiedTo::Repo,
                            _ => true,
                        }))
                &&& refresh_place(a.step) <= refresh_place(step) ==> refresh_given(tied_to, events, step) is None
                &&& refresh_given(tied_to, events, step) matches Some(e) ==> (match step {
                    RefreshStep::Environment => a.skipped == (e is Failure) && (e matches RefreshNews::Failure(f) ==> f.code == "ENV_UNDEFINED"@),
                    RefreshStep::Failed | RefreshStep::Done => true,
                    _ => e is Succeeded,
                })
            }
        }),
{
    lemma_refresh_after(tied_to, events);
    let next = refresh_next();
    let at = refresh_at();
    let s = refreshing(tied_to);
    let places = |k: RefreshStep| refresh_place(k);
    let dead = |a: Refresh| a.step == RefreshStep::Failed;
    let inv = |a: Refresh| refresh_holds(a, tied_to);
    let called = |a: Refresh, k: RefreshStep| refresh_calls_for(a, k);
    let past = |a: Refresh| refresh_place(a.step) > refresh_place(step);
    let fact = |a: Refresh, e: RefreshNews| refresh_goes_by(a, step, e);
    assert forall|a: Refresh, e: RefreshNews|
        inv(a) && !dead(a) && !dead(#[trigger] next(a, e)) implies inv(next(a, e)) by {
        lemma_refresh_step(a, tied_to, e, step);
    }
    assert forall|a: Refresh, e: RefreshNews|
        inv(a) && !dead(a) && called(a, at(a)) && !dead(#[trigger] next(a, e)) implies {
        let b = next(a, e);
        &&& inv(b)
        &&& at(b) == at(a) ==> b == a
        &&& at(b) != at(a) ==> {
            &&& places(at(b)) > places(at(a))
            &&& called(b, at(b))
            &&& places(step) <= places(at(a)) ==> called(b, step) == called(a, step)
            &&& places(at(a)) < places(step) < places(at(b)) ==> !called(b, step)
        }
    } by {
        lemma_refresh_step(a, tied_to, e, step);
    }
    course::lemma_taken(next, at, places, dead, inv, called, s, events, step);
    assert forall|a: Refresh, e: RefreshNews|
        inv(a) && !dead(a) && !dead(#[trigger] next(a, e)) && at(a) == step && at(next(a, e))
            != step implies past(next(a, e)) && fact(next(a, e), e) by {
        lemma_refresh_step(a, tied_to, e, step);
        lemma_refresh_told(a, tied_to, e, step, e);
    }
    assert forall|a: Refresh, e: RefreshNews, e0: RefreshNews|
        #![trigger next(a, e), fact(a, e0)]
        inv(a) && !dead(a) && !dead(next(a, e)) && past(a) && fact(a, e0) implies past(next(a, e))
        && fact(next(a, e), e0) && at(a) != step by {
        lemma_refresh_step(a, tied_to, e, step);
        lemma_refresh_told(a, tied_to, e, step, e0);
    }
    course::lemma_told(next, at, dead, inv, past, fact, s, events, step);
}

/// Refreshing fails where a step failed, with its error, but for an environment that lacks
/// something.
pub proof fn refreshing_fails_for_what_failed(f: Refresh, news: RefreshNews)
    requires
        refresh_place(f.step) >= 0,
        f.step != RefreshStep::Done,
    ensures
        refreshed(f, news).step == RefreshStep::Failed <==> (news matches RefreshNews::Failure(e)
            && !(f.step == RefreshStep::Environment && e.code == "ENV_UNDEFINED"@)),
        refreshed(f, news).step == RefreshStep::Failed ==> (news matches RefreshNews::Failure(e)
            && refreshed(f, news).error == Some(e)),
{
}

// ---------------------------------------------------------------------------
// The order of a plan's step
// ---------------------------------------------------------------------------

/// What carrying a step of a plan out does next.
#[derive(Clone, Copy, Debug, PartialEq, Eq, Structural)]
pub enum NodeStep {
    /// Take the lock at this place of those that the step needs.
    Lock(usize),
    /// Refresh what the resource declares.
    Declare,
    /// Run the resource.
    Resource,
    /// Put the environment of the task together.
    Environment,
    /// Ask whether the task's directory is there.
    Directory,
    /// Ask whether what the task makes is there.
    Probe,
    /// Run the task.
    Run,
    Done,
    Failed,
}

/// What came of a step.
#[derive(Debug)]
pub enum NodeEvent {
    Succeeded,
    /// Whether the task's directory is there.
    IsDir(bool),
    /// What the probe found.
    Probed(ProbeFound),
    /// The task ran.
    Ran(ProcessOutput),
    /// The resource ran, and this is how it stands.
    Carried { status: String, child: Option<ChildStatus> },
    Failure(CoreError),
}

/// What is known of an event.
pub enum NodeNews {
    Succeeded,
    IsDir(bool),
    Probed(ProbeFound),
    Ran(ProcessOutput),
    Carried { status: Seq<char>, child: Option<ChildStatus> },
    Failure(error::Fault),
}

impl View for NodeEvent {
    type V = NodeNews;

    open spec fn view(&self) -> NodeNews {
        match self {
            NodeEvent::Succeeded => NodeNews::Succeeded,
            NodeEvent::IsDir(yes) => NodeNews::IsDir(*yes),
            NodeEvent::Probed(found) => NodeNews::Probed(*found),
            NodeEvent::Ran(output) => NodeNews::Ran(*output),
            NodeEvent::Carried { status, child } => NodeNews::Carried {
                status: status@,
                child: *child,
            },
            NodeEvent::Failure(e) => NodeNews::Failure(e@),
        }
    }
}

/// What a step of a plan is made of: how many locks it needs, and whether it is a
/// resource, has a probe, and has something to run.
#[derive(Clone, Copy, Debug, PartialEq, Eq, Structural)]
pub struct NodeShape {
    pub locks: usize,
    pub resource: bool,
    pub probes: bool,
    pub runs: bool,
}

/// A step of a plan that is being carried out.
#[derive(Debug)]
pub struct NodeRun {
    pub id: String,
    pub cwd: String,
    pub shape: NodeShape,
    pub step: NodeStep,
    /// So many of its locks are held.
    pub held: usize,
    /// What its resource declares was refreshed.
    pub declared: bool,
    /// Its directory was seen.
    pub in_place: bool,
    /// Its probe found that what it makes is absent.
    pub absent: bool,
    pub status: Option<String>,
    pub child: Option<ChildStatus>,
    pub error: Option<CoreError>,
}

/// What is known of a step that is being carried out.
#[verifier::ext_equal]
pub struct Carrying {
    pub id: Seq<char>,
    pub cwd: Seq<char>,
    pub shape: NodeShape,
    pub step: NodeStep,
    pub held: int,
    pub declared: bool,
    pub in_place: bool,
    pub absent: bool,
    pub status: Option<Seq<char>>,
    pub child: Option<ChildStatus>,
    pub error: Option<error::Fault>,
}

impl View for NodeRun {
    type V = Carrying;

    open spec fn view(&self) -> Carrying {
        Carrying {
            id: self.id@,
            cwd: self.cwd@,
            shape: self.shape,
            step: self.step,
            held: self.held as int,
            declared: self.declared,
            in_place: self.in_place,
            absent: self.absent,
            status: text::opt(self.status),
            child: self.child,
            error: match self.error {
                Some(e) => Some(e@),
                None => None,
            },
        }
    }
}

/// What follows once the locks are held.
pub open spec fn under_locks(shape: NodeShape) -> NodeStep {
    if shape.resource {
        NodeStep::Declare
    } else {
        NodeStep::Environment
    }
}

/// How carrying a step out begins.
pub open spec fn carrying(id: Seq<char>, cwd: Seq<char>, shape: NodeShape) -> Carrying {
    Carrying {
        id,
        cwd,
        shape,
        step: if shape.locks > 0 {
            NodeStep::Lock(0)
        } else {
            under_locks(shape)
        },
        held: 0,
        declared: false,
        in_place: false,
        absent: false,
        status: None,
        child: None,
        error: None,
    }
}

/// A step that is over: its locks are let go.
pub open spec fn carried_out(c: Carrying, status: Seq<char>, child: Option<ChildStatus>) -> Carrying {
    Carrying { step: NodeStep::Done, held: 0, status: Some(status), child, ..c }
}

/// A step that failed: its locks are let go.
pub open spec fn broken_off(c: Carrying, fault: error::Fault) -> Carrying {
    Carrying { step: NodeStep::Failed, held: 0, error: Some(fault), ..c }
}

/// A task whose turn it is to run: one without anything to run is passed over.
pub open spec fn to_run(c: Carrying) -> Carrying {
    if c.shape.runs {
        Carrying { step: NodeStep::Run, ..c }
    } else {
        carried_out(c, "skipped"@, None)
    }
}

/// Carrying a step out after something came of it. An event that is no answer to the
/// step leaves it as it is.
pub open spec fn carried(c: Carrying, news: NodeNews) -> Carrying {
    match (c.step, news) {
        (NodeStep::Done, _) | (NodeStep::Failed, _) => c,
        (_, NodeNews::Failure(fault)) => broken_off(c, fault),
        (NodeStep::Lock(i), NodeNews::Succeeded) => Carrying {
            held: i + 1,
            step: if i + 1 < c.shape.locks {
                NodeStep::Lock((i + 1) as usize)
            } else {
                under_locks(c.shape)
            },
            ..c
        },
        (NodeStep::Declare, NodeNews::Succeeded) => Carrying {
            declared: true,
            step: NodeStep::Resource,
            ..c
        },
        (NodeStep::Resource, NodeNews::Carried { status, child }) => carried_out(c, status, child),
        (NodeStep::Environment, NodeNews::Succeeded) => Carrying { step: NodeStep::Directory, ..c },
        (NodeStep::Directory, NodeNews::IsDir(yes)) => {
            let there = Carrying { in_place: true, ..c };
            if !yes {
                broken_off(c, no_cwd(c.cwd))
            } else if c.shape.probes {
                Carrying { step: NodeStep::Probe, ..there }
            } else {
                to_run(there)
            }
        },
        (NodeStep::Probe, NodeNews::Probed(found)) => match found {
            ProbeFound::Present => carried_out(c, "present"@, None),
            ProbeFound::Failed => broken_off(c, probe_fault(c.id)),
            ProbeFound::Absent => to_run(Carrying { absent: true, ..c }),
        },
        (NodeStep::Run, NodeNews::Ran(output)) => if output.succeeded() {
            carried_out(c, "ok"@, Some(output.child))
        } else {
            broken_off(c, task_fault("TASK_FAILED"@, c.id, output))
        },
        _ => c,
    }
}

impl NodeRun {
    /// The locks are taken in their order, each once.
    pub open spec fn wf(&self) -> bool {
        self.step matches NodeStep::Lock(i) ==> i < self.shape.locks
    }

    /// Begins to carry a step out.
    pub fn new(id: String, cwd: String, shape: NodeShape) -> (r: Self)
        ensures
            r.wf(),
            r@ == carrying(id@, cwd@, shape),
    {
        NodeRun {
            id,
            cwd,
            shape,
            step: if shape.locks > 0 {
                NodeStep::Lock(0)
            } else if shape.resource {
                NodeStep::Declare
            } else {
                NodeStep::Environment
            },
            held: 0,
            declared: false,
            in_place: false,
            absent: false,
            status: None,
            child: None,
            error: None,
        }
    }

    fn end(&mut self, status: String, child: Option<ChildStatus>)
        ensures
            final(self).wf(),
            final(self)@ == carried_out(old(self)@, status@, child),
    {
        self.step = NodeStep::Done;
        self.held = 0;
        self.status = Some(status);
        self.child = child;
    }

    fn break_off(&mut self, fault: CoreError)
        ensures
            final(self).wf(),
            final(self)@ == broken_off(old(self)@, fault@),
    {
        self.step = NodeStep::Failed;
        self.held = 0;
        self.error = Some(fault);
    }

    fn turn(&mut self, probed: Option<ProbeFound>)
        requires
            old(self).wf(),
            probed is Some ==> old(self).step is Probe,
        ensures
            final(self).wf(),
            final(self)@ == match probed {
                Some(found) => carried(old(self)@, NodeNews::Probed(found)),
                None => to_run(old(self)@),
            },
    {
        match task_move(self.id.as_str(), probed, self.shape.runs) {
            Ok(TaskMove::Run) => {
                if probed.is_some() {
                    self.absent = true;
                }
                self.step = NodeStep::Run;
            },
            Ok(step) => {
                if probed.is_some() && step == TaskMove::Skip {
                    self.absent = true;
                }
                self.end(task_status(step).to_owned(), None);
            },
            Err(e) => {
                self.break_off(e);
            },
        }
    }

    fn succeeded(&mut self)
        requires
            old(self).wf(),
        ensures
            final(self).wf(),
            final(self)@ == carried(old(self)@, NodeNews::Succeeded),
    {
        match self.step {
            NodeStep::Lock(i) => {
                let next: usize = i + 1;
                self.held = next;
                self.step = if next < self.shape.locks {
                    NodeStep::Lock(next)
                } else if self.shape.resource {
                    NodeStep::Declare
                } else {
                    NodeStep::Environment
                };
            },
            NodeStep::Declare => {
                self.declared = true;
                self.step = NodeStep::Resource;
            },
            NodeStep::Environment => {
                self.step = NodeStep::Directory;
            },
            _ => {},
        }
    }

    fn placed(&mut self, is_dir: bool)
        requires
            old(self).wf(),
            old(self).step is Directory,
        ensures
            final(self).wf(),
            final(self)@ == carried(old(self)@, NodeNews::IsDir(is_dir)),
    {
        match require_cwd(self.cwd.as_str(), is_dir) {
            Ok(()) => {
                self.in_place = true;
                if self.shape.probes {
                    self.step = NodeStep::Probe;
                } else {
                    self.turn(None);
                }
            },
            Err(e) => {
                self.break_off(e);
            },
        }
    }

    /// Takes what came of the step, and goes on to the next.
    pub fn advance(&mut self, event: NodeEvent)
        requires
            old(self).wf(),
            event matches NodeEvent::Ran(output) ==> output.child.valid(),
        ensures
            final(self).wf(),
            final(self)@ == carried(old(self)@, event@),
    {
        if self.step == NodeStep::Done || self.step == NodeStep::Failed {
            return;
        }
        match event {
            NodeEvent::Failure(e) => {
                self.break_off(e);
            },
            NodeEvent::Succeeded => {
                self.succeeded();
            },
            NodeEvent::IsDir(yes) => {
                if self.step == NodeStep::Directory {
                    self.placed(yes);
                }
            },
            NodeEvent::Probed(found) => {
                if self.step == NodeStep::Probe {
                    self.turn(Some(found));
                }
            },
            NodeEvent::Ran(output) => {
                if self.step == NodeStep::Run {
                    match task_result(self.id.as_str(), &output) {
                        Ok(child) => {
                            self.end(task_status(TaskMove::Run).to_owned(), Some(child));
                        },
                        Err(e) => {
                            self.break_off(e);
                        },
                    }
                }
            },
            NodeEvent::Carried { status, child } => {
                if self.step == NodeStep::Resource {
                    self.end(status, child);
                }
            },
        }
    }
}

/// Carrying a step out after a row of events.
pub open spec fn carried_all(c: Carrying, news: Seq<NodeNews>) -> Carrying
    decreases news.len(),
{
    if news.len() == 0 {
        c
    } else {
        carried(carried_all(c, news.drop_last()), news.last())
    }
}

/// What holds of a step of a plan at every point.
pub open spec fn carried_in_order(c: Carrying) -> bool {
    &&& match c.step {
        NodeStep::Lock(i) => i < c.shape.locks && c.held == i,
        NodeStep::Done | NodeStep::Failed => c.held == 0,
        _ => c.held == c.shape.locks,
    }
    &&& c.step is Resource ==> c.declared
    &&& (c.step is Declare || c.step is Resource) ==> c.shape.resource
    &&& (c.step is Environment || c.step is Directory || c.step is Probe || c.step is Run)
        ==> !c.shape.resource
    &&& (c.step is Probe || c.step is Run) ==> c.in_place
    &&& c.step is Probe ==> c.shape.probes
    &&& c.step is Run ==> c.shape.runs && (c.shape.probes ==> c.absent)
    &&& c.step is Done <==> c.status is Some
    &&& c.step is Failed <==> c.error is Some
}

/// A step of a plan does nothing before all of its locks are held, and lets them go in
/// the end, however it ends. A resource runs only after what it declares was refreshed;
/// a task only in a directory that is there, and only where its probe, if it has one,
/// found that what it makes is absent.
pub proof fn a_step_keeps_its_order(
    id: Seq<char>,
    cwd: Seq<char>,
    shape: NodeShape,
    news: Seq<NodeNews>,
)
    ensures
        carried_in_order(carried_all(carrying(id, cwd, shape), news)),
        carried_all(carrying(id, cwd, shape), news).shape == shape,
    decreases news.len(),
{
    if news.len() > 0 {
        a_step_keeps_its_order(id, cwd, shape, news.drop_last());
    }
}

/// The place of a step in the order in which steps come.
pub open spec fn node_place(step: NodeStep) -> int {
    match step {
        NodeStep::Lock(i) => i as int,
        NodeStep::Declare => usize::MAX + 1,
        NodeStep::Resource => usize::MAX + 2,
        NodeStep::Environment => usize::MAX + 3,
        NodeStep::Directory => usize::MAX + 4,
        NodeStep::Probe => usize::MAX + 5,
        NodeStep::Run => usize::MAX + 6,
        NodeStep::Done => usize::MAX + 7,
        NodeStep::Failed => -1,
    }
}

/// Whether a step is called for.
pub open spec fn node_calls_for(a: Carrying, step: NodeStep) -> bool {
    match step {
        NodeStep::Lock(i) => i < a.shape.locks,
        NodeStep::Declare | NodeStep::Resource => a.shape.resource,
        NodeStep::Environment | NodeStep::Directory => !a.shape.resource,
        NodeStep::Probe => !a.shape.resource && a.shape.probes,
        NodeStep::Run => !a.shape.resource && a.shape.runs && (!a.shape.probes || a.absent),
        _ => true,
    }
}

/// What holds at every step.
pub open spec fn node_holds(a: Carrying, id: Seq<char>, cwd: Seq<char>, shape: NodeShape) -> bool {
    &&& node_calls_for(a, a.step)
    &&& a.shape == shape && a.id == id && a.cwd == cwd
    &&& a.error is None
    &&& a.step != NodeStep::Failed
    &&& (a.step is Done <==> a.status is Some)
    &&& (a.step is Done && !shape.resource ==> a.status == Some(if shape.probes && !a.absent { "present"@ } else if !shape.runs { "skipped"@ } else { "ok"@ }))
    &&& (a.step is Done && !shape.resource && !(shape.runs && (!shape.probes || a.absent)) ==> a.child is None)
    &&& (!(a.step is Done) ==> a.child is None)
    &&& (!shape.probes || shape.resource ==> !a.absent)
    &&& (node_place(a.step) <= node_place(NodeStep::Probe) ==> !a.absent)
}

/// What an answer to a step is gone by.
pub open spec fn node_goes_by(a: Carrying, step: NodeStep, e: NodeNews) -> bool {
    match step {
        NodeStep::Probe => e == NodeNews::Probed(if a.absent { ProbeFound::Absent } else { ProbeFound::Present }),
        NodeStep::Directory => e == NodeNews::IsDir(true),
        NodeStep::Run => e matches NodeNews::Ran(output) && a.child == Some(output.child) && output.child.code == Some(0i32) && output.child.signal is None && !output.timed_out,
        NodeStep::Resource => e matches NodeNews::Carried { status, child } && a.status == Some(status) && a.child == child,
        _ => true,
    }
}

/// How it goes on.
pub open spec fn node_next() -> spec_fn(Carrying, NodeNews) -> Carrying {
    |a: Carrying, e: NodeNews| carried(a, e)
}

/// The step that it is at.
pub open spec fn node_at() -> spec_fn(Carrying) -> NodeStep {
    |a: Carrying| a.step
}

/// What a step was answered with, where it was taken and left again.
pub open spec fn node_given(id: Seq<char>, cwd: Seq<char>, shape: NodeShape, events: Seq<NodeNews>, step: NodeStep) -> Option<NodeNews> {
    course::answered(node_next(), node_at(), carrying(id, cwd, shape), events, step)
}

proof fn lemma_node_after(id: Seq<char>, cwd: Seq<char>, shape: NodeShape, events: Seq<NodeNews>)
    ensures
        carried_all(carrying(id, cwd, shape), events) == course::after(node_next(), carrying(id, cwd, shape), events),
    decreases events.len(),
{
    if events.len() > 0 {
        lemma_node_after(id, cwd, shape, events.drop_last());
    }
}

#[verifier::spinoff_prover]
proof fn lemma_node_step(a: Carrying, id: Seq<char>, cwd: Seq<char>, shape: NodeShape, e: NodeNews, k: NodeStep)
    requires
        !(a.step == NodeStep::Failed),
        node_holds(a, id, cwd, shape),
        !(carried(a, e).step == NodeStep::Failed),
    ensures
        ({
            let b = carried(a, e);
            &&& node_holds(b, id, cwd, shape)
            &&& b.step == a.step ==> b == a
            &&& b.step != a.step ==> {
                &&& node_place(b.step) > node_place(a.step)
                &&& node_place(k) <= node_place(a.step) ==> node_calls_for(b, k) == node_calls_for(a, k)
                &&& node_place(a.step) < node_place(k) < node_place(b.step) ==> !node_calls_for(b, k)
            }
        }),
{
}

#[verifier::spinoff_prover]
proof fn lemma_node_told(a: Carrying, id: Seq<char>, cwd: Seq<char>, shape: NodeShape, e: NodeNews, k: NodeStep, e0: NodeNews)
    requires
        !(a.step == NodeStep::Failed),
        node_holds(a, id, cwd, shape),
        !(carried(a, e).step == NodeStep::Failed),
    ensures
        a.step == k && carried(a, e).step != k ==> node_goes_by(carried(a, e), k, e),
        node_place(a.step) > node_place(k) && node_goes_by(a, k, e0) ==> node_goes_by(carried(a, e), k, e0),
{
}

/// Each part of a step of a plan is done where it is called for, and nowhere else, and the
/// step is reported by what came of it, whatever the events and however many locks it
/// needs: every lock is taken; a resource is declared and run; a task that has something
/// to run is run unless its probe found what it makes, and is reported as skipped only
/// where it has nothing to run.
pub proof fn a_task_is_run_where_it_is_called_for(id: Seq<char>, cwd: Seq<char>, shape: NodeShape, events: Seq<NodeNews>, step: NodeStep)
    requires
        node_place(carrying(id, cwd, shape).step) <= node_place(step),
    ensures
        ({
            let a = carried_all(carrying(id, cwd, shape), events);
            !(a.step == NodeStep::Failed) ==> {
                &&& (match a.step {
                    NodeStep::Lock(i) => i < a.shape.locks,
                    NodeStep::Declare | NodeStep::Resource => a.shape.resource,
                    NodeStep::Environment | NodeStep::Directory => !a.shape.resource,
                    NodeStep::Probe => !a.shape.resource && a.shape.probes,
                    NodeStep::Run => !a.shape.resource && a.shape.runs && (!a.shape.probes || a.absent),
                    _ => true,
                })
                &&& a.shape == shape && a.id == id && a.cwd == cwd
                &&& a.error is None
                &&& a.step != NodeStep::Failed
                &&& (a.step is Done <==> a.status is Some)
                &&& (a.step is Done && !shape.resource ==> a.status == Some(if shape.probes && !a.absent { "present"@ } else if !shape.runs { "skipped"@ } else { "ok"@ }))
                &&& (a.step is Done && !shape.resource && !(shape.runs && (!shape.probes || a.absent)) ==> a.child is None)
                &&& (!(a.step is Done) ==> a.child is None)
                &&& (!shape.probes || shape.resource ==> !a.absent)
                &&& (node_place(a.step) <= node_place(NodeStep::Probe) ==> !a.absent)
                &&& node_place(a.step) > node_place(step) ==> (node_given(id, cwd, shape, events, step) is Some
                    <==> (match step {
                            NodeStep::Lock(i) => i < a.shape.locks,
                            NodeStep::Declare | NodeStep::Resource => a.shape.resource,
                            NodeStep::Environment | NodeStep::Directory => !a.shape.resource,
                            NodeStep::Probe => !a.shape.resource && a.shape.probes,
                            NodeStep::Run => !a.shape.resource && a.shape.runs && (!a.shape.probes || a.absent),
                            _ => true,
                        }))
                &&& node_place(a.step) <= node_place(step) ==> node_given(id, cwd, shape, events, step) is None
                &&& node_given(id, cwd, shape, events, step) matches Some(e) ==> (match step {
                    NodeStep::Probe => e == NodeNews::Probed(if a.absent { ProbeFound::Absent } else { ProbeFound::Present }),
                    NodeStep::Directory => e == NodeNews::IsDir(true),
                    NodeStep::Run => e matches NodeNews::Ran(output) && a.child == Some(output.child) && output.child.code == Some(0i32) && output.child.signal is None && !output.timed_out,
                    NodeStep::Resource => e matches NodeNews::Carried { status, child } && a.status == Some(status) && a.child == child,
                    _ => true,
                })
            }
        }),
{
    lemma_node_after(id, cwd, shape, events);
    let next = node_next();
    let at = node_at();
    let s = carrying(id, cwd, shape);
    let places = |k: NodeStep| node_place(k);
    let dead = |a: Carrying| a.step == NodeStep::Failed;
    let inv = |a: Carrying| node_holds(a, id, cwd, shape);
    let called = |a: Carrying, k: NodeStep| node_calls_for(a, k);
    let past = |a: Carrying| node_place(a.step) > node_place(step);
    let fact = |a: Carrying, e: NodeNews| node_goes_by(a, step, e);
    assert forall|a: Carrying, e: NodeNews|
        inv(a) && !dead(a) && !dead(#[trigger] next(a, e)) implies inv(next(a, e)) by {
        lemma_node_step(a, id, cwd, shape, e, step);
    }
    assert forall|a: Carrying, e: NodeNews|
        inv(a) && !dead(a) && called(a, at(a)) && !dead(#[trigger] next(a, e)) implies {
        let b = next(a, e);
        &&& inv(b)
        &&& at(b) == at(a) ==> b == a
        &&& at(b) != at(a) ==> {
            &&& places(at(b)) > places(at(a))
            &&& called(b, at(b))
            &&& places(step) <= places(at(a)) ==> called(b, step) == called(a, step)
            &&& places(at(a)) < places(step) < places(at(b)) ==> !called(b, step)
        }
    } by {
        lemma_node_step(a, id, cwd, shape, e, step);
    }
    course::lemma_taken(next, at, places, dead, inv, called, s, events, step);
    assert forall|a: Carrying, e: NodeNews|
        inv(a) && !dead(a) && !dead(#[trigger] next(a, e)) && at(a) == step && at(next(a, e))
            != step implies past(next(a, e)) && fact(next(a, e), e) by {
        lemma_node_step(a, id, cwd, shape, e, step);
        lemma_node_told(a, id, cwd, shape, e, step, e);
    }
    assert forall|a: Carrying, e: NodeNews, e0: NodeNews|
        #![trigger next(a, e), fact(a, e0)]
        inv(a) && !dead(a) && !dead(next(a, e)) && past(a) && fact(a, e0) implies past(next(a, e))
        && fact(next(a, e), e0) && at(a) != step by {
        lemma_node_step(a, id, cwd, shape, e, step);
        lemma_node_told(a, id, cwd, shape, e, step, e0);
    }
    course::lemma_told(next, at, dead, inv, past, fact, s, events, step);
}

/// A task that has something to run is never passed over: it is reported as skipped only
/// where it has nothing to run, and as there already only where it has a probe. It comes to
/// be run wherever its directory is there and its probe, where it has one, did not find what
/// it makes, whatever number of locks it needs.
pub proof fn a_task_with_something_to_run_is_run(
    id: Seq<char>,
    cwd: Seq<char>,
    shape: NodeShape,
    news: Seq<NodeNews>,
)
    requires
        !shape.resource,
    ensures
        ({
            let c = carried_all(carrying(id, cwd, shape), news);
            &&& c.status == Some("skipped"@) ==> !shape.runs
            &&& c.status == Some("present"@) ==> shape.probes
            &&& c.step == NodeStep::Directory && shape.runs && !shape.probes ==> carried(
                c,
                NodeNews::IsDir(true),
            ).step == NodeStep::Run
            &&& c.step == NodeStep::Directory && shape.probes ==> carried(
                c,
                NodeNews::IsDir(true),
            ).step == NodeStep::Probe
            &&& c.step == NodeStep::Probe && shape.runs ==> carried(
                c,
                NodeNews::Probed(ProbeFound::Absent),
            ).step == NodeStep::Run
            &&& c.step == NodeStep::Environment ==> carried(c, NodeNews::Succeeded).step
                == NodeStep::Directory
        }),
    decreases news.len(),
{
    reveal_strlit("skipped");
    reveal_strlit("present");
    reveal_strlit("ok");
    assert("skipped"@[0] == 's' && "present"@[0] == 'p' && "ok"@[0] == 'o');
    if news.len() > 0 {
        a_task_with_something_to_run_is_run(id, cwd, shape, news.drop_last());
        lemma_tasks_stay_tasks(id, cwd, shape, news.drop_last());
    }
    lemma_tasks_stay_tasks(id, cwd, shape, news);
}

proof fn lemma_tasks_stay_tasks(id: Seq<char>, cwd: Seq<char>, shape: NodeShape, news: Seq<NodeNews>)
    requires
        !shape.resource,
    ensures
        ({
            let c = carried_all(carrying(id, cwd, shape), news);
            &&& c.shape == shape
            &&& c.step != NodeStep::Declare
            &&& c.step != NodeStep::Resource
            &&& c.step == NodeStep::Probe ==> shape.probes
            &&& c.step != NodeStep::Done ==> c.status is None
        }),
    decreases news.len(),
{
    if news.len() > 0 {
        lemma_tasks_stay_tasks(id, cwd, shape, news.drop_last());
    }
}

/// A step of a plan fails where something of it failed: with the error of that, where the
/// directory is missing, the probe failed, or the task did not end well; and for no other
/// reason.
pub proof fn a_step_fails_for_what_failed(c: Carrying, news: NodeNews)
    requires
        c.step != NodeStep::Failed,
        c.step != NodeStep::Done,
    ensures
        carried(c, news).step == NodeStep::Failed <==> (news is Failure || (c.step
            == NodeStep::Directory && news == NodeNews::IsDir(false)) || (c.step == NodeStep::Probe
            && news == NodeNews::Probed(ProbeFound::Failed)) || (c.step == NodeStep::Run && (
        news matches NodeNews::Ran(output) && !(output.child.code == Some(0i32)
            && output.child.signal is None && !output.timed_out)))),
        news matches NodeNews::Failure(e) ==> carried(c, news).error == Some(e),
        c.step == NodeStep::Directory && news == NodeNews::IsDir(false) ==> (carried(
            c,
            news,
        ).error matches Some(e) && e.code == "CWD_MISSING"@),
        c.step == NodeStep::Probe && news == NodeNews::Probed(ProbeFound::Failed) ==> (carried(
            c,
            news,
        ).error matches Some(e) && e.code == "TASK_PROBE_FAILED"@),
        c.step == NodeStep::Run && carried(c, news).step == NodeStep::Failed ==> (news
            matches NodeNews::Ran(output) ==> carried(c, news).error->0.code == if output.timed_out {
            "TIMEOUT"@
        } else {
            "TASK_FAILED"@
        }),
{
}

// ---------------------------------------------------------------------------
// The order of a resource's run
// ---------------------------------------------------------------------------

/// What carrying a resource out does next.
#[derive(Clone, Copy, Debug, PartialEq, Eq, Structural)]
pub enum ResourceStep {
    /// Probe it.
    Probe,
    /// Decide, of what the probe found.
    Decide,
    /// Record the decision.
    Persist,
    /// Carry the recipe out.
    Act,
    /// Probe it again.
    Confirm,
    /// Decide, of what came of it.
    Conclude,
    /// Record what came of it.
    PersistResult,
    Done,
    Failed,
}

/// What came of a step.
#[derive(Debug)]
pub enum ResourceEvent {
    Failure(CoreError),
    Finished,
    /// What was decided: whether the recipe is carried out, and what is wrong.
    Decided { acts: bool, error: Option<CoreError> },
}

/// A resource that is being run or destroyed.
#[derive(Debug)]
pub struct ResourceRun {
    pub destroys: bool,
    pub step: ResourceStep,
    pub acts: bool,
    pub recorded: bool,
    pub acted: bool,
    pub pending: Option<CoreError>,
    pub error: Option<CoreError>,
}

/// What holds of a resource that is being run or destroyed: nothing is done to it
/// before the decision is on record, and it is done once.
pub open spec fn resource_wf(r: ResourceRun) -> bool {
    &&& (r.step == ResourceStep::Act ==> r.acts && r.recorded && !r.acted)
    &&& (r.step == ResourceStep::Confirm || r.step == ResourceStep::Conclude || r.step
        == ResourceStep::PersistResult ==> r.acted)
    &&& (r.acted ==> r.recorded && r.acts)
    &&& (r.step == ResourceStep::Probe || r.step == ResourceStep::Decide || r.step
        == ResourceStep::Persist ==> !r.acted && !r.recorded)
    &&& (r.step == ResourceStep::Failed ==> r.error is Some)
}

/// What follows once the decision is on record: a run that something is wrong with
/// fails, whatever was decided; a destruction goes on where that was decided.
pub open spec fn after_persist(r: ResourceRun) -> ResourceRun {
    let b = ResourceRun { recorded: true, ..r };
    if b.pending is Some && (!b.acts || !b.destroys) {
        ResourceRun { step: ResourceStep::Failed, error: b.pending, pending: None, ..b }
    } else if b.acts {
        ResourceRun { step: ResourceStep::Act, pending: None, ..b }
    } else {
        ResourceRun { step: ResourceStep::Done, ..b }
    }
}

/// Carrying a resource out after something came of its step.
pub open spec fn resource_next(r: ResourceRun, event: ResourceEvent) -> ResourceRun {
    match (r.step, event) {
        (ResourceStep::Done, _) | (ResourceStep::Failed, _) => r,
        (_, ResourceEvent::Failure(e)) => ResourceRun {
            step: ResourceStep::Failed,
            error: Some(e),
            ..r
        },
        (ResourceStep::Probe, ResourceEvent::Finished) => ResourceRun {
            step: ResourceStep::Decide,
            ..r
        },
        (ResourceStep::Decide, ResourceEvent::Decided { acts, error }) => ResourceRun {
            acts,
            pending: error,
            step: ResourceStep::Persist,
            ..r
        },
        (ResourceStep::Persist, ResourceEvent::Finished) => after_persist(r),
        (ResourceStep::Act, ResourceEvent::Finished) => ResourceRun {
            acted: true,
            step: ResourceStep::Confirm,
            ..r
        },
        (ResourceStep::Confirm, ResourceEvent::Finished) => ResourceRun {
            step: ResourceStep::Conclude,
            ..r
        },
        (ResourceStep::Conclude, ResourceEvent::Decided { acts: _, error }) => ResourceRun {
            pending: error,
            step: ResourceStep::PersistResult,
            ..r
        },
        (ResourceStep::PersistResult, ResourceEvent::Finished) => if r.pending is Some {
            ResourceRun { step: ResourceStep::Failed, error: r.pending, pending: None, ..r }
        } else {
            ResourceRun { step: ResourceStep::Done, ..r }
        },
        _ => r,
    }
}

impl ResourceRun {
    /// Begins to run a resource, or to destroy it.
    pub fn new(destroys: bool) -> (r: Self)
        ensures
            resource_wf(r),
            r == (ResourceRun {
                destroys,
                step: ResourceStep::Probe,
                acts: false,
                recorded: false,
                acted: false,
                pending: None,
                error: None,
            }),
    {
        ResourceRun {
            destroys,
            step: ResourceStep::Probe,
            acts: false,
            recorded: false,
            acted: false,
            pending: None,
            error: None,
        }
    }

    /// Takes what came of the step, and goes on to the next.
    pub fn advance(&mut self, event: ResourceEvent)
        requires
            resource_wf(*old(self)),
        ensures
            resource_wf(*final(self)),
            *final(self) == resource_next(*old(self), event),
    {
        match self.step {
            ResourceStep::Done | ResourceStep::Failed => {
                return;
            },
            _ => {},
        }
        match event {
            ResourceEvent::Failure(e) => {
                self.step = ResourceStep::Failed;
                self.error = Some(e);
            },
            ResourceEvent::Finished => {
                match self.step {
                    ResourceStep::Probe => {
                        self.step = ResourceStep::Decide;
                    },
                    ResourceStep::Persist => {
                        self.recorded = true;
                        if self.pending.is_some() && (!self.acts || !self.destroys) {
                            self.error = self.pending.take();
                            self.step = ResourceStep::Failed;
                        } else if self.acts {
                            self.pending = None;
                            self.step = ResourceStep::Act;
                        } else {
                            self.step = ResourceStep::Done;
                        }
                    },
                    ResourceStep::Act => {
                        self.acted = true;
                        self.step = ResourceStep::Confirm;
                    },
                    ResourceStep::Confirm => {
                        self.step = ResourceStep::Conclude;
                    },
                    ResourceStep::PersistResult => {
                        if self.pending.is_some() {
                            self.error = self.pending.take();
                            self.step = ResourceStep::Failed;
                        } else {
                            self.step = ResourceStep::Done;
                        }
                    },
                    _ => {},
                }
            },
            ResourceEvent::Decided { acts, error } => {
                match self.step {
                    ResourceStep::Decide => {
                        self.acts = acts;
                        self.pending = error;
                        self.step = ResourceStep::Persist;
                    },
                    ResourceStep::Conclude => {
                        self.pending = error;
                        self.step = ResourceStep::PersistResult;
                    },
                    _ => {},
                }
            },
        }
    }
}

/// Carrying a resource out after a row of events.
pub open spec fn resource_all(r: ResourceRun, events: Seq<ResourceEvent>) -> ResourceRun
    decreases events.len(),
{
    if events.len() == 0 {
        r
    } else {
        resource_next(resource_all(r, events.drop_last()), events.last())
    }
}

/// Nothing is done to a resource before the decision to do it is on record.
pub proof fn nothing_is_done_off_record(r: ResourceRun, events: Seq<ResourceEvent>)
    requires
        resource_wf(r),
    ensures
        resource_wf(resource_all(r, events)),
        resource_all(r, events).step == ResourceStep::Act ==> resource_all(r, events).recorded
            && resource_all(r, events).acts && !resource_all(r, events).acted,
    decreases events.len(),
{
    if events.len() > 0 {
        nothing_is_done_off_record(r, events.drop_last());
    }
}

/// How running a resource, or destroying it, begins.
pub open spec fn resource_begun(destroys: bool) -> ResourceRun {
    ResourceRun {
        destroys,
        step: ResourceStep::Probe,
        acts: false,
        recorded: false,
        acted: false,
        pending: None,
        error: None,
    }
}

/// The place of a step in the order in which steps come.
pub open spec fn recipe_place(step: ResourceStep) -> int {
    match step {
        ResourceStep::Probe => 0,
        ResourceStep::Decide => 1,
        ResourceStep::Persist => 2,
        ResourceStep::Act => 3,
        ResourceStep::Confirm => 4,
        ResourceStep::Conclude => 5,
        ResourceStep::PersistResult => 6,
        ResourceStep::Done => 7,
        ResourceStep::Failed => -1,
    }
}

/// Whether a step is called for.
pub open spec fn recipe_calls_for(a: ResourceRun, step: ResourceStep) -> bool {
    match step {
        ResourceStep::Act | ResourceStep::Confirm | ResourceStep::Conclude | ResourceStep::PersistResult => a.acts,
        _ => true,
    }
}

/// What holds at every step.
pub open spec fn recipe_holds(a: ResourceRun, destroys: bool) -> bool {
    &&& recipe_calls_for(a, a.step)
    &&& a.destroys == destroys
    &&& a.error is None
    &&& a.recorded == (recipe_place(a.step) > recipe_place(ResourceStep::Persist))
    &&& a.acted == (a.acts && recipe_place(a.step) > recipe_place(ResourceStep::Act))
    &&& (a.step == ResourceStep::Done ==> a.pending is None)
}

/// What an answer to a step is gone by.
pub open spec fn recipe_goes_by(a: ResourceRun, step: ResourceStep, e: ResourceEvent) -> bool {
    match step {
        ResourceStep::Decide => e matches ResourceEvent::Decided { acts, error } && a.acts == acts && (if a.step == ResourceStep::Persist { a.pending == error } else { error is Some ==> acts && a.destroys }),
        ResourceStep::Conclude => e matches ResourceEvent::Decided { acts, error } && (if a.step == ResourceStep::PersistResult { a.pending == error } else { error is None }),
        ResourceStep::Failed | ResourceStep::Done => true,
        _ => e is Finished,
    }
}

/// How it goes on.
pub open spec fn recipe_next() -> spec_fn(ResourceRun, ResourceEvent) -> ResourceRun {
    |a: ResourceRun, e: ResourceEvent| resource_next(a, e)
}

/// The step that it is at.
pub open spec fn recipe_at() -> spec_fn(ResourceRun) -> ResourceStep {
    |a: ResourceRun| a.step
}

/// What a step was answered with, where it was taken and left again.
pub open spec fn recipe_given(destroys: bool, events: Seq<ResourceEvent>, step: ResourceStep) -> Option<ResourceEvent> {
    course::answered(recipe_next(), recipe_at(), resource_begun(destroys), events, step)
}

proof fn lemma_recipe_after(destroys: bool, events: Seq<ResourceEvent>)
    ensures
        resource_all(resource_begun(destroys), events) == course::after(recipe_next(), resource_begun(destroys), events),
    decreases events.len(),
{
    if events.len() > 0 {
        lemma_recipe_after(destroys, events.drop_last());
    }
}

#[verifier::spinoff_prover]
proof fn lemma_recipe_step(a: ResourceRun, destroys: bool, e: ResourceEvent, k: ResourceStep)
    requires
        !(a.step == ResourceStep::Failed),
        recipe_holds(a, destroys),
        !(resource_next(a, e).step == ResourceStep::Failed),
    ensures
        ({
            let b = resource_next(a, e);
            &&& recipe_holds(b, destroys)
            &&& b.step == a.step ==> b == a
            &&& b.step != a.step ==> {
                &&& recipe_place(b.step) > recipe_place(a.step)
                &&& recipe_place(k) <= recipe_place(a.step) ==> recipe_calls_for(b, k) == recipe_calls_for(a, k)
                &&& recipe_place(a.step) < recipe_place(k) < recipe_place(b.step) ==> !recipe_calls_for(b, k)
            }
        }),
{
}

#[verifier::spinoff_prover]
proof fn lemma_recipe_told(a: ResourceRun, destroys: bool, e: ResourceEvent, k: ResourceStep, e0: ResourceEvent)
    requires
        !(a.step == ResourceStep::Failed),
        recipe_holds(a, destroys),
        !(resource_next(a, e).step == ResourceStep::Failed),
    ensures
        a.step == k && resource_next(a, e).step != k ==> recipe_goes_by(resource_next(a, e), k, e),
        recipe_place(a.step) > recipe_place(k) && recipe_goes_by(a, k, e0) ==> recipe_goes_by(resource_next(a, e), k, e0),
{
}

/// Each step of running a resource, or of destroying it, is taken where it is called for,
/// and nowhere else, whatever the events: the recipe is carried out, and what came of it
/// is probed, decided and recorded, exactly where that was decided; and what was found to
/// be wrong is passed over only where the resource is destroyed all the same.
pub proof fn a_resource_is_acted_on_where_that_was_decided(destroys: bool, events: Seq<ResourceEvent>, step: ResourceStep)
    requires
        recipe_place(resource_begun(destroys).step) <= recipe_place(step),
    ensures
        ({
            let a = resource_all(resource_begun(destroys), events);
            !(a.step == ResourceStep::Failed) ==> {
                &&& (match a.step {
                    ResourceStep::Act | ResourceStep::Confirm | ResourceStep::Conclude | ResourceStep::PersistResult => a.acts,
                    _ => true,
                })
                &&& a.destroys == destroys
                &&& a.error is None
                &&& a.recorded == (recipe_place(a.step) > recipe_place(ResourceStep::Persist))
                &&& a.acted == (a.acts && recipe_place(a.step) > recipe_place(ResourceStep::Act))
                &&& (a.step == ResourceStep::Done ==> a.pending is None)
                &&& recipe_place(a.step) > recipe_place(step) ==> (recipe_given(destroys, events, step) is Some
                    <==> (match step {
                            ResourceStep::Act | ResourceStep::Confirm | ResourceStep::Conclude | ResourceStep::PersistResult => a.acts,
                            _ => true,
                        }))
                &&& recipe_place(a.step) <= recipe_place(step) ==> recipe_given(destroys, events, step) is None
                &&& recipe_given(destroys, events, step) matches Some(e) ==> (match step {
                    ResourceStep::Decide => e matches ResourceEvent::Decided { acts, error } && a.acts == acts && (if a.step == ResourceStep::Persist { a.pending == error } else { error is Some ==> acts && a.destroys }),
                    ResourceStep::Conclude => e matches ResourceEvent::Decided { acts, error } && (if a.step == ResourceStep::PersistResult { a.pending == error } else { error is None }),
                    ResourceStep::Failed | ResourceStep::Done => true,
                    _ => e is Finished,
                })
            }
        }),
{
    lemma_recipe_after(destroys, events);
    let next = recipe_next();
    let at = recipe_at();
    let s = resource_begun(destroys);
    let places = |k: ResourceStep| recipe_place(k);
    let dead = |a: ResourceRun| a.step == ResourceStep::Failed;
    let inv = |a: ResourceRun| recipe_holds(a, destroys);
    let called = |a: ResourceRun, k: ResourceStep| recipe_calls_for(a, k);
    let past = |a: ResourceRun| recipe_place(a.step) > recipe_place(step);
    let fact = |a: ResourceRun, e: ResourceEvent| recipe_goes_by(a, step, e);
    assert forall|a: ResourceRun, e: ResourceEvent|
        inv(a) && !dead(a) && !dead(#[trigger] next(a, e)) implies inv(next(a, e)) by {
        lemma_recipe_step(a, destroys, e, step);
    }
    assert forall|a: ResourceRun, e: ResourceEvent|
        inv(a) && !dead(a) && called(a, at(a)) && !dead(#[trigger] next(a, e)) implies {
        let b = next(a, e);
        &&& inv(b)
        &&& at(b) == at(a) ==> b == a
        &&& at(b) != at(a) ==> {
            &&& places(at(b)) > places(at(a))
            &&& called(b, at(b))
            &&& places(step) <= places(at(a)) ==> called(b, step) == called(a, step)
            &&& places(at(a)) < places(step) < places(at(b)) ==> !called(b, step)
        }
    } by {
        lemma_recipe_step(a, destroys, e, step);
    }
    course::lemma_taken(next, at, places, dead, inv, called, s, events, step);
    assert forall|a: ResourceRun, e: ResourceEvent|
        inv(a) && !dead(a) && !dead(#[trigger] next(a, e)) && at(a) == step && at(next(a, e))
            != step implies past(next(a, e)) && fact(next(a, e), e) by {
        lemma_recipe_step(a, destroys, e, step);
        lemma_recipe_told(a, destroys, e, step, e);
    }
    assert forall|a: ResourceRun, e: ResourceEvent, e0: ResourceEvent|
        #![trigger next(a, e), fact(a, e0)]
        inv(a) && !dead(a) && !dead(next(a, e)) && past(a) && fact(a, e0) implies past(next(a, e))
        && fact(next(a, e), e0) && at(a) != step by {
        lemma_recipe_step(a, destroys, e, step);
        lemma_recipe_told(a, destroys, e, step, e0);
    }
    course::lemma_told(next, at, dead, inv, past, fact, s, events, step);
}

/// Running a resource fails where a step failed, or where something was found wrong, once
/// that is on record: with the error of that.
pub proof fn a_resource_fails_for_what_is_wrong(r: ResourceRun, event: ResourceEvent)
    requires
        recipe_place(r.step) >= 0,
        r.step != ResourceStep::Done,
    ensures
        resource_next(r, event).step == ResourceStep::Failed <==> (event is Failure || (event
            is Finished && r.pending is Some && ((r.step == ResourceStep::Persist && !(r.acts
            && r.destroys)) || r.step == ResourceStep::PersistResult))),
        event matches ResourceEvent::Failure(e) ==> resource_next(r, event).error == Some(e),
        resource_next(r, event).step == ResourceStep::Failed && event is Finished ==> resource_next(
            r,
            event,
        ).error == r.pending,
{
}

/// A lock is waited for as long as the task says, else as its configuration, else by default.
pub proof fn how_long_a_lock_is_waited_for(
    a: Option<Option<u64>>,
    b: Option<Option<u64>>,
    default: u64,
)
    ensures
        a matches Some(Some(n)) ==> wait_of(first_given(a, b), default) == n,
        a is None ==> (b matches Some(Some(n)) ==> wait_of(first_given(a, b), default) == n),
        a == Some(None::<u64>) ==> wait_of(first_given(a, b), default) == default,
        a is None && (b is None || b == Some(None::<u64>)) ==> wait_of(first_given(a, b), default)
            == default,
{
}

/// Resources of two trees are apart, and those of a repository are the same whichever tree
/// they are seen from.
pub proof fn whose_a_resource_is(
    label: Seq<char>,
    a: Seq<char>,
    b: Seq<char>,
    scope: Seq<char>,
    task: Seq<char>,
)
    ensures
        key_of(label, a, TiedTo::Repo, scope, task) == key_of(label, b, TiedTo::Repo, scope, task),
        key_of(label, a, TiedTo::Tree, scope, task) == key_of(label, b, TiedTo::Tree, scope, task)
            <==> a == b,
        key_of(label, a, TiedTo::Tree, scope, task) != key_of(label, b, TiedTo::Repo, scope, task),
{
    if a != b {
        assert(key_of(label, a, TiedTo::Tree, scope, task).name == Some(a));
        assert(key_of(label, b, TiedTo::Tree, scope, task).name == Some(b));
    }
}

} // verus!
