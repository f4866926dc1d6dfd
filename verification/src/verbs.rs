//! What the smaller commands decide.

use vstd::prelude::*;
use vstd::string::*;

use crate::assoc::Assoc;
use crate::course;
use crate::error;
use crate::error::{CoreError, ExitClass};
use crate::text;

verus! {

broadcast use vstd::string::group_string_axioms;

/// The fault of a report for programs that is asked of a command that runs another in
/// its place.
pub open spec fn no_report() -> error::Fault {
    error::fault(
        ExitClass::Usage,
        "JSON_UNSUPPORTED"@,
        "passthrough doors have no JSON envelope"@,
        "use `wt env --json` or `wt run --json`"@,
    )
}

/// A command that runs another in its place has no report for programs.
pub fn json_unsupported() -> (r: CoreError)
    ensures
        r@ == no_report(),
{
    CoreError::new(
        ExitClass::Usage,
        "JSON_UNSUPPORTED",
        "passthrough doors have no JSON envelope",
        "use `wt env --json` or `wt run --json`",
    )
}

/// Refuses to run a command in a tree: for a program that reads a report, or without the
/// tree's gate outside of tmux.
pub fn judge_exec(json: bool, no_gate: bool, env: &Assoc<String>) -> (r: Result<(), CoreError>)
    requires
        env.wf(),
    ensures
        if json {
            r matches Err(e) && e@ == no_report()
        } else if no_gate && !env@.contains_key("TMUX"@) {
            r matches Err(e) && e@ == error::fault(
                ExitClass::Usage,
                "NO_GATE_REFUSED"@,
                "--no-gate is only valid inside tmux"@,
                "sessions are started by `wt open`"@,
            )
        } else {
            r is Ok
        },
{
    if json {
        return Err(json_unsupported());
    }
    if no_gate && env.get("TMUX").is_none() {
        return Err(
            CoreError::new(
                ExitClass::Usage,
                "NO_GATE_REFUSED",
                "--no-gate is only valid inside tmux",
                "sessions are started by `wt open`",
            ),
        );
    }
    Ok(())
}

/// The editor that a variable names, where it names one.
pub open spec fn named_editor(env: Map<Seq<char>, String>, name: Seq<char>) -> Option<Seq<char>> {
    if env.contains_key(name) && env[name]@.len() > 0 {
        Some(env[name]@)
    } else {
        None
    }
}

fn inherited_editor(env: &Assoc<String>, name: &str) -> (r: Option<String>)
    requires
        env.wf(),
    ensures
        text::opt(r) == named_editor(env@, name@),
{
    match env.get(name) {
        Some(value) => if value.as_str().is_empty() {
            None
        } else {
            Some(value.clone())
        },
        None => None,
    }
}

/// The editor that is run: the one that is set, whose words are templates, or the one that
/// the environment names, which a shell reads.
#[derive(Debug)]
pub enum Editor {
    Configured,
    Shell(String),
}

/// Finds the editor that is run.
pub fn editor(set: bool, env: &Assoc<String>) -> (r: Result<Editor, CoreError>)
    requires
        env.wf(),
    ensures
        if set {
            r matches Ok(Editor::Configured)
        } else {
            match named_editor(env@, "VISUAL"@) {
                Some(s) => r matches Ok(Editor::Shell(own)) && own@ == s,
                None => match named_editor(env@, "EDITOR"@) {
                    Some(s) => r matches Ok(Editor::Shell(own)) && own@ == s,
                    None => r matches Err(e) && e@ == error::fault(
                        ExitClass::State,
                        "EDITOR_UNSET"@,
                        "no editor is configured"@,
                        "set the `editor` settings key in `$WT_HOME/config.toml`, or set $VISUAL or $EDITOR"@,
                    ),
                },
            }
        },
{
    if set {
        return Ok(Editor::Configured);
    }
    if let Some(s) = inherited_editor(env, "VISUAL") {
        return Ok(Editor::Shell(s));
    }
    if let Some(s) = inherited_editor(env, "EDITOR") {
        return Ok(Editor::Shell(s));
    }
    Err(
        CoreError::new(
            ExitClass::State,
            "EDITOR_UNSET",
            "no editor is configured",
            "set the `editor` settings key in `$WT_HOME/config.toml`, or set $VISUAL or $EDITOR",
        ),
    )
}

/// The fault of a task that is no resource.
pub open spec fn not_a_resource(task: Seq<char>) -> error::Fault {
    error::fault(
        ExitClass::Usage,
        "NOT_A_RESOURCE"@,
        "task `"@ + task + "` is not a resource"@,
        "choose a task with exists, destroy, and tied_to"@,
    )
}

/// A task that is no resource.
pub fn resource_required(task: &str) -> (r: CoreError)
    ensures
        r@ == not_a_resource(task@),
{
    let message = "task `".to_owned().concat(task).concat("` is not a resource");
    CoreError::new(
        ExitClass::Usage,
        "NOT_A_RESOURCE",
        message.as_str(),
        "choose a task with exists, destroy, and tied_to",
    )
}

/// A node of a plan: its task, and whether it is a resource.
#[derive(Debug)]
pub struct PlanNode {
    pub id: String,
    pub is_resource: bool,
}

/// The place of the first node of a task.
pub open spec fn node_at(nodes: Seq<PlanNode>, task: Seq<char>, from: int) -> Option<int>
    decreases nodes.len() - from,
{
    if from >= nodes.len() {
        None
    } else if nodes[from].id@ == task {
        Some(from)
    } else {
        node_at(nodes, task, from + 1)
    }
}

/// Finds the node of a resource in a plan; a task that is not there, or that is no
/// resource, is refused.
pub fn resource_node(nodes: &Vec<PlanNode>, task: &str) -> (r: Result<usize, CoreError>)
    ensures
        match node_at(nodes@, task@, 0) {
            Some(i) => if nodes@[i].is_resource {
                r matches Ok(k) && k == i
            } else {
                r matches Err(e) && e@ == not_a_resource(task@)
            },
            None => r matches Err(e) && e@ == not_a_resource(task@),
        },
{
    let mut i: usize = 0;
    while i < nodes.len()
        invariant
            i <= nodes.len(),
            node_at(nodes@, task@, 0) == node_at(nodes@, task@, i as int),
        decreases nodes.len() - i,
    {
        if text::same(nodes[i].id.as_str(), task) {
            if nodes[i].is_resource {
                return Ok(i);
            }
            return Err(resource_required(task));
        }
        i = i + 1;
    }
    Err(resource_required(task))
}

/// The layer that a configuration is reported as.
pub fn config_layer(origin: bool) -> (r: &'static str)
    ensures
        r@ == if origin {
            "merged"@
        } else {
            "effective"@
        },
{
    if origin {
        "merged"
    } else {
        "effective"
    }
}

/// What a run says of a tree whose place it took.
pub fn displaced_text(displaced: &Option<String>) -> (r: String)
    ensures
        r@ == match text::opt(*displaced) {
            Some(target) => "displaced "@ + target + "\n"@,
            None => Seq::<char>::empty(),
        },
{
    match displaced {
        Some(target) => "displaced ".to_owned().concat(target.as_str()).concat("\n"),
        None => String::new(),
    }
}

/// A shell that completions are made for.
#[derive(Clone, Copy, Debug, PartialEq, Eq, Structural)]
pub enum Shell {
    Bash,
    Zsh,
    Fish,
}

/// The script that completes targets in a shell.
pub open spec fn completion_script(shell: Shell) -> Seq<char> {
    match shell {
        Shell::Bash => "_wt_targets() {\n  COMPREPLY=( $(compgen -W \"$(command wt list --json | tr '{' '\\n' | sed -n 's/.*\\\"target\\\":\\\"\\([^\\\"]*\\)\\\".*/\\1/p')\" -- \"${COMP_WORDS[COMP_CWORD]}\") )\n}\ncomplete -F _wt_targets wt"@,
        Shell::Zsh => "#compdef wt\n_wt() {\n  local -a targets\n  targets=(\"${(@f)$(command wt list --json | tr '{' '\\n' | sed -n 's/.*\\\"target\\\":\\\"\\([^\\\"]*\\)\\\".*/\\1/p')}\")\n  _describe 'wt target' targets\n}\ncompdef _wt wt"@,
        Shell::Fish => "function __wt_targets\n    command wt list --json | string split '{' | string match -rg '\"target\":\"([^\"]*)\"'\nend\ncomplete -c wt -a '(__wt_targets)'"@,
    }
}

/// The script that completes targets in a shell.
pub fn generate(shell: Shell) -> (r: &'static str)
    ensures
        r@ == completion_script(shell),
{
    match shell {
        Shell::Bash => "_wt_targets() {\n  COMPREPLY=( $(compgen -W \"$(command wt list --json | tr '{' '\\n' | sed -n 's/.*\\\"target\\\":\\\"\\([^\\\"]*\\)\\\".*/\\1/p')\" -- \"${COMP_WORDS[COMP_CWORD]}\") )\n}\ncomplete -F _wt_targets wt",
        Shell::Zsh => "#compdef wt\n_wt() {\n  local -a targets\n  targets=(\"${(@f)$(command wt list --json | tr '{' '\\n' | sed -n 's/.*\\\"target\\\":\\\"\\([^\\\"]*\\)\\\".*/\\1/p')}\")\n  _describe 'wt target' targets\n}\ncompdef _wt wt",
        Shell::Fish => "function __wt_targets\n    command wt list --json | string split '{' | string match -rg '\"target\":\"([^\"]*)\"'\nend\ncomplete -c wt -a '(__wt_targets)'",
    }
}

// ---------------------------------------------------------------------------
// Acting on a resource
// ---------------------------------------------------------------------------

/// What destroying or refreshing a resource by hand does next.
#[derive(Clone, Copy, Debug, PartialEq, Eq, Structural)]
pub enum ActStep {
    /// Ask whether it is to be done.
    Confirm,
    /// Enter the tree.
    Enter,
    /// Plan the task, and find the resource in the plan.
    Plan,
    /// Refresh what the tree declares.
    Declare,
    /// Read how the resource stands.
    Before,
    /// Destroy it.
    Destroy,
    /// Carry the plan out.
    Run,
    /// Read how it stands now.
    After,
    Done,
    Declined,
    Failed,
}

/// What came of a step.
#[derive(Debug)]
pub enum ActEvent {
    Succeeded,
    /// It is not to be done.
    No,
    Failure(CoreError),
}

/// What is known of an event.
pub enum ActNews {
    Succeeded,
    No,
    Failure(error::Fault),
}

impl View for ActEvent {
    type V = ActNews;

    open spec fn view(&self) -> ActNews {
        match self {
            ActEvent::Succeeded => ActNews::Succeeded,
            ActEvent::No => ActNews::No,
            ActEvent::Failure(e) => ActNews::Failure(e@),
        }
    }
}

/// A resource that is destroyed by hand, and made anew where it is refreshed.
#[derive(Debug)]
pub struct Acting {
    pub refreshes: bool,
    pub step: ActStep,
    /// It is to be done.
    pub confirmed: bool,
    /// The tree was entered.
    pub entered: bool,
    /// What the tree declares was refreshed.
    pub declared: bool,
    pub destroyed: bool,
    pub error: Option<CoreError>,
}

/// What is known of a resource that is acted on by hand.
#[verifier::ext_equal]
pub struct Act {
    pub refreshes: bool,
    pub step: ActStep,
    pub confirmed: bool,
    pub entered: bool,
    pub declared: bool,
    pub destroyed: bool,
    pub error: Option<error::Fault>,
}

impl View for Acting {
    type V = Act;

    open spec fn view(&self) -> Act {
        Act {
            refreshes: self.refreshes,
            step: self.step,
            confirmed: self.confirmed,
            entered: self.entered,
            declared: self.declared,
            destroyed: self.destroyed,
            error: match self.error {
                Some(e) => Some(e@),
                None => None,
            },
        }
    }
}

/// How acting on a resource begins.
pub open spec fn acting(refreshes: bool) -> Act {
    Act {
        refreshes,
        step: ActStep::Confirm,
        confirmed: false,
        entered: false,
        declared: false,
        destroyed: false,
        error: None,
    }
}

/// Acting on a resource after something came of its step. What was destroyed is told as
/// the destruction left it; what is refreshed is made anew first.
pub open spec fn acted(a: Act, news: ActNews) -> Act {
    match (a.step, news) {
        (ActStep::Done, _) | (ActStep::Declined, _) | (ActStep::Failed, _) => a,
        (_, ActNews::Failure(e)) => Act { step: ActStep::Failed, error: Some(e), ..a },
        (ActStep::Confirm, ActNews::No) => Act { step: ActStep::Declined, ..a },
        (_, ActNews::No) => a,
        (ActStep::Confirm, _) => Act { confirmed: true, step: ActStep::Enter, ..a },
        (ActStep::Enter, _) => Act { entered: true, step: ActStep::Plan, ..a },
        (ActStep::Plan, _) => Act { step: ActStep::Declare, ..a },
        (ActStep::Declare, _) => Act { declared: true, step: ActStep::Before, ..a },
        (ActStep::Before, _) => Act { step: ActStep::Destroy, ..a },
        (ActStep::Destroy, _) => Act {
            destroyed: true,
            step: if a.refreshes {
                ActStep::Run
            } else {
                ActStep::Done
            },
            ..a
        },
        (ActStep::Run, _) => Act { step: ActStep::After, ..a },
        (ActStep::After, _) => Act { step: ActStep::Done, ..a },
    }
}

impl Acting {
    /// Begins to act on a resource.
    pub fn new(refreshes: bool) -> (r: Self)
        ensures
            r@ == acting(refreshes),
    {
        Acting {
            refreshes,
            step: ActStep::Confirm,
            confirmed: false,
            entered: false,
            declared: false,
            destroyed: false,
            error: None,
        }
    }

    fn succeeded(&mut self)
        ensures
            final(self)@ == acted(old(self)@, ActNews::Succeeded),
    {
        match self.step {
            ActStep::Confirm => {
                self.confirmed = true;
                self.step = ActStep::Enter;
            },
            ActStep::Enter => {
                self.entered = true;
                self.step = ActStep::Plan;
            },
            ActStep::Plan => {
                self.step = ActStep::Declare;
            },
            ActStep::Declare => {
                self.declared = true;
                self.step = ActStep::Before;
            },
            ActStep::Before => {
                self.step = ActStep::Destroy;
            },
            ActStep::Destroy => {
                self.destroyed = true;
                self.step = if self.refreshes {
                    ActStep::Run
                } else {
                    ActStep::Done
                };
            },
            ActStep::Run => {
                self.step = ActStep::After;
            },
            ActStep::After => {
                self.step = ActStep::Done;
            },
            ActStep::Done | ActStep::Declined | ActStep::Failed => {},
        }
    }

    /// Takes what came of the step, and goes on to the next.
    pub fn advance(&mut self, event: ActEvent)
        ensures
            final(self)@ == acted(old(self)@, event@),
    {
        match event {
            ActEvent::Succeeded => {
                self.succeeded();
            },
            ActEvent::No => {
                if self.step == ActStep::Confirm {
                    self.step = ActStep::Declined;
                }
            },
            ActEvent::Failure(e) => {
                match self.step {
                    ActStep::Done | ActStep::Declined | ActStep::Failed => {},
                    _ => {
                        self.step = ActStep::Failed;
                        self.error = Some(e);
                    },
                }
            },
        }
    }
}

/// Acting on a resource after a row of events.
pub open spec fn acted_all(a: Act, news: Seq<ActNews>) -> Act
    decreases news.len(),
{
    if news.len() == 0 {
        a
    } else {
        acted(acted_all(a, news.drop_last()), news.last())
    }
}

/// What holds of acting on a resource at every step.
pub open spec fn act_sound(a: Act) -> bool {
    &&& !(a.step is Confirm || a.step is Declined || a.step is Failed) ==> a.confirmed
    &&& !(a.step is Confirm || a.step is Enter || a.step is Declined || a.step is Failed)
        ==> a.entered
    &&& (a.step is Before || a.step is Destroy || a.step is Run || a.step is After || a.step
        is Done) ==> a.declared
    &&& (a.step is Run || a.step is After) ==> a.destroyed && a.refreshes
    &&& a.step is Done ==> a.destroyed
    &&& a.destroyed ==> a.confirmed && a.entered && a.declared
    &&& a.step is Declined ==> !a.confirmed && !a.destroyed
    &&& a.step is Failed <==> a.error is Some
    &&& a.step is Confirm ==> !a.confirmed && !a.destroyed
}

/// Nothing is destroyed by hand without consent, outside of a tree that was entered, or
/// by recipes that are out of date; and a resource is made anew only after it was
/// destroyed.
pub proof fn nothing_is_destroyed_unasked(refreshes: bool, news: Seq<ActNews>)
    ensures
        act_sound(acted_all(acting(refreshes), news)),
        acted_all(acting(refreshes), news).refreshes == refreshes,
    decreases news.len(),
{
    if news.len() > 0 {
        nothing_is_destroyed_unasked(refreshes, news.drop_last());
    }
}

/// The place of a step in the order in which steps come.
pub open spec fn act_place(step: ActStep) -> int {
    match step {
        ActStep::Confirm => 0,
        ActStep::Enter => 1,
        ActStep::Plan => 2,
        ActStep::Declare => 3,
        ActStep::Before => 4,
        ActStep::Destroy => 5,
        ActStep::Run => 6,
        ActStep::After => 7,
        ActStep::Done => 8,
        ActStep::Declined | ActStep::Failed => -1,
    }
}

/// Whether a step is called for.
pub open spec fn act_calls_for(a: Act, step: ActStep) -> bool {
    match step {
        ActStep::Run | ActStep::After => a.refreshes,
        _ => true,
    }
}

/// What holds at every step.
pub open spec fn act_holds(a: Act, refreshes: bool) -> bool {
    &&& act_calls_for(a, a.step)
    &&& a.refreshes == refreshes
    &&& a.error is None
    &&& a.confirmed == (act_place(a.step) > act_place(ActStep::Confirm))
    &&& a.entered == (act_place(a.step) > act_place(ActStep::Enter))
    &&& a.declared == (act_place(a.step) > act_place(ActStep::Declare))
    &&& a.destroyed == (act_place(a.step) > act_place(ActStep::Destroy))
}

/// What an answer to a step is gone by.
pub open spec fn act_goes_by(a: Act, step: ActStep, e: ActNews) -> bool {
    match step {

        ActStep::Declined | ActStep::Failed | ActStep::Done => true,
        _ => e is Succeeded,
    }
}

/// How it goes on.
pub open spec fn act_next() -> spec_fn(Act, ActNews) -> Act {
    |a: Act, e: ActNews| acted(a, e)
}

/// The step that it is at.
pub open spec fn act_at() -> spec_fn(Act) -> ActStep {
    |a: Act| a.step
}

/// What a step was answered with, where it was taken and left again.
pub open spec fn act_given(refreshes: bool, events: Seq<ActNews>, step: ActStep) -> Option<ActNews> {
    course::answered(act_next(), act_at(), acting(refreshes), events, step)
}

proof fn lemma_act_after(refreshes: bool, events: Seq<ActNews>)
    ensures
        acted_all(acting(refreshes), events) == course::after(act_next(), acting(refreshes), events),
    decreases events.len(),
{
    if events.len() > 0 {
        lemma_act_after(refreshes, events.drop_last());
    }
}

#[verifier::spinoff_prover]
proof fn lemma_act_step(a: Act, refreshes: bool, e: ActNews, k: ActStep)
    requires
        !(a.step == ActStep::Declined || a.step == ActStep::Failed),
        act_holds(a, refreshes),
        !(acted(a, e).step == ActStep::Declined || acted(a, e).step == ActStep::Failed),
    ensures
        ({
            let b = acted(a, e);
            &&& act_holds(b, refreshes)
            &&& b.step == a.step ==> b == a
            &&& b.step != a.step ==> {
                &&& act_place(b.step) > act_place(a.step)
                &&& act_place(k) <= act_place(a.step) ==> act_calls_for(b, k) == act_calls_for(a, k)
                &&& act_place(a.step) < act_place(k) < act_place(b.step) ==> !act_calls_for(b, k)
            }
        }),
{
}

#[verifier::spinoff_prover]
proof fn lemma_act_told(a: Act, refreshes: bool, e: ActNews, k: ActStep, e0: ActNews)
    requires
        !(a.step == ActStep::Declined || a.step == ActStep::Failed),
        act_holds(a, refreshes),
        !(acted(a, e).step == ActStep::Declined || acted(a, e).step == ActStep::Failed),
    ensures
        a.step == k && acted(a, e).step != k ==> act_goes_by(acted(a, e), k, e),
        act_place(a.step) > act_place(k) && act_goes_by(a, k, e0) ==> act_goes_by(acted(a, e), k, e0),
{
}

/// Each step of acting on a resource is taken where it is called for, and nowhere else,
/// whatever the events: it is destroyed in any case, and made anew exactly where it is
/// refreshed.
pub proof fn a_resource_is_made_anew_where_that_was_asked_for(refreshes: bool, events: Seq<ActNews>, step: ActStep)
    requires
        act_place(acting(refreshes).step) <= act_place(step),
    ensures
        ({
            let a = acted_all(acting(refreshes), events);
            !(a.step == ActStep::Declined || a.step == ActStep::Failed) ==> {
                &&& (match a.step {
                    ActStep::Run | ActStep::After => a.refreshes,
                    _ => true,
                })
                &&& a.refreshes == refreshes
                &&& a.error is None
                &&& a.confirmed == (act_place(a.step) > act_place(ActStep::Confirm))
                &&& a.entered == (act_place(a.step) > act_place(ActStep::Enter))
                &&& a.declared == (act_place(a.step) > act_place(ActStep::Declare))
                &&& a.destroyed == (act_place(a.step) > act_place(ActStep::Destroy))
                &&& act_place(a.step) > act_place(step) ==> (act_given(refreshes, events, step) is Some
                    <==> (match step {
                            ActStep::Run | ActStep::After => a.refreshes,
                            _ => true,
                        }))
                &&& act_place(a.step) <= act_place(step) ==> act_given(refreshes, events, step) is None
                &&& act_given(refreshes, events, step) matches Some(e) ==> (match step {

                    ActStep::Declined | ActStep::Failed | ActStep::Done => true,
                    _ => e is Succeeded,
                })
            }
        }),
{
    lemma_act_after(refreshes, events);
    let next = act_next();
    let at = act_at();
    let s = acting(refreshes);
    let places = |k: ActStep| act_place(k);
    let dead = |a: Act| a.step == ActStep::Declined || a.step == ActStep::Failed;
    let inv = |a: Act| act_holds(a, refreshes);
    let called = |a: Act, k: ActStep| act_calls_for(a, k);
    let past = |a: Act| act_place(a.step) > act_place(step);
    let fact = |a: Act, e: ActNews| act_goes_by(a, step, e);
    assert forall|a: Act, e: ActNews|
        inv(a) && !dead(a) && !dead(#[trigger] next(a, e)) implies inv(next(a, e)) by {
        lemma_act_step(a, refreshes, e, step);
    }
    assert forall|a: Act, e: ActNews|
        inv(a) && !dead(a) && called(a, at(a)) && !dead(#[trigger] next(a, e)) implies {
        let b = next(a, e);
        &&& inv(b)
        &&& at(b) == at(a) ==> b == a
        &&& at(b) != at(a) ==> {
            &&& places(at(b)) > places(at(a))
            &&& called(b, at(b))
            &&& places(step) <= places(at(a)) ==> called(b, step) == called(a, step)
            &&& places(at(a)) < places(step) < places(at(b)) ==> !called(b, step)
        }
    } by {
        lemma_act_step(a, refreshes, e, step);
    }
    course::lemma_taken(next, at, places, dead, inv, called, s, events, step);
    assert forall|a: Act, e: ActNews|
        inv(a) && !dead(a) && !dead(#[trigger] next(a, e)) && at(a) == step && at(next(a, e))
            != step implies past(next(a, e)) && fact(next(a, e), e) by {
        lemma_act_step(a, refreshes, e, step);
        lemma_act_told(a, refreshes, e, step, e);
    }
    assert forall|a: Act, e: ActNews, e0: ActNews|
        #![trigger next(a, e), fact(a, e0)]
        inv(a) && !dead(a) && !dead(next(a, e)) && past(a) && fact(a, e0) implies past(next(a, e))
        && fact(next(a, e), e0) && at(a) != step by {
        lemma_act_step(a, refreshes, e, step);
        lemma_act_told(a, refreshes, e, step, e0);
    }
    course::lemma_told(next, at, dead, inv, past, fact, s, events, step);
}

/// Acting ends early where it was declined, or where a step failed, with its error.
pub proof fn acting_ends_for_what_failed(a: Act, news: ActNews)
    requires
        act_place(a.step) >= 0,
        a.step != ActStep::Done,
    ensures
        acted(a, news).step == ActStep::Failed <==> news is Failure,
        acted(a, news).step == ActStep::Declined <==> a.step == ActStep::Confirm && news is No,
        news matches ActNews::Failure(e) ==> acted(a, news).error == Some(e),
{
}

/// A task's step is found wherever the plan has it, and it is the first.
pub proof fn the_step_of_a_task_is_found(nodes: Seq<PlanNode>, task: Seq<char>, from: int)
    requires
        0 <= from,
    ensures
        match node_at(nodes, task, from) {
            Some(i) => from <= i < nodes.len() && nodes[i].id@ == task && forall|k: int|
                from <= k < i ==> (#[trigger] nodes[k]).id@ != task,
            None => forall|k: int| from <= k < nodes.len() ==> (#[trigger] nodes[k]).id@ != task,
        },
    decreases nodes.len() - from,
{
    if from < nodes.len() && nodes[from].id@ != task {
        the_step_of_a_task_is_found(nodes, task, from + 1);
    }
}

/// An editor is named exactly where its variable is set to something.
pub proof fn which_editor_is_named(env: Map<Seq<char>, String>, name: Seq<char>)
    ensures
        named_editor(env, name) is Some <==> env.contains_key(name) && env[name]@.len() != 0,
        named_editor(env, name) matches Some(e) ==> e == env[name]@,
{
}

} // verus!
