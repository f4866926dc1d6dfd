//! Sessions: when a terminal is attached, what is started in them, and what becomes of
//! several at once.

use vstd::prelude::*;
use vstd::string::*;

use crate::assoc::Assoc;
use crate::context::{Registry, TreeRec};
use crate::course;
use crate::error;
use crate::error::{CoreError, ExitClass};
use crate::git;
use crate::output;
use crate::output::{Notice, NoticeLevel};
use crate::path;
use crate::proc::{Args, ExpandedCommand, ProcessOutput};
use crate::register;
use crate::snapshot::Tty;
use crate::text;

verus! {

broadcast use vstd::string::group_string_axioms;

/// What sessions are run by.
#[derive(Clone, Copy, Debug, PartialEq, Eq, Structural)]
pub enum SessionBackend {
    Tmux,
    Off,
}

/// Whether the terminal is attached to a session: only where tmux runs it, attaching is
/// set and not ruled out, someone sees and types, no program reads the report, and the
/// terminal is not inside a tree already.
pub fn attachment_allowed(
    backend: SessionBackend,
    attach: bool,
    tty: Tty,
    json: bool,
    inside_door: bool,
    no_attach: bool,
) -> (r: bool)
    ensures
        r == (backend == SessionBackend::Tmux && attach && tty.stdin && tty.stdout && !json
            && !inside_door && !no_attach),
{
    backend == SessionBackend::Tmux && attach && tty.stdin && tty.stdout && !json && !inside_door
        && !no_attach
}

/// Whether the terminal is attached to a session; inside a tree is a process whose
/// environment says so.
pub fn should_attach(
    backend: SessionBackend,
    attach: bool,
    tty: Tty,
    json: bool,
    env: &Assoc<String>,
    no_attach: bool,
) -> (r: bool)
    requires
        env.wf(),
    ensures
        r == (backend == SessionBackend::Tmux && attach && tty.stdin && tty.stdout && !json
            && !env@.contains_key("WT_ACTIVATION"@) && !no_attach),
{
    let inside = env.get("WT_ACTIVATION").is_some();
    attachment_allowed(backend, attach, tty, json, inside, no_attach)
}

/// Whether the client inside tmux is switched, in place of attaching one.
pub fn switches(env: &Assoc<String>) -> (r: bool)
    requires
        env.wf(),
    ensures
        r == env@.contains_key("TMUX"@),
{
    env.get("TMUX").is_some()
}

/// Refuses sessions where nothing runs them.
pub fn require_tmux_backend(backend: SessionBackend) -> (r: Result<(), CoreError>)
    ensures
        r is Ok == (backend == SessionBackend::Tmux),
        r matches Err(e) ==> e@ == error::fault(
            ExitClass::State,
            "SESSION_DISABLED"@,
            "`session.backend` is `none`"@,
            "set `session.backend = \"tmux\"` in `$WT_HOME/config.toml`"@,
        ),
{
    if backend == SessionBackend::Off {
        return Err(
            CoreError::new(
                ExitClass::State,
                "SESSION_DISABLED",
                "`session.backend` is `none`",
                "set `session.backend = \"tmux\"` in `$WT_HOME/config.toml`",
            ),
        );
    }
    Ok(())
}

/// How long tmux may take, in milliseconds.
pub fn tmux_timeout(set: Option<u64>) -> (r: u64)
    ensures
        r == match set {
            Some(v) => v,
            None => 10000,
        },
{
    match set {
        Some(v) => v,
        None => 10000,
    }
}

// ---------------------------------------------------------------------------
// What is started
// ---------------------------------------------------------------------------

/// The words of a command.
pub open spec fn command_words(command: ExpandedCommand) -> Seq<Seq<char>> {
    match command {
        ExpandedCommand::Argv { argv } => text::texts(argv@),
        ExpandedCommand::Shell { shell } => seq!["sh"@, "-c"@, shell@],
    }
}

/// The words of a command.
pub fn command_argv(command: &ExpandedCommand) -> (r: Vec<String>)
    ensures
        text::texts(r@) == command_words(*command),
{
    match command {
        ExpandedCommand::Argv { argv } => crate::proc::copy_texts(argv),
        ExpandedCommand::Shell { shell } => {
            let mut words: Vec<String> = Vec::new();
            words.push("sh".to_owned());
            words.push("-c".to_owned());
            words.push(shell.clone());
            proof {
                assert(text::texts(words@) =~= seq!["sh"@, "-c"@, shell@]);
            }
            words
        },
    }
}

/// An agent: how it is started, and how it is taken up again.
#[derive(Debug)]
pub struct Agent {
    pub start: ExpandedCommand,
    pub resume: ExpandedCommand,
}

/// What a session is started with: a command, the agent that it is, and whether that
/// goes on record.
#[derive(Debug)]
pub struct Launch {
    pub argv: Vec<String>,
    pub agent: Option<String>,
    pub record_agent: Option<String>,
}

/// Which agent a session is started with: the one that is asked for, the one on record,
/// which is taken up again, or the one that is set.
pub open spec fn agent_choice(
    asked: Option<Seq<char>>,
    recorded: Option<Seq<char>>,
    set: Option<Seq<char>>,
) -> Option<(Seq<char>, bool)> {
    if asked is Some {
        Some((asked->0, false))
    } else if recorded is Some {
        Some((recorded->0, true))
    } else if set is Some {
        Some((set->0, false))
    } else {
        None
    }
}

/// Whether a launch is one of an agent.
pub open spec fn launches(l: Launch, name: Seq<char>, resume: bool, agent: Agent) -> bool {
    &&& text::texts(l.argv@) == command_words(
        if resume {
            agent.resume
        } else {
            agent.start
        },
    )
    &&& text::opt(l.agent) == Some(name)
    &&& text::opt(l.record_agent) == if resume {
        None
    } else {
        Some(name)
    }
}

fn agent_launch(agents: &Assoc<Agent>, name: &str, resume: bool) -> (r: Result<Launch, CoreError>)
    requires
        agents.wf(),
    ensures
        if agents@.contains_key(name@) {
            r matches Ok(l) && launches(l, name@, resume, agents@[name@])
        } else {
            r matches Err(e) && e@ == error::fault(
                ExitClass::State,
                "CONFIG_INVALID"@,
                "agent `"@ + name@ + "` is not configured"@,
                "configure the agent in `$WT_HOME/config.toml`"@,
            )
        },
{
    match agents.get(name) {
        Some(agent) => {
            let argv = if resume {
                command_argv(&agent.resume)
            } else {
                command_argv(&agent.start)
            };
            let record_agent = if resume {
                None
            } else {
                Some(name.to_owned())
            };
            Ok(Launch { argv, agent: Some(name.to_owned()), record_agent })
        },
        None => {
            let message = "agent `".to_owned().concat(name).concat("` is not configured");
            Err(
                CoreError::new(
                    ExitClass::State,
                    "CONFIG_INVALID",
                    message.as_str(),
                    "configure the agent in `$WT_HOME/config.toml`",
                ),
            )
        },
    }
}

/// Decides what a session is started with: an agent, or the shell where there is none.
pub fn launch_command(
    agents: &Assoc<Agent>,
    asked: &Option<String>,
    recorded: &Option<String>,
    set: &Option<String>,
    shell: Vec<String>,
) -> (r: Result<Launch, CoreError>)
    requires
        agents.wf(),
    ensures
        match agent_choice(text::opt(*asked), text::opt(*recorded), text::opt(*set)) {
            Some((name, resume)) => if agents@.contains_key(name) {
                r matches Ok(l) && launches(l, name, resume, agents@[name])
            } else {
                r matches Err(e) && e@ == error::fault(
                    ExitClass::State,
                    "CONFIG_INVALID"@,
                    "agent `"@ + name + "` is not configured"@,
                    "configure the agent in `$WT_HOME/config.toml`"@,
                )
            },
            None => r matches Ok(l) && l.argv == shell && l.agent is None && l.record_agent
                is None,
        },
{
    if let Some(name) = asked {
        return agent_launch(agents, name.as_str(), false);
    }
    if let Some(name) = recorded {
        return agent_launch(agents, name.as_str(), true);
    }
    if let Some(name) = set {
        return agent_launch(agents, name.as_str(), false);
    }
    Ok(Launch { argv: shell, agent: None, record_agent: None })
}

/// The command of a session: this program, which enters the tree without its gate and
/// runs what the session is for.
pub fn session_command(binary: &str, target: &str, launch: &Vec<String>) -> (r: Vec<String>)
    ensures
        text::texts(r@) == seq![binary@, "exec"@, "--no-gate"@, target@, "--"@] + text::texts(
            launch@,
        ),
{
    let args = Args::none().and(binary).and("exec").and("--no-gate").and(target).and("--");
    proof {
        assert(args@ =~= seq![binary@, "exec"@, "--no-gate"@, target@, "--"@]);
    }
    args.and_all(launch).list
}

/// Where what a session says is captured.
pub fn capture_path(home: &str, session: &str, pid: u32) -> (r: String)
    ensures
        r@ == path::joined(
            path::joined(home@, "tmp"@),
            "session-"@ + session@ + "-"@ + text::decimal(pid as nat) + ".log"@,
        ),
{
    let name = "session-".to_owned().concat(session).concat("-").concat(
        text::decimal_of(pid as u64).as_str(),
    ).concat(".log");
    path::join(path::join(home, "tmp").as_str(), name.as_str())
}

/// The running program could not be found.
pub fn current_exe_failed(why: &str) -> (r: CoreError)
    ensures
        r@ == error::fault(
            ExitClass::Internal,
            "CURRENT_EXE_FAILED"@,
            "could not resolve the running wt binary: "@ + why@,
            "retry and report this wt bug if it repeats"@,
        ),
{
    let message = "could not resolve the running wt binary: ".to_owned().concat(why);
    CoreError::new(
        ExitClass::Internal,
        "CURRENT_EXE_FAILED",
        message.as_str(),
        "retry and report this wt bug if it repeats",
    )
}

/// What is done next about a session.
#[derive(Clone, Copy, Debug, PartialEq, Eq, Structural)]
pub enum OpenStep {
    /// Ask whether it is there.
    Ask,
    /// Choose what is launched in it, which fails where an agent is not configured.
    Launch,
    /// Make it.
    Create,
    /// Ask again, since it could not be made.
    AskAgain,
    /// Put the agent on record.
    Record,
    Done,
    Failed,
}

/// What came of a step.
#[derive(Debug)]
pub enum OpenEvent {
    Failure(CoreError),
    Finished,
    Exists(bool),
    /// What is launched: its agent, and the one to put on record.
    Chosen { agent: Option<String>, record: Option<String> },
}

/// A session that is being opened. `agent` is the one that is reported: the one on
/// record, and that of the launch once a session was made.
#[derive(Debug)]
pub struct Opening {
    pub agent: Option<String>,
    pub launched: Option<String>,
    pub record: Option<String>,
    pub step: OpenStep,
    pub existing: bool,
    pub created: bool,
    pub refused: Option<CoreError>,
    pub error: Option<CoreError>,
}

/// Opening a session after something came of its step: what is launched is chosen only
/// where there is none; one that could not be made is taken where someone else made it
/// meanwhile, and else that error is handed on.
pub open spec fn opened(o: Opening, event: OpenEvent) -> Opening {
    match (o.step, event) {
        (OpenStep::Done, _) | (OpenStep::Failed, _) => o,
        (OpenStep::Create, OpenEvent::Failure(e)) => Opening {
            refused: Some(e),
            step: OpenStep::AskAgain,
            ..o
        },
        (_, OpenEvent::Failure(e)) => Opening { step: OpenStep::Failed, error: Some(e), ..o },
        (OpenStep::Ask, OpenEvent::Exists(yes)) => Opening {
            existing: yes,
            step: if yes {
                OpenStep::Done
            } else {
                OpenStep::Launch
            },
            ..o
        },
        (OpenStep::Launch, OpenEvent::Chosen { agent, record }) => Opening {
            launched: agent,
            record,
            step: OpenStep::Create,
            ..o
        },
        (OpenStep::Create, OpenEvent::Finished) => Opening {
            created: true,
            agent: o.launched,
            launched: None,
            step: if o.record is Some {
                OpenStep::Record
            } else {
                OpenStep::Done
            },
            ..o
        },
        (OpenStep::AskAgain, OpenEvent::Exists(yes)) => if yes {
            Opening { existing: true, step: OpenStep::Done, ..o }
        } else {
            Opening { error: o.refused, refused: None, step: OpenStep::Failed, ..o }
        },
        (OpenStep::Record, OpenEvent::Finished) => Opening { step: OpenStep::Done, ..o },
        _ => o,
    }
}

impl Opening {
    /// Begins to open a session of a tree with the agent that is on record.
    pub fn new(agent: Option<String>) -> (r: Self)
        ensures
            r == (Opening {
                agent,
                launched: None,
                record: None,
                step: OpenStep::Ask,
                existing: false,
                created: false,
                refused: None,
                error: None,
            }),
    {
        Opening {
            agent,
            launched: None,
            record: None,
            step: OpenStep::Ask,
            existing: false,
            created: false,
            refused: None,
            error: None,
        }
    }

    /// Takes what came of the step, and goes on to the next.
    pub fn advance(&mut self, event: OpenEvent)
        ensures
            *final(self) == opened(*old(self), event),
    {
        match self.step {
            OpenStep::Done | OpenStep::Failed => {
                return;
            },
            _ => {},
        }
        match event {
            OpenEvent::Failure(e) => {
                if self.step == OpenStep::Create {
                    self.refused = Some(e);
                    self.step = OpenStep::AskAgain;
                } else {
                    self.error = Some(e);
                    self.step = OpenStep::Failed;
                }
            },
            OpenEvent::Finished => {
                match self.step {
                    OpenStep::Create => {
                        self.created = true;
                        self.agent = self.launched.take();
                        self.step = if self.record.is_some() {
                            OpenStep::Record
                        } else {
                            OpenStep::Done
                        };
                    },
                    OpenStep::Record => {
                        self.step = OpenStep::Done;
                    },
                    _ => {},
                }
            },
            OpenEvent::Chosen { agent, record } => {
                if self.step == OpenStep::Launch {
                    self.launched = agent;
                    self.record = record;
                    self.step = OpenStep::Create;
                }
            },
            OpenEvent::Exists(yes) => {
                match self.step {
                    OpenStep::Ask => {
                        self.existing = yes;
                        self.step = if yes {
                            OpenStep::Done
                        } else {
                            OpenStep::Launch
                        };
                    },
                    OpenStep::AskAgain => {
                        if yes {
                            self.existing = true;
                            self.step = OpenStep::Done;
                        } else {
                            self.error = self.refused.take();
                            self.step = OpenStep::Failed;
                        }
                    },
                    _ => {},
                }
            },
        }
    }
}

/// Opening a session after a row of events.
pub open spec fn opened_all(o: Opening, events: Seq<OpenEvent>) -> Opening
    decreases events.len(),
{
    if events.len() == 0 {
        o
    } else {
        opened(opened_all(o, events.drop_last()), events.last())
    }
}

/// A session is made only where none was there, and an agent goes on record only with a
/// session that was made.
pub proof fn a_session_is_made_once(o: Opening, events: Seq<OpenEvent>)
    requires
        o.step == OpenStep::Ask,
        !o.created,
        !o.existing,
    ensures
        ({
            let now = opened_all(o, events);
            &&& !(now.created && now.existing)
            &&& (now.step == OpenStep::Launch ==> !now.existing && !now.created)
            &&& (now.step == OpenStep::Create ==> !now.existing && !now.created)
            &&& (now.step == OpenStep::AskAgain ==> !now.created)
            &&& (now.step == OpenStep::Record ==> now.created)
            &&& (now.step == OpenStep::Ask ==> !now.created && !now.existing)
        }),
    decreases events.len(),
{
    if events.len() > 0 {
        a_session_is_made_once(o, events.drop_last());
    }
}

/// How opening a session begins.
pub open spec fn opening(agent: Option<String>) -> Opening {
    Opening {
        agent,
        launched: None,
        record: None,
        step: OpenStep::Ask,
        existing: false,
        created: false,
        refused: None,
        error: None,
    }
}

/// The place of a step in the order in which steps come.
pub open spec fn opening_place(step: OpenStep) -> int {
    match step {
        OpenStep::Ask => 0,
        OpenStep::Launch => 1,
        OpenStep::Create => 2,
        OpenStep::AskAgain => 3,
        OpenStep::Record => 4,
        OpenStep::Done => 5,
        OpenStep::Failed => -1,
    }
}

/// Whether a step is called for.
pub open spec fn opening_calls_for(a: Opening, step: OpenStep) -> bool {
    match step {
        OpenStep::Launch | OpenStep::Create => !(a.existing && a.refused is None),
        OpenStep::AskAgain => a.refused is Some,
        OpenStep::Record => a.created && a.record is Some,
        _ => true,
    }
}

/// What holds at every step.
pub open spec fn opening_holds(a: Opening, agent: Option<String>) -> bool {
    &&& opening_calls_for(a, a.step)
    &&& a.error is None
    &&& (a.created <==> a.step == OpenStep::Record || (a.step == OpenStep::Done && !a.existing))
    &&& (a.existing ==> a.step == OpenStep::Done)
    &&& (a.refused is Some ==> a.step == OpenStep::AskAgain || (a.step == OpenStep::Done && a.existing))
    &&& (a.step == OpenStep::Ask ==> a.record is None)
    &&& (!a.created ==> a.agent == agent)
}

/// What an answer to a step is gone by.
pub open spec fn opening_goes_by(a: Opening, step: OpenStep, e: OpenEvent) -> bool {
    match step {
        OpenStep::Ask => e == OpenEvent::Exists(a.existing && a.refused is None),
        OpenStep::Launch => e matches OpenEvent::Chosen { agent, record } && a.record == record && (if a.created { a.agent == agent } else { a.launched == agent }),
        OpenStep::Create => match a.refused { Some(f) => e == OpenEvent::Failure(f), None => e is Finished },
        OpenStep::AskAgain => e == OpenEvent::Exists(true),
        _ => true,
    }
}

/// How it goes on.
pub open spec fn opening_next() -> spec_fn(Opening, OpenEvent) -> Opening {
    |a: Opening, e: OpenEvent| opened(a, e)
}

/// The step that it is at.
pub open spec fn opening_at() -> spec_fn(Opening) -> OpenStep {
    |a: Opening| a.step
}

/// What a step was answered with, where it was taken and left again.
pub open spec fn opening_given(agent: Option<String>, events: Seq<OpenEvent>, step: OpenStep) -> Option<OpenEvent> {
    course::answered(opening_next(), opening_at(), opening(agent), events, step)
}

proof fn lemma_opening_after(agent: Option<String>, events: Seq<OpenEvent>)
    ensures
        opened_all(opening(agent), events) == course::after(opening_next(), opening(agent), events),
    decreases events.len(),
{
    if events.len() > 0 {
        lemma_opening_after(agent, events.drop_last());
    }
}

#[verifier::spinoff_prover]
proof fn lemma_opening_step(a: Opening, agent: Option<String>, e: OpenEvent, k: OpenStep)
    requires
        !(a.step == OpenStep::Failed),
        opening_holds(a, agent),
        !(opened(a, e).step == OpenStep::Failed),
    ensures
        ({
            let b = opened(a, e);
            &&& opening_holds(b, agent)
            &&& b.step == a.step ==> b == a
            &&& b.step != a.step ==> {
                &&& opening_place(b.step) > opening_place(a.step)
                &&& opening_place(k) <= opening_place(a.step) ==> opening_calls_for(b, k) == opening_calls_for(a, k)
                &&& opening_place(a.step) < opening_place(k) < opening_place(b.step) ==> !opening_calls_for(b, k)
            }
        }),
{
}

#[verifier::spinoff_prover]
proof fn lemma_opening_told(a: Opening, agent: Option<String>, e: OpenEvent, k: OpenStep, e0: OpenEvent)
    requires
        !(a.step == OpenStep::Failed),
        opening_holds(a, agent),
        !(opened(a, e).step == OpenStep::Failed),
    ensures
        a.step == k && opened(a, e).step != k ==> opening_goes_by(opened(a, e), k, e),
        opening_place(a.step) > opening_place(k) && opening_goes_by(a, k, e0) ==> opening_goes_by(opened(a, e), k, e0),
{
}

/// Each step of opening a session is taken where it is called for, and nowhere else,
/// whatever the events: one that is there is taken as it is; else what is launched is
/// chosen and a session made; where that was refused it is asked for once more; and the
/// agent goes on record exactly where one was made and there is one to record. The agent
/// that is told of is the one that was launched where a session was made, and else the
/// one that was on record.
pub proof fn a_session_is_opened_by_all_that_is_called_for(agent: Option<String>, events: Seq<OpenEvent>, step: OpenStep)
    requires
        opening_place(opening(agent).step) <= opening_place(step),
    ensures
        ({
            let a = opened_all(opening(agent), events);
            !(a.step == OpenStep::Failed) ==> {
                &&& (match a.step {
                    OpenStep::Launch | OpenStep::Create => !(a.existing && a.refused is None),
                    OpenStep::AskAgain => a.refused is Some,
                    OpenStep::Record => a.created && a.record is Some,
                    _ => true,
                })
                &&& a.error is None
                &&& (a.created <==> a.step == OpenStep::Record || (a.step == OpenStep::Done && !a.existing))
                &&& (a.existing ==> a.step == OpenStep::Done)
                &&& (a.refused is Some ==> a.step == OpenStep::AskAgain || (a.step == OpenStep::Done && a.existing))
                &&& (a.step == OpenStep::Ask ==> a.record is None)
                &&& (!a.created ==> a.agent == agent)
                &&& opening_place(a.step) > opening_place(step) ==> (opening_given(agent, events, step) is Some
                    <==> (match step {
                            OpenStep::Launch | OpenStep::Create => !(a.existing && a.refused is None),
                            OpenStep::AskAgain => a.refused is Some,
                            OpenStep::Record => a.created && a.record is Some,
                            _ => true,
                        }))
                &&& opening_place(a.step) <= opening_place(step) ==> opening_given(agent, events, step) is None
                &&& opening_given(agent, events, step) matches Some(e) ==> (match step {
                    OpenStep::Ask => e == OpenEvent::Exists(a.existing && a.refused is None),
                    OpenStep::Launch => e matches OpenEvent::Chosen { agent, record } && a.record == record && (if a.created { a.agent == agent } else { a.launched == agent }),
                    OpenStep::Create => match a.refused { Some(f) => e == OpenEvent::Failure(f), None => e is Finished },
                    OpenStep::AskAgain => e == OpenEvent::Exists(true),
                    _ => true,
                })
            }
        }),
{
    lemma_opening_after(agent, events);
    let next = opening_next();
    let at = opening_at();
    let s = opening(agent);
    let places = |k: OpenStep| opening_place(k);
    let dead = |a: Opening| a.step == OpenStep::Failed;
    let inv = |a: Opening| opening_holds(a, agent);
    let called = |a: Opening, k: OpenStep| opening_calls_for(a, k);
    let past = |a: Opening| opening_place(a.step) > opening_place(step);
    let fact = |a: Opening, e: OpenEvent| opening_goes_by(a, step, e);
    assert forall|a: Opening, e: OpenEvent|
        inv(a) && !dead(a) && !dead(#[trigger] next(a, e)) implies inv(next(a, e)) by {
        lemma_opening_step(a, agent, e, step);
    }
    assert forall|a: Opening, e: OpenEvent|
        inv(a) && !dead(a) && called(a, at(a)) && !dead(#[trigger] next(a, e)) implies {
        let b = next(a, e);
        &&& inv(b)
        &&& at(b) == at(a) ==> b == a
        &&& at(b) != at(a) ==> {
            &&& places(at(b)) > places(at(a))
            &&& called(b, at(b))
            &&& places(step) <= places(at(a)) ==> called(b, step) == called(a, step)
            &&& places(at(a)) < places(step) < places(at(b)) ==> !called(b, step)
        }
    } by {
        lemma_opening_step(a, agent, e, step);
    }
    course::lemma_taken(next, at, places, dead, inv, called, s, events, step);
    assert forall|a: Opening, e: OpenEvent|
        inv(a) && !dead(a) && !dead(#[trigger] next(a, e)) && at(a) == step && at(next(a, e))
            != step implies past(next(a, e)) && fact(next(a, e), e) by {
        lemma_opening_step(a, agent, e, step);
        lemma_opening_told(a, agent, e, step, e);
    }
    assert forall|a: Opening, e: OpenEvent, e0: OpenEvent|
        #![trigger next(a, e), fact(a, e0)]
        inv(a) && !dead(a) && !dead(next(a, e)) && past(a) && fact(a, e0) implies past(next(a, e))
        && fact(next(a, e), e0) && at(a) != step by {
        lemma_opening_step(a, agent, e, step);
        lemma_opening_told(a, agent, e, step, e0);
    }
    course::lemma_told(next, at, dead, inv, past, fact, s, events, step);
}

/// Opening a session fails where a step failed, but for making it, or where it could not be
/// made and is not there either: with the error of that.
pub proof fn opening_fails_for_what_failed(o: Opening, event: OpenEvent)
    requires
        opening_place(o.step) >= 0,
        o.step != OpenStep::Done,
    ensures
        opened(o, event).step == OpenStep::Failed <==> (event is Failure && o.step
            != OpenStep::Create) || (o.step == OpenStep::AskAgain && event == OpenEvent::Exists(
            false,
        )),
        o.step != OpenStep::Create ==> (event matches OpenEvent::Failure(e) ==> opened(
            o,
            event,
        ).error == Some(e)),
        o.step == OpenStep::AskAgain && event == OpenEvent::Exists(false) ==> opened(o, event).error
            == o.refused,
{
}

/// The agent that was asked for is taken, and started anew; else the one on record, which is
/// resumed; else the one that is set; and none only where there is none of these.
pub proof fn which_agent_is_chosen(
    asked: Option<Seq<char>>,
    recorded: Option<Seq<char>>,
    set: Option<Seq<char>>,
)
    ensures
        agent_choice(asked, recorded, set) is None <==> asked is None && recorded is None && set
            is None,
        agent_choice(asked, recorded, set) matches Some((name, resume)) ==> {
            &&& resume <==> asked is None && recorded is Some
            &&& asked is Some ==> name == asked->0
            &&& resume ==> name == recorded->0
            &&& asked is None && recorded is None ==> name == set->0
        },
{
}

// ---------------------------------------------------------------------------
// Several sessions
// ---------------------------------------------------------------------------

/// An error, and the status that it would end a command with.
#[derive(Debug)]
pub struct Ranked {
    pub error: CoreError,
    pub exit: u8,
}

/// The place of the worst of some errors: the first of those with the largest status.
pub open spec fn worst_of(failures: Seq<Ranked>) -> Option<int>
    decreases failures.len(),
{
    if failures.len() == 0 {
        None
    } else {
        match worst_of(failures.drop_last()) {
            None => Some(failures.len() - 1),
            Some(i) => if failures.last().exit > failures[i].exit {
                Some(failures.len() - 1)
            } else {
                Some(i)
            },
        }
    }
}

/// The place of the worst of some errors.
pub fn worst(failures: &Vec<Ranked>) -> (r: Option<usize>)
    ensures
        match r {
            Some(i) => Some(i as int),
            None => None,
        } == worst_of(failures@),
        r matches Some(i) ==> i < failures@.len(),
        r is None ==> failures@.len() == 0,
{
    let mut best: Option<usize> = None;
    let mut i: usize = 0;
    while i < failures.len()
        invariant
            i <= failures.len(),
            match best {
                Some(k) => Some(k as int),
                None => None,
            } == worst_of(failures@.take(i as int)),
            best matches Some(k) ==> k < i,
            best is None ==> i == 0,
        decreases failures.len() - i,
    {
        proof {
            assert(failures@.take(i + 1).drop_last() =~= failures@.take(i as int));
        }
        match best {
            None => {
                best = Some(i);
            },
            Some(k) => {
                if failures[i].exit > failures[k].exit {
                    best = Some(i);
                }
            },
        }
        i = i + 1;
    }
    proof {
        assert(failures@.take(failures@.len() as int) =~= failures@);
    }
    best
}

/// No error is worse than the one that is handed on, and none before it is as bad.
pub proof fn the_worst_error_is_told(failures: Seq<Ranked>, k: int)
    requires
        0 <= k < failures.len(),
    ensures
        worst_of(failures) matches Some(i) && 0 <= i < failures.len() && failures[k].exit
            <= failures[i].exit && (k < i ==> failures[k].exit < failures[i].exit),
    decreases failures.len(),
{
    let rest = failures.drop_last();
    if rest.len() > 0 {
        let at = if k < rest.len() {
            k
        } else {
            0
        };
        the_worst_error_is_told(rest, at);
        let i = worst_of(rest)->0;
        the_worst_error_is_told(rest, i);
        assert(rest[i] == failures[i]);
        assert(rest[at] == failures[at]);
    }
}

/// What is said of a session that failed among others.
pub fn failed_notice(target: &str, e: &CoreError) -> (r: Notice)
    ensures
        r@ == output::about(
            NoticeLevel::Warn,
            e@.code,
            target@,
            e@.message + "; remedy: "@ + e@.remedy,
        ),
{
    let message = e.message.clone().concat("; remedy: ").concat(e.remedy.as_str());
    output::notice(NoticeLevel::Warn, e.code.as_str(), target, message.as_str())
}

/// What is said of a session that was not made for a new tree.
pub fn session_failure_notice(target: &str, e: &CoreError) -> (r: Notice)
    ensures
        r@ == output::about(
            NoticeLevel::Warn,
            "SESSION_CREATE_FAILED"@,
            target@,
            "session for "@ + target@ + " was not created: "@ + e@.message + "; run `wt open "@
                + target@ + "` to retry"@,
        ),
{
    let message = "session for ".to_owned().concat(target).concat(" was not created: ").concat(
        e.message.as_str(),
    ).concat("; run `wt open ").concat(target).concat("` to retry");
    output::notice(NoticeLevel::Warn, "SESSION_CREATE_FAILED", target, message.as_str())
}

/// What is said where sessions are off and nothing was closed.
pub fn sessions_disabled() -> (r: Notice)
    ensures
        r@ == (output::Said {
            level: NoticeLevel::Info,
            code: "SESSIONS_DISABLED"@,
            subject: None,
            message: "sessions are disabled; nothing was closed"@,
        }),
{
    Notice {
        level: NoticeLevel::Info,
        code: "SESSIONS_DISABLED".to_owned(),
        subject: None,
        message: "sessions are disabled; nothing was closed".to_owned(),
    }
}

/// Puts the agent of a tree on record. Where the tree is gone, nothing is.
pub fn record_agent(registry: &mut Registry, tree_id: &str, agent: &str)
    ensures
        final(registry).labels == old(registry).labels,
        final(registry).tombstones == old(registry).tombstones,
        match git::first_true(register::identified(old(registry).trees@, tree_id@), 0) {
            None => final(registry).trees@ == old(registry).trees@,
            Some(i) => {
                &&& final(registry).trees@.len() == old(registry).trees@.len()
                &&& forall|k: int|
                    0 <= k < old(registry).trees@.len() && k != i ==> #[trigger] final(registry).trees@[k] == old(registry).trees@[k]
                &&& text::opt(final(registry).trees@[i].agent) == Some(agent@)
                &&& final(registry).trees@[i] == (TreeRec {
                    agent: final(registry).trees@[i].agent,
                    ..old(registry).trees@[i]
                })
            },
        },
{
    if let Some(i) = register::identity_at(&registry.trees, tree_id) {
        registry.trees[i].agent = Some(agent.to_owned());
    }
}

/// What closing the session of a tree does next.
#[derive(Clone, Copy, Debug, PartialEq, Eq, Structural)]
pub enum CloseMove {
    /// Ask whether it is there.
    Ask,
    /// End it.
    Kill,
    /// Report whether one was closed.
    Report(bool),
}

/// Decides how to close the session of a tree: where sessions are off nothing is asked,
/// and only a session that is there is ended.
pub fn close_move(backend: SessionBackend, exists: Option<bool>, killed: bool) -> (r: CloseMove)
    ensures
        r == if backend == SessionBackend::Off {
            CloseMove::Report(false)
        } else {
            match exists {
                None => CloseMove::Ask,
                Some(false) => CloseMove::Report(false),
                Some(true) => if killed {
                    CloseMove::Report(true)
                } else {
                    CloseMove::Kill
                },
            }
        },
{
    if backend == SessionBackend::Off {
        return CloseMove::Report(false);
    }
    match exists {
        None => CloseMove::Ask,
        Some(there) => if !there {
            CloseMove::Report(false)
        } else if killed {
            CloseMove::Report(true)
        } else {
            CloseMove::Kill
        },
    }
}

/// What became of one session among several.
#[derive(Debug)]
pub enum SessionResult {
    Open { target: String },
    Failed { target: String, name: String, code: String, message: String, remedy: String },
}

/// What is known of what became of a session.
pub enum SessionTold {
    Open { target: Seq<char> },
    Failed {
        target: Seq<char>,
        name: Seq<char>,
        code: Seq<char>,
        message: Seq<char>,
        remedy: Seq<char>,
    },
}

impl View for SessionResult {
    type V = SessionTold;

    open spec fn view(&self) -> SessionTold {
        match self {
            SessionResult::Open { target } => SessionTold::Open { target: target@ },
            SessionResult::Failed { target, name, code, message, remedy } => SessionTold::Failed {
                target: target@,
                name: name@,
                code: code@,
                message: message@,
                remedy: remedy@,
            },
        }
    }
}

/// What is known of what became of sessions.
pub open spec fn results_told(results: Seq<SessionResult>) -> Seq<SessionTold> {
    results.map_values(|r: SessionResult| r@)
}

/// Sessions that are opened one after another. Where failures are contained, one that
/// cannot be opened does not keep the others from it.
#[derive(Debug)]
pub struct Batch {
    pub contains_failures: bool,
    pub sessions: Vec<SessionResult>,
    pub notices: Vec<Notice>,
    pub failures: Vec<Ranked>,
}

impl Batch {
    /// Begins with no session.
    pub fn new(contains_failures: bool) -> (r: Self)
        ensures
            r.contains_failures == contains_failures,
            results_told(r.sessions@) == Seq::<SessionTold>::empty(),
            output::said(r.notices@) == Seq::<output::Said>::empty(),
            r.failures@ == Seq::<Ranked>::empty(),
    {
        let r = Batch {
            contains_failures,
            sessions: Vec::new(),
            notices: Vec::new(),
            failures: Vec::new(),
        };
        proof {
            assert(results_told(r.sessions@) =~= Seq::<SessionTold>::empty());
            assert(output::said(r.notices@) =~= Seq::<output::Said>::empty());
        }
        r
    }

    /// Takes a session that was opened, and what was said of it.
    pub fn opened(&mut self, target: &str, notices: Vec<Notice>)
        ensures
            final(self).contains_failures == old(self).contains_failures,
            results_told(final(self).sessions@) == results_told(old(self).sessions@).push(
                SessionTold::Open { target: target@ },
            ),
            output::said(final(self).notices@) == output::said(old(self).notices@) + output::said(
                notices@,
            ),
            final(self).failures@ == old(self).failures@,
    {
        let ghost before = self.notices@;
        let ghost first = self.sessions@;
        let ghost told = notices@;
        let mut notices = notices;
        self.notices.append(&mut notices);
        self.sessions.push(SessionResult::Open { target: target.to_owned() });
        proof {
            assert(output::said(self.notices@) =~= output::said(before) + output::said(told));
            assert(results_told(self.sessions@) =~= results_told(first).push(
                SessionTold::Open { target: target@ },
            ));
        }
    }

    /// Takes a session that could not be opened, and the status that its error would end
    /// a command with. Where failures are contained it is reported among the others;
    /// else the error is handed back, and ends the whole.
    pub fn failed(&mut self, target: &str, name: &str, e: CoreError, exit: u8) -> (r: Result<
        (),
        CoreError,
    >)
        ensures
            final(self).contains_failures == old(self).contains_failures,
            if old(self).contains_failures {
                &&& r is Ok
                &&& results_told(final(self).sessions@) == results_told(old(self).sessions@).push(
                    SessionTold::Failed {
                        target: target@,
                        name: name@,
                        code: e@.code,
                        message: e@.message,
                        remedy: e@.remedy,
                    },
                )
                &&& output::said(final(self).notices@) == output::said(old(self).notices@).push(
                    output::about(
                        NoticeLevel::Warn,
                        e@.code,
                        target@,
                        e@.message + "; remedy: "@ + e@.remedy,
                    ),
                )
                &&& final(self).failures@ == old(self).failures@.push(Ranked { error: e, exit })
            } else {
                &&& r == Err::<(), CoreError>(e)
                &&& *final(self) == *old(self)
            },
    {
        if !self.contains_failures {
            return Err(e);
        }
        let ghost before = self.notices@;
        let ghost first = self.sessions@;
        let notice = failed_notice(target, &e);
        self.notices.push(notice);
        let report = SessionResult::Failed {
            target: target.to_owned(),
            name: name.to_owned(),
            code: e.code.clone(),
            message: e.message.clone(),
            remedy: e.remedy.clone(),
        };
        let ghost told = report@;
        self.sessions.push(report);
        self.failures.push(Ranked { error: e, exit });
        proof {
            assert(output::said(self.notices@) =~= output::said(before).push(notice@));
            assert(results_told(self.sessions@) =~= results_told(first).push(told));
        }
        Ok(())
    }

    /// The place of the error that the whole ends with, where any session failed: the
    /// worst of all.
    pub fn failure(&self) -> (r: Option<usize>)
        ensures
            match r {
                Some(i) => Some(i as int),
                None => None,
            } == worst_of(self.failures@),
    {
        worst(&self.failures)
    }
}

// ---------------------------------------------------------------------------
// Builds in the background
// ---------------------------------------------------------------------------

/// The command of a build in a window of a session.
pub fn build_command(binary: &str, target: &str) -> (r: Vec<String>)
    ensures
        text::texts(r@) == seq![
            binary@,
            "exec"@,
            "--no-gate"@,
            target@,
            "--"@,
            binary@,
            "build"@,
            target@,
        ],
{
    let args = Args::none().and(binary).and("exec").and("--no-gate").and(target).and("--").and(
        binary,
    ).and("build").and(target);
    proof {
        assert(args@ =~= seq![
            binary@,
            "exec"@,
            "--no-gate"@,
            target@,
            "--"@,
            binary@,
            "build"@,
            target@,
        ]);
    }
    args.list
}

/// A build in the background that failed.
pub fn background_failed(output: &ProcessOutput, log: &str) -> (r: Option<CoreError>)
    requires
        output.child.valid(),
    ensures
        r is None == output.succeeded(),
        r matches Some(e) ==> e@ == error::fault(
            ExitClass::ChildFailed,
            "TASK_FAILED"@,
            "background build exited "@ + text::signed_decimal(output.child.mapped()),
            "inspect "@ + log@,
        ),
{
    if output.success() {
        return None;
    }
    let exit: i32 = output.mapped_exit();
    let message = "background build exited ".to_owned().concat(
        text::signed_decimal_of(exit as i64).as_str(),
    );
    let remedy = "inspect ".to_owned().concat(log);
    Some(
        CoreError::new(
            ExitClass::ChildFailed,
            "TASK_FAILED",
            message.as_str(),
            remedy.as_str(),
        ),
    )
}

} // verus!
