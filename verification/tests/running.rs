use wt::anchor::{
    anchor_busy, build_failed, build_plan, build_word, fetch_failed, fetches, is_cold,
    refresh_args, start_failed, starts_refresh, unregistered, BuildPlan, MoveEvent, MoveStep,
    Moving, NICE,
};
use wt::assoc::Assoc;
use wt::context::{Coordinates, Registry};
use wt::doctor::Geometry;
use wt::error::{CoreError, ExitClass};
use wt::register::canonical_record;
use wt::executor::{
    child_failed, dry_run, effect_child, effect_of, git_lock_wait, log_path, logs_kept, named_lock_path,
    newest_resources_first, orphaned_effect, persist, probe_timeout, record_missing,
    refresh_skipped, repo_lock_path, require_cwd, require_tied, resource_key, resource_lock_path,
    resource_lock_wait, resource_status, scoped_id, skips_refresh, step_notices, task_move,
    declare, task_result, task_status, task_timeout, tee, trusts_record, EffectResult, NodeEvent,
    NodeRun, NodeShape, NodeStep, PlanNode, PlanRun, Recipes, Recorded, RefreshEvent, RefreshStep,
    Refreshing, Site,
    ResourceEvent, ResourceRun, ResourceStep, StepReport, TaskMove,
};
use wt::model::{ProbeFound, ResourceState};
use wt::open::{
    attachment_allowed, background_failed, build_command, capture_path, command_argv,
    current_exe_failed, failed_notice, launch_command, require_tmux_backend, session_command,
    session_failure_notice, sessions_disabled, should_attach, switches, tmux_timeout, worst, Agent,
    close_move, record_agent, Batch, CloseMove, OpenEvent, OpenStep, Opening, Ranked, SessionBackend,
    SessionResult,
};
use wt::output::exit_of;
use wt::proc::{ChildStatus, ExpandedCommand, ProcessOutput, Tee};
use wt::snapshot::{TiedTo, Tty};

fn broken(code: &str) -> CoreError {
    CoreError::new(ExitClass::State, code, "it broke", "mend it")
}

fn output(code: i32, timed_out: bool) -> ProcessOutput {
    ProcessOutput {
        pid: 1,
        child: ChildStatus { code: Some(code), signal: None },
        stdout: vec![],
        stderr: vec![],
        timed_out,
    }
}

fn map(pairs: &[(&str, &str)]) -> Assoc<String> {
    let mut out = Assoc::new();
    for (key, value) in pairs {
        out.put(key, value.to_string());
    }
    out
}

#[test]
fn attachment_requires_a_terminal_on_input_and_output() {
    let terminal = Tty { stdin: true, stdout: true, stderr: true };
    assert!(attachment_allowed(SessionBackend::Tmux, true, terminal, false, false, false));
    assert!(!attachment_allowed(
        SessionBackend::Tmux,
        true,
        Tty { stdin: false, ..terminal },
        false,
        false,
        false
    ));
    assert!(!attachment_allowed(
        SessionBackend::Tmux,
        true,
        Tty { stdout: false, ..terminal },
        false,
        false,
        false
    ));
}

#[test]
fn nothing_is_attached_inside_a_tree_or_without_tmux() {
    let terminal = Tty { stdin: true, stdout: true, stderr: false };
    let env = map(&[]);
    let inside = map(&[("WT_ACTIVATION", "x")]);
    assert!(should_attach(SessionBackend::Tmux, true, terminal, false, &env, false));
    assert!(!should_attach(SessionBackend::Tmux, true, terminal, false, &inside, false));
    assert!(!should_attach(SessionBackend::Off, true, terminal, false, &env, false));
    assert!(!should_attach(SessionBackend::Tmux, true, terminal, true, &env, false));
    assert!(!should_attach(SessionBackend::Tmux, true, terminal, false, &env, true));
    assert!(switches(&map(&[("TMUX", "s")])));
    assert!(!switches(&env));
    assert!(require_tmux_backend(SessionBackend::Tmux).is_ok());
    assert_eq!(
        require_tmux_backend(SessionBackend::Off).unwrap_err().code,
        "SESSION_DISABLED"
    );
    assert_eq!(tmux_timeout(None), 10000);
    assert_eq!(tmux_timeout(Some(5)), 5);
}

fn argv(words: &[&str]) -> ExpandedCommand {
    ExpandedCommand::Argv { argv: words.iter().map(|w| w.to_string()).collect() }
}

#[test]
fn sessions_start_the_agent_that_was_chosen() {
    let mut agents = Assoc::new();
    agents.put("a", Agent { start: argv(&["a"]), resume: argv(&["a", "--resume"]) });
    agents.put(
        "b",
        Agent { start: ExpandedCommand::Shell { shell: "b".into() }, resume: argv(&["b2"]) },
    );
    let shell = || vec!["/bin/sh".to_string()];
    let b = Some("b".to_string());
    let a = Some("a".to_string());
    let l = launch_command(&agents, &b, &a, &None, shell()).unwrap();
    assert_eq!(l.argv, vec!["sh", "-c", "b"]);
    assert_eq!(l.record_agent.as_deref(), Some("b"));
    let l = launch_command(&agents, &None, &a, &b, shell()).unwrap();
    assert_eq!(l.argv, vec!["a", "--resume"]);
    assert_eq!((l.agent.as_deref(), l.record_agent), (Some("a"), None));
    let l = launch_command(&agents, &None, &None, &a, shell()).unwrap();
    assert_eq!(l.argv, vec!["a"]);
    let l = launch_command(&agents, &None, &None, &None, shell()).unwrap();
    assert_eq!((l.argv, l.agent), (shell(), None));
    let e = launch_command(&agents, &Some("z".into()), &None, &None, shell()).unwrap_err();
    assert_eq!(e.message, "agent `z` is not configured");
    assert_eq!(command_argv(&argv(&["x", "y"])), vec!["x", "y"]);
}

#[test]
fn sessions_run_this_program_without_its_gate() {
    assert_eq!(
        session_command("/bin/wt", "repo/x", &vec!["sh".into()]),
        vec!["/bin/wt", "exec", "--no-gate", "repo/x", "--", "sh"]
    );
    assert_eq!(
        build_command("/bin/wt", "repo/x"),
        vec!["/bin/wt", "exec", "--no-gate", "repo/x", "--", "/bin/wt", "build", "repo/x"]
    );
    assert_eq!(capture_path("/h", "s", 12), "/h/tmp/session-s-12.log");
    assert_eq!(
        current_exe_failed("gone").message,
        "could not resolve the running wt binary: gone"
    );
}

#[test]
fn a_session_that_someone_else_made_is_taken() {
    let chosen = || OpenEvent::Chosen { agent: Some("new".into()), record: Some("new".into()) };
    let mut o = Opening::new(Some("old".into()));
    o.advance(OpenEvent::Exists(false));
    assert_eq!(o.step, OpenStep::Launch);
    o.advance(chosen());
    assert_eq!(o.step, OpenStep::Create);
    o.advance(OpenEvent::Failure(broken("TMUX_FAILED")));
    assert_eq!(o.step, OpenStep::AskAgain);
    o.advance(OpenEvent::Exists(true));
    assert_eq!(o.step, OpenStep::Done);
    assert!(o.existing && !o.created && o.error.is_none());
    assert_eq!(o.agent.as_deref(), Some("old"));

    let mut o = Opening::new(None);
    o.advance(OpenEvent::Exists(false));
    o.advance(OpenEvent::Failure(broken("AGENT_UNKNOWN")));
    assert_eq!(o.step, OpenStep::Failed);
    assert_eq!(o.error.unwrap().code, "AGENT_UNKNOWN");

    let mut o = Opening::new(None);
    o.advance(OpenEvent::Exists(false));
    o.advance(chosen());
    o.advance(OpenEvent::Failure(broken("TMUX_FAILED")));
    o.advance(OpenEvent::Exists(false));
    assert_eq!(o.error.unwrap().code, "TMUX_FAILED");

    let mut o = Opening::new(Some("old".into()));
    o.advance(OpenEvent::Exists(false));
    o.advance(chosen());
    o.advance(OpenEvent::Finished);
    assert_eq!(o.step, OpenStep::Record);
    o.advance(OpenEvent::Finished);
    assert!(o.step == OpenStep::Done && o.created);
    assert_eq!(o.agent.as_deref(), Some("new"));

    let mut o = Opening::new(None);
    o.advance(OpenEvent::Exists(false));
    o.advance(OpenEvent::Chosen { agent: None, record: None });
    o.advance(OpenEvent::Finished);
    assert!(o.step == OpenStep::Done && o.created && o.agent.is_none());

    let mut o = Opening::new(None);
    o.advance(OpenEvent::Exists(true));
    assert!(o.step == OpenStep::Done && o.existing);
}

#[test]
fn the_first_of_the_worst_errors_is_handed_on() {
    let ranked = |exit: u8| Ranked { error: broken("X"), exit };
    assert_eq!(worst(&vec![]), None);
    assert_eq!(worst(&vec![ranked(2), ranked(5), ranked(5), ranked(1)]), Some(1));
}

#[test]
fn sessions_that_fail_are_told_of() {
    let e = broken("TMUX_FAILED");
    let n = failed_notice("repo/x", &e);
    assert_eq!((n.code.as_str(), n.message.as_str()), ("TMUX_FAILED", "it broke; remedy: mend it"));
    assert_eq!(
        session_failure_notice("repo/x", &e).message,
        "session for repo/x was not created: it broke; run `wt open repo/x` to retry"
    );
    assert_eq!(sessions_disabled().subject, None);
    assert!(background_failed(&output(0, false), "/log").is_none());
    let e = background_failed(&output(3, false), "/log").unwrap();
    assert_eq!((e.message.as_str(), e.remedy.as_str()), ("background build exited 3", "inspect /log"));
}

fn moving(owned: bool, events: Vec<MoveEvent>) -> Moving {
    let mut m = Moving::new("repo".into(), "main".into(), owned);
    for event in events {
        m.advance(event);
    }
    m
}

fn found(s: &str) -> MoveEvent {
    MoveEvent::Found(Some(s.into()))
}

#[test]
fn a_users_checkout_is_fast_forwarded_where_that_is_safe() {
    let m = moving(
        false,
        vec![
            MoveEvent::Answer(true),
            found("main"),
            found("aaa"),
            found("bbb"),
            MoveEvent::Answer(true),
            MoveEvent::Answer(false),
        ],
    );
    assert_eq!(m.step, MoveStep::Merge);
    assert!(m.on_default && m.behind && m.clean);
    let mut m = m;
    m.advance(MoveEvent::Answer(true));
    assert!(m.moved && m.step == MoveStep::Done);
    assert_eq!((m.from.as_str(), m.to.as_str()), ("aaa", "bbb"));
}

#[test]
fn a_checkout_stays_where_moving_it_would_lose_something() {
    let off = moving(false, vec![MoveEvent::Answer(true), found("topic")]);
    assert_eq!(off.notices[0].code, "ANCHOR_OFF_DEFAULT");
    assert_eq!(
        off.notices[0].message,
        "the canonical has topic checked out, not main; it was not moved"
    );
    let diverged = moving(
        false,
        vec![
            MoveEvent::Answer(true),
            found("main"),
            found("aaa"),
            found("bbb"),
            MoveEvent::Answer(false),
        ],
    );
    assert_eq!(diverged.notices[0].code, "ANCHOR_DIVERGED");
    let dirty = moving(
        false,
        vec![
            MoveEvent::Answer(true),
            found("main"),
            found("aaa"),
            found("bbb"),
            MoveEvent::Answer(true),
            MoveEvent::Answer(true),
        ],
    );
    assert_eq!(dirty.notices[0].code, "ANCHOR_DIRTY");
    assert!(!off.moved && !diverged.moved && !dirty.moved);
    let none = moving(false, vec![MoveEvent::Answer(false)]);
    assert!(none.step == MoveStep::Done && none.notices.is_empty());
    let same = moving(
        false,
        vec![MoveEvent::Answer(true), found("main"), found("aaa"), found("aaa")],
    );
    assert!(same.step == MoveStep::Done && !same.moved);
    let failed = moving(false, vec![MoveEvent::Failure(broken("GIT"))]);
    assert_eq!(failed.error.unwrap().code, "GIT");
}

#[test]
fn an_owned_checkout_moves_its_branch_and_is_detached() {
    let mut m = moving(
        true,
        vec![
            MoveEvent::Answer(true),
            found("bbb"),
            found("aaa"),
            MoveEvent::Answer(true),
            MoveEvent::Found(None),
        ],
    );
    assert_eq!(m.step, MoveStep::UpdateRef);
    m.advance(MoveEvent::Finished);
    m.advance(found("aaa"));
    m.advance(MoveEvent::Answer(false));
    assert_eq!(m.step, MoveStep::Detach);
    m.advance(MoveEvent::Answer(false));
    assert_eq!(m.notices[0].code, "ANCHOR_NOT_MOVED");
    let held = moving(
        true,
        vec![
            MoveEvent::Answer(true),
            found("bbb"),
            found("aaa"),
            MoveEvent::Answer(true),
            found("/elsewhere"),
        ],
    );
    assert_eq!(
        held.notices[0].message,
        "main is checked out in a worktree, so the ref was not moved"
    );
}

#[test]
fn refreshes_are_started_and_told_of() {
    assert_eq!(NICE, 10);
    assert_eq!(unregistered("x").message, "label `x` is not registered");
    assert_eq!(anchor_busy("repo", broken("LOCK_HELD")).unwrap().code, "ANCHOR_BUSY");
    assert_eq!(anchor_busy("repo", broken("OTHER")).unwrap_err().code, "OTHER");
    assert!(fetches(false, true) && !fetches(true, true) && !fetches(false, false));
    assert_eq!(
        fetch_failed("repo", "main", "no net").message,
        "origin/main was not fetched: no net; building what is here"
    );
    assert_eq!(build_plan(false, true), BuildPlan::Absent);
    assert_eq!(build_plan(true, true), BuildPlan::Fresh);
    assert_eq!(build_plan(true, false), BuildPlan::Build);
    assert_eq!(build_word(BuildPlan::Absent, true), "none");
    assert_eq!(build_word(BuildPlan::Build, false), "failed");
    assert_eq!(build_word(BuildPlan::Build, true), "ok");
    assert_eq!(build_word(BuildPlan::Fresh, false), "fresh");
    assert_eq!(build_failed("repo", &broken("X")).message, "it broke; remedy: mend it");
    assert!(is_cold(true, true, Some(false)));
    assert!(!is_cold(true, true, None) && !is_cold(true, true, Some(true)));
    assert!(starts_refresh(false, true, true, false));
    assert!(!starts_refresh(true, true, true, false));
    assert_eq!(refresh_args("repo", true), vec!["anchor", "repo"]);
    assert_eq!(refresh_args("repo", false), vec!["anchor", "repo", "--no-fetch"]);
    assert!(start_failed("repo", "no fork").message.contains("run `wt anchor repo` by hand"));
}

#[test]
fn resources_are_known_by_their_keys() {
    let k = resource_key("repo", "x", TiedTo::Tree, "web", "db");
    assert_eq!(k.name.as_deref(), Some("x"));
    assert_eq!(
        resource_lock_path("/h", &k, "web"),
        "/h/locks/repo/res/tree/x/web/db.lock"
    );
    let k = resource_key("repo", "x", TiedTo::Repo, ".", "db");
    assert_eq!(k.name, None);
    assert_eq!(resource_lock_path("/h", &k, "root"), "/h/locks/repo/res/repo/root/db.lock");
    assert_eq!(scoped_id(".", "db"), "db");
    assert_eq!(scoped_id("web", "db"), "web/db");
    assert_eq!(named_lock_path("/h", "repo", "gpu"), "/h/locks/repo/named/gpu.lock");
    assert_eq!(repo_lock_path("/h", "repo"), "/h/locks/repo/_repo.rmw.lock");
    assert_eq!(require_tied("db", Some(TiedTo::Repo)).unwrap(), TiedTo::Repo);
    assert_eq!(require_tied("db", None).unwrap_err().message, "resource db has no tied_to");
}

#[test]
fn logs_are_named_by_task_and_time() {
    assert_eq!(
        log_path("/t", "root", "web/dev", "2024-01-02T03:04:05.678Z", false).unwrap(),
        "/t/.wt/logs/root-web_dev-2024-01-02T03-04-05-678Z.log"
    );
    assert_eq!(log_path("/t", "root", "dev", "s", true), None);
    assert_eq!(logs_kept(0), 0);
    assert_eq!(logs_kept(10), 9);
}

#[test]
fn waits_fall_back_in_order() {
    assert_eq!(git_lock_wait(None, None), 60000);
    assert_eq!(git_lock_wait(Some(Some(5)), Some(Some(7))), 5);
    assert_eq!(git_lock_wait(None, Some(Some(7))), 7);
    assert_eq!(git_lock_wait(Some(None), Some(Some(7))), 60000);
    assert_eq!(resource_lock_wait(None, None), 120000);
    assert_eq!(probe_timeout(None, None), 10000);
    assert_eq!(task_timeout(None, None, None), None);
    assert_eq!(task_timeout(None, Some(Some(3)), Some(Some(4))), Some(3));
    assert_eq!(task_timeout(Some(None), Some(Some(3)), None), None);
    assert_eq!(tee(true), Tee::Stderr);
    assert_eq!(tee(false), Tee::Inherit);
}

#[test]
fn tasks_run_where_nothing_is_there_yet() {
    assert!(require_cwd("/d", true).is_ok());
    assert_eq!(require_cwd("/d", false).unwrap_err().message, "task cwd /d is missing");
    assert_eq!(task_move("t", Some(ProbeFound::Present), true).unwrap(), TaskMove::Present);
    assert_eq!(task_move("t", Some(ProbeFound::Absent), true).unwrap(), TaskMove::Run);
    assert_eq!(task_move("t", None, false).unwrap(), TaskMove::Skip);
    assert_eq!(
        task_move("t", Some(ProbeFound::Failed), true).unwrap_err().code,
        "TASK_PROBE_FAILED"
    );
    assert_eq!(task_status(TaskMove::Skip), "skipped");
    assert_eq!(task_status(TaskMove::Present), "present");
    assert_eq!(task_status(TaskMove::Run), "ok");
    assert_eq!(task_result("t", &output(0, false)).unwrap().code, Some(0));
    let e = task_result("t", &output(2, false)).unwrap_err();
    assert_eq!((e.code.as_str(), e.message.as_str()), ("TASK_FAILED", "task `t` exited 2"));
    let e = child_failed("TASK_FAILED", "t", &output(1, true));
    assert_eq!((e.code.as_str(), e.class), ("TIMEOUT", ExitClass::Timeout));
    let e = child_failed("TASK_FAILED", "t", &output(3, false));
    assert_eq!(exit_of("run", false, &e, 8), 3);
    assert_eq!(exit_of("sync", false, &e, 8), 8);
}

#[test]
fn a_plan_is_shown_in_its_order() {
    let node = |id: &str, tied_to| PlanNode {
        id: id.into(),
        scope: ".".into(),
        origin: "Adapter".into(),
        cwd: "web".into(),
        run: Some("make"),
        exists: None::<u8>,
        lock: Some("l".into()),
        sys_locks: vec!["s".into()],
        resource: id == "b",
        tied_to,
    };
    let shown = dry_run(vec![
        node("a", None),
        node("b", Some(TiedTo::Tree)),
        node("c", Some(TiedTo::Repo)),
    ]);
    let ids: Vec<&str> = shown.iter().map(|step| step.id.as_str()).collect();
    assert_eq!(ids, ["a", "b", "c"]);
    let tied: Vec<Option<&str>> = shown.iter().map(|step| step.tied_to.as_deref()).collect();
    assert_eq!(tied, [None, Some("tree"), Some("repo")]);
    assert_eq!((shown[0].origin.as_str(), shown[0].run, shown[0].exists), ("adapter", Some("make"), None));
    assert!(shown[1].resource && !shown[2].resource);
    assert_eq!((shown[2].lock.as_deref(), shown[2].cwd.as_str()), (Some("l"), "web"));
    assert_eq!(shown[2].sys_locks, ["s"]);
}

#[test]
fn a_run_keeps_its_last_child_and_log() {
    let step = |id: &str, code: Option<i32>| StepReport {
        id: id.into(),
        scope: ".".into(),
        status: "ok".into(),
        child: code.map(|c| ChildStatus { code: Some(c), signal: None }),
        duration_ms: 1,
    };
    let mut run = PlanRun::new("sync".into(), 2);
    assert!(run.in_sync());
    run.took(step("a", Some(0)), Some("/log".into()), vec![]);
    assert!(run.in_sync());
    run.took(step("b", None), None, vec![]);
    assert!(!run.in_sync());
    assert_eq!(run.child.unwrap().code, Some(0));
    assert_eq!(run.log.as_deref(), Some("/log"));
    assert_eq!(run.steps.len(), 2);
    assert!(!PlanRun::new("build".into(), 2).in_sync());
}

#[test]
fn effects_tell_what_a_recipe_came_to() {
    assert!(matches!(effect_of(&output(0, false)), EffectResult::Carried { child: Some(_) }));
    let failed = effect_of(&output(4, true));
    match &failed {
        EffectResult::Failed { message, reason, .. } => {
            assert_eq!((message.as_str(), reason.as_str()), ("child exited 4", "timeout"));
        },
        EffectResult::Carried { .. } => panic!("it failed"),
    }
    assert_eq!(effect_child(&failed).unwrap().code, Some(4));
    assert!(effect_child(&orphaned_effect("gone".into(), "do".into())).is_none());
    assert_eq!(resource_status(None), "dropped");
    assert_eq!(resource_status(Some(ResourceState::Declared)), "declared");
    let said = step_notices(
        &vec!["RESOURCE_DECLARED_EXTERNAL".into(), "OTHER".into()],
        "db",
    );
    assert_eq!(said[0].message, "declared; created by the application");
    assert_eq!(said[1].message, "resource transition reported OTHER");
    assert_eq!(record_missing("db").message, "resource db has no declaration record");
    assert!(skips_refresh("ENV_UNDEFINED") && !skips_refresh("X"));
    assert_eq!(refresh_skipped(".", "db"), "REFRESH_SKIPPED:.:db");
    assert!(trusts_record(ResourceState::Present) && trusts_record(ResourceState::Orphaned));
    assert!(!trusts_record(ResourceState::Declared));
}

#[test]
fn records_of_resources_are_kept_and_dropped() {
    let mut records: Assoc<u32> = Assoc::new();
    persist(&mut records, "web", "db", Some(1));
    persist(&mut records, ".", "db", Some(2));
    assert_eq!(records.get("web/db"), Some(&1));
    persist(&mut records, "web", "db", None);
    assert_eq!(records.get("web/db"), None);
    assert_eq!(records.get("db"), Some(&2));
}

#[test]
fn the_newest_resources_are_destroyed_first() {
    let one = |at: &str, task: &str| Recorded {
        recorded_at: at.into(),
        scope: ".".into(),
        task: task.into(),
    };
    let list = newest_resources_first(vec![one("1", "a"), one("3", "b"), one("3", "c"), one("2", "d")]);
    let tasks: Vec<&str> = list.iter().map(|r| r.task.as_str()).collect();
    assert_eq!(tasks, vec!["c", "b", "d", "a"]);
}

#[test]
fn nothing_is_done_to_a_resource_before_it_is_on_record() {
    let mut r = ResourceRun::new(false);
    r.advance(ResourceEvent::Finished);
    assert_eq!(r.step, ResourceStep::Decide);
    r.advance(ResourceEvent::Decided { acts: true, error: None });
    assert_eq!(r.step, ResourceStep::Persist);
    assert!(!r.recorded);
    r.advance(ResourceEvent::Finished);
    assert!(r.step == ResourceStep::Act && r.recorded);
    r.advance(ResourceEvent::Finished);
    r.advance(ResourceEvent::Finished);
    assert_eq!(r.step, ResourceStep::Conclude);
    r.advance(ResourceEvent::Decided { acts: false, error: Some(broken("ORPHANED")) });
    r.advance(ResourceEvent::Finished);
    assert_eq!(r.step, ResourceStep::Failed);
    assert_eq!(r.error.unwrap().code, "ORPHANED");
}

#[test]
fn a_run_that_something_is_wrong_with_fails_and_a_destruction_goes_on() {
    let decided = |destroys: bool, acts: bool| {
        let mut r = ResourceRun::new(destroys);
        r.advance(ResourceEvent::Finished);
        r.advance(ResourceEvent::Decided { acts, error: Some(broken("PROBE")) });
        r.advance(ResourceEvent::Finished);
        r.step
    };
    assert_eq!(decided(false, true), ResourceStep::Failed);
    assert_eq!(decided(true, true), ResourceStep::Act);
    assert_eq!(decided(true, false), ResourceStep::Failed);
    let mut r = ResourceRun::new(false);
    r.advance(ResourceEvent::Finished);
    r.advance(ResourceEvent::Decided { acts: false, error: None });
    r.advance(ResourceEvent::Finished);
    assert_eq!(r.step, ResourceStep::Done);
}

fn node(locks: usize, resource: bool, probes: bool, runs: bool) -> NodeRun {
    let shape = NodeShape { locks, resource, probes, runs };
    NodeRun::new("t".into(), "/tree/sub".into(), shape)
}

#[test]
fn a_step_takes_its_locks_before_anything_else() {
    let mut run = node(2, false, true, true);
    let mut seen = vec![run.step];
    for event in [
        NodeEvent::Succeeded,
        NodeEvent::Succeeded,
        NodeEvent::Succeeded,
        NodeEvent::IsDir(true),
        NodeEvent::Probed(ProbeFound::Absent),
    ] {
        run.advance(event);
        seen.push(run.step);
    }
    assert_eq!(
        seen,
        [
            NodeStep::Lock(0),
            NodeStep::Lock(1),
            NodeStep::Environment,
            NodeStep::Directory,
            NodeStep::Probe,
            NodeStep::Run,
        ]
    );
    assert_eq!(run.held, 2);
    run.advance(NodeEvent::Ran(output(0, false)));
    assert_eq!((run.step, run.held), (NodeStep::Done, 0));
    assert_eq!(run.status.as_deref(), Some("ok"));
    assert_eq!(run.child, Some(ChildStatus { code: Some(0), signal: None }));
}

#[test]
fn a_resource_runs_once_its_declaration_is_fresh() {
    let mut run = node(0, true, true, true);
    assert_eq!(run.step, NodeStep::Declare);
    run.advance(NodeEvent::Succeeded);
    assert_eq!(run.step, NodeStep::Resource);
    run.advance(NodeEvent::Carried { status: "present".into(), child: None });
    assert_eq!((run.step, run.status.as_deref()), (NodeStep::Done, Some("present")));
}

#[test]
fn a_task_does_not_run_where_it_must_not() {
    let mut gone = node(1, false, true, true);
    gone.advance(NodeEvent::Succeeded);
    gone.advance(NodeEvent::Succeeded);
    gone.advance(NodeEvent::IsDir(false));
    assert_eq!((gone.step, gone.held), (NodeStep::Failed, 0));
    assert_eq!(gone.error.unwrap().message, "task cwd /tree/sub is missing");

    let mut there = node(0, false, true, true);
    there.advance(NodeEvent::Succeeded);
    there.advance(NodeEvent::IsDir(true));
    there.advance(NodeEvent::Probed(ProbeFound::Present));
    assert_eq!(there.status.as_deref(), Some("present"));

    let mut idle = node(0, false, false, false);
    idle.advance(NodeEvent::Succeeded);
    idle.advance(NodeEvent::IsDir(true));
    assert_eq!(idle.status.as_deref(), Some("skipped"));

    let mut fails = node(1, false, false, true);
    fails.advance(NodeEvent::Succeeded);
    fails.advance(NodeEvent::Succeeded);
    fails.advance(NodeEvent::IsDir(true));
    fails.advance(NodeEvent::Ran(output(3, false)));
    assert_eq!(fails.error.unwrap().code, "TASK_FAILED");
    assert_eq!(fails.held, 0);
}

#[test]
fn a_session_that_fails_among_others_does_not_stop_them() {
    let mut batch = Batch::new(true);
    batch.opened("repo/a", vec![]);
    batch.failed("repo/b", "repo_b", broken("X"), 3).unwrap();
    batch.failed("repo/c", "repo_c", broken("Y"), 5).unwrap();
    assert_eq!(batch.sessions.len(), 3);
    assert!(matches!(&batch.sessions[0], SessionResult::Open { target } if target == "repo/a"));
    match &batch.sessions[1] {
        SessionResult::Failed { name, code, .. } => {
            assert_eq!((name.as_str(), code.as_str()), ("repo_b", "X"));
        }
        other => panic!("{other:?}"),
    }
    assert_eq!(batch.notices[0].message, "it broke; remedy: mend it");
    assert_eq!(batch.failure(), Some(1));
    let mut single = Batch::new(false);
    assert_eq!(single.failed("repo/b", "repo_b", broken("X"), 3).unwrap_err().code, "X");
    assert!(single.sessions.is_empty() && single.failure().is_none());
}

#[test]
fn only_a_session_that_is_there_is_closed() {
    let tmux = SessionBackend::Tmux;
    assert_eq!(close_move(SessionBackend::Off, Some(true), false), CloseMove::Report(false));
    assert_eq!(close_move(tmux, None, false), CloseMove::Ask);
    assert_eq!(close_move(tmux, Some(false), false), CloseMove::Report(false));
    assert_eq!(close_move(tmux, Some(true), false), CloseMove::Kill);
    assert_eq!(close_move(tmux, Some(true), true), CloseMove::Report(true));
}

#[test]
fn an_agent_is_put_on_record_of_its_tree() {
    let at = Coordinates {
        slot: 0,
        geometry: Geometry { base: 3000, stride: 4, port_base: 3000 },
        ports: Assoc::new(),
        name_short: "s".into(),
        session_name: "s".into(),
    };
    let own = canonical_record("id", "repo", "/src", at, "now", None);
    let mut registry = Registry { labels: Assoc::new(), trees: vec![own], tombstones: vec![] };
    record_agent(&mut registry, "gone", "a");
    assert!(registry.trees[0].agent.is_none());
    record_agent(&mut registry, "id", "a");
    assert_eq!(registry.trees[0].agent.as_deref(), Some("a"));
}

#[test]
fn a_resource_is_declared_with_what_its_recipes_need() {
    let shell = |text: &str| ExpandedCommand::Shell { shell: text.into() };
    let site = Site {
        tree: "/t".into(),
        bins: vec!["bin".into(), "/abs".into()],
        executables: vec!["b".into(), "a".into(), "b".into()],
        home: "/home".into(),
    };
    let recipes =
        || Recipes { exists: None, destroy: shell("down"), run: Some(shell("up")) };
    let key = || resource_key("repo", "x", TiedTo::Tree, "api", "db");
    let own = declare(
        key(),
        Some("named".into()),
        "default".into(),
        "sub".into(),
        recipes(),
        map(&[("K", "v")]),
        &site,
        "now",
    );
    assert_eq!((own.name.as_str(), own.home.as_str()), ("named", "/home"));
    assert_eq!(own.snapshot.tied_to, TiedTo::Tree);
    assert_eq!((own.snapshot.tree.as_str(), own.snapshot.cwd_rel.as_str()), ("/t", "sub"));
    assert_eq!(own.snapshot.bin_dirs, ["/t/bin", "/abs"]);
    assert_eq!(own.bin_exes, ["a", "b"]);
    assert!(own.snapshot.exists.is_none() && own.snapshot.run.is_some());
    assert_eq!(own.recorded_at, "now");
    let plain =
        declare(key(), None, "default".into(), ".".into(), recipes(), map(&[]), &site, "now");
    assert_eq!(plain.name, "default");
}

#[test]
fn a_declaration_is_stored_complete_or_passed_over() {
    let steps = |tied_to| {
        let mut refresh = Refreshing::new(tied_to);
        let mut seen = Vec::new();
        while refresh.step != RefreshStep::Done {
            seen.push(refresh.step);
            refresh.advance(RefreshEvent::Succeeded);
        }
        assert!(refresh.stored && !refresh.locked);
        seen
    };
    assert_eq!(
        steps(TiedTo::Tree),
        [
            RefreshStep::Environment,
            RefreshStep::Binaries,
            RefreshStep::Expand,
            RefreshStep::Store,
        ]
    );
    assert_eq!(
        steps(TiedTo::Repo),
        [
            RefreshStep::Environment,
            RefreshStep::Binaries,
            RefreshStep::Expand,
            RefreshStep::Strip,
            RefreshStep::Lock,
            RefreshStep::Read,
            RefreshStep::Store,
        ]
    );
    let mut early = Refreshing::new(TiedTo::Tree);
    early.advance(RefreshEvent::Failure(broken("ENV_UNDEFINED")));
    assert_eq!(early.step, RefreshStep::RecordSkip);
    early.advance(RefreshEvent::Succeeded);
    assert!(early.step == RefreshStep::Done && early.skipped && !early.stored);
    let mut late = Refreshing::new(TiedTo::Tree);
    late.advance(RefreshEvent::Succeeded);
    late.advance(RefreshEvent::Failure(broken("ENV_UNDEFINED")));
    assert!(late.step == RefreshStep::Failed && !late.skipped);
}
