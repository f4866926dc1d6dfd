use wt::assoc::Assoc;
use wt::error::{CoreError, ExitClass};
use wt::proc::{ChildStatus, ExpandedCommand, ProcessOutput};
use wt::snapshot::{
    capture_bin_exes, command_for, execute_observed, probe_time, recipe_text, strip_tree_paths,
    Action, Deadlines, Execution, Places, RecipeFlags, ResourceSnapshot, TaskDefaults, TiedTo,
};
use wt::tmux::{
    attach_failed, captured_reason, check_version, gate_path, has_session, numeric_prefix,
    session_ended, session_names, shell_quote, success, tool_error, watch_start, SessionEvent,
    SessionStep, StartStep, Starting, Tmux,
};

fn ended(code: i32, stdout: &str) -> ProcessOutput {
    ProcessOutput {
        pid: 1,
        child: ChildStatus { code: Some(code), signal: None },
        stdout: stdout.as_bytes().to_vec(),
        stderr: b"why\n".to_vec(),
        timed_out: false,
    }
}

fn shell(text: &str) -> ExpandedCommand {
    ExpandedCommand::Shell { shell: text.into() }
}

fn snapshot(tree: &str, text: &str) -> ResourceSnapshot {
    ResourceSnapshot {
        tied_to: TiedTo::Tree,
        cwd_rel: ".".into(),
        exists: Some(shell(text)),
        destroy: shell(text),
        run: Some(shell(text)),
        env: Assoc::new(),
        bin_dirs: vec![format!("{tree}/bin")],
        tree: tree.into(),
    }
}

fn places(tree_is_dir: bool, names_recorded_exe: bool) -> Places {
    Places {
        tree_is_dir,
        bins: vec![tree_is_dir],
        names_recorded_exe: RecipeFlags {
            exists: names_recorded_exe,
            destroy: names_recorded_exe,
            run: names_recorded_exe,
        },
        tmpdir: Some("/scratch".into()),
        repo_is_dir: true,
    }
}

fn env(pairs: &[(&str, &str)]) -> Assoc<String> {
    let mut out = Assoc::new();
    for (key, value) in pairs {
        out.put(key, value.to_string());
    }
    out
}

#[test]
fn missing_tree_blocks_only_the_recipe_that_names_a_recorded_executable() {
    let blocked = snapshot("/gone", "tree-tool stop");
    match execute_observed(&blocked, Action::Destroy, &env(&[]), "/repo", false, &places(false, true)).unwrap() {
        Execution::Orphaned { reason, remedy, recipe } => {
            assert_eq!(reason, "exe_missing");
            assert_eq!(recipe, "tree-tool stop");
            assert_eq!(
                remedy,
                "rebuild the tree's binaries, or destroy by hand: `tree-tool stop`"
            );
        }
        other => panic!("{other:?}"),
    }
    let safe = snapshot("/gone", "printf %s \"$PATH\"");
    let invoker = env(&[("PATH", "/gone/.wt/shims:/gone/bin:/bin:/usr/bin")]);
    match execute_observed(&safe, Action::Destroy, &invoker, "/repo", false, &places(false, false)).unwrap() {
        Execution::Run(request) => {
            assert_eq!(request.env.get("PATH").map(String::as_str), Some("/bin:/usr/bin"));
            assert_eq!(request.cwd.as_deref(), Some("/scratch"));
            assert!(request.clear_env);
        }
        other => panic!("{other:?}"),
    }
}

#[test]
fn snapshot_environment_overlays_the_invoker() {
    let mut value = snapshot("/tree", "test \"$KEY\" = snapshot");
    value.env.put("KEY", "snapshot".into());
    let invoker = env(&[("KEY", "invoker"), ("OTHER", "invoker")]);
    match execute_observed(&value, Action::Run, &invoker, "/repo", false, &places(true, true)).unwrap() {
        Execution::Run(request) => {
            assert_eq!(request.env.get("KEY").map(String::as_str), Some("snapshot"));
            assert_eq!(request.env.get("OTHER").map(String::as_str), Some("invoker"));
            assert_eq!(request.program, "sh");
            assert_eq!(request.args, ["-c", "test \"$KEY\" = snapshot"]);
            assert_eq!(request.cwd.as_deref(), Some("/tree/."));
        }
        other => panic!("{other:?}"),
    }
}

#[test]
fn repo_tied_execution_uses_current_canonical_root_and_tees_to_log() {
    let mut value = snapshot("/tree", "pwd");
    value.tied_to = TiedTo::Repo;
    match execute_observed(&value, Action::Destroy, &env(&[]), "/canonical", false, &places(true, false)).unwrap() {
        Execution::Run(request) => assert_eq!(request.cwd.as_deref(), Some("/canonical/.")),
        other => panic!("{other:?}"),
    }
    let gone = Places { repo_is_dir: false, ..places(true, false) };
    match execute_observed(&value, Action::Destroy, &env(&[]), "/missing", false, &gone).unwrap() {
        Execution::Orphaned { reason, .. } => assert_eq!(reason, "repo_root_missing"),
        other => panic!("{other:?}"),
    }
}

#[test]
fn executable_capture_is_sorted_and_ignores_non_executables() {
    let found = vec![String::from("z"), String::from("b"), String::from("z")];
    assert_eq!(capture_bin_exes(&found), ["b", "z"]);
}

#[test]
fn tokenizer_scans_only_the_selected_recipe() {
    let mut value = snapshot("/gone", "true");
    value.run = Some(shell("tree-tool start"));
    let seen = Places {
        names_recorded_exe: RecipeFlags { exists: false, destroy: false, run: true },
        ..places(false, false)
    };
    for action in [Action::Exists, Action::Destroy] {
        assert!(matches!(
            execute_observed(&value, action, &env(&[]), "/repo", false, &seen).unwrap(),
            Execution::Run(_)
        ));
    }
    assert!(matches!(
        execute_observed(&value, Action::Run, &env(&[]), "/repo", false, &seen).unwrap(),
        Execution::Orphaned { .. }
    ));
}

#[test]
fn a_tree_that_was_replaced_is_as_good_as_gone() {
    let value = snapshot("/tree", "true");
    match execute_observed(&value, Action::Destroy, &env(&[]), "/repo", true, &places(true, false)).unwrap() {
        Execution::Run(request) => assert_eq!(request.cwd.as_deref(), Some("/scratch")),
        other => panic!("{other:?}"),
    }
    let nowhere = Places { tmpdir: None, ..places(false, false) };
    match execute_observed(&value, Action::Destroy, &env(&[]), "/repo", false, &nowhere).unwrap() {
        Execution::Run(request) => assert_eq!(request.cwd.as_deref(), Some("/tmp")),
        other => panic!("{other:?}"),
    }
}

#[test]
fn a_snapshot_without_the_recipe_is_refused() {
    let mut value = snapshot("/tree", "x");
    value.exists = None;
    value.run = Some(ExpandedCommand::Argv { argv: Vec::new() });
    let error = command_for(&value, Action::Exists).unwrap_err();
    assert_eq!(error.message, "snapshot has no Exists recipe");
    let error = execute_observed(&value, Action::Run, &env(&[]), "/r", false, &places(true, false))
        .unwrap_err();
    assert_eq!(error.message, "an argv command is empty");
    let argv = ExpandedCommand::Argv { argv: vec!["a".into(), "b c".into()] };
    assert_eq!(recipe_text(&argv), "a b c");
    assert_eq!(recipe_text(&shell("x y")), "x y");
}

#[test]
fn the_search_path_leaves_the_tree() {
    let mut environment = env(&[("PATH", "/t/bin:/usr/bin:/t/.wt/shims/:/x")]);
    strip_tree_paths(&mut environment, &vec!["/t/bin".into()], "/t");
    assert_eq!(environment.get("PATH").map(String::as_str), Some("/usr/bin:/x"));
    let mut none = env(&[]);
    strip_tree_paths(&mut none, &Vec::new(), "/t");
    assert!(none.entries.is_empty());
}

#[test]
fn deadlines_of_recipes_come_from_the_settings() {
    let all = TaskDefaults {
        probe_timeout: Some(1),
        destroy_timeout: Some(2),
        timeout: Some(Some(3)),
    };
    let found = Deadlines::from_settings(&all).unwrap();
    assert_eq!(found.for_action(Action::Exists), Some(1));
    assert_eq!(found.for_action(Action::Destroy), Some(2));
    assert_eq!(found.for_action(Action::Run), Some(3));
    let open = Deadlines::from_settings(&TaskDefaults { timeout: None, ..all }).unwrap();
    assert_eq!(open.for_action(Action::Run), None);
    for (settings, key) in [
        (TaskDefaults { probe_timeout: None, ..all }, "task.probe_timeout"),
        (TaskDefaults { destroy_timeout: None, ..all }, "task.destroy_timeout"),
        (TaskDefaults { timeout: Some(None), ..all }, "task.timeout"),
    ] {
        let error = Deadlines::from_settings(&settings).unwrap_err();
        assert_eq!(error.message, format!("{key} has no resolved valid duration"));
    }
    assert_eq!(probe_time(Ok("now".into())), "now");
    let error = CoreError::new(ExitClass::Internal, "CLOCK", "m", "r");
    assert_eq!(probe_time(Err(error)), "1970-01-01T00:00:00.000000000Z");
}

#[test]
fn version_gate_accepts_32_and_rejects_old() {
    assert_eq!(check_version(b"tmux 3.2a\n").unwrap(), (3, 2));
    assert_eq!(check_version(b"tmux 3.1\n").unwrap_err().code, "TMUX_OLD");
    assert_eq!(
        check_version(b"tmux 3.1\n").unwrap_err().message,
        "tmux 3.1 is older than 3.2"
    );
    assert_eq!(check_version(b"").unwrap_err().message, "tmux 0.0 is older than 3.2");
}

#[test]
fn version_gate_finds_a_numeric_version_after_a_vendor_prefix() {
    assert_eq!(check_version(b"tmux next-3.4\n").unwrap(), (3, 4));
    assert_eq!(numeric_prefix("12a"), 12);
    assert_eq!(numeric_prefix("a"), 0);
}

#[test]
fn new_session_records_cwd_env_and_child_argv() {
    let tmux = Tmux::new("tmux", 10_000);
    let request = tmux
        .new_session(
            "wt_test",
            "/tmp/tree",
            "/tmp/wt-home",
            "/caps/capture",
            &vec!["wt".into(), "exec".into()],
        )
        .unwrap();
    let args = request.args.join("\n") + "\n";
    assert!(args.contains("-c\n/tmp/tree\n-e\nWT_HOME=/tmp/wt-home\n"));
    assert!(args.contains("/bin/sh\n-c\n"));
    assert!(args.contains("\nwt\nexec\n;\npipe-pane\n"));
    assert!(args.contains("pipe-pane\n-o\n-t\n=wt_test:\n"));
    assert!(args.contains("\n/caps/capture.gate\n"));
    assert!(args.ends_with("cat > '/caps/capture'\n"));
    let error = tmux.new_session("s", "/c", "/h", "/o", &Vec::new()).unwrap_err();
    assert_eq!(error.message, "tmux session command is empty");
}

#[test]
fn session_targets_are_exact_matches() {
    let tmux = Tmux::new("tmux", 10_000).with_env(env(&[("TMUX", "")]));
    assert!(!has_session(&ended(1, "")).unwrap());
    assert!(has_session(&ended(0, "")).unwrap());
    assert_eq!(
        has_session(&ended(2, "")).unwrap_err().message,
        "query session failed with status 2: why"
    );
    assert_eq!(tmux.has_request("repo/work").args, ["has-session", "-t", "=repo/work"]);
    assert_eq!(tmux.kill_session("s").args, ["kill-session", "-t", "=s"]);
    assert_eq!(tmux.switch_client("s").args, ["switch-client", "-t", "=s"]);
    assert_eq!(tmux.attach_session("s"), ["attach-session", "-t", "=s"]);
    assert_eq!(tmux.list_request().env.get("TMUX").map(String::as_str), Some(""));
    assert_eq!(tmux.version_request().args, ["-V"]);
}

#[test]
fn sessions_are_listed_in_order() {
    assert_eq!(session_names(&ended(0, "b\na\n")).unwrap(), ["a", "b"]);
    assert!(session_names(&ended(1, "")).unwrap().is_empty());
    assert!(session_names(&ended(3, "")).unwrap_err().message.starts_with("list sessions"));
}

#[test]
fn a_quoted_path_is_one_word() {
    assert_eq!(shell_quote("/a b"), "'/a b'");
    assert_eq!(shell_quote("it's"), "'it'\\''s'");
    assert_eq!(gate_path("/c/x.log"), "/c/x.gate");
}

#[test]
fn a_new_session_is_watched_for_a_moment() {
    assert_eq!(watch_start(true, 0), StartStep::Sleep(10));
    assert_eq!(watch_start(true, 250), StartStep::Started);
    assert_eq!(watch_start(false, 250), StartStep::Ended);
    assert_eq!(captured_reason(&Some(" boom \n".into()), 0, 500).as_deref(), Some("boom"));
    assert_eq!(captured_reason(&Some("\n".into()), 0, 500), None);
    assert_eq!(
        captured_reason(&None, 500, 500).as_deref(),
        Some("the pane exited without output")
    );
    assert_eq!(captured_reason(&None, 1000, 5000).is_some(), true);
    assert_eq!(session_ended("s", "boom").code, "SESSION_CREATE_FAILED");
    let spawn = CoreError::new(ExitClass::External, "SPAWN_FAILED", "m", "r");
    assert_eq!(tool_error(&spawn).message, "tmux is not installed or executable (m)");
    let other = CoreError::new(ExitClass::Timeout, "TIMEOUT", "m", "r");
    assert_eq!(tool_error(&other).code, "TIMEOUT");
    assert_eq!(attach_failed("why").code, "TOOL_MISSING");
    let late = ProcessOutput { timed_out: true, ..ended(0, "") };
    assert_eq!(success(late, "kill session").unwrap_err().message, "kill session timed out");
    assert_eq!(success(ended(1, ""), "kill session").unwrap_err().code, "TMUX_FAILED");
    assert!(success(ended(0, ""), "kill session").is_ok());
}

fn until_asked(session: &str) -> Starting {
    let mut starting = Starting::new(session.into(), "/c/out".into());
    assert_eq!(starting.step, SessionStep::Create);
    starting.advance(SessionEvent::Finished);
    assert_eq!(starting.step, SessionStep::Gate);
    starting.advance(SessionEvent::Finished);
    assert_eq!(starting.step, SessionStep::Ask);
    starting
}

#[test]
fn a_session_that_starts_leaves_neither_of_its_files() {
    let mut starting = until_asked("s");
    assert_eq!(starting.gate, gate_path("/c/out"));
    starting.advance(SessionEvent::Seen { alive: true, elapsed: 0 });
    assert!(matches!(starting.step, SessionStep::Sleep(_)));
    starting.advance(SessionEvent::Finished);
    starting.advance(SessionEvent::Seen { alive: true, elapsed: u64::MAX });
    assert_eq!(starting.step, SessionStep::RemoveGate);
    starting.advance(SessionEvent::Finished);
    assert_eq!(starting.step, SessionStep::RemoveCapture);
    starting.advance(SessionEvent::Failure(CoreError::new(ExitClass::State, "X", "m", "r")));
    assert_eq!(starting.step, SessionStep::Done);
    assert!(starting.gate_removed && starting.capture_removed && starting.error.is_none());
}

#[test]
fn a_session_that_ends_early_leaves_neither_of_its_files() {
    let mut starting = until_asked("s");
    starting.advance(SessionEvent::Seen { alive: false, elapsed: 0 });
    assert_eq!(starting.step, SessionStep::Reason);
    starting.advance(SessionEvent::Said("no such command".into()));
    starting.advance(SessionEvent::Finished);
    starting.advance(SessionEvent::Finished);
    assert_eq!(starting.step, SessionStep::Failed);
    assert!(starting.gate_removed && starting.capture_removed);
    let error = starting.error.unwrap();
    assert_eq!(error.message, session_ended("s", "no such command").message);

    let mut refused = Starting::new("s".into(), "/c/out".into());
    refused.advance(SessionEvent::Failure(CoreError::new(ExitClass::State, "X", "m", "r")));
    assert_eq!(refused.step, SessionStep::Failed);
    assert!(!refused.gate_removed && !refused.capture_removed);
}
