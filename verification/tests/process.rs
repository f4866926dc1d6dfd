use wt::assoc::Assoc;
use wt::error::ExitClass;
use wt::json::parse;
use wt::proc::{
    askable_pid, child_pid, contained_absolute, detached_result, find_installed_copy, io_error,
    matching_path_shim, outcome_of, owned_command_fast_path, pipe_error, probe, progress_note,
    read_again, recorded_build, recorded_build_progress, signal_target, spawn_error, spawn_tracer,
    stderr_sink, stdout_sink, terminate_step, ChildStatus, CommandRequest, ExpandedCommand,
    FastPath, Invocation, LinkRead, Outcome, ProbeResult, ProcessOutput, Pty, PtyStep, ReadOutcome,
    Sink, Stream, Tee, TermStep, Wait, WaitStep,
};

const SIGTERM: i32 = 15;

fn exited(code: i32) -> ChildStatus {
    ChildStatus { code: Some(code), signal: None }
}

fn output(child: ChildStatus, timed_out: bool) -> ProcessOutput {
    ProcessOutput { pid: 7, child, stdout: Vec::new(), stderr: Vec::new(), timed_out }
}

#[test]
fn capture_preserves_binary_output_and_maps_signal_exit() {
    let mut wait = Wait::new();
    wait.read(Stream::Stdout, &[0xff]);
    wait.read(Stream::Stderr, b"err");
    wait.read(Stream::Stdout, b"x");
    wait.ended(exited(7));
    assert_eq!(wait.step(499, Some(500)), WaitStep::Drain);
    wait.read(Stream::Stdout, b"");
    wait.read(Stream::Stderr, b"");
    assert_eq!(wait.step(499, Some(500)), WaitStep::Done);
    let output = wait.finish(7);
    assert!(!output.timed_out);
    assert_eq!(output.stdout, [0xff, b'x']);
    assert_eq!(output.stderr, b"err");
    assert_eq!(output.mapped_exit(), 7);

    let mut wait = Wait::new();
    wait.ended(ChildStatus { code: None, signal: Some(SIGTERM) });
    let signaled = wait.finish(8);
    assert_eq!(signaled.child.signal, Some(SIGTERM));
    assert_eq!(signaled.mapped_exit(), 128 + SIGTERM);
}

#[test]
fn probe_maps_absent_infrastructure_failure_timeout_and_spawn() {
    let absent = probe(Ok(&output(exited(1), false)), "a");
    assert!(matches!(absent.result, ProbeResult::Absent));
    assert_eq!(absent.at, "a");
    assert!(matches!(
        probe(Ok(&output(exited(2), false)), "b").result,
        ProbeResult::FailedExit(2)
    ));
    assert!(matches!(
        probe(Ok(&output(exited(0), true)), "c").result,
        ProbeResult::FailedTimeout
    ));
    let missing = probe(Err("could not spawn `definitely-no-such-wt-test-program`"), "d");
    match missing.result {
        ProbeResult::FailedSpawn(message) => {
            assert_eq!(message, "could not spawn `definitely-no-such-wt-test-program`");
        }
        other => panic!("{other:?}"),
    }
    assert!(matches!(
        probe(Ok(&output(exited(0), false)), "e").result,
        ProbeResult::Present
    ));
    match probe(Ok(&output(ChildStatus { code: None, signal: Some(9) }, false)), "f").result {
        ProbeResult::FailedSpawn(message) => assert_eq!(message, "probe died from signal 9"),
        other => panic!("{other:?}"),
    }
    match probe(Ok(&output(ChildStatus { code: None, signal: None }, false)), "g").result {
        ProbeResult::FailedSpawn(message) => assert_eq!(message, "probe ended without a status"),
        other => panic!("{other:?}"),
    }
}

#[test]
fn deadline_bounds_pipe_drain_after_the_direct_child_exits() {
    // The child has ended, and what it started still holds the pipes.
    let mut wait = Wait::new();
    wait.ended(exited(0));
    assert_eq!(wait.step(499, Some(500)), WaitStep::Drain);
    assert_eq!(wait.step(500, Some(500)), WaitStep::Signal);
    let output = wait.finish(1);
    assert!(output.timed_out);
    assert!(!output.success());
    assert!(matches!(probe(Ok(&output), "now").result, ProbeResult::FailedTimeout));
    assert_eq!(outcome_of(Some(&output)), Outcome::TimedOut);

    let mut running = Wait::new();
    assert_eq!(running.step(u64::MAX, None), WaitStep::Drain);
    assert_eq!(running.step(500, Some(500)), WaitStep::Terminate);
}

#[test]
fn the_first_end_stands() {
    let mut wait = Wait::new();
    wait.ended(exited(3));
    wait.ended(exited(4));
    assert_eq!(wait.status, Some(exited(3)));
    assert_eq!(outcome_of(Some(&output(exited(3), false))), Outcome::Code(3));
    assert_eq!(outcome_of(None), Outcome::Failed);
    assert_eq!(
        outcome_of(Some(&output(ChildStatus { code: None, signal: Some(2) }, false))),
        Outcome::Failed
    );
    assert_eq!(output(ChildStatus { code: None, signal: None }, false).mapped_exit(), 1);
}

#[test]
fn a_stream_is_left_after_so_many_reads() {
    assert!(read_again(ReadOutcome::Bytes, 7));
    assert!(!read_again(ReadOutcome::Bytes, 8));
    assert!(read_again(ReadOutcome::Interrupted, 0));
    assert!(!read_again(ReadOutcome::End, 0));
    assert!(!read_again(ReadOutcome::WouldBlock, 0));
    assert_eq!(terminate_step(false, 4999), TermStep::Sleep);
    assert_eq!(terminate_step(true, 4999), TermStep::Done);
    assert_eq!(terminate_step(false, 5000), TermStep::Kill);
    assert_eq!(signal_target(5, true), -5);
    assert_eq!(signal_target(5, false), 5);
}

#[test]
fn process_numbers_are_checked() {
    assert_eq!(child_pid(12).unwrap(), 12);
    assert_eq!(child_pid(u32::MAX).unwrap_err().code, "PROCESS_ID_INVALID");
    assert_eq!(askable_pid(0), None);
    assert_eq!(askable_pid(1), Some(1));
    assert_eq!(askable_pid(0x8000_0000), None);
}

#[test]
fn a_terminal_is_read_until_it_is_still() {
    let mut pty = Pty::new();
    assert_eq!(pty.step(4, 5), PtyStep::Poll);
    pty.read(b"a\xff");
    pty.exited(exited(0));
    assert_eq!(pty.step(4, 5), PtyStep::Linger);
    assert_eq!(pty.step(5, 5), PtyStep::Linger);
    assert_eq!(pty.lingered(2, 4, 5), PtyStep::Done);
    pty.read(b"b");
    assert_eq!(pty.lingered(2, 4, 5), PtyStep::Poll);
    pty.read(b"");
    assert_eq!(pty.step(4, 5), PtyStep::Done);
    let output = pty.finish(3);
    assert_eq!(output.stdout, b"a\xffb");
    assert!(output.stderr.is_empty() && output.success());
}

#[test]
fn a_terminal_whose_time_is_up_timed_out() {
    let mut pty = Pty::new();
    assert_eq!(pty.step(5, 5), PtyStep::Expire { terminate: true });
    pty.exited(exited(0));
    let output = pty.finish(3);
    assert!(output.timed_out && !output.success());

    let mut pty = Pty::new();
    pty.read(b"abc");
    pty.exited(exited(0));
    assert_eq!(pty.lingered(2, 5, 5), PtyStep::Expire { terminate: false });
    assert!(pty.finish(3).timed_out);
}

#[test]
fn output_is_shown_where_it_was_asked_for() {
    assert_eq!((stdout_sink(Tee::Inherit), stderr_sink(Tee::Inherit)), (Sink::Stdout, Sink::Stderr));
    assert_eq!((stdout_sink(Tee::Stderr), stderr_sink(Tee::Stderr)), (Sink::Stderr, Sink::Stderr));
    assert_eq!((stdout_sink(Tee::Quiet), stderr_sink(Tee::Quiet)), (Sink::Nowhere, Sink::Nowhere));
}

#[test]
fn a_command_is_expanded_into_a_request() {
    let mut env: Assoc<String> = Assoc::new();
    env.put("KEY", "value".into());
    let shell = ExpandedCommand::Shell { shell: "echo hi".into() };
    let request = CommandRequest::expanded(&shell, "/tree", env).unwrap();
    assert_eq!(request.program, "sh");
    assert_eq!(request.args, ["-c", "echo hi"]);
    assert_eq!(request.cwd.as_deref(), Some("/tree"));
    assert!(request.clear_env);
    assert_eq!(request.env.get("KEY").map(String::as_str), Some("value"));
    let argv = ExpandedCommand::Argv { argv: vec!["make".into(), "all".into()] };
    let request = CommandRequest::expanded(&argv, "/tree", Assoc::new()).unwrap();
    assert_eq!((request.program.as_str(), request.args[0].as_str()), ("make", "all"));
    let none = ExpandedCommand::Argv { argv: Vec::new() };
    let error = CommandRequest::expanded(&none, "/tree", Assoc::new()).unwrap_err();
    assert_eq!((error.class, error.code.as_str()), (ExitClass::State, "CONFIG_INVALID"));
}

#[test]
fn what_is_run_is_recorded_on_one_line() {
    let mut request = CommandRequest::new("git");
    request.args = vec!["log".into(), "a\nb".into()];
    let line = spawn_tracer(&request);
    assert_eq!(line, "{\"args\":[\"log\",\"a\\nb\"],\"cwd\":null,\"program\":\"git\"}\n");
    let j = parse(line.as_bytes()).unwrap();
    assert_eq!(j.get("program").and_then(|v| v.as_text()).map(String::as_str), Some("git"));
}

#[test]
fn a_supervisor_reports_its_number_and_nothing_else() {
    assert_eq!(detached_result("sleep", "41\n").unwrap(), 41);
    let refused = detached_result("sleep", "41\nNo such file\nor directory\n").unwrap_err();
    assert_eq!(refused.code, "SPAWN_FAILED");
    assert_eq!(
        refused.message,
        "could not spawn detached `sleep`: No such file\nor directory"
    );
    let silent = detached_result("sleep", "").unwrap_err();
    assert_eq!(silent.message, "could not spawn detached `sleep`: ");
    assert_eq!(
        detached_result("sleep", " x \n").unwrap_err().message,
        "could not spawn detached `sleep`: x"
    );
    assert_eq!(spawn_error("a", "why").message, "could not spawn `a`: why");
    assert_eq!(io_error("poll", "why").code, "IO_FAILED");
    assert_eq!(pipe_error().code, "PIPE_MISSING");
}

fn invocation(argv0: &str) -> Invocation {
    Invocation {
        argv0: argv0.into(),
        path_shim: None,
        parent_is_dir: true,
        link: LinkRead::Target("/usr/bin/wt".into()),
        target_is_link: false,
        running_fault: None,
        target_matches: true,
        wt_bin: "/tree/bin:/tree/out".into(),
        runnable: vec![false, true],
        installed: None,
        wt_target: Some("repo/tree".into()),
        progress: None,
    }
}

fn refusal(o: &Invocation) -> String {
    match owned_command_fast_path(o) {
        FastPath::Refuse(message) => message,
        other => panic!("{other:?}"),
    }
}

#[test]
fn a_name_without_a_file_is_refused() {
    for argv0 in ["..", "/", "", "/usr/bin/.."] {
        match owned_command_fast_path(&invocation(argv0)) {
            FastPath::Refuse(message) => assert_eq!(
                message,
                format!(
                    "SHIM_INVOCATION_INVALID: `{argv0}` is not an absolute <root>/.wt/shims/<name> path"
                )
            ),
            other => panic!("{argv0}: {other:?}"),
        }
    }
}

#[test]
fn the_program_itself_goes_on_as_usual() {
    for argv0 in ["wt", "/usr/bin/wt", "./wt"] {
        assert!(
            matches!(owned_command_fast_path(&invocation(argv0)), FastPath::NotOwned),
            "{argv0}"
        );
    }
}

#[test]
fn a_shim_becomes_what_its_tree_built() {
    let mut o = invocation("/tree/.wt/shims/tool");
    match owned_command_fast_path(&o) {
        FastPath::Run(program) => assert_eq!(program, "/tree/out/tool"),
        other => panic!("{other:?}"),
    }
    o.argv0 = "tool".into();
    o.path_shim = Some("/tree/.wt/shims/tool".into());
    match owned_command_fast_path(&o) {
        FastPath::Run(program) => assert_eq!(program, "/tree/out/tool"),
        other => panic!("{other:?}"),
    }
    o.wt_bin = "/tree/bin:/elsewhere".into();
    assert_eq!(
        refusal(&o),
        "SHIM_INVOCATION_INVALID: WT_BIN does not describe directories inside `/tree`"
    );
}

#[test]
fn a_command_that_was_not_built_is_refused_with_what_to_do() {
    let mut o = invocation("/tree/.wt/shims/tool");
    o.runnable = vec![false, false];
    assert_eq!(
        refusal(&o),
        "COMMAND_NOT_BUILT: `tool` belongs to tree `repo/tree` but was not found; searched: \
         /tree/bin, /tree/out; run `wt build repo/tree`; no installed copy was found elsewhere on PATH"
    );
    o.wt_target = None;
    o.installed = Some("/usr/bin/tool".into());
    o.progress = Some(progress_note("/tree/log"));
    assert_eq!(
        refusal(&o),
        "COMMAND_NOT_BUILT: `tool` belongs to tree `/tree` but was not found; searched: \
         /tree/bin, /tree/out; run `wt build /tree`; run the installed copy explicitly as \
         `/usr/bin/tool`; the build is in progress; watch log `/tree/log`"
    );
}

#[test]
fn a_shim_that_cannot_be_trusted_is_refused() {
    let shim = "/tree/.wt/shims/tool";
    let said = |change: &dyn Fn(&mut Invocation)| {
        let mut o = invocation(shim);
        change(&mut o);
        refusal(&o)
    };
    assert!(said(&|o| o.argv0 = "tool".into()).contains("bare argv[0] `tool`"));
    assert!(said(&|o| o.argv0 = "/bin/tool".into()).contains("is not an absolute"));
    assert!(said(&|o| o.argv0 = "tree/.wt/shims/tool".into()).contains("relative shim path"));
    assert!(said(&|o| o.parent_is_dir = false).contains("shim parent `/tree/.wt/shims` is absent"));
    assert!(said(&|o| o.link = LinkRead::NotALink).contains("is not a symlink"));
    assert!(said(&|o| o.link = LinkRead::Unreadable("why".into())).contains("cannot read shim"));
    assert!(said(&|o| o.link = LinkRead::Uninspectable("why".into())).contains("cannot inspect"));
    assert!(said(&|o| o.link = LinkRead::Target("wt".into())).contains("must point directly"));
    assert!(said(&|o| o.target_is_link = true).contains("must point directly"));
    assert!(said(&|o| o.running_fault = Some("gone".into())).contains("running binary: gone"));
    assert!(said(&|o| o.target_matches = false).contains("does not point to this wt binary"));
}

#[test]
fn only_paths_inside_the_root_are_contained() {
    assert!(contained_absolute("/tree", "/tree/bin"));
    assert!(contained_absolute("/tree", "/tree"));
    assert!(!contained_absolute("/tree", "/tree/../other"));
    assert!(!contained_absolute("/tree", "/trees/bin"));
    assert!(!contained_absolute("/tree", "tree/bin"));
}

#[test]
fn the_search_path_is_walked_in_order() {
    assert_eq!(
        matching_path_shim("/a/.wt/shims:rel/.wt/shims:/bin:/b/.wt/shims", "tool"),
        ["/a/.wt/shims/tool", "/b/.wt/shims/tool"]
    );
    assert_eq!(
        find_installed_copy("/a:b:/c", "/cwd", "tool", "/a/tool"),
        ["/cwd/b/tool", "/c/tool"]
    );
}

#[test]
fn a_build_in_progress_is_read_from_the_tree() {
    let state = br#"{"build":{"pid":12,"log":"/tree/log"}}"#;
    let running = Some(String::from("running\n"));
    assert_eq!(
        recorded_build_progress(&running, state),
        Some((12, String::from("/tree/log")))
    );
    assert_eq!(recorded_build_progress(&Some("ok".into()), state), None);
    assert_eq!(recorded_build_progress(&None, state), None);
    assert_eq!(recorded_build_progress(&running, b"{"), None);
    let large = parse(br#"{"build":{"pid":4294967296,"log":"x"}}"#).unwrap();
    assert_eq!(recorded_build(&large), None);
}

#[test]
fn arguments_and_failed_commands_are_written_out() {
    assert_eq!(wt::proc::os_args(&["-c", "x"]), vec!["-c".to_string(), "x".to_string()]);
    assert_eq!(
        wt::proc::exec_failed("/b/cmd", "no such file"),
        "COMMAND_EXEC_FAILED: could not execute `/b/cmd`: no such file"
    );
}
