use wt::failpoint::{
    check, check_enabled, new_g, remove_8, render_write, resource_destroyed, resource_frozen,
    sync_mid, Effect,
};
use wt::forge::{cli_missing, github_pull_request_head, head_request, judged, parse_head};
use wt::error::ExitClass;
use wt::json::parse;
use wt::net::{squat_probe, Bind};
use wt::probe::{
    detected_shell, has_terminfo, installed, package_manager, parent_program, parent_request,
    terminfo_request,
};
use wt::proc::{ChildStatus, ProcessOutput};
use wt::trace::{open, rotate, run_id, span, spawn, Outcome, Recorder, MAX_RECORD, ROTATE_BYTES};

fn ended(code: i32, stdout: &str, stderr: &str) -> ProcessOutput {
    ProcessOutput {
        pid: 1,
        child: ChildStatus { code: Some(code), signal: None },
        stdout: stdout.as_bytes().to_vec(),
        stderr: stderr.as_bytes().to_vec(),
        timed_out: false,
    }
}

#[test]
fn head_parses_gh_json_and_rejects_empty_branches() {
    let head = parse_head(
        br#"{"headRefName":"feature/x","isCrossRepository":true,"headRepositoryOwner":{"login":"alice"}}"#,
    )
    .unwrap();
    assert_eq!(head.branch, "feature/x");
    assert!(head.cross_repository);
    assert_eq!(head.owner.as_deref(), Some("alice"));
    assert!(parse_head(br#"{"headRefName":""}"#).is_none());
    assert!(parse_head(b"not json").is_none());
}

#[test]
fn an_answer_of_the_forge_is_judged() {
    let head = github_pull_request_head("/r", 7, &ended(0, r#"{"headRefName":" x "}"#, "")).unwrap();
    assert_eq!((head.branch.as_str(), head.cross_repository, head.owner), ("x", false, None));
    let late = ProcessOutput { timed_out: true, ..ended(0, "", "") };
    let error = github_pull_request_head("/r", 7, &late).unwrap_err();
    assert_eq!((error.class, error.code.as_str()), (ExitClass::Timeout, "TIMEOUT"));
    let login = github_pull_request_head("/r", 7, &ended(4, "", "\n  log in \n")).unwrap_err();
    assert_eq!(login.message, "gh could not look up pull request 7: log in");
    assert!(login.remedy.starts_with("run `gh auth login` and retry"));
    let denied = github_pull_request_head("/r", 7, &ended(1, "", "")).unwrap_err();
    assert_eq!(denied.message, "gh could not look up pull request 7: no error output");
    assert!(denied.remedy.starts_with("run `gh auth status` in /r "));
    let none = judged("/r", 7, &ended(0, "", ""), None).unwrap_err();
    assert_eq!(none.message, "gh answered for pull request 7 without a head branch");
    assert_eq!(cli_missing(7).code, "FORGE_CLI_MISSING");
    let request = head_request("/r", 7);
    assert_eq!(request.args[..3], ["pr", "view", "7"]);
    assert_eq!(request.env.get("GH_PROMPT_DISABLED").map(String::as_str), Some("1"));
}

#[test]
fn only_the_named_point_trips() {
    type Point = fn(bool, &Option<String>, bool) -> Effect;
    for (name, point) in [
        ("new.G", new_g as Point),
        ("sync.mid", sync_mid),
        ("remove.8", remove_8),
        ("render.write", render_write),
        ("resource.destroyed", resource_destroyed),
        ("resource.frozen", resource_frozen),
    ] {
        let selected = Some(String::from(name));
        match point(true, &selected, true) {
            Effect::Trip(error) => {
                assert_eq!(error.code, "FAILPOINT");
                assert_eq!(error.message, format!("failpoint `{name}` tripped"));
            }
            other => panic!("{other:?}"),
        }
        assert!(matches!(point(false, &selected, true), Effect::Continue));
        assert!(matches!(point(true, &selected, false), Effect::Continue));
        assert!(matches!(check("not.selected", true, &selected, true), Effect::Continue));
    }
}

#[test]
fn a_point_does_what_stands_behind_the_colon() {
    let at = |selected: &str| check_enabled("new.G", &Some(selected.into()), true);
    assert!(matches!(at("new.G:sigkill"), Effect::Kill));
    assert!(matches!(at("new.G:exit"), Effect::Exit(86)));
    assert!(matches!(at("new.G:pause=250"), Effect::Pause(250)));
    assert!(matches!(at("new.G:pause=soon"), Effect::Continue));
    assert!(matches!(at("new.G:other"), Effect::Trip(_)));
    assert!(matches!(at("new.Gx"), Effect::Continue));
    assert!(matches!(check_enabled("new.G", &None, true), Effect::Continue));
}

#[test]
fn a_port_is_taken_where_it_answers_or_cannot_be_bound() {
    assert!(squat_probe(80, true, &Bind::Bound).unwrap());
    assert!(squat_probe(80, false, &Bind::Taken).unwrap());
    assert!(!squat_probe(80, false, &Bind::Bound).unwrap());
    let error = squat_probe(80, false, &Bind::Failed("why".into())).unwrap_err();
    assert_eq!(error.code, "PORT_PROBE_FAILED");
    assert_eq!(error.message, "could not probe IPv4 port 80: why");
}

#[test]
fn the_calling_shell_comes_before_the_login_shell() {
    let shells = vec![String::from("bash"), String::from("zsh")];
    let found = |parent: Option<&str>, login: Option<&str>| {
        detected_shell(&parent.map(String::from), &login.map(String::from), &shells)
    };
    assert_eq!(found(Some("zsh"), Some("/bin/bash")).as_deref(), Some("zsh"));
    assert_eq!(found(Some("make"), Some("/bin/bash")).as_deref(), Some("bash"));
    assert_eq!(found(None, Some("/bin/tcsh")), None);
    assert_eq!(found(None, None), None);
    assert_eq!(parent_program(&ended(0, "-/usr/bin/zsh\n", "")).as_deref(), Some("zsh"));
    assert_eq!(parent_program(&ended(0, "--\n", "")), None);
    assert_eq!(parent_program(&ended(1, "zsh", "")), None);
    assert_eq!(parent_request(41, &Some("ps".into())).unwrap().args, ["-o", "comm=", "-p", "41"]);
    assert!(parent_request(1, &Some("ps".into())).is_none());
    assert!(parent_request(41, &None).is_none());
}

#[test]
fn nothing_is_claimed_of_what_nobody_was_asked() {
    assert!(!has_terminfo(None));
    assert!(has_terminfo(Some(&ended(0, "", ""))));
    assert!(!has_terminfo(Some(&ended(1, "", ""))));
    assert!(terminfo_request(&None, "tmux-256color").is_none());
    assert_eq!(terminfo_request(&Some("infocmp".into()), "x").unwrap().args, ["-1", "x"]);
    assert!(installed(&Some("/bin/x".into())) && !installed(&None));
    assert_eq!(package_manager(&vec![None, Some("/bin/apt".into()), Some("x".into())]), Some(1));
    assert_eq!(package_manager(&vec![None]), None);
}

#[test]
fn each_event_is_one_numbered_line_that_fits() {
    assert!(open("/home", "new", false, &None, 9).is_none());
    let mut sink = open("/home", "new", true, &Some("0123456789".into()), 9).unwrap();
    assert_eq!((sink.path.as_str(), sink.run.as_str()), ("/home/logs/wt.jsonl", "01234567"));
    let line = sink.emit("T", 9, "spawn", 12, spawn("/usr/bin/git", Some("fetch")).finish(Outcome::Code(1)));
    let j = parse(line.as_bytes()).unwrap();
    let said = |key: &str| j.get(key).map(|v| v.compact.clone()).unwrap_or_default();
    assert_eq!(said("name"), "\"git\"");
    assert_eq!(said("op"), "\"fetch\"");
    assert_eq!(said("code"), "1");
    assert_eq!(said("seq"), "0");
    assert_eq!(said("ms"), "12");
    assert_eq!(said("kind"), "\"spawn\"");
    let next = sink.emit("T", 9, "span", 1, span("span", "plan").about("repo/tree").finish());
    assert!(next.contains("\"seq\":1") && next.contains("\"subject\":\"repo/tree\""), "{next}");
    let long = sink.emit("T", 9, "span", 1, span("span", &"é\n".repeat(5000)).finish());
    assert!(long.len() <= MAX_RECORD && long.ends_with('\n'));
    assert_eq!(long.matches('\n').count(), 1);
    assert!(sink.emit("T", 9, "c", 1, sink_done(3)).contains("\"code\":3"));
}

fn sink_done(exit: i32) -> Vec<(String, wt::json::Scalar)> {
    open("/h", "new", true, &None, 9).unwrap().command_done(exit)
}

#[test]
fn a_command_that_became_another_says_so() {
    let sink = open("/h", "open", true, &None, 9).unwrap();
    assert_eq!(sink.run, "9");
    let mut other = open("/h", "open", true, &None, 9).unwrap();
    let line = other.emit("T", 9, "command", 0, sink.command_handoff("/usr/bin/tmux"));
    assert!(line.contains("\"outcome\":\"exec\"") && line.contains("\"exec\":\"tmux\""), "{line}");
    for (outcome, word) in [
        (Outcome::TimedOut, "timeout"),
        (Outcome::Failed, "failed"),
        (Outcome::Detached, "detached"),
    ] {
        let line = other.emit("T", 9, "spawn", 0, spawn("sleep", None).finish(outcome));
        assert!(line.contains(&format!("\"outcome\":\"{word}\"")), "{line}");
    }
    assert_eq!(run_id(&Some("abc".into()), 9), "abc");
    assert!(!rotate(None) && !rotate(Some(ROTATE_BYTES)) && rotate(Some(ROTATE_BYTES + 1)));
}

#[test]
fn only_the_first_opening_of_a_log_counts() {
    let mut recorder = Recorder::new();
    assert!(recorder.open("/home", "new", true, &None, 9));
    let path = recorder.sink.as_ref().unwrap().path.clone();
    assert!(!recorder.open("/other", "open", false, &None, 10));
    assert_eq!(recorder.sink.as_ref().unwrap().path, path);

    let mut silent = Recorder::new();
    assert!(silent.open("/home", "new", false, &None, 9));
    assert!(!silent.open("/home", "new", true, &None, 9));
    assert!(silent.sink.is_none());
}
