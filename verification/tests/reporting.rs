use wt::assoc::Assoc;
use wt::builds::{
    end_text, is_fresh, own_build, slot_for, spawn_wt, BuildEvent, BuildState, BuildStep, Building, Slot,
};
use wt::context::{Coordinates, Registry};
use wt::doctor::Geometry;
use wt::env::{deactivate_text, dotenv_text, inventory_text, quote, shell_text, BinReport};
use wt::error::{CoreError, ExitClass};
use wt::git::{AheadBehind, StatusEntry};
use wt::list::{
    asks_drift, dirt, for_tree, is_shared_with, lock_reports, port_reports, probe_name,
    probe_trees, probed_for_label, resource_reports, session_state, state_name, sync_changed,
    sync_state, to_u32, tree_report, DirtyReport, GitFacts, ListFacts, ListLockReport, PortFacts,
    ResourceReport, SharedKey, SyncFacts, UpstreamReport,
};
use wt::locks::{lock_list, named_lock, slots_of, tree_lock, NamedLock};
use wt::meta::{assignment, creation, edit, edit_tree, text_of};
use wt::register::canonical_record;
use wt::model::{BelongsTo, DerivedPhase, ProbeFound, ResourceState};
use wt::verbs::{
    config_layer, displaced_text, editor, generate, json_unsupported, judge_exec, resource_node,
    ActEvent, ActStep, Acting, Editor, PlanNode, Shell,
};

fn map(pairs: &[(&str, &str)]) -> Assoc<String> {
    let mut out = Assoc::new();
    for (key, value) in pairs {
        out.put(key, value.to_string());
    }
    out
}

fn change(index: char, worktree: char) -> StatusEntry {
    StatusEntry { index, worktree, path: b"f".to_vec(), original_path: None }
}

#[test]
fn changes_are_counted_once() {
    let status = vec![change('M', ' '), change('?', '?'), change(' ', 'D'), change('!', '?')];
    assert_eq!(dirt(&status), DirtyReport { modified: 2, untracked: 1 });
    assert_eq!(dirt(&vec![]), DirtyReport { modified: 0, untracked: 0 });
    assert_eq!(to_u32(7), 7);
    assert_eq!(to_u32(1 << 40), u32::MAX);
}

#[test]
fn inputs_that_changed_are_listed() {
    let inputs = map(&[("Cargo.lock", "a"), ("package.json", "b"), ("x", "c")]);
    let now = vec!["a".to_string(), "z".to_string()];
    assert_eq!(sync_changed(&inputs, &now), vec!["package.json".to_string()]);
    assert_eq!(sync_state(&None, 3), "never");
    assert_eq!(sync_state(&Some(SyncFacts { ok: false, at: "t".into() }), 0), "failed");
    assert_eq!(sync_state(&Some(SyncFacts { ok: true, at: "t".into() }), 1), "stale");
    assert_eq!(sync_state(&Some(SyncFacts { ok: true, at: "t".into() }), 0), "ok");
    assert!(asks_drift(false, true, 1));
    assert!(!asks_drift(true, true, 1));
    assert!(!asks_drift(false, true, 0));
}

fn port(name: &str, index: u8, probed: Option<bool>) -> PortFacts {
    PortFacts { name: name.into(), index, probed }
}

#[test]
fn ports_are_listed_by_place() {
    let ports = vec![port("web", 1, Some(true)), port("api", 0, Some(false))];
    let list = port_reports(&ports, 3000, false);
    assert_eq!((list[0].name.as_str(), list[0].port, list[0].bound), ("api", 3000, Some(false)));
    assert_eq!((list[1].name.as_str(), list[1].port, list[1].bound), ("web", 3001, Some(true)));
    assert!(port_reports(&ports, 3000, true).iter().all(|p| p.bound.is_none()));
}

fn resource(tied_to: BelongsTo, scope: &str, task: &str) -> ResourceReport {
    ResourceReport {
        scope: scope.into(),
        task: task.into(),
        tied_to,
        name: "n".into(),
        state: ResourceState::Present,
        reason: None,
        outside: false,
        undeclared: false,
        has_instance: true,
        holder: None,
        last_probe: None,
        last_error: None,
    }
}

#[test]
fn resources_are_listed_by_what_they_belong_to() {
    let list = resource_reports(vec![
        resource(BelongsTo::Machine, ".", "a"),
        resource(BelongsTo::Tree, "b", "a"),
        resource(BelongsTo::Repo, ".", "a"),
        resource(BelongsTo::Tree, "a", "z"),
    ]);
    let order: Vec<(BelongsTo, &str)> =
        list.iter().map(|r| (r.tied_to, r.scope.as_str())).collect();
    assert_eq!(
        order,
        vec![
            (BelongsTo::Tree, "a"),
            (BelongsTo::Tree, "b"),
            (BelongsTo::Repo, "."),
            (BelongsTo::Machine, "."),
        ]
    );
    assert_eq!(wt::list::tied_name(BelongsTo::Machine), "machine");
    assert_eq!(state_name(ResourceState::Orphaned), "orphaned");
    assert_eq!(probe_name(ProbeFound::Absent), "absent");
}

#[test]
fn shared_resources_are_reported_of_their_labels() {
    let key = |tied_to: BelongsTo, label: Option<&str>| SharedKey {
        tied_to,
        label: label.map(|l| l.to_string()),
    };
    let keys = vec![
        key(BelongsTo::Repo, Some("a")),
        key(BelongsTo::Machine, None),
        key(BelongsTo::Repo, Some("b")),
        key(BelongsTo::Tree, Some("a")),
    ];
    assert_eq!(for_tree(&keys, "a"), vec![0, 1]);
    assert_eq!(for_tree(&keys, "b"), vec![1, 2]);
    assert!(is_shared_with(&keys[1], "z"));
    assert!(!is_shared_with(&keys[3], "a"));
    assert!(probed_for_label(&keys[0], "a"));
    assert!(!probed_for_label(&keys[1], "a"));
}

#[test]
fn the_first_usable_tree_stands_for_its_label() {
    let trees = vec![
        ("a".to_string(), false),
        ("b".to_string(), true),
        ("a".to_string(), true),
        ("a".to_string(), true),
    ];
    let standing = probe_trees(&trees);
    assert_eq!(standing.get("a"), Some(&2));
    assert_eq!(standing.get("b"), Some(&1));
    assert_eq!(standing.get("c"), None);
}

#[test]
fn sessions_and_holders_are_reported() {
    let failed = || CoreError::new(ExitClass::State, "X", "m", "r");
    assert_eq!(session_state(true, &Ok(true)), "no");
    assert_eq!(session_state(false, &Ok(true)), "yes");
    assert_eq!(session_state(false, &Ok(false)), "no");
    assert_eq!(session_state(false, &Err(failed())), "unknown");
    let lock = |label: &str, name: &str, pid: u32| ListLockReport {
        label: label.into(),
        name: name.into(),
        pid,
        verb: "run".into(),
        since: "t".into(),
    };
    let list = lock_reports(vec![lock("b", "x", 1), lock("a", "y", 9), lock("a", "y", 2)]);
    let order: Vec<(&str, u32)> = list.iter().map(|l| (l.label.as_str(), l.pid)).collect();
    assert_eq!(order, vec![("a", 2), ("a", 9), ("b", 1)]);
}

fn facts(git: Option<GitFacts>) -> ListFacts {
    ListFacts {
        target: "repo/x".into(),
        label: "repo".into(),
        name: "x".into(),
        canonical: false,
        tree_id: "id".into(),
        path: "/t".into(),
        slot: 3,
        geometry: Geometry { base: 3000, stride: 4, port_base: 3012 },
        phase: DerivedPhase::Ready,
        git,
        sync: Some(SyncFacts { ok: true, at: "then".into() }),
        changed: vec!["Cargo.lock".into()],
        verify: Some((true, "then".into())),
        session: "no".into(),
        session_name: "s".into(),
        agent: None,
        resources: vec![],
        ports: vec![port("web", 2, None)],
        disk_kb: Some(12),
    }
}

#[test]
fn a_tree_is_reported_by_what_git_says() {
    let r = tree_report(
        facts(Some(GitFacts {
            branch: Some("b".into()),
            status: vec![change('M', ' '), change('?', '?')],
            head: "abc".into(),
            track: "".into(),
            upstream: Some(AheadBehind { ahead: 2, behind: 1 }),
            behind_default: Some(5),
            drift: vec!["d".into()],
        })),
        false,
    );
    assert_eq!(r.phase, "ready");
    assert_eq!(r.branch.as_deref(), Some("b"));
    assert_eq!(r.detached_sha, None);
    assert_eq!(r.dirty, Some(DirtyReport { modified: 1, untracked: 1 }));
    assert_eq!(r.upstream, Some(UpstreamReport { ahead: 2, behind: 1 }));
    assert_eq!(r.behind_default, Some(5));
    assert_eq!(r.sync.state, "stale");
    assert_eq!(r.sync.at.as_deref(), Some("then"));
    assert_eq!(r.sync.drift, vec!["d".to_string()]);
    assert_eq!(r.ports[0].port, 3014);
}

#[test]
fn a_detached_tree_and_one_without_git_are_reported() {
    let r = tree_report(
        facts(Some(GitFacts {
            branch: None,
            status: vec![],
            head: "abc".into(),
            track: "".into(),
            upstream: Some(AheadBehind { ahead: 2, behind: 1 }),
            behind_default: None,
            drift: vec![],
        })),
        true,
    );
    assert_eq!(r.detached_sha.as_deref(), Some("abc"));
    assert_eq!(r.upstream, None);
    let r = tree_report(
        facts(Some(GitFacts {
            branch: Some("b".into()),
            status: vec![],
            head: "abc".into(),
            track: "[gone]".into(),
            upstream: Some(AheadBehind { ahead: 2, behind: 1 }),
            behind_default: None,
            drift: vec![],
        })),
        true,
    );
    assert_eq!(r.upstream, None);
    let r = tree_report(facts(None), true);
    assert_eq!(r.dirty, None);
    assert!(r.sync.changed.is_empty());
    assert_eq!(r.sync.state, "ok");
}

#[test]
fn locks_are_listed_by_level_and_name() {
    let list = lock_list(vec![
        named_lock("repo", "gpu", "/l/gpu", 2, vec![(0, Some((7, "run".into())))]),
        tree_lock("repo/x", "/l/x", true, Some((3, "new".into()))),
        tree_lock("repo/a", "/l/a", false, None),
    ]);
    let names: Vec<(u8, &str)> = list.iter().map(|l| (l.level, l.name.as_str())).collect();
    assert_eq!(names, vec![(1, "repo/a"), (1, "repo/x"), (4, "repo:gpu")]);
    assert_eq!((list[2].held, list[2].slots, list[2].held_slots), (true, Some(2), Some(1)));
    assert!(!named_lock("repo", "gpu", "/l/gpu", 2, vec![]).held);
}

#[test]
fn a_canonical_checkout_says_how_many_slots_a_lock_has() {
    let lock = |name: &str, slots: u16, canonical: bool| NamedLock {
        label: "repo".into(),
        name: name.into(),
        slots,
        canonical,
    };
    let locks = vec![lock("gpu", 1, false), lock("gpu", 4, true), lock("db", 2, false)];
    assert_eq!(slots_of(&locks, "repo", "gpu"), Some(4));
    assert_eq!(slots_of(&locks, "repo", "db"), Some(2));
    assert_eq!(slots_of(&locks, "other", "db"), None);
}

#[test]
fn the_last_assignment_of_a_key_stands() {
    assert_eq!(assignment("k=v=w").unwrap(), ("k".to_string(), "v=w".to_string()));
    assert_eq!(assignment("k=").unwrap(), ("k".to_string(), String::new()));
    assert_eq!(
        assignment("k").unwrap_err().message,
        "metadata assignment `k` is missing `=`"
    );
    let mut meta = map(&[("a", "1"), ("b", "2")]);
    let pair = |k: &str, v: &str| (k.to_string(), v.to_string());
    edit(&mut meta, &vec![pair("a", "3"), pair("b", ""), pair("c", "x"), pair("a", "4")]);
    assert_eq!(meta.get("a").map(|s| s.as_str()), Some("4"));
    assert_eq!(meta.get("b"), None);
    assert_eq!(text_of(&meta), "a=4\nc=x");
    let fresh = creation(&vec![pair("k", "v"), pair("k", "")]);
    assert_eq!(fresh.get("k").map(|s| s.as_str()), Some(""));
}

#[test]
fn commands_that_run_another_are_judged() {
    assert_eq!(judge_exec(true, false, &map(&[])).unwrap_err().code, "JSON_UNSUPPORTED");
    assert_eq!(json_unsupported().class, ExitClass::Usage);
    assert_eq!(judge_exec(false, true, &map(&[])).unwrap_err().code, "NO_GATE_REFUSED");
    assert!(judge_exec(false, true, &map(&[("TMUX", "/tmp/s")])).is_ok());
    assert!(judge_exec(false, false, &map(&[])).is_ok());
}

#[test]
fn an_editor_is_found_in_order() {
    let shell = |e: Editor| match e {
        Editor::Configured => "configured".to_string(),
        Editor::Shell(s) => s,
    };
    let env = map(&[("VISUAL", "vi"), ("EDITOR", "ed")]);
    assert_eq!(shell(editor(true, &env).unwrap()), "configured");
    assert_eq!(shell(editor(false, &env).unwrap()), "vi");
    assert_eq!(shell(editor(false, &map(&[("VISUAL", ""), ("EDITOR", "ed")])).unwrap()), "ed");
    assert_eq!(editor(false, &map(&[])).unwrap_err().code, "EDITOR_UNSET");
}

#[test]
fn only_resources_are_destroyed() {
    let nodes = vec![
        PlanNode { id: "build".into(), is_resource: false },
        PlanNode { id: "db".into(), is_resource: true },
    ];
    assert_eq!(resource_node(&nodes, "db").unwrap(), 1);
    let e = resource_node(&nodes, "build").unwrap_err();
    assert_eq!(e.message, "task `build` is not a resource");
    assert_eq!(resource_node(&nodes, "none").unwrap_err().code, "NOT_A_RESOURCE");
    assert_eq!(config_layer(true), "merged");
    assert_eq!(config_layer(false), "effective");
    assert_eq!(displaced_text(&Some("repo/x".into())), "displaced repo/x\n");
    assert_eq!(displaced_text(&None), "");
}

#[test]
fn completions_name_their_command() {
    assert!(generate(Shell::Bash).ends_with("complete -F _wt_targets wt"));
    assert!(generate(Shell::Zsh).starts_with("#compdef wt\n"));
    assert!(generate(Shell::Fish).contains("complete -c wt"));
}

#[test]
fn a_build_covers_the_commit_it_was_made_of() {
    let slot = Slot::for_tree("/t");
    assert_eq!(slot.status, "/t/.wt/build.status");
    assert_eq!(slot.log, "/t/.wt/logs/wt-setup.log");
    assert!(slot_for("/t", &Some("/t/.wt/build.status".into()), false).is_some());
    assert!(slot_for("/t", &Some("/u/.wt/build.status".into()), true).is_none());
    assert!(slot_for("/t", &None, true).is_some());
    assert!(slot_for("/t", &None, false).is_none());
    let b = own_build(None, "/log", 9, "now".into(), Some("abc".into()));
    assert_eq!((b.log.as_str(), b.pid), ("/log", 9));
    let kept = own_build(Some(b), "/other", 10, "later".into(), Some("def".into()));
    assert_eq!((kept.log.as_str(), kept.pid, kept.started.as_str()), ("/log", 10, "later"));
    let build = Some(BuildState {
        started: "now".into(),
        log: "/log".into(),
        pid: 1,
        head: Some("abc".into()),
    });
    assert!(is_fresh(&build, "abc", &Some("ok\n".into())));
    assert!(!is_fresh(&build, "def", &Some("ok\n".into())));
    assert!(!is_fresh(&build, "abc", &Some("failed".into())));
    assert!(!is_fresh(&build, "abc", &None));
    assert!(!is_fresh(&None, "abc", &Some("ok".into())));
}

#[test]
fn this_program_is_started_with_its_home() {
    let r = spawn_wt(
        "/bin/wt",
        "/cwd",
        "/home",
        &vec!["anchor".into(), "repo".into()],
        &vec![("A".into(), "1".into())],
    );
    assert_eq!(r.program, "/bin/wt");
    assert_eq!(r.args, vec!["anchor".to_string(), "repo".to_string()]);
    assert_eq!(r.cwd.as_deref(), Some("/cwd"));
    assert_eq!(r.env.get("WT_HOME").map(|s| s.as_str()), Some("/home"));
    assert_eq!(r.env.get("A").map(|s| s.as_str()), Some("1"));
}

#[test]
fn environments_are_written_for_shells_files_and_people() {
    let env = vec![("A".to_string(), "it's".to_string()), ("B".to_string(), "2".to_string())];
    assert_eq!(quote("it's"), "'it'\\''s'");
    let prior = vec![
        ("GONE".to_string(), None),
        ("HAD".to_string(), Some("v".to_string())),
        ("A".to_string(), None),
    ];
    assert_eq!(
        shell_text(&env, &prior, &vec!["A".to_string()]),
        "export A='it'\\''s'\nexport B='2'\nunset GONE"
    );
    assert_eq!(dotenv_text(&env), "A=it's\nB=2");
    let bins = vec![
        BinReport { dir: "/b".into(), exists: true, executables: vec!["x".into(), "y".into()] },
        BinReport { dir: "/c".into(), exists: false, executables: vec![] },
    ];
    assert_eq!(
        inventory_text(&env, &bins),
        "A=it's\nB=2\n\nbin inventory:\n/b\tpresent\tx,y\n/c\tmissing\t"
    );
    assert_eq!(
        deactivate_text("WT_ACTIVATION", &prior),
        "unset WT_ACTIVATION\nunset GONE\nexport HAD='v'\nunset A"
    );
}

fn wrong(code: &str) -> CoreError {
    CoreError::new(ExitClass::State, code, "m", "r")
}

#[test]
fn a_build_is_swept_whether_it_went_well_or_not() {
    for fails in [false, true] {
        let mut build = Building::new(true, false);
        let mut seen = vec![build.step];
        while build.step != BuildStep::Done && build.step != BuildStep::Failed {
            let event = match build.step {
                BuildStep::Run if fails => BuildEvent::Failure(wrong("TASK_FAILED")),
                BuildStep::Owner | BuildStep::Finish => BuildEvent::Failure(wrong("X")),
                _ => BuildEvent::Succeeded,
            };
            build.advance(event);
            seen.push(build.step);
        }
        let last = if fails { BuildStep::Failed } else { BuildStep::Done };
        assert_eq!(
            seen,
            [
                BuildStep::Running,
                BuildStep::Owner,
                BuildStep::Run,
                BuildStep::Finish,
                BuildStep::Sweep,
                last,
            ]
        );
        assert!(build.swept);
        assert_eq!(build.ran, Some(!fails));
        assert_eq!(build.error.map(|e| e.code), fails.then(|| "TASK_FAILED".to_string()));
    }
    let mut shown = Building::new(false, true);
    shown.advance(BuildEvent::Succeeded);
    assert!(shown.step == BuildStep::Done && !shown.swept);
    let mut stuck = Building::new(true, false);
    stuck.advance(BuildEvent::Failure(wrong("X")));
    assert!(stuck.step == BuildStep::Failed && stuck.ran.is_none());
    assert_eq!((end_text(true), end_text(false)), ("ok\n", "failed\n"));
}

#[test]
fn nothing_is_destroyed_by_hand_without_consent() {
    let mut declined = Acting::new(true);
    declined.advance(ActEvent::No);
    declined.advance(ActEvent::Succeeded);
    assert!(declined.step == ActStep::Declined && !declined.destroyed);
    for refreshes in [false, true] {
        let mut act = Acting::new(refreshes);
        let mut seen = Vec::new();
        while act.step != ActStep::Done {
            seen.push(act.step);
            act.advance(ActEvent::Succeeded);
        }
        let mut steps = vec![
            ActStep::Confirm,
            ActStep::Enter,
            ActStep::Plan,
            ActStep::Declare,
            ActStep::Before,
            ActStep::Destroy,
        ];
        if refreshes {
            steps.extend([ActStep::Run, ActStep::After]);
        }
        assert_eq!(seen, steps);
    }
    let mut broken = Acting::new(false);
    broken.advance(ActEvent::Succeeded);
    broken.advance(ActEvent::Failure(wrong("TREE_BUSY")));
    assert!(broken.step == ActStep::Failed && !broken.destroyed);
}

#[test]
fn what_is_kept_of_a_tree_is_changed_at_its_address() {
    let at = Coordinates {
        slot: 0,
        geometry: Geometry { base: 3000, stride: 4, port_base: 3000 },
        ports: Assoc::new(),
        name_short: "s".into(),
        session_name: "s".into(),
    };
    let own = canonical_record("id", "repo", "/src", at, "now", None);
    let mut registry = Registry { labels: Assoc::new(), trees: vec![own], tombstones: vec![] };
    let edits = vec![("a".to_string(), "1".to_string()), ("b".to_string(), "2".to_string())];
    edit_tree(&mut registry, "repo", "canonical", "repo", &edits).unwrap();
    let unset = vec![("a".to_string(), String::new())];
    edit_tree(&mut registry, "repo", "canonical", "repo", &unset).unwrap();
    assert_eq!(text_of(&registry.trees[0].meta), "b=2");
    let error = edit_tree(&mut registry, "repo", "x", "repo/x", &unset).unwrap_err();
    assert_eq!(error.code, "NOT_FOUND");
}
