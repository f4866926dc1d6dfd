use wt::assoc::Assoc;
use wt::context::{
    affirmative, asked, cache_root, check_format, confirm, consults_lock, cwd_missing,
    declared_scripts, door_lock_path, duration, git_lock_path, git_wait, identity_ok,
    identity_text, looked_into, port_busy, require_identity, resolve_home, reused, rmw_wait,
    slot_ports, slot_search, state_lock_path, state_missing, taken, tree_cache_dir, tree_lock_path, tree_wait,
    Consent, LabelRec, Registry, SlotScan, SourceKind, Tombstone, TreeRec,
};
use wt::doctor::Geometry;
use wt::error::{CoreError, Details, ExitClass};
use wt::model::StatePhase;
use wt::proc::ChildStatus;
use wt::output::{
    build_result, build_status_path, coloured, error_lines, exit_of, notice, notice_line,
    notice_shown, session_warning, stdout_text, valid_background_build_status, with_notices, Color,
    NoticeLevel,
};

fn env(pairs: &[(&str, &str)]) -> Assoc<String> {
    let mut out = Assoc::new();
    for (key, value) in pairs {
        out.put(key, value.to_string());
    }
    out
}

fn tree(label: &str, name: &str, slot: u32) -> TreeRec {
    TreeRec {
        tree_id: format!("{label}-{name}"),
        label: label.into(),
        name: name.into(),
        canonical: name == "main",
        path: format!("/trees/{label}/{name}"),
        slot,
        geometry: Geometry { base: 3000, stride: 4, port_base: 3000 + 4 * slot as u16 },
        ports: Assoc::new(),
        name_short: name.into(),
        session_name: format!("{label}_{name}"),
        created_at: "then".into(),
        agent: None,
        meta: Assoc::new(),
        kind: SourceKind::Branch,
        branch: None,
        pr: None,
        start: None,
    }
}

fn registry() -> Registry {
    let mut labels = Assoc::new();
    labels.put(
        "repo",
        LabelRec {
            path: "/trees/repo/main".into(),
            gitdir_id: "g1".into(),
            common_gitdir: "/trees/repo/main/.git".into(),
            registered_at: "then".into(),
            trees_dir: None,
            default_branch: None,
        },
    );
    Registry {
        labels,
        trees: vec![tree("repo", "main", 0), tree("repo", "x", 2)],
        tombstones: vec![Tombstone {
            label: "repo".into(),
            name: "old".into(),
            slot: 1,
            geometry: Geometry { base: 3000, stride: 8, port_base: 3004 },
            ports: Assoc::new(),
            name_short: "x".into(),
            session_name: "repo_old".into(),
            path: "/trees/repo/old".into(),
            materialized: Vec::new(),
            removed_at: "then".into(),
            reason: "removed".into(),
        }],
    }
}

#[test]
fn the_home_is_the_given_one_or_the_environments() {
    let both = env(&[("WT_HOME", "/w"), ("HOME", "/h")]);
    assert_eq!(resolve_home(&Some("/g".into()), &both).unwrap(), "/g");
    assert_eq!(resolve_home(&None, &both).unwrap(), "/w");
    assert_eq!(resolve_home(&None, &env(&[("HOME", "/h")])).unwrap(), "/h/.wt");
    assert_eq!(resolve_home(&None, &env(&[])).unwrap_err().code, "HOME_UNRESOLVED");
}

#[test]
fn an_old_home_is_refused() {
    assert!(check_format(true, false, false).is_ok());
    assert_eq!(check_format(true, true, false).unwrap_err().code, "HOME_MIXED");
    assert_eq!(check_format(false, false, true).unwrap_err().code, "HOME_OLD_FORMAT");
    assert_eq!(cwd_missing("why").message, "cannot read the current directory: why");
}

#[test]
fn paths_below_the_home_have_their_places() {
    assert_eq!(state_lock_path("/h", "repo", "x"), "/h/locks/repo/x.rmw.lock");
    assert_eq!(tree_lock_path("/h", "repo", "x"), "/h/locks/repo/x.lock");
    assert_eq!(door_lock_path("/h", "repo", "x", 7), "/h/locks/repo/x.doors/7.lock");
    assert_eq!(git_lock_path("/h", "g1"), "/h/locks/git/g1.lock");
    assert_eq!(cache_root("/h"), "/h/cache");
    assert_eq!(tree_cache_dir("/h", "repo", "x"), "/h/cache/cargo-build/repo/x");
}

#[test]
fn waits_are_given_set_or_usual() {
    assert_eq!((duration(Some(1), 2), duration(None, 2)), (1, 2));
    assert_eq!((rmw_wait(None), rmw_wait(Some(1))), (5000, 1));
    assert_eq!(tree_wait(Some(Some(1)), Some(2)), 1);
    assert_eq!(tree_wait(Some(None), Some(2)), 30000);
    assert_eq!(tree_wait(None, Some(2)), 2);
    assert_eq!(tree_wait(None, None), 30000);
    assert_eq!(git_wait(None), 60000);
}

#[test]
fn consent_is_given_asked_for_or_refused() {
    assert!(matches!(confirm("remove", true, false), Ok(Consent::Given)));
    assert!(matches!(confirm("remove", false, true), Ok(Consent::Ask(q)) if q == "remove? [y/N] "));
    assert_eq!(confirm("remove", false, false).unwrap_err().code, "CONFIRM_REQUIRED");
    assert_eq!(asked("sure"), "sure [y/N] ");
    for yes in ["y", "Y\n", " yes ", "YES"] {
        assert!(affirmative(yes), "{yes:?}");
    }
    for no in ["", "n", "yess", "ye"] {
        assert!(!affirmative(no), "{no:?}");
    }
}

#[test]
fn the_registry_finds_what_it_holds() {
    let r = registry();
    assert_eq!(r.tree_at("repo", "x"), Some(1));
    assert_eq!(r.tree_at("repo", "y"), None);
    assert_eq!(r.canonical_at("repo"), Some(0));
    assert_eq!(r.path_at("/trees/repo/x"), Some(1));
    assert_eq!(r.gitdir_at("g1"), Some(0));
    assert_eq!(r.gitdir_at("g2"), None);
    assert_eq!(r.checkout_at("/trees/repo/main"), Some(0));
    assert_eq!(r.tombstone_at("repo", "old"), Some(0));
    assert_eq!(r.tree("repo", "x", "repo/x").unwrap().slot, 2);
    let error = r.tree("repo", "y", "repo/y").unwrap_err();
    assert_eq!((error.class, error.message.as_str()), (ExitClass::NotFound, "target `repo/y` was not found"));
    assert_eq!(state_missing("repo/x").message, "state for `repo/x` is missing");
}

#[test]
fn scripts_are_read_out_of_a_package() {
    let scripts = declared_scripts(br#"{"scripts": {"test": "x", "build": "y"}}"#);
    assert_eq!(scripts, ["build", "test"]);
    assert!(declared_scripts(b"{}").is_empty());
    assert!(declared_scripts(b"no").is_empty());
    assert!(declared_scripts(br#"{"scripts": []}"#).is_empty());
    assert_eq!(looked_into(), ["package.json", "rustfmt.toml", ".rustfmt.toml"]);
}

#[test]
fn a_directory_is_a_trees_by_its_identity() {
    assert_eq!(identity_text("abc"), "abc\n");
    assert!(identity_ok(&Some("abc\n".into()), "abc"));
    assert!(!identity_ok(&Some("abc".into()), "abc"));
    assert!(!identity_ok(&Some("abd\n".into()), "abc"));
    assert!(!identity_ok(&None, "abc"));
    assert!(require_identity(true, "/t", "repo", "repo/x", false).is_ok());
    let own = require_identity(false, "/t", "repo", "repo/x", false).unwrap_err();
    assert_eq!(
        own.remedy,
        "run `wt prune --records repo/x`, `wt remove repo/x`, or `wt adopt /t`"
    );
    let canonical = require_identity(false, "/t", "repo", "repo/x", true).unwrap_err();
    assert_eq!(canonical.remedy, "run `wt register /t --label repo --repair`");
    assert!(consults_lock(Some(StatePhase::Removing)));
    assert!(!consults_lock(Some(StatePhase::Ready)) && !consults_lock(None));
}

#[test]
fn what_is_taken_is_counted_with_the_tombstones() {
    let t = taken(&registry());
    assert_eq!(t.ranges, [(3000, 3003), (3008, 3011), (3004, 3011)]);
    assert_eq!(t.slots, [0, 2, 1]);
    assert_eq!(t.name_shorts, ["main", "x"]);
    assert_eq!(t.sessions, ["repo_main", "repo_old", "repo_x"]);
    assert_eq!(reused(&registry(), "repo", "old", 4), (Some(0), 8));
    assert_eq!(reused(&registry(), "repo", "new", 4), (None, 4));
    assert_eq!(slot_ports(3004, 3), [3004, 3005, 3006]);
    assert_eq!(slot_ports(65535, 1), [65535]);
}

#[test]
fn the_least_slot_that_nobody_uses_is_found() {
    let mut scan = SlotScan::new(vec![0, 2, 1], 6);
    assert_eq!(scan.next(), Some(3));
    scan.probed(true);
    assert_eq!(scan.next(), Some(4));
    scan.probed(false);
    assert!(scan.found);
    assert_eq!((scan.slot, scan.squatted.clone()), (4, vec![3]));
    let mut full = SlotScan::new(vec![0], 2);
    full.probed(true);
    assert_eq!(full.next(), None);
    assert!(!full.found);
    let broken = CoreError::new(ExitClass::Internal, "PORT_PROBE_FAILED", "m", "r");
    assert!(port_busy(&Err(broken)) && port_busy(&Ok(true)) && !port_busy(&Ok(false)));
}

#[test]
fn notices_are_sorted_and_shown_to_who_watches() {
    let more = vec![
        notice(NoticeLevel::Warn, "B", "s", "m"),
        notice(NoticeLevel::Info, "C", "s", "m"),
    ];
    let all = with_notices(vec![notice(NoticeLevel::Warn, "A", "s", "m")], more);
    let codes: Vec<&str> = all.iter().map(|n| n.code.as_str()).collect();
    assert_eq!(codes, ["C", "A", "B"]);
    assert!(notice_shown("A", false, true, false));
    assert!(notice_shown("A", false, false, true));
    assert!(!notice_shown("A", true, true, true));
    assert!(!notice_shown("A", false, false, false));
    assert!(!notice_shown("SESSION_BACKEND_SELECTED", false, true, true));
    assert_eq!(notice_line("A", "m", false), "wt: A — m");
    assert_eq!(notice_line("A", "m", true), "wt: \u{1b}[33mA\u{1b}[0m — m");
    let error = CoreError::new(ExitClass::State, "E", "m", "r");
    assert_eq!(error_lines(&error, false), ("wt: E — m".into(), "remedy: r".into()));
    assert_eq!(error_lines(&error, true).0, "wt: \u{1b}[31mE\u{1b}[0m — m");
    assert_eq!(
        session_warning("repo/x", "why"),
        "wt: SESSION_CREATE_FAILED — session for repo/x was not created: why; run `wt open repo/x` to retry"
    );
    assert!(coloured(Color::Always, false) && coloured(Color::Auto, true));
    assert!(!coloured(Color::Auto, false) && !coloured(Color::Never, true));
}

#[test]
fn what_is_written_ends_its_line() {
    assert_eq!(stdout_text("a"), "a\n");
    assert_eq!(stdout_text("a\n"), "a\n");
    assert_eq!(stdout_text(""), "");
}

#[test]
fn a_task_hands_on_its_status() {
    let failed = |code: &str, details| {
        CoreError::new(ExitClass::ChildFailed, code, "m", "r").with_details(details)
    };
    let child = |code, signal| Details::Child(ChildStatus { code, signal });
    let coded = failed("TASK_FAILED", child(Some(3), None));
    assert_eq!(exit_of("run", false, &coded, 8), 3);
    assert_eq!(exit_of("run", true, &coded, 8), 8);
    assert_eq!(exit_of("sync", false, &coded, 8), 8);
    assert_eq!(exit_of("run", false, &failed("OTHER", child(Some(3), None)), 8), 8);
    assert_eq!(exit_of("build", false, &failed("TASK_FAILED", child(None, Some(15))), 8), 143);
    assert_eq!(exit_of("fmt", false, &failed("TASK_FAILED", child(None, None)), 8), 8);
    assert_eq!(exit_of("test", false, &failed("TASK_FAILED", Details::Nothing), 8), 8);
}

#[test]
fn a_build_is_recorded_only_in_its_tree() {
    let root = Some(String::from("/t"));
    assert!(valid_background_build_status("/t/.wt/build.status", &root));
    assert!(!valid_background_build_status("/u/.wt/build.status", &root));
    assert!(!valid_background_build_status("/t/.wt/other", &root));
    assert!(!valid_background_build_status("/t/.wt/build.status", &None));
    let given = Some(String::from("/u/.wt/build.status"));
    assert_eq!(build_status_path(&given, &root, &root), None);
    assert_eq!(build_status_path(&None, &root, &root).as_deref(), Some("/t/.wt/build.status"));
    assert_eq!(build_status_path(&None, &root, &None), None);
    assert_eq!((build_result(true), build_result(false)), ("ok\n", "failed\n"));
}

#[test]
fn no_slot_is_searched_where_a_place_is_taken_again() {
    assert!(slot_search(Some(0), vec![0, 1], 4).is_none());
    let scan = slot_search(None, vec![0, 1], 4).unwrap();
    assert_eq!(scan.next(), Some(2));
    assert!(slot_search(None, vec![0, 1], 2).unwrap().next().is_none());
}
