use wt::assoc::Assoc;
use wt::doctor::{
    available_binaries, canonical_observed_path, config_findings, doors_text, finding,
    git_registry_findings, looks_inside, machine_findings, nudge_path, path_prefix_is_assembled,
    phase_finding, repo_findings, shell_shadows, tooling_findings, tree_findings, BinFacts,
    BuildFacts, ConfigFacts, DefaultFacts, Finding, Geometry, InsideFacts, ListedFacts,
    PortFacts, ResourceFacts, Severity, ShimFacts, StateFacts, TreeFacts,
};
use wt::model::{phase_name, DerivedPhase, ProbeFound, ResourceState};
use wt::remove::DoorHolder;

fn geometry() -> Geometry {
    Geometry { base: 3000, stride: 4, port_base: 3004 }
}

fn sound() -> InsideFacts {
    InsideFacts {
        config: Vec::new(),
        names: Vec::new(),
        untracked_cache: Some(true),
        head: Some("c1".into()),
        default: None,
        upstream_gone: false,
    }
}

fn tree() -> TreeFacts {
    TreeFacts {
        subject: "repo/tree".into(),
        label: "repo".into(),
        path: "/trees/tree".into(),
        canonical: false,
        phase: DerivedPhase::Ready,
        state: None,
        build: None,
        geometry: geometry(),
        settings_base: 3000,
        settings_stride: 4,
        holders: Vec::new(),
        lock_held: false,
        session: "no".into(),
        dir_exists: true,
        inside: Some(sound()),
    }
}

fn codes(findings: &[Finding]) -> Vec<&str> {
    findings.iter().map(|f| f.code.as_str()).collect()
}

#[test]
fn observed_worktree_paths_compare_by_canonical_identity() {
    let real = "/root/private/var/tree";
    let alias = "/root/var/tree";
    assert_ne!(alias, real);
    assert_eq!(
        canonical_observed_path(alias, &Some(real.into())),
        canonical_observed_path(real, &Some(real.into()))
    );
    assert_eq!(canonical_observed_path(alias, &None), alias);
}

#[test]
fn a_sound_tree_gives_no_finding() {
    assert!(tree_findings(&tree(), Vec::new()).is_empty());
}

#[test]
fn a_replacement_is_reported_and_not_looked_into() {
    let mut t = tree();
    t.phase = DerivedPhase::Replaced;
    t.inside = Some(InsideFacts { upstream_gone: true, untracked_cache: None, ..sound() });
    assert!(!looks_inside(&t));
    let found = tree_findings(&t, Vec::new());
    assert_eq!(codes(&found), ["TREE_REPLACED"]);
    assert_eq!(found[0].message, "tree phase is replaced");
    assert_eq!(found[0].severity, Severity::Error);
    t.canonical = true;
    let found = tree_findings(&t, Vec::new());
    assert_eq!(found[0].remedy, "run `wt register /trees/tree --label repo --repair`");
}

#[test]
fn each_phase_has_its_rule() {
    let code = |phase| phase_finding(phase).map(|rule| rule.1);
    assert_eq!(code(DerivedPhase::Missing), Some("TREE_MISSING"));
    assert_eq!(code(DerivedPhase::Incomplete), Some("TREE_INCOMPLETE"));
    assert_eq!(code(DerivedPhase::Interrupted), Some("TREE_INTERRUPTED"));
    assert_eq!(code(DerivedPhase::InitInterrupted), Some("INIT_INTERRUPTED"));
    assert_eq!(code(DerivedPhase::RemoveInterrupted), Some("REMOVE_INTERRUPTED"));
    assert_eq!(code(DerivedPhase::Claimed), Some("TREE_CLAIMED"));
    assert_eq!(code(DerivedPhase::Ready), None);
    assert_eq!(phase_name(DerivedPhase::InitInterrupted), "init-interrupted");
}

#[test]
fn each_state_of_a_build_is_told() {
    for (state, expected) in [
        ("running", vec!["BUILD_RUNNING"]),
        ("abandoned", vec!["BUILD_ABANDONED"]),
        ("failed", vec!["BUILD_FAILED"]),
        ("unknown", vec!["BUILD_STATUS_MISSING"]),
        ("ok", vec![]),
        ("odd", vec!["BUILD_STATUS_UNKNOWN"]),
    ] {
        let mut t = tree();
        t.build = Some(BuildFacts { state: state.into(), log: "/log".into() });
        let found = tree_findings(&t, Vec::new());
        assert_eq!(codes(&found), expected, "{state}");
        assert!(found.iter().all(|f| f.message.ends_with("log: /log")));
    }
}

#[test]
fn records_give_their_findings_in_order() {
    let resource = |task: &str, state| ResourceFacts {
        task: task.into(),
        state,
        undeclared: false,
        last_probe: None,
        has_instance: false,
    };
    let mut t = tree();
    t.phase = DerivedPhase::Missing;
    t.dir_exists = false;
    t.state = Some(StateFacts {
        verify_pending: true,
        last_error: Some("REFRESH_SKIPPED:db".into()),
        resources: vec![
            ResourceFacts {
                undeclared: true,
                last_probe: Some(ProbeFound::Failed),
                ..resource("db", ResourceState::Orphaned)
            },
            ResourceFacts {
                last_probe: Some(ProbeFound::Absent),
                has_instance: true,
                ..resource("cache", ResourceState::Declared)
            },
        ],
    });
    let found = tree_findings(&t, Vec::new());
    assert_eq!(
        codes(&found),
        [
            "TREE_MISSING",
            "VERIFY_PENDING",
            "TREE_MISSING_PENDING",
            "REFRESH_SKIPPED",
            "RESOURCE_ORPHANED",
            "RESOURCE_UNDECLARED",
            "RESOURCE_PROBE_FAILED",
            "RESOURCE_GONE",
        ]
    );
    assert_eq!(found[3].subject, "repo/tree:db");
    assert_eq!(found[7].subject, "repo/tree:cache");
}

#[test]
fn listeners_are_told_in_the_order_of_the_ports() {
    let port = |name: &str, index, bound| PortFacts { name: name.into(), index, bound };
    let mut t = tree();
    t.settings_stride = 8;
    t.lock_held = true;
    let found = tree_findings(&t, vec![port("web", 1, true), port("db", 0, true), port("x", 2, false)]);
    assert_eq!(
        codes(&found),
        [
            "GEOMETRY_CHANGED",
            "TREE_IN_USE",
            "PORT_SQUATTED",
            "PORT_BOUND",
            "PORT_SQUATTED",
            "PORT_BOUND",
            "SLOT_SQUATTED",
        ]
    );
    assert_eq!(found[2].subject, "repo/tree:db");
    assert_eq!(found[2].message, "port 3004 is bound without a wt session");
    assert_eq!(found[5].message, "port 3005 is bound");
    t.holders = vec![DoorHolder { pid: 7, verb: "run".into(), since: "t".into() }];
    let found = tree_findings(&t, vec![port("web", 1, true)]);
    assert_eq!(codes(&found), ["GEOMETRY_CHANGED", "TREE_IN_USE", "PORT_BOUND"]);
    assert_eq!(found[1].message, "tree lock is held by pid 7 (run)");
    assert_eq!(doors_text(&t.holders), ["pid 7 (run)"]);
    let full = (0..4).map(|i| port("p", i, false)).collect();
    assert!(codes(&tree_findings(&tree(), full)).contains(&"PORTS_EXHAUSTED"));
}

#[test]
fn a_merged_branch_is_behind_the_default_one() {
    let mut t = tree();
    let default = |ancestor, commit: &str| Some(DefaultFacts { ancestor, commit: Some(commit.into()) });
    t.inside = Some(InsideFacts {
        default: default(true, "c2"),
        upstream_gone: true,
        untracked_cache: Some(false),
        config: vec![finding(Severity::Info, "NO_VERIFY", "s", "m", "r")],
        ..sound()
    });
    assert_eq!(
        codes(&tree_findings(&t, Vec::new())),
        ["NO_VERIFY", "STATUS_CACHE_OFF", "BRANCH_MERGED", "UPSTREAM_GONE"]
    );
    t.inside = Some(InsideFacts { default: default(true, "c1"), ..sound() });
    assert!(tree_findings(&t, Vec::new()).is_empty(), "the default branch itself is not merged");
    t.inside = Some(InsideFacts { default: default(false, "c2"), ..sound() });
    assert!(tree_findings(&t, Vec::new()).is_empty());
}

fn config() -> ConfigFacts {
    ConfigFacts {
        subject: "repo/tree".into(),
        canonical: false,
        coordination: vec![finding(Severity::Warn, "UNCOORDINATED", "s", "m", "r")],
        root: "/t".into(),
        shims: Vec::new(),
        bins: Vec::new(),
        search: None,
        has_verify: true,
        adapters: Some(Vec::new()),
        names: vec!["Cargo.lock".into()],
        exclude: "# >>> wt managed >>>\n# <<< wt managed <<<\n".into(),
    }
}

#[test]
fn a_configuration_gives_its_findings() {
    assert!(config_findings(&config()).is_empty());
    let mut c = config();
    c.canonical = true;
    c.shims = vec![ShimFacts {
        command: "tool".into(),
        path: "/t/.wt/shims/tool".into(),
        broken: true,
        shadowed: true,
    }];
    c.bins = vec![BinFacts { path: "/t/bin".into(), is_dir: false }];
    c.has_verify = false;
    c.names = Vec::new();
    c.exclude = String::new();
    assert_eq!(
        codes(&config_findings(&c)),
        [
            "UNCOORDINATED",
            "SHIM_BROKEN",
            "SHIM_SHADOWED",
            "BIN_DIR_MISSING",
            "PATH_NOT_SHADOWED",
            "NO_VERIFY",
            "NO_LOCKFILE",
            "EXCLUDE_MISSING",
        ]
    );
    c.search = Some("/t/.wt/shims:/t/bin:/usr/bin".into());
    assert!(!codes(&config_findings(&c)).contains(&"PATH_NOT_SHADOWED"));
    let mut open = config();
    open.adapters = None;
    open.exclude = "# >>> wt managed >>>\n".into();
    assert_eq!(codes(&config_findings(&open)), ["NO_ADAPTER", "EXCLUDE_REPAIRED"]);
}

#[test]
fn the_search_path_begins_as_a_door_has_it() {
    let bins = vec![BinFacts { path: "/t/bin".into(), is_dir: true }];
    let has = |search: &str| path_prefix_is_assembled("/t", true, &bins, &Some(search.into()));
    assert!(has("/t/.wt/shims:/t/bin"));
    assert!(!has("/t/bin:/t/.wt/shims"));
    assert!(!has("/t/.wt/shims"));
    assert!(!path_prefix_is_assembled("/t", false, &bins, &None));
    assert!(path_prefix_is_assembled("/t", false, &Vec::new(), &None));
}

#[test]
fn shells_shadow_what_they_say_and_what_they_export() {
    let mut env: Assoc<String> = Assoc::new();
    env.put("WT_SHELL_SHADOWS", "tool\nalias\n".into());
    env.put("BASH_FUNC_fn%%", "() {}".into());
    env.put("BASH_FUNC_tool%%", "() {}".into());
    env.put("OTHER", "x".into());
    assert_eq!(shell_shadows(&env), ["alias", "fn", "tool"]);
}

#[test]
fn git_and_the_registry_are_compared() {
    let listed = vec![
        ListedFacts { path: "/a".into(), canonical: Some("/real/a".into()), is_dir: true },
        ListedFacts { path: "/b".into(), canonical: None, is_dir: true },
        ListedFacts { path: "/c".into(), canonical: None, is_dir: false },
    ];
    let found = git_registry_findings(&listed, &vec!["/real/a".into()]);
    assert_eq!(codes(&found), ["UNMANAGED_WORKTREE", "STALE_GIT_WORKTREE"]);
    assert_eq!(found[0].subject, "/b");
}

#[test]
fn the_machine_is_told_about() {
    assert_eq!(codes(&tooling_findings(Some((2, 30, 9)))), ["GIT_TOO_OLD"]);
    assert_eq!(
        tooling_findings(Some((1, 99, 0)))[0].message,
        "git 1.99.0 is older than 2.31"
    );
    assert!(tooling_findings(Some((2, 31, 0))).is_empty());
    assert!(tooling_findings(None).is_empty());
    assert_eq!(codes(&machine_findings("tmux", true)), ["SESSION_BACKEND", "ACTIVATION_IGNORED"]);
    assert_eq!(machine_findings("tmux", false)[0].message, "session backend is tmux");
    assert_eq!(codes(&repo_findings("repo", false)), ["REPO_PATH_MISSING"]);
    assert!(repo_findings("repo", true).is_empty());
    assert_eq!(nudge_path("~/.x", &Some("/home".into())), "/home/.x");
    assert_eq!(nudge_path("~/.x", &None), "~/.x");
    assert_eq!(nudge_path("/x", &Some("/home".into())), "/x");
    assert_eq!(available_binaries(&vec!["b".into(), "a".into(), "b".into()]), ["a", "b"]);
}
