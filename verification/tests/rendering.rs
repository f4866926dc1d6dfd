use wt::doctor::{Finding, Geometry, Severity};
use wt::executor::StepReport;
use wt::human::{block, consent_block, plural, table, table_row, Facts};
use wt::json::{parse, Json};
use wt::list::{
    DirtyReport, PortReport, ResourceReport, SyncReport, TreeReport,
};
use wt::locks::{named_lock, tree_lock};
use wt::model::{BelongsTo, ResourceState};
use wt::output::{notice, NoticeLevel};
use wt::prune::{PruneAction, PruneItem};
use wt::register::ConfigError;
use wt::summary::{
    format_steps, format_sync, render_adopt, render_clone, render_config, render_doctor,
    render_forget, render_list, render_locks, render_new, render_prune, render_register,
    render_remove, render_resource, render_run, render_sessions, render_status, render_sync,
    render_tasks, render_unregister, summarize_config, summarize_value, Acted, ConfigEntry,
    Created, ListRow, Registered, Removed, SessionSaid, Standing, TaskRow,
};

fn words(list: &[&str]) -> Vec<String> {
    list.iter().map(|w| w.to_string()).collect()
}

fn value(text: &str) -> Json {
    parse(text.as_bytes()).unwrap()
}

fn step(status: &str) -> StepReport {
    StepReport {
        id: "t".into(),
        scope: ".".into(),
        status: status.into(),
        child: None,
        duration_ms: 1,
    }
}

fn config_error() -> ConfigError {
    ConfigError { path: "wt.toml".into(), line: 1, col: 2, message: "bad".into() }
}

#[test]
fn facts_stand_below_their_headline() {
    let facts = Facts::none().and("path", "/p").and("branch", "b").and_if(false, "x", "y");
    assert_eq!(block("Head", &facts), "Head\n  path    /p\n  branch  b");
    assert_eq!(consent_block("Head", &Facts::none()), "Head");
    assert_eq!(plural(1, "error", "errors"), "error");
    assert_eq!(plural(0, "error", "errors"), "errors");
}

#[test]
fn columns_of_a_table_line_up() {
    let rows = vec![words(&["long value", "x", "end"]), words(&["s", "yy", "z"])];
    assert_eq!(
        table("Head", &words(&["a", "b", "c"]), &rows),
        "Head\n  a           b   c\n  long value  x   end\n  s           yy  z"
    );
    assert_eq!(table("Head", &words(&["a"]), &vec![]), "Head");
    assert_eq!(table_row(&words(&["a", "b"]), &vec![3, 1]), "a    b");
}

#[test]
fn registrations_are_told_of() {
    let mut d = Registered {
        label: "repo".into(),
        registered: true,
        resumed: false,
        path: "/p".into(),
        phase: "ready".into(),
        branch: None,
        tasks: 2,
        resources: 0,
        files: 1,
        bins: 0,
        ports: 0,
        copies: 0,
        config_errors: vec![],
    };
    assert_eq!(
        render_register(&d),
        "Registered repo\n  path      /p\n  phase     ready\n  branch    detached\n  declared  2 tasks, 1 files"
    );
    d.registered = false;
    d.tasks = 0;
    d.files = 0;
    d.branch = Some("main".into());
    d.config_errors = vec![config_error()];
    assert_eq!(
        render_register(&d),
        "repo is registered\n  path    /p\n  phase   ready\n  branch  main\n  config  wt.toml: bad"
    );
    d.resumed = true;
    assert!(render_register(&d).starts_with("Resumed registration for repo\n"));
    assert_eq!(
        render_clone("repo", true, "u", "/p", "ready"),
        "Cloned and registered repo\n  url    u\n  path   /p\n  phase  ready"
    );
    assert!(render_clone("repo", false, "u", "/p", "r").starts_with("repo is cloned and registered\n"));
    assert_eq!(
        render_unregister("repo", true, 2, 0),
        "Unregistered repo\n  destroyed  2"
    );
    assert_eq!(render_unregister("repo", false, 0, 0), "repo was already unregistered");
    assert_eq!(render_forget("repo/x", true, 1), "Forgot repo/x\n  artifacts  1");
    assert_eq!(render_forget("repo/x", false, 0), "Did not forget repo/x");
    assert_eq!(
        render_adopt("repo/x", false, true, "/p", "ready"),
        "Resumed adoption of repo/x\n  path   /p\n  phase  ready"
    );
    assert!(render_adopt("repo/x", true, false, "/p", "r").starts_with("Adopted repo/x\n"));
    assert!(render_adopt("repo/x", false, false, "/p", "r").starts_with("repo/x is already adopted\n"));
}

#[test]
fn steps_and_syncs_are_summed_up() {
    assert_eq!(format_steps(&vec![]), "no steps");
    assert_eq!(format_steps(&vec![step("ok"), step("failed")]), "1/2 passed");
    assert_eq!(
        format_steps(&vec![step("ok"), step("skipped"), step("present")]),
        "1 passed, 2 skipped"
    );
    let s = SyncReport {
        state: "stale".into(),
        at: None,
        changed: words(&["a", "b"]),
        drift: words(&["c"]),
    };
    assert_eq!(format_sync(&s), "stale; changed: a, b; drift: c");
    assert_eq!(
        render_sync("repo/x", true, &vec![step("ok")], &words(&["Cargo.lock"])),
        "Synced repo/x\n  steps   1/1 passed\n  inputs  Cargo.lock"
    );
    assert_eq!(render_sync("repo/x", false, &vec![], &vec![]), "repo/x is already in sync");
}

#[test]
fn creations_are_told_of() {
    let mut d = Created {
        target: "repo/x".into(),
        created: true,
        resumed: false,
        path: "/p".into(),
        branch: Some("b".into()),
        sync: None,
        verify: Some((true, vec![step("ok")])),
    };
    assert_eq!(
        render_new(&d),
        "Created repo/x\n  path    /p\n  branch  b\n  sync    skipped\n  verify  passed (1/1 passed)"
    );
    d.created = false;
    d.resumed = true;
    d.verify = Some((false, vec![]));
    assert!(render_new(&d).starts_with("Resumed repo/x\n"));
    assert!(render_new(&d).ends_with("verify  failed"));
    d.resumed = false;
    assert!(render_new(&d).starts_with("repo/x is ready\n"));
}

fn resource(holder: Option<&str>) -> ResourceReport {
    ResourceReport {
        scope: ".".into(),
        task: "db".into(),
        tied_to: BelongsTo::Tree,
        name: "n".into(),
        state: ResourceState::Present,
        reason: None,
        outside: false,
        undeclared: false,
        has_instance: true,
        holder: holder.map(|h| h.to_string()),
        last_probe: None,
        last_error: None,
    }
}

fn report(resources: Vec<ResourceReport>) -> TreeReport {
    TreeReport {
        target: "repo/x".into(),
        label: "repo".into(),
        name: "x".into(),
        canonical: false,
        tree_id: "id".into(),
        path: "/p".into(),
        slot: 0,
        geometry: Geometry { base: 3000, stride: 4, port_base: 3000 },
        phase: "ready".into(),
        branch: None,
        detached_sha: Some("abc".into()),
        dirty: Some(DirtyReport { modified: 1, untracked: 2 }),
        upstream: None,
        behind_default: None,
        sync: SyncReport { state: "ok".into(), at: None, changed: vec![], drift: vec![] },
        verify: None,
        session: "no".into(),
        session_name: "s".into(),
        agent: None,
        resources,
        ports: vec![PortReport { name: "web".into(), port: 3000, bound: None, index: 0 }],
        disk_kb: None,
    }
}

#[test]
fn the_status_of_a_tree_is_told() {
    let d = Standing {
        tree: report(vec![resource(Some("repo/y"))]),
        build: Some(("ok".into(), "/log".into())),
        meta: vec![("k".into(), "v".into())],
        tasks: 3,
        config_errors: vec![config_error()],
    };
    assert_eq!(
        render_status(&d),
        "repo/x is ready\n  path       /p\n  branch     abc\n  sync       ok\n  session    no\n  changes    1 modified, 2 untracked\n  build      ok (log /log)\n  meta       k=v\n  ports      web=3000\n  resources  db=present (holder repo/y)\n  tasks      3\n  config     wt.toml: bad"
    );
    let mut tree = report(vec![resource(None), resource(None)]);
    tree.ports = vec![];
    tree.dirty = None;
    tree.detached_sha = None;
    let d = Standing { tree, build: None, meta: vec![], tasks: 0, config_errors: vec![] };
    assert_eq!(
        render_status(&d),
        "repo/x is ready\n  path       /p\n  branch     unknown\n  sync       ok\n  session    no\n  resources  2"
    );
}

#[test]
fn trees_are_listed_with_holders_and_what_is_kept_of_them() {
    let row = |target: &str, holders: Vec<(String, String)>| ListRow {
        target: target.into(),
        phase: "ready".into(),
        branch: None,
        sync: "ok".into(),
        holders,
        meta: Some("v".into()),
        path: "/p".into(),
    };
    assert_eq!(
        render_list(&vec![row("a", vec![])], &None),
        "Registered trees\n  target  phase  branch    sync  path\n  a       ready  detached  ok    /p"
    );
    assert_eq!(
        render_list(
            &vec![row("a", vec![("db".into(), "b".into())]), row("b", vec![])],
            &Some("k".into())
        ),
        "Registered trees\n  target  phase  branch    sync  holders  k  path\n  a       ready  detached  ok    db:b     v  /p\n  b       ready  detached  ok             v  /p"
    );
    assert_eq!(render_list(&vec![], &None), "Registered trees");
    assert_eq!(
        render_tasks(
            "repo/x",
            &vec![TaskRow {
                id: "build".into(),
                scope: ".".into(),
                origin: "repo".into(),
                cwd: ".".into(),
                needs: words(&["a", "b"]),
            }]
        ),
        "Effective tasks for repo/x\n  task   scope  layer  cwd  needs\n  build  .      repo   .    a,b"
    );
}

#[test]
fn sessions_are_told_of() {
    let open = |created: bool, existing: bool| SessionSaid::Open {
        target: "a".into(),
        created,
        existing,
    };
    assert_eq!(render_sessions(&vec![]), "No sessions changed");
    assert_eq!(render_sessions(&vec![open(true, false)]), "Session created for a");
    assert_eq!(render_sessions(&vec![open(false, true)]), "Session already open for a");
    assert_eq!(render_sessions(&vec![open(false, false)]), "Session opened for a");
    assert_eq!(
        render_sessions(&vec![
            SessionSaid::Closed { target: "b".into(), closed: true },
            SessionSaid::Closed { target: "c".into(), closed: false },
            SessionSaid::Failed { target: "d".into(), code: "X".into() },
        ]),
        "Updated 3 sessions\n  session  b: closed\n  session  c: already closed\n  session  d: failed (X)"
    );
}

#[test]
fn removals_are_told_of() {
    let mut d = Removed {
        target: "repo/x".into(),
        removed: true,
        destroyed: 2,
        orphans_kept: words(&["db"]),
        branch_deleted: false,
        branch_kept: Some("b".into()),
        session_closed: true,
        cache_deleted: Some("/c".into()),
    };
    assert_eq!(
        render_remove(&d, &vec![]),
        "Removed repo/x\n  destroyed  2\n  orphans    db\n  kept       branch b\n  session    closed\n  cache      deleted /c"
    );
    d.removed = false;
    d.destroyed = 0;
    d.orphans_kept = vec![];
    d.branch_deleted = true;
    d.branch_kept = None;
    d.session_closed = false;
    d.cache_deleted = None;
    assert_eq!(
        render_remove(&d, &vec![]),
        "Removal of repo/x did not proceed\n  branch  deleted"
    );
    let why = vec![notice(NoticeLevel::Info, "REMOVE_DECLINED", "repo/x", "not removed")];
    assert!(render_remove(&d, &why).starts_with("not removed\n"));
}

#[test]
fn prunes_resources_and_findings_are_told_of() {
    let item = |target: &str, reasons: &[&str]| PruneItem {
        target: target.into(),
        reasons: words(reasons),
        action: PruneAction::Remove,
        result: None,
    };
    assert_eq!(
        render_prune(&vec![item("a", &["merged", "gone"]), item("b", &[])], false),
        "Prune plan has 2 items\n  item  a: remove (merged, gone)\n  item  b: remove"
    );
    assert!(render_prune(&vec![], true).starts_with("Applied prune plan to 0 items"));
    let acted = Some(Acted {
        target: "repo/x".into(),
        scope: ".".into(),
        task: "db".into(),
        before: "declared".into(),
        after: "present".into(),
    });
    assert_eq!(
        render_resource("Resource refreshed", &acted),
        "Resource refreshed: db\n  target  repo/x\n  scope   .\n  state   declared -> present"
    );
    assert_eq!(render_resource("Resource refreshed", &None), "Resource unchanged");
    let finding = Finding {
        severity: Severity::Warn,
        code: "C".into(),
        subject: "s".into(),
        message: "m".into(),
        remedy: "r".into(),
    };
    assert_eq!(
        render_doctor(&vec![finding], 0, 1, 0),
        "Doctor found 0 errors, 1 warning, 0 notes\n  warning  C s - m\n  next     r"
    );
    assert_eq!(render_doctor(&vec![], 0, 0, 0), "Doctor found no problems");
}

#[test]
fn values_of_variables_stay_out_of_a_configuration() {
    let env = value(r#"{"TOKEN": "hidden", "A": "1"}"#);
    let said = summarize_config("env", &env);
    assert!(said.contains("TOKEN") && !said.contains("hidden"));
    assert_eq!(summarize_config("env", &value("{}")), "-");
    assert_eq!(summarize_config("env", &value("3")), "");
    assert_eq!(summarize_config("ports", &value(r#"["a", 2, {"k": 1}]"#)), r#"a, 2, {"k":1}"#);
    assert_eq!(summarize_value(&value("null")), "null");
    assert_eq!(summarize_value(&value("true")), "true");
    assert_eq!(summarize_value(&value("-4")), "-4");
    assert_eq!(summarize_value(&value("[]")), "-");
    assert_eq!(summarize_value(&value("\"t\"")), "t");
    let entries = vec![
        ConfigEntry {
            key: "root".into(),
            scope: ".".into(),
            layer: "repo".into(),
            value: value(r#"{"bin": ["b"]}"#),
        },
        ConfigEntry {
            key: "agent".into(),
            scope: ".".into(),
            layer: "home".into(),
            value: value("\"x\""),
        },
    ];
    assert_eq!(
        render_config("repo/x", &entries),
        "Effective config for repo/x\n  key    scope  layer  value\n  bin    .      repo   b\n  agent  .      home   x"
    );
}

#[test]
fn locks_and_plans_are_shown() {
    let locks = vec![
        tree_lock("repo/x", "/l", true, Some((7, "run".into()))),
        named_lock("repo", "gpu", "/g", 2, vec![(0, Some((9, "run".into()))), (1, None)]),
        tree_lock("repo/y", "/m", false, Some((7, "run".into()))),
    ];
    assert_eq!(
        render_locks(&locks),
        "Coordination locks\n  level  name      state     holder              path\n  1      repo/x    held      7 run               /l\n  4      repo:gpu  held 2/2  0:9 run; 1:unknown  /g\n  1      repo/y    free                          /m"
    );
    let plan = value(
        r#"{"task": "build", "args": ["--all"], "steps": [{"id": "a", "scope": ".", "origin": "repo", "cwd": "web"}]}"#,
    );
    assert_eq!(
        render_run(&plan),
        "Plan for build -- \"--all\"\n  task  scope  layer  cwd\n  a     .      repo   web"
    );
    assert_eq!(render_run(&value(r#"{"steps": [], "target": "repo/x"}"#)), "");
    assert_eq!(render_run(&value(r#"{"steps": []}"#)), "Plan for task");
}
