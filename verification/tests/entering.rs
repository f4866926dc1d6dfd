use wt::assoc::Assoc;
use wt::door::{
    cwd_scope, door_cwd, door_notice_shown, env_notices, exclude_paths, file_source, may_enter,
    parse_octal, paths_to_check, ports_outrun, present_resource_env, record_ports, render_record,
    EnterEvent, EnterStep, Entering, Owned, RenderEvent, RenderItem, RenderStep, Rendering, ResourceEnv,
};
use wt::error::{CoreError, ExitClass};
use wt::lifecycle::{Materialized, MaterializedKind};
use wt::context::{Coordinates, Registry};
use wt::doctor::Geometry;
use wt::model::{DerivedPhase, ResourceState, StatePhase};
use wt::output::{notice, NoticeLevel};
use wt::register::canonical_record;

fn map(pairs: &[(&str, &str)]) -> Assoc<String> {
    let mut out = Assoc::new();
    for (key, value) in pairs {
        out.put(key, value.to_string());
    }
    out
}

fn file(path: &str, kind: MaterializedKind, hash: Option<&str>) -> Materialized {
    Materialized {
        path: path.into(),
        kind,
        hash: hash.map(|h| h.to_string()),
        checked_at: "then".into(),
    }
}

fn item(path: &str, mode: &str, hash: &str) -> RenderItem {
    RenderItem { path: path.into(), mode: mode.into(), hash: hash.into() }
}

#[test]
fn only_ready_and_failed_trees_are_entered() {
    assert!(may_enter("repo/x", DerivedPhase::Ready).unwrap().is_none());
    assert_eq!(
        may_enter("repo/x", DerivedPhase::Failed).unwrap().unwrap().code,
        "TREE_NOT_READY"
    );
    let e = may_enter("repo/x", DerivedPhase::Bootstrapping).unwrap_err();
    assert_eq!(e.code, "TREE_BUSY");
    assert_eq!(e.class, ExitClass::Conflict);
    assert_eq!(e.message, "repo/x is in phase Bootstrapping");
    assert!(door_notice_shown("BIN_DIR_MISSING", true, false, false));
    assert!(!door_notice_shown("ENV_KEPT", true, true, true));
    assert!(door_notice_shown("ENV_KEPT", false, true, false));
    assert!(door_notice_shown("ENV_KEPT", false, false, true));
    assert!(!door_notice_shown("ENV_KEPT", false, false, false));
    assert_eq!(ports_outrun().code, "TREE_REPLACED");
}

#[test]
fn the_current_directory_gives_a_scope() {
    assert_eq!(cwd_scope("/t/web/src", "/t"), "web/src");
    assert_eq!(cwd_scope("/t", "/t"), ".");
    assert_eq!(cwd_scope("/elsewhere", "/t"), ".");
    assert_eq!(cwd_scope("/tx", "/t"), ".");
    assert_eq!(door_cwd("/t/web", "/t"), "/t/web");
    assert_eq!(door_cwd("/tx/web", "/t"), "/t");
}

#[test]
fn sources_of_written_files_have_to_be_there() {
    assert_eq!(file_source("a.tmpl", Some("text".into())).unwrap(), "text");
    let e = file_source("a.tmpl", None).unwrap_err();
    assert_eq!(e.code, "FILE_SOURCE_MISSING");
    assert_eq!(e.message, "file source `a.tmpl` is missing");
}

#[test]
fn present_resources_give_their_variables_in_order() {
    let one = |place: u64, state: ResourceState, env: &[(&str, &str)]| ResourceEnv {
        place,
        state,
        env: map(env),
    };
    let given = present_resource_env(&vec![
        one(2, ResourceState::Present, &[("DB", "x"), ("PATH", "/evil"), ("WT_SELF", "n")]),
        one(1, ResourceState::Declared, &[("NO", "1")]),
        one(0, ResourceState::Present, &[("A", "1")]),
    ]);
    assert_eq!(given.len(), 2);
    assert_eq!(given[0].env, vec![("A".to_string(), "1".to_string())]);
    assert_eq!(given[1].env, vec![("DB".to_string(), "x".to_string())]);
}

#[test]
fn notices_of_an_environment_are_in_order() {
    let list = env_notices("repo/x", &vec!["/b".into()], true, &vec!["EDITOR".into()]);
    let mut codes: Vec<&str> = list.iter().map(|n| n.code.as_str()).collect();
    codes.sort();
    assert_eq!(codes, vec!["ACTIVATION_IGNORED", "BIN_DIR_MISSING", "ENV_KEPT"]);
    let missing = list.iter().find(|n| n.code == "BIN_DIR_MISSING").unwrap();
    assert_eq!(missing.message, "declared bin directory /b is missing");
    assert!(env_notices("repo/x", &vec![], false, &vec![]).is_empty());
}

#[test]
fn modes_are_read_in_octal() {
    assert_eq!(parse_octal("0644"), Some(0o644));
    assert_eq!(parse_octal("+7"), Some(7));
    assert_eq!(parse_octal("0688"), None);
    assert_eq!(parse_octal(""), None);
    assert_eq!(parse_octal("+"), None);
    assert_eq!(parse_octal("37777777777"), Some(u32::MAX));
    assert_eq!(parse_octal("40000000000"), None);
}

#[test]
fn new_files_are_held_against_what_git_tracks() {
    let items = vec![item("a", "0644", "h"), item("b", "0644", "h")];
    let list = vec![file("a", MaterializedKind::Rendered, Some("h"))];
    assert_eq!(paths_to_check(&items, &list, false), vec!["b".to_string()]);
    assert_eq!(paths_to_check(&items, &list, true), vec!["a".to_string(), "b".to_string()]);
    assert_eq!(render_record(&list, "a"), Some(Some("h".to_string())));
    assert_eq!(render_record(&list, "b"), None);
    assert_eq!(render_record(&vec![file("a", MaterializedKind::Copied, None)], "a"), None);
}

#[test]
fn a_new_file_is_written_recorded_and_excluded() {
    let items = vec![item("b", "0644", "hb"), item("a", "0600", "ha")];
    let state = vec![file("a", MaterializedKind::Rendered, Some("old"))];
    let mut r = Rendering::new(items, Some(state), false);
    assert_eq!(r.step, RenderStep::AskGit);
    r.advance(RenderEvent::Finished);
    assert_eq!(r.step, RenderStep::Compare(0));
    r.advance(RenderEvent::Differs(true));
    assert_eq!(r.step, RenderStep::Lock);
    r.advance(RenderEvent::Record {
        list: Some(vec![file("a", MaterializedKind::Rendered, Some("old"))]),
        now: "now".into(),
    });
    assert_eq!(r.step, RenderStep::Decide(0));
    r.advance(RenderEvent::Differs(true));
    assert_eq!(r.step, RenderStep::Write(0));
    r.advance(RenderEvent::Finished);
    assert!(r.changed_set && r.changed_bytes);
    assert_eq!(r.step, RenderStep::Decide(1));
    r.advance(RenderEvent::Differs(true));
    r.advance(RenderEvent::Finished);
    assert_eq!(r.step, RenderStep::Save);
    r.advance(RenderEvent::Finished);
    assert_eq!(r.step, RenderStep::Exclude);
    r.advance(RenderEvent::Finished);
    assert_eq!(r.step, RenderStep::Done);
    let saved = r.to_save();
    let list: Vec<(&str, Option<&str>, &str)> = saved
        .iter()
        .map(|m| (m.path.as_str(), m.hash.as_deref(), m.checked_at.as_str()))
        .collect();
    assert_eq!(list, vec![("a", Some("ha"), "then"), ("b", Some("hb"), "now")]);
}

#[test]
fn files_that_are_as_they_should_be_are_left_alone() {
    let state = vec![file("a", MaterializedKind::Rendered, Some("h"))];
    let mut r = Rendering::new(vec![item("a", "0644", "h")], Some(state), false);
    assert_eq!(r.step, RenderStep::Compare(0));
    r.advance(RenderEvent::Differs(false));
    assert_eq!(r.step, RenderStep::Settled);
    r.advance(RenderEvent::Finished);
    assert_eq!(r.step, RenderStep::Done);
    assert!(!r.changed_bytes);
    assert_eq!(Rendering::new(vec![], None, true).step, RenderStep::Done);
}

#[test]
fn writing_files_is_refused_without_a_record_or_a_mode() {
    let r = Rendering::new(vec![item("a", "0644", "h")], None, false);
    assert_eq!(r.step, RenderStep::Failed);
    assert_eq!(r.error.unwrap().code, "STATE_CORRUPT");
    let mut r = Rendering::new(vec![item("a", "rw", "h")], Some(vec![]), false);
    r.advance(RenderEvent::Finished);
    r.advance(RenderEvent::Differs(true));
    r.advance(RenderEvent::Record { list: Some(vec![]), now: "now".into() });
    r.advance(RenderEvent::Differs(true));
    assert_eq!(r.error.unwrap().message, "render mode is invalid");
    let mut r = Rendering::new(vec![item("a", "0644", "h")], Some(vec![]), false);
    r.advance(RenderEvent::Failure(CoreError::new(ExitClass::State, "GIT", "m", "r")));
    assert_eq!(r.error.unwrap().code, "GIT");
}

#[test]
fn a_label_excludes_its_own_files() {
    let own = |label: &str, paths: &[&str]| Owned {
        label: label.into(),
        paths: paths.iter().map(|p| p.to_string()).collect(),
    };
    let trees = vec![own("a", &["x", "y"]), own("b", &["z"])];
    let graves = vec![own("a", &["w"])];
    assert_eq!(
        exclude_paths(&trees, &graves, "a"),
        vec![".wt/", "**/.wt-tmp-*", "x", "y", "w"]
    );
}

fn fault(code: &str) -> CoreError {
    CoreError::new(ExitClass::State, code, "m", "r")
}

#[test]
fn entering_asks_whose_the_directory_is_before_all_else() {
    let mut entering = Entering::new("repo/x".into(), false);
    let mut seen = vec![entering.step];
    for event in [
        EnterEvent::Succeeded,
        EnterEvent::Read(Some(StatePhase::Bootstrapping)),
        EnterEvent::Succeeded,
        EnterEvent::Stands(DerivedPhase::Failed),
        EnterEvent::Succeeded,
        EnterEvent::Succeeded,
        EnterEvent::Succeeded,
        EnterEvent::Placed(true),
        EnterEvent::Succeeded,
        EnterEvent::Succeeded,
        EnterEvent::Assembled(vec![notice(NoticeLevel::Warn, "A", "repo/x", "m")]),
        EnterEvent::Succeeded,
    ] {
        entering.advance(event);
        seen.push(entering.step);
    }
    assert_eq!(
        seen,
        [
            EnterStep::Identity,
            EnterStep::State,
            EnterStep::Consult,
            EnterStep::Phase,
            EnterStep::LockTree,
            EnterStep::LockDoor,
            EnterStep::Config,
            EnterStep::Ports,
            EnterStep::RecordPorts,
            EnterStep::Sources,
            EnterStep::Assemble,
            EnterStep::Render,
            EnterStep::Done,
        ]
    );
    assert!(entering.tree_locked && entering.door_locked);
    let codes: Vec<&str> = entering.notices.iter().map(|n| n.code.as_str()).collect();
    assert_eq!(codes, ["A", "TREE_NOT_READY"]);
}

#[test]
fn a_tree_that_is_not_the_one_on_record_is_not_touched() {
    let mut entering = Entering::new("repo/x".into(), false);
    entering.advance(EnterEvent::Failure(fault("TREE_REPLACED")));
    assert_eq!(entering.step, EnterStep::Failed);
    assert!(!entering.identified && !entering.tree_locked);
    entering.advance(EnterEvent::Succeeded);
    assert_eq!(entering.step, EnterStep::Failed);
}

#[test]
fn a_busy_tree_is_refused_and_a_failure_lets_go() {
    let mut busy = Entering::new("repo/x".into(), false);
    busy.advance(EnterEvent::Succeeded);
    busy.advance(EnterEvent::Read(Some(StatePhase::Ready)));
    assert_eq!(busy.step, EnterStep::Phase);
    busy.advance(EnterEvent::Stands(DerivedPhase::Removing));
    assert_eq!(busy.error.unwrap().code, "TREE_BUSY");

    let mut late = Entering::new("repo/x".into(), false);
    late.advance(EnterEvent::Succeeded);
    late.advance(EnterEvent::Read(None));
    late.advance(EnterEvent::Stands(DerivedPhase::Ready));
    late.advance(EnterEvent::Succeeded);
    late.advance(EnterEvent::Succeeded);
    assert!(late.tree_locked && late.door_locked);
    late.advance(EnterEvent::Failure(fault("CONFIG_INVALID")));
    assert!(!late.tree_locked && !late.door_locked);

    let mut held = Entering::new("repo/x".into(), true);
    assert_eq!(held.step, EnterStep::State);
    held.advance(EnterEvent::Read(Some(StatePhase::Removing)));
    held.advance(EnterEvent::Succeeded);
    held.advance(EnterEvent::Placed(false));
    assert_eq!(held.step, EnterStep::Sources);
    assert!(!held.tree_locked && !held.door_locked);
}

#[test]
fn ports_are_added_to_the_tree_that_is_still_there() {
    let at = Coordinates {
        slot: 0,
        geometry: Geometry { base: 3000, stride: 4, port_base: 3000 },
        ports: Assoc::new(),
        name_short: "s".into(),
        session_name: "s".into(),
    };
    let own = canonical_record("id", "repo", "/src", at, "now", None);
    let mut registry = Registry { labels: Assoc::new(), trees: vec![own], tombstones: vec![] };
    let mut ports = Assoc::new();
    ports.put("web", 1u8);
    record_ports(&mut registry, "id", &ports).unwrap();
    assert_eq!(registry.trees[0].ports.get("web"), Some(&1));
    let error = record_ports(&mut registry, "other", &ports).unwrap_err();
    assert_eq!(error.message, ports_outrun().message);
}
