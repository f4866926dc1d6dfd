use wt::adopt::{adopted_name, adoption, adoption_flags, label_for, require_listed};
use wt::assoc::Assoc;
use wt::clone_repo::{clone_plan, is_relative_local_path, judge_clone, stem};
use wt::context::{Coordinates, LabelRec, Registry, SourceKind, TreeRec};
use wt::doctor::Geometry;
use wt::error::{CoreError, Details, ExitClass};
use wt::forget::{
    artifact, artifacts, bury_forgotten, bury_removed, is_looked_at, lock_refused, owns, refuse_canonical, refuse_holders,
    refuse_resources, refuse_session, tombstone_of, ForgetEvent, ForgetStep, Forgetting,
};
use wt::lifecycle::{Materialized, MaterializedKind};
use wt::model::{DerivedPhase, OpVerb, StatePhase};
use wt::register::{
    adopted_record, canonical_record, check_flags, check_root, check_toplevel, declared_resources, declared_tasks, default_label,
    enter, invalid_config, judge, judge_move, judge_repair, label_record, moved_label, moved_tree, relocate,
    require_replaced, resumes, tied_name, way_of, without_ends, AdmitEvent, AdmitStep, Admitting,
    DeclaredResource, Moved, Registration, RelocateStep, Relocating, Way,
};
use wt::remove::DoorHolder;
use wt::snapshot::TiedTo;

fn tree(label: &str, name: &str, path: &str) -> TreeRec {
    TreeRec {
        tree_id: format!("{label}-{name}"),
        label: label.into(),
        name: name.into(),
        canonical: name == "canonical",
        path: path.into(),
        slot: 0,
        geometry: Geometry { base: 3000, stride: 4, port_base: 3000 },
        ports: Assoc::new(),
        name_short: name.into(),
        session_name: format!("{label}_{name}"),
        created_at: "then".into(),
        agent: None,
        meta: Assoc::new(),
        kind: SourceKind::Branch,
        branch: None,
        pr: None,
        start: None,
    }
}

fn label(path: &str, gitdir: &str) -> LabelRec {
    LabelRec {
        path: path.into(),
        gitdir_id: gitdir.into(),
        common_gitdir: format!("{path}/.git"),
        registered_at: "then".into(),
        trees_dir: Some("/trees".into()),
        default_branch: Some("main".into()),
    }
}

fn registry() -> Registry {
    let mut labels = Assoc::new();
    labels.put("repo", label("/src/repo", "g1"));
    Registry {
        labels,
        trees: vec![
            tree("repo", "canonical", "/src/repo"),
            tree("repo", "x", "/trees/repo/x"),
        ],
        tombstones: vec![],
    }
}

fn targets() -> Vec<String> {
    vec!["repo".into(), "repo/x".into()]
}

fn broken(code: &str) -> CoreError {
    CoreError::new(ExitClass::State, code, "it broke", "mend it")
}

#[test]
fn what_cannot_be_registered_is_refused_first() {
    assert_eq!(check_flags(true, true).unwrap_err().class, ExitClass::Usage);
    assert!(check_flags(true, false).is_ok());
    let e = check_root("/p", true, false).unwrap_err();
    assert_eq!(e.code, "ROOT_IS_SYMLINK");
    assert_eq!(e.message, "/p is a symlink");
    assert_eq!(e.remedy, "register the real checkout path");
    assert_eq!(
        check_root("/p", true, true).unwrap_err().remedy,
        "move the checkout to a real directory"
    );
    assert!(check_root("/p", false, true).is_ok());
    assert!(check_toplevel("/p", "/p/").is_ok());
    assert_eq!(check_toplevel("/p/sub", "/p").unwrap_err().code, "NOT_A_WORKTREE");
}

#[test]
fn labels_are_taken_from_directories() {
    assert_eq!(default_label("/src/repo.git"), "repo");
    assert_eq!(default_label("/src/repo.git.git"), "repo");
    assert_eq!(default_label("/"), "repo");
    assert_eq!(without_ends("a//", "/"), "a");
}

#[test]
fn a_label_a_path_and_a_repository_are_registered_once() {
    let r = registry();
    let t = targets();
    assert_eq!(judge(&r, "repo", "/src/repo", "g1", &t).unwrap(), Registration::Known(0));
    let e = judge(&r, "repo", "/src/other", "g2", &t).unwrap_err();
    assert_eq!(e.message, "label repo is already registered at /src/repo");
    let e = judge(&r, "other", "/trees/repo/x", "g2", &t).unwrap_err();
    assert_eq!(e.message, "path is already registered as repo/x");
    let e = judge(&r, "other", "/src/other", "g1", &t).unwrap_err();
    assert_eq!(e.code, "GITDIR_REGISTERED");
    assert_eq!(e.remedy, "use `wt adopt /src/other --label repo`");
    assert_eq!(judge(&r, "other", "/src/other", "g2", &t).unwrap(), Registration::Fresh);
}

#[test]
fn a_registration_is_known_from_then_on() {
    let mut r = registry();
    let mut t = targets();
    assert_eq!(judge(&r, "other", "/src/other", "g2", &t).unwrap(), Registration::Fresh);
    enter(
        &mut r,
        "other",
        label("/src/other", "g2"),
        tree("other", "canonical", "/src/other"),
    );
    t.push("other".into());
    assert_eq!(judge(&r, "other", "/src/other", "g2", &t).unwrap(), Registration::Known(2));
    assert_eq!(r.labels.entries.len(), 2);
}

#[test]
fn only_the_registered_checkout_is_repaired() {
    let r = registry();
    assert_eq!(judge_repair(&r, "repo", "/src/repo", "g1").unwrap(), Registration::Repair(0));
    let e = judge_repair(&r, "repo", "/src/repo", "g9").unwrap_err();
    assert_eq!(e.message, "/src/repo is not repo's registered canonical checkout");
    assert_eq!(e.remedy, "run this command at /src/repo");
    let e = judge_repair(&r, "other", "/src/repo", "g1").unwrap_err();
    assert_eq!(e.message, "label other has no registered canonical checkout");
    assert!(require_replaced("repo", DerivedPhase::Replaced).is_ok());
    assert_eq!(
        require_replaced("repo", DerivedPhase::Ready).unwrap_err().message,
        "repo's canonical checkout is not replaced"
    );
    assert!(resumes(Some((StatePhase::Initialising, Some(OpVerb::Register)))));
    assert!(!resumes(Some((StatePhase::Initialising, Some(OpVerb::Adopt)))));
    assert!(!resumes(Some((StatePhase::Ready, Some(OpVerb::Register)))));
    assert!(!resumes(None));
}

fn steps_of(way: Way, adopts: bool) -> Vec<AdmitStep> {
    let mut a = Admitting::new(way, adopts);
    let mut steps = vec![a.step];
    while a.step != AdmitStep::Report {
        a.advance(AdmitEvent::Succeeded);
        steps.push(a.step);
    }
    assert!(a.entered && !a.locked);
    steps
}

#[test]
fn a_fresh_checkout_is_admitted_step_by_step() {
    let steps = vec![
        AdmitStep::Lock,
        AdmitStep::Config,
        AdmitStep::Allocate,
        AdmitStep::WriteState,
        AdmitStep::Branch,
        AdmitStep::Record,
        AdmitStep::Identity,
        AdmitStep::Exclude,
        AdmitStep::Enter,
        AdmitStep::Refresh,
        AdmitStep::Ready,
        AdmitStep::Unlock,
        AdmitStep::Report,
    ];
    assert_eq!(steps_of(Way::Fresh, false), steps);
    assert_eq!(steps_of(Way::Fresh, true), steps);
}

#[test]
fn a_checkout_that_was_interrupted_repaired_or_known_skips_what_it_has() {
    assert_eq!(
        steps_of(Way::Resume, false),
        vec![
            AdmitStep::Lock,
            AdmitStep::Identity,
            AdmitStep::Exclude,
            AdmitStep::Enter,
            AdmitStep::Refresh,
            AdmitStep::Ready,
            AdmitStep::Unlock,
            AdmitStep::Report,
        ]
    );
    assert_eq!(
        steps_of(Way::Resume, true),
        vec![
            AdmitStep::Lock,
            AdmitStep::Enter,
            AdmitStep::Refresh,
            AdmitStep::Ready,
            AdmitStep::Unlock,
            AdmitStep::Report,
        ]
    );
    assert_eq!(
        steps_of(Way::Repair, false),
        vec![
            AdmitStep::Lock,
            AdmitStep::Identity,
            AdmitStep::Exclude,
            AdmitStep::Repair,
            AdmitStep::Unlock,
            AdmitStep::Report,
        ]
    );
    assert_eq!(
        steps_of(Way::Known, true),
        vec![AdmitStep::Open, AdmitStep::Refresh, AdmitStep::Report]
    );
}

#[test]
fn a_broken_configuration_is_told_of_a_registered_checkout() {
    let mut a = Admitting::new(Way::Known, false);
    a.advance(AdmitEvent::Failure(broken("CONFIG_INVALID")));
    assert_eq!(a.step, AdmitStep::ReportInvalid);
    let mut b = Admitting::new(Way::Known, true);
    b.advance(AdmitEvent::Failure(broken("CONFIG_INVALID")));
    assert_eq!(b.step, AdmitStep::Failed);
    let mut c = Admitting::new(Way::Fresh, false);
    for _ in 0..5 {
        c.advance(AdmitEvent::Succeeded);
    }
    assert_eq!(c.step, AdmitStep::Record);
    c.advance(AdmitEvent::Failure(broken("LOCK_HELD")));
    assert!(c.initialising && !c.recorded && !c.ready);
    assert_eq!(c.error.unwrap().code, "LOCK_HELD");
}

#[test]
fn a_moved_checkout_is_recorded_once_it_was_repaired() {
    let mut m = Relocating::new();
    let mut steps = vec![m.step];
    while m.step != RelocateStep::Done {
        m.advance(AdmitEvent::Succeeded);
        steps.push(m.step);
    }
    assert_eq!(
        steps,
        vec![
            RelocateStep::LockTree,
            RelocateStep::LockGit,
            RelocateStep::Repair,
            RelocateStep::Judge,
            RelocateStep::Branch,
            RelocateStep::Record,
            RelocateStep::Identity,
            RelocateStep::Unlock,
            RelocateStep::Done,
        ]
    );
    let mut n = Relocating::new();
    for _ in 0..3 {
        n.advance(AdmitEvent::Succeeded);
    }
    n.advance(AdmitEvent::Failure(broken("NOT_A_WORKTREE")));
    assert!(n.repaired && !n.judged && !n.recorded);
    assert_eq!(n.step, RelocateStep::Failed);
}

#[test]
fn a_moved_checkout_keeps_its_label() {
    let r = registry();
    assert_eq!(moved_label(&r, &Some("given".into()), &None, "/new/place"), "given");
    assert_eq!(moved_label(&r, &None, &Some("/src/repo".into()), "/new/place"), "repo");
    assert_eq!(moved_label(&r, &None, &Some("/gone".into()), "/new/place"), "place");
    assert_eq!(moved_label(&r, &None, &None, "/new/place.git"), "place");
    assert_eq!(moved_tree(&r, "repo", "repo").unwrap(), 0);
    assert_eq!(
        moved_tree(&r, "other", "other").unwrap_err().message,
        "label other is not registered"
    );
}

#[test]
fn a_move_is_judged_by_what_git_finds() {
    let r = registry();
    assert!(judge_move(&r, "repo", "/new", "g1", "/new", true).is_ok());
    assert_eq!(
        judge_move(&r, "repo", "/new", "g1", "/old", true).unwrap_err().code,
        "NOT_A_WORKTREE"
    );
    assert_eq!(
        judge_move(&r, "repo", "/new", "g1", "/new", false).unwrap_err().code,
        "NOT_A_WORKTREE"
    );
    let e = judge_move(&r, "other", "/new", "g1", "/new", true).unwrap_err();
    assert_eq!(e.code, "PATH_REGISTERED");
    let e = judge_move(&r, "other", "/trees/repo/x", "g2", "/trees/repo/x", true).unwrap_err();
    assert_eq!(e.code, "PATH_REGISTERED");
}

#[test]
fn a_move_changes_one_label_and_one_tree() {
    let mut r = registry();
    let moved = || Moved {
        path: "/new".into(),
        common_gitdir: "/new/.git".into(),
        gitdir_id: "g7".into(),
        branch: Some("main".into()),
    };
    assert!(relocate(&mut r, "repo", "repo-canonical", "repo", moved()).is_ok());
    let rec = r.labels.get("repo").unwrap();
    assert_eq!(rec.path, "/new");
    assert_eq!(rec.gitdir_id, "g7");
    assert_eq!(rec.trees_dir.as_deref(), Some("/trees"));
    assert_eq!(rec.default_branch.as_deref(), Some("main"));
    assert_eq!(r.trees[0].path, "/new");
    assert_eq!(r.trees[0].branch.as_deref(), Some("main"));
    assert_eq!(r.trees[1].path, "/trees/repo/x");
    assert_eq!(
        relocate(&mut r, "other", "id", "other", moved()).unwrap_err().message,
        "label other disappeared during repair"
    );
    assert_eq!(relocate(&mut r, "repo", "id", "repo", moved()).unwrap_err().code, "NOT_FOUND");
}

#[test]
fn declarations_are_reported_in_order() {
    let one = |scope: &str, task: &str| DeclaredResource {
        scope: scope.into(),
        task: task.into(),
        tied_to: tied_name(None).into(),
        snapshot_keys: vec![],
    };
    let list = declared_resources(vec![one("b", "a"), one(".", "z"), one(".", "db")]);
    let names: Vec<(&str, &str)> =
        list.iter().map(|r| (r.scope.as_str(), r.task.as_str())).collect();
    assert_eq!(names, vec![(".", "db"), (".", "z"), ("b", "a")]);
    assert_eq!(tied_name(Some(TiedTo::Repo)), "repo");
    assert_eq!(tied_name(Some(TiedTo::Tree)), "tree");
    assert_eq!(
        declared_tasks(&vec!["@own".into(), "build".into(), "test".into()]),
        vec!["build".to_string(), "test".to_string()]
    );
}

#[test]
fn configuration_faults_are_located() {
    let at = |m: &str| {
        let e = invalid_config(m);
        (e.path, e.line, e.col, e.message)
    };
    assert_eq!(at("wt.toml:3:14: bad: key"), ("wt.toml".into(), 3, 14, "bad: key".into()));
    assert_eq!(at("wt.toml:x:2:why"), ("wt.toml".into(), 0, 2, "why".into()));
    assert_eq!(at("wt.toml:3:4"), ("wt.toml".into(), 3, 4, "wt.toml:3:4".into()));
    assert_eq!(at("wt.toml:3"), ("wt.toml".into(), 3, 0, "wt.toml:3".into()));
    assert_eq!(at(" odd "), (" odd ".into(), 0, 0, "odd".into()));
}

#[test]
fn adopted_worktrees_take_the_label_of_their_repository() {
    let r = registry();
    assert_eq!(label_for(&r, "g1", &None).unwrap(), "repo");
    assert_eq!(label_for(&r, "g1", &Some("repo".into())).unwrap(), "repo");
    assert_eq!(
        label_for(&r, "g1", &Some("other".into())).unwrap_err().remedy,
        "use `--label repo`"
    );
    assert_eq!(label_for(&r, "g2", &Some("other".into())).unwrap(), "other");
    assert_eq!(
        label_for(&r, "g2", &None).unwrap_err().message,
        "worktree's repository is not registered"
    );
    assert!(require_listed(true).is_ok());
    assert_eq!(require_listed(false).unwrap_err().code, "NOT_A_WORKTREE");
    assert_eq!(adopted_name(&Some("n".into()), "/a/b"), "n");
    assert_eq!(adopted_name(&None, "/a/b"), "b");
    assert_eq!(adopted_name(&None, "/"), "work");
}

#[test]
fn an_adoption_is_fresh_resumed_or_known() {
    let r = registry();
    assert_eq!(wt::adopt::judge(&r, "repo", "x", "/trees/repo/x").unwrap(), Some(1));
    assert_eq!(wt::adopt::judge(&r, "repo", "y", "/trees/repo/y").unwrap(), None);
    assert_eq!(
        wt::adopt::judge(&r, "repo", "y", "/trees/repo/x").unwrap_err().code,
        "PATH_REGISTERED"
    );
    assert_eq!(adoption(false, None), Way::Fresh);
    assert_eq!(adoption(true, Some(StatePhase::Initialising)), Way::Resume);
    assert_eq!(adoption(true, Some(StatePhase::Ready)), Way::Known);
    assert_eq!(adoption(true, None), Way::Known);
    assert_eq!(adoption_flags(Way::Fresh), (true, false));
    assert_eq!(adoption_flags(Way::Resume), (false, true));
    assert_eq!(adoption_flags(Way::Known), (false, false));
}

#[test]
fn clones_are_named_and_placed() {
    assert_eq!(stem("https://example.org/team/app.git/"), "app");
    assert_eq!(stem("git@example.org:team/app"), "app");
    assert!(is_relative_local_path("../app"));
    assert!(!is_relative_local_path("/srv/app"));
    assert!(!is_relative_local_path("host:app"));
    assert!(!is_relative_local_path("file://x"));
    let p = clone_plan("../app", &None, "/work/here", "/home/wt", "app");
    assert_eq!(p.url, "/work/here/../app");
    assert_eq!(p.hub, "/home/wt/repos/app/hub.git");
    assert_eq!(p.canonical, "/home/wt/repos/app/canonical");
    let p = clone_plan("https://h/app", &Some("sub".into()), "/work", "/home/wt", "app");
    assert_eq!(p.url, "https://h/app");
    assert_eq!(p.base, "/work/sub");
    let p = clone_plan("https://h/app", &Some("/abs".into()), "/work", "/home/wt", "app");
    assert_eq!(p.base, "/abs");
}

#[test]
fn a_hub_and_its_checkout_belong_together() {
    assert_eq!(judge_clone("/h", "/c", false, true, false).unwrap(), true);
    assert_eq!(judge_clone("/h", "/c", true, false, true).unwrap(), false);
    assert_eq!(
        judge_clone("/h", "/c", false, false, true).unwrap_err().message,
        "/c exists but /h does not"
    );
    assert_eq!(
        judge_clone("/h", "/c", true, true, false).unwrap_err().message,
        "/h exists but its canonical checkout /c does not"
    );
}

#[test]
fn what_stands_in_the_way_of_forgetting_is_said() {
    assert_eq!(refuse_canonical(true).unwrap_err().code, "USE_UNREGISTER");
    assert!(refuse_canonical(false).is_ok());
    let live = vec!["db".to_string(), "web/cache".to_string()];
    assert_eq!(
        refuse_resources("repo/x", &live).unwrap_err().message,
        "repo/x still has live resources: db, web/cache"
    );
    assert!(refuse_resources("repo/x", &vec![]).is_ok());
    assert_eq!(refuse_session("s", true).unwrap_err().message, "session s is still live");
    assert!(refuse_session("s", false).is_ok());
    let told = refuse_resources("repo/x", &live).unwrap_err().details;
    assert!(matches!(told, Details::Resources(list) if list == live));
    let door = DoorHolder { pid: 4, verb: "run".into(), since: "t".into() };
    let refused = refuse_holders("repo/x", vec![door]).unwrap_err();
    assert_eq!(refused.code, "TREE_IN_USE");
    assert!(matches!(&refused.details, Details::Holders(held) if held[0].pid == 4));
    assert!(refuse_holders("repo/x", vec![]).is_ok());
    assert_eq!(lock_refused("repo/x", broken("OTHER")).code, "OTHER");
    assert_eq!(
        lock_refused("repo/x", broken("TREE_IN_USE")).message,
        "repo/x still has active door holders"
    );
}

#[test]
fn forgotten_trees_keep_files_that_were_changed() {
    let file = |path: &str, kind: MaterializedKind, hash: Option<&str>| Materialized {
        path: path.into(),
        kind,
        hash: hash.map(|h| h.to_string()),
        checked_at: "now".into(),
    };
    let m = file("a", MaterializedKind::Rendered, Some("h"));
    assert!(is_looked_at(&m));
    assert!(owns(&m, &Some("h".into())));
    assert!(!owns(&m, &Some("other".into())));
    assert!(!owns(&m, &None));
    assert!(!owns(&file("a", MaterializedKind::Rendered, None), &None));
    assert!(!is_looked_at(&file("a", MaterializedKind::Copied, None)));
    assert!(!is_looked_at(&file(".wt", MaterializedKind::Rendered, None)));
    assert!(!is_looked_at(&file(".wt/env", MaterializedKind::Rendered, None)));
    assert!(is_looked_at(&file(".wtx", MaterializedKind::Rendered, None)));
    let list = artifacts(vec![artifact("b", true), artifact("a", false)]);
    assert_eq!((list[0].path.as_str(), list[0].action.as_str()), ("a", "kept"));
    assert_eq!((list[1].path.as_str(), list[1].action.as_str()), ("b", "deleted"));
}

#[test]
fn only_the_forgotten_tree_leaves_the_registry() {
    let mut r = registry();
    let mut gone = tree("repo", "x", "/trees/repo/x");
    gone.ports.put("web", 2);
    bury_forgotten(&mut r, &gone, "now");
    assert_eq!(r.trees.len(), 1);
    assert_eq!(r.trees[0].name, "canonical");
    assert_eq!(r.tombstones.len(), 1);
    let left = &r.tombstones[0];
    assert_eq!((left.label.as_str(), left.name.as_str()), ("repo", "x"));
    assert_eq!((left.slot, left.geometry), (gone.slot, gone.geometry));
    assert_eq!(left.ports.get("web"), Some(&2));
    assert_eq!((left.name_short.as_str(), left.session_name.as_str()), ("x", "repo_x"));
    assert_eq!(left.path, "/trees/repo/x");
    assert_eq!((left.removed_at.as_str(), left.reason.as_str()), ("now", "forgotten"));
    assert!(left.materialized.is_empty());
}

#[test]
fn a_removed_tree_leaves_the_files_that_may_stand_on_record() {
    let mut r = registry();
    let gone = tree("repo", "x", "/trees/repo/x");
    let files = ["a", "/b", "c"]
        .into_iter()
        .map(|path| Materialized {
            path: path.into(),
            kind: MaterializedKind::Rendered,
            hash: None,
            checked_at: "then".into(),
        })
        .collect();
    bury_removed(&mut r, &gone, &files, &vec![true, false, true], "now");
    assert_eq!(r.trees.len(), 1);
    assert_eq!(r.tombstones[0].materialized, ["a", "c"]);
    assert_eq!(r.tombstones[0].reason, "removed");
    let marker = tombstone_of(&gone, Vec::new(), "then", "why");
    assert_eq!((marker.removed_at.as_str(), marker.reason.as_str()), ("then", "why"));
}

fn place() -> Coordinates {
    let mut ports = Assoc::new();
    ports.put("web", 1u8);
    Coordinates {
        slot: 2,
        geometry: Geometry { base: 3000, stride: 4, port_base: 3008 },
        ports,
        name_short: "short".into(),
        session_name: "session".into(),
    }
}

#[test]
fn a_fresh_registration_is_put_on_record() {
    let mut r = Registry { labels: Assoc::new(), trees: vec![], tombstones: vec![] };
    let rec = label_record("/src/repo", "g1", "/src/repo/.git", "now");
    assert_eq!((rec.path.as_str(), rec.gitdir_id.as_str()), ("/src/repo", "g1"));
    assert_eq!((rec.common_gitdir.as_str(), rec.registered_at.as_str()), ("/src/repo/.git", "now"));
    assert!(rec.trees_dir.is_none() && rec.default_branch.is_none());
    let own = canonical_record("id", "repo", "/src/repo", place(), "now", Some("main".into()));
    assert!(own.canonical && own.agent.is_none() && own.meta.entries.is_empty());
    assert_eq!((own.name.as_str(), own.kind), ("canonical", SourceKind::Canonical));
    assert_eq!((own.branch.as_deref(), own.pr, own.start.as_deref()), (Some("main"), None, None));
    assert_eq!((own.slot, own.ports.get("web")), (2, Some(&1)));
    assert_eq!((own.name_short.as_str(), own.session_name.as_str()), ("short", "session"));
    assert_eq!(own.created_at, "now");
    enter(&mut r, "repo", rec, own);
    let judged = judge(&r, "repo", "/src/repo", "g1", &vec!["repo".into()]).unwrap();
    assert_eq!(judged, Registration::Known(0));
    let left = Some((StatePhase::Initialising, Some(OpVerb::Register)));
    assert_eq!(way_of(judged, left), Way::Resume);
    assert_eq!(way_of(judged, Some((StatePhase::Ready, None))), Way::Known);
    assert_eq!(way_of(judged, None), Way::Known);
    assert_eq!(way_of(Registration::Fresh, None), Way::Fresh);
    assert_eq!(way_of(Registration::Repair(0), left), Way::Repair);
    let taken = adopted_record("id2", "repo", "x", "/w/x", place(), "now", None);
    assert!(!taken.canonical && taken.branch.is_none());
    assert_eq!((taken.name.as_str(), taken.kind), ("x", SourceKind::Adopted));
    wt::adopt::enter(&mut r, taken);
    assert_eq!((r.trees.len(), r.labels.entries.len()), (2, 1));
}

#[test]
fn forgetting_asks_again_under_the_lock_before_it_deletes() {
    let mut f = Forgetting::new("repo/x".into());
    let mut seen = vec![f.step];
    while f.step != ForgetStep::State {
        f.advance(ForgetEvent::Succeeded);
        seen.push(f.step);
    }
    assert_eq!(
        seen,
        vec![
            ForgetStep::Identity { again: false },
            ForgetStep::Resources { again: false },
            ForgetStep::Session { again: false },
            ForgetStep::Holders,
            ForgetStep::Confirm,
            ForgetStep::Lock,
            ForgetStep::Identity { again: true },
            ForgetStep::Resources { again: true },
            ForgetStep::Session { again: true },
            ForgetStep::State,
        ]
    );
    assert!(f.locked && f.cleared);
    f.advance(ForgetEvent::Read(2));
    let mut rest = vec![f.step];
    while f.step != ForgetStep::Done {
        f.advance(ForgetEvent::Succeeded);
        rest.push(f.step);
    }
    assert_eq!(
        rest,
        vec![
            ForgetStep::File(0),
            ForgetStep::File(1),
            ForgetStep::OwnDir,
            ForgetStep::DropState,
            ForgetStep::Bury,
            ForgetStep::Exclude,
            ForgetStep::Done,
        ]
    );
}

#[test]
fn forgetting_can_be_declined_or_refused() {
    let mut f = Forgetting::new("repo/x".into());
    for _ in 0..4 {
        f.advance(ForgetEvent::Succeeded);
    }
    f.advance(ForgetEvent::No);
    assert_eq!(f.step, ForgetStep::Declined);
    let mut g = Forgetting::new("repo/x".into());
    for _ in 0..5 {
        g.advance(ForgetEvent::Succeeded);
    }
    g.advance(ForgetEvent::Failure(broken("TREE_IN_USE")));
    assert_eq!(g.error.unwrap().message, "repo/x still has active door holders");
}
