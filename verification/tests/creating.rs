use wt::assoc::Assoc;
use wt::context::{Coordinates, LabelRec, Registry, SourceKind, Tombstone, TreeRec};
use wt::doctor::Geometry;
use wt::error::{CoreError, Details, ExitClass};
use wt::forge::PullRequestHead;
use wt::lifecycle::{new_state, op_verb, Materialized, MaterializedKind};
use wt::model::{DerivedPhase, OpVerb, StatePhase};
use wt::new::{
    after_new, asks_for_head, asks_forge, at_entry, at_vacancy, belongs, branch_by_convention,
    cannot_create, copy_step, creation_branch, ensure_pr_url_matches, enter, entry_view,
    making_flags, new_record, new_source, phase_word, replace, requested_branch, requested_pull_request,
    resolve_from, source_identical, source_notices, tree_path, verify_failed, AfterNew, Branch, CopyStep,
    CreateEvent, CreateStep, Creating, Decision, Finish, FinishEvent, FinishStep, Making, Origin,
    Recorded, Reference, StartAt, Wish,
};
use wt::output::{notice, NoticeLevel};
use wt::proc::ChildStatus;
use wt::worktree::{
    ensure_pr_ref, plain_branch, untracked_pr_notice, AddEvent, AddRequest, AddStep, Adding,
    PullRequest, Told,
};

fn tree(label: &str, name: &str) -> TreeRec {
    TreeRec {
        tree_id: format!("{label}-{name}"),
        label: label.into(),
        name: name.into(),
        canonical: name == "canonical",
        path: format!("/trees/{label}/{name}"),
        slot: 0,
        geometry: Geometry { base: 3000, stride: 4, port_base: 3000 },
        ports: Assoc::new(),
        name_short: name.into(),
        session_name: format!("{label}_{name}"),
        created_at: "then".into(),
        agent: None,
        meta: Assoc::new(),
        kind: SourceKind::Branch,
        branch: None,
        pr: None,
        start: None,
    }
}

fn grave(label: &str, name: &str) -> Tombstone {
    Tombstone {
        label: label.into(),
        name: name.into(),
        slot: 1,
        geometry: Geometry { base: 3000, stride: 4, port_base: 3004 },
        ports: Assoc::new(),
        name_short: name.into(),
        session_name: name.into(),
        path: format!("/trees/{label}/{name}"),
        materialized: Vec::new(),
        removed_at: "then".into(),
        reason: "removed".into(),
    }
}

fn registry(trees: Vec<TreeRec>) -> Registry {
    let mut labels = Assoc::new();
    labels.put(
        "repo",
        LabelRec {
            path: "/src/repo".into(),
            gitdir_id: "g1".into(),
            common_gitdir: "/src/repo/.git".into(),
            registered_at: "then".into(),
            trees_dir: None,
            default_branch: None,
        },
    );
    Registry {
        labels,
        trees,
        tombstones: vec![grave("repo", "x"), grave("repo", "y"), grave("other", "x")],
    }
}

fn broken(code: &str) -> CoreError {
    CoreError::new(ExitClass::State, code, "it broke", "mend it")
}

fn named(branch: &Branch) -> &str {
    match branch {
        Branch::Named(b) => b.as_str(),
        Branch::ByConvention => "",
    }
}

fn request() -> AddRequest {
    AddRequest {
        target: "repo/x".into(),
        branch: Some("x".into()),
        from_ref: None,
        no_fetch: false,
        detach: false,
        cached: None,
        told: Some(Told { head: None, origin_branch: None }),
    }
}

#[test]
fn a_plain_tree_starts_from_the_default_branch_of_origin() {
    let mut a = Adding::new(request());
    assert_eq!(a.step, AddStep::Origin);
    a.advance(AddEvent::Exists(true));
    assert_eq!(a.step, AddStep::Request);
    a.advance(AddEvent::Wanted(None));
    assert_eq!(a.step, AddStep::Holder);
    a.advance(AddEvent::Found(None));
    assert_eq!(a.step, AddStep::LocalRef);
    assert_eq!(a.reference(), "refs/heads/x");
    a.advance(AddEvent::Exists(false));
    assert_eq!(a.step, AddStep::DefaultBranch);
    a.advance(AddEvent::Found(Some("main".into())));
    assert_eq!(a.step, AddStep::FetchNamed);
    assert_eq!(a.wanted(), vec!["main".to_string()]);
    a.advance(AddEvent::Finished);
    assert_eq!(a.step, AddStep::OriginDefault);
    assert_eq!(a.reference(), "refs/remotes/origin/main");
    a.advance(AddEvent::Exists(true));
    assert_eq!(a.start, "refs/remotes/origin/main");
    assert!(a.starts_remote());
    assert_eq!(a.step, AddStep::Cache);
    a.advance(AddEvent::Finished);
    assert_eq!(a.step, AddStep::Add);
    a.advance(AddEvent::Finished);
    assert_eq!(a.step, AddStep::Accelerate);
    a.advance(AddEvent::Failure(broken("GIT_FAILED")));
    assert_eq!(a.step, AddStep::Done);
    assert!(a.notices.is_empty());
}

#[test]
fn a_branch_that_is_checked_out_elsewhere_is_refused() {
    let mut a = Adding::new(request());
    a.advance(AddEvent::Exists(true));
    a.advance(AddEvent::Wanted(None));
    assert!(!a.free);
    a.advance(AddEvent::Found(Some("/elsewhere".into())));
    assert_eq!(a.step, AddStep::Failed);
    let e = a.error.unwrap();
    assert_eq!(e.code, "BRANCH_IN_USE");
    assert_eq!(e.message, "branch `x` is checked out at /elsewhere");
}

#[test]
fn offline_the_recorded_default_stands_and_is_looked_up_again() {
    let mut r = request();
    r.no_fetch = true;
    r.cached = Some("trunk".into());
    let mut a = Adding::new(r);
    a.advance(AddEvent::Exists(true));
    a.advance(AddEvent::Wanted(None));
    a.advance(AddEvent::Found(None));
    a.advance(AddEvent::Exists(false));
    assert_eq!(a.step, AddStep::OriginDefault);
    a.advance(AddEvent::Exists(false));
    assert_eq!(a.start, "refs/heads/trunk");
    assert!(!a.starts_remote());
    assert_eq!(a.step, AddStep::DefaultAgain);
    a.advance(AddEvent::Found(Some("trunk".into())));
    assert_eq!(a.step, AddStep::Add);
}

#[test]
fn a_narrow_fetch_falls_back_and_keeps_its_own_error() {
    let fetching = || {
        let mut r = request();
        r.from_ref = Some("origin/topic".into());
        let mut a = Adding::new(r);
        a.advance(AddEvent::Exists(true));
        a.advance(AddEvent::Wanted(None));
        a.advance(AddEvent::Found(None));
        a.advance(AddEvent::Exists(false));
        a.advance(AddEvent::Found(Some("main".into())));
        a
    };
    let mut a = fetching();
    assert_eq!(a.wanted(), vec!["main".to_string(), "topic".to_string()]);
    a.advance(AddEvent::Failure(broken("NARROW")));
    assert_eq!(a.step, AddStep::FetchAll);
    a.advance(AddEvent::Failure(broken("WIDE")));
    assert_eq!(a.error.unwrap().code, "NARROW");

    let mut b = fetching();
    b.advance(AddEvent::Failure(broken("TIMEOUT")));
    assert_eq!(b.step, AddStep::Failed);
    assert_eq!(b.error.unwrap().code, "TIMEOUT");

    let mut c = fetching();
    c.advance(AddEvent::Failure(broken("NARROW")));
    c.advance(AddEvent::Finished);
    assert_eq!(c.step, AddStep::Resolve);
    c.advance(AddEvent::Start { reference: "refs/heads/topic".into(), shadows: true });
    assert_eq!(c.notices[0].code, "FROM_LOCAL_SHADOWS_REMOTE");
    assert_eq!(c.start, "refs/heads/topic");
}

#[test]
fn a_pull_request_is_checked_out_as_its_own_branch() {
    let mut r = request();
    r.branch = Some("fix".into());
    r.told = None;
    r.cached = Some("main".into());
    let mut a = Adding::new(r);
    a.advance(AddEvent::Exists(true));
    a.advance(AddEvent::Wanted(Some(PullRequest {
        number: 7,
        host: "github.com".into(),
        github: true,
    })));
    a.advance(AddEvent::Found(None));
    a.advance(AddEvent::Exists(false));
    assert_eq!(a.step, AddStep::Forge);
    a.advance(AddEvent::Said(Told {
        head: Some(PullRequestHead {
            branch: "fix".into(),
            cross_repository: false,
            owner: None,
        }),
        origin_branch: Some("fix".into()),
    }));
    a.advance(AddEvent::Found(Some("main".into())));
    assert_eq!(a.wanted(), vec!["fix".to_string(), "main".to_string()]);
    a.advance(AddEvent::Finished);
    assert_eq!(a.step, AddStep::TrackedRef);
    assert_eq!(a.reference(), "refs/remotes/origin/fix");
    a.advance(AddEvent::Exists(true));
    assert_eq!(a.start, "refs/remotes/origin/fix");
    assert_eq!(a.step, AddStep::Add);
    a.advance(AddEvent::Finished);
    a.advance(AddEvent::Finished);
    assert_eq!(a.step, AddStep::Upstream);
    a.advance(AddEvent::Found(Some("origin/fix".into())));
    assert_eq!(a.step, AddStep::Done);
    assert_eq!(a.notices[0].code, "PR_BRANCH_TRACKED");
    assert_eq!(
        a.notices[0].message,
        "branch `fix` tracks origin/fix, so `git push` updates pull request 7"
    );
}

#[test]
fn a_pull_request_without_its_branch_is_not_found() {
    let mut r = request();
    r.told = Some(Told { head: None, origin_branch: Some("gone".into()) });
    let mut a = Adding::new(r);
    a.advance(AddEvent::Exists(true));
    a.advance(AddEvent::Wanted(Some(PullRequest {
        number: 9,
        host: "github.com".into(),
        github: true,
    })));
    a.advance(AddEvent::Found(None));
    a.advance(AddEvent::Exists(false));
    a.advance(AddEvent::Found(Some("main".into())));
    a.advance(AddEvent::Finished);
    a.advance(AddEvent::Exists(false));
    let e = a.error.unwrap();
    assert_eq!(e.code, "NOT_FOUND");
    assert_eq!(e.message, "pull request 9 is branch `gone`, which origin does not have");
}

#[test]
fn a_mirrored_pull_request_is_warned_about() {
    let mut r = request();
    r.branch = Some("pr/5".into());
    let mut a = Adding::new(r);
    a.advance(AddEvent::Exists(true));
    a.advance(AddEvent::Wanted(Some(PullRequest {
        number: 5,
        host: "example.org".into(),
        github: false,
    })));
    a.advance(AddEvent::Found(None));
    a.advance(AddEvent::Exists(false));
    a.advance(AddEvent::Found(Some("main".into())));
    a.advance(AddEvent::Finished);
    assert_eq!(a.step, AddStep::FetchPull);
    a.advance(AddEvent::Finished);
    assert_eq!(a.reference(), "refs/wt/pr/5");
    a.advance(AddEvent::Exists(true));
    a.advance(AddEvent::Finished);
    a.advance(AddEvent::Finished);
    a.advance(AddEvent::Finished);
    a.advance(AddEvent::Found(None));
    assert_eq!(a.notices[0].code, "PR_BRANCH_UNTRACKED");
    assert_eq!(a.notices[0].level, NoticeLevel::Warn);
}

#[test]
fn untracked_notices_say_what_a_push_does_and_what_to_do() {
    let pull = PullRequest { number: 3, host: "github.com".into(), github: true };
    let fork = Some(PullRequestHead {
        branch: "feat".into(),
        cross_repository: true,
        owner: Some("ada".into()),
    });
    let n = untracked_pr_notice("repo/x", "pr/3", &None, &pull, &fork, false, false);
    assert_eq!(
        n.message,
        "branch pr/3 mirrors pull request 3 but tracks nothing, so a plain `git push` creates a new branch on origin instead of updating the pull request; the pull request was opened from ada's fork; to update it, push to that fork's `feat` branch"
    );
    let own = Some(PullRequestHead {
        branch: "feat".into(),
        cross_repository: false,
        owner: None,
    });
    let n = untracked_pr_notice(
        "repo/x",
        "pr/3",
        &Some("origin/z".into()),
        &pull,
        &own,
        true,
        false,
    );
    assert_eq!(
        n.message,
        "this detached worktree tracks origin/z, which is not pull request 3's branch, so a plain `git push` updates origin/z instead of the pull request; the pull request is branch `feat`; to update it, push there: `git push origin HEAD:feat`"
    );
    let n = untracked_pr_notice("repo/x", "b", &None, &pull, &None, false, true);
    assert!(n.message.ends_with("retry without --no-fetch to check out the pull request's own branch"));
    let other = PullRequest { number: 3, host: "git.example".into(), github: false };
    let n = untracked_pr_notice("repo/x", "b", &None, &other, &None, false, false);
    assert!(n.message.contains("wt asks only GitHub for a pull request's branch, not git.example;"));
}

#[test]
fn pull_request_references_are_checked() {
    assert_eq!(ensure_pr_ref(4, true).unwrap(), "refs/wt/pr/4");
    assert_eq!(
        ensure_pr_ref(4, false).unwrap_err().message,
        "pull request 4 is not available locally"
    );
    assert_eq!(plain_branch("origin/a/b"), "a/b");
    assert_eq!(plain_branch("a/b"), "a/b");
}

#[test]
fn addresses_of_new_trees_are_refused_in_order() {
    let r = registry(vec![tree("repo", "canonical"), tree("repo", "x")]);
    let why = |label: &str, name: &str| belongs(&r, label, name, "repo").unwrap_err().code;
    assert_eq!(why("repo", "canonical"), "NAME_REQUIRED");
    assert_eq!(why("repo", "repo"), "NAME_SHADOWS_LABEL");
    assert_eq!(why("other", "z"), "NOT_FOUND");
    let b = belongs(&r, "repo", "x", "repo").unwrap();
    assert_eq!((b.canonical, b.existing), (0, Some(1)));
    assert_eq!(belongs(&r, "repo", "z", "repo").unwrap().existing, None);
    let bare = registry(vec![]);
    assert_eq!(belongs(&bare, "repo", "z", "repo").unwrap_err().code, "NOT_FOUND");
}

#[test]
fn trees_are_put_below_the_first_directory_that_is_set() {
    let own = Some("/own".to_string());
    let set = Some("/set".to_string());
    assert_eq!(tree_path(&own, &set, "/h", "l", "n"), "/own/l/n");
    assert_eq!(tree_path(&None, &set, "/h", "l", "n"), "/set/l/n");
    assert_eq!(tree_path(&None, &None, "/h", "l", "n"), "/h/trees/l/n");
}

#[test]
fn branches_follow_what_is_asked_for() {
    assert_eq!(named(&creation_branch(&Some("b".into()), true, Some(1), &None, "n")), "b");
    assert_eq!(named(&creation_branch(&None, true, Some(1), &None, "n")), "n");
    assert_eq!(named(&creation_branch(&None, false, Some(12), &None, "n")), "pr/12");
    assert_eq!(
        named(&creation_branch(&None, false, Some(12), &Some("fix".into()), "n")),
        "fix"
    );
    assert!(matches!(creation_branch(&None, false, None, &None, "n"), Branch::ByConvention));
    assert_eq!(branch_by_convention(&Some("u/n".into()), "n"), "u/n");
    assert_eq!(branch_by_convention(&None, "n"), "n");
}

#[test]
fn a_rerun_asks_for_the_branch_on_record() {
    let mut t = tree("repo", "x");
    t.branch = Some("old".into());
    t.pr = Some(5);
    assert_eq!(named(&requested_branch(Some(&t), &None, false, None, &None, "x")), "old");
    assert_eq!(named(&requested_branch(Some(&t), &None, false, Some(5), &None, "x")), "old");
    assert_eq!(named(&requested_branch(Some(&t), &None, false, Some(6), &None, "x")), "pr/6");
    assert_eq!(
        named(&requested_branch(Some(&t), &Some("b".into()), false, None, &None, "x")),
        "b"
    );
    assert!(!asks_forge(Some(&t), Some(5)));
    assert!(asks_forge(Some(&t), Some(6)));
    assert!(asks_forge(None, None));
    assert!(source_identical(&t, "old", &None));
    assert!(!source_identical(&t, "new", &None));
    assert!(!source_identical(&t, "old", &Some("main".into())));
    t.start = Some("main".into());
    assert!(source_identical(&t, "old", &Some("main".into())));
}

#[test]
fn sources_and_references_are_named() {
    assert_eq!(new_source(Some(1), true, "b"), (SourceKind::Pr, None));
    assert_eq!(new_source(None, true, "b"), (SourceKind::Ref, None));
    assert_eq!(new_source(None, false, "b"), (SourceKind::Branch, Some("b".to_string())));
    assert_eq!(resolve_from("origin/a"), (None, "refs/remotes/origin/a".to_string()));
    assert_eq!(
        resolve_from("a"),
        (Some("refs/heads/a".to_string()), "refs/remotes/origin/a".to_string())
    );
    assert!(asks_for_head(false, true));
    assert!(!asks_for_head(true, true));
    assert!(!asks_for_head(false, false));
}

#[test]
fn pull_request_urls_belong_to_one_label() {
    let origin = |label: &str, host: &str, path: &str| Origin {
        label: label.into(),
        location: Some((host.into(), path.into())),
    };
    let one = vec![
        origin("a", "GitHub.com", "o/r"),
        origin("b", "github.com", "o/other"),
        Origin { label: "c".into(), location: None },
    ];
    assert!(ensure_pr_url_matches(&one, "a", "github.COM", "o", "r").is_ok());
    let e = ensure_pr_url_matches(&one, "b", "github.com", "o", "r").unwrap_err();
    assert_eq!(e.code, "PR_REPO_UNRESOLVED");
    assert_eq!(e.message, "pull request URL matches 1 registered labels");
    let two = vec![origin("a", "h", "o/r"), origin("b", "h", "o/r")];
    assert_eq!(
        ensure_pr_url_matches(&two, "a", "h", "o", "r").unwrap_err().message,
        "pull request URL matches 2 registered labels"
    );
}

#[test]
fn entering_a_tree_digs_up_its_own_tombstone_alone() {
    let mut r = registry(vec![tree("repo", "canonical")]);
    enter(&mut r, tree("repo", "x"));
    assert_eq!(r.trees.len(), 2);
    assert_eq!(r.trees[1].name, "x");
    let left: Vec<(&str, &str)> =
        r.tombstones.iter().map(|t| (t.label.as_str(), t.name.as_str())).collect();
    assert_eq!(left, vec![("repo", "y"), ("other", "x")]);
}

#[test]
fn a_fresh_incarnation_takes_the_place_of_the_old_one() {
    let mut r = registry(vec![tree("repo", "canonical"), tree("repo", "x")]);
    let mut t = tree("repo", "x");
    t.tree_id = "anew".into();
    assert!(replace(&mut r, t, "repo/x").is_ok());
    assert_eq!(r.trees[1].tree_id, "anew");
    assert_eq!(r.trees.len(), 2);
    assert_eq!(replace(&mut r, tree("repo", "z"), "repo/z").unwrap_err().code, "NOT_FOUND");
}

#[test]
fn what_an_address_holds_is_described() {
    let mut t = tree("repo", "x");
    t.branch = Some("b".into());
    let v = entry_view(
        DerivedPhase::Failed,
        &t,
        "b",
        &None,
        Some(Recorded { verify_pending: true, resources: 2 }),
    );
    assert!(v.source_identical && v.verify_pending && v.has_resource_records);
    let v = entry_view(DerivedPhase::Claimed, &t, "c", &None, None);
    assert!(!v.source_identical && !v.verify_pending && !v.has_resource_records);
    assert_eq!(v.phase, DerivedPhase::Claimed);
}

#[test]
fn decisions_are_carried_out_or_refused() {
    let ready = DerivedPhase::Ready;
    assert_eq!(at_entry(Decision::AlreadyReady, "repo/x", ready).unwrap(), Making::Tell);
    assert_eq!(at_entry(Decision::FreshIncarnation, "repo/x", ready).unwrap(), Making::Replace);
    assert_eq!(
        at_entry(Decision::Verify { resumed: true }, "repo/x", ready).unwrap(),
        Making::Verify { resumed: true }
    );
    assert_eq!(
        at_entry(Decision::Resume { start: StartAt::Git }, "repo/x", ready).unwrap(),
        Making::Resume { start: StartAt::Git }
    );
    let e = at_entry(
        Decision::Refuse { code: "TREE_EXISTS".into(), remedy: "rm it".into() },
        "repo/x",
        DerivedPhase::Removing,
    )
    .unwrap_err();
    assert_eq!(e.message, "cannot create repo/x in phase Removing");
    assert_eq!((e.code.as_str(), e.remedy.as_str()), ("TREE_EXISTS", "rm it"));
    assert_eq!(e.class, ExitClass::Conflict);
    assert_eq!(at_vacancy(Decision::Allocate, "/p").unwrap(), Making::Create);
    let e = at_vacancy(
        Decision::Refuse { code: "PATH_OCCUPIED".into(), remedy: "move it".into() },
        "/p",
    )
    .unwrap_err();
    assert_eq!(e.message, "tree path /p is occupied");
    assert_eq!(e.class, ExitClass::State);
    assert_eq!(phase_word(DerivedPhase::StaleGit), "StaleGit");
    assert_eq!(
        cannot_create("C", "t", DerivedPhase::Missing, "r").message,
        "cannot create t in phase Missing"
    );
    assert_eq!(making_flags(Making::Create), (true, false));
    assert_eq!(making_flags(Making::Replace), (true, false));
    assert_eq!(making_flags(Making::Resume { start: StartAt::State }), (false, true));
    assert_eq!(making_flags(Making::Verify { resumed: true }), (false, true));
    assert_eq!(making_flags(Making::Tell), (false, false));
}

fn creating(making: Making, events: Vec<CreateEvent>) -> (Vec<CreateStep>, Creating) {
    let mut c = Creating::new(making);
    let mut steps = vec![c.step];
    for event in events {
        c.advance(event);
        steps.push(c.step);
    }
    (steps, c)
}

fn well(n: usize) -> Vec<CreateEvent> {
    (0..n).map(|_| CreateEvent::Succeeded).collect()
}

#[test]
fn a_new_tree_is_recorded_before_its_worktree_is_added() {
    let (steps, c) = creating(Making::Create, well(7));
    assert_eq!(
        steps,
        vec![
            CreateStep::Lock,
            CreateStep::Config,
            CreateStep::Allocate,
            CreateStep::WriteState,
            CreateStep::Record,
            CreateStep::Add,
            CreateStep::Finish,
            CreateStep::Done,
        ]
    );
    assert!(c.state_written && c.recorded && c.added && !c.locked);
}

#[test]
fn a_fresh_incarnation_keeps_what_it_was_given() {
    let (steps, _) = creating(Making::Replace, well(6));
    assert_eq!(
        steps,
        vec![
            CreateStep::Lock,
            CreateStep::WriteState,
            CreateStep::Record,
            CreateStep::Add,
            CreateStep::Config,
            CreateStep::Finish,
            CreateStep::Done,
        ]
    );
}

#[test]
fn a_creation_is_taken_up_where_it_was_left() {
    let (steps, c) = creating(Making::Resume { start: StartAt::State }, well(5));
    assert_eq!(
        steps,
        vec![
            CreateStep::Lock,
            CreateStep::WriteState,
            CreateStep::Config,
            CreateStep::Look,
            CreateStep::Finish,
            CreateStep::Done,
        ]
    );
    assert!(!c.recorded && !c.added && c.found);
    let mut events = well(2);
    events.push(CreateEvent::Absent);
    events.extend(well(2));
    let (steps, c) = creating(Making::Resume { start: StartAt::Bootstrap }, events);
    assert_eq!(
        steps,
        vec![
            CreateStep::Lock,
            CreateStep::Config,
            CreateStep::Look,
            CreateStep::Add,
            CreateStep::Finish,
            CreateStep::Done,
        ]
    );
    assert!(c.added && !c.recorded);
}

#[test]
fn a_creation_that_breaks_keeps_its_error() {
    let mut events = well(3);
    events.push(CreateEvent::Failure(broken("DISK_FULL")));
    let (steps, c) = creating(Making::Create, events);
    assert_eq!(*steps.last().unwrap(), CreateStep::Failed);
    assert!(!c.state_written && !c.recorded);
    assert_eq!(c.error.unwrap().code, "DISK_FULL");
}

#[test]
fn copies_are_passed_over_or_refused() {
    let code = |step: &CopyStep| match step {
        CopyStep::Skip(n) => n.code.clone(),
        CopyStep::Refuse(e) => e.code.clone(),
        CopyStep::Copy => "copy".to_string(),
    };
    assert_eq!(code(&copy_step("t", "p", true, true, true)), "COPY_ABSENT");
    assert_eq!(code(&copy_step("t", "p", false, true, true)), "COPY_TRACKED");
    assert_eq!(code(&copy_step("t", "p", false, false, false)), "COPY_EXISTS");
    assert_eq!(code(&copy_step("t", "p", false, false, true)), "copy");
}

#[test]
fn a_tree_is_ready_only_once_it_was_entered_and_synced() {
    let mut f = Finish::new(false, 2, false, true);
    let mut steps = vec![f.step];
    while f.step != FinishStep::Done {
        f.advance(FinishEvent::Succeeded);
        steps.push(f.step);
    }
    assert_eq!(
        steps,
        vec![
            FinishStep::Identity,
            FinishStep::AskGit,
            FinishStep::Copy(0),
            FinishStep::Copy(1),
            FinishStep::Mark,
            FinishStep::Exclude,
            FinishStep::Enter,
            FinishStep::Refresh,
            FinishStep::Plan,
            FinishStep::Execute,
            FinishStep::Hash,
            FinishStep::RecordSync,
            FinishStep::Ready,
            FinishStep::Verify,
            FinishStep::Done,
        ]
    );
    assert!(f.entered && f.refreshed && f.ran && f.ready);
}

#[test]
fn failures_in_a_finish_go_on_record_and_refusals_drop_the_record() {
    let mut f = Finish::new(true, 0, false, false);
    f.advance(FinishEvent::Succeeded);
    assert_eq!(f.step, FinishStep::Mark);
    f.advance(FinishEvent::Succeeded);
    f.advance(FinishEvent::Succeeded);
    assert_eq!(f.step, FinishStep::Enter);
    f.advance(FinishEvent::Broke(broken("ENTER")));
    assert_eq!(f.step, FinishStep::MarkFailed);
    f.advance(FinishEvent::Succeeded);
    assert!(f.marked && !f.ready);
    assert_eq!(f.step, FinishStep::Fail);
    assert_eq!(f.error.unwrap().code, "ENTER");

    let mut h = Finish::new(true, 0, false, false);
    for _ in 0..3 {
        h.advance(FinishEvent::Succeeded);
    }
    h.advance(FinishEvent::Broke(broken("ENTER")));
    h.advance(FinishEvent::Broke(broken("RECORD")));
    assert!(h.step == FinishStep::Fail && !h.marked);
    assert_eq!(h.error.unwrap().code, "RECORD");

    let mut g = Finish::new(false, 1, true, false);
    g.advance(FinishEvent::Succeeded);
    g.advance(FinishEvent::Succeeded);
    g.advance(FinishEvent::Refused(broken("COPY_TRACKED")));
    assert_eq!(g.step, FinishStep::DropState);
    g.advance(FinishEvent::Succeeded);
    assert_eq!(g.step, FinishStep::Fail);
    assert_eq!(g.error.unwrap().code, "COPY_TRACKED");
}

#[test]
fn a_tree_without_a_sync_plan_is_ready() {
    let mut f = Finish::new(true, 0, false, false);
    for _ in 0..5 {
        f.advance(FinishEvent::Succeeded);
    }
    assert_eq!(f.step, FinishStep::Plan);
    f.advance(FinishEvent::Broke(broken("NO_PLAN")));
    assert_eq!(f.step, FinishStep::Ready);
    assert!(f.unplanned && f.error.is_none());
}

#[test]
fn what_follows_a_creation_is_decided() {
    assert_eq!(after_new(true, false, true, true), AfterNew::Nothing);
    assert_eq!(after_new(false, false, true, true), AfterNew::Session { build: true });
    assert_eq!(after_new(false, true, true, false), AfterNew::Provision { build: false });
    assert_eq!(after_new(false, false, false, false), AfterNew::Provision { build: false });
    let source = vec![notice(NoticeLevel::Warn, "S", "t", "s")];
    let own = vec![notice(NoticeLevel::Info, "O", "t", "o")];
    let all = source_notices(source, own);
    assert_eq!((all[0].code.as_str(), all[1].code.as_str()), ("O", "S"));
    let child = ChildStatus { code: Some(2), signal: None };
    let cause = CoreError::new(ExitClass::ChildFailed, "TASK_FAILED", "bad", "r")
        .with_details(Details::Child(child));
    let failed = verify_failed(cause);
    assert_eq!(failed.message, "verification failed: bad");
    assert_eq!(failed.class, ExitClass::ChildFailed);
    assert!(matches!(failed.details, Details::Child(told) if told == child));
}

#[test]
fn a_pull_request_lives_on_the_host_that_names_it() {
    let origins = vec![
        Origin { label: "repo".into(), location: Some(("GitHub.com".into(), "o/r".into())) },
        Origin { label: "other".into(), location: None },
    ];
    let url = |host: &str, repo: &str| Reference::Url {
        number: 7,
        host: host.into(),
        owner: "o".into(),
        repo: repo.into(),
    };
    let asked = |reference, label: &str, host: Option<&str>| {
        requested_pull_request(reference, &origins, label, host.map(str::to_owned))
    };
    assert_eq!(asked(Reference::Other, "repo", Some("h")).unwrap(), None);
    assert_eq!(asked(Reference::Number(3), "repo", Some("h")).unwrap(), Some((3, "h".into())));
    assert_eq!(asked(Reference::Number(3), "repo", None).unwrap(), Some((3, "unknown".into())));
    assert_eq!(
        asked(url("github.com", "r"), "repo", None).unwrap(),
        Some((7, "github.com".into()))
    );
    for (reference, label) in [(url("github.com", "r"), "other"), (url("github.com", "s"), "repo")] {
        assert_eq!(asked(reference, label, None).unwrap_err().code, "PR_REPO_UNRESOLVED");
    }
}

#[test]
fn a_record_goes_through_its_phases() {
    let mut s = new_state(
        "repo".into(),
        "x".into(),
        "id".into(),
        StatePhase::Bootstrapping,
        "new",
        42,
        "now".into(),
    )
    .unwrap();
    let op = s.op.as_ref().unwrap();
    assert_eq!((op.verb, op.pid, op.started.as_str()), (OpVerb::New, 42, "now"));
    assert!(s.materialized.is_empty());
    s.bootstrap(vec![Materialized {
        path: ".env".into(),
        kind: MaterializedKind::Copied,
        hash: None,
        checked_at: "now".into(),
    }]);
    assert_eq!(s.materialized.len(), 1);
    s.synced("then".into(), vec![("k".into(), "v".into())]);
    assert!(s.sync.as_ref().unwrap().ok);
    s.complete(true);
    assert!(s.verify_pending && s.op.is_none() && s.phase == StatePhase::Ready);
    s.verified("then".into(), Some("log".into()));
    assert!(!s.verify_pending && s.verify.as_ref().unwrap().ok);
    s.expect_verify();
    assert!(s.verify_pending);
    s.refuted("later".into(), "why".into());
    assert!(!s.verify.as_ref().unwrap().ok && s.phase == StatePhase::Ready);
    assert_eq!(s.last_error.as_deref(), Some("why"));
    s.fail("worse".into());
    assert_eq!(s.phase, StatePhase::Failed);
    s.settle();
    assert_eq!(s.phase, StatePhase::Ready);
    assert_eq!(s.last_error.as_deref(), Some("worse"));
}

#[test]
fn only_lifecycle_operations_have_a_record() {
    assert_eq!(op_verb("register").unwrap(), OpVerb::Register);
    assert_eq!(op_verb("adopt").unwrap(), OpVerb::Adopt);
    assert_eq!(op_verb("sync").unwrap(), OpVerb::Sync);
    assert_eq!(op_verb("remove").unwrap(), OpVerb::Remove);
    assert_eq!(op_verb("open").unwrap_err().code, "OP_INVALID");
}

fn place() -> Coordinates {
    let mut ports = Assoc::new();
    ports.put("web", 2u8);
    Coordinates {
        slot: 3,
        geometry: Geometry { base: 3000, stride: 4, port_base: 3012 },
        ports,
        name_short: "x".into(),
        session_name: "repo_x".into(),
    }
}

fn wish(detach: bool, pr: Option<u64>) -> Wish {
    let mut meta = Assoc::new();
    meta.put("why", "test".to_string());
    Wish { branch: "topic".into(), detach, pr, from_ref: Some("main".into()), meta }
}

#[test]
fn a_new_tree_is_put_on_record_as_it_was_asked_for() {
    let made =
        |detach, pr| new_record("id", "repo", "x", "/t/x", place(), "now", wish(detach, pr));
    let plain = made(false, None);
    assert_eq!((plain.tree_id.as_str(), plain.label.as_str()), ("id", "repo"));
    assert_eq!((plain.name.as_str(), plain.path.as_str()), ("x", "/t/x"));
    assert!(!plain.canonical && plain.agent.is_none());
    assert_eq!((plain.slot, plain.ports.get("web")), (3, Some(&2)));
    assert_eq!((plain.kind, plain.branch.as_deref()), (SourceKind::Branch, Some("topic")));
    assert_eq!((plain.pr, plain.start.as_deref()), (None, Some("main")));
    assert_eq!(plain.created_at, "now");
    assert_eq!(plain.meta.get("why").map(String::as_str), Some("test"));
    let loose = made(true, None);
    assert_eq!((loose.kind, loose.branch), (SourceKind::Ref, None));
    let pulled = made(false, Some(7));
    assert_eq!((pulled.kind, pulled.pr), (SourceKind::Pr, Some(7)));
    assert_eq!(pulled.branch.as_deref(), Some("topic"));
}

#[test]
fn a_tree_that_is_being_removed_says_so() {
    let mut state = new_state(
        "repo".into(),
        "x".into(),
        "id".into(),
        StatePhase::Ready,
        "new",
        1,
        "then".into(),
    )
    .unwrap();
    state.remove(9, "now".into());
    assert_eq!(state.phase, StatePhase::Removing);
    let op = state.op.as_ref().unwrap();
    assert_eq!((op.verb, op.pid, op.started.as_str()), (OpVerb::Remove, 9, "now"));
    state.leave();
    assert_eq!(state.phase, StatePhase::Removing);
    assert!(state.op.is_none());
}
