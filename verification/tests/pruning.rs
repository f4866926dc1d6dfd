use wt::error::{CoreError, Details, ExitClass};
use wt::git::StatusEntry;
use wt::doctor::DefaultFacts;
use wt::model::DerivedPhase;
use wt::output::{notice, NoticeLevel};
use wt::proc::ChildStatus;
use wt::prune::{
    action_name, arena_holder_is_live, cache_orphans, cache_subject, collect, collects_holder,
    consent, drop_tombstones, item_step, label_matches, plan, plan_records,
    stale_exclusive_entries, state_orphans, state_subject, BranchFacts, Consent, Grave,
    HolderStore, ItemResult, LabelDir, Leftovers, OwnedFile, PruneAction, PruneEvent, PruneItem,
    PruneStage, PruneStep, Pruning, Records, RecordsEvent, RecordsStep, TreeFacts,
};
use wt::remove::{
    door_holders, in_use, nothing_removed, observe_git, removed, state_disappeared, Destruction,
    DoorHolder, DoorSeen, Event, GitAnswers, Removal, Step, Upstream,
};

fn tree(target: &str, phase: DerivedPhase) -> TreeFacts {
    TreeFacts {
        label: "repo".into(),
        target: target.into(),
        canonical: false,
        phase,
        orphaned: false,
        branch: None,
    }
}

fn grave(label: &str, name: &str) -> Grave {
    Grave {
        label: label.into(),
        name: name.into(),
        target: format!("{label}/{name}"),
        session: format!("{label}_{name}"),
    }
}

fn leftovers(trees: Vec<TreeFacts>) -> Leftovers {
    Leftovers {
        label: None,
        merged: true,
        gone: true,
        graves: Vec::new(),
        trees,
        state_orphans: Vec::new(),
        cache_orphans: Vec::new(),
        stale: Vec::new(),
    }
}

fn planned(l: &Leftovers) -> Vec<(String, Vec<String>, PruneAction)> {
    plan(l)
        .entries
        .into_iter()
        .map(|(_, item)| (item.target, item.reasons, item.action))
        .collect()
}

#[test]
fn a_plan_lists_what_is_left_over_by_target() {
    let branch = |dirty, gone, merged| Some(BranchFacts { dirty, gone, merged });
    let mut l = leftovers(vec![
        tree("repo/missing", DerivedPhase::Missing),
        TreeFacts { orphaned: true, ..tree("repo/orphan", DerivedPhase::Failed) },
        TreeFacts { branch: branch(false, true, true), ..tree("repo/done", DerivedPhase::Ready) },
        TreeFacts { branch: branch(true, false, true), ..tree("repo/dirty", DerivedPhase::Ready) },
        TreeFacts { branch: branch(false, false, false), ..tree("repo/live", DerivedPhase::Ready) },
        TreeFacts { canonical: true, ..tree("repo", DerivedPhase::Missing) },
    ]);
    l.graves = vec![grave("repo", "buried")];
    l.state_orphans = vec!["/home/state/repo/x.json".into()];
    l.cache_orphans = vec!["/home/cache/x".into()];
    l.stale = vec!["/home/store:exclusive.k".into()];
    let found = planned(&l);
    let said: Vec<(&str, String, &str)> = found
        .iter()
        .map(|(target, reasons, action)| (target.as_str(), reasons.join(","), action_name(*action)))
        .collect();
    assert_eq!(
        said,
        [
            ("/home/cache/x", "cache-orphan".to_string(), "delete-cache"),
            ("/home/state/repo/x.json", "state-orphan".to_string(), "delete-state"),
            ("/home/store:exclusive.k", "stale-exclusive-holder".to_string(), "delete-exclusive"),
            ("repo/buried", "tombstone".to_string(), "collect"),
            ("repo/dirty", "merged,dirty".to_string(), "keep"),
            ("repo/done", "merged,gone".to_string(), "remove"),
            ("repo/missing", "missing".to_string(), "remove"),
            ("repo/orphan", "orphaned-records".to_string(), "destroy-records"),
        ]
    );
}

#[test]
fn only_the_label_that_is_asked_for_is_looked_at() {
    let mut l = leftovers(vec![tree("repo/missing", DerivedPhase::Missing)]);
    l.graves = vec![grave("other", "buried")];
    l.label = Some("other".into());
    let targets: Vec<String> = planned(&l).into_iter().map(|item| item.0).collect();
    assert_eq!(targets, ["other/buried"]);
    assert!(label_matches(&None, "x") && !label_matches(&Some("y".into()), "x"));
}

#[test]
fn records_go_only_with_their_tree() {
    for phase in [DerivedPhase::Missing, DerivedPhase::Replaced, DerivedPhase::RemoveInterrupted] {
        let item = plan_records("repo/x", phase).unwrap();
        assert_eq!(item.action, PruneAction::DestroyRecords);
        assert_eq!(item.reasons, ["records"]);
    }
    let error = plan_records("repo/x", DerivedPhase::Ready).unwrap_err();
    assert_eq!(error.code, "PRUNE_RECORDS_REFUSED");
    assert_eq!(error.message, "repo/x is in phase ready");
}

fn item(target: &str, action: PruneAction) -> PruneItem {
    PruneItem { target: target.into(), reasons: Vec::new(), action, result: None }
}

fn words_of(steps: &[PruneStep]) -> Vec<String> {
    steps.iter().map(|step| format!("{step:?}")).collect()
}

fn step_of(pruning: &Pruning) -> String {
    match pruning.stage {
        PruneStage::Item(at) => {
            format!("{:?}", item_step(&pruning.items[at], "/home/cache").unwrap())
        },
        PruneStage::Collect(at) => format!("{:?}", pruning.steps[at]),
        stage => format!("{stage:?}"),
    }
}

fn registry(labels: &[&str], graves: Vec<Grave>) -> PruneEvent {
    PruneEvent::Registry { labels: labels.iter().map(|l| l.to_string()).collect(), graves }
}

#[test]
fn a_plan_is_carried_out_item_by_item_and_graves_last() {
    let items = vec![
        item("/home/cache/repo/x", PruneAction::DeleteCache),
        item("/elsewhere", PruneAction::DeleteCache),
        item("repo/buried", PruneAction::Collect),
        item("repo/kept", PruneAction::Keep),
        item("repo/x", PruneAction::Remove),
        item("/s/repo/y", PruneAction::DeleteState),
        item("repo/z", PruneAction::DestroyRecords),
        item("repo:exclusive.k", PruneAction::DeleteExclusive),
    ];
    let mut pruning = Pruning::new(items, Some("repo".into()));
    let mut said = Vec::new();
    let graves = vec![grave("repo", "b"), grave("repo", "a"), grave("other", "c")];
    let events = vec![
        PruneEvent::Deleted(true),
        PruneEvent::Deleted(false),
        PruneEvent::Removed {
            data: nothing_removed("repo/x"),
            notices: vec![notice(NoticeLevel::Info, "N", "repo/x", "n")],
        },
        PruneEvent::Finished,
        PruneEvent::Records { records: 2, remaining: 1, notices: Vec::new() },
        PruneEvent::Deleted(true),
        registry(&["other", "repo"], graves),
        PruneEvent::Finished,
        PruneEvent::Finished,
        PruneEvent::Finished,
        PruneEvent::Finished,
        PruneEvent::Finished,
    ];
    for event in events {
        said.push(step_of(&pruning));
        pruning.advance(event);
    }
    assert_eq!(
        said,
        [
            "DeleteCache { relative: Some(\"repo/x\"), parent: Some(\"/home/cache/repo\") }",
            "DeleteCache { relative: None, parent: Some(\"/\") }",
            "Remove(\"repo/x\")",
            "DeleteState(\"/s/repo/y\")",
            "DestroyRecords(\"repo/z\")",
            "DeleteExclusive(\"repo:exclusive.k\")",
            "Read",
            "PruneGit(\"repo\")",
            "CloseSession(\"repo_b\")",
            "CloseSession(\"repo_a\")",
            "DropTombstones([(\"repo\", \"b\"), (\"repo\", \"a\")])",
            "RecomputeExclude(\"repo\")",
        ]
    );
    assert_eq!(pruning.stage, PruneStage::Done);
    assert_eq!(pruning.notices.len(), 1);
    let results: Vec<String> =
        pruning.items.iter().map(|i| format!("{:?}", i.result.as_ref().unwrap())).collect();
    assert_eq!(results[0], "Deleted(true)");
    assert_eq!(results[1], "Deleted(false)");
    assert_eq!(results[2], "Collected");
    assert_eq!(results[3], "Kept");
    assert!(results[4].starts_with("Removed("));
    assert_eq!(results[5], "Deleted(true)");
    assert_eq!(results[6], "Records { records: 2, remaining: 1 }");
    assert_eq!(results[7], "Deleted(true)");
}

#[test]
fn a_tree_that_this_prune_removes_is_collected_with_it() {
    let mut pruning = Pruning::new(vec![item("repo/x", PruneAction::Remove)], None);
    pruning.advance(PruneEvent::Removed { data: nothing_removed("repo/x"), notices: Vec::new() });
    assert_eq!(pruning.stage, PruneStage::Read);
    pruning.advance(registry(&["repo"], vec![grave("repo", "x")]));
    assert_eq!(
        words_of(&pruning.steps),
        [
            "PruneGit(\"repo\")",
            "CloseSession(\"repo_x\")",
            "DropTombstones([(\"repo\", \"x\")])",
            "RecomputeExclude(\"repo\")",
        ]
    );
    let labels = vec!["other".to_string(), "repo".to_string()];
    assert_eq!(
        words_of(&collect(&labels, &Vec::new(), &None)),
        ["PruneGit(\"other\")", "PruneGit(\"repo\")"]
    );
}

#[test]
fn an_error_ends_a_prune() {
    let mut pruning = Pruning::new(vec![item("repo/x", PruneAction::Remove)], None);
    pruning.advance(PruneEvent::Deleted(true));
    assert_eq!(pruning.stage, PruneStage::Item(0));
    pruning.advance(PruneEvent::Failure(CoreError::new(ExitClass::State, "BROKEN", "m", "r")));
    assert_eq!(pruning.stage, PruneStage::Failed);
    assert_eq!(pruning.error.unwrap().code, "BROKEN");
    let mut empty = Pruning::new(Vec::new(), None);
    assert_eq!(empty.stage, PruneStage::Read);
    empty.advance(registry(&[], Vec::new()));
    assert_eq!(empty.stage, PruneStage::Done);
}

#[test]
fn records_alone_are_destroyed_under_their_locks() {
    let failure = || RecordsEvent::Failure(CoreError::new(ExitClass::State, "BROKEN", "m", "r"));
    let mut alone = Records::new(true, 2);
    let mut steps = Vec::new();
    for event in [
        RecordsEvent::Finished,
        failure(),
        RecordsEvent::Finished,
        RecordsEvent::Destroyed(Some(notice(NoticeLevel::Info, "N", "x", "n"))),
        RecordsEvent::Left(1),
        RecordsEvent::Finished,
        RecordsEvent::Finished,
    ] {
        steps.push(alone.step);
        alone.advance(event);
    }
    assert_eq!(
        steps,
        [
            RecordsStep::Lock(0),
            RecordsStep::Destroy(0),
            RecordsStep::Lock(1),
            RecordsStep::Destroy(1),
            RecordsStep::Count,
            RecordsStep::LockGit,
            RecordsStep::PruneGit,
        ]
    );
    assert_eq!(alone.step, RecordsStep::Done);
    assert_eq!(alone.notices.len(), 1);
    assert!(matches!(alone.result(), ItemResult::Records { records: 2, remaining: 1 }));

    let mut among = Records::new(false, 1);
    assert_eq!(among.step, RecordsStep::Destroy(0));
    among.advance(RecordsEvent::Destroyed(None));
    among.advance(RecordsEvent::Left(0));
    assert_eq!(among.step, RecordsStep::Done);

    let mut locked = Records::new(true, 1);
    locked.advance(failure());
    assert_eq!(locked.step, RecordsStep::Failed);
    assert_eq!(Records::new(true, 0).step, RecordsStep::Count);
}

#[test]
fn tombstones_that_are_not_dropped_stay() {
    let graves = vec![grave("a", "x"), grave("b", "x"), grave("a", "y")];
    let kept = drop_tombstones(graves, &vec![("a".into(), "x".into())]);
    let names: Vec<String> = kept.into_iter().map(|g| g.target).collect();
    assert_eq!(names, ["b/x", "a/y"]);
}

fn owned(path: &str, name: &str) -> OwnedFile {
    OwnedFile { path: path.into(), name: Some(name.into()) }
}

fn label_dir(path: &str, name: &str, files: Vec<OwnedFile>) -> LabelDir {
    LabelDir { path: path.into(), name: Some(name.into()), is_dir: true, files }
}

#[test]
fn what_no_tree_claims_is_an_orphan() {
    let dirs = vec![
        label_dir("/s/_machine.json", "_machine.json", vec![owned("/s/_machine.json/x", "x")]),
        label_dir(
            "/s/repo",
            "repo",
            vec![
                owned("/s/repo/live.json", "live"),
                owned("/s/repo/gone.json", "gone"),
                owned("/s/repo/_repo.json", "_repo"),
                OwnedFile { path: "/s/repo/odd".into(), name: None },
            ],
        ),
    ];
    let trees = vec![("repo".to_string(), "live".to_string())];
    let found: Vec<String> = state_orphans(&dirs, &None, &trees).into_iter().map(|l| l.path).collect();
    assert_eq!(found, ["/s/repo/gone.json"]);
    assert!(state_orphans(&dirs, &Some("other".into()), &trees).is_empty());

    let caches = vec![
        label_dir("/c/repo", "repo", vec![owned("/c/repo/live", "live"), owned("/c/repo/old", "old")]),
        label_dir("/c/away", "away", vec![owned("/c/away/x", "x")]),
    ];
    let labels = vec!["repo".to_string()];
    let found: Vec<String> =
        cache_orphans(&caches, &None, &labels, &trees).into_iter().map(|l| l.path).collect();
    assert_eq!(found, ["/c/away", "/c/repo/old"]);
    assert_eq!(cache_subject("/c/repo/old", "/c"), "repo/old");
    assert_eq!(cache_subject("/x", "/c"), "/x");
    assert_eq!(state_subject("repo", "gone"), "repo/gone");
}

#[test]
fn holders_that_are_gone_are_found() {
    let stores = vec![
        HolderStore { store: "/s/b".into(), keys: vec![("k".into(), false), ("l".into(), true)] },
        HolderStore { store: "/s/a".into(), keys: vec![("m".into(), false)] },
    ];
    let found = stale_exclusive_entries(&stores);
    let targets: Vec<(&str, usize, &str)> =
        found.iter().map(|s| (s.target.as_str(), s.store, s.key.as_str())).collect();
    assert_eq!(targets, [("/s/a:exclusive.m", 1, "m"), ("/s/b:exclusive.k", 0, "k")]);
    let trees = vec![("repo".to_string(), "x".to_string())];
    assert!(arena_holder_is_live(&Some(("repo".into(), "x".into())), &trees));
    assert!(!arena_holder_is_live(&Some(("repo".into(), "y".into())), &trees));
    assert!(!arena_holder_is_live(&None, &trees));
    assert!(collects_holder(Some(false)) && !collects_holder(Some(true)) && !collects_holder(None));
}

#[test]
fn a_plan_is_applied_only_with_consent() {
    assert_eq!(consent(true, false), Consent::Apply);
    assert_eq!(consent(false, true), Consent::Ask);
    assert_eq!(consent(false, false), Consent::ReportOnly);
}

/// Carries a removal through a row of events, and gives the steps that it came to.
fn steps_of(mut removal: Removal, events: &[Event]) -> (Vec<Step>, Removal) {
    let mut steps = vec![removal.step];
    for event in events {
        removal.advance(*event);
        steps.push(removal.step);
    }
    (steps, removal)
}

#[test]
fn a_tree_is_removed_in_order() {
    let (steps, end) = steps_of(
        Removal::new(true, true, true, true),
        &[
            Event::Confirmed(true),
            Event::Closed(true),
            Event::Locked,
            Event::Revalidated { dir_exists: true, identity_ok: true },
            Event::Marked,
            Event::Entered,
            Event::Records(2),
            Event::Destroyed { failed: false },
            Event::Destroyed { failed: false },
            Event::Left { keep_entry: false },
            Event::GitLocked,
            Event::GitDone,
            Event::BranchDeleted,
            Event::Buried,
        ],
    );
    assert_eq!(
        steps,
        [
            Step::Confirm,
            Step::CloseSession,
            Step::LockTree,
            Step::Revalidate,
            Step::Mark,
            Step::Enter,
            Step::ReadRecords,
            Step::Destroy(0),
            Step::Destroy(1),
            Step::Reread,
            Step::LockGit,
            Step::RemoveWorktree,
            Step::DeleteBranch,
            Step::Bury,
            Step::Report,
        ]
    );
    let mut destruction = Destruction::new();
    let child = ChildStatus { code: Some(0), signal: None };
    destruction.dealt_with(".", "db", Ok(("destroyed".into(), Some(child))));
    let report = removed("repo/x", &end, destruction, vec!["left".into()]);
    assert!(report.removed && report.branch_deleted && report.session_closed);
    assert!(report.orphans_kept.is_empty());
    assert_eq!(report.destroyed[0].state, "destroyed");
    assert_eq!(report.destroyed[0].child, Some(child));
}

#[test]
fn a_replacement_is_left_alone() {
    let (steps, _) = steps_of(
        Removal::new(true, false, false, false),
        &[
            Event::Confirmed(true),
            Event::Locked,
            Event::Revalidated { dir_exists: true, identity_ok: false },
            Event::Marked,
            Event::Records(0),
            Event::Left { keep_entry: false },
            Event::GitLocked,
            Event::Buried,
        ],
    );
    assert!(!steps.contains(&Step::RemoveWorktree) && !steps.contains(&Step::PruneWorktrees));
    assert!(!steps.contains(&Step::Enter));
    assert_eq!(*steps.last().unwrap(), Step::Report);
}

#[test]
fn a_missing_tree_is_forgotten_by_git() {
    let (steps, _) = steps_of(
        Removal::new(false, false, false, false),
        &[
            Event::Confirmed(true),
            Event::Locked,
            Event::Revalidated { dir_exists: false, identity_ok: false },
            Event::Marked,
            Event::Records(0),
            Event::Left { keep_entry: false },
            Event::GitLocked,
        ],
    );
    assert_eq!(*steps.last().unwrap(), Step::PruneWorktrees);
}

#[test]
fn an_error_of_a_resource_stops_a_removal_unless_the_entry_is_kept() {
    let events = [
        Event::Confirmed(true),
        Event::Locked,
        Event::Revalidated { dir_exists: false, identity_ok: false },
        Event::Marked,
        Event::Records(1),
        Event::Destroyed { failed: true },
    ];
    let (_, mut stopped) = steps_of(Removal::new(false, false, false, false), &events);
    let mut kept = stopped;
    stopped.advance(Event::Left { keep_entry: false });
    assert_eq!(stopped.step, Step::Fail);
    kept.advance(Event::Left { keep_entry: true });
    assert_eq!(kept.step, Step::LockGit);
    kept.advance(Event::GitLocked);
    kept.advance(Event::GitDone);
    assert_eq!(kept.step, Step::KeepEntry);
    let mut destruction = Destruction::new();
    let error = |code| CoreError::new(ExitClass::External, code, "m", "r");
    destruction.dealt_with(".", "db", Err(error("FIRST")));
    destruction.dealt_with(".", "web", Err(error("SECOND")));
    assert_eq!(destruction.first_error.as_ref().unwrap().code, "FIRST");
    assert_eq!(destruction.destroyed[1].state, "orphaned");
    assert_eq!(destruction.destroyed[1].child, None);
    let report = removed("repo/x", &kept, destruction, vec!["db".into()]);
    assert_eq!(report.orphans_kept, ["db"]);
}

#[test]
fn nothing_happens_without_consent() {
    let (steps, end) = steps_of(Removal::new(true, true, true, true), &[Event::Confirmed(false), Event::Locked]);
    assert_eq!(steps, [Step::Confirm, Step::ReportNothing, Step::ReportNothing]);
    assert!(!end.locked);
    let report = nothing_removed("repo/x");
    assert!(!report.removed && report.destroyed.is_empty() && report.target == "repo/x");
    assert_eq!(state_disappeared().code, "STATE_CORRUPT");
}

#[test]
fn who_uses_a_tree_is_said() {
    let seen = |pid, held| DoorSeen {
        held,
        holder: Some(DoorHolder { pid, verb: "run".into(), since: "t".into() }),
    };
    let holders = door_holders(vec![
        seen(9, true),
        seen(4, true),
        seen(1, false),
        DoorSeen { held: true, holder: None },
    ]);
    let pids: Vec<u32> = holders.iter().map(|h| h.pid).collect();
    assert_eq!(pids, [4, 9]);
    let busy = CoreError::new(ExitClass::Conflict, "TREE_IN_USE", "m", "r");
    let doors = vec![DoorHolder { pid: 4, verb: "run".into(), since: "t".into() }];
    let told = in_use(&busy, &doors);
    assert_eq!(told.message, "tree is in use by pid 4 (run)");
    assert!(matches!(&told.details, Details::Holders(held) if held.len() == 1 && held[0].since == "t"));
    let nobody = in_use(&busy, &Vec::new());
    assert_eq!(nobody.message, "m");
    assert!(matches!(&nobody.details, Details::Holders(held) if held.is_empty()));
    let other = CoreError::new(ExitClass::Conflict, "OTHER", "m", "r");
    let same = in_use(&other, &doors);
    assert!(same.message == "m" && matches!(same.details, Details::Nothing));
}

fn answers() -> GitAnswers {
    GitAnswers {
        status: Vec::new(),
        branch: Some("x".into()),
        track: String::new(),
        upstream: Some("origin/x".into()),
        ahead: 3,
        remote_branches: Vec::new(),
        default: Some(DefaultFacts { ancestor: true, commit: Some("c2".into()) }),
        head: Some("c1".into()),
    }
}

#[test]
fn what_git_says_of_a_tree_is_made_out() {
    let mut a = answers();
    a.status = vec![
        StatusEntry { index: ' ', worktree: 'M', path: b"a".to_vec(), original_path: None },
        StatusEntry { index: '?', worktree: '?', path: b"b c".to_vec(), original_path: None },
    ];
    let seen = observe_git(&a);
    assert_eq!(seen.dirty_porcelain, " M a\n?? b c");
    assert_eq!((seen.upstream, seen.ahead), (Upstream::Present, 3));
    assert!(seen.merged && !seen.detached && !seen.remote_contains_head);
    let gone = observe_git(&GitAnswers { track: "[gone]".into(), ..answers() });
    assert_eq!((gone.upstream, gone.ahead), (Upstream::Gone, 0));
    let alone = observe_git(&GitAnswers { upstream: None, ..answers() });
    assert_eq!(alone.upstream, Upstream::Absent);
    let detached = observe_git(&GitAnswers { branch: None, ..answers() });
    assert!(detached.detached && detached.upstream == Upstream::Absent);
    let far = observe_git(&GitAnswers { ahead: u64::MAX, ..answers() });
    assert_eq!(far.ahead, u32::MAX);
    let same = observe_git(&GitAnswers { head: Some("c2".into()), ..answers() });
    assert!(!same.merged);
    let none = observe_git(&GitAnswers { default: None, ..answers() });
    assert!(!none.merged);
}
