use wt::error::{CoreError, ExitClass};
use wt::git::{
    ahead_behind_answer, branch_holder, clone, common_dir_answer, count_answer, default_branch,
    ensure_success, fetch_pull_request, git_io, hash_answer, not_run, optional_answer,
    parse_status_porcelain, parse_worktree_porcelain, path_list, tracked_set, upstream_answer, validated,
    version_answer, version_request, yes_or_no, AddSpec, BranchStep, Class, Deadlines, Git,
    GitTimeouts, PullStep,
};
use wt::proc::{ChildStatus, ProcessOutput};

fn deadlines() -> Deadlines {
    Deadlines { query: 10, fetch: 20, clone: 30, worktree: 40, submodule: 50 }
}

fn ended(code: i32, stdout: &str) -> ProcessOutput {
    ProcessOutput {
        pid: 1,
        child: ChildStatus { code: Some(code), signal: None },
        stdout: stdout.as_bytes().to_vec(),
        stderr: b" fatal: why \n".to_vec(),
        timed_out: false,
    }
}

#[test]
fn parses_worktree_and_status_porcelain() {
    let worktrees = parse_worktree_porcelain(
        "worktree /repo/a b\nHEAD abc\nbranch refs/heads/main\n\nworktree /tmp/d\nHEAD def\ndetached\n",
    )
    .unwrap();
    assert_eq!(worktrees[0].path, "/repo/a b");
    assert!(worktrees[1].detached);
    let status = parse_status_porcelain(b" M tracked\0?? new file\0").unwrap();
    assert_eq!(status.len(), 2);
    assert_eq!(status[1].path, b"new file");
}

#[test]
fn every_field_of_a_worktree_is_read() {
    let all = parse_worktree_porcelain(
        "worktree /a\nHEAD 1\nbranch refs/heads/x/y\nlocked why not\nunknown z\n\n\
         worktree /b\nbare\nprunable gone\nworktree /c\nlocked\n",
    )
    .unwrap();
    assert_eq!(all.len(), 3);
    assert_eq!(all[0].head, "1");
    assert_eq!(all[0].branch.as_deref(), Some("x/y"));
    assert_eq!(all[0].locked.as_deref(), Some("why not"));
    assert!(all[1].bare && all[1].branch.is_none());
    assert_eq!(all[1].prunable.as_deref(), Some("gone"));
    assert_eq!(all[2].locked.as_deref(), Some(""));
    let error = parse_worktree_porcelain("HEAD 1\n").unwrap_err();
    assert_eq!(error.message, "git worktree field precedes its worktree path");
    assert_eq!(branch_holder(&all, "x/y").as_deref(), Some("/a"));
    assert_eq!(branch_holder(&all, "x"), None);
}

#[test]
fn a_moved_entry_has_the_path_it_had() {
    let status = parse_status_porcelain(b"R  new\0old\0 M \xff\0").unwrap();
    assert_eq!((status[0].index, status[0].worktree), ('R', ' '));
    assert_eq!(status[0].original_path.as_deref(), Some(b"old".as_slice()));
    assert_eq!(status[1].path, b"\xff");
    assert!(parse_status_porcelain(b"").unwrap().is_empty());
    let short = parse_status_porcelain(b"M x\0").unwrap_err();
    assert_eq!(short.message, "git status porcelain entry is malformed");
    let lost = parse_status_porcelain(b"R  new\0").unwrap_err();
    assert_eq!(lost.message, "git rename status lacks its original path");
}

#[test]
fn open_is_query_free_and_core_controls_branch_tracking() {
    let git = Git::open_with_program("/repo", "git-stub", deadlines());
    assert_eq!((git.repo.as_str(), git.program.as_str()), ("/repo", "git-stub"));
    let add = |track: bool| {
        let call = git.worktree_add(
            "/tree",
            &AddSpec::NewBranch { name: "tracked".into(), start: "origin/main".into(), track },
        );
        git.request(&call).args
    };
    assert!(!add(true).iter().any(|argument| argument == "--no-track"));
    assert!(add(false).iter().any(|argument| argument == "--no-track"));
    assert_eq!(add(true), ["worktree", "add", "-b", "tracked", "/tree", "origin/main"]);
    assert_eq!(Git::open("/repo", deadlines()).program, "git");
}

#[test]
fn fetch_class_uses_its_own_bounded_deadline() {
    let git = Git::open("/repo", deadlines());
    let fetch = git.fetch("origin", "main");
    assert_eq!(git.deadline(&fetch), 20);
    assert_eq!(git.deadline(&git.head_oid()), 10);
    assert_eq!(git.deadline(&git.worktree_prune()), 40);
    assert_eq!(git.deadline(&git.submodule_update()), 50);
    assert_eq!(deadlines().for_class(Class::Clone), 30);
    let late = ProcessOutput { timed_out: true, ..ended(0, "") };
    let error = ensure_success(fetch.class, &fetch.args, late).unwrap_err();
    assert_eq!(error.code, "TIMEOUT");
    assert_eq!(error.message, "git Fetch command timed out");
}

#[test]
fn a_query_takes_no_locks_and_every_path_is_literal() {
    let git = Git::open("/repo", deadlines());
    let request = git.request(&git.status_porcelain("/tree"));
    assert_eq!(request.cwd.as_deref(), Some("/tree"));
    assert_eq!(request.env.get("GIT_OPTIONAL_LOCKS").map(String::as_str), Some("0"));
    assert_eq!(request.env.get("GIT_LITERAL_PATHSPECS").map(String::as_str), Some("1"));
    assert!(request.remove_env.iter().any(|name| name == "GIT_DIR"));
    let fetch = git.request(&git.fetch_origin_branches());
    assert_eq!(fetch.env.get("GIT_OPTIONAL_LOCKS"), None);
    assert_eq!(fetch.args, ["fetch", "origin", "+refs/heads/*:refs/remotes/origin/*"]);
}

#[test]
fn each_command_has_its_arguments() {
    let git = Git::open("/repo", deadlines());
    let paths = vec![String::from("a"), String::from("b")];
    assert_eq!(git.ahead_behind("a", "b").args[3], "a...b");
    assert_eq!(git.resolve_commit("x").args[3], "x^{commit}");
    assert_eq!(git.upstream("x").args[2], "refs/heads/x");
    assert_eq!(git.worktree_remove("/t", true).args, ["worktree", "remove", "--force", "/t"]);
    assert_eq!(git.worktree_remove("/t", false).args, ["worktree", "remove", "/t"]);
    assert_eq!(git.branch_delete("b", true).args, ["branch", "-D", "b"]);
    assert_eq!(git.branch_delete("b", false).args, ["branch", "-d", "b"]);
    assert_eq!(git.worktree_repair(&paths).args, ["worktree", "repair", "a", "b"]);
    assert_eq!(git.tracked_paths("/t", &paths).args, ["ls-files", "-z", "--", "a", "b"]);
    assert_eq!(git.diff_name_only("l", "r", &paths).args[3], "l...r");
    assert_eq!(
        git.worktree_add("/t", &AddSpec::Detached { start: "s".into() }).args,
        ["worktree", "add", "--detach", "/t", "s"]
    );
    assert_eq!(
        git.worktree_add("/t", &AddSpec::ExistingBranch("b".into())).args,
        ["worktree", "add", "/t", "b"]
    );
    let hashes = git.hash_object(&paths, &vec![false, true]).unwrap();
    assert_eq!(hashes.args, ["hash-object", "--", "b"]);
    assert!(git.hash_object(&paths, &vec![false, false]).is_none());
    assert_eq!(clone("git", "u", "/p").args[0], "clone");
    assert_eq!(version_request("git").args, ["--version"]);
}

#[test]
fn a_missing_path_gets_a_stand_in() {
    let hashes = vec![String::from("h1"), String::from("h2")];
    assert_eq!(
        hash_answer(&vec![true, false, true], &hashes).unwrap(),
        ["h1", "<missing>", "h2"]
    );
    assert_eq!(hash_answer(&vec![false], &Vec::new()).unwrap(), ["<missing>"]);
    assert_eq!(
        hash_answer(&vec![true], &hashes).unwrap_err().message,
        "git hash-object returned a different number of hashes than inputs"
    );
}

#[test]
fn a_status_of_one_is_an_answer() {
    assert_eq!(optional_answer(&ended(0, "main \n")).unwrap().as_deref(), Some("main"));
    assert_eq!(optional_answer(&ended(1, "")).unwrap(), None);
    let error = optional_answer(&ended(128, "")).unwrap_err();
    assert_eq!(error.message, "git  failed with status 128: fatal: why");
    assert!(yes_or_no(&ended(0, "")).unwrap() && !yes_or_no(&ended(1, "")).unwrap());
    assert_eq!(yes_or_no(&ended(2, "")).unwrap_err().code, "GIT_FAILED");
    let args = vec![String::from("fetch"), String::from("origin")];
    let failed = ensure_success(Class::Fetch, &args, ended(1, "")).unwrap_err();
    assert_eq!(failed.code, "FETCH_FAILED");
    assert_eq!(failed.message, "git fetch origin failed with status 1: fatal: why");
    assert!(ensure_success(Class::Query, &args, ended(0, "x")).is_ok());
}

#[test]
fn counts_are_read_or_refused() {
    assert_eq!(count_answer("12").unwrap(), 12);
    let error = count_answer("x").unwrap_err();
    assert_eq!(
        error.message,
        "could not parse git rev-list count: invalid digit found in string"
    );
    let both = ahead_behind_answer("3\t4").unwrap();
    assert_eq!((both.ahead, both.behind), (3, 4));
    assert_eq!(
        ahead_behind_answer("3").unwrap_err().message,
        "could not parse git behind count: cannot parse integer from empty string"
    );
    assert!(ahead_behind_answer("a 4").unwrap_err().message.contains("ahead count"));
    assert_eq!(version_answer("git version 2.39.5-apple (x)"), (2, 39, 5));
    assert_eq!(version_answer("git version 2"), (2, 0, 0));
    assert_eq!(version_answer("none"), (0, 0, 0));
}

#[test]
fn the_default_branch_is_found_step_by_step() {
    let none = ended(1, "");
    assert!(matches!(
        default_branch(&ended(0, "origin/dev\n"), &Vec::new(), &None),
        BranchStep::Is(branch) if branch == "dev"
    ));
    assert!(matches!(
        default_branch(&none, &vec![false], &None),
        BranchStep::Ask(reference) if reference == "refs/heads/master"
    ));
    assert!(matches!(
        default_branch(&none, &vec![false, true], &None),
        BranchStep::Is(branch) if branch == "master"
    ));
    let tried = vec![false, false, false];
    assert!(matches!(default_branch(&none, &tried, &None), BranchStep::AskHead));
    assert!(matches!(
        default_branch(&none, &tried, &Some(Some("x".into()))),
        BranchStep::Is(branch) if branch == "x"
    ));
    assert!(matches!(
        default_branch(&none, &tried, &Some(None)),
        BranchStep::Is(branch) if branch == "main"
    ));
}

#[test]
fn a_pull_request_is_fetched_from_the_first_that_has_it() {
    let mappings = vec![(String::from("refs/pull/7/head"), String::from("refs/wt/pr/7"))];
    assert!(matches!(
        fetch_pull_request(&mappings, 0),
        PullStep::Fetch { refspec, destination }
            if refspec == "+refs/pull/7/head:refs/wt/pr/7" && destination == "refs/wt/pr/7"
    ));
    assert!(matches!(fetch_pull_request(&mappings, 1), PullStep::GiveUp));
}

#[test]
fn answers_about_a_repository_are_read() {
    assert!(validated("/r", &ended(0, "true\n")).is_ok());
    assert_eq!(validated("/r", &ended(0, "false\n")).unwrap_err().code, "NOT_A_WORKTREE");
    assert_eq!(common_dir_answer("/r", &ended(0, ".git\n")), "/r/.git");
    assert_eq!(common_dir_answer("/r", &ended(0, "/x/.git\n")), "/x/.git");
    assert_eq!(upstream_answer(&ended(0, "\n")), None);
    assert_eq!(upstream_answer(&ended(0, "origin/x\n")).as_deref(), Some("origin/x"));
    assert_eq!(path_list(b"a\0\0b\0"), [b"a".to_vec(), b"b".to_vec()]);
    let listed: Vec<Vec<u8>> =
        tracked_set(b"b\0a-b\0b\0\0a/c\0\xff\0").into_iter().map(|path| path.bytes).collect();
    assert_eq!(
        listed,
        [b"a/c".to_vec(), b"a-b".to_vec(), b"b".to_vec(), b"\xff".to_vec()]
    );
    let spawn = CoreError::new(ExitClass::External, "SPAWN_FAILED", "m", "r");
    assert_eq!(not_run(&spawn).message, "could not spawn git: m");
    let other = CoreError::new(ExitClass::Timeout, "TIMEOUT", "m", "r");
    assert_eq!(not_run(&other).code, "TIMEOUT");
    assert_eq!(git_io("read", "why").message, "read: why");
}

#[test]
fn a_setting_without_a_duration_is_refused() {
    let all = GitTimeouts {
        query: Some(1),
        fetch: Some(2),
        clone: Some(3),
        worktree: Some(4),
        submodule: Some(5),
    };
    assert_eq!(Deadlines::from_settings(&all).unwrap().worktree, 4);
    for (settings, key) in [
        (GitTimeouts { query: None, ..all }, "query"),
        (GitTimeouts { fetch: None, ..all }, "fetch"),
        (GitTimeouts { clone: None, ..all }, "clone"),
        (GitTimeouts { worktree: None, ..all }, "worktree"),
        (GitTimeouts { submodule: None, ..all }, "submodule"),
    ] {
        let error = Deadlines::from_settings(&settings).unwrap_err();
        assert_eq!(error.code, "SETTINGS_INVALID");
        assert_eq!(
            error.message,
            format!("git.timeouts.{key} has no resolved valid duration")
        );
    }
}

#[test]
fn questions_are_put_to_git_in_its_words() {
    let git = Git::open("/repo", deadlines());
    let words = |call: wt::git::Call| (call.cwd.clone(), call.args.join(" "));
    let here = |args: &str| ("/repo".to_string(), args.to_string());
    let there = |args: &str| ("/tree".to_string(), args.to_string());
    assert_eq!(words(git.open_validated()), here("rev-parse --is-inside-work-tree"));
    assert_eq!(words(git.common_dir()), here("rev-parse --git-common-dir"));
    assert_eq!(words(git.toplevel()), here("rev-parse --show-toplevel"));
    assert_eq!(words(git.rev_list_count("a..b")), here("rev-list --count a..b"));
    assert_eq!(words(git.origin_url()), here("config --get remote.origin.url"));
    assert_eq!(words(git.ref_exists("refs/x")), here("rev-parse --verify --quiet refs/x"));
    assert_eq!(words(git.is_ancestor("a", "b")), here("merge-base --is-ancestor a b"));
    assert_eq!(
        words(git.remote_branches_containing("c")),
        here("branch -r --format=%(refname:short) --contains c")
    );
    assert_eq!(
        words(git.origin_head()),
        here("symbolic-ref -q --short refs/remotes/origin/HEAD")
    );
    assert_eq!(words(git.head_branch("/tree")), there("symbolic-ref --short -q HEAD"));
    assert_eq!(
        words(git.upstream_track("b")),
        here("for-each-ref --format=%(upstream:track) refs/heads/b")
    );
    assert_eq!(words(git.ahead_behind("l", "r")), here("rev-list --left-right --count l...r"));
}
