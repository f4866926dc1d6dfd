use std::collections::BTreeMap;

use wt::path;
use wt::walk::{
    classify, commondir_target, common_gitdir, has_adjacent, linked_gitdir, touched, CandidateKind,
    Entry, Found, GitEntry, Listing, Progress, Walk, DEFAULT_DEPTH, REPORT_EVERY,
};

/// What stands at a path of a machine that is only imagined.
#[derive(Clone)]
enum Node {
    Dir,
    File(String, i64),
    Link(String),
    Locked,
}

#[derive(Default)]
struct Machine {
    nodes: BTreeMap<String, Node>,
    devices: BTreeMap<String, u64>,
}

impl Machine {
    fn dir(&mut self, at: &str) {
        let mut parts = Vec::new();
        for part in path::parts_of(at) {
            parts.push(part);
            self.nodes.entry(path::from_parts(&parts)).or_insert(Node::Dir);
        }
    }

    fn put(&mut self, at: &str, node: Node) {
        self.dir(&path::parent(at).unwrap());
        self.nodes.insert(at.into(), node);
    }

    fn file(&mut self, at: &str, contents: &str) {
        self.put(at, Node::File(contents.into(), 1000));
    }

    fn repo(&mut self, root: &str, name: &str) -> String {
        let at = path::join(root, name);
        self.dir(&path::join(&at, ".git"));
        self.file(&path::join(&at, ".git/index"), "");
        at
    }

    fn read(&self, at: &str) -> Option<String> {
        match self.nodes.get(at) {
            Some(Node::File(contents, _)) => Some(contents.clone()),
            _ => None,
        }
    }

    fn list(&self, at: &str) -> Option<Vec<Entry>> {
        match self.nodes.get(at) {
            Some(Node::Dir) => {}
            _ => return None,
        }
        let below = self.nodes.iter().filter(|(key, _)| path::parent(key).as_deref() == Some(at));
        Some(
            below
                .map(|(key, node)| Entry {
                    name: path::file_name(key),
                    is_dir: Some(matches!(node, Node::Dir | Node::Locked)),
                })
                .collect(),
        )
    }

    fn device(&self, at: &str) -> Option<u64> {
        Some(*self.devices.get(at).unwrap_or(&1))
    }

    fn normal(&self, at: &str) -> String {
        let mut parts: Vec<String> = Vec::new();
        for part in path::parts_of(at) {
            if part == ".." {
                parts.pop();
            } else {
                parts.push(part);
            }
        }
        path::from_parts(&parts)
    }

    fn times(&self, gitdir: &str) -> u64 {
        let time = |name: &str| match self.nodes.get(&path::join(gitdir, name)) {
            Some(Node::File(_, time)) => Some(*time),
            _ => None,
        };
        touched(&vec![time("index"), time("logs/HEAD")])
    }

    fn git(&self, at: &str, git: &str, is_dir: bool) -> GitEntry {
        let contents = self.read(git);
        let gitdir = match (is_dir, &contents) {
            (true, _) => Some(git.to_string()),
            (false, Some(text)) => linked_gitdir(at, text),
            (false, None) => None,
        };
        let commondir = gitdir.as_ref().and_then(|dir| self.read(&path::join(dir, "commondir")));
        let canonical = gitdir
            .as_ref()
            .and_then(|dir| commondir_target(dir, &commondir))
            .map(|target| self.normal(&target));
        GitEntry {
            path: git.into(),
            is_dir,
            contents,
            commondir,
            canonical,
            touched: gitdir.map_or(0, |dir| self.times(&dir)),
        }
    }

    fn candidate(&self, at: &str, git: &str, is_dir: bool) -> Option<Found> {
        classify(at, &self.git(at, git, is_dir))
    }
}

fn discover(
    machine: &Machine,
    roots: &[&str],
    depth: usize,
    report: &mut dyn FnMut(Progress),
) -> Vec<Found> {
    let mut walk = Walk::new(depth);
    for root in roots {
        if machine.nodes.contains_key(*root) {
            walk.add_root(root, machine.device(root));
        }
    }
    while let Some(at) = walk.next(0, 1) {
        let Some(entries) = machine.list(&at.path) else {
            walk.unreadable();
            continue;
        };
        let due = match walk.listed(&entries) {
            Listing::Git { path, is_dir } => {
                walk.checkout(&machine.git(&at.path, &path, is_dir))
            }
            Listing::Children(children) => {
                let devices = children.iter().map(|child| machine.device(child)).collect();
                walk.descend(&devices)
            }
            Listing::Skip => None,
        };
        if let Some(progress) = due {
            report(progress);
        }
    }
    let (last, found) = walk.finish();
    report(last);
    found
}

fn walk(machine: &Machine, roots: &[&str]) -> Vec<Found> {
    discover(machine, roots, DEFAULT_DEPTH, &mut |_| {})
}

#[test]
fn a_checkout_is_found_and_not_descended_into() {
    let mut machine = Machine::default();
    let outer = machine.repo("/root", "outer");
    machine.dir("/root/outer/inner/.git");
    let found = walk(&machine, &["/root"]);
    assert_eq!(found.len(), 1);
    assert_eq!(found[0].path, outer);
    assert_eq!(found[0].kind, CandidateKind::Checkout);
}

#[test]
fn a_linked_worktree_resolves_to_its_shared_gitdir() {
    let mut machine = Machine::default();
    let main = machine.repo("/root", "main");
    let gitdir = path::join(&main, ".git/worktrees/feature");
    machine.file(&path::join(&gitdir, "commondir"), "../..\n");
    machine.file(&path::join(&gitdir, "index"), "");
    machine.file("/root/feature/.git", &format!("gitdir: {gitdir}\n"));

    let found = walk(&machine, &["/root"]);
    let linked = found.iter().find(|entry| entry.kind == CandidateKind::Linked).unwrap();
    let own = found.iter().find(|entry| entry.kind == CandidateKind::Checkout).unwrap();
    assert_eq!(
        linked.common_gitdir, own.common_gitdir,
        "a worktree and its checkout must group together"
    );
}

#[test]
fn a_submodule_is_not_offered() {
    let mut machine = Machine::default();
    let super_project = machine.repo("/root", "super");
    let gitdir = path::join(&super_project, ".git/modules/lib");
    machine.dir(&gitdir);
    machine.file("/root/super/lib/.git", &format!("gitdir: {gitdir}\n"));
    let found = walk(&machine, &["/root"]);
    assert_eq!(found.len(), 1, "only the superproject is offered");
    assert_eq!(found[0].path, super_project);
    assert!(machine.candidate("/root/super/lib", "/root/super/lib/.git", false).is_none());
}

#[test]
fn a_bare_checkout_is_neither_offered_nor_descended() {
    let mut machine = Machine::default();
    machine.dir("/root/mirror.git/objects");
    machine.dir("/root/mirror.git/refs");
    machine.file("/root/mirror.git/HEAD", "ref: refs/heads/main\n");
    machine.file("/root/mirror.git/config", "[core]\n\tbare = true\n");
    machine.repo("/root/mirror.git", "buried");
    assert!(walk(&machine, &["/root"]).is_empty());
}

#[test]
fn an_ordinary_project_is_not_mistaken_for_a_bare_clone() {
    let mut machine = Machine::default();
    machine.dir("/root/docs/objects");
    machine.dir("/root/docs/refs");
    machine.file("/root/docs/HEAD", "chapter\n");
    let inner = machine.repo("/root/docs", "inner");
    let found = walk(&machine, &["/root"]);
    assert_eq!(found.len(), 1, "the checkout below it is still found");
    assert_eq!(found[0].path, inner);
}

#[test]
fn a_checkout_under_a_directory_named_modules_keeps_its_worktrees() {
    let mut machine = Machine::default();
    let main = machine.repo("/home/modules", "api");
    let gitdir = path::join(&main, ".git/worktrees/feature");
    machine.file(&path::join(&gitdir, "commondir"), "../..\n");
    machine.file("/home/modules/api-feature/.git", &format!("gitdir: {gitdir}\n"));
    let found = walk(&machine, &["/home/modules"]);
    assert!(
        found.iter().any(|entry| entry.kind == CandidateKind::Linked),
        "the worktree is still discovered: {found:?}"
    );
}

#[test]
fn skip_listed_and_hidden_directories_are_not_entered() {
    let mut machine = Machine::default();
    machine.repo("/root/node_modules", "buried");
    machine.repo("/root/.hidden", "buried");
    assert!(walk(&machine, &["/root"]).is_empty());
}

#[test]
fn the_depth_bound_stops_the_walk() {
    let mut machine = Machine::default();
    machine.repo("/root/a/b/c/d/e", "deep");
    let shallow = discover(&machine, &["/root"], 2, &mut |_| {});
    assert!(shallow.is_empty(), "a bound that finds nothing is honoured");
    assert_eq!(walk(&machine, &["/root"]).len(), 1);
}

#[test]
fn a_symlinked_directory_is_never_followed() {
    let mut machine = Machine::default();
    machine.repo("/elsewhere", "target");
    machine.put("/root/link", Node::Link("/elsewhere".into()));
    let Some(Node::Link(target)) = machine.nodes.get("/root/link") else {
        panic!("a link");
    };
    assert_eq!(target, "/elsewhere");
    assert!(walk(&machine, &["/root"]).is_empty());
    assert!(walk(&machine, &["/root/visible"]).is_empty());
}

#[test]
fn an_unreadable_directory_does_not_stop_the_walk() {
    let mut machine = Machine::default();
    machine.put("/root/locked", Node::Locked);
    machine.repo("/root", "readable");
    assert_eq!(walk(&machine, &["/root"]).len(), 1, "the readable checkout is still reported");
}

#[test]
fn recency_comes_from_the_index_and_the_reflog() {
    let mut machine = Machine::default();
    let at = machine.repo("/root", "one");
    machine.put(&path::join(&at, ".git/logs/HEAD"), Node::File("x".into(), 2000));
    let found = walk(&machine, &["/root"]);
    assert!(found[0].touched > 0);
    assert_eq!(found[0].touched, 2000);
    assert_eq!(touched(&vec![None, Some(-5)]), 0);
    assert_eq!(touched(&vec![Some(3), Some(9)]), 9);
}

#[test]
fn progress_reports_completion_exactly_once() {
    let mut machine = Machine::default();
    machine.repo("/root", "one");
    let mut finals = 0;
    discover(&machine, &["/root"], DEFAULT_DEPTH, &mut |progress| {
        if progress.finished {
            finals += 1;
        }
    });
    assert_eq!(finals, 1);
}

#[test]
fn a_root_below_another_root_is_walked_once() {
    let mut machine = Machine::default();
    machine.repo("/root/nested", "one");
    let found = walk(&machine, &["/root", "/root/nested"]);
    assert_eq!(found.len(), 1);
}

#[test]
fn a_root_above_another_root_takes_its_place() {
    let mut machine = Machine::default();
    machine.repo("/root/nested", "one");
    machine.repo("/root/nested", "two");
    machine.repo("/root/other", "three");
    for roots in [
        vec!["/root/nested", "/root"],
        vec!["/root/other", "/root/nested", "/root"],
        vec!["/root", "/root/nested", "/root"],
    ] {
        let found: Vec<String> = walk(&machine, &roots).into_iter().map(|f| f.path).collect();
        assert_eq!(
            found,
            ["/root/nested/one", "/root/nested/two", "/root/other/three"],
            "{roots:?}"
        );
    }
    let mut apart = Walk::new(3);
    for root in ["/a/b", "/c", "/a/b/d", "/a", "/ab"] {
        apart.add_root(root, None);
    }
    assert_eq!(apart.seen, ["/c", "/a", "/ab"]);
}

#[test]
fn a_long_search_reports_as_it_goes() {
    let mut machine = Machine::default();
    for i in 0..150 {
        machine.repo("/root", &format!("r{i:03}"));
    }
    let mut reports = Vec::new();
    let found = discover(&machine, &["/root"], DEFAULT_DEPTH, &mut |p| reports.push(p));
    assert_eq!(found.len(), 150);
    assert!(found.windows(2).all(|pair| pair[0].path < pair[1].path));
    assert_eq!(reports.len(), 3);
    assert_eq!(reports[0].directories, REPORT_EVERY);
    assert!(!reports[0].finished && !reports[1].finished && reports[2].finished);
    assert_eq!((reports[2].directories, reports[2].found), (151, 150));
}

#[test]
fn another_device_is_not_entered() {
    let mut machine = Machine::default();
    machine.repo("/root/mount", "far");
    machine.repo("/root/near", "one");
    machine.devices.insert("/root/mount".into(), 2);
    let found = walk(&machine, &["/root"]);
    assert_eq!(found.len(), 1);
    assert_eq!(found[0].path, "/root/near/one");
}

#[test]
fn a_search_that_ran_out_of_time_says_so() {
    let mut walk = Walk::new(1);
    walk.add_root("/a", None);
    assert!(walk.next(2, 1).is_none());
    assert!(walk.next(0, 1).is_none());
    let (last, found) = walk.finish();
    assert!(last.finished && last.truncated && found.is_empty());
}

#[test]
fn a_search_that_saw_everything_is_not_cut_short() {
    let mut walk = Walk::new(1);
    walk.add_root("/a", None);
    assert_eq!(walk.next(1, 1).unwrap().path, "/a");
    walk.add_root("/b", None);
    walk.unreadable();
    assert!(walk.next(9, 1).is_none());
    let (last, found) = walk.finish();
    assert!(last.finished && !last.truncated && found.is_empty());
    assert_eq!(last.directories, 0);
}

#[test]
fn a_pointer_leads_to_the_shared_gitdir() {
    assert_eq!(linked_gitdir("/w", "x\n gitdir: ../m/.git/worktrees/w \n").as_deref(),
        Some("/w/../m/.git/worktrees/w"));
    assert_eq!(linked_gitdir("/w", "nothing"), None);
    assert_eq!(commondir_target("/m/.git/worktrees/w", &Some(" \n".into())), None);
    assert_eq!(
        common_gitdir("/m/.git/worktrees/w", &None, &None).as_deref(),
        Some("/m/.git")
    );
    assert_eq!(
        common_gitdir("/m/.git/worktrees/w", &Some("../..".into()), &Some("/m/.git".into())).as_deref(),
        Some("/m/.git")
    );
    assert_eq!(common_gitdir("/m/x", &None, &None), None);
    assert!(has_adjacent("/a/.git/modules/x", ".git", "modules"));
    assert!(!has_adjacent("/a/.git/x/modules", ".git", "modules"));
}
