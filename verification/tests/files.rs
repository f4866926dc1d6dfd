use std::collections::BTreeMap;

use wt::error::ExitClass;
use wt::fsx::{
    append_with_backup, backup_path, captures, contained_steps, corrupt, directory, disk_kb,
    exclude_mode, fs_error, io_context, is_executable_file, mkdir_failed, nofollow_error,
    nul_error, observe_nofollow, openat_error, parse_log_timestamp, path_kind, random_failed,
    read_dir_paths, read_exclude, read_string, reject_symlink_components, reject_symlink_target,
    remove_exclude, remove_path, replace_symlink, retain_logs, splice_exclude, task_logs,
    trace_budget, tree_id, unserializable, valid_utc_log_timestamp, write_atomic_mode, write_store,
    CopyReport, LinkStep, Listed, Meta, Observed, PathKind, Removal, StoreStep, SNAPSHOT_LIMIT,
};

fn file(mode: u32) -> Meta {
    Meta { symlink: false, file: true, directory: false, mode, len: 0 }
}

fn link() -> Meta {
    Meta { symlink: true, file: false, directory: false, mode: 0o777, len: 0 }
}

fn dir() -> Meta {
    Meta { symlink: false, file: false, directory: true, mode: 0o755, len: 0 }
}

#[test]
fn executable_probe_judges_what_exec_would_run() {
    let real = Some(file(0o755));
    let plain = Some(file(0o644));
    assert!(is_executable_file(&real, &real));
    assert!(is_executable_file(&Some(link()), &real));
    assert!(!is_executable_file(&plain, &plain));
    assert!(!is_executable_file(&Some(link()), &plain));
    assert!(!is_executable_file(&Some(link()), &None));
    assert!(!is_executable_file(&Some(link()), &Some(dir())));
    assert!(!is_executable_file(&None, &None));
}

/// Performs steps on files that are only imagined, and stops behind the step at
/// `last`.
fn perform(files: &mut BTreeMap<String, (Vec<u8>, u32)>, steps: Vec<StoreStep>, last: usize) {
    for (index, step) in steps.into_iter().enumerate() {
        match step {
            StoreStep::Create { at, mode } => {
                assert!(files.insert(at, (Vec::new(), mode)).is_none());
            }
            StoreStep::Write { at, bytes } => files.get_mut(&at).unwrap().0 = bytes,
            StoreStep::Rename { from, to } => {
                let moved = files.remove(&from).unwrap();
                files.insert(to, moved);
            }
            StoreStep::MakeDir { at, .. } => assert_eq!(at, "/state"),
            StoreStep::Sync { at } => assert!(files.contains_key(&at)),
            StoreStep::OpenDir { at } | StoreStep::SyncDir { at } => assert_eq!(at, "/state"),
        }
        if index == last {
            return;
        }
    }
}

#[test]
fn store_is_private_and_never_exposes_a_partial_document() {
    for (index, expect_new) in
        [(0, false), (1, false), (2, false), (3, true), (4, true), (5, true)]
    {
        let mut files = BTreeMap::new();
        perform(&mut files, write_store("/state/doc.json", b"old", false, 9, 1), usize::MAX);
        assert_eq!(files["/state/doc.json"], (b"old".to_vec(), 0o600));
        perform(&mut files, write_store("/state/doc.json", b"new", false, 9, 2), index);
        let expected: &[u8] = if expect_new { b"new" } else { b"old" };
        assert_eq!(files["/state/doc.json"].0, expected, "stopped behind step {index}");
    }
    let mut files = BTreeMap::new();
    files.insert(String::from("/state/doc.json"), (b"old".to_vec(), 0o600));
    for steps in [Vec::new(), write_store("/state/doc.json", b"new", false, 9, 3)] {
        let written = !steps.is_empty();
        perform(&mut files, steps, usize::MAX);
        assert_eq!(files.len(), 1);
        assert_eq!(files["/state/doc.json"].0 == b"new", written);
    }
    let steps = write_atomic_mode("doc", b"x", 0o640, false, 9, 3);
    match &steps[0] {
        StoreStep::Create { at, mode } => assert_eq!((at.as_str(), *mode), (".wt-tmp-9-3", 0o640)),
        other => panic!("{other:?}"),
    }
    assert_eq!(directory("doc"), "");
    assert_eq!(directory("/"), ".");
}

#[test]
fn a_store_makes_its_missing_directory_private() {
    let steps = write_store("/state/doc.json", b"x", true, 9, 1);
    match &steps[0] {
        StoreStep::MakeDir { at, mode } => assert_eq!((at.as_str(), *mode), ("/state", 0o700)),
        other => panic!("{other:?}"),
    }
    assert!(matches!(steps[1], StoreStep::Create { .. }));
    let rest = write_store("/state/doc.json", b"x", false, 9, 1);
    assert_eq!(steps.len(), rest.len() + 1);
    assert!(!rest.iter().any(|step| matches!(step, StoreStep::MakeDir { .. })));
}

#[test]
fn nofollow_rejects_a_symlinked_parent_component() {
    let steps = contained_steps("/tree", "link/secret");
    assert_eq!(steps, ["/tree", "/tree/link", "/tree/link/secret"]);
    let kinds = vec![PathKind::Directory, PathKind::Symlink, PathKind::Missing];
    let error = reject_symlink_components(&steps, &kinds, "loop").unwrap_err();
    assert_eq!(error.code, "SYMLINK_REFUSED");
    assert_eq!(error.message, "refusing no-follow access to /tree/link: loop");
    let kinds = vec![PathKind::Directory, PathKind::Missing, PathKind::Symlink];
    assert!(reject_symlink_components(&steps, &kinds, "loop").is_ok());
    assert_eq!(
        reject_symlink_target("x", PathKind::Symlink).unwrap_err().message,
        "refusing symlink target `x`"
    );
    assert!(reject_symlink_target("x", PathKind::File).is_ok());
}

#[test]
fn nofollow_observation_and_removal_preserve_symlink_boundaries() {
    assert!(matches!(
        observe_nofollow(false, PathKind::File, b"bytes".to_vec()),
        Observed::Regular(bytes) if bytes == b"bytes"
    ));
    assert!(matches!(observe_nofollow(false, PathKind::Symlink, Vec::new()), Observed::Symlink));
    assert!(matches!(observe_nofollow(false, PathKind::Missing, Vec::new()), Observed::Absent));
    assert!(matches!(observe_nofollow(false, PathKind::Directory, Vec::new()), Observed::Other));
    assert!(matches!(observe_nofollow(true, PathKind::File, Vec::new()), Observed::InGit));
    assert_eq!(remove_path(PathKind::Symlink), Removal::Entry);
    assert_eq!(remove_path(PathKind::Directory), Removal::Tree);
    assert_eq!(remove_path(PathKind::Missing), Removal::Nothing);
    assert_eq!(path_kind(&None), PathKind::Missing);
    assert_eq!(path_kind(&Some(link())), PathKind::Symlink);
    assert_eq!(path_kind(&Some(dir())), PathKind::Directory);
    assert_eq!(path_kind(&Some(file(0))), PathKind::File);
    let pipe = Meta { symlink: false, file: false, directory: false, mode: 0, len: 0 };
    assert_eq!(path_kind(&Some(pipe)), PathKind::Other);
}

#[test]
fn exclude_splice_and_log_retention_preserve_their_formats() {
    let write = splice_exclude("human\n", "human\n# >>> wt managed >>>\n", true);
    assert!(write.changed && write.repaired);
    assert!(!splice_exclude("same", "same", false).changed);
    assert!(remove_exclude("a", "b", false).changed);

    let mut names: Vec<String> = (0..4).map(|i| format!(".-build-2026010{i}.log")).collect();
    let removed = retain_logs(task_logs(&names, ".", "build"), 2);
    assert_eq!(removed.len(), 3);
    let gone: Vec<String> = removed.into_iter().map(|log| log.name).collect();
    names.retain(|name| !gone.contains(name));
    assert_eq!(names, [".-build-20260103.log"]);

    for task in ["build", "build-fast", "build-20260103"] {
        for day in 1..=3 {
            let name = format!(".-{task}-2026010{day}.log");
            if !names.contains(&name) {
                names.push(name);
            }
        }
    }
    let removed = retain_logs(task_logs(&names, ".", "build"), 2);
    assert_eq!(removed.len(), 2);
    let gone: Vec<String> = removed.into_iter().map(|log| log.name).collect();
    assert_eq!(gone, [".-build-20260101.log", ".-build-20260102.log"]);
    names.retain(|name| !gone.contains(name));
    let fast = names.iter().filter(|name| name.contains("build-fast")).count();
    assert_eq!(fast, 3);
    let dated = names.iter().filter(|name| name.starts_with(".-build-20260103-")).count();
    assert_eq!(dated, 3);
    assert!(retain_logs(task_logs(&names, ".", "none"), 0).is_empty());
}

#[test]
fn adapter_snapshot_captures_only_requested_contents() {
    let wanted = vec![String::from("Cargo.toml")];
    assert!(captures("Cargo.toml", &wanted, &file(0o644)));
    assert!(!captures("secret", &wanted, &file(0o644)));
    assert!(!captures("Cargo.toml", &wanted, &link()));
    assert!(captures("Cargo.toml", &wanted, &Meta { len: SNAPSHOT_LIMIT, ..file(0) }));
    assert!(!captures("Cargo.toml", &wanted, &Meta { len: SNAPSHOT_LIMIT + 1, ..file(0) }));
}

#[test]
fn a_log_is_known_by_its_stamp() {
    for good in [
        "20260103",
        "1700000000.123456789Z",
        "20260103T101112Z",
        "2026-01-03T10:11:12Z",
        "2026-01-03T10:11:12.5Z",
    ] {
        assert!(valid_utc_log_timestamp(good), "{good}");
    }
    for bad in ["", "2026010", "2026-01-03T10-11-12-5Z", "1700000000.12Z", "20260103T1011Z", "x"] {
        assert!(!valid_utc_log_timestamp(bad), "{bad}");
    }
    assert_eq!(parse_log_timestamp(".-b-20260103.log", ".-b-").as_deref(), Some("20260103"));
    assert_eq!(parse_log_timestamp(".-b-20260103.txt", ".-b-"), None);
}

#[test]
fn a_link_replaces_only_a_link() {
    let step = |current: Option<&str>, kind| replace_symlink("/s", "/t", &current.map(String::from), kind);
    assert!(matches!(step(Some("/t"), PathKind::Symlink), LinkStep::Keep));
    assert!(matches!(step(Some("/u"), PathKind::Symlink), LinkStep::Install));
    assert!(matches!(step(None, PathKind::Missing), LinkStep::Install));
    match step(None, PathKind::File) {
        LinkStep::Refuse(error) => assert_eq!(error.code, "SHIM_CONFLICT"),
        other => panic!("{other:?}"),
    }
}

#[test]
fn text_is_appended_on_a_line_of_its_own() {
    let plan = append_with_backup("/h/.zshrc", &Some("a".into()), Some(0o100644), "b\n");
    assert_eq!(plan.merged, "a\nb\n");
    assert_eq!(plan.mode, 0o644);
    assert_eq!(plan.backup.as_deref(), Some("/h/.zshrc.wt-backup"));
    let fresh = append_with_backup("/h/x.conf", &None, None, "b\n");
    assert_eq!((fresh.merged.as_str(), fresh.mode, fresh.backup), ("b\n", 0o600, None));
    assert_eq!(backup_path("/h/x.conf"), "/h/x.conf.wt-backup");
    assert_eq!(append_with_backup("x", &Some("a\n".into()), None, "b").merged, "a\nb");
}

#[test]
fn a_file_that_is_no_text_is_refused() {
    assert_eq!(read_string("/f", b"ok".to_vec()).unwrap(), "ok");
    let error = read_string("/f", vec![b'a', 0xff]).unwrap_err();
    assert_eq!(error.code, "FILE_INVALID_UTF8");
    assert_eq!(
        error.message,
        "/f is not UTF-8: invalid utf-8 sequence of 1 bytes from index 1"
    );
    assert_eq!(read_exclude("/f", vec![0xff]).unwrap_err().code, "EXCLUDE_INVALID");
    assert_eq!(read_exclude("/f", b"x".to_vec()).unwrap(), "x");
}

#[test]
fn entries_are_listed_in_order_and_counted() {
    let entries = ["/d/b", "/d/a"].iter().map(|p| Listed { path: p.to_string() }).collect();
    let sorted: Vec<String> = read_dir_paths(entries).into_iter().map(|l| l.path).collect();
    assert_eq!(sorted, ["/d/a", "/d/b"]);
    assert_eq!(disk_kb(&vec![1]), 1);
    assert_eq!(disk_kb(&vec![1024, 1]), 2);
    assert_eq!(disk_kb(&Vec::new()), 0);
    assert_eq!(disk_kb(&vec![u64::MAX, 5]), u64::MAX / 1024);
    let mut report = CopyReport::new();
    report.copied("local", PathKind::Directory);
    report.copied("local/file", PathKind::File);
    report.copied("local/link", PathKind::Symlink);
    report.copied("local/pipe", PathKind::Other);
    assert_eq!(report.directories, ["local"]);
    assert_eq!(report.files, ["local/file"]);
    assert_eq!(report.symlinks, ["local/link"]);
    assert_eq!(exclude_mode(&Some(file(0o100600))), 0o600);
    assert_eq!(exclude_mode(&None), 0o644);
}

#[test]
fn identities_are_the_bytes_in_hexadecimal() {
    assert_eq!(tree_id(&[0x00, 0x9f, 0xab]), "009fab");
    assert_ne!(tree_id(&[1, 2]), tree_id(&[1, 3]));
    assert_eq!(trace_budget("spawn", &None), "{\"kind\":\"spawn\",\"path\":null}\n");
    assert_eq!(
        trace_budget("write", &Some("/p".into())),
        "{\"kind\":\"write\",\"path\":\"/p\"}\n"
    );
}

#[test]
fn what_went_wrong_with_a_file_is_said() {
    assert_eq!(fs_error("read", "/f", "why").message, "read /f: why");
    assert_eq!(io_context("read", "why").message, "read: why");
    assert_eq!(nofollow_error("/f", "why").code, "SYMLINK_REFUSED");
    assert_eq!(nul_error("why").message, "path contains NUL: why");
    assert_eq!(openat_error("f", true, "why").class, ExitClass::NotFound);
    assert_eq!(openat_error("f", false, "why").code, "SYMLINK_REFUSED");
    assert_eq!(corrupt("STATE_CORRUPT", "/f", "why").message, "/f is corrupt: why");
    assert_eq!(unserializable("/f", "why").code, "SERIALIZE_FAILED");
    assert_eq!(mkdir_failed("/f", "why").code, "WRITE_FAILED");
    assert_eq!(random_failed("why").code, "RANDOM_FAILED");
}
