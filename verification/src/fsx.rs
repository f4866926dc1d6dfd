//! Files: how they are kept whole while they are written, which old logs go, what
//! a path is, and the errors of using one.

use vstd::prelude::*;
use vstd::string::*;
use vstd::utf8::*;

use crate::error;
use crate::error::{CoreError, ExitClass};
use crate::json;
use crate::json::Scalar;
use crate::order;
use crate::order::Keyed;
use crate::path;
use crate::text;

pub use crate::clock::{epoch_seconds, timestamp};

verus! {

broadcast use vstd::string::group_string_axioms;

// ---------------------------------------------------------------------------
// Errors
// ---------------------------------------------------------------------------

/// What is wrong where an action on a path failed.
pub open spec fn failed_at(action: Seq<char>, at: Seq<char>, why: Seq<char>) -> error::Fault {
    error::fault(
        ExitClass::Internal,
        "IO_FAILED"@,
        action + " "@ + at + ": "@ + why,
        "retry the operation and inspect filesystem permissions if it repeats"@,
    )
}

/// The error of an action on a path.
pub fn fs_error(action: &str, at: &str, why: &str) -> (r: CoreError)
    ensures
        r@ == failed_at(action@, at@, why@),
{
    let message = action.to_owned().concat(" ").concat(at).concat(": ").concat(why);
    CoreError::new(
        ExitClass::Internal,
        "IO_FAILED",
        message.as_str(),
        "retry the operation and inspect filesystem permissions if it repeats",
    )
}

/// The error of an action.
pub fn io_context(action: &str, why: &str) -> (r: CoreError)
    ensures
        r@ == error::fault(
            ExitClass::Internal,
            "IO_FAILED"@,
            action@ + ": "@ + why@,
            "retry the operation and inspect filesystem permissions if it repeats"@,
        ),
{
    let message = action.to_owned().concat(": ").concat(why);
    CoreError::new(
        ExitClass::Internal,
        "IO_FAILED",
        message.as_str(),
        "retry the operation and inspect filesystem permissions if it repeats",
    )
}

/// What is wrong with a path that goes through a symbolic link.
pub open spec fn link_refused(at: Seq<char>, why: Seq<char>) -> error::Fault {
    error::fault(
        ExitClass::State,
        "SYMLINK_REFUSED"@,
        "refusing no-follow access to "@ + at + ": "@ + why,
        "replace symlinked path components with owned directories or files"@,
    )
}

/// The error of a path that goes through a symbolic link.
pub fn nofollow_error(at: &str, why: &str) -> (r: CoreError)
    ensures
        r@ == link_refused(at@, why@),
{
    let message = "refusing no-follow access to ".to_owned().concat(at).concat(": ").concat(why);
    CoreError::new(
        ExitClass::State,
        "SYMLINK_REFUSED",
        message.as_str(),
        "replace symlinked path components with owned directories or files",
    )
}

/// The error of a path with a zero byte.
pub fn nul_error(why: &str) -> (r: CoreError)
    ensures
        r@ == error::fault(
            ExitClass::State,
            "CONFIG_INVALID"@,
            "path contains NUL: "@ + why@,
            "use a path without NUL bytes"@,
        ),
{
    let message = "path contains NUL: ".to_owned().concat(why);
    CoreError::new(
        ExitClass::State,
        "CONFIG_INVALID",
        message.as_str(),
        "use a path without NUL bytes",
    )
}

/// The error of a component that could not be opened: one that is missing, or one
/// that is not to be followed.
pub fn openat_error(name: &str, missing: bool, why: &str) -> (r: CoreError)
    ensures
        r@ == if missing {
            error::fault(
                ExitClass::NotFound,
                "PATH_MISSING"@,
                "path component `"@ + name@ + "` does not exist"@,
                "create the source path or choose an existing contained path"@,
            )
        } else {
            link_refused(name@, why@)
        },
{
    if missing {
        let message = "path component `".to_owned().concat(name).concat("` does not exist");
        CoreError::new(
            ExitClass::NotFound,
            "PATH_MISSING",
            message.as_str(),
            "create the source path or choose an existing contained path",
        )
    } else {
        nofollow_error(name, why)
    }
}

/// The error of a store document that cannot be read.
pub fn corrupt(code: &str, at: &str, why: &str) -> (r: CoreError)
    ensures
        r@ == error::fault(
            ExitClass::State,
            code@,
            at@ + " is corrupt: "@ + why@,
            "delete `"@ + at@
                + "` and re-run `wt register` or `wt adopt` for the affected checkout"@,
        ),
{
    let message = at.to_owned().concat(" is corrupt: ").concat(why);
    let remedy = "delete `".to_owned().concat(at).concat(
        "` and re-run `wt register` or `wt adopt` for the affected checkout",
    );
    CoreError::new(ExitClass::State, code, message.as_str(), remedy.as_str())
}

/// The error of a store document that cannot be written down.
pub fn unserializable(at: &str, why: &str) -> (r: CoreError)
    ensures
        r@ == error::fault(
            ExitClass::Internal,
            "SERIALIZE_FAILED"@,
            "could not serialize "@ + at@ + ": "@ + why@,
            "report this wt bug"@,
        ),
{
    let message = "could not serialize ".to_owned().concat(at).concat(": ").concat(why);
    CoreError::new(ExitClass::Internal, "SERIALIZE_FAILED", message.as_str(), "report this wt bug")
}

// ---------------------------------------------------------------------------
// What a path is
// ---------------------------------------------------------------------------

/// What lies at a path, without following a link there.
#[derive(Clone, Copy, Debug, PartialEq, Eq, Structural)]
pub enum PathKind {
    Missing,
    File,
    Directory,
    Symlink,
    Other,
}

/// What the file system says of an entry.
#[derive(Clone, Copy, Debug, PartialEq, Eq, Structural)]
pub struct Meta {
    pub symlink: bool,
    pub file: bool,
    pub directory: bool,
    pub mode: u32,
    pub len: u64,
}

/// What lies at a path, of what the file system says of it.
pub fn path_kind(meta: &Option<Meta>) -> (r: PathKind)
    ensures
        r == match *meta {
            None => PathKind::Missing,
            Some(m) => if m.symlink {
                PathKind::Symlink
            } else if m.file {
                PathKind::File
            } else if m.directory {
                PathKind::Directory
            } else {
                PathKind::Other
            },
        },
{
    match meta {
        None => PathKind::Missing,
        Some(m) => if m.symlink {
            PathKind::Symlink
        } else if m.file {
            PathKind::File
        } else if m.directory {
            PathKind::Directory
        } else {
            PathKind::Other
        },
    }
}

/// Whether a name is something that would run: a file with an execute bit, or a
/// link that leads to one.
pub fn is_executable_file(link: &Option<Meta>, target: &Option<Meta>) -> (r: bool)
    ensures
        r == match *link {
            None => false,
            Some(l) => if l.file {
                l.mode & 0o111 != 0
            } else {
                l.symlink && (*target matches Some(t) && t.file && t.mode & 0o111 != 0)
            },
        },
{
    match link {
        None => false,
        Some(l) => if l.file {
            l.mode & 0o111 != 0
        } else if !l.symlink {
            false
        } else {
            match target {
                Some(t) => t.file && t.mode & 0o111 != 0,
                None => false,
            }
        },
    }
}

/// The permission bits of a file, or a default where it is none.
pub open spec fn mode_or(meta: Option<Meta>, default: u32) -> u32 {
    match meta {
        Some(m) => if m.file {
            m.mode & 0o777
        } else {
            default
        },
        None => default,
    }
}

/// The mode that a rewritten exclude file keeps.
pub fn exclude_mode(meta: &Option<Meta>) -> (r: u32)
    ensures
        r == mode_or(*meta, 0o644),
{
    match meta {
        Some(m) => if m.file {
            m.mode & 0o777
        } else {
            0o644
        },
        None => 0o644,
    }
}

/// What to do to remove a path.
#[derive(Clone, Copy, Debug, PartialEq, Eq, Structural)]
pub enum Removal {
    Nothing,
    Tree,
    Entry,
}

/// Decides how a path is removed. A link is removed itself, not what it leads to.
pub fn remove_path(kind: PathKind) -> (r: Removal)
    ensures
        r == match kind {
            PathKind::Missing => Removal::Nothing,
            PathKind::Directory => Removal::Tree,
            _ => Removal::Entry,
        },
{
    match kind {
        PathKind::Missing => Removal::Nothing,
        PathKind::Directory => Removal::Tree,
        _ => Removal::Entry,
    }
}

/// What to do to install a link.
#[derive(Debug)]
pub enum LinkStep {
    Keep,
    Install,
    Refuse(CoreError),
}

/// Decides whether a link is installed: one that already leads there is kept, and
/// only a link or nothing is replaced.
pub fn replace_symlink(at: &str, target: &str, current: &Option<String>, kind: PathKind) -> (r:
    LinkStep)
    ensures
        if *current matches Some(c) && path::same_path(c@, target@) {
            r is Keep
        } else if kind == PathKind::Missing || kind == PathKind::Symlink {
            r is Install
        } else {
            r matches LinkStep::Refuse(e) && e@ == error::fault(
                ExitClass::State,
                "SHIM_CONFLICT"@,
                "refusing to replace non-symlink `"@ + at@ + "`"@,
                "remove the conflicting path and retry"@,
            )
        },
{
    if let Some(current) = current {
        if path::same(current.as_str(), target) {
            return LinkStep::Keep;
        }
    }
    match kind {
        PathKind::Missing | PathKind::Symlink => LinkStep::Install,
        _ => {
            let message = "refusing to replace non-symlink `".to_owned().concat(at).concat("`");
            LinkStep::Refuse(
                CoreError::new(
                    ExitClass::State,
                    "SHIM_CONFLICT",
                    message.as_str(),
                    "remove the conflicting path and retry",
                ),
            )
        },
    }
}

/// What is observed of a file that is to be rendered.
#[derive(Debug)]
pub enum Observed {
    InGit,
    Absent,
    Symlink,
    Regular(Vec<u8>),
    Other,
}

/// What is observed of a contained entry: git's own files are not looked at, and a
/// link is seen, not followed.
pub fn observe_nofollow(in_git: bool, kind: PathKind, contents: Vec<u8>) -> (r: Observed)
    ensures
        if in_git {
            r is InGit
        } else {
            match kind {
                PathKind::Missing => r is Absent,
                PathKind::Symlink => r is Symlink,
                PathKind::File => r == Observed::Regular(contents),
                _ => r is Other,
            }
        },
{
    if in_git {
        return Observed::InGit;
    }
    match kind {
        PathKind::Missing => Observed::Absent,
        PathKind::Symlink => Observed::Symlink,
        PathKind::File => Observed::Regular(contents),
        _ => Observed::Other,
    }
}

/// Refuses to write through a link.
pub fn reject_symlink_target(name: &str, kind: PathKind) -> (r: Result<(), CoreError>)
    ensures
        r is Err == (kind == PathKind::Symlink),
        r matches Err(e) ==> e@ == error::fault(
            ExitClass::State,
            "SYMLINK_REFUSED"@,
            "refusing symlink target `"@ + name@ + "`"@,
            "replace the symlink with an owned regular file path"@,
        ),
{
    if kind == PathKind::Symlink {
        let message = "refusing symlink target `".to_owned().concat(name).concat("`");
        return Err(
            CoreError::new(
                ExitClass::State,
                "SYMLINK_REFUSED",
                message.as_str(),
                "replace the symlink with an owned regular file path",
            ),
        );
    }
    Ok(())
}

/// The paths from a root down to each component below it.
pub open spec fn steps_down(root: Seq<char>, parts: Seq<Seq<char>>) -> Seq<Seq<char>>
    decreases parts.len(),
{
    if parts.len() == 0 {
        seq![root]
    } else {
        let above = steps_down(root, parts.drop_last());
        above.push(path::joined(above.last(), parts.last()))
    }
}

/// The paths that must not be links for a contained path: the root, and each
/// directory down to it.
pub fn contained_steps(root: &str, relative: &str) -> (r: Vec<String>)
    ensures
        text::texts(r@) == steps_down(root@, path::components(relative@)),
        r@.len() >= 1,
{
    let parts = path::parts_of(relative);
    let ghost all = path::components(relative@);
    let mut out: Vec<String> = Vec::new();
    out.push(root.to_owned());
    let mut i: usize = 0;
    proof {
        assert(text::texts(out@) =~= seq![root@]);
    }
    while i < parts.len()
        invariant
            i <= parts.len(),
            all == text::texts(parts@),
            out@.len() >= 1,
            text::texts(out@) == steps_down(root@, all.take(i as int)),
        decreases parts.len() - i,
    {
        let ghost prior = text::texts(out@);
        proof {
            assert(all.take(i + 1).drop_last() =~= all.take(i as int));
            assert(all.take(i + 1).last() == parts@[i as int]@);
            assert(prior.last() == out@[out@.len() - 1]@);
        }
        let next = path::join(out[out.len() - 1].as_str(), parts[i].as_str());
        let ghost n = next@;
        out.push(next);
        proof {
            assert(text::texts(out@) =~= prior.push(n));
        }
        i = i + 1;
    }
    proof {
        assert(all.take(parts@.len() as int) =~= all);
    }
    out
}

/// The first link among the steps before one that is missing.
pub open spec fn first_link(kinds: Seq<PathKind>, from: int) -> Option<int>
    decreases kinds.len() - from,
{
    if from < 0 || from >= kinds.len() {
        None
    } else if kinds[from] == PathKind::Symlink {
        Some(from)
    } else if kinds[from] == PathKind::Missing {
        None
    } else {
        first_link(kinds, from + 1)
    }
}

/// Refuses a contained path that goes through a link. `kinds` says what lies at
/// each of its steps; below one that is missing nothing is looked at. `why` is
/// what the system says of a loop of links.
pub fn reject_symlink_components(steps: &Vec<String>, kinds: &Vec<PathKind>, why: &str) -> (r:
    Result<(), CoreError>)
    requires
        steps@.len() == kinds@.len(),
    ensures
        match first_link(kinds@, 0) {
            Some(i) => r matches Err(e) && e@ == link_refused(steps@[i]@, why@),
            None => r is Ok,
        },
{
    let mut i: usize = 0;
    while i < steps.len()
        invariant
            i <= steps.len(),
            steps@.len() == kinds@.len(),
            first_link(kinds@, 0) == first_link(kinds@, i as int),
        decreases steps.len() - i,
    {
        if kinds[i] == PathKind::Symlink {
            return Err(nofollow_error(steps[i].as_str(), why));
        }
        if kinds[i] == PathKind::Missing {
            return Ok(());
        }
        i = i + 1;
    }
    Ok(())
}

/// A path that is not refused goes through no link: what lies before the first
/// missing step is none.
pub proof fn accepted_paths_follow_no_link(kinds: Seq<PathKind>, i: int)
    requires
        first_link(kinds, 0) is None,
        0 <= i < kinds.len(),
        forall|k: int| 0 <= k < i ==> #[trigger] kinds[k] != PathKind::Missing,
    ensures
        kinds[i] != PathKind::Symlink,
{
    lemma_no_link(kinds, 0, i);
}

proof fn lemma_no_link(kinds: Seq<PathKind>, from: int, i: int)
    requires
        first_link(kinds, from) is None,
        0 <= from <= i < kinds.len(),
        forall|k: int| from <= k < i ==> #[trigger] kinds[k] != PathKind::Missing,
    ensures
        kinds[i] != PathKind::Symlink,
    decreases i - from,
{
    if from < i {
        assert(kinds[from] != PathKind::Missing);
        lemma_no_link(kinds, from + 1, i);
    }
}

// ---------------------------------------------------------------------------
// Reading
// ---------------------------------------------------------------------------

/// The text of a file.
pub fn read_string(at: &str, bytes: Vec<u8>) -> (r: Result<String, CoreError>)
    ensures
        r is Ok == valid_utf8(bytes@),
        r matches Ok(s) ==> s@ == decode_utf8(bytes@),
        r matches Err(e) ==> e@ == error::fault(
            ExitClass::State,
            "FILE_INVALID_UTF8"@,
            at@ + " is not UTF-8: "@ + text::utf8_fault(bytes@),
            "replace the file with valid UTF-8"@,
        ),
{
    match text::from_strict(bytes) {
        Ok(s) => Ok(s),
        Err(why) => {
            let message = at.to_owned().concat(" is not UTF-8: ").concat(why.as_str());
            Err(
                CoreError::new(
                    ExitClass::State,
                    "FILE_INVALID_UTF8",
                    message.as_str(),
                    "replace the file with valid UTF-8",
                ),
            )
        },
    }
}

/// The text of an exclude file.
pub fn read_exclude(at: &str, bytes: Vec<u8>) -> (r: Result<String, CoreError>)
    ensures
        r is Ok == valid_utf8(bytes@),
        r matches Ok(s) ==> s@ == decode_utf8(bytes@),
        r matches Err(e) ==> e@ == error::fault(
            ExitClass::State,
            "EXCLUDE_INVALID"@,
            at@ + " is not UTF-8: "@ + text::utf8_fault(bytes@),
            "repair the git exclude file and retry"@,
        ),
{
    match text::from_strict(bytes) {
        Ok(s) => Ok(s),
        Err(why) => {
            let message = at.to_owned().concat(" is not UTF-8: ").concat(why.as_str());
            Err(
                CoreError::new(
                    ExitClass::State,
                    "EXCLUDE_INVALID",
                    message.as_str(),
                    "repair the git exclude file and retry",
                ),
            )
        },
    }
}

/// What became of an exclude file.
#[derive(Clone, Copy, Debug, PartialEq, Eq, Structural)]
pub struct ExcludeWrite {
    pub changed: bool,
    pub repaired: bool,
}

/// Decides what becomes of an exclude file whose managed block was put in: it is
/// written only where the text differs.
pub fn splice_exclude(existing: &str, spliced: &str, repaired: bool) -> (r: ExcludeWrite)
    ensures
        r.changed == (spliced@ != existing@),
        r.repaired == repaired,
{
    ExcludeWrite { changed: !text::same(spliced, existing), repaired }
}

/// Decides what becomes of an exclude file whose managed block was taken out: it is
/// written only where the text differs.
pub fn remove_exclude(existing: &str, remaining: &str, repaired: bool) -> (r: ExcludeWrite)
    ensures
        r.changed == (remaining@ != existing@),
        r.repaired == repaired,
{
    ExcludeWrite { changed: !text::same(remaining, existing), repaired }
}

/// The largest file that is read while a directory is looked at.
pub const SNAPSHOT_LIMIT: u64 = 1_048_576;

/// Whether the contents of an entry are taken: of a named one that is a file and
/// not too large.
pub fn captures(name: &str, wanted: &Vec<String>, meta: &Meta) -> (r: bool)
    ensures
        r == (text::texts(wanted@).contains(name@) && meta.file && meta.len <= SNAPSHOT_LIMIT),
{
    let ghost all = text::texts(wanted@);
    let mut i: usize = 0;
    while i < wanted.len()
        invariant
            i <= wanted.len(),
            all == text::texts(wanted@),
            forall|k: int| 0 <= k < i ==> #[trigger] all[k] != name@,
        decreases wanted.len() - i,
    {
        if text::same(wanted[i].as_str(), name) {
            proof {
                assert(all[i as int] == name@);
            }
            return meta.file && meta.len <= SNAPSHOT_LIMIT;
        }
        i = i + 1;
    }
    false
}

/// A path that is sorted.
#[derive(Debug)]
pub struct Listed {
    pub path: String,
}

impl Keyed for Listed {
    open spec fn key(&self) -> Seq<Seq<int>> {
        path::path_key(self.path@)
    }

    fn sort_key(&self) -> (r: Vec<Vec<u64>>) {
        path::key_of(self.path.as_str())
    }
}

/// The paths of a directory's entries, in order.
pub fn read_dir_paths(entries: Vec<Listed>) -> (r: Vec<Listed>)
    ensures
        r@ == order::sorted(entries@),
{
    order::sort(entries)
}

/// The sum of sizes.
pub open spec fn sum(sizes: Seq<u64>) -> int
    decreases sizes.len(),
{
    if sizes.len() == 0 {
        0
    } else {
        sum(sizes.drop_last()) + sizes.last()
    }
}

/// The smaller of a number and the greatest that is counted to.
pub open spec fn capped(n: int) -> int {
    if n > u64::MAX {
        u64::MAX as int
    } else {
        n
    }
}

/// The disk use of entries of the given sizes in kilobytes, rounded up; sums stop
/// at the greatest number.
pub fn disk_kb(sizes: &Vec<u64>) -> (r: u64)
    ensures
        r == capped(capped(sum(sizes@)) + 1023) / 1024,
{
    let mut total: u64 = 0;
    let mut i: usize = 0;
    while i < sizes.len()
        invariant
            i <= sizes.len(),
            total == capped(sum(sizes@.take(i as int))),
            sum(sizes@.take(i as int)) >= 0,
        decreases sizes.len() - i,
    {
        proof {
            assert(sizes@.take(i + 1).drop_last() =~= sizes@.take(i as int));
        }
        total = if total > u64::MAX - sizes[i] {
            u64::MAX
        } else {
            total + sizes[i]
        };
        i = i + 1;
    }
    proof {
        assert(sizes@.take(sizes@.len() as int) =~= sizes@);
    }
    let padded: u64 = if total > u64::MAX - 1023 {
        u64::MAX
    } else {
        total + 1023
    };
    padded / 1024
}

// ---------------------------------------------------------------------------
// Writing
// ---------------------------------------------------------------------------

/// A step of writing a file so that it is never seen half-written.
#[derive(Debug)]
pub enum StoreStep {
    /// Make the directory and those above it with the mode, and give it the mode.
    MakeDir { at: String, mode: u32 },
    /// Make a new file with the mode; it must not exist.
    Create { at: String, mode: u32 },
    /// Write the bytes into it.
    Write { at: String, bytes: Vec<u8> },
    /// Wait until the file is on disk.
    Sync { at: String },
    /// Put it in place of the target.
    Rename { from: String, to: String },
    /// Open the directory.
    OpenDir { at: String },
    /// Wait until the directory is on disk.
    SyncDir { at: String },
}

/// What a step does.
pub enum StoreMove {
    MakeDir { at: Seq<char>, mode: u32 },
    Create { at: Seq<char>, mode: u32 },
    Write { at: Seq<char>, bytes: Seq<u8> },
    Sync { at: Seq<char> },
    Rename { from: Seq<char>, to: Seq<char> },
    OpenDir { at: Seq<char> },
    SyncDir { at: Seq<char> },
}

impl View for StoreStep {
    type V = StoreMove;

    open spec fn view(&self) -> StoreMove {
        match self {
            StoreStep::MakeDir { at, mode } => StoreMove::MakeDir { at: at@, mode: *mode },
            StoreStep::Create { at, mode } => StoreMove::Create { at: at@, mode: *mode },
            StoreStep::Write { at, bytes } => StoreMove::Write { at: at@, bytes: bytes@ },
            StoreStep::Sync { at } => StoreMove::Sync { at: at@ },
            StoreStep::Rename { from, to } => StoreMove::Rename { from: from@, to: to@ },
            StoreStep::OpenDir { at } => StoreMove::OpenDir { at: at@ },
            StoreStep::SyncDir { at } => StoreMove::SyncDir { at: at@ },
        }
    }
}

/// What steps do.
pub open spec fn moves(steps: Seq<StoreStep>) -> Seq<StoreMove> {
    steps.map_values(|s: StoreStep| s@)
}

/// The directory of a path, or the current one.
pub open spec fn directory_of(at: Seq<char>) -> Seq<char> {
    match path::parent_of(at) {
        Some(parent) => parent,
        None => "."@,
    }
}

/// The file that is written in place of another until it is complete.
pub open spec fn temporary_of(at: Seq<char>, pid: u32, sequence: u64) -> Seq<char> {
    path::joined(
        directory_of(at),
        ".wt-tmp-"@ + text::decimal(pid as nat) + "-"@ + text::decimal(sequence as nat),
    )
}

/// The steps before a file is written: a directory that is missing is made, for its
/// owner alone.
pub open spec fn room_moves(at: Seq<char>, missing: bool) -> Seq<StoreMove> {
    if missing {
        seq![StoreMove::MakeDir { at: directory_of(at), mode: 0o700 }]
    } else {
        Seq::<StoreMove>::empty()
    }
}

/// The steps of writing a file; `missing` says that its directory is not there.
pub open spec fn store_moves(
    at: Seq<char>,
    bytes: Seq<u8>,
    mode: u32,
    missing: bool,
    pid: u32,
    sequence: u64,
) -> Seq<StoreMove> {
    let tmp = temporary_of(at, pid, sequence);
    room_moves(at, missing) + seq![
        StoreMove::Create { at: tmp, mode },
        StoreMove::Write { at: tmp, bytes },
        StoreMove::Sync { at: tmp },
        StoreMove::Rename { from: tmp, to: at },
        StoreMove::OpenDir { at: directory_of(at) },
        StoreMove::SyncDir { at: directory_of(at) },
    ]
}

fn copy_bytes(bytes: &[u8]) -> (r: Vec<u8>)
    ensures
        r@ == bytes@,
{
    let mut out: Vec<u8> = Vec::new();
    let mut i: usize = 0;
    while i < bytes.len()
        invariant
            i <= bytes.len(),
            out@ == bytes@.take(i as int),
        decreases bytes.len() - i,
    {
        out.push(bytes[i]);
        proof {
            assert(bytes@.take(i + 1) =~= bytes@.take(i as int).push(bytes@[i as int]));
        }
        i = i + 1;
    }
    proof {
        assert(bytes@.take(bytes@.len() as int) =~= bytes@);
    }
    out
}

/// The directory of a path, or the current one.
pub fn directory(at: &str) -> (r: String)
    ensures
        r@ == directory_of(at@),
{
    match path::parent(at) {
        Some(parent) => parent,
        None => ".".to_owned(),
    }
}

/// How to write a file with a mode so that it is never seen half-written: into a
/// new file beside it, which then takes its place. Where their directory is `missing`
/// it is made first. `pid` and `sequence` make the name of the new file.
pub fn write_atomic_mode(
    at: &str,
    bytes: &[u8],
    mode: u32,
    missing: bool,
    pid: u32,
    sequence: u64,
) -> (r: Vec<StoreStep>)
    ensures
        moves(r@) == store_moves(at@, bytes@, mode, missing, pid, sequence),
{
    let parent = directory(at);
    let name = ".wt-tmp-".to_owned().concat(text::decimal_of(pid as u64).as_str()).concat(
        "-",
    ).concat(text::decimal_of(sequence).as_str());
    let tmp = path::join(parent.as_str(), name.as_str());
    let mut steps: Vec<StoreStep> = Vec::new();
    if missing {
        steps.push(StoreStep::MakeDir { at: parent.clone(), mode: 0o700 });
    }
    steps.push(StoreStep::Create { at: tmp.clone(), mode });
    steps.push(StoreStep::Write { at: tmp.clone(), bytes: copy_bytes(bytes) });
    steps.push(StoreStep::Sync { at: tmp.clone() });
    steps.push(StoreStep::Rename { from: tmp, to: at.to_owned() });
    steps.push(StoreStep::OpenDir { at: parent.clone() });
    steps.push(StoreStep::SyncDir { at: parent });
    proof {
        assert(moves(steps@) =~= store_moves(at@, bytes@, mode, missing, pid, sequence));
    }
    steps
}

/// How to write a private store document: with mode 0600, and where its directory is
/// `missing`, below one that is made with mode 0700.
pub fn write_store(at: &str, bytes: &[u8], missing: bool, pid: u32, sequence: u64) -> (r: Vec<
    StoreStep,
>)
    ensures
        moves(r@) == store_moves(at@, bytes@, 0o600, missing, pid, sequence),
{
    write_atomic_mode(at, bytes, 0o600, missing, pid, sequence)
}

/// What the files hold after a step.
pub open spec fn after_step(files: Map<Seq<char>, Seq<u8>>, step: StoreMove) -> Map<
    Seq<char>,
    Seq<u8>,
> {
    match step {
        StoreMove::Create { at, mode } => files.insert(at, Seq::<u8>::empty()),
        StoreMove::Write { at, bytes } => files.insert(at, bytes),
        StoreMove::Rename { from, to } => if files.contains_key(from) {
            files.remove(from).insert(to, files[from])
        } else {
            files
        },
        _ => files,
    }
}

/// What the files hold after steps.
pub open spec fn after_steps(files: Map<Seq<char>, Seq<u8>>, steps: Seq<StoreMove>) -> Map<
    Seq<char>,
    Seq<u8>,
>
    decreases steps.len(),
{
    if steps.len() == 0 {
        files
    } else {
        after_step(after_steps(files, steps.drop_last()), steps.last())
    }
}

/// What the files hold where the steps stop after the first `done`: a write that
/// was under way has left anything in its file.
pub open spec fn interrupted(
    files: Map<Seq<char>, Seq<u8>>,
    steps: Seq<StoreMove>,
    done: int,
    torn: Seq<u8>,
) -> Map<Seq<char>, Seq<u8>> {
    let reached = after_steps(files, steps.take(done));
    if done < steps.len() {
        match steps[done] {
            StoreMove::Write { at, bytes } => reached.insert(at, torn),
            _ => reached,
        }
    } else {
        reached
    }
}

/// Whether two states of the files hold the same at a path.
pub open spec fn same_at(
    a: Map<Seq<char>, Seq<u8>>,
    b: Map<Seq<char>, Seq<u8>>,
    at: Seq<char>,
) -> bool {
    a.contains_key(at) == b.contains_key(at) && (a.contains_key(at) ==> a[at] == b[at])
}

/// A store document is never seen half-written: wherever its writing is
/// interrupted, the path holds what it held before, up to the rename, and from
/// then on all of the new bytes. No other file but the temporary one is touched.
pub proof fn a_store_is_never_partial(
    files: Map<Seq<char>, Seq<u8>>,
    at: Seq<char>,
    bytes: Seq<u8>,
    mode: u32,
    missing: bool,
    pid: u32,
    sequence: u64,
    done: int,
    torn: Seq<u8>,
    other: Seq<char>,
)
    requires
        0 <= done <= store_moves(at, bytes, mode, missing, pid, sequence).len(),
        temporary_of(at, pid, sequence) != at,
    ensures
        ({
            let steps = store_moves(at, bytes, mode, missing, pid, sequence);
            let now = interrupted(files, steps, done, torn);
            &&& done < room_moves(at, missing).len() + 4 ==> same_at(now, files, at)
            &&& done >= room_moves(at, missing).len() + 4 ==> now.contains_key(at) && now[at]
                == bytes
            &&& other != at && other != temporary_of(at, pid, sequence) ==> same_at(
                now,
                files,
                other,
            )
        }),
{
    let steps = store_moves(at, bytes, mode, missing, pid, sequence);
    assert(steps.take(0) =~= Seq::<StoreMove>::empty());
    assert(steps.take(1).drop_last() =~= steps.take(0));
    assert(steps.take(2).drop_last() =~= steps.take(1));
    assert(steps.take(3).drop_last() =~= steps.take(2));
    assert(steps.take(4).drop_last() =~= steps.take(3));
    assert(steps.take(5).drop_last() =~= steps.take(4));
    assert(steps.take(6).drop_last() =~= steps.take(5));
    if missing {
        assert(steps.take(7).drop_last() =~= steps.take(6));
    }
    reveal_with_fuel(after_steps, 8);
}

/// The text of a file with more appended: on a line of its own.
pub open spec fn appended(existing: Seq<char>, more: Seq<char>) -> Seq<char> {
    if existing.len() > 0 && existing.last() != '\n' {
        existing.push('\n') + more
    } else {
        existing + more
    }
}

/// The path of the copy of a file that is kept while it is edited.
pub open spec fn backup_of(at: Seq<char>) -> Seq<char> {
    match path::name_of(at) {
        None => at,
        Some(name) => {
            let (stem, extension) = path::stem_and_extension(name);
            let last = match extension {
                Some(e) => e + ".wt-backup"@,
                None => "wt-backup"@,
            };
            path::joined(
                match path::parent_of(at) {
                    Some(parent) => parent,
                    None => Seq::<char>::empty(),
                },
                stem + "."@ + last,
            )
        },
    }
}

/// The path of the copy of a file that is kept while it is edited.
pub fn backup_path(at: &str) -> (r: String)
    ensures
        r@ == backup_of(at@),
{
    match path::file_name(at) {
        None => at.to_owned(),
        Some(name) => {
            let (stem, extension) = path::split_name(name.as_str());
            let last = match extension {
                Some(e) => e.concat(".wt-backup"),
                None => "wt-backup".to_owned(),
            };
            let parent = match path::parent(at) {
                Some(parent) => parent,
                None => String::new(),
            };
            proof {
                if path::parent_of(at@) is None {
                    assert(parent@ =~= Seq::<char>::empty());
                }
            }
            let whole = stem.concat(".").concat(last.as_str());
            path::join(parent.as_str(), whole.as_str())
        },
    }
}

/// How a file is edited by appending: what it then holds, with which mode, and
/// where a copy of what it held goes. A file that did not exist has nothing to
/// keep.
#[derive(Debug)]
pub struct AppendPlan {
    pub backup: Option<String>,
    pub merged: String,
    pub mode: u32,
}

/// Decides how text is appended to a file. `mode` is what the file has, where it
/// exists.
pub fn append_with_backup(at: &str, existing: &Option<String>, mode: Option<u32>, more: &str) -> (r:
    AppendPlan)
    ensures
        text::opt(r.backup) == match *existing {
            Some(_) => Some(backup_of(at@)),
            None => None,
        },
        r.merged@ == appended(
            match *existing {
                Some(old) => old@,
                None => Seq::<char>::empty(),
            },
            more@,
        ),
        r.mode == match mode {
            Some(m) => m & 0o777,
            None => 0o600u32,
        },
{
    let backup = match existing {
        Some(_) => Some(backup_path(at)),
        None => None,
    };
    let old = match existing {
        Some(old) => old.clone(),
        None => String::new(),
    };
    proof {
        if existing is None {
            assert(old@ =~= Seq::<char>::empty());
        }
    }
    let chars = text::chars_of(old.as_str());
    let len: usize = chars.len();
    let mut merged = old;
    if len > 0 && chars[len - 1] != '\n' {
        merged.push('\n');
    }
    let merged = merged.concat(more);
    let mode: u32 = match mode {
        Some(m) => m & 0o777,
        None => 0o600,
    };
    AppendPlan { backup, merged, mode }
}

/// The error of a directory that could not be made for a file.
pub fn mkdir_failed(at: &str, why: &str) -> (r: CoreError)
    ensures
        r@ == error::fault(
            ExitClass::Internal,
            "WRITE_FAILED"@,
            "could not create "@ + at@ + ": "@ + why@,
            "check the directory's permissions"@,
        ),
{
    let message = "could not create ".to_owned().concat(at).concat(": ").concat(why);
    CoreError::new(
        ExitClass::Internal,
        "WRITE_FAILED",
        message.as_str(),
        "check the directory's permissions",
    )
}

/// Appending keeps what was there: it is still at the front, and what was appended
/// is at the end.
pub proof fn appending_keeps_the_text(existing: Seq<char>, more: Seq<char>)
    ensures
        text::starts(appended(existing, more), existing),
        text::ends(appended(existing, more), more),
{
    let all = appended(existing, more);
    assert(all.take(existing.len() as int) =~= existing);
    assert(all.skip(all.len() - more.len()) =~= more);
}

// ---------------------------------------------------------------------------
// Copies
// ---------------------------------------------------------------------------

/// What was copied.
#[derive(Debug)]
pub struct CopyReport {
    pub files: Vec<String>,
    pub symlinks: Vec<String>,
    pub directories: Vec<String>,
}

impl CopyReport {
    /// Nothing was copied.
    pub fn new() -> (r: Self)
        ensures
            r.files@.len() == 0,
            r.symlinks@.len() == 0,
            r.directories@.len() == 0,
    {
        CopyReport { files: Vec::new(), symlinks: Vec::new(), directories: Vec::new() }
    }

    /// Records that an entry of the kind was copied.
    pub fn copied(&mut self, relative: &str, kind: PathKind)
        ensures
            text::texts(final(self).files@) == if kind == PathKind::File {
                text::texts(old(self).files@).push(relative@)
            } else {
                text::texts(old(self).files@)
            },
            text::texts(final(self).symlinks@) == if kind == PathKind::Symlink {
                text::texts(old(self).symlinks@).push(relative@)
            } else {
                text::texts(old(self).symlinks@)
            },
            text::texts(final(self).directories@) == if kind == PathKind::Directory {
                text::texts(old(self).directories@).push(relative@)
            } else {
                text::texts(old(self).directories@)
            },
    {
        match kind {
            PathKind::File => {
                self.files.push(relative.to_owned());
                proof {
                    assert(text::texts(self.files@) =~= text::texts(old(self).files@).push(
                        relative@,
                    ));
                }
            },
            PathKind::Symlink => {
                self.symlinks.push(relative.to_owned());
                proof {
                    assert(text::texts(self.symlinks@) =~= text::texts(old(self).symlinks@).push(
                        relative@,
                    ));
                }
            },
            PathKind::Directory => {
                self.directories.push(relative.to_owned());
                proof {
                    assert(text::texts(self.directories@) =~= text::texts(
                        old(self).directories@,
                    ).push(relative@));
                }
            },
            _ => {},
        }
    }
}

// ---------------------------------------------------------------------------
// Logs
// ---------------------------------------------------------------------------

/// Whether a text has the length, the mark at two places and digits elsewhere.
pub open spec fn marked(s: Seq<char>, len: int, a: int, b: int, mark: char) -> bool {
    &&& s.len() == len
    &&& s[a] == mark
    &&& s[b] == mark
    &&& forall|i: int| 0 <= i < len && i != a && i != b ==> text::is_digit(#[trigger] s[i])
}

/// Whether a text is so many digits.
pub open spec fn digits(s: Seq<char>, len: int) -> bool {
    s.len() == len && text::all_digits(s)
}

/// Whether a text is seconds and nanoseconds.
pub open spec fn epoch_shape(body: Seq<char>) -> bool {
    text::cut(body, '.') matches Some(parts) && 9 <= parts.0.len() <= 12 && text::all_digits(
        parts.0,
    ) && digits(parts.1, 9)
}

/// Whether a text is a time of the day.
pub open spec fn clock_shape(clock: Seq<char>) -> bool {
    digits(clock, 6) || marked(clock, 8, 2, 5, ':')
}

/// Whether a text is a date and a time of the day, with or without a fraction.
pub open spec fn calendar_shape(body: Seq<char>) -> bool {
    text::cut(body, 'T') matches Some(parts) && {
        &&& digits(parts.0, 8) || marked(parts.0, 10, 4, 7, '-')
        &&& match text::cut(parts.1, '.') {
            Some(times) => clock_shape(times.0) && times.1.len() > 0 && text::all_digits(times.1),
            None => clock_shape(parts.1),
        }
    }
}

/// Whether a text is the timestamp of a log: a day, seconds since the epoch, or a
/// date and a time.
pub open spec fn log_stamp(s: Seq<char>) -> bool {
    digits(s, 8) || match text::before(s, "Z"@) {
        Some(body) => epoch_shape(body) || calendar_shape(body),
        None => false,
    }
}

fn all_digits(chars: &Vec<char>) -> (r: bool)
    ensures
        r == text::all_digits(chars@),
{
    let mut i: usize = 0;
    while i < chars.len()
        invariant
            i <= chars.len(),
            forall|k: int| 0 <= k < i ==> text::is_digit(#[trigger] chars@[k]),
        decreases chars.len() - i,
    {
        if !text::digit(chars[i]) {
            return false;
        }
        i = i + 1;
    }
    true
}

fn has_marks(chars: &Vec<char>, len: usize, a: usize, b: usize, mark: char) -> (r: bool)
    requires
        a < len,
        b < len,
    ensures
        r == marked(chars@, len as int, a as int, b as int, mark),
{
    if chars.len() != len || chars[a] != mark || chars[b] != mark {
        return false;
    }
    let mut i: usize = 0;
    while i < len
        invariant
            i <= len,
            chars@.len() == len,
            forall|k: int|
                0 <= k < i && k != a && k != b ==> text::is_digit(#[trigger] chars@[k]),
        decreases len - i,
    {
        if i != a && i != b && !text::digit(chars[i]) {
            return false;
        }
        i = i + 1;
    }
    true
}

fn is_clock(clock: &str) -> (r: bool)
    ensures
        r == clock_shape(clock@),
{
    let chars = text::chars_of(clock);
    (chars.len() == 6 && all_digits(&chars)) || has_marks(&chars, 8, 2, 5, ':')
}

fn is_date(date: &str) -> (r: bool)
    ensures
        r == (digits(date@, 8) || marked(date@, 10, 4, 7, '-')),
{
    let chars = text::chars_of(date);
    (chars.len() == 8 && all_digits(&chars)) || has_marks(&chars, 10, 4, 7, '-')
}

fn is_epoch(body: &str) -> (r: bool)
    ensures
        r == epoch_shape(body@),
{
    match text::split_once(body, '.') {
        None => false,
        Some((seconds, nanos)) => {
            let seconds = text::chars_of(seconds.as_str());
            let nanos = text::chars_of(nanos.as_str());
            9 <= seconds.len() && seconds.len() <= 12 && all_digits(&seconds) && nanos.len() == 9
                && all_digits(&nanos)
        },
    }
}

/// Whether a text is the timestamp of a log.
pub fn valid_utc_log_timestamp(stamp: &str) -> (r: bool)
    ensures
        r == log_stamp(stamp@),
{
    let chars = text::chars_of(stamp);
    if chars.len() == 8 && all_digits(&chars) {
        return true;
    }
    let body = match text::strip_suffix(stamp, "Z") {
        Some(body) => body,
        None => return false,
    };
    if is_epoch(body.as_str()) {
        return true;
    }
    match text::split_once(body.as_str(), 'T') {
        None => false,
        Some((date, time)) => {
            let valid_date = is_date(date.as_str());
            let valid_time = match text::split_once(time.as_str(), '.') {
                Some((clock, fraction)) => {
                    let fraction = text::chars_of(fraction.as_str());
                    is_clock(clock.as_str()) && fraction.len() > 0 && all_digits(&fraction)
                },
                None => is_clock(time.as_str()),
            };
            valid_date && valid_time
        },
    }
}

/// The timestamp in the name of a log, where it is one with the prefix.
pub open spec fn stamp_in(name: Seq<char>, prefix: Seq<char>) -> Option<Seq<char>> {
    match text::after(name, prefix) {
        None => None,
        Some(rest) => match text::before(rest, ".log"@) {
            None => None,
            Some(stamp) => if log_stamp(stamp) {
                Some(stamp)
            } else {
                None
            },
        },
    }
}

/// The timestamp in the name of a log.
pub fn parse_log_timestamp(name: &str, prefix: &str) -> (r: Option<String>)
    ensures
        text::opt(r) == stamp_in(name@, prefix@),
{
    let rest = match text::strip_prefix(name, prefix) {
        Some(rest) => rest,
        None => return None,
    };
    let stamp = match text::strip_suffix(rest.as_str(), ".log") {
        Some(stamp) => stamp,
        None => return None,
    };
    if valid_utc_log_timestamp(stamp.as_str()) {
        Some(stamp)
    } else {
        None
    }
}

/// A log and its timestamp.
#[derive(Debug)]
pub struct Log {
    pub stamp: String,
    pub name: String,
}

impl Keyed for Log {
    open spec fn key(&self) -> Seq<Seq<int>> {
        seq![order::ranks(self.stamp@)]
    }

    fn sort_key(&self) -> (r: Vec<Vec<u64>>) {
        let mut key: Vec<Vec<u64>> = Vec::new();
        key.push(order::text_part(self.stamp.as_str()));
        proof {
            assert(order::key_view(key@) =~= seq![order::ranks(self.stamp@)]);
        }
        key
    }
}

/// The stamps and names of logs.
pub open spec fn log_views(logs: Seq<Log>) -> Seq<(Seq<char>, Seq<char>)> {
    logs.map_values(|l: Log| (l.stamp@, l.name@))
}

/// The logs of a task among the names of a directory.
pub open spec fn logs_of(names: Seq<Seq<char>>, prefix: Seq<char>) -> Seq<(Seq<char>, Seq<char>)>
    decreases names.len(),
{
    if names.len() == 0 {
        Seq::<(Seq<char>, Seq<char>)>::empty()
    } else {
        let rest = logs_of(names.drop_last(), prefix);
        match stamp_in(names.last(), prefix) {
            Some(stamp) => rest.push((stamp, names.last())),
            None => rest,
        }
    }
}

/// The beginning of the names of a task's logs.
pub open spec fn log_prefix(scope: Seq<char>, task: Seq<char>) -> Seq<char> {
    scope + "-"@ + task + "-"@
}

/// How many logs go so that, with the one to come, at most `keep` are there.
pub open spec fn excess(count: int, keep: int) -> int {
    let stay = if keep > 0 {
        keep - 1
    } else {
        0
    };
    if count > stay {
        count - stay
    } else {
        0
    }
}

/// The logs of a task among the names of a directory.
pub fn task_logs(names: &Vec<String>, scope: &str, task: &str) -> (r: Vec<Log>)
    ensures
        log_views(r@) == logs_of(text::texts(names@), log_prefix(scope@, task@)),
{
    let prefix = scope.to_owned().concat("-").concat(task).concat("-");
    let ghost all = text::texts(names@);
    let mut out: Vec<Log> = Vec::new();
    let mut i: usize = 0;
    proof {
        assert(log_views(out@) =~= Seq::<(Seq<char>, Seq<char>)>::empty());
    }
    while i < names.len()
        invariant
            i <= names.len(),
            all == text::texts(names@),
            prefix@ == log_prefix(scope@, task@),
            log_views(out@) == logs_of(all.take(i as int), prefix@),
        decreases names.len() - i,
    {
        let ghost prior = log_views(out@);
        proof {
            assert(all.take(i + 1).drop_last() =~= all.take(i as int));
            assert(all.take(i + 1).last() == names@[i as int]@);
        }
        if let Some(stamp) = parse_log_timestamp(names[i].as_str(), prefix.as_str()) {
            let ghost s = stamp@;
            out.push(Log { stamp, name: names[i].clone() });
            proof {
                assert(log_views(out@) =~= prior.push((s, names@[i as int]@)));
            }
        }
        i = i + 1;
    }
    proof {
        assert(all.take(names@.len() as int) =~= all);
    }
    out
}

/// The logs that go before a new one of the task is made: the oldest, so that at
/// most `keep` are there with it.
pub fn retain_logs(logs: Vec<Log>, keep: u16) -> (r: Vec<Log>)
    ensures
        r@ == order::sorted(logs@).take(excess(logs@.len() as int, keep as int)),
        r@.len() == excess(logs@.len() as int, keep as int),
{
    let ghost all = logs@;
    proof {
        order::sorting_orders_and_keeps(logs@);
        logs@.to_multiset_ensures();
        order::sorted(logs@).to_multiset_ensures();
    }
    let mut sorted = order::sort(logs);
    let stay: usize = if keep > 0 {
        (keep - 1) as usize
    } else {
        0
    };
    let count: usize = if sorted.len() > stay {
        sorted.len() - stay
    } else {
        0
    };
    sorted.truncate(count);
    proof {
        assert(sorted@ =~= order::sorted(all).take(excess(all.len() as int, keep as int)));
    }
    sorted
}

/// No log that goes is newer than one that stays.
pub proof fn the_newest_logs_stay(logs: Seq<Log>, keep: int, i: int, j: int)
    requires
        0 <= i < excess(logs.len() as int, keep) <= j < order::sorted(logs).len(),
    ensures
        order::text_le(order::sorted(logs)[i].stamp@, order::sorted(logs)[j].stamp@),
{
    order::sorting_orders_and_keeps(logs);
    let a = order::sorted(logs)[i];
    let b = order::sorted(logs)[j];
    assert(order::key_le(a.key(), b.key()));
    if a.key()[0] == b.key()[0] {
        order::part_order(a.key()[0], a.key()[0], a.key()[0]);
    }
}

// ---------------------------------------------------------------------------
// Identities and traces
// ---------------------------------------------------------------------------

/// The character of a hexadecimal digit.
pub open spec fn hex_char(d: int) -> char {
    if d < 10 {
        (48 + d) as char
    } else {
        (87 + d) as char
    }
}

/// Bytes in lower-case hexadecimal.
pub open spec fn hex(bytes: Seq<u8>) -> Seq<char>
    decreases bytes.len(),
{
    if bytes.len() == 0 {
        Seq::<char>::empty()
    } else {
        hex(bytes.drop_last()).push(hex_char(bytes.last() as int / 16)).push(
            hex_char(bytes.last() as int % 16),
        )
    }
}

fn hex_digit(d: u8) -> (r: char)
    requires
        d < 16,
    ensures
        r == hex_char(d as int),
{
    if d < 10 {
        (48 + d) as char
    } else {
        (87 + d) as char
    }
}

/// The identity that random bytes make.
pub fn tree_id(bytes: &[u8]) -> (r: String)
    ensures
        r@ == hex(bytes@),
{
    let mut out = String::new();
    let mut i: usize = 0;
    while i < bytes.len()
        invariant
            i <= bytes.len(),
            out@ == hex(bytes@.take(i as int)),
        decreases bytes.len() - i,
    {
        proof {
            assert(bytes@.take(i + 1).drop_last() =~= bytes@.take(i as int));
        }
        out.push(hex_digit(bytes[i] / 16));
        out.push(hex_digit(bytes[i] % 16));
        i = i + 1;
    }
    proof {
        assert(bytes@.take(bytes@.len() as int) =~= bytes@);
    }
    out
}

/// Different bytes make different identities, two characters for each byte.
pub proof fn identities_differ(a: Seq<u8>, b: Seq<u8>)
    ensures
        hex(a).len() == 2 * a.len(),
        hex(b).len() == 2 * b.len(),
        hex(a) == hex(b) ==> a == b,
    decreases a.len() + b.len(),
{
    if a.len() > 0 && b.len() > 0 {
        identities_differ(a.drop_last(), b.drop_last());
        if hex(a) == hex(b) {
            let x = hex(a.drop_last());
            let y = hex(b.drop_last());
            assert(x =~= hex(a).take(x.len() as int));
            assert(y =~= hex(b).take(y.len() as int));
            assert(hex(a)[hex(a).len() - 1] == hex(b)[hex(b).len() - 1]);
            assert(hex(a)[hex(a).len() - 2] == hex(b)[hex(b).len() - 2]);
            assert(a.last() == b.last());
            assert(a =~= a.drop_last().push(a.last()));
            assert(b =~= b.drop_last().push(b.last()));
        }
    } else if a.len() > 0 {
        identities_differ(a.drop_last(), b);
    } else if b.len() > 0 {
        identities_differ(a, b.drop_last());
    } else {
        assert(a =~= b);
    }
}

/// The error of a source of random bytes that cannot be read.
pub fn random_failed(why: &str) -> (r: CoreError)
    ensures
        r@ == error::fault(
            ExitClass::Internal,
            "RANDOM_FAILED"@,
            "could not obtain a tree identity: "@ + why@,
            "retry; if the error persists, inspect /dev/urandom"@,
        ),
{
    let message = "could not obtain a tree identity: ".to_owned().concat(why);
    CoreError::new(
        ExitClass::Internal,
        "RANDOM_FAILED",
        message.as_str(),
        "retry; if the error persists, inspect /dev/urandom",
    )
}

/// The fields of an observation of what a command spent.
pub open spec fn budget_fields(kind: Seq<char>, at: Option<Seq<char>>) -> Seq<
    (Seq<char>, json::Plain),
> {
    seq![
        ("kind"@, json::Plain::Text(kind)),
        (
            "path"@,
            match at {
                Some(p) => json::Plain::Text(p),
                None => json::Plain::Nothing,
            },
        ),
    ]
}

/// The line that records what a command spent.
pub fn trace_budget(kind: &str, at: &Option<String>) -> (r: String)
    ensures
        r@ == json::object_text(budget_fields(kind@, text::opt(*at))) + "\n"@,
{
    let mut record: Vec<(String, Scalar)> = Vec::new();
    record.push(json::field("kind", Scalar::Text(kind.to_owned())));
    let value = match at {
        Some(p) => Scalar::Text(p.clone()),
        None => Scalar::Nothing,
    };
    record.push(json::field("path", value));
    proof {
        assert(json::fields(record@) =~= budget_fields(kind@, text::opt(*at)));
    }
    json::write_object(&record).concat("\n")
}

/// So many logs go that, with the one to come, no more than are kept stay; and none goes
/// where that is so already.
pub proof fn how_many_logs_go(count: int, keep: int)
    requires
        count >= 0,
        keep >= 1,
    ensures
        0 <= excess(count, keep) <= count,
        count - excess(count, keep) + 1 <= keep || count == 0,
        excess(count, keep) > 0 ==> count - excess(count, keep) + 1 == keep,
{
}

/// A file keeps the mode that it has, and anything else gets the one by default.
pub proof fn which_mode_a_file_gets(meta: Option<Meta>, default: u32)
    ensures
        meta matches Some(m) ==> (m.file ==> mode_or(meta, default) == m.mode & 0o777),
        meta matches Some(m) ==> (!m.file ==> mode_or(meta, default) == default),
        meta is None ==> mode_or(meta, default) == default,
{
}

/// A link on the way is found wherever all before it is there, and nothing else stops it.
pub proof fn a_link_on_the_way_is_found(kinds: Seq<PathKind>, from: int)
    requires
        0 <= from,
    ensures
        match first_link(kinds, from) {
            Some(i) => from <= i < kinds.len() && kinds[i] == PathKind::Symlink && forall|k: int|
                from <= k < i ==> #[trigger] kinds[k] != PathKind::Symlink && kinds[k]
                    != PathKind::Missing,
            None => forall|k: int|
                from <= k < kinds.len() && #[trigger] kinds[k] == PathKind::Symlink ==> exists|j: int|
                    from <= j < k && #[trigger] kinds[j] == PathKind::Missing,
        },
    decreases kinds.len() - from,
{
    if from < kinds.len() && kinds[from] != PathKind::Symlink && kinds[from] != PathKind::Missing {
        a_link_on_the_way_is_found(kinds, from + 1);
    }
}

/// A file is a log of a task exactly where its name is what such a log is called.
pub proof fn every_log_of_a_task_is_found(names: Seq<Seq<char>>, prefix: Seq<char>, y: (Seq<char>, Seq<char>))
    ensures
        logs_of(names, prefix).contains(y) <==> (exists|i: int|
            0 <= i < names.len() && stamp_in((#[trigger] names[i]), prefix) == Some(y.0) && y.1 == names[i]),
    decreases names.len(),
{
    let all = logs_of(names, prefix);
    if names.len() > 0 {
        let rest = names.drop_last();
        let some = logs_of(rest, prefix);
        every_log_of_a_task_is_found(rest, prefix, y);
        if all.contains(y) {
            let k = choose|k: int| 0 <= k < all.len() && all[k] == y;
            if k < some.len() {
                assert(some[k] == y);
                let i = choose|i: int| 0 <= i < rest.len() && stamp_in((#[trigger] rest[i]), prefix) == Some(y.0) && y.1 == rest[i];
                assert(names[i] == rest[i]);
            } else {
                assert(stamp_in(names[rest.len() as int], prefix) == Some(y.0) && y.1 == names[rest.len() as int]);
            }
        }
        if exists|i: int| 0 <= i < names.len() && stamp_in((#[trigger] names[i]), prefix) == Some(y.0) && y.1 == names[i] {
            let i = choose|i: int| 0 <= i < names.len() && stamp_in((#[trigger] names[i]), prefix) == Some(y.0) && y.1 == names[i];
            if i < rest.len() {
                assert(rest[i] == names[i]);
                let k = choose|k: int| 0 <= k < some.len() && some[k] == y;
                assert(all[k] == y);
            } else {
                assert(all[all.len() - 1] == y);
            }
        }
    }
}

} // verus!
