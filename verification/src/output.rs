//! What a command says: notices, errors, and the status it ends with.

use vstd::prelude::*;
use vstd::string::*;

use crate::error::{CoreError, Details, Fault, Told};
use crate::order;
use crate::order::Keyed;
use crate::path;
use crate::text;

verus! {

broadcast use vstd::string::group_string_axioms;

/// How much a notice matters.
#[derive(Clone, Copy, Debug, PartialEq, Eq, Structural)]
pub enum NoticeLevel {
    Info,
    Warn,
}

/// Something worth saying that is no error.
#[derive(Debug)]
pub struct Notice {
    pub level: NoticeLevel,
    pub code: String,
    pub subject: Option<String>,
    pub message: String,
}

/// What a notice says.
#[verifier::ext_equal]
pub struct Said {
    pub level: NoticeLevel,
    pub code: Seq<char>,
    pub subject: Option<Seq<char>>,
    pub message: Seq<char>,
}

impl View for Notice {
    type V = Said;

    open spec fn view(&self) -> Said {
        Said {
            level: self.level,
            code: self.code@,
            subject: text::opt(self.subject),
            message: self.message@,
        }
    }
}

/// What notices say.
pub open spec fn said(notices: Seq<Notice>) -> Seq<Said> {
    notices.map_values(|n: Notice| n@)
}

/// A notice with the given parts about something.
pub open spec fn about(
    level: NoticeLevel,
    code: Seq<char>,
    subject: Seq<char>,
    message: Seq<char>,
) -> Said {
    Said { level, code, subject: Some(subject), message }
}

/// A notice with the given parts about something.
pub fn notice(level: NoticeLevel, code: &str, subject: &str, message: &str) -> (r: Notice)
    ensures
        r@ == about(level, code@, subject@, message@),
{
    Notice {
        level,
        code: code.to_owned(),
        subject: Some(subject.to_owned()),
        message: message.to_owned(),
    }
}

/// The place of a level among levels.
pub open spec fn level_rank(level: NoticeLevel) -> int {
    match level {
        NoticeLevel::Info => 0,
        NoticeLevel::Warn => 1,
    }
}

impl Keyed for Notice {
    open spec fn key(&self) -> Seq<Seq<int>> {
        seq![
            seq![level_rank(self.level)],
            order::ranks(self.code@),
            order::option_rank(text::opt(self.subject)),
            order::ranks(self.message@),
        ]
    }

    fn sort_key(&self) -> (r: Vec<Vec<u64>>) {
        let rank: u64 = match self.level {
            NoticeLevel::Info => 0,
            NoticeLevel::Warn => 1,
        };
        let mut key: Vec<Vec<u64>> = Vec::new();
        key.push(order::number_part(rank));
        key.push(order::text_part(self.code.as_str()));
        key.push(order::option_part(&self.subject));
        key.push(order::text_part(self.message.as_str()));
        proof {
            assert(order::key_view(key@) =~= self.key());
        }
        key
    }
}

/// Adds notices to those that there are: all of them, by level, code, subject and
/// message.
pub fn with_notices(notices: Vec<Notice>, more: Vec<Notice>) -> (r: Vec<Notice>)
    ensures
        r@ == order::sorted(notices@ + more@),
{
    let mut all = notices;
    let mut more = more;
    all.append(&mut more);
    order::sort(all)
}

// ---------------------------------------------------------------------------
// What is written
// ---------------------------------------------------------------------------

/// When text is coloured.
#[derive(Clone, Copy, Debug, PartialEq, Eq, Structural)]
pub enum Color {
    Always,
    Auto,
    Never,
}

/// Whether text is coloured.
pub fn coloured(color: Color, stderr_is_terminal: bool) -> (r: bool)
    ensures
        r == (color == Color::Always || (color == Color::Auto && stderr_is_terminal)),
{
    color == Color::Always || (color == Color::Auto && stderr_is_terminal)
}

/// Whether a notice is shown: one about the choice of a backend never is, and the
/// others are to someone who watches or who asked for more, unless quiet is kept.
pub open spec fn shown(code: Seq<char>, quiet: bool, terminal: bool, verbose: bool) -> bool {
    code != "SESSION_BACKEND_SELECTED"@ && !quiet && (terminal || verbose)
}

/// Whether a notice is shown.
pub fn notice_shown(code: &str, quiet: bool, terminal: bool, verbose: bool) -> (r: bool)
    ensures
        r == shown(code@, quiet, terminal, verbose),
{
    !text::same(code, "SESSION_BACKEND_SELECTED") && !quiet && (terminal || verbose)
}

/// A code in a colour, where text is coloured.
pub open spec fn painted(code: Seq<char>, paint: Seq<char>, color: bool) -> Seq<char> {
    if color {
        paint + code + "\u{1b}[0m"@
    } else {
        code
    }
}

fn dyed(code: &str, paint: &str, color: bool) -> (r: String)
    ensures
        r@ == painted(code@, paint@, color),
{
    if color {
        paint.to_owned().concat(code).concat("\u{1b}[0m")
    } else {
        code.to_owned()
    }
}

/// The line that a notice is shown as.
pub fn notice_line(code: &str, message: &str, color: bool) -> (r: String)
    ensures
        r@ == "wt: "@ + painted(code@, "\u{1b}[33m"@, color) + " — "@ + message@,
{
    let code = dyed(code, "\u{1b}[33m", color);
    "wt: ".to_owned().concat(code.as_str()).concat(" — ").concat(message)
}

/// The two lines that an error is shown as: what it is, and what to do.
pub fn error_lines(e: &CoreError, color: bool) -> (r: (String, String))
    ensures
        r.0@ == "wt: "@ + painted(e@.code, "\u{1b}[31m"@, color) + " — "@ + e@.message,
        r.1@ == "remedy: "@ + e@.remedy,
{
    let code = dyed(e.code.as_str(), "\u{1b}[31m", color);
    (
        "wt: ".to_owned().concat(code.as_str()).concat(" — ").concat(e.message.as_str()),
        "remedy: ".to_owned().concat(e.remedy.as_str()),
    )
}

/// The line that a session which could not be made is shown as.
pub fn session_warning(target: &str, message: &str) -> (r: String)
    ensures
        r@ == "wt: SESSION_CREATE_FAILED — session for "@ + target@ + " was not created: "@
            + message@ + "; run `wt open "@ + target@ + "` to retry"@,
{
    "wt: SESSION_CREATE_FAILED — session for ".to_owned().concat(target).concat(
        " was not created: ",
    ).concat(message).concat("; run `wt open ").concat(target).concat("` to retry")
}

/// A text as it is written: with a line end, and nothing of nothing.
pub open spec fn written(s: Seq<char>) -> Seq<char> {
    if s.len() == 0 || s.last() == '\n' {
        s
    } else {
        s.push('\n')
    }
}

/// A text as it is written out.
pub fn stdout_text(s: &str) -> (r: String)
    ensures
        r@ == written(s@),
{
    let chars = text::chars_of(s);
    if chars.len() == 0 || chars[chars.len() - 1] == '\n' {
        s.to_owned()
    } else {
        let mut out = s.to_owned();
        out.push('\n');
        out
    }
}

/// What is written ends its last line, and writing it again adds nothing.
pub proof fn written_text_ends_its_line(s: Seq<char>)
    ensures
        written(s).len() > 0 ==> written(s).last() == '\n',
        written(written(s)) == written(s),
        text::starts(written(s), s),
{
    assert(written(s).take(s.len() as int) =~= s);
}

// ---------------------------------------------------------------------------
// The status
// ---------------------------------------------------------------------------

/// Whether a command hands on the status of the task that it runs.
pub open spec fn runs_a_task(command: Seq<char>) -> bool {
    command == "run"@ || command == "test"@ || command == "lint"@ || command == "fmt"@ || command
        == "build"@
}

/// The status of a task that failed: its own code, or that of its signal.
pub open spec fn child_status(details: Told, own: i32) -> int {
    match details {
        Told::Child(child) => match (child.code, child.signal) {
            (Some(code), _) => code as int,
            (None, Some(signal)) => 128 + signal,
            (None, None) => own as int,
        },
        _ => own as int,
    }
}

/// The status that an error ends a command with; `own` is that of its class.
pub open spec fn exit_status(command: Seq<char>, as_json: bool, e: Fault, own: i32) -> int {
    if !as_json && runs_a_task(command) && e.code == "TASK_FAILED"@ {
        child_status(e.details, own)
    } else {
        own as int
    }
}

/// The status that an error ends a command with, of what the error tells of a
/// child. A signal's number is taken to leave room for what is added to it.
pub fn exit_of(command: &str, as_json: bool, e: &CoreError, own: i32) -> (r: i32)
    requires
        e.details matches Details::Child(child) ==> child.valid(),
    ensures
        r == exit_status(command@, as_json, e@, own),
{
    let task = text::same(command, "run") || text::same(command, "test") || text::same(
        command,
        "lint",
    ) || text::same(command, "fmt") || text::same(command, "build");
    if !as_json && task && text::same(e.code.as_str(), "TASK_FAILED") {
        match &e.details {
            Details::Child(child) => match (child.code, child.signal) {
                (Some(code), _) => code,
                (None, Some(signal)) => 128 + signal,
                (None, None) => own,
            },
            _ => own,
        }
    } else {
        own
    }
}

// ---------------------------------------------------------------------------
// The record of a build
// ---------------------------------------------------------------------------

/// Whether a path is that of the record of a build below a tree's root.
pub open spec fn is_build_record(p: Seq<char>, root: Option<Seq<char>>) -> bool {
    path::name_of(p) == Some("build.status"@) && (path::parent_of(p) matches Some(dir)
        && path::name_of(dir) == Some(".wt"@) && (root matches Some(r) && path::same_path(
        dir,
        path::joined(r, ".wt"@),
    )))
}

fn is_named(p: &str, name: &str) -> (r: bool)
    ensures
        r == (path::name_of(p@) == Some(name@)),
{
    match path::file_name(p) {
        Some(own) => text::same(own.as_str(), name),
        None => false,
    }
}

/// Whether a path that was handed in is that of the record of a build.
pub fn valid_background_build_status(p: &str, root: &Option<String>) -> (r: bool)
    ensures
        r == is_build_record(p@, text::opt(*root)),
{
    if !is_named(p, "build.status") {
        return false;
    }
    match path::parent(p) {
        Some(dir) => {
            if !is_named(dir.as_str(), ".wt") {
                return false;
            }
            match root {
                Some(r) => {
                    let below = path::join(r.as_str(), ".wt");
                    path::same(dir.as_str(), below.as_str())
                },
                None => false,
            }
        },
        None => false,
    }
}

/// Where a build is recorded: at the path that was handed in, where that is the
/// record of a build, or nowhere; else in the tree, where it has a build on record.
pub open spec fn build_record(
    given: Option<Seq<char>>,
    root: Option<Seq<char>>,
    tree: Option<Seq<char>>,
) -> Option<Seq<char>> {
    match given {
        Some(p) => if is_build_record(p, root) {
            Some(p)
        } else {
            None
        },
        None => match tree {
            Some(t) => Some(path::joined(t, ".wt/build.status"@)),
            None => None,
        },
    }
}

/// Where a build is recorded; `tree` is the path of the tree, where it has a build
/// on record.
pub fn build_status_path(given: &Option<String>, root: &Option<String>, tree: &Option<String>) -> (r:
    Option<String>)
    ensures
        text::opt(r) == build_record(text::opt(*given), text::opt(*root), text::opt(*tree)),
{
    match given {
        Some(p) => if valid_background_build_status(p.as_str(), root) {
            Some(p.clone())
        } else {
            None
        },
        None => match tree {
            Some(t) => Some(path::join(t.as_str(), ".wt/build.status")),
            None => None,
        },
    }
}

/// What is recorded of a build that has ended.
pub fn build_result(ok: bool) -> (r: &'static str)
    ensures
        r@ == if ok {
            "ok\n"@
        } else {
            "failed\n"@
        },
{
    if ok {
        "ok\n"
    } else {
        "failed\n"
    }
}

/// What a command ends with: the status of its task exactly where it runs one, the task is
/// what failed, and it does not tell a machine; and else its own.
pub proof fn what_a_command_ends_with(command: Seq<char>, as_json: bool, e: Fault, own: i32)
    ensures
        as_json || e.code != "TASK_FAILED"@ || !(command == "run"@ || command == "test"@ || command
            == "lint"@ || command == "fmt"@ || command == "build"@) ==> exit_status(
            command,
            as_json,
            e,
            own,
        ) == own,
        !as_json && e.code == "TASK_FAILED"@ && (command == "run"@ || command == "test"@ || command
            == "lint"@ || command == "fmt"@ || command == "build"@) ==> (e.details
            matches Told::Child(child) ==> {
            &&& child.code matches Some(code) ==> exit_status(command, as_json, e, own) == code
            &&& child.code is None && child.signal is Some ==> exit_status(command, as_json, e, own)
                - child.signal->0 == 128
            &&& child.code is None && child.signal is None ==> exit_status(command, as_json, e, own)
                == own
        }),
{
}

/// A notice is shown to someone at a terminal or who asked for more, unless it is to be
/// quiet; which backend was chosen is not shown at all.
pub proof fn which_notices_are_shown(code: Seq<char>, quiet: bool, terminal: bool, verbose: bool)
    ensures
        shown(code, quiet, terminal, verbose) <==> code != "SESSION_BACKEND_SELECTED"@ && !quiet
            && !(!terminal && !verbose),
        shown(code, quiet, terminal, verbose) ==> shown(code, quiet, true, verbose) && shown(
            code,
            quiet,
            terminal,
            true,
        ),
{
}

} // verus!
