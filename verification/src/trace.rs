//! Where the time of a command went, as one line of JSON for each event.
//!
//! A line is written by one append of at most [`MAX_RECORD`] bytes, so commands
//! that run at the same time can share a file without a lock. A line that would be
//! longer is cut.

use vstd::prelude::*;
use vstd::string::*;
use vstd::utf8::*;

use crate::json;
use crate::json::{Plain, Scalar};
use crate::path;
use crate::text;

pub use crate::proc::Outcome;

verus! {

broadcast use vstd::string::group_string_axioms;

/// The most bytes of a line, with its end.
pub const MAX_RECORD: usize = 4096;

/// How large, in bytes, the file may be before it is put aside.
pub const ROTATE_BYTES: u64 = 8_388_608;

// ---------------------------------------------------------------------------
// Lines that fit
// ---------------------------------------------------------------------------

/// How many bytes a text takes.
pub open spec fn byte_len(s: Seq<char>) -> nat
    decreases s.len(),
{
    if s.len() == 0 {
        0
    } else {
        byte_len(s.drop_last()) + encode_scalar(s.last() as u32).len()
    }
}

/// The longest beginning of a text that takes at most so many bytes.
pub open spec fn fit(s: Seq<char>, limit: nat) -> Seq<char>
    decreases s.len(),
{
    if s.len() == 0 || byte_len(s) <= limit {
        s
    } else {
        fit(s.drop_last(), limit)
    }
}

proof fn lemma_encode_push(s: Seq<char>, c: char)
    ensures
        encode_utf8(s.push(c)) == encode_utf8(s) + encode_scalar(c as u32),
    decreases s.len(),
{
    if s.len() == 0 {
        assert(s.push(c).drop_first() =~= Seq::<char>::empty());
        assert(encode_utf8(Seq::<char>::empty()) =~= Seq::<u8>::empty());
        assert(encode_utf8(s) =~= Seq::<u8>::empty());
        assert(encode_utf8(s.push(c)) =~= encode_scalar(c as u32));
    } else {
        lemma_encode_push(s.drop_first(), c);
        assert(s.push(c).drop_first() =~= s.drop_first().push(c));
        assert(encode_utf8(s.push(c)) =~= encode_utf8(s) + encode_scalar(c as u32));
    }
}

/// The bytes that a text takes are those of its encoding.
pub proof fn byte_len_is_encoded_len(s: Seq<char>)
    ensures
        byte_len(s) == encode_utf8(s).len(),
    decreases s.len(),
{
    if s.len() > 0 {
        byte_len_is_encoded_len(s.drop_last());
        lemma_encode_push(s.drop_last(), s.last());
        assert(s.drop_last().push(s.last()) =~= s);
    }
}

proof fn lemma_byte_len_grows(s: Seq<char>, n: int)
    requires
        0 <= n <= s.len(),
    ensures
        byte_len(s.take(n)) <= byte_len(s),
    decreases s.len(),
{
    if n == s.len() {
        assert(s.take(n) =~= s);
    } else {
        lemma_byte_len_grows(s.drop_last(), n);
        assert(s.drop_last().take(n) =~= s.take(n));
    }
}

proof fn lemma_fit(s: Seq<char>, n: int, limit: nat)
    requires
        0 <= n <= s.len(),
        byte_len(s.take(n)) <= limit,
        n < s.len() ==> byte_len(s.take(n + 1)) > limit,
    ensures
        fit(s, limit) == s.take(n),
    decreases s.len(),
{
    if n == s.len() {
        assert(s.take(n) =~= s);
    } else {
        lemma_byte_len_grows(s, n + 1);
        let rest = s.drop_last();
        assert(rest.take(n) =~= s.take(n));
        if n < rest.len() {
            assert(rest.take(n + 1) =~= s.take(n + 1));
        }
        lemma_fit(rest, n, limit);
    }
}

fn width(c: char) -> (r: usize)
    ensures
        r == encode_scalar(c as u32).len(),
{
    proof {
        char_is_scalar(c);
    }
    let v: u32 = c as u32;
    if v <= 0x7f {
        1
    } else if v <= 0x7ff {
        2
    } else if v <= 0xffff {
        3
    } else {
        4
    }
}

fn fitted(s: &str, limit: usize) -> (r: String)
    ensures
        r@ == fit(s@, limit as nat),
{
    let a = text::chars_of(s);
    let mut i: usize = 0;
    let mut total: usize = 0;
    proof {
        assert(a@.take(0) =~= Seq::<char>::empty());
    }
    while i < a.len() && width(a[i]) <= limit - total
        invariant
            i <= a.len(),
            a@ == s@,
            total <= limit,
            total == byte_len(a@.take(i as int)),
        decreases a.len() - i,
    {
        proof {
            assert(a@.take(i + 1).drop_last() =~= a@.take(i as int));
        }
        total = total + width(a[i]);
        i = i + 1;
    }
    proof {
        if i < a@.len() {
            assert(a@.take(i + 1).drop_last() =~= a@.take(i as int));
        }
        lemma_fit(a@, i as int, limit as nat);
        assert(a@.subrange(0, i as int) =~= a@.take(i as int));
    }
    text::slice(&a, 0, i)
}

proof fn lemma_fit_is_prefix(s: Seq<char>, limit: nat)
    ensures
        byte_len(fit(s, limit)) <= limit,
        fit(s, limit).len() <= s.len(),
        fit(s, limit) == s.take(fit(s, limit).len() as int),
    decreases s.len(),
{
    if s.len() == 0 || byte_len(s) <= limit {
        assert(s.take(s.len() as int) =~= s);
    } else {
        lemma_fit_is_prefix(s.drop_last(), limit);
        let n = fit(s, limit).len() as int;
        assert(s.drop_last().take(n) =~= s.take(n));
    }
}

// ---------------------------------------------------------------------------
// Events
// ---------------------------------------------------------------------------

/// A child process that is being timed.
#[derive(Debug)]
pub struct Child {
    pub name: String,
    pub op: Option<String>,
}

/// The last part of a program's path, or the program where it has none.
pub open spec fn program_name(program: Seq<char>) -> Seq<char> {
    match path::name_of(program) {
        Some(name) => name,
        None => program,
    }
}

fn short_name(program: &str) -> (r: String)
    ensures
        r@ == program_name(program@),
{
    match path::file_name(program) {
        Some(name) => name,
        None => program.to_owned(),
    }
}

/// Begins to time a child; `op` is what it does, where the command composed it.
pub fn spawn(program: &str, op: Option<&str>) -> (r: Child)
    ensures
        r.name@ == program_name(program@),
        text::opt(r.op) == match op {
            Some(o) => Some(o@),
            None => None,
        },
{
    Child {
        name: short_name(program),
        op: match op {
            Some(o) => Some(o.to_owned()),
            None => None,
        },
    }
}

/// The field that says how a child ended.
pub open spec fn outcome_field(outcome: Outcome) -> (Seq<char>, Plain) {
    match outcome {
        Outcome::Code(code) => ("code"@, Plain::Whole(code as i64)),
        Outcome::TimedOut => ("outcome"@, Plain::Text("timeout"@)),
        Outcome::Failed => ("outcome"@, Plain::Text("failed"@)),
        Outcome::Detached => ("outcome"@, Plain::Text("detached"@)),
    }
}

impl Child {
    /// The fields of the record of a child.
    pub open spec fn fields(&self, outcome: Outcome) -> Seq<(Seq<char>, Plain)> {
        match self.op {
            Some(op) => seq![
                ("name"@, Plain::Text(self.name@)),
                ("op"@, Plain::Text(op@)),
                outcome_field(outcome),
            ],
            None => seq![("name"@, Plain::Text(self.name@)), outcome_field(outcome)],
        }
    }

    /// The record of the child and how it ended.
    pub fn finish(self, outcome: Outcome) -> (r: Vec<(String, Scalar)>)
        ensures
            json::fields(r@) == self.fields(outcome),
    {
        let ghost want = self.fields(outcome);
        let mut record: Vec<(String, Scalar)> = Vec::new();
        record.push(json::field("name", Scalar::Text(self.name)));
        if let Some(op) = self.op {
            record.push(json::field("op", Scalar::Text(op)));
        }
        match outcome {
            Outcome::Code(code) => {
                record.push(json::field("code", Scalar::Whole(code as i64)));
            },
            Outcome::TimedOut => {
                record.push(json::field("outcome", Scalar::Text("timeout".to_owned())));
            },
            Outcome::Failed => {
                record.push(json::field("outcome", Scalar::Text("failed".to_owned())));
            },
            Outcome::Detached => {
                record.push(json::field("outcome", Scalar::Text("detached".to_owned())));
            },
        }
        proof {
            assert(json::fields(record@) =~= want);
        }
        record
    }
}

/// A stretch of work that is being timed.
#[derive(Debug)]
pub struct Span {
    pub kind: String,
    pub name: String,
    pub subject: Option<String>,
}

/// Begins to time a stretch of work that is no single child.
pub fn span(kind: &str, name: &str) -> (r: Span)
    ensures
        r.kind@ == kind@,
        r.name@ == name@,
        r.subject is None,
{
    Span { kind: kind.to_owned(), name: name.to_owned(), subject: None }
}

impl Span {
    /// The same about a subject.
    pub fn about(self, subject: &str) -> (r: Self)
        ensures
            r.kind == self.kind,
            r.name == self.name,
            text::opt(r.subject) == Some(subject@),
    {
        Span { kind: self.kind, name: self.name, subject: Some(subject.to_owned()) }
    }

    /// The fields of the record of a stretch of work.
    pub open spec fn fields(&self) -> Seq<(Seq<char>, Plain)> {
        match self.subject {
            Some(subject) => seq![
                ("name"@, Plain::Text(self.name@)),
                ("subject"@, Plain::Text(subject@)),
            ],
            None => seq![("name"@, Plain::Text(self.name@))],
        }
    }

    /// The record of the stretch of work.
    pub fn finish(self) -> (r: Vec<(String, Scalar)>)
        ensures
            json::fields(r@) == self.fields(),
    {
        let ghost want = self.fields();
        let mut record: Vec<(String, Scalar)> = Vec::new();
        record.push(json::field("name", Scalar::Text(self.name)));
        if let Some(subject) = self.subject {
            record.push(json::field("subject", Scalar::Text(subject)));
        }
        proof {
            assert(json::fields(record@) =~= want);
        }
        record
    }
}

/// The log of one command.
#[derive(Debug)]
pub struct Sink {
    pub path: String,
    pub run: String,
    pub command: String,
    pub seq: u64,
}

/// The name of one run: the beginning of a random identity, or the process where
/// there is none.
pub open spec fn run_name(id: Option<Seq<char>>, pid: u32) -> Seq<char> {
    match id {
        Some(id) => if id.len() > 8 {
            id.take(8)
        } else {
            id
        },
        None => text::decimal(pid as nat),
    }
}

/// The name of one run.
pub fn run_id(id: &Option<String>, pid: u32) -> (r: String)
    ensures
        r@ == run_name(text::opt(*id), pid),
{
    match id {
        Some(id) => {
            let a = text::chars_of(id.as_str());
            if a.len() > 8 {
                proof {
                    assert(a@.subrange(0, 8) =~= a@.take(8));
                }
                text::slice(&a, 0, 8)
            } else {
                id.clone()
            }
        },
        None => text::decimal_of(pid as u64),
    }
}

/// Begins the log of a command, where it is wanted.
pub fn open(home: &str, command: &str, enabled: bool, id: &Option<String>, pid: u32) -> (r: Option<
    Sink,
>)
    ensures
        begins(r, home@, command@, enabled, text::opt(*id), pid),
{
    if enabled {
        Some(
            Sink {
                path: path::join(home, "logs/wt.jsonl"),
                run: run_id(id, pid),
                command: command.to_owned(),
                seq: 0,
            },
        )
    } else {
        None
    }
}

/// Whether a log is the one that a command begins.
pub open spec fn begins(
    sink: Option<Sink>,
    home: Seq<char>,
    command: Seq<char>,
    enabled: bool,
    id: Option<Seq<char>>,
    pid: u32,
) -> bool {
    &&& sink is Some == enabled
    &&& sink matches Some(s) ==> {
        &&& s.path@ == path::joined(home, "logs/wt.jsonl"@)
        &&& s.run@ == run_name(id, pid)
        &&& s.command@ == command
        &&& s.seq == 0
    }
}

/// The log of a process, once it was opened, where it is wanted.
#[derive(Debug)]
pub struct Recorder {
    pub opened: bool,
    pub sink: Option<Sink>,
}

/// Whether opening a log leads from one state to another: only the first opening does
/// anything.
pub open spec fn opens(
    before: Recorder,
    after: Recorder,
    home: Seq<char>,
    command: Seq<char>,
    enabled: bool,
    id: Option<Seq<char>>,
    pid: u32,
) -> bool {
    if before.opened {
        after == before
    } else {
        after.opened && begins(after.sink, home, command, enabled, id, pid)
    }
}

impl Recorder {
    /// A process whose log was not opened yet.
    pub fn new() -> (r: Self)
        ensures
            !r.opened,
            r.sink is None,
    {
        Recorder { opened: false, sink: None }
    }

    /// Begins the log of the process, where it is wanted; says whether this was the
    /// first opening, which alone counts.
    pub fn open(&mut self, home: &str, command: &str, enabled: bool, id: &Option<String>, pid: u32) -> (r:
        bool)
        ensures
            r == !old(self).opened,
            opens(*old(self), *final(self), home@, command@, enabled, text::opt(*id), pid),
    {
        if self.opened {
            return false;
        }
        self.opened = true;
        self.sink = open(home, command, enabled, id, pid);
        true
    }
}

/// Only the first opening of a process counts: whatever later ones ask for, the log
/// stays as the first left it, and where that wanted none, none is kept.
pub proof fn only_the_first_opening_counts(
    states: Seq<Recorder>,
    homes: Seq<Seq<char>>,
    commands: Seq<Seq<char>>,
    enabled: Seq<bool>,
    ids: Seq<Option<Seq<char>>>,
    pids: Seq<u32>,
    k: int,
)
    requires
        !states[0].opened,
        1 <= k < states.len(),
        forall|i: int|
            0 <= i < states.len() - 1 ==> opens(
                #[trigger] states[i],
                states[i + 1],
                homes[i],
                commands[i],
                enabled[i],
                ids[i],
                pids[i],
            ),
    ensures
        states[k] == states[1],
        states[k].opened,
        begins(states[k].sink, homes[0], commands[0], enabled[0], ids[0], pids[0]),
    decreases k,
{
    assert(opens(states[0], states[1], homes[0], commands[0], enabled[0], ids[0], pids[0]));
    if k > 1 {
        only_the_first_opening_counts(states, homes, commands, enabled, ids, pids, k - 1);
        let i = k - 1;
        assert(opens(states[i], states[i + 1], homes[i], commands[i], enabled[i], ids[i], pids[i]));
    }
}

/// Whether the file is put aside before a command begins, of how large it is where
/// it is there.
pub fn rotate(len: Option<u64>) -> (r: bool)
    ensures
        r == (len matches Some(n) && n > ROTATE_BYTES),
{
    match len {
        Some(n) => n > ROTATE_BYTES,
        None => false,
    }
}

/// The fields that every record begins with.
pub open spec fn head(sink: Sink, time: Seq<char>, pid: u32, kind: Seq<char>) -> Seq<
    (Seq<char>, Plain),
> {
    seq![
        ("v"@, Plain::Natural(1)),
        ("t"@, Plain::Text(time)),
        ("run"@, Plain::Text(sink.run@)),
        ("seq"@, Plain::Natural(sink.seq)),
        ("pid"@, Plain::Natural(pid as u64)),
        ("cmd"@, Plain::Text(sink.command@)),
        ("kind"@, Plain::Text(kind)),
    ]
}

/// A record as a line: as much of it as fits, and the end of the line.
pub open spec fn line_of(record: Seq<(Seq<char>, Plain)>) -> Seq<char> {
    fit(json::object_text(record), (MAX_RECORD - 1) as nat).push('\n')
}

impl Sink {
    /// The fields of the record of a command that ended with a status.
    pub open spec fn done_fields(&self, exit: i32) -> Seq<(Seq<char>, Plain)> {
        seq![("name"@, Plain::Text(self.command@)), ("code"@, Plain::Whole(exit as i64))]
    }

    /// The record of a command that ended with a status.
    pub fn command_done(&self, exit: i32) -> (r: Vec<(String, Scalar)>)
        ensures
            json::fields(r@) == self.done_fields(exit),
    {
        let mut record: Vec<(String, Scalar)> = Vec::new();
        record.push(json::field("name", Scalar::Text(self.command.clone())));
        record.push(json::field("code", Scalar::Whole(exit as i64)));
        proof {
            assert(json::fields(record@) =~= self.done_fields(exit));
        }
        record
    }

    /// The fields of the record of a command that became another program.
    pub open spec fn handoff_fields(&self, program: Seq<char>) -> Seq<(Seq<char>, Plain)> {
        seq![
            ("name"@, Plain::Text(self.command@)),
            ("outcome"@, Plain::Text("exec"@)),
            ("exec"@, Plain::Text(program_name(program))),
        ]
    }

    /// The record of a command that becomes another program, which is its end.
    pub fn command_handoff(&self, program: &str) -> (r: Vec<(String, Scalar)>)
        ensures
            json::fields(r@) == self.handoff_fields(program@),
    {
        let mut record: Vec<(String, Scalar)> = Vec::new();
        record.push(json::field("name", Scalar::Text(self.command.clone())));
        record.push(json::field("outcome", Scalar::Text("exec".to_owned())));
        record.push(json::field("exec", Scalar::Text(short_name(program))));
        proof {
            assert(json::fields(record@) =~= self.handoff_fields(program@));
        }
        record
    }

    /// The line of an event that took so many milliseconds. Each line of a command
    /// has the next number. A line is one line, and fits.
    pub fn emit(
        &mut self,
        time: &str,
        pid: u32,
        kind: &str,
        ms: u64,
        record: Vec<(String, Scalar)>,
    ) -> (r: String)
        ensures
            r@ == line_of(
                (head(*old(self), time@, pid, kind@) + json::fields(record@)).push(
                    ("ms"@, Plain::Natural(ms)),
                ),
            ),
            r@.last() == '\n',
            forall|i: int| 0 <= i < r@.len() - 1 ==> r@[i] != '\n',
            encode_utf8(r@).len() <= MAX_RECORD,
            final(self).path == old(self).path,
            final(self).run == old(self).run,
            final(self).command == old(self).command,
            final(self).seq == (if old(self).seq == u64::MAX {
                0
            } else {
                old(self).seq + 1
            }),
    {
        let ghost want = (head(*self, time@, pid, kind@) + json::fields(record@)).push(
            ("ms"@, Plain::Natural(ms)),
        );
        let ghost more = json::fields(record@);
        let mut all: Vec<(String, Scalar)> = Vec::new();
        all.push(json::field("v", Scalar::Natural(1)));
        all.push(json::field("t", Scalar::Text(time.to_owned())));
        all.push(json::field("run", Scalar::Text(self.run.clone())));
        all.push(json::field("seq", Scalar::Natural(self.seq)));
        all.push(json::field("pid", Scalar::Natural(pid as u64)));
        all.push(json::field("cmd", Scalar::Text(self.command.clone())));
        all.push(json::field("kind", Scalar::Text(kind.to_owned())));
        proof {
            assert(json::fields(all@) =~= head(*self, time@, pid, kind@));
        }
        let ghost front = json::fields(all@);
        let mut record = record;
        all.append(&mut record);
        all.push(json::field("ms", Scalar::Natural(ms)));
        proof {
            assert(json::fields(all@) =~= want);
        }
        self.seq = if self.seq == u64::MAX {
            0
        } else {
            self.seq + 1
        };
        let whole = json::write_object(&all);
        let mut line = fitted(whole.as_str(), MAX_RECORD - 1);
        let ghost cut = line@;
        line.push('\n');
        proof {
            lemma_fit_is_prefix(whole@, (MAX_RECORD - 1) as nat);
            assert forall|i: int| 0 <= i < line@.len() - 1 implies line@[i] != '\n' by {
                assert(line@[i] == whole@[i]);
                assert(whole@.contains(whole@[i]));
            }
            byte_len_is_encoded_len(cut);
            byte_len_is_encoded_len(line@);
            assert(line@.drop_last() =~= cut);
            assert(encode_scalar('\n' as u32).len() == 1);
        }
        line
    }
}

/// A text that fits stays whole; one that does not is cut at its end, to as much as fits.
pub proof fn as_much_as_fits_stays(s: Seq<char>, limit: nat)
    ensures
        byte_len(s) <= limit ==> fit(s, limit) == s,
        fit(s, limit).len() <= s.len(),
        byte_len(fit(s, limit)) <= limit,
        fit(s, limit) == s.take(fit(s, limit).len() as int),
        fit(s, limit).len() < s.len() ==> byte_len(s.take(fit(s, limit).len() as int + 1)) > limit,
    decreases s.len(),
{
    if s.len() == 0 {
        assert(s.take(0) =~= s);
    } else if byte_len(s) <= limit {
        assert(s.take(s.len() as int) =~= s);
    } else {
        let t = s.drop_last();
        as_much_as_fits_stays(t, limit);
        let n = fit(t, limit).len() as int;
        assert(t.take(n) =~= s.take(n));
        if n < t.len() {
            assert(t.take(n + 1) =~= s.take(n + 1));
        } else {
            assert(s.take(n + 1) =~= s);
        }
    }
}

} // verus!
