//! Child processes: what to run, when a wait ends, how an end is read, and
//! what an owned command does when it is invoked through its shim.

use vstd::prelude::*;
use vstd::string::*;

use crate::assoc::Assoc;
use crate::error;
use crate::error::{CoreError, ExitClass};
use crate::json;
use crate::path;
use crate::text;

verus! {

broadcast use vstd::string::group_string_axioms;

/// How long, in milliseconds, a child may take to end after it was asked to.
pub const TERM_GRACE: u64 = 5000;

/// The exit status of an owned command that was refused.
pub const SHIM_REFUSED: i32 = 5;

// ---------------------------------------------------------------------------
// Requests
// ---------------------------------------------------------------------------

/// A command after its templates were expanded.
#[derive(Debug)]
pub enum ExpandedCommand {
    Shell { shell: String },
    Argv { argv: Vec<String> },
}

/// What to run.
#[derive(Debug)]
pub struct CommandRequest {
    pub program: String,
    pub args: Vec<String>,
    pub cwd: Option<String>,
    pub env: Assoc<String>,
    pub remove_env: Vec<String>,
    pub clear_env: bool,
}

/// The strings as owned arguments.
pub fn os_args(values: &[&str]) -> (r: Vec<String>)
    ensures
        r@.len() == values@.len(),
        forall|i: int| 0 <= i < r@.len() ==> (#[trigger] r@[i])@ == values@[i]@,
{
    let mut out: Vec<String> = Vec::new();
    let mut i: usize = 0;
    while i < values.len()
        invariant
            i <= values.len(),
            out@.len() == i,
            forall|k: int| 0 <= k < i ==> (#[trigger] out@[k])@ == values@[k]@,
        decreases values.len() - i,
    {
        out.push(values[i].to_owned());
        i = i + 1;
    }
    out
}

/// A copy of a list of strings.
pub fn copy_texts(values: &Vec<String>) -> (r: Vec<String>)
    ensures
        text::texts(r@) == text::texts(values@),
        r@.len() == values@.len(),
{
    let mut out: Vec<String> = Vec::new();
    let mut i: usize = 0;
    while i < values.len()
        invariant
            i <= values.len(),
            out@.len() == i,
            forall|k: int| 0 <= k < i ==> (#[trigger] out@[k])@ == values@[k]@,
        decreases values.len() - i,
    {
        out.push(values[i].clone());
        i = i + 1;
    }
    proof {
        assert(text::texts(out@) =~= text::texts(values@));
    }
    out
}

/// Arguments in the order in which they are given.
#[derive(Debug)]
pub struct Args {
    pub list: Vec<String>,
}

impl View for Args {
    type V = Seq<Seq<char>>;

    open spec fn view(&self) -> Seq<Seq<char>> {
        text::texts(self.list@)
    }
}

impl Args {
    /// No arguments.
    pub fn none() -> (r: Self)
        ensures
            r@ == Seq::<Seq<char>>::empty(),
    {
        let r = Args { list: Vec::new() };
        proof {
            assert(r@ =~= Seq::<Seq<char>>::empty());
        }
        r
    }

    /// These arguments and one more.
    pub fn and(self, value: &str) -> (r: Self)
        ensures
            r@ == self@.push(value@),
    {
        let ghost before = self@;
        let mut list = self.list;
        list.push(value.to_owned());
        let r = Args { list };
        proof {
            assert(r@ =~= before.push(value@));
        }
        r
    }

    /// These arguments and all of a list.
    pub fn and_all(self, values: &Vec<String>) -> (r: Self)
        ensures
            r@ == self@ + text::texts(values@),
    {
        let ghost before = self@;
        let ghost all = text::texts(values@);
        let mut r = self;
        let mut i: usize = 0;
        proof {
            assert(before + all.take(0) =~= before);
        }
        while i < values.len()
            invariant
                i <= values.len(),
                all == text::texts(values@),
                r@ == before + all.take(i as int),
            decreases values.len() - i,
        {
            r = r.and(values[i].as_str());
            proof {
                assert(before + all.take(i + 1) =~= (before + all.take(i as int)).push(
                    all[i as int],
                ));
            }
            i = i + 1;
        }
        proof {
            assert(all.take(values@.len() as int) =~= all);
        }
        r
    }
}

impl CommandRequest {
    /// A program without arguments, in the environment and directory of its
    /// caller.
    pub fn new(program: &str) -> (r: Self)
        ensures
            r.program@ == program@,
            r.args@.len() == 0,
            r.cwd is None,
            r.env.wf(),
            r.env@ == Map::<Seq<char>, String>::empty(),
            r.remove_env@.len() == 0,
            !r.clear_env,
    {
        CommandRequest {
            program: program.to_owned(),
            args: Vec::new(),
            cwd: None,
            env: Assoc::new(),
            remove_env: Vec::new(),
            clear_env: false,
        }
    }

    /// An expanded command in the given directory and with no environment but
    /// the given one. A shell command runs under `sh -c`; an empty list of
    /// arguments is refused.
    pub fn expanded(command: &ExpandedCommand, cwd: &str, env: Assoc<String>) -> (r: Result<
        Self,
        CoreError,
    >)
        ensures
            r is Err == (command matches ExpandedCommand::Argv { argv } && argv@.len() == 0),
            r matches Err(e) ==> e@ == error::fault(
                ExitClass::State,
                "CONFIG_INVALID"@,
                "an argv command is empty"@,
                "give the command at least one argv element"@,
            ),
            r matches Ok(q) ==> {
                &&& text::opt(q.cwd) == Some(cwd@)
                &&& q.env == env
                &&& q.remove_env@.len() == 0
                &&& q.clear_env
                &&& match *command {
                    ExpandedCommand::Shell { shell } => q.program@ == "sh"@ && text::texts(q.args@)
                        == seq!["-c"@, shell@],
                    ExpandedCommand::Argv { argv } => q.program@ == argv@[0]@ && text::texts(
                        q.args@,
                    ) == text::texts(argv@).skip(1),
                }
            },
    {
        let (program, args) = match command {
            ExpandedCommand::Shell { shell } => {
                let mut args: Vec<String> = Vec::new();
                args.push("-c".to_owned());
                args.push(shell.clone());
                proof {
                    assert(text::texts(args@) =~= seq!["-c"@, shell@]);
                }
                ("sh".to_owned(), args)
            },
            ExpandedCommand::Argv { argv } => {
                if argv.len() == 0 {
                    return Err(
                        CoreError::new(
                            ExitClass::State,
                            "CONFIG_INVALID",
                            "an argv command is empty",
                            "give the command at least one argv element",
                        ),
                    );
                }
                let program = argv[0].clone();
                let mut args = copy_texts(argv);
                let ghost all = text::texts(args@);
                let _ = args.remove(0);
                proof {
                    assert(text::texts(args@) =~= all.skip(1));
                }
                (program, args)
            },
        };
        Ok(
            CommandRequest {
                program,
                args,
                cwd: Some(cwd.to_owned()),
                env,
                remove_env: Vec::new(),
                clear_env: true,
            },
        )
    }
}

// ---------------------------------------------------------------------------
// Ends
// ---------------------------------------------------------------------------

/// How a child ended: with a status, or by a signal.
#[derive(Clone, Copy, Debug, PartialEq, Eq, Structural)]
pub struct ChildStatus {
    pub code: Option<i32>,
    pub signal: Option<i32>,
}

/// What a child left behind.
#[derive(Debug)]
pub struct ProcessOutput {
    pub pid: u32,
    pub child: ChildStatus,
    pub stdout: Vec<u8>,
    pub stderr: Vec<u8>,
    pub timed_out: bool,
}

impl ChildStatus {
    /// Whether a signal is one that a status can be made of.
    pub open spec fn valid(self) -> bool {
        self.signal matches Some(s) ==> s <= i32::MAX - 128
    }

    /// The status that a shell would report: the code, or 128 and the signal,
    /// or 1 where there is neither.
    pub open spec fn mapped(self) -> int {
        match self.code {
            Some(code) => code as int,
            None => match self.signal {
                Some(signal) => 128 + signal,
                None => 1,
            },
        }
    }
}

impl ProcessOutput {
    /// Whether the child ended well.
    pub open spec fn succeeded(&self) -> bool {
        self.child.code == Some(0i32) && self.child.signal is None && !self.timed_out
    }

    /// Whether the child ended with status 0, by no signal, and in time.
    pub fn success(&self) -> (r: bool)
        ensures
            r == self.succeeded(),
    {
        let zero = match self.child.code {
            Some(code) => code == 0,
            None => false,
        };
        zero && self.child.signal.is_none() && !self.timed_out
    }

    /// The status that a shell would report.
    pub fn mapped_exit(&self) -> (r: i32)
        requires
            self.child.valid(),
        ensures
            r == self.child.mapped(),
    {
        match self.child.code {
            Some(code) => code,
            None => match self.child.signal {
                Some(signal) => 128 + signal,
                None => 1,
            },
        }
    }
}

/// Where a child's output is shown while it runs.
#[derive(Clone, Copy, Debug, PartialEq, Eq, Structural)]
pub enum Tee {
    Inherit,
    Stderr,
    Quiet,
}

/// One stream that output is shown on.
#[derive(Clone, Copy, Debug, PartialEq, Eq, Structural)]
pub enum Sink {
    Stdout,
    Stderr,
    Nowhere,
}

/// Where a child's standard output goes.
pub fn stdout_sink(tee: Tee) -> (r: Sink)
    ensures
        r == match tee {
            Tee::Inherit => Sink::Stdout,
            Tee::Stderr => Sink::Stderr,
            Tee::Quiet => Sink::Nowhere,
        },
{
    match tee {
        Tee::Inherit => Sink::Stdout,
        Tee::Stderr => Sink::Stderr,
        Tee::Quiet => Sink::Nowhere,
    }
}

/// Where a child's standard error goes.
pub fn stderr_sink(tee: Tee) -> (r: Sink)
    ensures
        r == match tee {
            Tee::Inherit | Tee::Stderr => Sink::Stderr,
            Tee::Quiet => Sink::Nowhere,
        },
{
    match tee {
        Tee::Inherit => Sink::Stderr,
        Tee::Stderr => Sink::Stderr,
        Tee::Quiet => Sink::Nowhere,
    }
}

/// How a measured child ended.
#[derive(Clone, Copy, Debug, PartialEq, Eq, Structural)]
pub enum Outcome {
    Code(i32),
    TimedOut,
    /// The child could not be started or waited for, or died by a signal.
    Failed,
    /// Started and deliberately left running.
    Detached,
}

/// How a child ended, for the timing log; `None` stands for one that could not
/// be started or waited for.
pub fn outcome_of(output: Option<&ProcessOutput>) -> (r: Outcome)
    ensures
        r == match output {
            None => Outcome::Failed,
            Some(o) => if o.timed_out {
                Outcome::TimedOut
            } else {
                match o.child.code {
                    Some(code) => Outcome::Code(code),
                    None => Outcome::Failed,
                }
            },
        },
{
    match output {
        None => Outcome::Failed,
        Some(o) => {
            if o.timed_out {
                Outcome::TimedOut
            } else {
                match o.child.code {
                    Some(code) => Outcome::Code(code),
                    None => Outcome::Failed,
                }
            }
        },
    }
}

/// What a probe found.
#[derive(Debug)]
pub enum ProbeResult {
    Present,
    Absent,
    FailedTimeout,
    FailedExit(i32),
    FailedSpawn(String),
}

/// What a probe found, as a plain value.
pub enum Found {
    Present,
    Absent,
    FailedTimeout,
    FailedExit(i32),
    FailedSpawn(Seq<char>),
}

impl View for ProbeResult {
    type V = Found;

    open spec fn view(&self) -> Found {
        match self {
            ProbeResult::Present => Found::Present,
            ProbeResult::Absent => Found::Absent,
            ProbeResult::FailedTimeout => Found::FailedTimeout,
            ProbeResult::FailedExit(code) => Found::FailedExit(*code),
            ProbeResult::FailedSpawn(s) => Found::FailedSpawn(s@),
        }
    }
}

/// A probe and when it was made.
#[derive(Debug)]
pub struct Probe {
    pub at: String,
    pub result: ProbeResult,
}

/// What a finished probe means.
pub open spec fn probed(timed_out: bool, child: ChildStatus) -> Found {
    if timed_out {
        Found::FailedTimeout
    } else {
        match child.code {
            Some(code) if code == 0 => Found::Present,
            Some(code) if code == 1 => Found::Absent,
            Some(code) if code >= 2 => Found::FailedExit(code),
            _ => Found::FailedSpawn(
                match child.signal {
                    Some(signal) => "probe died from signal "@ + text::signed_decimal(
                        signal as int,
                    ),
                    None => "probe ended without a status"@,
                },
            ),
        }
    }
}

/// Maps a probe's end: status 0 is present, 1 is absent, and everything else
/// failed, as did a probe that could not be started.
pub fn probe(output: Result<&ProcessOutput, &str>, at: &str) -> (r: Probe)
    ensures
        r.at@ == at@,
        r.result@ == match output {
            Ok(o) => probed(o.timed_out, o.child),
            Err(message) => Found::FailedSpawn(message@),
        },
{
    let result = match output {
        Err(message) => ProbeResult::FailedSpawn(message.to_owned()),
        Ok(o) => {
            if o.timed_out {
                ProbeResult::FailedTimeout
            } else {
                let code: i32 = match o.child.code {
                    Some(code) => code,
                    None => -1,
                };
                if code == 0 {
                    ProbeResult::Present
                } else if code == 1 {
                    ProbeResult::Absent
                } else if code >= 2 {
                    ProbeResult::FailedExit(code)
                } else {
                    match o.child.signal {
                        Some(signal) => {
                            let digits = text::signed_decimal_of(signal as i64);
                            ProbeResult::FailedSpawn(
                                "probe died from signal ".to_owned().concat(digits.as_str()),
                            )
                        },
                        None => ProbeResult::FailedSpawn("probe ended without a status".to_owned()),
                    }
                }
            }
        },
    };
    Probe { at: at.to_owned(), result }
}

// ---------------------------------------------------------------------------
// Waiting
// ---------------------------------------------------------------------------

/// One of a child's two output streams.
#[derive(Clone, Copy, Debug, PartialEq, Eq, Structural)]
pub enum Stream {
    Stdout,
    Stderr,
}

/// Whether time is up after so many milliseconds of those that may pass, where they are
/// bounded.
pub open spec fn is_over(elapsed: u64, timeout: Option<u64>) -> bool {
    timeout is Some && elapsed >= timeout->0
}

fn over(elapsed: u64, timeout: Option<u64>) -> (r: bool)
    ensures
        r == is_over(elapsed, timeout),
{
    match timeout {
        Some(limit) => elapsed >= limit,
        None => false,
    }
}

/// What to do next while a child runs.
#[derive(Clone, Copy, Debug, PartialEq, Eq, Structural)]
pub enum WaitStep {
    /// The child has ended and both of its pipes are at their end.
    Done,
    /// Time is up and the child has ended: signal what still holds its pipes.
    Signal,
    /// Time is up and the child runs: end it and reap it.
    Terminate,
    /// Wait for output and read what is there.
    Drain,
}

/// A child that is waited for: what it has written, which of its pipes are
/// open, how it ended, and whether its time was up first.
#[derive(Debug)]
pub struct Wait {
    pub stdout: Vec<u8>,
    pub stderr: Vec<u8>,
    pub stdout_open: bool,
    pub stderr_open: bool,
    pub status: Option<ChildStatus>,
    pub timed_out: bool,
}

fn extend(bytes: &mut Vec<u8>, more: &[u8])
    ensures
        final(bytes)@ == old(bytes)@ + more@,
{
    let ghost before = bytes@;
    let mut i: usize = 0;
    while i < more.len()
        invariant
            i <= more.len(),
            bytes@ == before + more@.take(i as int),
        decreases more.len() - i,
    {
        proof {
            assert(before + more@.take(i + 1) =~= (before + more@.take(i as int)).push(
                more@[i as int],
            ));
        }
        bytes.push(more[i]);
        i = i + 1;
    }
    proof {
        assert(more@.take(more@.len() as int) =~= more@);
    }
}

impl Wait {
    /// A child that was just started.
    pub fn new() -> (r: Self)
        ensures
            r.stdout@.len() == 0,
            r.stderr@.len() == 0,
            r.stdout_open,
            r.stderr_open,
            r.status is None,
            !r.timed_out,
    {
        Wait {
            stdout: Vec::new(),
            stderr: Vec::new(),
            stdout_open: true,
            stderr_open: true,
            status: None,
            timed_out: false,
        }
    }

    /// Keeps how the child ended, the first time that it is known.
    pub fn ended(&mut self, status: ChildStatus)
        ensures
            final(self).status == Some(
                match old(self).status {
                    Some(first) => first,
                    None => status,
                },
            ),
            final(self).stdout@ == old(self).stdout@,
            final(self).stderr@ == old(self).stderr@,
            final(self).stdout_open == old(self).stdout_open,
            final(self).stderr_open == old(self).stderr_open,
            final(self).timed_out == old(self).timed_out,
    {
        if self.status.is_none() {
            self.status = Some(status);
        }
    }

    /// Keeps the bytes that a stream gave, exactly as they came; no bytes are
    /// its end.
    pub fn read(&mut self, stream: Stream, bytes: &[u8])
        ensures
            final(self).status == old(self).status,
            final(self).timed_out == old(self).timed_out,
            stream is Stdout ==> {
                &&& final(self).stdout@ == old(self).stdout@ + bytes@
                &&& final(self).stdout_open == (old(self).stdout_open && bytes@.len() > 0)
                &&& final(self).stderr@ == old(self).stderr@
                &&& final(self).stderr_open == old(self).stderr_open
            },
            stream is Stderr ==> {
                &&& final(self).stderr@ == old(self).stderr@ + bytes@
                &&& final(self).stderr_open == (old(self).stderr_open && bytes@.len() > 0)
                &&& final(self).stdout@ == old(self).stdout@
                &&& final(self).stdout_open == old(self).stdout_open
            },
    {
        match stream {
            Stream::Stdout => {
                extend(&mut self.stdout, bytes);
                self.stdout_open = self.stdout_open && bytes.len() > 0;
            },
            Stream::Stderr => {
                extend(&mut self.stderr, bytes);
                self.stderr_open = self.stderr_open && bytes.len() > 0;
            },
        }
    }

    /// What to do next, where `expired` says that time is up.
    pub open spec fn next(&self, expired: bool) -> WaitStep {
        if self.status is Some && !self.stdout_open && !self.stderr_open {
            WaitStep::Done
        } else if expired {
            if self.status is Some {
                WaitStep::Signal
            } else {
                WaitStep::Terminate
            }
        } else {
            WaitStep::Drain
        }
    }

    /// What to do next, `elapsed` milliseconds after the child was started. A step at
    /// which time is up before everything is done is one that the child is said to have
    /// timed out at.
    pub fn step(&mut self, elapsed: u64, timeout: Option<u64>) -> (r: WaitStep)
        ensures
            r == old(self).next(is_over(elapsed, timeout)),
            *final(self) == (Wait {
                timed_out: old(self).timed_out || r is Signal || r is Terminate,
                ..*old(self)
            }),
    {
        if self.status.is_some() && !self.stdout_open && !self.stderr_open {
            WaitStep::Done
        } else if over(elapsed, timeout) {
            self.timed_out = true;
            if self.status.is_some() {
                WaitStep::Signal
            } else {
                WaitStep::Terminate
            }
        } else {
            WaitStep::Drain
        }
    }

    /// What the child left behind, once it has ended.
    pub fn finish(self, pid: u32) -> (r: ProcessOutput)
        requires
            self.status is Some,
        ensures
            r.pid == pid,
            Some(r.child) == self.status,
            r.stdout == self.stdout,
            r.stderr == self.stderr,
            r.timed_out == self.timed_out,
    {
        let child = self.status.unwrap();
        ProcessOutput {
            pid,
            child,
            stdout: self.stdout,
            stderr: self.stderr,
            timed_out: self.timed_out,
        }
    }
}

/// A wait is bounded: once time is up it ends at the next step, whatever the
/// child or what it started still holds open.
pub proof fn an_expired_wait_ends(w: Wait)
    ensures
        w.next(true) != WaitStep::Drain,
{
}

/// Output is never lost to a child that has already ended: before time is up a
/// wait ends only at the end of both pipes.
pub proof fn a_wait_drains_before_it_ends(w: Wait)
    ensures
        w.next(false) == WaitStep::Done ==> !w.stdout_open && !w.stderr_open && w.status is Some,
        w.next(false) is Done || w.next(false) is Drain,
{
}

/// What a read of a pipe gave.
#[derive(Clone, Copy, Debug, PartialEq, Eq, Structural)]
pub enum ReadOutcome {
    End,
    Bytes,
    WouldBlock,
    Interrupted,
}

/// How many times a stream is read before the deadline is looked at again.
pub const READS_PER_ROUND: u8 = 8;

/// Whether to read a stream again in this round, after `done` reads of it:
/// continuous output does not keep the deadline from being looked at.
pub fn read_again(outcome: ReadOutcome, done: u8) -> (r: bool)
    ensures
        r == (done < READS_PER_ROUND && (outcome is Bytes || outcome is Interrupted)),
{
    let more = match outcome {
        ReadOutcome::Bytes => true,
        ReadOutcome::Interrupted => true,
        ReadOutcome::End => false,
        ReadOutcome::WouldBlock => false,
    };
    done < READS_PER_ROUND && more
}

/// What to do with a child that was asked to end.
#[derive(Clone, Copy, Debug, PartialEq, Eq, Structural)]
pub enum TermStep {
    Done,
    Sleep,
    Kill,
}

/// What to do next with a child that was asked to end so many milliseconds ago.
pub fn terminate_step(exited: bool, waited: u64) -> (r: TermStep)
    ensures
        r == if waited >= TERM_GRACE {
            TermStep::Kill
        } else if exited {
            TermStep::Done
        } else {
            TermStep::Sleep
        },
{
    if waited >= TERM_GRACE {
        TermStep::Kill
    } else if exited {
        TermStep::Done
    } else {
        TermStep::Sleep
    }
}

/// Whom to signal: the child, or the group that it leads.
pub fn signal_target(pid: i32, process_group: bool) -> (r: i32)
    requires
        pid > i32::MIN,
    ensures
        r == if process_group {
            -pid
        } else {
            pid as int
        },
{
    if process_group {
        -pid
    } else {
        pid
    }
}

/// A child's number as the platform takes it.
pub fn child_pid(pid: u32) -> (r: Result<i32, CoreError>)
    ensures
        r is Ok == (pid <= i32::MAX),
        r matches Ok(n) ==> n == pid,
        r matches Err(e) ==> e@ == error::fault(
            ExitClass::Internal,
            "PROCESS_ID_INVALID"@,
            "child process id does not fit the platform pid type"@,
            "retry the command"@,
        ),
{
    if pid <= 0x7fff_ffff {
        Ok(pid as i32)
    } else {
        Err(
            CoreError::new(
                ExitClass::Internal,
                "PROCESS_ID_INVALID",
                "child process id does not fit the platform pid type",
                "retry the command",
            ),
        )
    }
}

/// The number to ask after, where a recorded process number can name a live
/// process at all.
pub fn askable_pid(pid: u32) -> (r: Option<i32>)
    ensures
        r is Some == (0 < pid <= i32::MAX),
        r matches Some(n) ==> n == pid,
{
    if 0 < pid && pid <= 0x7fff_ffff {
        Some(pid as i32)
    } else {
        None
    }
}

/// What to do next with a child on a pseudoterminal.
#[derive(Clone, Copy, Debug, PartialEq, Eq, Structural)]
pub enum PtyStep {
    /// Everything was read.
    Done,
    /// The child has ended: wait a moment, read once more and look whether
    /// anything came.
    Linger,
    /// Time is up: end the child where it runs, read once more and stop.
    Expire { terminate: bool },
    /// Wait for output.
    Poll,
}

/// What to do after the terminal was read.
pub open spec fn pty_next(exited: bool, ended: bool, expired: bool) -> PtyStep {
    if exited && ended {
        PtyStep::Done
    } else if exited {
        PtyStep::Linger
    } else if expired {
        PtyStep::Expire { terminate: true }
    } else {
        PtyStep::Poll
    }
}

/// What to do after the terminal was read once more behind an ended child.
pub open spec fn pty_lingered(ended: bool, grew: bool, expired: bool) -> PtyStep {
    if ended || !grew {
        PtyStep::Done
    } else if expired {
        PtyStep::Expire { terminate: false }
    } else {
        PtyStep::Poll
    }
}

/// A child on a pseudoterminal: everything that it wrote, whether the terminal
/// is at its end, how the child ended, and whether its time was up first.
#[derive(Debug)]
pub struct Pty {
    pub bytes: Vec<u8>,
    pub ended: bool,
    pub status: Option<ChildStatus>,
    pub timed_out: bool,
}

impl Pty {
    /// A child that was just started.
    pub fn new() -> (r: Self)
        ensures
            r.bytes@.len() == 0,
            !r.ended,
            r.status is None,
            !r.timed_out,
    {
        Pty { bytes: Vec::new(), ended: false, status: None, timed_out: false }
    }

    /// Keeps bytes exactly as they came; no bytes are the end.
    pub fn read(&mut self, bytes: &[u8])
        ensures
            final(self).bytes@ == old(self).bytes@ + bytes@,
            final(self).ended == (old(self).ended || bytes@.len() == 0),
            final(self).status == old(self).status,
            final(self).timed_out == old(self).timed_out,
    {
        extend(&mut self.bytes, bytes);
        if bytes.len() == 0 {
            self.ended = true;
        }
    }

    /// Keeps how the child ended, the first time that it is known.
    pub fn exited(&mut self, status: ChildStatus)
        ensures
            final(self).status == Some(
                match old(self).status {
                    Some(first) => first,
                    None => status,
                },
            ),
            final(self).bytes@ == old(self).bytes@,
            final(self).ended == old(self).ended,
            final(self).timed_out == old(self).timed_out,
    {
        if self.status.is_none() {
            self.status = Some(status);
        }
    }

    /// What to do after the terminal was read, `elapsed` milliseconds after the child was
    /// started.
    pub fn step(&mut self, elapsed: u64, timeout: u64) -> (r: PtyStep)
        ensures
            r == pty_next(old(self).status is Some, old(self).ended, elapsed >= timeout),
            *final(self) == (Pty {
                timed_out: old(self).timed_out || r is Expire,
                ..*old(self)
            }),
    {
        if self.status.is_some() && self.ended {
            PtyStep::Done
        } else if self.status.is_some() {
            PtyStep::Linger
        } else if elapsed >= timeout {
            self.timed_out = true;
            PtyStep::Expire { terminate: true }
        } else {
            PtyStep::Poll
        }
    }

    /// What to do after lingering, where `before` is how much had been read.
    pub fn lingered(&mut self, before: usize, elapsed: u64, timeout: u64) -> (r: PtyStep)
        ensures
            r == pty_lingered(
                old(self).ended,
                old(self).bytes@.len() != before,
                elapsed >= timeout,
            ),
            *final(self) == (Pty {
                timed_out: old(self).timed_out || r is Expire,
                ..*old(self)
            }),
    {
        if self.ended || self.bytes.len() == before {
            PtyStep::Done
        } else if elapsed >= timeout {
            self.timed_out = true;
            PtyStep::Expire { terminate: false }
        } else {
            PtyStep::Poll
        }
    }

    /// What the child left behind, once it has ended: one combined stream.
    pub fn finish(self, pid: u32) -> (r: ProcessOutput)
        requires
            self.status is Some,
        ensures
            r.pid == pid,
            Some(r.child) == self.status,
            r.stdout == self.bytes,
            r.stderr@.len() == 0,
            r.timed_out == self.timed_out,
    {
        let child = self.status.unwrap();
        ProcessOutput {
            pid,
            child,
            stdout: self.bytes,
            stderr: Vec::new(),
            timed_out: self.timed_out,
        }
    }
}

/// The wait for a child on a pseudoterminal is bounded: once time is up, no
/// step waits for more output than a single look behind an ended child.
pub proof fn an_expired_terminal_ends(exited: bool, ended: bool, grew: bool)
    ensures
        pty_next(exited, ended, true) != PtyStep::Poll,
        pty_lingered(ended, grew, true) != PtyStep::Poll,
        pty_lingered(ended, grew, true) != PtyStep::Linger,
{
}

// ---------------------------------------------------------------------------
// Owned commands
// ---------------------------------------------------------------------------

/// What a shim was found to be.
#[derive(Debug)]
pub enum LinkRead {
    /// A symlink to the given path.
    Target(String),
    /// A symlink that could not be read, and why.
    Unreadable(String),
    /// Something else.
    NotALink,
    /// Nothing that could be looked at, and why.
    Uninspectable(String),
}

/// What is observed of an invocation before anything else is read.
#[derive(Debug)]
pub struct Invocation {
    /// The name by which the program was invoked.
    pub argv0: String,
    /// The shim on `PATH` that a bare name stands for, where there is one.
    pub path_shim: Option<String>,
    /// Whether the shim's directory is there.
    pub parent_is_dir: bool,
    /// What the shim is.
    pub link: LinkRead,
    /// Whether the shim's target is itself a link, or cannot be looked at.
    pub target_is_link: bool,
    /// Why the running binary cannot be resolved, where it cannot.
    pub running_fault: Option<String>,
    /// Whether the shim's target is the running binary.
    pub target_matches: bool,
    /// The directories of built commands, as `WT_BIN` lists them.
    pub wt_bin: String,
    /// For each of those directories, whether it has the command.
    pub runnable: Vec<bool>,
    /// A copy of the command that is installed elsewhere on `PATH`.
    pub installed: Option<String>,
    /// The tree that the environment names.
    pub wt_target: Option<String>,
    /// What is known of a build in progress.
    pub progress: Option<String>,
}

/// What to do with an invocation.
#[derive(Debug)]
pub enum FastPath {
    /// It is no owned command: go on as usual.
    NotOwned,
    /// Refuse it with the given message.
    Refuse(String),
    /// Become the given program.
    Run(String),
}

/// What to do with an invocation, as a plain value.
pub enum Dispatch {
    NotOwned,
    Refuse(Seq<char>),
    Run(Seq<char>),
}

impl View for FastPath {
    type V = Dispatch;

    open spec fn view(&self) -> Dispatch {
        match self {
            FastPath::NotOwned => Dispatch::NotOwned,
            FastPath::Refuse(s) => Dispatch::Refuse(s@),
            FastPath::Run(s) => Dispatch::Run(s@),
        }
    }
}

/// Whether a name comes without a directory.
pub open spec fn is_bare(argv0: Seq<char>) -> bool {
    match path::parent_of(argv0) {
        None => true,
        Some(p) => p.len() == 0,
    }
}

/// Whether a directory is `.wt/shims` below something.
pub open spec fn is_shim_dir(dir: Seq<char>) -> bool {
    path::name_of(dir) == Some("shims"@) && (path::parent_of(dir) matches Some(up)
        && path::name_of(up) == Some(".wt"@))
}

/// Whether a path is that of an entry of `.wt/shims`.
pub open spec fn is_shim_path(invoked: Seq<char>) -> bool {
    path::parent_of(invoked) matches Some(dir) && is_shim_dir(dir)
}

/// The tree that a shim belongs to.
pub open spec fn shim_root(invoked: Seq<char>) -> Seq<char> {
    path::parent_of(path::parent_of(path::parent_of(invoked)->0)->0)->0
}

/// Whether a path is absolute, lies at or below the root, and never steps up or
/// stays.
pub open spec fn contained(root: Seq<char>, candidate: Seq<char>) -> bool {
    &&& path::absolute(candidate)
    &&& path::under(candidate, root)
    &&& forall|i: int|
        0 <= i < path::components(candidate).len() ==> {
            &&& #[trigger] path::components(candidate)[i] != path::up()
            &&& path::components(candidate)[i] != path::here()
        }
}

/// Whether a path is absolute, lies in the tree and steps nowhere else.
pub fn contained_absolute(root: &str, candidate: &str) -> (r: bool)
    ensures
        r == contained(root@, candidate@),
{
    let parts = path::parts_of(candidate);
    let ghost all = path::components(candidate@);
    proof {
        reveal_strlit("..");
        reveal_strlit(".");
        assert(".."@ =~= path::up());
        assert("."@ =~= path::here());
        assert(all.len() == parts@.len());
    }
    let mut i: usize = 0;
    while i < parts.len()
        invariant
            i <= parts.len(),
            all == text::texts(parts@),
            all == path::components(candidate@),
            ".."@ == path::up(),
            "."@ == path::here(),
            forall|k: int|
                0 <= k < i ==> (#[trigger] all[k]) != path::up() && all[k] != path::here(),
        decreases parts.len() - i,
    {
        proof {
            assert(all[i as int] == parts@[i as int]@);
        }
        if text::same(parts[i].as_str(), "..") || text::same(parts[i].as_str(), ".") {
            return false;
        }
        i = i + 1;
    }
    path::is_absolute(candidate) && path::starts_with(candidate, root)
}

/// The first directory that has the command, at or after `from`.
pub open spec fn first_runnable(runnable: Seq<bool>, count: int, from: int) -> Option<int>
    decreases count - from,
{
    if from >= count {
        None
    } else if from < runnable.len() && runnable[from] {
        Some(from)
    } else {
        first_runnable(runnable, count, from + 1)
    }
}

/// Whether every listed directory lies in the tree.
pub open spec fn all_contained(root: Seq<char>, bins: Seq<Seq<char>>) -> bool {
    forall|i: int| 0 <= i < bins.len() ==> contained(root, #[trigger] bins[i])
}

/// What is said of a command that was not built.
pub open spec fn not_built(
    name: Seq<char>,
    target: Seq<char>,
    bins: Seq<Seq<char>>,
    installed: Option<Seq<char>>,
    progress: Option<Seq<char>>,
) -> Seq<char> {
    let searched = if bins.len() == 0 {
        "<none>"@
    } else {
        text::join(bins, ", "@)
    };
    let explicit = match installed {
        None => "; no installed copy was found elsewhere on PATH"@,
        Some(p) => "; run the installed copy explicitly as `"@ + p + "`"@,
    };
    let note = match progress {
        None => Seq::<char>::empty(),
        Some(p) => p,
    };
    "COMMAND_NOT_BUILT: `"@ + name + "` belongs to tree `"@ + target
        + "` but was not found; searched: "@ + searched + "; run `wt build "@ + target + "`"@
        + explicit + note
}

/// What is done with a shim whose link is sound.
pub open spec fn owned_dispatch(o: Invocation, name: Seq<char>, root: Seq<char>) -> Dispatch {
    let bins = text::split(o.wt_bin@, ':');
    if !all_contained(root, bins) {
        Dispatch::Refuse(
            "SHIM_INVOCATION_INVALID: WT_BIN does not describe directories inside `"@ + root + "`"@,
        )
    } else {
        match first_runnable(o.runnable@, bins.len() as int, 0) {
            Some(i) => Dispatch::Run(path::joined(bins[i], name)),
            None => {
                let target = match o.wt_target {
                    Some(t) => t@,
                    None => root,
                };
                Dispatch::Refuse(
                    not_built(name, target, bins, text::opt(o.installed), text::opt(o.progress)),
                )
            },
        }
    }
}

/// What is wrong with a shim's link, if anything.
pub open spec fn link_fault(o: Invocation, invoked: Seq<char>) -> Option<Seq<char>> {
    let head = "SHIM_INVOCATION_INVALID: "@;
    if !o.parent_is_dir {
        Some(head + "shim parent `"@ + path::parent_of(invoked)->0 + "` is absent"@)
    } else {
        match o.link {
            LinkRead::Unreadable(why) => Some(
                head + "cannot read shim `"@ + invoked + "`: "@ + why@,
            ),
            LinkRead::NotALink => Some(head + "copied shim `"@ + invoked + "` is not a symlink"@),
            LinkRead::Uninspectable(why) => Some(
                head + "cannot inspect shim `"@ + invoked + "`: "@ + why@,
            ),
            LinkRead::Target(target) => {
                if !path::absolute(target@) || o.target_is_link {
                    Some(
                        head + "shim `"@ + invoked
                            + "` must point directly to an absolute wt binary"@,
                    )
                } else {
                    match o.running_fault {
                        Some(why) => Some(head + "cannot resolve the running binary: "@ + why@),
                        None => if !o.target_matches {
                            Some(head + "shim `"@ + invoked + "` does not point to this wt binary"@)
                        } else {
                            None
                        },
                    }
                }
            },
        }
    }
}

/// What is said of a name that is neither this program's own nor a shim's.
pub open spec fn misplaced(invoked: Seq<char>) -> Seq<char> {
    "SHIM_INVOCATION_INVALID: `"@ + invoked + "` is not an absolute <root>/.wt/shims/<name> path"@
}

/// What to do with an invocation. Only the ordinary name of this program goes on as
/// usual; one that names no file is refused like any other that is no shim.
pub open spec fn dispatch(o: Invocation) -> Dispatch {
    let argv0 = o.argv0@;
    match path::name_of(argv0) {
        None => Dispatch::Refuse(misplaced(argv0)),
        Some(name) => {
            if is_bare(argv0) && name == "wt"@ {
                Dispatch::NotOwned
            } else if is_bare(argv0) && o.path_shim is None {
                Dispatch::Refuse(
                    "SHIM_INVOCATION_INVALID: bare argv[0] `"@ + argv0
                        + "` has no matching <root>/.wt/shims symlink on PATH; restore the door PATH prefix before invoking owned commands"@,
                )
            } else {
                let invoked = if is_bare(argv0) {
                    o.path_shim->0@
                } else {
                    argv0
                };
                if !is_shim_path(invoked) {
                    if name == "wt"@ {
                        Dispatch::NotOwned
                    } else {
                        Dispatch::Refuse(misplaced(invoked))
                    }
                } else if !path::absolute(invoked) {
                    Dispatch::Refuse(
                        "SHIM_INVOCATION_INVALID: relative shim path `"@ + invoked
                            + "` is not trusted"@,
                    )
                } else {
                    match link_fault(o, invoked) {
                        Some(message) => Dispatch::Refuse(message),
                        None => owned_dispatch(o, name, shim_root(invoked)),
                    }
                }
            }
        },
    }
}

fn bare(argv0: &str) -> (r: bool)
    ensures
        r == is_bare(argv0@),
{
    match path::parent(argv0) {
        None => true,
        Some(p) => p.as_str().is_empty(),
    }
}

fn name_is(found: &Option<String>, wanted: &str) -> (r: bool)
    ensures
        r == (text::opt(*found) == Some(wanted@)),
{
    match found {
        Some(n) => text::same(n.as_str(), wanted),
        None => false,
    }
}

/// Whether a directory is `.wt/shims` below something.
pub fn shim_dir(dir: &str) -> (r: bool)
    ensures
        r == is_shim_dir(dir@),
{
    let name = path::file_name(dir);
    let outer = match path::parent(dir) {
        Some(up) => name_is(&path::file_name(up.as_str()), ".wt"),
        None => false,
    };
    name_is(&name, "shims") && outer
}

fn link_problem(o: &Invocation, invoked: &str) -> (r: Option<String>)
    requires
        path::parent_of(invoked@) is Some,
    ensures
        text::opt(r) == link_fault(*o, invoked@),
{
    let head = "SHIM_INVOCATION_INVALID: ".to_owned();
    if !o.parent_is_dir {
        let dir = path::parent(invoked).unwrap();
        return Some(head.concat("shim parent `").concat(dir.as_str()).concat("` is absent"));
    }
    match &o.link {
        LinkRead::Unreadable(why) => Some(
            head.concat("cannot read shim `").concat(invoked).concat("`: ").concat(why.as_str()),
        ),
        LinkRead::NotALink => Some(
            head.concat("copied shim `").concat(invoked).concat("` is not a symlink"),
        ),
        LinkRead::Uninspectable(why) => Some(
            head.concat("cannot inspect shim `").concat(invoked).concat("`: ").concat(why.as_str()),
        ),
        LinkRead::Target(target) => {
            if !path::is_absolute(target.as_str()) || o.target_is_link {
                Some(
                    head.concat("shim `").concat(invoked).concat(
                        "` must point directly to an absolute wt binary",
                    ),
                )
            } else {
                match &o.running_fault {
                    Some(why) => Some(
                        head.concat("cannot resolve the running binary: ").concat(why.as_str()),
                    ),
                    None => if !o.target_matches {
                        Some(
                            head.concat("shim `").concat(invoked).concat(
                                "` does not point to this wt binary",
                            ),
                        )
                    } else {
                        None
                    },
                }
            }
        },
    }
}

fn not_built_message(
    name: &str,
    target: &str,
    bins: &Vec<String>,
    installed: &Option<String>,
    progress: &Option<String>,
) -> (r: String)
    ensures
        r@ == not_built(
            name@,
            target@,
            text::texts(bins@),
            text::opt(*installed),
            text::opt(*progress),
        ),
{
    let searched = if bins.len() == 0 {
        "<none>".to_owned()
    } else {
        text::join_with(bins, ", ")
    };
    let explicit = match installed {
        None => "; no installed copy was found elsewhere on PATH".to_owned(),
        Some(p) => "; run the installed copy explicitly as `".to_owned().concat(
            p.as_str(),
        ).concat("`"),
    };
    let note = match progress {
        None => String::new(),
        Some(p) => p.clone(),
    };
    proof {
        assert(text::texts(bins@).len() == bins@.len());
    }
    "COMMAND_NOT_BUILT: `".to_owned().concat(name).concat("` belongs to tree `").concat(
        target,
    ).concat("` but was not found; searched: ").concat(searched.as_str()).concat(
        "; run `wt build ",
    ).concat(target).concat("`").concat(explicit.as_str()).concat(note.as_str())
}

fn run_owned(o: &Invocation, name: &str, root: &str) -> (r: FastPath)
    ensures
        r@ == owned_dispatch(*o, name@, root@),
{
    let bins = text::split_on(o.wt_bin.as_str(), ':');
    let ghost all = text::texts(bins@);
    let mut i: usize = 0;
    while i < bins.len()
        invariant
            i <= bins.len(),
            all == text::texts(bins@),
            all == text::split(o.wt_bin@, ':'),
            forall|k: int| 0 <= k < i ==> contained(root@, #[trigger] all[k]),
        decreases bins.len() - i,
    {
        proof {
            assert(all[i as int] == bins@[i as int]@);
        }
        if !contained_absolute(root, bins[i].as_str()) {
            return FastPath::Refuse(
                "SHIM_INVOCATION_INVALID: WT_BIN does not describe directories inside `".to_owned().concat(
                root).concat("`"),
            );
        }
        i = i + 1;
    }
    let mut j: usize = 0;
    while j < bins.len()
        invariant
            j <= bins.len(),
            all == text::texts(bins@),
            all == text::split(o.wt_bin@, ':'),
            all_contained(root@, all),
            first_runnable(o.runnable@, all.len() as int, 0) == first_runnable(
                o.runnable@,
                all.len() as int,
                j as int,
            ),
        decreases bins.len() - j,
    {
        proof {
            assert(all.len() == bins@.len());
            assert(all[j as int] == bins@[j as int]@);
        }
        if j < o.runnable.len() && o.runnable[j] {
            return FastPath::Run(path::join(bins[j].as_str(), name));
        }
        j = j + 1;
    }
    let target = match &o.wt_target {
        Some(t) => t.clone(),
        None => root.to_owned(),
    };
    FastPath::Refuse(not_built_message(name, target.as_str(), &bins, &o.installed, &o.progress))
}

fn say_misplaced(invoked: &str) -> (r: String)
    ensures
        r@ == misplaced(invoked@),
{
    "SHIM_INVOCATION_INVALID: `".to_owned().concat(invoked).concat(
        "` is not an absolute <root>/.wt/shims/<name> path",
    )
}

/// Handles an invocation through a shim, before configuration is read or a lock
/// taken: the ordinary program goes on as usual, a shim that cannot be trusted
/// is refused, and a trusted one becomes the command that its tree built.
pub fn owned_command_fast_path(o: &Invocation) -> (r: FastPath)
    ensures
        r@ == dispatch(*o),
{
    let argv0 = o.argv0.as_str();
    let name = match path::file_name(argv0) {
        None => return FastPath::Refuse(say_misplaced(argv0)),
        Some(name) => name,
    };
    let is_wt = text::same(name.as_str(), "wt");
    let alone = bare(argv0);
    if alone && is_wt {
        return FastPath::NotOwned;
    }
    let invoked = if alone {
        match &o.path_shim {
            None => {
                return FastPath::Refuse(
                    "SHIM_INVOCATION_INVALID: bare argv[0] `".to_owned().concat(argv0).concat(
                        "` has no matching <root>/.wt/shims symlink on PATH; restore the door PATH prefix before invoking owned commands",
                    ),
                );
            },
            Some(p) => p.clone(),
        }
    } else {
        argv0.to_owned()
    };
    let dir = path::parent(invoked.as_str());
    let expected = match &dir {
        Some(d) => shim_dir(d.as_str()),
        None => false,
    };
    if !expected {
        if is_wt {
            return FastPath::NotOwned;
        }
        return FastPath::Refuse(say_misplaced(invoked.as_str()));
    }
    if !path::is_absolute(invoked.as_str()) {
        return FastPath::Refuse(
            "SHIM_INVOCATION_INVALID: relative shim path `".to_owned().concat(
                invoked.as_str(),
            ).concat("` is not trusted"),
        );
    }
    match link_problem(o, invoked.as_str()) {
        Some(message) => FastPath::Refuse(message),
        None => {
            let d = dir.unwrap();
            let outer = path::parent(d.as_str()).unwrap();
            let root = path::parent(outer.as_str()).unwrap();
            run_owned(o, name.as_str(), root.as_str())
        },
    }
}

/// The path through which a command was invoked: the shim that a bare name stands
/// for, or the name itself.
pub open spec fn invoked_path(o: Invocation) -> Seq<char> {
    if is_bare(o.argv0@) {
        o.path_shim->0@
    } else {
        o.argv0@
    }
}

/// Only the ordinary name of this program goes on as usual: where an invocation is
/// not taken as a command of a tree, it names the file `wt`, and not one in a
/// directory of shims.
pub proof fn only_the_own_name_goes_on(o: Invocation)
    requires
        dispatch(o) == Dispatch::NotOwned,
    ensures
        path::name_of(o.argv0@) == Some("wt"@),
        !is_shim_path(o.argv0@),
{
    if is_bare(o.argv0@) {
        path::lemma_empty_has_no_parts();
    }
}

/// A program outside the tree is never run in a command's place: what a shim
/// becomes is the command's name in one of the directories that the environment
/// lists, the shim stands at an absolute path, and every one of those directories
/// lies in the shim's own tree.
pub proof fn a_shim_runs_only_its_tree(o: Invocation, program: Seq<char>)
    requires
        dispatch(o) == Dispatch::Run(program),
    ensures
        path::absolute(invoked_path(o)),
        is_shim_path(invoked_path(o)),
        all_contained(shim_root(invoked_path(o)), text::split(o.wt_bin@, ':')),
        exists|i: int|
            0 <= i < text::split(o.wt_bin@, ':').len() && program == path::joined(
                #[trigger] text::split(o.wt_bin@, ':')[i],
                path::name_of(o.argv0@)->0,
            ),
{
    let name = path::name_of(o.argv0@)->0;
    let bins = text::split(o.wt_bin@, ':');
    lemma_first_runnable(o.runnable@, bins.len() as int, 0);
    let i = first_runnable(o.runnable@, bins.len() as int, 0)->0;
    assert(program == path::joined(bins[i], name));
}

proof fn lemma_first_runnable(runnable: Seq<bool>, count: int, from: int)
    requires
        0 <= from,
    ensures
        first_runnable(runnable, count, from) matches Some(i) ==> from <= i < count
            && runnable[i],
    decreases count - from,
{
    if from < count && !(from < runnable.len() && runnable[from]) {
        lemma_first_runnable(runnable, count, from + 1);
    }
}

/// What is said where the built command could not be run.
pub fn exec_failed(candidate: &str, why: &str) -> (r: String)
    ensures
        r@ == "COMMAND_EXEC_FAILED: could not execute `"@ + candidate@ + "`: "@ + why@,
{
    "COMMAND_EXEC_FAILED: could not execute `".to_owned().concat(candidate).concat("`: ").concat(
        why,
    )
}

/// The shims that a bare name can stand for: the entry of that name in every
/// absolute `.wt/shims` directory of the search path, in its order.
pub open spec fn shims_on(dirs: Seq<Seq<char>>, name: Seq<char>) -> Seq<Seq<char>>
    decreases dirs.len(),
{
    if dirs.len() == 0 {
        Seq::<Seq<char>>::empty()
    } else {
        let init = shims_on(dirs.drop_last(), name);
        let dir = dirs.last();
        if path::absolute(dir) && is_shim_dir(dir) {
            init.push(path::joined(dir, name))
        } else {
            init
        }
    }
}

/// The shims that a bare name can stand for, in the order of the search path.
pub fn matching_path_shim(search: &str, name: &str) -> (r: Vec<String>)
    ensures
        text::texts(r@) == shims_on(text::split(search@, ':'), name@),
{
    let dirs = text::split_on(search, ':');
    let ghost all = text::texts(dirs@);
    let mut out: Vec<String> = Vec::new();
    let mut i: usize = 0;
    proof {
        assert(text::texts(out@) =~= shims_on(all.take(0), name@));
    }
    while i < dirs.len()
        invariant
            i <= dirs.len(),
            all == text::texts(dirs@),
            text::texts(out@) == shims_on(all.take(i as int), name@),
        decreases dirs.len() - i,
    {
        let ghost done = text::texts(out@);
        proof {
            assert(all.take(i + 1).drop_last() =~= all.take(i as int));
            assert(all.take(i + 1).last() == dirs@[i as int]@);
        }
        if path::is_absolute(dirs[i].as_str()) && shim_dir(dirs[i].as_str()) {
            let shim = path::join(dirs[i].as_str(), name);
            let ghost added = shim@;
            out.push(shim);
            proof {
                assert(text::texts(out@) =~= done.push(added));
            }
        }
        i = i + 1;
    }
    proof {
        assert(all.take(all.len() as int) =~= all);
    }
    out
}

/// The places where an installed copy of a command can be: the entry of that
/// name in every directory of the search path, but for the invoked one.
pub open spec fn copies_on(
    dirs: Seq<Seq<char>>,
    cwd: Seq<char>,
    name: Seq<char>,
    invoked: Seq<char>,
) -> Seq<Seq<char>>
    decreases dirs.len(),
{
    if dirs.len() == 0 {
        Seq::<Seq<char>>::empty()
    } else {
        let init = copies_on(dirs.drop_last(), cwd, name, invoked);
        let candidate = path::joined(path::joined(cwd, dirs.last()), name);
        if path::same_path(candidate, invoked) {
            init
        } else {
            init.push(candidate)
        }
    }
}

/// The places where an installed copy of a command can be, in the order of the
/// search path.
pub fn find_installed_copy(search: &str, cwd: &str, name: &str, invoked: &str) -> (r: Vec<String>)
    ensures
        text::texts(r@) == copies_on(text::split(search@, ':'), cwd@, name@, invoked@),
{
    let dirs = text::split_on(search, ':');
    let ghost all = text::texts(dirs@);
    let mut out: Vec<String> = Vec::new();
    let mut i: usize = 0;
    proof {
        assert(text::texts(out@) =~= copies_on(all.take(0), cwd@, name@, invoked@));
    }
    while i < dirs.len()
        invariant
            i <= dirs.len(),
            all == text::texts(dirs@),
            text::texts(out@) == copies_on(all.take(i as int), cwd@, name@, invoked@),
        decreases dirs.len() - i,
    {
        let ghost done = text::texts(out@);
        proof {
            assert(all.take(i + 1).drop_last() =~= all.take(i as int));
            assert(all.take(i + 1).last() == dirs@[i as int]@);
        }
        let dir = path::join(cwd, dirs[i].as_str());
        let candidate = path::join(dir.as_str(), name);
        if !path::same(candidate.as_str(), invoked) {
            let ghost added = candidate@;
            out.push(candidate);
            proof {
                assert(text::texts(out@) =~= done.push(added));
            }
        }
        i = i + 1;
    }
    proof {
        assert(all.take(all.len() as int) =~= all);
    }
    out
}

/// The process and the log of the build that a tree's state records.
pub open spec fn build_record(state: json::Doc) -> Option<(u32, Seq<char>)> {
    match json::member(state, "build"@) {
        None => None,
        Some(build) => {
            let pid = json::natural_of(json::member(build, "pid"@));
            let log = json::text_of(json::member(build, "log"@));
            match (pid, log) {
                (Some(n), Some(l)) if n <= u32::MAX => Some((n as u32, l)),
                _ => None,
            }
        },
    }
}

/// The process and the log of the build that a tree's state records, where it
/// records one.
pub fn recorded_build(state: &json::Json) -> (r: Option<(u32, String)>)
    ensures
        r is Some == (build_record(state@) is Some),
        r matches Some(p) ==> build_record(state@) == Some((p.0, p.1@)),
{
    match state.get("build") {
        None => None,
        Some(build) => {
            let pid: Option<u64> = match build.get("pid") {
                Some(v) => v.as_natural(),
                None => None,
            };
            let log = match build.get("log") {
                Some(v) => v.as_text(),
                None => None,
            };
            match (pid, log) {
                (Some(n), Some(l)) => {
                    if n <= 0xffff_ffff {
                        Some((n as u32, l.clone()))
                    } else {
                        None
                    }
                },
                _ => None,
            }
        },
    }
}

/// The build that is in progress, as a tree's files say: its status file says
/// so, and its state names the process and the log.
pub open spec fn running_build(status: Option<Seq<char>>, state: Seq<u8>) -> Option<(
    u32,
    Seq<char>,
)> {
    match status {
        Some(s) if text::trim(s) == "running"@ => match json::json_document(state) {
            Some(j) => build_record(j),
            None => None,
        },
        _ => None,
    }
}

/// The process and the log of the build in progress, out of a tree's status
/// file and state.
pub fn recorded_build_progress(status: &Option<String>, state: &[u8]) -> (r: Option<(u32, String)>)
    ensures
        r is Some == (running_build(text::opt(*status), state@) is Some),
        r matches Some(p) ==> running_build(text::opt(*status), state@) == Some((p.0, p.1@)),
{
    let running = match status {
        Some(s) => {
            let t = text::trimmed(s.as_str());
            text::same(t.as_str(), "running")
        },
        None => false,
    };
    if !running {
        return None;
    }
    match json::parse(state) {
        Some(j) => recorded_build(&j),
        None => None,
    }
}

/// What is said of a build whose process is alive.
pub fn progress_note(log: &str) -> (r: String)
    ensures
        r@ == "; the build is in progress; watch log `"@ + log@ + "`"@,
{
    "; the build is in progress; watch log `".to_owned().concat(log).concat("`")
}

// ---------------------------------------------------------------------------
// Detached children and errors
// ---------------------------------------------------------------------------

/// What a supervisor wrote after the line with its number.
pub open spec fn detached_error(report: Seq<char>) -> Seq<char> {
    if text::lines(report).len() == 0 {
        Seq::<char>::empty()
    } else {
        text::join(text::lines(report).skip(1), "\n"@)
    }
}

/// The number that a supervisor reported, where it reported nothing else.
pub open spec fn detached_pid(report: Seq<char>) -> Option<nat> {
    if text::lines(report).len() == 0 || detached_error(report).len() > 0 {
        None
    } else {
        text::parse_natural(text::lines(report)[0], u32::MAX as nat)
    }
}

/// Reads what a detached supervisor reported: its number, and then nothing
/// unless the command could not be started.
pub fn detached_result(program: &str, report: &str) -> (r: Result<u32, CoreError>)
    ensures
        r is Ok == (detached_pid(report@) is Some),
        r matches Ok(pid) ==> detached_pid(report@) == Some(pid as nat),
        r matches Err(e) ==> e@ == error::fault(
            ExitClass::External,
            "SPAWN_FAILED"@,
            "could not spawn detached `"@ + program@ + "`: "@ + if detached_error(report@).len()
                == 0 {
                text::trim(report@)
            } else {
                detached_error(report@)
            },
            "verify that the command is executable and retry"@,
        ),
{
    let mut lines = text::lines_of(report);
    let ghost all = text::lines(report@);
    proof {
        assert(all.len() == lines@.len());
    }
    let pid: Option<u64> = if lines.len() > 0 {
        proof {
            assert(all[0] == lines@[0]@);
        }
        text::parse_number(lines[0].as_str(), 0xffff_ffff)
    } else {
        None
    };
    let child_error = if lines.len() > 0 {
        let _ = lines.remove(0);
        proof {
            assert(text::texts(lines@) =~= all.skip(1));
        }
        text::join_with(&lines, "\n")
    } else {
        String::new()
    };
    let quiet = child_error.as_str().is_empty();
    proof {
        assert(child_error@ =~= detached_error(report@));
    }
    if quiet && pid.is_some() {
        return Ok(pid.unwrap() as u32);
    }
    let reason = if quiet {
        text::trimmed(report)
    } else {
        child_error
    };
    let message = "could not spawn detached `".to_owned().concat(program).concat("`: ").concat(
        reason.as_str(),
    );
    Err(
        CoreError::new(
            ExitClass::External,
            "SPAWN_FAILED",
            message.as_str(),
            "verify that the command is executable and retry",
        ),
    )
}

/// The error of a command that could not be started.
pub fn spawn_error(program: &str, why: &str) -> (r: CoreError)
    ensures
        r@ == error::fault(
            ExitClass::External,
            "SPAWN_FAILED"@,
            "could not spawn `"@ + program@ + "`: "@ + why@,
            "install the command and verify that it is executable"@,
        ),
{
    let message = "could not spawn `".to_owned().concat(program).concat("`: ").concat(why);
    CoreError::new(
        ExitClass::External,
        "SPAWN_FAILED",
        message.as_str(),
        "install the command and verify that it is executable",
    )
}

/// The error of an operation on a process that failed.
pub fn io_error(context: &str, why: &str) -> (r: CoreError)
    ensures
        r@ == error::fault(
            ExitClass::Internal,
            "IO_FAILED"@,
            context@ + ": "@ + why@,
            "retry the operation; if it repeats, inspect filesystem and process permissions"@,
        ),
{
    let message = context.to_owned().concat(": ").concat(why);
    CoreError::new(
        ExitClass::Internal,
        "IO_FAILED",
        message.as_str(),
        "retry the operation; if it repeats, inspect filesystem and process permissions",
    )
}

/// The error of a child without an output pipe.
pub fn pipe_error() -> (r: CoreError)
    ensures
        r@ == error::fault(
            ExitClass::Internal,
            "PIPE_MISSING"@,
            "spawned child has no output pipe"@,
            "retry the operation"@,
        ),
{
    CoreError::new(
        ExitClass::Internal,
        "PIPE_MISSING",
        "spawned child has no output pipe",
        "retry the operation",
    )
}

// ---------------------------------------------------------------------------
// The record of what is run
// ---------------------------------------------------------------------------

/// The fields of the record of a command.
pub open spec fn spawn_fields(request: CommandRequest) -> Seq<(Seq<char>, json::Plain)> {
    seq![
        ("program"@, json::Plain::Text(request.program@)),
        ("args"@, json::Plain::Texts(text::texts(request.args@))),
        (
            "cwd"@,
            match request.cwd {
                Some(cwd) => json::Plain::Text(cwd@),
                None => json::Plain::Nothing,
            },
        ),
    ]
}

/// The line that records that a command is run.
pub fn spawn_tracer(request: &CommandRequest) -> (r: String)
    ensures
        r@ == json::object_text(spawn_fields(*request)) + "\n"@,
{
    let mut record: Vec<(String, json::Scalar)> = Vec::new();
    record.push(json::field("program", json::Scalar::Text(request.program.clone())));
    record.push(json::field("args", json::Scalar::Texts(copy_texts(&request.args))));
    let cwd = match &request.cwd {
        Some(cwd) => json::Scalar::Text(cwd.clone()),
        None => json::Scalar::Nothing,
    };
    record.push(json::field("cwd", cwd));
    proof {
        assert(json::fields(record@) =~= spawn_fields(*request));
    }
    json::write_object(&record).concat("\n")
}

/// A probe finds what its status says: nothing is said of one that ran out of time.
pub proof fn what_a_probe_finds(timed_out: bool, child: ChildStatus)
    ensures
        probed(timed_out, child) == Found::FailedTimeout <==> timed_out,
        probed(timed_out, child) == Found::Present <==> !timed_out && child.code == Some(0i32),
        probed(timed_out, child) == Found::Absent <==> !timed_out && child.code == Some(1i32),
        probed(timed_out, child) matches Found::FailedExit(code) ==> child.code == Some(code) && code
            >= 2,
        !timed_out && child.code is Some && child.code->0 >= 2 ==> probed(timed_out, child)
            == Found::FailedExit(child.code->0),
        probed(timed_out, child) is FailedSpawn <==> !timed_out && (child.code is None
            || child.code->0 < 0),
{
}

/// A terminal is done only once its child has ended and nothing more comes; a child that
/// has not is waited for until its time is over, and then terminated.
pub proof fn when_a_terminal_is_done(exited: bool, ended: bool, expired: bool, grew: bool)
    ensures
        pty_next(exited, ended, expired) == PtyStep::Done <==> exited && ended,
        pty_next(exited, ended, expired) == PtyStep::Linger <==> exited && !ended,
        pty_next(exited, ended, expired) == (PtyStep::Expire { terminate: true }) <==> !exited
            && expired,
        pty_next(exited, ended, expired) == PtyStep::Poll <==> !exited && !expired,
        pty_lingered(ended, grew, expired) == PtyStep::Done <==> ended || !grew,
        pty_lingered(ended, grew, expired) == (PtyStep::Expire { terminate: false }) <==> !ended
            && grew && expired,
{
}

/// The first directory that has something to run is found, and none only where none has.
pub proof fn the_first_runnable_is_found(runnable: Seq<bool>, count: int, from: int)
    requires
        0 <= from,
        count <= runnable.len(),
    ensures
        match first_runnable(runnable, count, from) {
            Some(i) => from <= i < count && runnable[i] && forall|k: int|
                from <= k < i ==> !#[trigger] runnable[k],
            None => forall|k: int| from <= k < count ==> !#[trigger] runnable[k],
        },
    decreases count - from,
{
    if from < count && !runnable[from] {
        the_first_runnable_is_found(runnable, count, from + 1);
    }
}

/// An owned command runs exactly where all its directories lie in the tree and one of them
/// has it, and it is the first of these.
pub proof fn what_an_owned_command_runs(o: Invocation, name: Seq<char>, root: Seq<char>, i: int)
    requires
        0 <= i < text::split(o.wt_bin@, ':').len() <= o.runnable@.len(),
        forall|k: int| 0 <= k < i ==> !#[trigger] o.runnable@[k],
        o.runnable@[i],
    ensures
        owned_dispatch(o, name, root) == Dispatch::Run(
            path::joined(text::split(o.wt_bin@, ':')[i], name),
        ) || owned_dispatch(o, name, root) is Refuse,
        owned_dispatch(o, name, root) is Refuse <==> !(forall|k: int|
            0 <= k < text::split(o.wt_bin@, ':').len() ==> contained(
                root,
                #[trigger] text::split(o.wt_bin@, ':')[k],
            )),
{
    the_first_runnable_is_found(o.runnable@, text::split(o.wt_bin@, ':').len() as int, 0);
}

/// Each directory of shims on the path is tried, and no other directory.
pub proof fn every_shim_on_the_path_is_tried(dirs: Seq<Seq<char>>, name: Seq<char>, y: Seq<char>)
    ensures
        shims_on(dirs, name).contains(y) <==> (exists|i: int|
            0 <= i < dirs.len() && path::absolute((#[trigger] dirs[i])) && is_shim_dir(dirs[i]) && y == path::joined(dirs[i], name)),
    decreases dirs.len(),
{
    let all = shims_on(dirs, name);
    if dirs.len() > 0 {
        let rest = dirs.drop_last();
        let some = shims_on(rest, name);
        every_shim_on_the_path_is_tried(rest, name, y);
        if all.contains(y) {
            let k = choose|k: int| 0 <= k < all.len() && all[k] == y;
            if k < some.len() {
                assert(some[k] == y);
                let i = choose|i: int| 0 <= i < rest.len() && path::absolute((#[trigger] rest[i])) && is_shim_dir(rest[i]) && y == path::joined(rest[i], name);
                assert(dirs[i] == rest[i]);
            } else {
                assert(path::absolute(dirs[rest.len() as int]) && is_shim_dir(dirs[rest.len() as int]) && y == path::joined(dirs[rest.len() as int], name));
            }
        }
        if exists|i: int| 0 <= i < dirs.len() && path::absolute((#[trigger] dirs[i])) && is_shim_dir(dirs[i]) && y == path::joined(dirs[i], name) {
            let i = choose|i: int| 0 <= i < dirs.len() && path::absolute((#[trigger] dirs[i])) && is_shim_dir(dirs[i]) && y == path::joined(dirs[i], name);
            if i < rest.len() {
                assert(rest[i] == dirs[i]);
                let k = choose|k: int| 0 <= k < some.len() && some[k] == y;
                assert(all[k] == y);
            } else {
                assert(all[all.len() - 1] == y);
            }
        }
    }
}

/// Each directory on the path is tried for a copy, but for the one that was invoked.
pub proof fn every_other_copy_is_tried(dirs: Seq<Seq<char>>, cwd: Seq<char>, name: Seq<char>, invoked: Seq<char>, y: Seq<char>)
    ensures
        copies_on(dirs, cwd, name, invoked).contains(y) <==> (exists|i: int|
            0 <= i < dirs.len() && !path::same_path(path::joined(path::joined(cwd, (#[trigger] dirs[i])), name), invoked) && y == path::joined(path::joined(cwd, dirs[i]), name)),
    decreases dirs.len(),
{
    let all = copies_on(dirs, cwd, name, invoked);
    if dirs.len() > 0 {
        let rest = dirs.drop_last();
        let some = copies_on(rest, cwd, name, invoked);
        every_other_copy_is_tried(rest, cwd, name, invoked, y);
        if all.contains(y) {
            let k = choose|k: int| 0 <= k < all.len() && all[k] == y;
            if k < some.len() {
                assert(some[k] == y);
                let i = choose|i: int| 0 <= i < rest.len() && !path::same_path(path::joined(path::joined(cwd, (#[trigger] rest[i])), name), invoked) && y == path::joined(path::joined(cwd, rest[i]), name);
                assert(dirs[i] == rest[i]);
            } else {
                assert(!path::same_path(path::joined(path::joined(cwd, dirs[rest.len() as int]), name), invoked) && y == path::joined(path::joined(cwd, dirs[rest.len() as int]), name));
            }
        }
        if exists|i: int| 0 <= i < dirs.len() && !path::same_path(path::joined(path::joined(cwd, (#[trigger] dirs[i])), name), invoked) && y == path::joined(path::joined(cwd, dirs[i]), name) {
            let i = choose|i: int| 0 <= i < dirs.len() && !path::same_path(path::joined(path::joined(cwd, (#[trigger] dirs[i])), name), invoked) && y == path::joined(path::joined(cwd, dirs[i]), name);
            if i < rest.len() {
                assert(rest[i] == dirs[i]);
                let k = choose|k: int| 0 <= k < some.len() && some[k] == y;
                assert(all[k] == y);
            } else {
                assert(all[all.len() - 1] == y);
            }
        }
    }
}

} // verus!
