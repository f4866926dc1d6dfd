//! tmux: the command lines it is given and how its answers are read.

use vstd::prelude::*;
use vstd::string::*;

use crate::assoc;
use crate::assoc::Assoc;
use crate::error;
use crate::error::{CoreError, ExitClass};
use crate::path;
use crate::proc;
use crate::proc::{CommandRequest, ProcessOutput};
use crate::text;

verus! {

broadcast use vstd::string::group_string_axioms;

/// How long, in milliseconds, a new session is watched.
pub const SESSION_START_OBSERVATION: u64 = 250;

/// How long, in milliseconds, to wait between two looks at a session.
pub const POLL: u64 = 10;

/// The longest that the output of a session that ended is waited for, in
/// milliseconds.
pub const REASON_WAIT: u64 = 1000;

/// A tmux, how long it may take, and what it is given in its environment.
#[derive(Debug)]
pub struct Tmux {
    pub program: String,
    pub deadline: u64,
    pub env: Assoc<String>,
}

/// The target that means one session and no other whose name begins alike.
pub open spec fn exact(session: Seq<char>) -> Seq<char> {
    "="@ + session
}

/// The target that means one session.
pub fn exact_target(session: &str) -> (r: String)
    ensures
        r@ == exact(session@),
{
    "=".to_owned().concat(session)
}

/// The target that means the pane of one session.
pub fn exact_pane_target(session: &str) -> (r: String)
    ensures
        r@ == exact(session@) + ":"@,
{
    "=".to_owned().concat(session).concat(":")
}

/// A path as one word of a shell.
pub open spec fn quoted(p: Seq<char>) -> Seq<char> {
    "'"@ + text::replace(p, '\'', "'\\''"@) + "'"@
}

/// A path as one word of a shell.
pub fn shell_quote(p: &str) -> (r: String)
    ensures
        r@ == quoted(p@),
{
    let inner = text::replaced(p, '\'', "'\\''");
    "'".to_owned().concat(inner.as_str()).concat("'")
}

/// What a shell makes of a word that holds nothing but text in single quotes and
/// characters behind a backslash: `open` where the word is inside of quotes.
/// Nothing where the word ends inside of them or holds anything else.
pub open spec fn shell_word(word: Seq<char>, open: bool) -> Option<Seq<char>>
    decreases word.len(),
{
    if word.len() == 0 {
        if open {
            None
        } else {
            Some(Seq::<char>::empty())
        }
    } else if open {
        if word[0] == '\'' {
            shell_word(word.skip(1), false)
        } else {
            match shell_word(word.skip(1), true) {
                Some(rest) => Some(seq![word[0]] + rest),
                None => None,
            }
        }
    } else if word[0] == '\'' {
        shell_word(word.skip(1), true)
    } else if word[0] == '\\' && word.len() > 1 {
        match shell_word(word.skip(2), false) {
            Some(rest) => Some(seq![word[1]] + rest),
            None => None,
        }
    } else {
        None
    }
}

proof fn lemma_replace_front(p: Seq<char>, c: char, with: Seq<char>)
    requires
        p.len() > 0,
    ensures
        text::replace(p, c, with) == (if p[0] == c {
            with
        } else {
            seq![p[0]]
        }) + text::replace(p.skip(1), c, with),
    decreases p.len(),
{
    let front = if p[0] == c {
        with
    } else {
        seq![p[0]]
    };
    if p.len() == 1 {
        assert(p.drop_last() =~= Seq::<char>::empty());
        assert(p.skip(1) =~= Seq::<char>::empty());
        assert(text::replace(Seq::<char>::empty(), c, with) =~= Seq::<char>::empty());
        assert(text::replace(p, c, with) =~= front);
        assert(front + Seq::<char>::empty() =~= front);
    } else {
        lemma_replace_front(p.drop_last(), c, with);
        assert(p.drop_last().skip(1) =~= p.skip(1).drop_last());
        let mid = text::replace(p.drop_last().skip(1), c, with);
        if p.last() == c {
            assert((front + mid) + with =~= front + (mid + with));
        } else {
            assert((front + mid).push(p.last()) =~= front + mid.push(p.last()));
        }
    }
}

proof fn lemma_quote_reads(p: Seq<char>)
    ensures
        shell_word(text::replace(p, '\'', "'\\''"@) + "'"@, true) == Some(p),
    decreases p.len(),
{
    reveal_strlit("'");
    reveal_strlit("'\\''");
    let end = "'"@;
    let with = "'\\''"@;
    assert(end =~= seq!['\'']);
    assert(with =~= seq!['\'', '\\', '\'', '\'']);
    if p.len() == 0 {
        assert(text::replace(p, '\'', with) + end =~= end);
        assert(end.skip(1) =~= Seq::<char>::empty());
        reveal_with_fuel(shell_word, 2);
        assert(p =~= Seq::<char>::empty());
    } else {
        lemma_replace_front(p, '\'', with);
        lemma_quote_reads(p.skip(1));
        let tail = text::replace(p.skip(1), '\'', with) + end;
        let word = text::replace(p, '\'', with) + end;
        if p[0] == '\'' {
            assert(word =~= with + tail);
            assert(word.skip(1).skip(2).skip(1) =~= tail);
            assert(word[0] == '\'' && word.skip(1)[0] == '\\' && word.skip(1)[1] == '\'');
            assert(word.skip(1).skip(2)[0] == '\'');
            assert(shell_word(word.skip(1).skip(2), false) == shell_word(tail, true));
            assert(shell_word(word.skip(1), false) == Some(seq!['\''] + p.skip(1)));
        } else {
            assert(word =~= seq![p[0]] + tail);
            assert(word.skip(1) =~= tail);
        }
        assert(seq![p[0]] + p.skip(1) =~= p);
    }
}

/// A quoted path is one word of a shell, and means the path.
pub proof fn quoting_reads_back(p: Seq<char>)
    ensures
        shell_word(quoted(p), false) == Some(p),
{
    lemma_quote_reads(p);
    reveal_strlit("'");
    let inner = text::replace(p, '\'', "'\\''"@) + "'"@;
    assert(quoted(p) =~= "'"@ + inner);
    assert(quoted(p).skip(1) =~= inner);
    assert(quoted(p)[0] == '\'');
}

// ---------------------------------------------------------------------------
// Errors
// ---------------------------------------------------------------------------

/// What is wrong with a tmux command that failed.
pub open spec fn failure(action: Seq<char>, output: ProcessOutput) -> error::Fault {
    error::fault(
        ExitClass::External,
        "TMUX_FAILED"@,
        action + " failed with status "@ + text::signed_decimal(output.child.mapped()) + ": "@
            + text::trim(text::utf8_lossy(output.stderr@)),
        "inspect tmux's error and retry"@,
    )
}

/// The error of a tmux command that failed.
pub fn tmux_failed(action: &str, output: &ProcessOutput) -> (r: CoreError)
    requires
        output.child.valid(),
    ensures
        r@ == failure(action@, *output),
{
    let said = text::lossy(output.stderr.as_slice());
    let said = text::trimmed(said.as_str());
    let status = text::signed_decimal_of(output.mapped_exit() as i64);
    let message = action.to_owned().concat(" failed with status ").concat(status.as_str()).concat(
        ": ",
    ).concat(said.as_str());
    CoreError::new(
        ExitClass::External,
        "TMUX_FAILED",
        message.as_str(),
        "inspect tmux's error and retry",
    )
}

/// Takes the output of a command that ended well and in time; else the error.
pub fn success(output: ProcessOutput, action: &str) -> (r: Result<ProcessOutput, CoreError>)
    requires
        output.child.valid(),
    ensures
        r is Ok == output.succeeded(),
        r matches Ok(o) ==> o == output,
        r matches Err(e) ==> e@ == if output.timed_out {
            error::fault(
                ExitClass::Timeout,
                "TIMEOUT"@,
                action@ + " timed out"@,
                "retry after tmux becomes responsive"@,
            )
        } else {
            failure(action@, output)
        },
{
    if output.timed_out {
        let message = action.to_owned().concat(" timed out");
        return Err(
            CoreError::new(
                ExitClass::Timeout,
                "TIMEOUT",
                message.as_str(),
                "retry after tmux becomes responsive",
            ),
        );
    }
    if !output.success() {
        return Err(tmux_failed(action, &output));
    }
    Ok(output)
}

/// The error of a tmux that did not run: one that could not be started is missing,
/// any other stands as it is.
pub fn tool_error(error: &CoreError) -> (r: CoreError)
    ensures
        r@ == if error@.code == "SPAWN_FAILED"@ {
            error::fault(
                ExitClass::State,
                "TOOL_MISSING"@,
                "tmux is not installed or executable ("@ + error@.message + ")"@,
                "install tmux 3.2 or newer"@,
            )
        } else {
            error@
        },
{
    if text::same(error.code.as_str(), "SPAWN_FAILED") {
        let message = "tmux is not installed or executable (".to_owned().concat(
            error.message.as_str(),
        ).concat(")");
        CoreError::new(
            ExitClass::State,
            "TOOL_MISSING",
            message.as_str(),
            "install tmux 3.2 or newer",
        )
    } else {
        error.copy()
    }
}

// ---------------------------------------------------------------------------
// The version
// ---------------------------------------------------------------------------

/// The digits at the front of a text.
pub open spec fn digits_of(value: Seq<char>) -> Seq<char>
    decreases value.len(),
{
    if value.len() == 0 || !text::is_digit(value[0]) {
        Seq::<char>::empty()
    } else {
        seq![value[0]] + digits_of(value.skip(1))
    }
}

/// The number at the front of a text, or 0 where there is none that fits.
pub open spec fn leading_number(value: Seq<char>) -> nat {
    match text::parse_natural(digits_of(value), u32::MAX as nat) {
        Some(n) => n,
        None => 0,
    }
}

/// The number at the front of a text.
pub fn numeric_prefix(value: &str) -> (r: u32)
    ensures
        r == leading_number(value@),
{
    let a = text::chars_of(value);
    let mut digits = String::new();
    let mut i: usize = 0;
    proof {
        assert(a@.skip(0) =~= a@);
        assert(digits@ + digits_of(a@) =~= digits_of(a@));
    }
    while i < a.len() && text::digit(a[i])
        invariant
            i <= a.len(),
            a@ == value@,
            digits@ + digits_of(a@.skip(i as int)) == digits_of(a@),
        decreases a.len() - i,
    {
        let ghost before = digits@;
        digits.push(a[i]);
        proof {
            let rest = a@.skip(i as int);
            assert(rest[0] == a@[i as int]);
            assert(rest.skip(1) =~= a@.skip(i + 1));
            assert(before + (seq![rest[0]] + digits_of(rest.skip(1))) =~= before.push(rest[0])
                + digits_of(rest.skip(1)));
        }
        i = i + 1;
    }
    proof {
        let rest = a@.skip(i as int);
        if i < a@.len() {
            assert(rest[0] == a@[i as int]);
        }
        assert(digits_of(rest) =~= Seq::<char>::empty());
        assert(digits@ + Seq::<char>::empty() =~= digits@);
    }
    match text::parse_number(digits.as_str(), 0xffff_ffff) {
        Some(n) => n as u32,
        None => 0,
    }
}

/// A text from its first digit on.
pub open spec fn from_digit(word: Seq<char>) -> Option<Seq<char>>
    decreases word.len(),
{
    if word.len() == 0 {
        None
    } else if text::is_digit(word[0]) {
        Some(word)
    } else {
        from_digit(word.skip(1))
    }
}

/// The first word that holds a digit, from it on; or nothing.
pub open spec fn version_text(words: Seq<Seq<char>>) -> Seq<char>
    decreases words.len(),
{
    if words.len() == 0 {
        Seq::<char>::empty()
    } else {
        match from_digit(words[0]) {
            Some(v) => v,
            None => version_text(words.skip(1)),
        }
    }
}

/// The piece at a position, or nothing.
pub open spec fn piece_or_empty(pieces: Seq<Seq<char>>, i: int) -> Seq<char> {
    if i < pieces.len() {
        pieces[i]
    } else {
        Seq::<char>::empty()
    }
}

/// The version that tmux printed.
pub open spec fn version_of(said: Seq<char>) -> (nat, nat) {
    let parts = text::split(version_text(text::words(said)), '.');
    (leading_number(piece_or_empty(parts, 0)), leading_number(piece_or_empty(parts, 1)))
}

/// Whether a version is older than 3.2.
pub open spec fn too_old(version: (nat, nat)) -> bool {
    version.0 < 3 || (version.0 == 3 && version.1 < 2)
}

fn word_from_digit(word: &str) -> (r: Option<String>)
    ensures
        text::opt(r) == from_digit(word@),
{
    let a = text::chars_of(word);
    let mut i: usize = 0;
    proof {
        assert(a@.skip(0) =~= a@);
    }
    while i < a.len()
        invariant
            i <= a.len(),
            a@ == word@,
            from_digit(a@) == from_digit(a@.skip(i as int)),
        decreases a.len() - i,
    {
        proof {
            assert(a@.skip(i as int)[0] == a@[i as int]);
            assert(a@.skip(i as int).skip(1) =~= a@.skip(i + 1));
        }
        if text::digit(a[i]) {
            proof {
                assert(a@.subrange(i as int, a@.len() as int) =~= a@.skip(i as int));
            }
            return Some(text::slice(&a, i, a.len()));
        }
        i = i + 1;
    }
    None
}

/// Reads the version that tmux printed, and refuses one older than 3.2.
pub fn check_version(stdout: &[u8]) -> (r: Result<(u32, u32), CoreError>)
    ensures
        ({
            let v = version_of(text::utf8_lossy(stdout@));
            if too_old(v) {
                r matches Err(e) && e@ == error::fault(
                    ExitClass::State,
                    "TMUX_OLD"@,
                    "tmux "@ + text::decimal(v.0) + "."@ + text::decimal(v.1)
                        + " is older than 3.2"@,
                    "upgrade tmux to version 3.2 or newer"@,
                )
            } else {
                r matches Ok(found) && (found.0 as nat, found.1 as nat) == v
            }
        }),
{
    let said = text::lossy(stdout);
    let words = text::words_of(said.as_str());
    let ghost all = text::words(said@);
    let mut version = String::new();
    let mut looking = true;
    let mut i: usize = 0;
    proof {
        assert(all.skip(0) =~= all);
    }
    while i < words.len() && looking
        invariant
            i <= words.len(),
            all == text::texts(words@),
            all.len() == words@.len(),
            looking ==> version@.len() == 0 && version_text(all) == version_text(
                all.skip(i as int),
            ),
            !looking ==> version@ == version_text(all),
        decreases words.len() - i,
    {
        proof {
            assert(all.skip(i as int)[0] == words@[i as int]@);
            assert(all.skip(i as int).skip(1) =~= all.skip(i + 1));
        }
        if let Some(found) = word_from_digit(words[i].as_str()) {
            version = found;
            looking = false;
        }
        i = i + 1;
    }
    proof {
        if looking {
            assert(version@ =~= Seq::<char>::empty());
        }
    }
    let parts = text::split_on(version.as_str(), '.');
    let ghost pieces = text::texts(parts@);
    proof {
        assert(pieces.len() == parts@.len());
    }
    let first = if parts.len() > 0 {
        parts[0].clone()
    } else {
        String::new()
    };
    let second = if parts.len() > 1 {
        parts[1].clone()
    } else {
        String::new()
    };
    proof {
        assert(first@ =~= piece_or_empty(pieces, 0));
        assert(second@ =~= piece_or_empty(pieces, 1));
    }
    let major: u32 = numeric_prefix(first.as_str());
    let minor: u32 = numeric_prefix(second.as_str());
    if major < 3 || (major == 3 && minor < 2) {
        let message = "tmux ".to_owned().concat(text::decimal_of(major as u64).as_str()).concat(
            ".",
        ).concat(text::decimal_of(minor as u64).as_str()).concat(" is older than 3.2");
        return Err(
            CoreError::new(
                ExitClass::State,
                "TMUX_OLD",
                message.as_str(),
                "upgrade tmux to version 3.2 or newer",
            ),
        );
    }
    Ok((major, minor))
}

// ---------------------------------------------------------------------------
// Sessions
// ---------------------------------------------------------------------------

/// Reads the list of sessions. No server means no sessions.
pub fn session_names(output: &ProcessOutput) -> (r: Result<Vec<String>, CoreError>)
    requires
        output.child.valid(),
    ensures
        r is Ok == (output.child.code == Some(0i32) || output.child.code == Some(1i32)),
        r matches Ok(names) ==> assoc::set_of(
            text::texts(names@),
            if output.child.code == Some(0i32) {
                text::lines(text::utf8_lossy(output.stdout@))
            } else {
                Seq::<Seq<char>>::empty()
            },
        ),
        r matches Err(e) ==> e@ == failure("list sessions"@, *output),
{
    let code: i32 = match output.child.code {
        Some(code) => code,
        None => -1,
    };
    if code == 0 {
        let said = text::lossy(output.stdout.as_slice());
        let names = text::lines_of(said.as_str());
        Ok(assoc::sorted_set(&names))
    } else if code == 1 {
        let none: Vec<String> = Vec::new();
        proof {
            assert(text::texts(none@) =~= Seq::<Seq<char>>::empty());
        }
        Ok(none)
    } else {
        Err(tmux_failed("list sessions", output))
    }
}

/// Reads whether a session is there.
pub fn has_session(output: &ProcessOutput) -> (r: Result<bool, CoreError>)
    requires
        output.child.valid(),
    ensures
        r is Ok == (output.child.code == Some(0i32) || output.child.code == Some(1i32)),
        r matches Ok(there) ==> there == (output.child.code == Some(0i32)),
        r matches Err(e) ==> e@ == failure("query session"@, *output),
{
    let code: i32 = match output.child.code {
        Some(code) => code,
        None => -1,
    };
    if code == 0 {
        Ok(true)
    } else if code == 1 {
        Ok(false)
    } else {
        Err(tmux_failed("query session", output))
    }
}

/// What a session waits for before its command runs: the file that says that its
/// output is being captured, at most ten seconds.
pub open spec fn bootstrap() -> Seq<char> {
    "gate=$1; shift; i=0; while [ ! -f \"$gate\" ] && [ \"$i\" -lt 1000 ]; do i=$((i + 1)); sleep 0.01; done; [ -f \"$gate\" ] || { echo 'wt session bootstrap gate timed out' >&2; exit 125; }; exec \"$@\""@
}

/// The file that lets a session begin, beside the one that captures its output.
pub open spec fn gate_of(capture: Seq<char>) -> Seq<char> {
    match path::name_of(capture) {
        None => capture,
        Some(name) => path::joined(
            match path::parent_of(capture) {
                Some(parent) => parent,
                None => Seq::<char>::empty(),
            },
            path::stem_and_extension(name).0 + ".gate"@,
        ),
    }
}

/// The file that lets a session begin.
pub fn gate_path(capture: &str) -> (r: String)
    ensures
        r@ == gate_of(capture@),
{
    match path::file_name(capture) {
        None => capture.to_owned(),
        Some(name) => {
            let (stem, _) = path::split_name(name.as_str());
            let parent = match path::parent(capture) {
                Some(parent) => parent,
                None => String::new(),
            };
            proof {
                if path::parent_of(capture@) is None {
                    assert(parent@ =~= Seq::<char>::empty());
                }
            }
            let whole = stem.concat(".gate");
            path::join(parent.as_str(), whole.as_str())
        },
    }
}

/// The arguments that make a session.
pub open spec fn session_args(
    session: Seq<char>,
    cwd: Seq<char>,
    home: Seq<char>,
    capture: Seq<char>,
    command: Seq<Seq<char>>,
) -> Seq<Seq<char>> {
    seq![
        "new-session"@,
        "-d"@,
        "-s"@,
        session,
        "-c"@,
        cwd,
        "-e"@,
        "WT_HOME="@ + home,
        "--"@,
        "/bin/sh"@,
        "-c"@,
        bootstrap(),
        "wt-session-bootstrap"@,
        gate_of(capture),
    ] + command + seq![
        ";"@,
        "pipe-pane"@,
        "-o"@,
        "-t"@,
        exact(session) + ":"@,
        "cat > "@ + quoted(capture),
    ]
}

impl Tmux {
    /// A tmux without anything in its environment.
    pub fn new(program: &str, deadline: u64) -> (r: Self)
        ensures
            r.program@ == program@,
            r.deadline == deadline,
            r.env.wf(),
            r.env@ == Map::<Seq<char>, String>::empty(),
    {
        Tmux { program: program.to_owned(), deadline, env: Assoc::new() }
    }

    /// The same with an environment.
    pub fn with_env(self, env: Assoc<String>) -> (r: Self)
        ensures
            r.program == self.program,
            r.deadline == self.deadline,
            r.env == env,
    {
        Tmux { program: self.program, deadline: self.deadline, env }
    }

    /// Whether a request is one to this tmux with the arguments.
    pub open spec fn asks(&self, request: CommandRequest, args: Seq<Seq<char>>) -> bool {
        &&& request.program@ == self.program@
        &&& text::texts(request.args@) == args
        &&& request.cwd is None
        &&& request.env.wf()
        &&& assoc::values(request.env@) == assoc::values(self.env@)
        &&& request.remove_env@.len() == 0
        &&& !request.clear_env
    }

    fn request(&self, args: proc::Args) -> (r: CommandRequest)
        requires
            self.env.wf(),
        ensures
            self.asks(r, args@),
    {
        let mut request = CommandRequest::new(self.program.as_str());
        request.args = args.list;
        request.env = assoc::copy(&self.env);
        request
    }

    /// Asks for the version.
    pub fn version_request(&self) -> (r: CommandRequest)
        requires
            self.env.wf(),
        ensures
            self.asks(r, seq!["-V"@]),
    {
        self.request(proc::Args::none().and("-V"))
    }

    /// Asks for the names of the sessions.
    pub fn list_request(&self) -> (r: CommandRequest)
        requires
            self.env.wf(),
        ensures
            self.asks(r, seq!["list-sessions"@, "-F"@, "#{session_name}"@]),
    {
        let args = proc::Args::none().and("list-sessions").and("-F").and("#{session_name}");
        proof {
            assert(args@ =~= seq!["list-sessions"@, "-F"@, "#{session_name}"@]);
        }
        self.request(args)
    }

    fn about(&self, verb: &str, session: &str) -> (r: CommandRequest)
        requires
            self.env.wf(),
        ensures
            self.asks(r, seq![verb@, "-t"@, exact(session@)]),
    {
        let target = exact_target(session);
        let args = proc::Args::none().and(verb).and("-t").and(target.as_str());
        proof {
            assert(args@ =~= seq![verb@, "-t"@, exact(session@)]);
        }
        self.request(args)
    }

    /// Asks whether a session is there.
    pub fn has_request(&self, session: &str) -> (r: CommandRequest)
        requires
            self.env.wf(),
        ensures
            self.asks(r, seq!["has-session"@, "-t"@, exact(session@)]),
    {
        self.about("has-session", session)
    }

    /// Kills a session.
    pub fn kill_session(&self, session: &str) -> (r: CommandRequest)
        requires
            self.env.wf(),
        ensures
            self.asks(r, seq!["kill-session"@, "-t"@, exact(session@)]),
    {
        self.about("kill-session", session)
    }

    /// Switches the client to a session.
    pub fn switch_client(&self, session: &str) -> (r: CommandRequest)
        requires
            self.env.wf(),
        ensures
            self.asks(r, seq!["switch-client"@, "-t"@, exact(session@)]),
    {
        self.about("switch-client", session)
    }

    /// Makes a session that runs a command once its output is captured. An empty
    /// command is refused.
    pub fn new_session(
        &self,
        session: &str,
        cwd: &str,
        home: &str,
        capture: &str,
        command: &Vec<String>,
    ) -> (r: Result<CommandRequest, CoreError>)
        requires
            self.env.wf(),
        ensures
            r is Err == (command@.len() == 0),
            r matches Err(e) ==> e@ == error::fault(
                ExitClass::State,
                "CONFIG_INVALID"@,
                "tmux session command is empty"@,
                "configure an agent start command"@,
            ),
            r matches Ok(q) ==> self.asks(
                q,
                session_args(session@, cwd@, home@, capture@, text::texts(command@)),
            ),
    {
        if command.len() == 0 {
            return Err(
                CoreError::new(
                    ExitClass::State,
                    "CONFIG_INVALID",
                    "tmux session command is empty",
                    "configure an agent start command",
                ),
            );
        }
        let home_var = "WT_HOME=".to_owned().concat(home);
        let gate = gate_path(capture);
        let pane = exact_pane_target(session);
        let quote = shell_quote(capture);
        let pipe = "cat > ".to_owned().concat(quote.as_str());
        let args = proc::Args::none().and("new-session").and("-d").and("-s").and(session).and(
            "-c",
        ).and(cwd).and("-e").and(home_var.as_str()).and("--").and("/bin/sh").and("-c").and(
            "gate=$1; shift; i=0; while [ ! -f \"$gate\" ] && [ \"$i\" -lt 1000 ]; do i=$((i + 1)); sleep 0.01; done; [ -f \"$gate\" ] || { echo 'wt session bootstrap gate timed out' >&2; exit 125; }; exec \"$@\"",
        ).and("wt-session-bootstrap").and(gate.as_str());
        let args = args.and_all(command).and(";").and("pipe-pane").and("-o").and("-t").and(
            pane.as_str(),
        ).and(pipe.as_str());
        proof {
            assert(args@ =~= session_args(
                session@,
                cwd@,
                home@,
                capture@,
                text::texts(command@),
            ));
        }
        Ok(self.request(args))
    }

    /// The arguments with which a client attaches to a session.
    pub fn attach_session(&self, session: &str) -> (r: Vec<String>)
        ensures
            text::texts(r@) == seq!["attach-session"@, "-t"@, exact(session@)],
    {
        let target = exact_target(session);
        proc::Args::none().and("attach-session").and("-t").and(target.as_str()).list
    }
}

/// The error of a client that could not attach.
pub fn attach_failed(why: &str) -> (r: CoreError)
    ensures
        r@ == error::fault(
            ExitClass::State,
            "TOOL_MISSING"@,
            "tmux is not installed or executable ("@ + ("could not attach tmux session: "@ + why@)
                + ")"@,
            "install tmux 3.2 or newer"@,
        ),
{
    let message = "could not attach tmux session: ".to_owned().concat(why);
    let error = CoreError::new(
        ExitClass::External,
        "SPAWN_FAILED",
        message.as_str(),
        "install tmux and retry",
    );
    tool_error(&error)
}

/// What to do while a new session is watched.
#[derive(Clone, Copy, Debug, PartialEq, Eq, Structural)]
pub enum StartStep {
    /// The session ended: say why.
    Ended,
    /// The session lasted.
    Started,
    /// Look again after so many milliseconds.
    Sleep(u64),
}

/// Decides what follows a look at a new session after so many milliseconds. That
/// the session is there is asked before whether the time is over.
pub fn watch_start(alive: bool, elapsed: u64) -> (r: StartStep)
    ensures
        r == if !alive {
            StartStep::Ended
        } else if elapsed >= SESSION_START_OBSERVATION {
            StartStep::Started
        } else {
            StartStep::Sleep(POLL)
        },
{
    if !alive {
        StartStep::Ended
    } else if elapsed >= SESSION_START_OBSERVATION {
        StartStep::Started
    } else {
        StartStep::Sleep(POLL)
    }
}

/// The fault of a session that ended while it was watched.
pub open spec fn ended_early(session: Seq<char>, reason: Seq<char>) -> error::Fault {
    error::fault(
        ExitClass::External,
        "SESSION_CREATE_FAILED"@,
        "tmux session `"@ + session + "` exited during the startup observation window: "@ + reason,
        "fix the session command or WT_HOME and retry"@,
    )
}

/// The error of a session that ended while it was watched.
pub fn session_ended(session: &str, reason: &str) -> (r: CoreError)
    ensures
        r@ == ended_early(session@, reason@),
{
    let message = "tmux session `".to_owned().concat(session).concat(
        "` exited during the startup observation window: ",
    ).concat(reason);
    CoreError::new(
        ExitClass::External,
        "SESSION_CREATE_FAILED",
        message.as_str(),
        "fix the session command or WT_HOME and retry",
    )
}

/// What making a session does next.
#[derive(Clone, Copy, Debug, PartialEq, Eq, Structural)]
pub enum SessionStep {
    /// Send tmux the request that makes it.
    Create,
    /// Write the file that lets it begin.
    Gate,
    /// Ask whether it is there.
    Ask,
    /// Wait so many milliseconds.
    Sleep(u64),
    /// Find out what it said before it ended.
    Reason,
    /// Remove the file that let it begin.
    RemoveGate,
    /// Remove the file that captured its output.
    RemoveCapture,
    Done,
    Failed,
}

/// What came of a step.
#[derive(Debug)]
pub enum SessionEvent {
    Failure(CoreError),
    Finished,
    /// Whether the session is there, so many milliseconds after it could begin.
    Seen { alive: bool, elapsed: u64 },
    Said(String),
}

/// What is known of an event.
pub enum SessionNews {
    Failure(error::Fault),
    Finished,
    Seen { alive: bool, elapsed: u64 },
    Said(Seq<char>),
}

impl View for SessionEvent {
    type V = SessionNews;

    open spec fn view(&self) -> SessionNews {
        match self {
            SessionEvent::Failure(e) => SessionNews::Failure(e@),
            SessionEvent::Finished => SessionNews::Finished,
            SessionEvent::Seen { alive, elapsed } => SessionNews::Seen {
                alive: *alive,
                elapsed: *elapsed,
            },
            SessionEvent::Said(s) => SessionNews::Said(s@),
        }
    }
}

/// A session that is being made: the file that captures its output, and the one that
/// lets it begin.
#[derive(Debug)]
pub struct Starting {
    pub session: String,
    pub capture: String,
    pub gate: String,
    pub step: SessionStep,
    /// What it said, where it ended early.
    pub ended: Option<String>,
    /// It was tried to remove the file that let it begin.
    pub gate_removed: bool,
    /// It was tried to remove the file that captured its output.
    pub capture_removed: bool,
    pub error: Option<CoreError>,
}

/// What is known of a session that is being made.
#[verifier::ext_equal]
pub struct Startup {
    pub session: Seq<char>,
    pub capture: Seq<char>,
    pub gate: Seq<char>,
    pub step: SessionStep,
    pub ended: Option<Seq<char>>,
    pub gate_removed: bool,
    pub capture_removed: bool,
    pub error: Option<error::Fault>,
}

impl View for Starting {
    type V = Startup;

    open spec fn view(&self) -> Startup {
        Startup {
            session: self.session@,
            capture: self.capture@,
            gate: self.gate@,
            step: self.step,
            ended: text::opt(self.ended),
            gate_removed: self.gate_removed,
            capture_removed: self.capture_removed,
            error: match self.error {
                Some(e) => Some(e@),
                None => None,
            },
        }
    }
}

/// How making a session begins.
pub open spec fn startup(session: Seq<char>, capture: Seq<char>) -> Startup {
    Startup {
        session,
        capture,
        gate: gate_of(capture),
        step: SessionStep::Create,
        ended: None,
        gate_removed: false,
        capture_removed: false,
        error: None,
    }
}

/// Making a session after something came of its step. It is watched until it ended or
/// the time is over; then both of its files go, whether that works or not. Any
/// other error ends it at once. What does not belong to the step changes nothing.
pub open spec fn started(s: Startup, news: SessionNews) -> Startup {
    match (s.step, news) {
        (SessionStep::Done, _) | (SessionStep::Failed, _) => s,
        (SessionStep::RemoveGate, SessionNews::Failure(_)) | (
            SessionStep::RemoveGate,
            SessionNews::Finished,
        ) => Startup { gate_removed: true, step: SessionStep::RemoveCapture, ..s },
        (SessionStep::RemoveCapture, SessionNews::Failure(_)) | (
            SessionStep::RemoveCapture,
            SessionNews::Finished,
        ) => match s.ended {
            Some(reason) => Startup {
                capture_removed: true,
                step: SessionStep::Failed,
                error: Some(ended_early(s.session, reason)),
                ..s
            },
            None => Startup { capture_removed: true, step: SessionStep::Done, ..s },
        },
        (_, SessionNews::Failure(e)) => Startup { step: SessionStep::Failed, error: Some(e), ..s },
        (SessionStep::Create, SessionNews::Finished) => Startup { step: SessionStep::Gate, ..s },
        (SessionStep::Gate, SessionNews::Finished) => Startup { step: SessionStep::Ask, ..s },
        (SessionStep::Ask, SessionNews::Seen { alive, elapsed }) => Startup {
            step: if !alive {
                SessionStep::Reason
            } else if elapsed >= SESSION_START_OBSERVATION {
                SessionStep::RemoveGate
            } else {
                SessionStep::Sleep(POLL)
            },
            ..s
        },
        (SessionStep::Sleep(_), SessionNews::Finished) => Startup { step: SessionStep::Ask, ..s },
        (SessionStep::Reason, SessionNews::Said(reason)) => Startup {
            ended: Some(reason),
            step: SessionStep::RemoveGate,
            ..s
        },
        _ => s,
    }
}

impl Starting {
    /// Begins to make a session.
    pub fn new(session: String, capture: String) -> (r: Self)
        ensures
            r@ == startup(session@, capture@),
    {
        let gate = gate_path(capture.as_str());
        Starting {
            session,
            capture,
            gate,
            step: SessionStep::Create,
            ended: None,
            gate_removed: false,
            capture_removed: false,
            error: None,
        }
    }

    fn swept(&mut self)
        requires
            old(self).step == SessionStep::RemoveCapture,
        ensures
            final(self)@ == started(old(self)@, SessionNews::Finished),
    {
        self.capture_removed = true;
        match &self.ended {
            Some(reason) => {
                self.error = Some(session_ended(self.session.as_str(), reason.as_str()));
                self.step = SessionStep::Failed;
            },
            None => {
                self.step = SessionStep::Done;
            },
        }
    }

    /// Takes what came of the step, and goes on to the next.
    pub fn advance(&mut self, event: SessionEvent)
        ensures
            final(self)@ == started(old(self)@, event@),
    {
        match (self.step, event) {
            (SessionStep::Done, _) | (SessionStep::Failed, _) => {},
            (SessionStep::RemoveGate, SessionEvent::Failure(_)) => {
                self.gate_removed = true;
                self.step = SessionStep::RemoveCapture;
            },
            (SessionStep::RemoveGate, SessionEvent::Finished) => {
                self.gate_removed = true;
                self.step = SessionStep::RemoveCapture;
            },
            (SessionStep::RemoveCapture, SessionEvent::Failure(_)) => {
                self.swept();
            },
            (SessionStep::RemoveCapture, SessionEvent::Finished) => {
                self.swept();
            },
            (_, SessionEvent::Failure(e)) => {
                self.error = Some(e);
                self.step = SessionStep::Failed;
            },
            (SessionStep::Create, SessionEvent::Finished) => {
                self.step = SessionStep::Gate;
            },
            (SessionStep::Gate, SessionEvent::Finished) => {
                self.step = SessionStep::Ask;
            },
            (SessionStep::Ask, SessionEvent::Seen { alive, elapsed }) => {
                self.step = match watch_start(alive, elapsed) {
                    StartStep::Ended => SessionStep::Reason,
                    StartStep::Started => SessionStep::RemoveGate,
                    StartStep::Sleep(ms) => SessionStep::Sleep(ms),
                };
            },
            (SessionStep::Sleep(_), SessionEvent::Finished) => {
                self.step = SessionStep::Ask;
            },
            (SessionStep::Reason, SessionEvent::Said(reason)) => {
                self.ended = Some(reason);
                self.step = SessionStep::RemoveGate;
            },
            _ => {},
        }
    }
}

/// Making a session after a row of events.
pub open spec fn started_all(s: Startup, news: Seq<SessionNews>) -> Startup
    decreases news.len(),
{
    if news.len() == 0 {
        s
    } else {
        started(started_all(s, news.drop_last()), news.last())
    }
}

/// A session that was made, or that ended while it was watched, leaves neither its
/// capture nor its gate behind, as far as they could be removed; and one that ended
/// early is told of with what it said.
pub proof fn a_start_sweeps_its_files(session: Seq<char>, capture: Seq<char>, news: Seq<SessionNews>)
    ensures
        ({
            let now = started_all(startup(session, capture), news);
            &&& now.gate == gate_of(capture) && now.capture == capture && now.session == session
            &&& now.step == SessionStep::Done ==> now.gate_removed && now.capture_removed
                && now.ended is None
            &&& now.step == SessionStep::Failed && now.ended is Some ==> now.gate_removed
                && now.capture_removed && now.error == Some(ended_early(session, now.ended->0))
        }),
    decreases news.len(),
{
    lemma_sweep(session, capture, news);
}

proof fn lemma_sweep(session: Seq<char>, capture: Seq<char>, news: Seq<SessionNews>)
    ensures
        ({
            let now = started_all(startup(session, capture), news);
            &&& now.gate == gate_of(capture) && now.capture == capture && now.session == session
            &&& now.step == SessionStep::RemoveCapture ==> now.gate_removed
            &&& now.ended is Some ==> now.step == SessionStep::RemoveGate || now.step
                == SessionStep::RemoveCapture || now.step == SessionStep::Failed
            &&& now.step == SessionStep::Done ==> now.gate_removed && now.capture_removed
                && now.ended is None
            &&& now.step == SessionStep::Failed && now.ended is Some ==> now.gate_removed
                && now.capture_removed && now.error == Some(ended_early(session, now.ended->0))
        }),
    decreases news.len(),
{
    if news.len() > 0 {
        lemma_sweep(session, capture, news.drop_last());
    }
}

/// What a session that ended said: what was captured, once there is anything; that
/// there was nothing, once the time is over; `None` while it is waited for.
pub fn captured_reason(captured: &Option<String>, elapsed: u64, timeout: u64) -> (r: Option<String>)
    ensures
        text::opt(r) == if *captured matches Some(s) && text::trim(s@).len() > 0 {
            Some(text::trim(captured->0@))
        } else if elapsed >= timeout || elapsed >= REASON_WAIT {
            Some("the pane exited without output"@)
        } else {
            None
        },
{
    if let Some(said) = captured {
        let said = text::trimmed(said.as_str());
        if said.as_str().unicode_len() > 0 {
            return Some(said);
        }
    }
    if elapsed >= timeout || elapsed >= REASON_WAIT {
        Some("the pane exited without output".to_owned())
    } else {
        None
    }
}

/// Which tmux is too old: one before three, or three before its second release.
pub proof fn which_tmux_is_too_old(a: (nat, nat), b: (nat, nat))
    ensures
        !too_old((3, 2)),
        too_old((3, 1)) && too_old((2, a.1)),
        (b.0 > a.0 || (b.0 == a.0 && b.1 >= a.1)) && !too_old(a) ==> !too_old(b),
        too_old(a) <==> !(a.0 > 3 || (a.0 == 3 && a.1 >= 2)),
{
}

/// A session is begun exactly where it lived through the time that it is watched for; one
/// that ended before is told with what it said, after its files were removed.
pub proof fn what_a_start_comes_to(s: Startup, alive: bool, elapsed: u64)
    ensures
        s.step == SessionStep::Ask ==> started(s, SessionNews::Seen { alive, elapsed }).step == (
        if !alive {
            SessionStep::Reason
        } else if elapsed < 250 {
            SessionStep::Sleep(POLL)
        } else {
            SessionStep::RemoveGate
        }),
        s.step == SessionStep::RemoveCapture ==> (started(s, SessionNews::Finished).step
            == SessionStep::Done <==> s.ended is None),
        s.step == SessionStep::RemoveCapture && s.ended is Some ==> started(
            s,
            SessionNews::Finished,
        ).error == Some(ended_early(s.session, s.ended->0)),
        (s.step == SessionStep::Create || s.step == SessionStep::Gate || s.step == SessionStep::Ask
            || s.step == SessionStep::Reason) ==> forall|e: error::Fault|
            (#[trigger] started(s, SessionNews::Failure(e))).error == Some(e) && started(
                s,
                SessionNews::Failure(e),
            ).step == SessionStep::Failed,
{
}

} // verus!
