//! Keys out of terminal bytes, and the bytes that draw the live region.
//!
//! The region is drawn on the main screen, so what was answered stays in the
//! scrollback. Reading the terminal and writing to it happen elsewhere; here
//! bytes become keys and lines become bytes.

use vstd::prelude::*;
use vstd::string::*;
use vstd::utf8::*;

use crate::error;
use crate::error::{CoreError, ExitClass};
use crate::text;

verus! {

broadcast use vstd::string::group_string_axioms;

/// `char::from_u32` gives the character with the given number, and nothing
/// where the number is no Unicode scalar value.
pub assume_specification[ char::from_u32 ](n: u32) -> (r: Option<char>)
    ensures
        r is Some == is_scalar(n),
        r matches Some(c) ==> c as u32 == n,
;

/// How long, in nanoseconds, an unfinished sequence waits for its rest.
pub const ESCAPE_GRACE: u64 = 40_000_000;

/// A key of the interface.
#[derive(Clone, Copy, Debug, PartialEq, Eq, Structural)]
pub enum Key {
    Interrupt,
    Escape,
    Enter,
    Space,
    Backspace,
    Up,
    Down,
    Char(char),
}

/// What the bytes at the front of the input are.
#[derive(Clone, Copy, Debug, PartialEq, Eq, Structural)]
pub enum Decoded {
    /// A key and the number of bytes that it took.
    Key(Key, usize),
    /// More bytes are needed before this is a key.
    Incomplete,
    /// So many bytes are not a key that anything acts on.
    Skip(usize),
}

/// Whether a byte ends a control sequence.
pub open spec fn is_final(byte: u8) -> bool {
    0x40 <= byte <= 0x7e
}

/// The position of the first final byte at or after `from`, or the length.
pub open spec fn final_from(bytes: Seq<u8>, from: int) -> int
    decreases bytes.len() - from,
{
    if from >= bytes.len() {
        bytes.len() as int
    } else if is_final(bytes[from]) {
        from
    } else {
        final_from(bytes, from + 1)
    }
}

/// How many bytes a character takes that begins with `first`; none where no
/// character begins so.
pub open spec fn char_width(first: u8) -> int {
    if is_leading_byte_width_1(first) {
        1
    } else if is_leading_byte_width_2(first) {
        2
    } else if is_leading_byte_width_3(first) {
        3
    } else if is_leading_byte_width_4(first) {
        4
    } else {
        0
    }
}

/// What bytes are that begin with an escape.
pub open spec fn escape_reading(bytes: Seq<u8>) -> Decoded {
    if bytes.len() < 2 {
        Decoded::Incomplete
    } else if bytes[1] == 0x5b || bytes[1] == 0x4f {
        let end = final_from(bytes, 2);
        if end >= bytes.len() {
            Decoded::Incomplete
        } else if bytes[end] == 0x41 {
            Decoded::Key(Key::Up, (end + 1) as usize)
        } else if bytes[end] == 0x42 {
            Decoded::Key(Key::Down, (end + 1) as usize)
        } else {
            Decoded::Skip((end + 1) as usize)
        }
    } else {
        Decoded::Skip(2)
    }
}

/// What bytes are that begin with a character: the character where the bytes
/// of its width are well-formed UTF-8.
pub open spec fn char_reading(bytes: Seq<u8>) -> Decoded {
    let width = char_width(bytes[0]);
    if width == 0 {
        Decoded::Skip(1)
    } else if bytes.len() < width {
        Decoded::Incomplete
    } else if valid_first_scalar(bytes.take(width)) {
        Decoded::Key(
            Key::Char(decode_first_scalar(bytes.take(width)) as char),
            width as usize,
        )
    } else {
        Decoded::Skip(width as usize)
    }
}

/// What the bytes at the front are.
pub open spec fn reading(bytes: Seq<u8>) -> Decoded {
    if bytes.len() == 0 {
        Decoded::Incomplete
    } else {
        let first = bytes[0];
        if first == 0x03 {
            Decoded::Key(Key::Interrupt, 1)
        } else if first == 0x04 {
            Decoded::Key(Key::Escape, 1)
        } else if first == 0x0d || first == 0x0a {
            Decoded::Key(Key::Enter, 1)
        } else if first == 0x20 {
            Decoded::Key(Key::Space, 1)
        } else if first == 0x7f || first == 0x08 {
            Decoded::Key(Key::Backspace, 1)
        } else if first == 0x1b {
            escape_reading(bytes)
        } else if first < 0x20 {
            Decoded::Skip(1)
        } else {
            char_reading(bytes)
        }
    }
}

/// The number of bytes that a reading takes; none while more are needed.
pub open spec fn taken(d: Decoded) -> int {
    match d {
        Decoded::Key(_, n) => n as int,
        Decoded::Skip(n) => n as int,
        Decoded::Incomplete => 0,
    }
}

proof fn lemma_final_from(bytes: Seq<u8>, from: int)
    requires
        0 <= from <= bytes.len(),
    ensures
        from <= final_from(bytes, from) <= bytes.len(),
    decreases bytes.len() - from,
{
    if from < bytes.len() && !is_final(bytes[from]) {
        lemma_final_from(bytes, from + 1);
    }
}

proof fn lemma_final_extends(bytes: Seq<u8>, more: Seq<u8>, from: int)
    requires
        0 <= from <= bytes.len(),
        final_from(bytes, from) < bytes.len(),
    ensures
        final_from(bytes + more, from) == final_from(bytes, from),
    decreases bytes.len() - from,
{
    if from < bytes.len() && !is_final(bytes[from]) {
        assert((bytes + more)[from] == bytes[from]);
        lemma_final_extends(bytes, more, from + 1);
    }
}

/// Reading makes progress and stays within the bytes: a key or a skip takes at
/// least one byte and no more than there are.
pub proof fn reading_takes_some(bytes: Seq<u8>)
    requires
        bytes.len() <= usize::MAX,
    ensures
        reading(bytes) != Decoded::Incomplete ==> 1 <= taken(reading(bytes)) <= bytes.len(),
{
    if bytes.len() >= 2 {
        lemma_final_from(bytes, 2);
    }
}

/// Bytes that arrive later never change what the bytes before them were read
/// as: only an unfinished sequence waits for them.
pub proof fn reading_is_settled(bytes: Seq<u8>, more: Seq<u8>)
    requires
        reading(bytes) != Decoded::Incomplete,
    ensures
        reading(bytes + more) == reading(bytes),
{
    let all = bytes + more;
    assert(all[0] == bytes[0]);
    if bytes[0] == 0x1b {
        assert(all[1] == bytes[1]);
        if bytes[1] == 0x5b || bytes[1] == 0x4f {
            lemma_final_from(bytes, 2);
            lemma_final_extends(bytes, more, 2);
        }
    } else {
        let width = char_width(bytes[0]);
        if width > 0 && bytes.len() >= width {
            assert(all.take(width) =~= bytes.take(width));
        }
    }
}

/// Turns the bytes at the front into one key.
pub fn decode_key(bytes: &[u8]) -> (r: Decoded)
    ensures
        r == reading(bytes@),
{
    if bytes.len() == 0 {
        return Decoded::Incomplete;
    }
    let first: u8 = bytes[0];
    if first == 0x03 {
        Decoded::Key(Key::Interrupt, 1)
    } else if first == 0x04 {
        Decoded::Key(Key::Escape, 1)
    } else if first == 0x0d || first == 0x0a {
        Decoded::Key(Key::Enter, 1)
    } else if first == 0x20 {
        Decoded::Key(Key::Space, 1)
    } else if first == 0x7f || first == 0x08 {
        Decoded::Key(Key::Backspace, 1)
    } else if first == 0x1b {
        decode_escape(bytes)
    } else if first < 0x20 {
        Decoded::Skip(1)
    } else {
        decode_char(bytes)
    }
}

fn decode_escape(bytes: &[u8]) -> (r: Decoded)
    ensures
        r == escape_reading(bytes@),
{
    if bytes.len() < 2 {
        return Decoded::Incomplete;
    }
    if bytes[1] == 0x5b || bytes[1] == 0x4f {
        let mut end: usize = 2;
        while end < bytes.len() && !(0x40 <= bytes[end] && bytes[end] <= 0x7e)
            invariant
                2 <= end <= bytes.len(),
                final_from(bytes@, 2) == final_from(bytes@, end as int),
            decreases bytes.len() - end,
        {
            end = end + 1;
        }
        if end >= bytes.len() {
            return Decoded::Incomplete;
        }
        let consumed: usize = end + 1;
        if bytes[end] == 0x41 {
            Decoded::Key(Key::Up, consumed)
        } else if bytes[end] == 0x42 {
            Decoded::Key(Key::Down, consumed)
        } else {
            Decoded::Skip(consumed)
        }
    } else {
        Decoded::Skip(2)
    }
}

fn continuation(byte: u8) -> (r: bool)
    ensures
        r == is_continuation_byte(byte),
{
    0x80 <= byte && byte <= 0xbf
}

/// Decodes one UTF-8 scalar, waiting for a partial sequence to arrive.
fn decode_char(bytes: &[u8]) -> (r: Decoded)
    requires
        bytes@.len() > 0,
    ensures
        r == char_reading(bytes@),
{
    let first: u8 = bytes[0];
    let width: usize = if first <= 0x7f {
        1
    } else if 0xc0 <= first && first <= 0xdf {
        2
    } else if 0xe0 <= first && first <= 0xef {
        3
    } else if 0xf0 <= first && first <= 0xf7 {
        4
    } else {
        return Decoded::Skip(1);
    };
    if bytes.len() < width {
        return Decoded::Incomplete;
    }
    let ghost front = bytes@.take(width as int);
    proof {
        assert(front[0] == first);
    }
    let code: u32 = if width == 1 {
        (first & 0x7F) as u32
    } else if width == 2 {
        if !continuation(bytes[1]) {
            return Decoded::Skip(2);
        }
        (((first & 0x1F) as u32) << 6) | ((bytes[1] & 0x3f) as u32)
    } else if width == 3 {
        if !continuation(bytes[1]) || !continuation(bytes[2]) {
            return Decoded::Skip(3);
        }
        (((first & 0x0F) as u32) << 12) | (((bytes[1] & 0x3f) as u32) << 6) | ((bytes[2]
            & 0x3f) as u32)
    } else {
        if !continuation(bytes[1]) || !continuation(bytes[2]) || !continuation(bytes[3]) {
            return Decoded::Skip(4);
        }
        (((first & 0x07) as u32) << 18) | (((bytes[1] & 0x3f) as u32) << 12) | (((bytes[2]
            & 0x3f) as u32) << 6) | ((bytes[3] & 0x3f) as u32)
    };
    proof {
        assert(code == decode_first_codepoint(front));
        assert(width == length_of_first_codepoint(front));
        assert(valid_leading_and_continuation_bytes_first_codepoint(front));
    }
    if (width == 2 && code < 0x80) || (width == 3 && code < 0x800) || (width == 4 && (code < 0x10000
        || code > 0x10ffff)) || (0xD800 <= code && code <= 0xDFFF) {
        return Decoded::Skip(width);
    }
    proof {
        if width == 1 {
            assert((first & 0x7F) <= 0x7f) by (bit_vector);
        } else if width == 2 {
            let b1 = bytes@[1];
            assert((((first & 0x1F) as u32) << 6) | ((b1 & 0x3f) as u32) <= 0x7ff) by (bit_vector);
        } else if width == 3 {
            let b1 = bytes@[1];
            let b2 = bytes@[2];
            assert((((first & 0x0F) as u32) << 12) | (((b1 & 0x3f) as u32) << 6) | ((b2
                & 0x3f) as u32) <= 0xffff) by (bit_vector);
        }
        assert(is_scalar(code));
    }
    match char::from_u32(code) {
        Some(c) => {
            proof {
                char_u32_cast(c, code);
            }
            Decoded::Key(Key::Char(c), width)
        },
        None => Decoded::Skip(width),
    }
}

// ---------------------------------------------------------------------------
// Waiting for a key
// ---------------------------------------------------------------------------

/// The key at the front of the pending bytes, and the bytes that stay: what is
/// not a key is skipped, and an unfinished sequence stays.
pub open spec fn next_key(pending: Seq<u8>) -> (Option<Key>, Seq<u8>)
    decreases pending.len(),
{
    if pending.len() > usize::MAX {
        (None, pending)
    } else {
        match reading(pending) {
            Decoded::Key(key, n) => (Some(key), pending.skip(n as int)),
            Decoded::Incomplete => (None, pending),
            Decoded::Skip(n) => {
                if 1 <= n <= pending.len() {
                    next_key(pending.skip(n as int))
                } else {
                    (None, pending)
                }
            },
        }
    }
}

/// What follows a wait in which no byte arrived.
#[derive(Clone, Copy, Debug, PartialEq, Eq, Structural)]
pub enum Quiet {
    /// Nothing was typed.
    Nothing,
    /// A key that stood alone.
    Key(Key),
    /// An unfinished sequence was dropped; the wait goes on.
    Again,
}

/// What waiting for a key does next.
#[derive(Clone, Copy, Debug, PartialEq, Eq, Structural)]
pub enum KeyStep {
    /// A key is there.
    Key(Key),
    /// The time is over, and no key came.
    Expired,
    /// Wait for bytes, so many nanoseconds at most.
    Wait(u64),
}

/// What came of a wait for bytes.
#[derive(Debug)]
pub enum Arrival {
    Nothing,
    Bytes(Vec<u8>),
    /// The input ended.
    End,
}

/// What is known of what came of a wait.
pub enum Came {
    Nothing,
    Bytes(Seq<u8>),
    End,
}

impl View for Arrival {
    type V = Came;

    open spec fn view(&self) -> Came {
        match self {
            Arrival::Nothing => Came::Nothing,
            Arrival::Bytes(bytes) => Came::Bytes(bytes@),
            Arrival::End => Came::End,
        }
    }
}

/// What follows a wait for bytes.
#[derive(Clone, Copy, Debug, PartialEq, Eq, Structural)]
pub enum Waited {
    /// The wait for a key is over, with the key that it gave, if any.
    Over(Option<Key>),
    /// It goes on.
    Again,
}

/// What waiting for a key does next, of the bytes that are pending and the time that
/// is left, and what is pending then.
pub open spec fn key_step(pending: Seq<u8>, remaining: u64) -> (KeyStep, Seq<u8>) {
    let (key, rest) = next_key(pending);
    (
        match key {
            Some(k) => KeyStep::Key(k),
            None => if remaining == 0 {
                KeyStep::Expired
            } else if rest.len() == 0 || remaining < ESCAPE_GRACE {
                KeyStep::Wait(remaining)
            } else {
                KeyStep::Wait(ESCAPE_GRACE)
            },
        },
        rest,
    )
}

/// What follows a wait for bytes, and what is pending then: a quiet wait with nothing
/// pending ends without a key, a lone escape is the Escape key, and any other
/// unfinished sequence is dropped; the end of the input ends the session.
pub open spec fn after_wait(pending: Seq<u8>, came: Came) -> (Waited, Seq<u8>) {
    match came {
        Came::Nothing => (
            if pending.len() == 0 {
                Waited::Over(None)
            } else if pending == seq![0x1bu8] {
                Waited::Over(Some(Key::Escape))
            } else {
                Waited::Again
            },
            Seq::<u8>::empty(),
        ),
        Came::Bytes(bytes) => (Waited::Again, pending + bytes),
        Came::End => (Waited::Over(Some(Key::Interrupt)), Seq::<u8>::empty()),
    }
}

/// What a wait for a key comes to, and what is pending then, of the time that is left
/// at each turn and of what came of each wait; nothing where it still goes on.
pub open spec fn key_read(pending: Seq<u8>, left: Seq<u64>, came: Seq<Came>) -> Option<
    (Option<Key>, Seq<u8>),
>
    decreases left.len(),
{
    if left.len() == 0 {
        None
    } else {
        let (step, rest) = key_step(pending, left[0]);
        match step {
            KeyStep::Key(key) => Some((Some(key), rest)),
            KeyStep::Expired => Some((None, rest)),
            KeyStep::Wait(_) => if came.len() == 0 {
                None
            } else {
                let (waited, now) = after_wait(rest, came[0]);
                match waited {
                    Waited::Over(key) => Some((key, now)),
                    Waited::Again => key_read(now, left.skip(1), came.skip(1)),
                }
            },
        }
    }
}

/// A passed deadline ends the wait: at a turn with no time left it is over, with a key
/// only where a whole one was pending.
pub proof fn a_passed_deadline_ends_the_wait(
    pending: Seq<u8>,
    left: Seq<u64>,
    came: Seq<Came>,
)
    requires
        left.len() > 0,
        left[0] == 0,
    ensures
        key_read(pending, left, came) == Some((next_key(pending).0, next_key(pending).1)),
{
}

/// Every wait lasts no longer than the time that is left, and where part of a key is
/// pending no longer than its grace.
pub proof fn no_wait_outlasts_the_deadline(pending: Seq<u8>, remaining: u64)
    ensures
        key_step(pending, remaining).0 matches KeyStep::Wait(n) ==> 0 < n <= remaining && (
        key_step(pending, remaining).1.len() > 0 ==> n <= ESCAPE_GRACE),
{
}

/// The bytes that were read and are not yet keys.
#[derive(Debug)]
pub struct Input {
    pub pending: Vec<u8>,
}

impl Input {
    /// Nothing read yet.
    pub fn new() -> (r: Self)
        ensures
            r.pending@ == Seq::<u8>::empty(),
    {
        Input { pending: Vec::new() }
    }

    /// Adds bytes that arrived.
    pub fn fill(&mut self, bytes: &[u8])
        ensures
            final(self).pending@ == old(self).pending@ + bytes@,
    {
        let mut i: usize = 0;
        let ghost before = self.pending@;
        while i < bytes.len()
            invariant
                i <= bytes.len(),
                self.pending@ == before + bytes@.take(i as int),
            decreases bytes.len() - i,
        {
            proof {
                assert(before + bytes@.take(i + 1) =~= (before + bytes@.take(i as int)).push(
                    bytes@[i as int],
                ));
            }
            self.pending.push(bytes[i]);
            i = i + 1;
        }
        proof {
            assert(bytes@.take(bytes@.len() as int) =~= bytes@);
        }
    }

    /// Takes one key off the pending bytes, if a whole one is there.
    pub fn decode(&mut self) -> (r: Option<Key>)
        ensures
            (r, final(self).pending@) == next_key(old(self).pending@),
        decreases old(self).pending@.len(),
    {
        let len: usize = self.pending.len();
        let d = decode_key(self.pending.as_slice());
        proof {
            assert(self.pending@.len() == len);
            reading_takes_some(self.pending@);
        }
        match d {
            Decoded::Incomplete => None,
            Decoded::Key(key, n) => {
                self.drop_front(n);
                Some(key)
            },
            Decoded::Skip(n) => {
                self.drop_front(n);
                self.decode()
            },
        }
    }

    fn drop_front(&mut self, n: usize)
        requires
            n <= old(self).pending@.len(),
        ensures
            final(self).pending@ == old(self).pending@.skip(n as int),
    {
        let rest = self.pending.split_off(n);
        proof {
            assert(rest@ =~= old(self).pending@.skip(n as int));
        }
        self.pending = rest;
    }

    /// How long to wait for more bytes, of the time that is left: an unfinished
    /// sequence waits only for its grace.
    pub fn wait(&self, remaining: u64) -> (r: u64)
        ensures
            r == if self.pending@.len() == 0 || remaining < ESCAPE_GRACE {
                remaining
            } else {
                ESCAPE_GRACE
            },
    {
        if self.pending.len() == 0 || remaining < ESCAPE_GRACE {
            remaining
        } else {
            ESCAPE_GRACE
        }
    }

    /// What a wait in which nothing arrived means. A lone escape is the Escape
    /// key, and any other unfinished sequence is dropped whole.
    pub fn quiet(&mut self) -> (r: Quiet)
        ensures
            final(self).pending@ == Seq::<u8>::empty(),
            r == if old(self).pending@.len() == 0 {
                Quiet::Nothing
            } else if old(self).pending@ == seq![0x1bu8] {
                Quiet::Key(Key::Escape)
            } else {
                Quiet::Again
            },
    {
        let empty = self.pending.len() == 0;
        let alone = self.pending.len() == 1 && self.pending[0] == 0x1b;
        proof {
            if alone {
                assert(self.pending@ =~= seq![0x1bu8]);
            }
            if self.pending@ == seq![0x1bu8] {
                assert(self.pending@[0] == 0x1b);
            }
        }
        self.pending.clear();
        if empty {
            Quiet::Nothing
        } else if alone {
            Quiet::Key(Key::Escape)
        } else {
            Quiet::Again
        }
    }

    /// What waiting for a key does next, with so many nanoseconds left.
    pub fn step(&mut self, remaining: u64) -> (r: KeyStep)
        ensures
            (r, final(self).pending@) == key_step(old(self).pending@, remaining),
    {
        match self.decode() {
            Some(key) => KeyStep::Key(key),
            None => if remaining == 0 {
                KeyStep::Expired
            } else {
                KeyStep::Wait(self.wait(remaining))
            },
        }
    }

    /// Takes what came of a wait for bytes.
    pub fn waited(&mut self, arrival: Arrival) -> (r: Waited)
        ensures
            (r, final(self).pending@) == after_wait(old(self).pending@, arrival@),
    {
        match arrival {
            Arrival::Nothing => match self.quiet() {
                Quiet::Nothing => Waited::Over(None),
                Quiet::Key(key) => Waited::Over(Some(key)),
                Quiet::Again => Waited::Again,
            },
            Arrival::Bytes(bytes) => {
                self.fill(bytes.as_slice());
                Waited::Again
            },
            Arrival::End => Waited::Over(Some(self.closed())),
        }
    }

    /// What the end of the input means: nobody is left to answer, so it ends
    /// the session, whatever was still pending.
    pub fn closed(&mut self) -> (r: Key)
        ensures
            r == Key::Interrupt,
            final(self).pending@ == Seq::<u8>::empty(),
    {
        self.pending.clear();
        Key::Interrupt
    }
}

proof fn lemma_skip_adds(a: Seq<u8>, more: Seq<u8>, n: int)
    requires
        0 <= n <= a.len(),
    ensures
        (a + more).skip(n) == a.skip(n) + more,
{
    assert((a + more).skip(n) =~= a.skip(n) + more);
}

/// Keys come out in the order of the bytes, however the bytes were delivered:
/// a key that is complete before more bytes arrive is the key that comes out
/// after them, and the later bytes stay behind it.
pub proof fn keys_keep_their_order(pending: Seq<u8>, more: Seq<u8>)
    requires
        pending.len() + more.len() <= usize::MAX,
        next_key(pending).0 is Some,
    ensures
        next_key(pending + more).0 == next_key(pending).0,
        next_key(pending + more).1 == next_key(pending).1 + more,
    decreases pending.len(),
{
    reading_takes_some(pending);
    if reading(pending) != Decoded::Incomplete {
        reading_is_settled(pending, more);
        let n = taken(reading(pending));
        lemma_skip_adds(pending, more, n);
        if reading(pending) is Skip {
            keys_keep_their_order(pending.skip(n), more);
        }
    }
}

/// Skipped bytes leave nothing behind: what stays pending after a key was
/// looked for and not found is an unfinished sequence.
pub proof fn what_stays_is_unfinished(pending: Seq<u8>)
    requires
        pending.len() <= usize::MAX,
        next_key(pending).0 is None,
    ensures
        reading(next_key(pending).1) == Decoded::Incomplete,
    decreases pending.len(),
{
    reading_takes_some(pending);
    if reading(pending) is Skip {
        what_stays_is_unfinished(pending.skip(taken(reading(pending))));
    }
}

// ---------------------------------------------------------------------------
// The live region
// ---------------------------------------------------------------------------

/// The sequence that moves the cursor up by `n` lines.
pub open spec fn move_up(n: nat) -> Seq<char> {
    "\u{1b}["@ + text::decimal(n) + "A"@
}

/// The lines, each on a cleared line of its own.
pub open spec fn drawn_lines(lines: Seq<Seq<char>>) -> Seq<char>
    decreases lines.len(),
{
    if lines.len() == 0 {
        Seq::<char>::empty()
    } else {
        drawn_lines(lines.drop_last()) + "\r\u{1b}[2K"@ + lines.last() + "\r\n"@
    }
}

/// `n` cleared lines.
pub open spec fn blank_lines(n: nat) -> Seq<char>
    decreases n,
{
    if n == 0 {
        Seq::<char>::empty()
    } else {
        blank_lines((n - 1) as nat) + "\r\u{1b}[2K\r\n"@
    }
}

/// What redraws a region of `region` lines in place with the given lines.
pub open spec fn draw_text(region: nat, lines: Seq<Seq<char>>) -> Seq<char> {
    let up = if region > 0 {
        move_up(region)
    } else {
        Seq::<char>::empty()
    };
    let extra = if region > lines.len() {
        (region - lines.len()) as nat
    } else {
        0
    };
    let back = if extra > 0 {
        move_up(extra)
    } else {
        Seq::<char>::empty()
    };
    up + "\u{1b}[?25l"@ + drawn_lines(lines) + blank_lines(extra) + back + "\u{1b}[?25h"@
}

/// What erases a region of `region` lines, leaving the cursor where it began.
pub open spec fn clear_text(region: nat) -> Seq<char> {
    if region == 0 {
        Seq::<char>::empty()
    } else {
        move_up(region) + blank_lines(region) + move_up(region)
    }
}

fn move_up_of(n: usize) -> (r: String)
    ensures
        r@ == move_up(n as nat),
{
    let digits = text::decimal_of(n as u64);
    "\u{1b}[".to_owned().concat(digits.as_str()).concat("A")
}

fn drawn_lines_of(lines: &Vec<String>) -> (r: String)
    ensures
        r@ == drawn_lines(text::texts(lines@)),
{
    let mut out = String::new();
    let mut i: usize = 0;
    while i < lines.len()
        invariant
            i <= lines.len(),
            out@ == drawn_lines(text::texts(lines@).take(i as int)),
        decreases lines.len() - i,
    {
        proof {
            let next = text::texts(lines@).take(i + 1);
            assert(next.drop_last() =~= text::texts(lines@).take(i as int));
            assert(next.last() == lines@[i as int]@);
        }
        out.append("\r\u{1b}[2K");
        out.append(lines[i].as_str());
        out.append("\r\n");
        i = i + 1;
    }
    proof {
        assert(text::texts(lines@).take(lines@.len() as int) =~= text::texts(lines@));
    }
    out
}

fn blank_lines_of(n: usize) -> (r: String)
    ensures
        r@ == blank_lines(n as nat),
{
    let mut out = String::new();
    let mut i: usize = 0;
    while i < n
        invariant
            i <= n,
            out@ == blank_lines(i as nat),
        decreases n - i,
    {
        out.append("\r\u{1b}[2K\r\n");
        i = i + 1;
    }
    out
}

/// The lines of the screen that the live region occupies.
#[derive(Debug)]
pub struct Region {
    pub lines: usize,
}

impl Region {
    /// No region drawn yet.
    pub fn new() -> (r: Self)
        ensures
            r.lines == 0,
    {
        Region { lines: 0 }
    }

    /// What redraws the region in place, in one write.
    pub fn draw(&mut self, lines: &Vec<String>) -> (r: String)
        ensures
            r@ == draw_text(old(self).lines as nat, text::texts(lines@)),
            final(self).lines == lines@.len(),
    {
        let mut out = String::new();
        if self.lines > 0 {
            let up = move_up_of(self.lines);
            out.append(up.as_str());
        }
        proof {
            assert(out@ =~= if self.lines > 0 {
                move_up(self.lines as nat)
            } else {
                Seq::<char>::empty()
            });
        }
        out.append("\u{1b}[?25l");
        let body = drawn_lines_of(lines);
        out.append(body.as_str());
        let extra: usize = if self.lines > lines.len() { self.lines - lines.len() } else { 0 };
        let blank = blank_lines_of(extra);
        out.append(blank.as_str());
        let ghost before = out@;
        if extra > 0 {
            let back = move_up_of(extra);
            out.append(back.as_str());
        }
        proof {
            assert(text::texts(lines@).len() == lines@.len());
            assert(out@ =~= before + if extra > 0 {
                move_up(extra as nat)
            } else {
                Seq::<char>::empty()
            });
        }
        out.append("\u{1b}[?25h");
        self.lines = lines.len();
        out
    }

    /// What erases the region; nothing where there is none.
    pub fn clear_region(&mut self) -> (r: String)
        ensures
            r@ == clear_text(old(self).lines as nat),
            final(self).lines == 0,
    {
        if self.lines == 0 {
            return String::new();
        }
        let up = move_up_of(self.lines);
        let blank = blank_lines_of(self.lines);
        let back = move_up_of(self.lines);
        self.lines = 0;
        up.concat(blank.as_str()).concat(back.as_str())
    }

    /// What writes lines that stay in the scrollback: nothing, and the region
    /// stays, where there are no lines; else the region is erased first.
    pub fn commit(&mut self, lines: &Vec<String>) -> (r: String)
        ensures
            lines@.len() == 0 ==> r@.len() == 0 && final(self).lines == old(self).lines,
            lines@.len() > 0 ==> final(self).lines == 0 && r@ == clear_text(
                old(self).lines as nat,
            ) + drawn_lines(text::texts(lines@)),
    {
        if lines.len() == 0 {
            return String::new();
        }
        let cleared = self.clear_region();
        let body = drawn_lines_of(lines);
        cleared.concat(body.as_str())
    }
}

/// The size of the terminal: what was asked of it, or a size that every
/// terminal has where it did not say.
pub fn size(answer: Option<(u16, u16)>) -> (r: (u16, u16))
    ensures
        r == match answer {
            Some((rows, cols)) if rows != 0 && cols != 0 => (rows, cols),
            _ => (24, 80),
        },
{
    match answer {
        Some((rows, cols)) => {
            if rows != 0 && cols != 0 {
                (rows, cols)
            } else {
                (24, 80)
            }
        },
        None => (24, 80),
    }
}

/// What a frame is drawn for.
#[derive(Clone, Copy, Debug, PartialEq, Eq, Structural)]
pub struct Viewport {
    pub rows: u16,
    pub cols: u16,
    pub color: bool,
    pub unicode: bool,
}

/// The viewport of a terminal of the given size.
pub fn viewport(answer: Option<(u16, u16)>, color: bool, unicode: bool) -> (r: Viewport)
    ensures
        r.color == color,
        r.unicode == unicode,
        (r.rows, r.cols) == match answer {
            Some((rows, cols)) if rows != 0 && cols != 0 => (rows, cols),
            _ => (24, 80),
        },
{
    let (rows, cols) = size(answer);
    Viewport { rows, cols, color, unicode }
}

/// The error of a terminal that could not be used as wanted.
pub fn failed(what: &str) -> (r: CoreError)
    ensures
        r@ == error::fault(
            ExitClass::Internal,
            "INPUT_FAILED"@,
            "could not "@ + what@,
            "run `wt setup` in an ordinary terminal, or use `wt register`"@,
        ),
{
    let message = "could not ".to_owned().concat(what);
    CoreError::new(
        ExitClass::Internal,
        "INPUT_FAILED",
        message.as_str(),
        "run `wt setup` in an ordinary terminal, or use `wt register`",
    )
}

} // verus!
