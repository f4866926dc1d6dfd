//! Wall-clock times: the calendar, and timestamps that sort as the times they
//! stand for.

use vstd::prelude::*;
use vstd::string::*;

use crate::error;
use crate::error::{CoreError, ExitClass};
use crate::order;
use crate::text;

verus! {

broadcast use vstd::string::group_string_axioms;

// ---------------------------------------------------------------------------
// The calendar
// ---------------------------------------------------------------------------

/// A day of the calendar.
#[derive(Clone, Copy, Debug, PartialEq, Eq, Structural)]
pub struct Date {
    pub year: u64,
    pub month: u64,
    pub day: u64,
}

/// Whether a year has a leap day.
pub open spec fn leap(year: int) -> bool {
    year % 4 == 0 && (year % 100 != 0 || year % 400 == 0)
}

/// How many days a year has.
pub open spec fn year_len(year: int) -> int {
    if leap(year) {
        366
    } else {
        365
    }
}

/// How many days a month has.
pub open spec fn month_len(year: int, month: int) -> int {
    if month == 2 {
        if leap(year) {
            29
        } else {
            28
        }
    } else if month == 4 || month == 6 || month == 9 || month == 11 {
        30
    } else {
        31
    }
}

/// How many days lie between the epoch, the first day of 1970, and the first day
/// of a year.
pub open spec fn year_start(year: int) -> int
    decreases year,
{
    if year <= 1970 {
        0
    } else {
        year_start(year - 1) + year_len(year - 1)
    }
}

/// How many days of a year lie before a month.
pub open spec fn month_start(year: int, month: int) -> int
    decreases month,
{
    if month <= 1 {
        0
    } else {
        month_start(year, month - 1) + month_len(year, month - 1)
    }
}

impl Date {
    /// Whether there is such a day.
    pub open spec fn valid(self) -> bool {
        &&& 1970 <= self.year
        &&& 1 <= self.month <= 12
        &&& 1 <= self.day <= month_len(self.year as int, self.month as int)
    }

    /// How many days lie between the epoch and the day.
    pub open spec fn number(self) -> int {
        year_start(self.year as int) + month_start(self.year as int, self.month as int) + self.day
            - 1
    }
}

/// The day that lies so many days after the epoch.
pub open spec fn date_of(days: int) -> Date {
    choose|d: Date| #[trigger] d.valid() && d.number() == days
}

spec fn leaps_to(year: int) -> int {
    year / 4 - year / 100 + year / 400
}

spec fn closed_start(year: int) -> int {
    365 * (year - 1970) + leaps_to(year - 1) - leaps_to(1969)
}

proof fn lemma_year_start(year: int)
    requires
        year >= 1970,
    ensures
        year_start(year) == closed_start(year),
    decreases year,
{
    if year > 1970 {
        lemma_year_start(year - 1);
        lemma_leap_step(year - 1);
    }
}

proof fn lemma_leap_step(year: int)
    requires
        year >= 1,
    ensures
        leaps_to(year) - leaps_to(year - 1) == if leap(year) {
            1int
        } else {
            0
        },
{
    let q = year / 400;
    assert(year == 400 * q + year % 400);
}

#[verifier::spinoff_prover]
proof fn lemma_four_centuries(cycles: int)
    requires
        cycles >= 0,
    ensures
        year_start(1970 + 400 * cycles) == 146097 * cycles,
{
    lemma_year_start(1970 + 400 * cycles);
    let last = 1969 + 400 * cycles;
    assert(last / 4 == 492 + 100 * cycles);
    assert(last / 100 == 19 + 4 * cycles);
    assert(last / 400 == 4 + cycles);
}

proof fn lemma_year_grows(a: int, b: int)
    requires
        1970 <= a < b,
    ensures
        year_start(a) + year_len(a) <= year_start(b),
    decreases b,
{
    if a + 1 < b {
        lemma_year_grows(a, b - 1);
    }
}

proof fn lemma_months_fill_the_year(year: int)
    ensures
        month_start(year, 13) == year_len(year),
{
    reveal_with_fuel(month_start, 13);
}

proof fn lemma_month_grows(year: int, a: int, b: int)
    requires
        1 <= a < b,
    ensures
        month_start(year, a) + month_len(year, a) <= month_start(year, b),
    decreases b,
{
    if a + 1 < b {
        lemma_month_grows(year, a, b - 1);
    }
}

/// A day as one number that grows with its year, month and day.
pub open spec fn day_order(d: Date) -> int {
    (d.year * 100 + d.month) * 100 + d.day
}

/// Days are numbered in the order of the calendar: a later day has a greater
/// number, and no two days share one.
pub proof fn days_are_in_order(a: Date, b: Date)
    requires
        a.valid(),
        b.valid(),
    ensures
        (a.number() < b.number()) == (day_order(a) < day_order(b)),
        (a.number() == b.number()) == (a == b),
{
    if day_order(a) < day_order(b) {
        lemma_days_rise(a, b);
    } else if day_order(b) < day_order(a) {
        lemma_days_rise(b, a);
    } else {
        assert(a.day == b.day && a.month == b.month && a.year == b.year);
    }
}

proof fn lemma_days_rise(a: Date, b: Date)
    requires
        a.valid(),
        b.valid(),
        day_order(a) < day_order(b),
    ensures
        a.number() < b.number(),
{
    let y = a.year as int;
    lemma_months_fill_the_year(y);
    lemma_month_grows(y, a.month as int, 13);
    if a.year < b.year {
        lemma_year_grows(y, b.year as int);
        lemma_month_nonnegative(b.year as int, b.month as int);
    } else if a.month < b.month {
        lemma_month_grows(y, a.month as int, b.month as int);
    }
}

proof fn lemma_month_nonnegative(year: int, month: int)
    ensures
        month_start(year, month) >= 0,
    decreases month,
{
    if month > 1 {
        lemma_month_nonnegative(year, month - 1);
    }
}

fn is_leap(year: u64) -> (r: bool)
    ensures
        r == leap(year as int),
{
    year % 4 == 0 && (year % 100 != 0 || year % 400 == 0)
}

fn days_in_year(year: u64) -> (r: u64)
    ensures
        r == year_len(year as int),
{
    if is_leap(year) {
        366
    } else {
        365
    }
}

fn days_in_month(year: u64, month: u64) -> (r: u64)
    ensures
        r == month_len(year as int, month as int),
{
    if month == 2 {
        if is_leap(year) {
            29
        } else {
            28
        }
    } else if month == 4 || month == 6 || month == 9 || month == 11 {
        30
    } else {
        31
    }
}

/// The day that lies so many days after the epoch.
pub fn date(days: u64) -> (r: Date)
    requires
        days <= 300_000_000_000_000,
    ensures
        r.valid(),
        r.number() == days,
        r == date_of(days as int),
        r.year <= 1970 + days,
{
    let cycles: u64 = days / 146097;
    let first: u64 = 1970 + 400 * cycles;
    let mut year: u64 = first;
    let mut rest: u64 = days % 146097;
    proof {
        lemma_four_centuries(cycles as int);
        assert(days == 146097 * cycles + days % 146097);
    }
    while rest >= days_in_year(year)
        invariant
            first == 1970 + 400 * cycles,
            cycles == days / 146097,
            days <= 300_000_000_000_000,
            first <= year,
            rest < 146097,
            year_start(year as int) + rest == days,
            365 * (year - first) + rest <= 146097,
        decreases rest,
    {
        rest = rest - days_in_year(year);
        year = year + 1;
    }
    let mut month: u64 = 1;
    let ghost over = rest as int;
    while rest >= days_in_month(year, month)
        invariant
            1 <= month <= 12,
            over < year_len(year as int),
            year_start(year as int) + over == days,
            month_start(year as int, month as int) + rest == over,
        decreases rest,
    {
        proof {
            if month == 12 {
                lemma_months_fill_the_year(year as int);
            }
        }
        rest = rest - days_in_month(year, month);
        month = month + 1;
    }
    let r = Date { year, month, day: rest + 1 };
    proof {
        lemma_days_reach(year as int);
        assert(r.valid() && r.number() == days);
        let chosen = date_of(days as int);
        days_are_in_order(r, chosen);
    }
    r
}

proof fn lemma_days_reach(year: int)
    requires
        year >= 1970,
    ensures
        year <= 1970 + year_start(year),
    decreases year,
{
    if year > 1970 {
        lemma_days_reach(year - 1);
    }
}

// ---------------------------------------------------------------------------
// Timestamps
// ---------------------------------------------------------------------------

/// The last year whose distance from 1900 fits in the platform's broken-down time.
pub const LAST_YEAR: u64 = 2_147_485_547;

/// The text of a date and a time of the day, each part with its fixed width.
pub open spec fn stamp(d: Date, second: int, nanos: int) -> Seq<char> {
    text::zero_padded(d.year as nat, 4) + "-"@ + text::zero_padded(d.month as nat, 2) + "-"@
        + text::zero_padded(d.day as nat, 2) + "T"@ + text::zero_padded((second / 3600) as nat, 2)
        + ":"@ + text::zero_padded(((second / 60) % 60) as nat, 2) + ":"@ + text::zero_padded(
        (second % 60) as nat,
        2,
    ) + "."@ + text::zero_padded(nanos as nat, 9) + "Z"@
}

/// The text of a time in seconds and nanoseconds after the epoch.
pub open spec fn utc_text(seconds: int, nanos: int) -> Seq<char> {
    stamp(date_of(seconds / 86400), seconds % 86400, nanos)
}

/// Whether a time can be broken down.
pub open spec fn convertible(seconds: int) -> bool {
    date_of(seconds / 86400).year <= LAST_YEAR
}

fn utc(seconds: u64, nanos: u32) -> (r: Option<String>)
    ensures
        r is Some == convertible(seconds as int),
        r matches Some(s) ==> s@ == utc_text(seconds as int, nanos as int),
{
    let d = date(seconds / 86400);
    if d.year > LAST_YEAR {
        return None;
    }
    let second: u64 = seconds % 86400;
    let year = text::zero_padded_of(d.year, 4);
    let month = text::zero_padded_of(d.month, 2);
    let day = text::zero_padded_of(d.day, 2);
    let hour = text::zero_padded_of(second / 3600, 2);
    let minute = text::zero_padded_of((second / 60) % 60, 2);
    let sec = text::zero_padded_of(second % 60, 2);
    let nano = text::zero_padded_of(nanos as u64, 9);
    Some(
        year.concat("-").concat(month.as_str()).concat("-").concat(day.as_str()).concat("T").concat(
            hour.as_str(),
        ).concat(":").concat(minute.as_str()).concat(":").concat(sec.as_str()).concat(".").concat(
            nano.as_str(),
        ).concat("Z"),
    )
}

/// What is wrong with a clock that is before the epoch.
pub open spec fn clock_early(why: Seq<char>) -> error::Fault {
    error::fault(
        ExitClass::Internal,
        "CLOCK_FAILED"@,
        "system clock is before the Unix epoch: "@ + why,
        "correct the system clock and retry"@,
    )
}

/// What is wrong with a clock that cannot be broken down.
pub open spec fn clock_far() -> error::Fault {
    error::fault(
        ExitClass::Internal,
        "CLOCK_FAILED"@,
        "could not convert the system clock to UTC"@,
        "correct the system clock and retry"@,
    )
}

/// The timestamp of what the clock said: seconds and nanoseconds after the epoch,
/// or why it is before it.
pub fn timestamp_of(clock: &Result<(u64, u32), String>) -> (r: Result<String, CoreError>)
    ensures
        match *clock {
            Ok(t) => if convertible(t.0 as int) {
                r matches Ok(s) && s@ == utc_text(t.0 as int, t.1 as int)
            } else {
                r matches Err(e) && e@ == clock_far()
            },
            Err(why) => r matches Err(e) && e@ == clock_early(why@),
        },
{
    match clock {
        Ok(t) => match utc(t.0, t.1) {
            Some(s) => Ok(s),
            None => Err(
                CoreError::new(
                    ExitClass::Internal,
                    "CLOCK_FAILED",
                    "could not convert the system clock to UTC",
                    "correct the system clock and retry",
                ),
            ),
        },
        Err(why) => {
            let message = "system clock is before the Unix epoch: ".to_owned().concat(
                why.as_str(),
            );
            Err(
                CoreError::new(
                    ExitClass::Internal,
                    "CLOCK_FAILED",
                    message.as_str(),
                    "correct the system clock and retry",
                ),
            )
        },
    }
}

/// The seconds of what the clock said, or 0 where it is before the epoch.
pub fn seconds_of(clock: &Result<(u64, u32), String>) -> (r: u64)
    ensures
        r == match *clock {
            Ok(t) => t.0,
            Err(_) => 0,
        },
{
    match clock {
        Ok(t) => t.0,
        Err(_) => 0,
    }
}

/// A time of the system's clock.
#[verifier::external_type_specification]
#[verifier::external_body]
pub struct ExSystemTime(std::time::SystemTime);

/// `SystemTime::now` reads the system's clock. Nothing is claimed of what it says.
#[verifier::external_body]
fn clock_now() -> (r: std::time::SystemTime) {
    std::time::SystemTime::now()
}

/// `SystemTime::duration_since` gives how long after the epoch a time is, in
/// seconds and nanoseconds, or says why it is before it. The nanoseconds are less
/// than a second, which is all that is claimed: what the clock says is free.
#[verifier::external_body]
fn since_epoch(time: &std::time::SystemTime) -> (r: Result<(u64, u32), String>)
    ensures
        r matches Ok(t) ==> t.1 < 1_000_000_000,
{
    match time.duration_since(std::time::UNIX_EPOCH) {
        Ok(d) => Ok((d.as_secs(), d.subsec_nanos())),
        Err(e) => Err(e.to_string()),
    }
}

/// The timestamp of this moment: that of some time of the clock, or one of the two
/// errors of a clock that cannot be used.
pub fn timestamp() -> (r: Result<String, CoreError>)
    ensures
        match r {
            Ok(s) => exists|seconds: u64, nanos: u32|
                nanos < 1_000_000_000 && convertible(seconds as int) && s@ == #[trigger] utc_text(
                    seconds as int,
                    nanos as int,
                ),
            Err(e) => e@ == clock_far() || exists|why: Seq<char>| e@ == #[trigger] clock_early(why),
        },
{
    let clock = since_epoch(&clock_now());
    timestamp_of(&clock)
}

/// The seconds since the epoch, or 0 where the clock is before it. Nothing more is
/// claimed of what the clock says.
pub fn epoch_seconds() -> (r: u64) {
    let clock = since_epoch(&clock_now());
    seconds_of(&clock)
}

// ---------------------------------------------------------------------------
// The order of timestamps
// ---------------------------------------------------------------------------

spec fn power(w: nat) -> nat
    decreases w,
{
    if w == 0 {
        1
    } else {
        power((w - 1) as nat) * 10
    }
}

proof fn lemma_decimal_width(n: nat, w: nat)
    requires
        w >= 1,
        n < power(w),
    ensures
        decimal_ok(text::decimal(n), n),
        text::decimal(n).len() <= w,
    decreases n,
{
    if n < 10 {
        assert(text::decimal(n).drop_last() =~= Seq::<char>::empty());
        assert(text::value_of(Seq::<char>::empty()) == 0);
    } else {
        if w == 1 {
            assert(power(1) == 10) by {
                reveal_with_fuel(power, 2);
            }
        }
        lemma_decimal_width(n / 10, (w - 1) as nat);
        assert(text::decimal(n).drop_last() =~= text::decimal(n / 10));
    }
}

spec fn decimal_ok(s: Seq<char>, n: nat) -> bool {
    &&& s.len() >= 1
    &&& text::all_digits(s)
    &&& text::value_of(s) == n
}

proof fn lemma_leading_zeros(k: nat, s: Seq<char>)
    requires
        text::all_digits(s),
    ensures
        text::all_digits(text::repeat('0', k) + s),
        text::value_of(text::repeat('0', k) + s) == text::value_of(s),
    decreases s.len(),
{
    let z = text::repeat('0', k);
    if s.len() == 0 {
        assert(z + s =~= z);
        lemma_zeros(k);
    } else {
        let t = s.drop_last();
        assert forall|i: int| 0 <= i < t.len() implies text::is_digit(#[trigger] t[i]) by {
            assert(t[i] == s[i]);
        }
        lemma_leading_zeros(k, t);
        assert((z + s).drop_last() =~= z + t);
        assert forall|i: int| 0 <= i < (z + s).len() implies text::is_digit(
            #[trigger] (z + s)[i],
        ) by {
            if i >= z.len() {
                assert((z + s)[i] == s[i - z.len()]);
            }
        }
    }
}

proof fn lemma_zeros(k: nat)
    ensures
        text::all_digits(text::repeat('0', k)),
        text::value_of(text::repeat('0', k)) == 0,
    decreases k,
{
    if k > 0 {
        lemma_zeros((k - 1) as nat);
        assert(text::repeat('0', k).drop_last() =~= text::repeat('0', (k - 1) as nat));
    }
}

proof fn lemma_padded(n: nat, w: nat)
    requires
        w >= 1,
        n < power(w),
    ensures
        text::zero_padded(n, w).len() == w,
        text::all_digits(text::zero_padded(n, w)),
        text::value_of(text::zero_padded(n, w)) == n,
{
    lemma_decimal_width(n, w);
    let s = text::decimal(n);
    if s.len() < w {
        lemma_leading_zeros((w - s.len()) as nat, s);
    }
}

proof fn lemma_same_value(s: Seq<char>, t: Seq<char>)
    requires
        s.len() == t.len(),
        text::all_digits(s),
        text::all_digits(t),
        text::value_of(s) == text::value_of(t),
    ensures
        s == t,
    decreases s.len(),
{
    if s.len() > 0 {
        let a = s.drop_last();
        let b = t.drop_last();
        assert(text::is_digit(s[s.len() - 1]));
        assert(text::is_digit(t[t.len() - 1]));
        assert forall|i: int| 0 <= i < a.len() implies text::is_digit(#[trigger] a[i]) by {
            assert(a[i] == s[i]);
        }
        assert forall|i: int| 0 <= i < b.len() implies text::is_digit(#[trigger] b[i]) by {
            assert(b[i] == t[i]);
        }
        lemma_same_value(a, b);
        assert(s.last() == t.last());
        assert(s =~= a.push(s.last()));
        assert(t =~= b.push(t.last()));
    } else {
        assert(s =~= t);
    }
}

proof fn lemma_le_extend(a: Seq<int>, b: Seq<int>, x: Seq<int>, y: Seq<int>)
    requires
        a.len() == b.len(),
    ensures
        order::part_le(a + x, b + y) == if a == b {
            order::part_le(x, y)
        } else {
            order::part_le(a, b)
        },
    decreases a.len(),
{
    if a.len() == 0 {
        assert(a =~= b);
        assert(a + x =~= x);
        assert(b + y =~= y);
    } else {
        lemma_le_extend(a.skip(1), b.skip(1), x, y);
        assert((a + x).skip(1) =~= a.skip(1) + x);
        assert((b + y).skip(1) =~= b.skip(1) + y);
        assert((a + x)[0] == a[0]);
        assert((b + y)[0] == b[0]);
        if a[0] == b[0] && a.skip(1) == b.skip(1) {
            assert forall|i: int| 0 <= i < a.len() implies a[i] == b[i] by {
                if i > 0 {
                    assert(a[i] == a.skip(1)[i - 1]);
                    assert(b[i] == b.skip(1)[i - 1]);
                }
            }
            assert(a =~= b);
        }
        if a == b {
            assert(a.skip(1) == b.skip(1));
        }
    }
}

proof fn lemma_text_extend(s: Seq<char>, t: Seq<char>, x: Seq<char>, y: Seq<char>)
    requires
        s.len() == t.len(),
    ensures
        order::text_le(s + x, t + y) == if s == t {
            order::text_le(x, y)
        } else {
            order::text_le(s, t)
        },
{
    lemma_le_extend(order::ranks(s), order::ranks(t), order::ranks(x), order::ranks(y));
    assert(order::ranks(s + x) =~= order::ranks(s) + order::ranks(x));
    assert(order::ranks(t + y) =~= order::ranks(t) + order::ranks(y));
    if order::ranks(s) == order::ranks(t) {
        order::lemma_ranks_injective(s, t);
    }
}

proof fn lemma_digits_order(s: Seq<char>, t: Seq<char>)
    requires
        s.len() == t.len(),
        text::all_digits(s),
        text::all_digits(t),
    ensures
        order::text_le(s, t) == (text::value_of(s) <= text::value_of(t)),
    decreases s.len(),
{
    if s.len() == 0 {
        assert(s =~= t);
        assert(order::ranks(s).len() == 0);
    } else {
        let a = s.drop_last();
        let b = t.drop_last();
        let x = seq![s.last()];
        let y = seq![t.last()];
        assert(text::is_digit(s[s.len() - 1]));
        assert(text::is_digit(t[t.len() - 1]));
        assert forall|i: int| 0 <= i < a.len() implies text::is_digit(#[trigger] a[i]) by {
            assert(a[i] == s[i]);
        }
        assert forall|i: int| 0 <= i < b.len() implies text::is_digit(#[trigger] b[i]) by {
            assert(b[i] == t[i]);
        }
        lemma_digits_order(a, b);
        lemma_text_extend(a, b, x, y);
        assert(s =~= a + x);
        assert(t =~= b + y);
        let rx = order::ranks(x);
        let ry = order::ranks(y);
        assert(rx.len() == 1 && rx[0] == (s.last() as u32) as int);
        assert(ry.len() == 1 && ry[0] == (t.last() as u32) as int);
        assert(order::part_le(rx, ry) == (rx[0] <= ry[0])) by {
            assert(rx.skip(1).len() == 0);
            assert(order::part_le(rx.skip(1), ry.skip(1)));
        }
        if a != b {
            if text::value_of(a) == text::value_of(b) {
                lemma_same_value(a, b);
            }
        }
    }
}

/// Whether two texts of one length compare as two numbers do.
spec fn agree(s: Seq<char>, t: Seq<char>, v: int, w: int) -> bool {
    &&& s.len() == t.len()
    &&& (s == t) == (v == w)
    &&& order::text_le(s, t) == (v <= w)
}

proof fn lemma_agree_separator(s: Seq<char>, t: Seq<char>, v: int, w: int, x: Seq<char>)
    requires
        agree(s, t, v, w),
    ensures
        agree(s + x, t + x, v, w),
{
    lemma_text_extend(s, t, x, x);
    order::part_order(order::ranks(x), order::ranks(x), order::ranks(x));
    if s + x == t + x {
        assert(s =~= (s + x).take(s.len() as int));
        assert(t =~= (t + x).take(t.len() as int));
    }
}

proof fn lemma_agree_number(
    s: Seq<char>,
    t: Seq<char>,
    v: int,
    w: int,
    m: nat,
    n: nat,
    width: nat,
    size: int,
)
    requires
        agree(s, t, v, w),
        width >= 1,
        size == power(width),
        m < size,
        n < size,
    ensures
        agree(
            s + text::zero_padded(m, width),
            t + text::zero_padded(n, width),
            v * size + m,
            w * size + n,
        ),
{
    let x = text::zero_padded(m, width);
    let y = text::zero_padded(n, width);
    lemma_padded(m, width);
    lemma_padded(n, width);
    lemma_text_extend(s, t, x, y);
    lemma_digits_order(x, y);
    if s + x == t + y {
        assert(s =~= (s + x).take(s.len() as int));
        assert(t =~= (t + y).take(t.len() as int));
        assert(x =~= (s + x).skip(s.len() as int));
        assert(y =~= (t + y).skip(t.len() as int));
    }
    if v < w {
        assert(v * size + m < w * size + n) by (nonlinear_arith)
            requires
                v < w,
                m < size,
                n >= 0,
                size > 0,
        ;
    } else if v > w {
        assert(v * size + m > w * size + n) by (nonlinear_arith)
            requires
                v > w,
                n < size,
                m >= 0,
                size > 0,
        ;
    } else {
        if m == n {
            assert(x == y);
        }
    }
}

proof fn lemma_powers()
    ensures
        power(2) == 100,
        power(4) == 10_000,
        power(9) == 1_000_000_000,
{
    reveal_with_fuel(power, 10);
}

/// The time of a day as one number: its parts one after the other.
spec fn clock_number(second: int) -> int {
    ((second / 3600) * 100 + (second / 60) % 60) * 100 + second % 60
}

/// A stamp without its nanoseconds as one number.
spec fn stamp_number(d: Date, second: int) -> int {
    day_order(d) * 1_000_000 + clock_number(second)
}

proof fn lemma_clock_order(s: int, t: int)
    requires
        0 <= s < t < 86400,
    ensures
        clock_number(s) < clock_number(t),
{
    let a = s / 60;
    let b = t / 60;
    assert(a / 60 == s / 3600 && b / 60 == t / 3600);
    assert(s == 60 * a + s % 60 && t == 60 * b + t % 60);
    assert(a == 60 * (a / 60) + a % 60 && b == 60 * (b / 60) + b % 60);
}

proof fn lemma_clock_bound(s: int)
    requires
        0 <= s < 86400,
    ensures
        0 <= clock_number(s) < 1_000_000,
{
}

#[verifier::rlimit(40)]
proof fn lemma_stamps(d: Date, second: int, nanos: int, e: Date, other: int, more: int)
    requires
        d.valid(),
        e.valid(),
        d.year <= 9999,
        e.year <= 9999,
        0 <= second < 86400,
        0 <= other < 86400,
        0 <= nanos < 1_000_000_000,
        0 <= more < 1_000_000_000,
    ensures
        agree(
            stamp(d, second, nanos),
            stamp(e, other, more),
            stamp_number(d, second) * 1_000_000_000 + nanos,
            stamp_number(e, other) * 1_000_000_000 + more,
        ),
{
    lemma_powers();
    let none = Seq::<char>::empty();
    assert(agree(none, none, 0, 0)) by {
        order::part_order(order::ranks(none), order::ranks(none), order::ranks(none));
    }
    let y1 = text::zero_padded(d.year as nat, 4);
    let y2 = text::zero_padded(e.year as nat, 4);
    lemma_agree_number(none, none, 0, 0, d.year as nat, e.year as nat, 4, 10_000);
    assert(none + y1 =~= y1);
    assert(none + y2 =~= y2);
    lemma_agree_separator(y1, y2, d.year as int, e.year as int, "-"@);
    let a1 = y1 + "-"@;
    let a2 = y2 + "-"@;
    lemma_agree_number(
        a1,
        a2,
        d.year as int,
        e.year as int,
        d.month as nat,
        e.month as nat,
        2,
        100,
    );
    let v = d.year * 100 + d.month;
    let w = e.year * 100 + e.month;
    let b1 = a1 + text::zero_padded(d.month as nat, 2);
    let b2 = a2 + text::zero_padded(e.month as nat, 2);
    lemma_agree_separator(b1, b2, v, w, "-"@);
    lemma_agree_number(b1 + "-"@, b2 + "-"@, v, w, d.day as nat, e.day as nat, 2, 100);
    let v = v * 100 + d.day;
    let w = w * 100 + e.day;
    let c1 = b1 + "-"@ + text::zero_padded(d.day as nat, 2);
    let c2 = b2 + "-"@ + text::zero_padded(e.day as nat, 2);
    lemma_agree_separator(c1, c2, v, w, "T"@);
    let h1 = (second / 3600) as nat;
    let h2 = (other / 3600) as nat;
    lemma_agree_number(c1 + "T"@, c2 + "T"@, v, w, h1, h2, 2, 100);
    let v = v * 100 + h1;
    let w = w * 100 + h2;
    let d1 = c1 + "T"@ + text::zero_padded(h1, 2);
    let d2 = c2 + "T"@ + text::zero_padded(h2, 2);
    lemma_agree_separator(d1, d2, v, w, ":"@);
    let m1 = ((second / 60) % 60) as nat;
    let m2 = ((other / 60) % 60) as nat;
    lemma_agree_number(d1 + ":"@, d2 + ":"@, v, w, m1, m2, 2, 100);
    let v = v * 100 + m1;
    let w = w * 100 + m2;
    let e1 = d1 + ":"@ + text::zero_padded(m1, 2);
    let e2 = d2 + ":"@ + text::zero_padded(m2, 2);
    lemma_agree_separator(e1, e2, v, w, ":"@);
    let s1 = (second % 60) as nat;
    let s2 = (other % 60) as nat;
    lemma_agree_number(e1 + ":"@, e2 + ":"@, v, w, s1, s2, 2, 100);
    let v = v * 100 + s1;
    let w = w * 100 + s2;
    let f1 = e1 + ":"@ + text::zero_padded(s1, 2);
    let f2 = e2 + ":"@ + text::zero_padded(s2, 2);
    lemma_agree_separator(f1, f2, v, w, "."@);
    lemma_agree_number(
        f1 + "."@,
        f2 + "."@,
        v,
        w,
        nanos as nat,
        more as nat,
        9,
        1_000_000_000,
    );
    let g1 = f1 + "."@ + text::zero_padded(nanos as nat, 9);
    let g2 = f2 + "."@ + text::zero_padded(more as nat, 9);
    lemma_agree_separator(
        g1,
        g2,
        v * 1_000_000_000 + nanos,
        w * 1_000_000_000 + more,
        "Z"@,
    );
}

/// Every day after the epoch has a date.
proof fn lemma_date_exists(days: int)
    requires
        0 <= days <= 300_000_000_000_000,
    ensures
        date_of(days).valid(),
        date_of(days).number() == days,
    decreases days,
{
    if days == 0 {
        let d = Date { year: 1970, month: 1, day: 1 };
        assert(d.valid());
        assert(d.number() == 0) by {
            reveal_with_fuel(month_start, 2);
            reveal_with_fuel(year_start, 2);
        }
    } else {
        lemma_date_exists(days - 1);
        let d = date_of(days - 1);
        lemma_days_reach(d.year as int);
        lemma_month_nonnegative(d.year as int, d.month as int);
        lemma_months_fill_the_year(d.year as int);
        if d.day < month_len(d.year as int, d.month as int) {
            let e = Date { day: (d.day + 1) as u64, ..d };
            assert(e.valid() && e.number() == days);
        } else if d.month < 12 {
            let e = Date { day: 1, month: (d.month + 1) as u64, ..d };
            assert(e.valid() && e.number() == days);
        } else {
            let e = Date { day: 1, month: 1, year: (d.year + 1) as u64 };
            assert(month_start(e.year as int, 1) == 0);
            assert(e.valid() && e.number() == days);
        }
    }
}

/// Timestamps of four-digit years are all of one length, and sort as text in the
/// order of the times they stand for.
#[verifier::spinoff_prover]
#[verifier::rlimit(60)]
pub proof fn timestamps_sort_as_times(a: u64, nanos: u32, b: u64, more: u32)
    requires
        nanos < 1_000_000_000,
        more < 1_000_000_000,
        date_of(a as int / 86400).year <= 9999,
        date_of(b as int / 86400).year <= 9999,
    ensures
        utc_text(a as int, nanos as int).len() == utc_text(b as int, more as int).len(),
        order::text_le(utc_text(a as int, nanos as int), utc_text(b as int, more as int)) == (a < b
            || (a == b && nanos <= more)),
        (utc_text(a as int, nanos as int) == utc_text(b as int, more as int)) == (a == b && nanos
            == more),
{
    let d = date_of(a as int / 86400);
    let e = date_of(b as int / 86400);
    lemma_date_exists(a as int / 86400);
    lemma_date_exists(b as int / 86400);
    let s = a as int % 86400;
    let t = b as int % 86400;
    lemma_stamps(d, s, nanos as int, e, t, more as int);
    days_are_in_order(d, e);
    assert(a == 86400 * (a as int / 86400) + s);
    assert(b == 86400 * (b as int / 86400) + t);
    lemma_clock_bound(s);
    lemma_clock_bound(t);
    if s < t {
        lemma_clock_order(s, t);
    } else if t < s {
        lemma_clock_order(t, s);
    }
    let x = stamp_number(d, s);
    let y = stamp_number(e, t);
    assert((x < y) == (a < b) && (x == y) == (a == b)) by {
        lemma_stamps_in_order(
            a as int / 86400,
            b as int / 86400,
            day_order(d),
            day_order(e),
            s,
            t,
            clock_number(s),
            clock_number(t),
        );
    }
}

proof fn lemma_stamps_in_order(m: int, n: int, x: int, y: int, s: int, t: int, p: int, q: int)
    requires
        (m < n) == (x < y),
        (m == n) == (x == y),
        (s < t) == (p < q),
        (s == t) == (p == q),
        0 <= s < 86400 && 0 <= t < 86400,
        0 <= p < 1_000_000 && 0 <= q < 1_000_000,
    ensures
        (x * 1_000_000 + p < y * 1_000_000 + q) == (86400 * m + s < 86400 * n + t),
        (x * 1_000_000 + p == y * 1_000_000 + q) == (86400 * m + s == 86400 * n + t),
{
}

/// A timestamp of a four-digit year is thirty characters long.
pub proof fn timestamps_have_one_length(seconds: u64, nanos: u32)
    requires
        nanos < 1_000_000_000,
        date_of(seconds as int / 86400).year <= 9999,
    ensures
        utc_text(seconds as int, nanos as int).len() == 30,
{
    let d = date_of(seconds as int / 86400);
    lemma_date_exists(seconds as int / 86400);
    let s = seconds as int % 86400;
    lemma_powers();
    lemma_padded(d.year as nat, 4);
    lemma_padded(d.month as nat, 2);
    lemma_padded(d.day as nat, 2);
    lemma_padded((s / 3600) as nat, 2);
    lemma_padded(((s / 60) % 60) as nat, 2);
    lemma_padded((s % 60) as nat, 2);
    lemma_padded(nanos as nat, 9);
    reveal_strlit("-");
    reveal_strlit("T");
    reveal_strlit(":");
    reveal_strlit(".");
    reveal_strlit("Z");
}

} // verus!
