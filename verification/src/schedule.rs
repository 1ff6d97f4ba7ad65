//! Start times for "later" downloads, in local time: the presets offered
//! and how a start time reads in a status line.

use chrono::{Datelike, TimeZone, Timelike};
use crate::text::{decimal, push_decimal, push_str, push_char, push_two_digits, two_digits};
use crate::util::{civil_days, civil_in_range, days_from_civil, tdiv, tmod};
use vstd::arithmetic::div_mod::{lemma_fundamental_div_mod, lemma_mod_multiples_vanish};
use vstd::prelude::*;
use vstd::string::StringExecFns;

verus! {

/// Hour of the "tonight" preset, when lines are quiet.
pub const NIGHT_HOUR: u32 = 2;

/// A wall-clock time: date and time of day to the minute.
#[derive(Clone, Copy, Debug, PartialEq, Eq, Structural)]
pub struct Moment {
    pub year: i32,
    pub month: u32,
    pub day: u32,
    pub hour: u32,
    pub minute: u32,
}

impl Moment {
    /// The fields lie in their ranges.
    pub open spec fn wf(self) -> bool {
        1 <= self.month <= 12 && 1 <= self.day <= 31 && self.hour < 24 && self.minute < 60
    }

    /// Days since 1970-01-01 of the date.
    pub open spec fn day_number(self) -> int {
        civil_days(self.year as int, self.month as int, self.day as int)
    }

    /// A real date whose minute holds the wall-clock second `secs`
    /// (counted like Unix time).
    pub open spec fn shows(self, secs: int) -> bool {
        &&& self.wf()
        &&& self.day as int <= month_days(self.year as int, self.month as int)
        &&& 0 <= secs - (self.day_number() * 86400 + self.hour * 3600 + self.minute * 60) < 60
    }
}

/// 1970-01-01 00:00.
pub open spec fn epoch() -> Moment {
    Moment { year: 1970, month: 1, day: 1, hour: 0, minute: 0 }
}

/// Unix times that `chrono` represents with a day to spare on each side.
pub open spec fn in_chrono_range(unix: int) -> bool {
    -8_000_000_000_000 <= unix <= 8_000_000_000_000
}

/// `m` reads the Unix time `unix` on a local clock: the time shifted by a
/// time zone's offset, which is less than a day either way; outside the
/// times `chrono` represents it may also be the epoch.
pub open spec fn local_reading(unix: int, m: Moment) -> bool {
    ||| exists|secs: int| -86400 < secs - unix < 86400 && #[trigger] m.shows(secs)
    ||| !in_chrono_range(unix) && m == epoch()
}

/// `m` is what some local clock reads at some time.
pub open spec fn clock_reading(m: Moment) -> bool {
    exists|unix: int| #[trigger] local_reading(unix, m)
}

/// How a start at the Unix time `unix` reads in a status line: `described`
/// of its local time against the local time now.
pub open spec fn start_reads(unix: int, text: Seq<char>) -> bool {
    exists|at: Moment, now: Moment|
        at.wf() && now.wf() && local_reading(unix, at) && clock_reading(now) && text == #[trigger] described(
            at,
            now,
        )
}

#[derive(Clone, Copy, Debug, PartialEq, Eq, Structural)]
pub enum Preset {
    In30Min,
    In1Hour,
    Tonight,
}

impl Preset {
    pub open spec fn label_text(self) -> Seq<char> {
        match self {
            Preset::In30Min => "In 30 Minuten"@,
            Preset::In1Hour => "In einer Stunde"@,
            Preset::Tonight => "Heute Nacht um "@ + decimal(NIGHT_HOUR as nat) + ":00"@,
        }
    }

    pub fn label(self) -> (r: String)
        ensures
            r@ == self.label_text(),
    {
        match self {
            Preset::In30Min => String::from_str("In 30 Minuten"),
            Preset::In1Hour => String::from_str("In einer Stunde"),
            Preset::Tonight => {
                let mut s = String::from_str("Heute Nacht um ");
                push_decimal(&mut s, NIGHT_HOUR as u64);
                push_str(&mut s, ":00");
                s
            },
        }
    }
}

/// Leap years of the Gregorian calendar.
pub open spec fn leap(y: int) -> bool {
    (y % 4 == 0 && y % 100 != 0) || y % 400 == 0
}

/// Days in month `m` of year `y`.
pub open spec fn month_days(y: int, m: int) -> int {
    if m == 2 {
        if leap(y) {
            29
        } else {
            28
        }
    } else if m == 4 || m == 6 || m == 9 || m == 11 {
        30
    } else {
        31
    }
}

/// The same time of day on the following date.
pub open spec fn next_day(t: Moment) -> Moment {
    if (t.day as int) < month_days(t.year as int, t.month as int) {
        Moment { day: (t.day + 1) as u32, ..t }
    } else if t.month < 12 {
        Moment { month: (t.month + 1) as u32, day: 1, ..t }
    } else {
        Moment { year: (t.year + 1) as i32, month: 1, day: 1, ..t }
    }
}

/// `mins` minutes (at most a day) after `t`.
pub open spec fn plus_minutes(t: Moment, mins: nat) -> Moment {
    let total = t.hour * 60 + t.minute + mins;
    if total < 1440 {
        Moment { hour: (total / 60) as u32, minute: (total % 60) as u32, ..t }
    } else {
        let d = next_day(t);
        Moment { hour: ((total - 1440) / 60) as u32, minute: ((total - 1440) % 60) as u32, ..d }
    }
}

/// The next time the clock shows `hour:minute` (held to 23:59), today if
/// that is still ahead of `now`, else tomorrow.
pub open spec fn next_time(now: Moment, hour: u32, minute: u32) -> Moment {
    let h = if hour < 23 {
        hour
    } else {
        23
    };
    let m = if minute < 59 {
        minute
    } else {
        59
    };
    let today = Moment { hour: h, minute: m, ..now };
    if h > now.hour || (h == now.hour && m > now.minute) {
        today
    } else {
        next_day(today)
    }
}

/// Days from the era's start to March 1 of year `y`, the part of
/// `civil_days` that depends on the year (counted from March).
spec fn year_base(y: int) -> int {
    let era = tdiv(if y >= 0 {
        y
    } else {
        y - 399
    }, 400);
    let yoe = y - era * 400;
    era * 146097 + yoe * 365 + tdiv(yoe, 4) - tdiv(yoe, 100)
}

proof fn lemma_civil_split(y: int, m: int, d: int)
    ensures
        civil_days(y, m, d) == year_base(if m <= 2 {
            y - 1
        } else {
            y
        }) + tdiv(153 * tmod(m + 9, 12) + 2, 5) + d - 1 - 719468,
{
}

proof fn lemma_era(y: int)
    ensures
        tdiv(if y >= 0 {
            y
        } else {
            y - 399
        }, 400) == y / 400,
{
    lemma_fundamental_div_mod(y, 400);
    if y < 0 {
        lemma_fundamental_div_mod(399 - y, 400);
    }
}

/// A year has 366 days from March to March when it is a leap year, else 365.
proof fn lemma_year_step(y: int)
    ensures
        year_base(y) - year_base(y - 1) == if leap(y) {
            366int
        } else {
            365int
        },
{
    lemma_era(y);
    lemma_era(y - 1);
    lemma_fundamental_div_mod(y, 400);
    lemma_fundamental_div_mod(y - 1, 400);
    let q = y / 400;
    let r = y % 400;
    lemma_mod_multiples_vanish(100 * q, r, 4);
    lemma_mod_multiples_vanish(4 * q, r, 100);
    lemma_mod_multiples_vanish(q, r, 400);
    assert(4 * (100 * q) + r == y);
    assert(100 * (4 * q) + r == y);
    assert(400 * q + r == y);
    if r == 0 {
        assert((y - 1) / 400 == q - 1);
    } else {
        assert((y - 1) / 400 == q);
    }
}

/// The day after a real date is one day later by the civil day count of
/// `civil_days`: June 30 is followed by July 1, February 28 by February 29
/// in a leap year and by March 1 otherwise, December 31 by January 1.
pub proof fn lemma_next_day_is_one_day_later(t: Moment)
    requires
        t.wf(),
        t.day as int <= month_days(t.year as int, t.month as int),
        t.year < i32::MAX,
    ensures
        next_day(t).day_number() == t.day_number() + 1,
        next_day(t).wf(),
{
    let y = t.year as int;
    let m = t.month as int;
    let d = t.day as int;
    let n = next_day(t);
    lemma_civil_split(y, m, d);
    lemma_civil_split(n.year as int, n.month as int, n.day as int);
    if d < month_days(y, m) {
    } else if m == 2 {
        lemma_year_step(y);
    } else if m == 12 {
        assert(tmod(21int, 12) == 9);
        assert(tmod(10int, 12) == 10);
    } else {
        assert(tmod(m + 9, 12) == m - 3 || (m == 1 && tmod(m + 9, 12) == 10));
        if m == 1 {
            assert(tmod(11int, 12) == 11);
        } else if m == 3 {
        } else if m == 4 {
        } else if m == 5 {
        } else if m == 6 {
        } else if m == 7 {
        } else if m == 8 {
        } else if m == 9 {
        } else if m == 10 {
        } else {
        }
    }
}

/// Minutes since 1970-01-01 00:00 on the wall clock.
pub open spec fn minute_number(t: Moment) -> int {
    t.day_number() * 1440 + t.hour * 60 + t.minute
}

/// A real date: the fields in range and the day within its month.
pub open spec fn real_date(t: Moment) -> bool {
    t.wf() && t.day as int <= month_days(t.year as int, t.month as int)
}

/// `mins` minutes after a real moment are exactly `mins` minutes later on
/// the clock, counted by `civil_days`.
pub proof fn lemma_plus_minutes_is_later(t: Moment, mins: nat)
    requires
        real_date(t),
        mins <= 1440,
        t.year < i32::MAX,
    ensures
        minute_number(plus_minutes(t, mins)) == minute_number(t) + mins,
        plus_minutes(t, mins).wf(),
{
    let total = t.hour * 60 + t.minute + mins;
    if total >= 1440 {
        lemma_next_day_is_one_day_later(t);
    }
}

/// The next time the clock shows `hour:minute` (held to 23:59) lies after
/// `now` and at most a day later, and shows that time.
pub proof fn lemma_next_time_is_ahead(now: Moment, hour: u32, minute: u32)
    requires
        real_date(now),
        now.year < i32::MAX,
    ensures
        minute_number(now) < minute_number(next_time(now, hour, minute)) <= minute_number(now) + 1440,
        next_time(now, hour, minute).hour == (if hour < 23 {
            hour
        } else {
            23
        }),
        next_time(now, hour, minute).minute == (if minute < 59 {
            minute
        } else {
            59
        }),
        next_time(now, hour, minute).wf(),
{
    let h = if hour < 23 {
        hour
    } else {
        23
    };
    let m = if minute < 59 {
        minute
    } else {
        59
    };
    let today = Moment { hour: h, minute: m, ..now };
    lemma_next_day_is_one_day_later(today);
}

/// The presets start half an hour later, an hour later, or at the next
/// 2:00 on the clock (later than now and at most a day away).
pub proof fn lemma_preset_starts(p: Preset, now: Moment)
    requires
        real_date(now),
        now.year < i32::MAX,
    ensures
        p is In30Min ==> minute_number(p.start_at(now)) == minute_number(now) + 30,
        p is In1Hour ==> minute_number(p.start_at(now)) == minute_number(now) + 60,
        p is Tonight ==> p.start_at(now).hour == 2 && p.start_at(now).minute == 0 && minute_number(now)
            < minute_number(p.start_at(now)) <= minute_number(now) + 1440,
{
    lemma_plus_minutes_is_later(now, 30);
    lemma_plus_minutes_is_later(now, 60);
    lemma_next_time_is_ahead(now, NIGHT_HOUR, 0);
}

fn month_days_of(y: i32, m: u32) -> (r: u32)
    ensures
        r == month_days(y as int, m as int),
{
    if m == 2 {
        if (y % 4 == 0 && y % 100 != 0) || y % 400 == 0 {
            29
        } else {
            28
        }
    } else if m == 4 || m == 6 || m == 9 || m == 11 {
        30
    } else {
        31
    }
}

fn following_day(t: Moment) -> (r: Moment)
    requires
        t.wf(),
        t.year < i32::MAX,
    ensures
        r == next_day(t),
        r.wf(),
{
    if t.day < month_days_of(t.year, t.month) {
        Moment { day: t.day + 1, ..t }
    } else if t.month < 12 {
        Moment { month: t.month + 1, day: 1, ..t }
    } else {
        Moment { year: t.year + 1, month: 1, day: 1, ..t }
    }
}

/// The moment `mins` minutes (at most a day) after `t`.
pub fn add_minutes(t: Moment, mins: u32) -> (r: Moment)
    requires
        t.wf(),
        t.year < i32::MAX,
        mins <= 1440,
    ensures
        r == plus_minutes(t, mins as nat),
        r.wf(),
{
    let total: u32 = t.hour * 60 + t.minute + mins;
    if total < 1440 {
        Moment { hour: total / 60, minute: total % 60, ..t }
    } else {
        let d = following_day(t);
        Moment { hour: (total - 1440) / 60, minute: (total - 1440) % 60, ..d }
    }
}

/// The next time the clock shows `hour:minute`, today or tomorrow.
pub fn next_at(now: Moment, hour: u32, minute: u32) -> (r: Moment)
    requires
        now.wf(),
        now.year < i32::MAX,
    ensures
        r == next_time(now, hour, minute),
        r.wf(),
{
    let h = if hour < 23 {
        hour
    } else {
        23
    };
    let m = if minute < 59 {
        minute
    } else {
        59
    };
    let today = Moment { hour: h, minute: m, ..now };
    if h > now.hour || (h == now.hour && m > now.minute) {
        today
    } else {
        following_day(today)
    }
}

impl Preset {
    /// When a download planned with this preset starts.
    pub open spec fn start_at(self, now: Moment) -> Moment {
        match self {
            Preset::In30Min => plus_minutes(now, 30),
            Preset::In1Hour => plus_minutes(now, 60),
            Preset::Tonight => next_time(now, NIGHT_HOUR, 0),
        }
    }

    /// When a download planned with this preset at `now` starts.
    pub fn start(self, now: Moment) -> (r: Moment)
        requires
            now.wf(),
            now.year < i32::MAX,
        ensures
            r == self.start_at(now),
            r.wf(),
    {
        match self {
            Preset::In30Min => add_minutes(now, 30),
            Preset::In1Hour => add_minutes(now, 60),
            Preset::Tonight => next_at(now, NIGHT_HOUR, 0),
        }
    }
}

/// Starting point for a custom time: the next full hour.
pub fn next_full_hour(now: Moment) -> (r: u32)
    requires
        now.wf(),
    ensures
        r == (now.hour + 1) % 24,
{
    (now.hour + 1) % 24
}

/// `n` with at least four digits, zeros in front.
pub open spec fn four_digits(n: nat) -> Seq<char> {
    let d = decimal(n);
    if d.len() >= 4 {
        d
    } else {
        Seq::new((4 - d.len()) as nat, |i: int| '0') + d
    }
}

/// The year as `%Y` writes it: four digits, with a sign outside 0–9999.
pub open spec fn year_text(y: int) -> Seq<char> {
    if 0 <= y < 10000 {
        four_digits(y as nat)
    } else if y < 0 {
        seq!['-'] + four_digits((-y) as nat)
    } else {
        seq!['+'] + four_digits(y as nat)
    }
}

/// "23:05", "2:00": hour without padding, minutes with two digits.
pub open spec fn clock_text(m: Moment) -> Seq<char> {
    decimal(m.hour as nat) + seq![':'] + two_digits(m.minute as nat)
}

/// "heute um 2:00", "morgen um 23:30", "am 24.09. um 8:15", "am 01.01.2030 um 1:00".
pub open spec fn described(at: Moment, now: Moment) -> Seq<char> {
    let time = clock_text(at);
    if at.year == now.year && at.month == now.month && at.day == now.day {
        "heute um "@ + time
    } else if at.day_number() == now.day_number() + 1 {
        "morgen um "@ + time
    } else if at.year == now.year {
        "am "@ + two_digits(at.day as nat) + seq!['.'] + two_digits(at.month as nat) + seq!['.']
            + " um "@ + time
    } else {
        "am "@ + two_digits(at.day as nat) + seq!['.'] + two_digits(at.month as nat) + seq!['.']
            + year_text(at.year as int) + " um "@ + time
    }
}

fn push_four_digits(s: &mut String, n: u64)
    ensures
        final(s)@ == old(s)@ + four_digits(n as nat),
{
    let ghost d = decimal(n as nat);
    if n < 10 {
        push_str(s, "000");
    } else if n < 100 {
        push_str(s, "00");
    } else if n < 1000 {
        push_str(s, "0");
    }
    proof {
        crate::text::lemma_decimal_len(n as nat);
        reveal_strlit("000");
        reveal_strlit("00");
        reveal_strlit("0");
        assert(Seq::new(3, |i: int| '0') =~= "000"@);
        assert(Seq::new(2, |i: int| '0') =~= "00"@);
        assert(Seq::new(1, |i: int| '0') =~= "0"@);
    }
    push_decimal(s, n);
}

/// The day number of a date in range, as `days_from_civil` computes it.
fn day_number(m: Moment) -> (r: i64)
    requires
        m.wf(),
    ensures
        r == m.day_number(),
{
    days_from_civil(m.year as i64, m.month as i64, m.day as i64)
}

/// How a start time reads next to the current time.
pub fn describe(at: Moment, now: Moment) -> (r: String)
    requires
        at.wf(),
        now.wf(),
    ensures
        r@ == described(at, now),
{
    let mut time = String::new();
    push_decimal(&mut time, at.hour as u64);
    push_char(&mut time, ':');
    push_two_digits(&mut time, at.minute as u64);
    let mut s = if at.year == now.year && at.month == now.month && at.day == now.day {
        String::from_str("heute um ")
    } else if day_number(at) == day_number(now) + 1 {
        String::from_str("morgen um ")
    } else {
        let mut s = String::from_str("am ");
        push_two_digits(&mut s, at.day as u64);
        push_char(&mut s, '.');
        push_two_digits(&mut s, at.month as u64);
        push_char(&mut s, '.');
        if at.year != now.year {
            if at.year < 0 {
                push_char(&mut s, '-');
                push_four_digits(&mut s, (-(at.year as i64)) as u64);
            } else if at.year >= 10000 {
                push_char(&mut s, '+');
                push_four_digits(&mut s, at.year as u64);
            } else {
                push_four_digits(&mut s, at.year as u64);
            }
        }
        push_str(&mut s, " um ");
        s
    };
    push_str(&mut s, time.as_str());
    s
}

/// The local wall-clock time of a Unix time, by the time zone this machine
/// is set to (`chrono`'s `Local`: `DateTime::from_timestamp`, the zone's
/// offset by `offset_from_utc_datetime`, added with `checked_add_offset`);
/// the Unix epoch for a time chrono cannot represent, before or after the
/// offset. Stated: the fields lie in their ranges and form a real date, and
/// the moment is `unix` shifted by some offset of less than a day (chrono's
/// `FixedOffset` is bounded so), or the epoch for a time out of range;
/// which offset the machine's time zone has is not known here.
#[verifier::external_body]
fn local_moment(unix: i64) -> (m: Moment)
    ensures
        m.wf(),
        local_reading(unix as int, m),
{
    let t = chrono::DateTime::from_timestamp(unix, 0)
        .map(|d| d.naive_utc())
        .and_then(|u| u.checked_add_offset(chrono::Local.offset_from_utc_datetime(&u)))
        .unwrap_or_default();
    Moment { year: t.year(), month: t.month(), day: t.day(), hour: t.hour(), minute: t.minute() }
}

/// Start time of a scheduled job for the status line: `described` of the
/// start in local time against the local time now.
pub fn describe_unix(unix: i64) -> (r: String)
    ensures
        start_reads(unix as int, r@),
{
    let at = local_moment(unix);
    // A clock set before 1970 counts as the epoch.
    let secs: i64 = match crate::util::unix_now() {
        Some(n) => if n <= i64::MAX as u64 {
            n as i64
        } else {
            i64::MAX
        },
        None => 0,
    };
    let now = local_moment(secs);
    let r = describe(at, now);
    assert(clock_reading(now)) by {
        assert(local_reading(secs as int, now));
    }
    assert(at.wf() && now.wf() && local_reading(unix as int, at) && r@ == described(at, now));
    r
}

} // verus!
