//! Calendar and wall-clock model.
//!
//! Recording filenames are the sole authoritative source of wall-clock
//! time, so the library carries its own plain-value date and time type:
//! a naive calendar datetime with no zone. Week-of-year follows the ISO
//! 8601 week numbering.

use vstd::prelude::*;
use crate::text::{dec2_str, digit_char, digit_string, u32_dec2};

verus! {

/// A naive wall-clock datetime (no zone attached).
#[derive(Clone, Copy, PartialEq, Eq, Structural, Debug)]
pub struct DateTime {
    pub year: u32,
    pub month: u32,
    pub day: u32,
    pub hour: u32,
    pub minute: u32,
    pub second: u32,
}

/// Gregorian leap year.
pub open spec fn is_leap_year(y: int) -> bool {
    (y % 4 == 0 && y % 100 != 0) || y % 400 == 0
}

/// Days in a month of a given year.
pub open spec fn days_in_month(y: int, m: int) -> int {
    if m == 1 { 31 }
    else if m == 2 { if is_leap_year(y) { 29 } else { 28 } }
    else if m == 3 { 31 }
    else if m == 4 { 30 }
    else if m == 5 { 31 }
    else if m == 6 { 30 }
    else if m == 7 { 31 }
    else if m == 8 { 31 }
    else if m == 9 { 30 }
    else if m == 10 { 31 }
    else if m == 11 { 30 }
    else { 31 }
}

/// A date the filename grammar can carry: a year the four digits can
/// write, a real month and day. Year zero of the proleptic calendar is
/// the one four-digit year left out: the day-count arithmetic below
/// works with non-negative years only.
pub open spec fn valid_date(y: int, m: int, d: int) -> bool {
    1 <= y <= 9999 && 1 <= m <= 12 && 1 <= d <= days_in_month(y, m)
}

pub open spec fn valid_time(h: int, mi: int, s: int) -> bool {
    0 <= h < 24 && 0 <= mi < 60 && 0 <= s < 60
}

impl DateTime {
    /// Well-formedness of the whole datetime.
    pub open spec fn valid(self) -> bool {
        valid_date(self.year as int, self.month as int, self.day as int)
            && valid_time(self.hour as int, self.minute as int, self.second as int)
    }
}

/// One-based ordinal of the day within its year.
pub open spec fn day_of_year(y: int, m: int, d: int) -> int
    decreases m,
{
    if m <= 1 {
        d
    } else {
        days_in_month(y, m - 1) + day_of_year(y, m - 1, d)
    }
}

/// Day count since 1970-01-01 for a date in a supported year
/// (civil-calendar day-numbering formula).
pub open spec fn days_from_civil(y: int, m: int, d: int) -> int {
    let yy = if m <= 2 { y - 1 } else { y };
    let era = yy / 400;
    let yoe = yy - era * 400;
    let mp = if m > 2 { m - 3 } else { m + 9 };
    let doy = (153 * mp + 2) / 5 + d - 1;
    let doe = yoe * 365 + yoe / 4 - yoe / 100 + doy;
    era * 146097 + doe - 719468
}

/// ISO weekday, Monday = 1 .. Sunday = 7.
///
/// The added constant shifts the epoch-relative day count to a
/// non-negative value (for any supported year) without changing its
/// residue class: day 0 is a Thursday, and the shift is 3 modulo 7.
pub open spec fn iso_weekday(y: int, m: int, d: int) -> int {
    (days_from_civil(y, m, d) + 719470) % 7 + 1
}

/// Helper term of the 53-week-year rule.
pub open spec fn year_wd(y: int) -> int {
    (y + y / 4 - y / 100 + y / 400) % 7
}

/// Number of ISO weeks in year `y`: 52, or 53 for "long" years.
pub open spec fn weeks_in_year(y: int) -> int {
    if year_wd(y) == 4 || year_wd(y - 1) == 3 { 53 } else { 52 }
}

/// ISO 8601 week number of a date.
pub open spec fn iso_week_of(y: int, m: int, d: int) -> int {
    let w = (day_of_year(y, m, d) - iso_weekday(y, m, d) + 10) / 7;
    if w < 1 {
        weeks_in_year(y - 1)
    } else if w > weeks_in_year(y) {
        1
    } else {
        w
    }
}

/// Days in a month, executable.
pub fn month_length(y: u32, m: u32) -> (r: u32)
    requires
        1 <= m <= 12,
    ensures
        r as int == days_in_month(y as int, m as int),
{
    if m == 1 { 31 }
    else if m == 2 {
        if (y % 4 == 0 && y % 100 != 0) || y % 400 == 0 { 29 } else { 28 }
    }
    else if m == 3 { 31 }
    else if m == 4 { 30 }
    else if m == 5 { 31 }
    else if m == 6 { 30 }
    else if m == 7 { 31 }
    else if m == 8 { 31 }
    else if m == 9 { 30 }
    else if m == 10 { 31 }
    else if m == 11 { 30 }
    else { 31 }
}

/// One-based day-of-year, executable.
pub fn ordinal_day(y: u32, m: u32, d: u32) -> (r: u32)
    requires
        valid_date(y as int, m as int, d as int),
    ensures
        r as int == day_of_year(y as int, m as int, d as int),
        1 <= r <= 366,
{
    let mut acc: u32 = d;
    let mut k: u32 = m;
    while k > 1
        invariant
            1 <= k <= m <= 12,
            1 <= d <= 31,
            acc as int == day_of_year(y as int, m as int, d as int)
                - day_of_year(y as int, k as int, d as int) + d,
            acc <= 31 + 31 * (m - k),
        decreases k,
    {
        acc = acc + month_length(y, k - 1);
        k = k - 1;
    }
    proof {
        assert(day_of_year(y as int, 1, d as int) == d);
        assert(day_of_year(y as int, m as int, d as int) >= 1) by {
            lemma_day_of_year_bounds(y as int, m as int, d as int);
        }
        assert(day_of_year(y as int, m as int, d as int) <= 366) by {
            lemma_day_of_year_bounds(y as int, m as int, d as int);
        }
    }
    acc
}

/// Days in the months before month `m` of year `y`.
pub open spec fn month_offset(y: int, m: int) -> int {
    let leap: int = if is_leap_year(y) { 1 } else { 0 };
    if m <= 1 { 0 }
    else if m == 2 { 31 }
    else if m == 3 { 59 + leap }
    else if m == 4 { 90 + leap }
    else if m == 5 { 120 + leap }
    else if m == 6 { 151 + leap }
    else if m == 7 { 181 + leap }
    else if m == 8 { 212 + leap }
    else if m == 9 { 243 + leap }
    else if m == 10 { 273 + leap }
    else if m == 11 { 304 + leap }
    else { 334 + leap }
}

/// Day-of-year is the day plus the cumulative length of the earlier
/// months.
pub proof fn lemma_day_of_year_offset(y: int, m: int, d: int)
    requires
        1 <= m <= 12,
    ensures
        day_of_year(y, m, d) == d + month_offset(y, m),
    decreases m,
{
    if m > 1 {
        lemma_day_of_year_offset(y, m - 1, d);
    }
}

/// Day-of-year stays within one year's length.
pub proof fn lemma_day_of_year_bounds(y: int, m: int, d: int)
    requires
        1 <= m <= 12,
        1 <= d <= days_in_month(y, m),
    ensures
        1 <= day_of_year(y, m, d) <= 366,
{
    lemma_day_of_year_offset(y, m, d);
}

/// Day count since 1970-01-01, executable.
pub fn civil_days(y: u32, m: u32, d: u32) -> (r: i64)
    requires
        valid_date(y as int, m as int, d as int),
    ensures
        r as int == days_from_civil(y as int, m as int, d as int),
        r + 719470 >= 0,
{
    let yy: i64 = if m <= 2 { y as i64 - 1 } else { y as i64 };
    let era: i64 = yy / 400;
    let yoe: i64 = yy - era * 400;
    let mp: i64 = if m > 2 { m as i64 - 3 } else { m as i64 + 9 };
    let doy: i64 = (153 * mp + 2) / 5 + d as i64 - 1;
    let doe: i64 = yoe * 365 + yoe / 4 - yoe / 100 + doy;
    era * 146097 + doe - 719468
}

/// ISO weekday (Monday = 1), executable.
pub fn weekday_iso(y: u32, m: u32, d: u32) -> (r: u32)
    requires
        valid_date(y as int, m as int, d as int),
    ensures
        r as int == iso_weekday(y as int, m as int, d as int),
        1 <= r <= 7,
{
    let days = civil_days(y, m, d);
    let pos: i64 = days + 719470;
    ((pos % 7) as u32) + 1
}

fn year_wd_exec(y: i64) -> (r: u32)
    requires
        -1 <= y <= 10000,
    ensures
        r as int == year_wd(y as int),
        r <= 6,
{
    if y == -1 {
        proof {
            assert(year_wd(-1) == 5);
        }
        5
    } else {
        ((y + y / 4 - y / 100 + y / 400) % 7) as u32
    }
}

fn weeks_in_year_exec(y: i64) -> (r: u32)
    requires
        0 <= y <= 10000,
    ensures
        r as int == weeks_in_year(y as int),
{
    let a = year_wd_exec(y);
    let b = year_wd_exec(y - 1);
    if a == 4 || b == 3 { 53 } else { 52 }
}

impl DateTime {
    /// ISO 8601 week number, 1 to 53.
    pub fn week(&self) -> (r: u32)
        requires
            self.valid(),
        ensures
            r as int == iso_week_of(self.year as int, self.month as int, self.day as int),
            1 <= r <= 53,
    {
        let ord = ordinal_day(self.year, self.month, self.day);
        let wd = weekday_iso(self.year, self.month, self.day);
        let base: u32 = ord + 10 - wd;
        let w: u32 = base / 7;
        let wy = weeks_in_year_exec(self.year as i64);
        if w < 1 {
            weeks_in_year_exec(self.year as i64 - 1)
        } else if w > wy {
            1
        } else {
            w
        }
    }
}

/// Spec mirror of adding whole seconds to a datetime, carrying through
/// minutes, hours, and calendar days.
pub open spec fn dt_plus_seconds(dt: DateTime, secs: int) -> DateTime
    decreases secs,
{
    if secs <= 0 {
        dt
    } else {
        dt_plus_seconds(dt_plus_one_second(dt), secs - 1)
    }
}

/// Spec: advance one second with full carry.
pub open spec fn dt_plus_one_second(dt: DateTime) -> DateTime {
    if dt.second < 59 {
        DateTime { second: (dt.second + 1) as u32, ..dt }
    } else if dt.minute < 59 {
        DateTime { second: 0, minute: (dt.minute + 1) as u32, ..dt }
    } else if dt.hour < 23 {
        DateTime { second: 0, minute: 0, hour: (dt.hour + 1) as u32, ..dt }
    } else if (dt.day as int) < days_in_month(dt.year as int, dt.month as int) {
        DateTime { second: 0, minute: 0, hour: 0, day: (dt.day + 1) as u32, ..dt }
    } else if dt.month < 12 {
        DateTime { second: 0, minute: 0, hour: 0, day: 1, month: (dt.month + 1) as u32, ..dt }
    } else {
        DateTime {
            second: 0,
            minute: 0,
            hour: 0,
            day: 1,
            month: 1,
            year: (dt.year + 1) as u32,
        }
    }
}

proof fn lemma_plus_one_valid(dt: DateTime)
    requires
        dt.valid(),
        dt.year < 9999 || !(dt.month == 12 && dt.day == 31 && dt.hour == 23
            && dt.minute == 59 && dt.second == 59),
    ensures
        dt_plus_one_second(dt).valid(),
{
}

/// Seconds elapsed since midnight.
pub open spec fn time_of_day(dt: DateTime) -> int {
    dt.hour * 3600 + dt.minute * 60 + dt.second
}

/// Advance a datetime by up to one day's worth of seconds.
///
/// The year cap in the precondition keeps the result inside the
/// four-digit-year range the filename grammar can express; the bound on
/// `secs` means at most one midnight is crossed.
pub fn add_seconds(dt: &DateTime, secs: u32) -> (r: DateTime)
    requires
        dt.valid(),
        dt.year < 9999,
        secs <= 86400,
    ensures
        r == dt_plus_seconds(*dt, secs as int),
        r.valid(),
{
    let mut cur: DateTime = *dt;
    let mut left: u32 = secs;
    while left > 0
        invariant
            cur.valid(),
            dt.year < 9999,
            cur.year <= dt.year + 1,
            dt_plus_seconds(cur, left as int) == dt_plus_seconds(*dt, secs as int),
            time_of_day(cur) + left <= 2 * 86400 - 1,
            cur.year > dt.year ==> time_of_day(cur) + left < 86400,
        decreases left,
    {
        proof {
            assert(cur.year < 9999 || !(cur.month == 12 && cur.day == 31 && cur.hour == 23
                && cur.minute == 59 && cur.second == 59)) by {
                if cur.year == 9999 && cur.hour == 23 && cur.minute == 59 && cur.second == 59 {
                    assert(cur.year > dt.year);
                    assert(time_of_day(cur) == 86399);
                }
            }
            lemma_plus_one_valid(cur);
        }
        cur = step_one_second(cur);
        left = left - 1;
    }
    cur
}

/// Advance one second, executable twin of `dt_plus_one_second`.
fn step_one_second(dt: DateTime) -> (r: DateTime)
    requires
        dt.valid(),
        dt.year < 9999 || !(dt.month == 12 && dt.day == 31 && dt.hour == 23
            && dt.minute == 59 && dt.second == 59),
    ensures
        r == dt_plus_one_second(dt),
        r.valid(),
{
    if dt.second < 59 {
        DateTime { second: dt.second + 1, ..dt }
    } else if dt.minute < 59 {
        DateTime { second: 0, minute: dt.minute + 1, ..dt }
    } else if dt.hour < 23 {
        DateTime { second: 0, minute: 0, hour: dt.hour + 1, ..dt }
    } else if dt.day < month_length(dt.year, dt.month) {
        DateTime { second: 0, minute: 0, hour: 0, day: dt.day + 1, ..dt }
    } else if dt.month < 12 {
        DateTime { second: 0, minute: 0, hour: 0, day: 1, month: dt.month + 1, ..dt }
    } else {
        DateTime { second: 0, minute: 0, hour: 0, day: 1, month: 1, year: dt.year + 1 }
    }
}

/// Four-character zero-padded decimal rendering.
pub open spec fn dec4_str(n: nat) -> Seq<char> {
    seq![
        digit_char((n / 1000) as int),
        digit_char(((n / 100) % 10) as int),
        digit_char(((n / 10) % 10) as int),
        digit_char((n % 10) as int),
    ]
}

pub fn u32_dec4(n: u32) -> (r: String)
    requires
        n < 10000,
    ensures
        r@ == dec4_str(n as nat),
        r@.len() == 4,
{
    let mut out = String::from_str(digit_string(n / 1000));
    out.append(digit_string((n / 100) % 10));
    out.append(digit_string((n / 10) % 10));
    out.append(digit_string(n % 10));
    proof {
        assert(out@ =~= dec4_str(n as nat));
    }
    out
}

/// The view of the `YYYY-MM-DD` rendering of a date.
pub open spec fn date_chars(y: nat, m: nat, d: nat) -> Seq<char> {
    dec4_str(y) + seq!['-'] + dec2_str(m) + seq!['-'] + dec2_str(d)
}

/// The view of the `HH:MM:SS` rendering of a time.
pub open spec fn time_chars(h: nat, mi: nat, s: nat) -> Seq<char> {
    dec2_str(h) + seq![':'] + dec2_str(mi) + seq![':'] + dec2_str(s)
}

impl DateTime {
    /// `YYYY-MM-DD`.
    pub fn date_string(&self) -> (r: String)
        requires
            self.valid(),
        ensures
            r@ == date_chars(self.year as nat, self.month as nat, self.day as nat),
            r@.len() == 10,
    {
        let mut out = u32_dec4(self.year);
        out.append("-");
        let mm = u32_dec2(self.month);
        out.append(mm.as_str());
        out.append("-");
        let dd = u32_dec2(self.day);
        out.append(dd.as_str());
        proof {
            reveal_strlit("-");
            assert(out@ =~= date_chars(self.year as nat, self.month as nat, self.day as nat));
        }
        out
    }

    /// `HH:MM:SS`.
    pub fn time_string(&self) -> (r: String)
        requires
            self.valid(),
        ensures
            r@ == time_chars(self.hour as nat, self.minute as nat, self.second as nat),
            r@.len() == 8,
    {
        let mut out = u32_dec2(self.hour);
        out.append(":");
        let mi = u32_dec2(self.minute);
        out.append(mi.as_str());
        out.append(":");
        let ss = u32_dec2(self.second);
        out.append(ss.as_str());
        proof {
            reveal_strlit(":");
            assert(out@ =~= time_chars(
                self.hour as nat, self.minute as nat, self.second as nat));
        }
        out
    }

    /// Naive ISO-8601 rendering `YYYY-MM-DDTHH:MM:SS` (no zone: the
    /// filename carries no zone either).
    pub fn iso8601(&self) -> (r: String)
        requires
            self.valid(),
        ensures
            r@ == date_chars(self.year as nat, self.month as nat, self.day as nat)
                + seq!['T']
                + time_chars(self.hour as nat, self.minute as nat, self.second as nat),
    {
        let mut out = self.date_string();
        out.append("T");
        let t = self.time_string();
        out.append(t.as_str());
        proof {
            reveal_strlit("T");
            assert(out@ =~= date_chars(self.year as nat, self.month as nat, self.day as nat)
                + seq!['T']
                + time_chars(self.hour as nat, self.minute as nat, self.second as nat));
        }
        out
    }
}

} // verus!
