use vstd::prelude::*;
use chrono::{Datelike, NaiveDate, NaiveDateTime, Timelike};

verus! {

/// A calendar date and a time of day, to the second, with no time zone.
#[derive(Clone, Copy, Debug, PartialEq, Eq, Structural)]
pub struct Timestamp {
    pub year: i32,
    pub month: u32,
    pub day: u32,
    pub hour: u32,
    pub minute: u32,
    pub second: u32,
}

pub open spec fn is_leap_year(y: int) -> bool {
    (y % 4 == 0 && y % 100 != 0) || y % 400 == 0
}

pub open spec fn days_in_month(y: int, m: int) -> int {
    if m == 2 {
        if is_leap_year(y) { 29 } else { 28 }
    } else if m == 4 || m == 6 || m == 9 || m == 11 {
        30
    } else {
        31
    }
}

/// Days from 0000-01-01 to the first of January of year `y` (`y >= 0`),
/// in the proleptic Gregorian calendar.
pub open spec fn days_before_year(y: int) -> int {
    365 * y + (y + 3) / 4 - (y + 99) / 100 + (y + 399) / 400
}

/// Days from the first of January of year `y` to the first of month `m`.
pub open spec fn days_before_month(y: int, m: int) -> int
    decreases m,
{
    if m <= 1 {
        0
    } else {
        days_before_month(y, m - 1) + days_in_month(y, m - 1)
    }
}

/// Division by 60 that rounds toward zero.
pub open spec fn whole_minutes(secs: int) -> int {
    if secs >= 0 {
        secs / 60
    } else {
        -((-secs) / 60)
    }
}

impl Timestamp {
    pub open spec fn wf(&self) -> bool {
        &&& 0 <= self.year <= 9999
        &&& 1 <= self.month <= 12
        &&& 1 <= self.day <= days_in_month(self.year as int, self.month as int)
        &&& self.hour < 24
        &&& self.minute < 60
        &&& self.second < 60
    }

    /// Seconds elapsed since 0000-01-01 00:00:00.
    pub open spec fn seconds(&self) -> int {
        let days = days_before_year(self.year as int) + days_before_month(
            self.year as int,
            self.month as int,
        ) + self.day - 1;
        days * 86400 + self.hour * 3600 + self.minute * 60 + self.second
    }

    /// Calendar order: compares year, then month, day, hour, minute and second.
    pub open spec fn not_after(&self, other: Timestamp) -> bool {
        if self.year != other.year {
            self.year < other.year
        } else if self.month != other.month {
            self.month < other.month
        } else if self.day != other.day {
            self.day < other.day
        } else if self.hour != other.hour {
            self.hour < other.hour
        } else if self.minute != other.minute {
            self.minute < other.minute
        } else {
            self.second <= other.second
        }
    }

    /// Whether the timestamp names a real instant.
    pub fn is_valid(&self) -> (r: bool)
        ensures
            r == self.wf(),
    {
        if self.year < 0 || self.year > 9999 || self.month < 1 || self.month > 12 {
            return false;
        }
        let leap = (self.year % 4 == 0 && self.year % 100 != 0) || self.year % 400 == 0;
        let month_days: u32 = if self.month == 2 {
            if leap {
                29
            } else {
                28
            }
        } else if self.month == 4 || self.month == 6 || self.month == 9 || self.month == 11 {
            30
        } else {
            31
        };
        1 <= self.day && self.day <= month_days && self.hour < 24 && self.minute < 60
            && self.second < 60
    }

    pub fn is_not_after(&self, other: &Timestamp) -> (r: bool)
        ensures
            r == self.not_after(*other),
    {
        if self.year != other.year {
            self.year < other.year
        } else if self.month != other.month {
            self.month < other.month
        } else if self.day != other.day {
            self.day < other.day
        } else if self.hour != other.hour {
            self.hour < other.hour
        } else if self.minute != other.minute {
            self.minute < other.minute
        } else {
            self.second <= other.second
        }
    }
}

/// Whole minutes from `start` to `end`, rounded toward zero.
pub open spec fn minutes_between(start: Timestamp, end: Timestamp) -> int {
    whole_minutes(end.seconds() - start.seconds())
}

pub open spec fn is_digit(c: char) -> bool {
    '0' <= c <= '9'
}

pub open spec fn all_digits(s: Seq<char>, from: int, to: int) -> bool {
    forall|k: int| from <= k < to ==> is_digit(#[trigger] s[k])
}

/// The value of a run of decimal digits.
pub open spec fn digits_value(s: Seq<char>) -> int
    decreases s.len(),
{
    if s.len() == 0 {
        0
    } else {
        digits_value(s.drop_last()) * 10 + (s.last() as int - '0' as int)
    }
}

/// A date token `YYYY-MM-DD` starts at position `i` of `s`.
pub open spec fn is_date_at(s: Seq<char>, i: int) -> bool {
    &&& 0 <= i
    &&& i + 10 <= s.len()
    &&& all_digits(s, i, i + 4)
    &&& s[i + 4] == '-'
    &&& all_digits(s, i + 5, i + 7)
    &&& s[i + 7] == '-'
    &&& all_digits(s, i + 8, i + 10)
}

/// A time token `HH:MM:SS` starts at position `i` of `s`.
pub open spec fn is_time_at(s: Seq<char>, i: int) -> bool {
    &&& 0 <= i
    &&& i + 8 <= s.len()
    &&& all_digits(s, i, i + 2)
    &&& s[i + 2] == ':'
    &&& all_digits(s, i + 3, i + 5)
    &&& s[i + 5] == ':'
    &&& all_digits(s, i + 6, i + 8)
}

/// `s` reads exactly `YYYY-MM-DD HH:MM:SS`.
pub open spec fn is_stamp(s: Seq<char>) -> bool {
    &&& s.len() == 19
    &&& is_date_at(s, 0)
    &&& s[10] == ' '
    &&& is_time_at(s, 11)
}

pub open spec fn stamp_field(s: Seq<char>, from: int, to: int) -> int {
    digits_value(s.subrange(from, to))
}

/// What a `YYYY-MM-DD HH:MM:SS` text denotes: `None` where the date does not
/// exist or the time is out of range. A second of 60 is a leap second, which
/// counts as second 59.
pub open spec fn stamp_value(s: Seq<char>) -> Option<Timestamp> {
    let y = stamp_field(s, 0, 4);
    let mo = stamp_field(s, 5, 7);
    let d = stamp_field(s, 8, 10);
    let h = stamp_field(s, 11, 13);
    let mi = stamp_field(s, 14, 16);
    let se = stamp_field(s, 17, 19);
    if 1 <= mo <= 12 && 1 <= d <= days_in_month(y, mo) && h <= 23 && mi <= 59 && se <= 60 {
        Some(
            Timestamp {
                year: y as i32,
                month: mo as u32,
                day: d as u32,
                hour: h as u32,
                minute: mi as u32,
                second: if se == 60 {
                    59
                } else {
                    se as u32
                },
            },
        )
    } else {
        None
    }
}

/// Relies on chrono's `NaiveDateTime::parse_from_str` with the format
/// `%Y-%m-%d %H:%M:%S`: on a text of that exact shape it accepts the existing
/// dates with hours up to 23, minutes up to 59 and seconds up to 60 (a leap
/// second, whose `second()` reads 59), and rejects the rest.
#[verifier::external_body]
fn chrono_parse(s: &str) -> (r: Option<Timestamp>)
    ensures
        is_stamp(s@) ==> r == stamp_value(s@),
{
    match NaiveDateTime::parse_from_str(s, "%Y-%m-%d %H:%M:%S") {
        Ok(d) => Some(
            Timestamp {
                year: d.year(),
                month: d.month(),
                day: d.day(),
                hour: d.hour(),
                minute: d.minute(),
                second: d.second(),
            },
        ),
        Err(_) => None,
    }
}

/// Relies on chrono: `NaiveDate::from_ymd_opt` and `and_hms_opt` build the two
/// instants (they exist for well-formed timestamps), and the difference of two
/// `NaiveDateTime`s, read with `TimeDelta::num_minutes`, counts whole minutes
/// rounded toward zero in the proleptic Gregorian calendar.
#[verifier::external_body]
fn chrono_minutes(start: &Timestamp, end: &Timestamp) -> (r: i64)
    requires
        start.wf(),
        end.wf(),
    ensures
        r == minutes_between(*start, *end),
{
    let a = NaiveDate::from_ymd_opt(start.year, start.month, start.day).unwrap();
    let b = NaiveDate::from_ymd_opt(end.year, end.month, end.day).unwrap();
    let a = a.and_hms_opt(start.hour, start.minute, start.second).unwrap();
    let b = b.and_hms_opt(end.hour, end.minute, end.second).unwrap();
    (b - a).num_minutes()
}

/// Reads a `YYYY-MM-DD HH:MM:SS` text as a timestamp.
pub fn parse_naive_datetime(datetime_str: &str) -> (r: Option<Timestamp>)
    ensures
        is_stamp(datetime_str@) ==> r == stamp_value(datetime_str@),
        is_stamp(datetime_str@) && r is Some ==> r->0.wf(),
{
    let r = chrono_parse(datetime_str);
    proof {
        if is_stamp(datetime_str@) {
            lemma_stamp_value_wf(datetime_str@);
        }
    }
    r
}

proof fn lemma_digits_value_bound(s: Seq<char>)
    requires
        all_digits(s, 0, s.len() as int),
    ensures
        0 <= digits_value(s) < pow10(s.len()),
    decreases s.len(),
{
    if s.len() > 0 {
        let p = s.drop_last();
        assert(all_digits(p, 0, p.len() as int)) by {
            assert forall|k: int| 0 <= k < p.len() implies is_digit(#[trigger] p[k]) by {
                assert(p[k] == s[k]);
            }
        }
        lemma_digits_value_bound(p);
        assert(is_digit(s[s.len() - 1]));
    }
}

pub open spec fn pow10(n: nat) -> int
    decreases n,
{
    if n == 0 {
        1
    } else {
        10 * pow10((n - 1) as nat)
    }
}

proof fn lemma_field_bound(s: Seq<char>, from: int, to: int)
    requires
        0 <= from <= to <= s.len(),
        all_digits(s, from, to),
    ensures
        0 <= stamp_field(s, from, to) < pow10((to - from) as nat),
{
    let t = s.subrange(from, to);
    assert(all_digits(t, 0, t.len() as int)) by {
        assert forall|k: int| 0 <= k < t.len() implies is_digit(#[trigger] t[k]) by {
            assert(t[k] == s[from + k]);
        }
    }
    lemma_digits_value_bound(t);
}

proof fn lemma_stamp_value_wf(s: Seq<char>)
    requires
        is_stamp(s),
    ensures
        stamp_value(s) matches Some(t) ==> t.wf(),
{
    lemma_field_bound(s, 0, 4);
    lemma_field_bound(s, 5, 7);
    lemma_field_bound(s, 8, 10);
    lemma_field_bound(s, 11, 13);
    lemma_field_bound(s, 14, 16);
    lemma_field_bound(s, 17, 19);
    reveal_with_fuel(pow10, 5);
}

/// Whole minutes from `start` to `end`, rounded toward zero.
pub fn diff_naive_datetime(start: &Timestamp, end: &Timestamp) -> (r: i64)
    requires
        start.wf(),
        end.wf(),
    ensures
        r == minutes_between(*start, *end),
{
    chrono_minutes(start, end)
}

} // verus!
