//! Civil date-times in the fixed reference timezone.
//!
//! Every timestamp the engine handles (departures and the monitoring loop's
//! "now") is a wall-clock value in the same named civil timezone, so windows
//! and delays are compared on the civil calendar itself: a date-time is mapped
//! to an absolute minute count on the proleptic Gregorian calendar.

use vstd::prelude::*;
use crate::digits::{all_digits, digit_val, is_digit, spec_two_digits, append_two_digits};

verus! {

/// A wall-clock timestamp in the reference civil timezone, minute precision.
#[derive(PartialEq, Eq, Structural, Clone, Copy, Debug, Hash)]
pub struct CivilDateTime {
    pub year: u64,
    pub month: u64,
    pub day: u64,
    pub hour: u64,
    pub minute: u64,
}

pub open spec fn is_leap_year(y: int) -> bool {
    y % 4 == 0 && (y % 100 != 0 || y % 400 == 0)
}

pub open spec fn spec_days_in_month(y: int, m: int) -> int {
    if m == 1 || m == 3 || m == 5 || m == 7 || m == 8 || m == 10 || m == 12 {
        31
    } else if m == 2 {
        if is_leap_year(y) {
            29
        } else {
            28
        }
    } else {
        30
    }
}

impl CivilDateTime {
    /// A valid calendar date (four-digit year) with a valid clock time.
    pub open spec fn wf(self) -> bool {
        self.year <= 9999 && 1 <= self.month <= 12 && 1 <= self.day <= spec_days_in_month(
            self.year as int,
            self.month as int,
        ) && self.hour < 24 && self.minute < 60
    }

    /// Days since the anchor day (chosen so the count is never negative),
    /// by the standard civil-from-days construction over 400-year eras.
    pub open spec fn spec_days(self) -> int {
        let yy = self.year + 400;
        let yadj: int = if self.month <= 2 {
            yy - 1
        } else {
            yy as int
        };
        let era = yadj / 400;
        let yoe = yadj - era * 400;
        let mp: int = if self.month > 2 {
            self.month - 3
        } else {
            self.month + 9
        };
        let doy = (153 * mp + 2) / 5 + self.day - 1;
        let doe = yoe * 365 + yoe / 4 - yoe / 100 + doy;
        era * 146097 + doe
    }

    /// Absolute minute count; strictly monotone in the civil ordering and
    /// exact in differences, which is all the notification windows need.
    pub open spec fn spec_minutes(self) -> int {
        self.spec_days() * 1440 + self.hour * 60 + self.minute
    }

    /// Whether this is a valid calendar date with a valid clock time.
    pub fn is_wf(&self) -> (r: bool)
        ensures
            r == self.wf(),
    {
        self.year <= 9999 && 1 <= self.month && self.month <= 12 && 1 <= self.day && self.day
            <= days_in_month(self.year, self.month) && self.hour < 24 && self.minute < 60
    }

    /// The absolute minute count of a valid date-time.
    pub fn minutes(&self) -> (r: u64)
        requires
            self.wf(),
        ensures
            r == self.spec_minutes(),
            r < 5_500_000_000,
    {
        let yy: u64 = self.year + 400;
        let yadj: u64 = if self.month <= 2 {
            yy - 1
        } else {
            yy
        };
        let era: u64 = yadj / 400;
        let yoe: u64 = yadj - era * 400;
        let mp: u64 = if self.month > 2 {
            self.month - 3
        } else {
            self.month + 9
        };
        let doy: u64 = (153 * mp + 2) / 5 + self.day - 1;
        let doe: u64 = yoe * 365 + yoe / 4 - yoe / 100 + doy;
        let days: u64 = era * 146097 + doe;
        days * 1440 + self.hour * 60 + self.minute
    }
}

/// Meaning of a strict `DD.MM.YYYY` date token: `(day, month, year)`.
pub open spec fn spec_date_token(s: Seq<char>) -> Option<(int, int, int)> {
    if s.len() == 10 && is_digit(s[0]) && is_digit(s[1]) && s[2] == '.' && is_digit(s[3])
        && is_digit(s[4]) && s[5] == '.' && is_digit(s[6]) && is_digit(s[7]) && is_digit(s[8])
        && is_digit(s[9]) {
        Some(
            (
                digit_val(s[0]) * 10 + digit_val(s[1]),
                digit_val(s[3]) * 10 + digit_val(s[4]),
                digit_val(s[6]) * 1000 + digit_val(s[7]) * 100 + digit_val(s[8]) * 10 + digit_val(
                    s[9],
                ),
            ),
        )
    } else {
        None
    }
}

/// Meaning of a strict `HH:MM` time token: `(hour, minute)`.
pub open spec fn spec_time_token(s: Seq<char>) -> Option<(int, int)> {
    if s.len() == 5 && is_digit(s[0]) && is_digit(s[1]) && s[2] == ':' && is_digit(s[3]) && is_digit(
        s[4],
    ) {
        Some((digit_val(s[0]) * 10 + digit_val(s[1]), digit_val(s[3]) * 10 + digit_val(s[4])))
    } else {
        None
    }
}

/// Combined meaning of the two tokens: the date-time they denote, if both
/// tokens are well shaped and denote a valid calendar date and clock time.
pub open spec fn spec_combine_tokens(date: Seq<char>, time: Seq<char>) -> Option<CivilDateTime> {
    match (spec_date_token(date), spec_time_token(time)) {
        (Some(d), Some(t)) => {
            let dt = (CivilDateTime {
                year: d.2 as u64,
                month: d.1 as u64,
                day: d.0 as u64,
                hour: t.0 as u64,
                minute: t.1 as u64,
            });
            if dt.wf() {
                Some(dt)
            } else {
                None
            }
        },
        _ => None,
    }
}

fn digit_at(s: &str, i: usize) -> (r: Option<u64>)
    requires
        i < s@.len(),
    ensures
        match r {
            Some(v) => is_digit(s@[i as int]) && v == digit_val(s@[i as int]),
            None => !is_digit(s@[i as int]),
        },
{
    let c = s.get_char(i);
    if c < '0' || c > '9' {
        return None;
    }
    Some((c as u32 - 48) as u64)
}

fn days_in_month(y: u64, m: u64) -> (r: u64)
    requires
        1 <= m <= 12,
    ensures
        r == spec_days_in_month(y as int, m as int),
{
    if m == 1 || m == 3 || m == 5 || m == 7 || m == 8 || m == 10 || m == 12 {
        31
    } else if m == 2 {
        if y % 4 == 0 && (y % 100 != 0 || y % 400 == 0) {
            29
        } else {
            28
        }
    } else {
        30
    }
}

impl CivilDateTime {
    /// Parse the `DD.MM.YYYY` and `HH:MM` tokens of a ticket into the
    /// date-time they denote, rejecting malformed tokens and invalid dates.
    pub fn from_tokens(date: &str, time: &str) -> (r: Option<CivilDateTime>)
        ensures
            r == spec_combine_tokens(date@, time@),
            r matches Some(dt) ==> dt.wf(),
    {
        if date.unicode_len() != 10 || time.unicode_len() != 5 {
            return None;
        }
        if date.get_char(2) != '.' || date.get_char(5) != '.' {
            return None;
        }
        if time.get_char(2) != ':' {
            return None;
        }
        let (d0, d1) = match (digit_at(date, 0), digit_at(date, 1)) {
            (Some(a), Some(b)) => (a, b),
            _ => {
                return None;
            },
        };
        let (m0, m1) = match (digit_at(date, 3), digit_at(date, 4)) {
            (Some(a), Some(b)) => (a, b),
            _ => {
                return None;
            },
        };
        let (y0, y1, y2, y3) = match (
            digit_at(date, 6),
            digit_at(date, 7),
            digit_at(date, 8),
            digit_at(date, 9),
        ) {
            (Some(a), Some(b), Some(c), Some(d)) => (a, b, c, d),
            _ => {
                return None;
            },
        };
        let (h0, h1) = match (digit_at(time, 0), digit_at(time, 1)) {
            (Some(a), Some(b)) => (a, b),
            _ => {
                return None;
            },
        };
        let (n0, n1) = match (digit_at(time, 3), digit_at(time, 4)) {
            (Some(a), Some(b)) => (a, b),
            _ => {
                return None;
            },
        };
        let day = d0 * 10 + d1;
        let month = m0 * 10 + m1;
        let year = y0 * 1000 + y1 * 100 + y2 * 10 + y3;
        let hour = h0 * 10 + h1;
        let minute = n0 * 10 + n1;
        if month < 1 || month > 12 {
            return None;
        }
        if day < 1 || day > days_in_month(year, month) {
            return None;
        }
        if hour >= 24 || minute >= 60 {
            return None;
        }
        Some(CivilDateTime { year, month, day, hour, minute })
    }
}

/// Canonical rendering `YYYY-MM-DD HH:MM`, used in the ingestion reply.
pub open spec fn spec_datetime_str(dt: CivilDateTime) -> Seq<char> {
    spec_two_digits(dt.year as int / 100) + spec_two_digits(dt.year as int % 100) + seq!['-']
        + spec_two_digits(dt.month as int) + seq!['-'] + spec_two_digits(dt.day as int) + seq![' ']
        + spec_two_digits(dt.hour as int) + seq![':'] + spec_two_digits(dt.minute as int)
}

/// Append the canonical `YYYY-MM-DD HH:MM` rendering of `dt` to `out`.
pub fn append_datetime(out: &mut String, dt: &CivilDateTime)
    requires
        dt.wf(),
    ensures
        final(out)@ == old(out)@ + spec_datetime_str(*dt),
{
    append_two_digits(out, dt.year / 100);
    append_two_digits(out, dt.year % 100);
    crate::digits::push_char(out, '-');
    append_two_digits(out, dt.month);
    crate::digits::push_char(out, '-');
    append_two_digits(out, dt.day);
    crate::digits::push_char(out, ' ');
    append_two_digits(out, dt.hour);
    crate::digits::push_char(out, ':');
    append_two_digits(out, dt.minute);
    assert(final(out)@ =~= old(out)@ + spec_datetime_str(*dt));
}

} // verus!
