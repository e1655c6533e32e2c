//! Local wall-clock time, read from `chrono` and held as plain numbers.
use vstd::prelude::*;
use chrono::{Datelike, Timelike};

use crate::text::dec;

verus! {

/// A local date and time of day, with the day of the week counted from Monday (0).
#[derive(Clone, Copy, Debug)]
pub struct LocalTime {
    pub year: i32,
    pub month: u32,
    pub day: u32,
    pub hour: u32,
    pub minute: u32,
    pub second: u32,
    pub weekday: u32,
}

pub open spec fn is_leap_year(y: int) -> bool {
    (y % 4 == 0 && y % 100 != 0) || y % 400 == 0
}

pub open spec fn days_in_month(y: int, m: int) -> int {
    if m == 2 {
        if is_leap_year(y) {
            29
        } else {
            28
        }
    } else if m == 4 || m == 6 || m == 9 || m == 11 {
        30
    } else {
        31
    }
}

impl LocalTime {
    /// A calendar date inside `chrono`'s range and a time of day without leap second.
    pub open spec fn wf(self) -> bool {
        &&& -262143 <= self.year <= 262142
        &&& 1 <= self.month <= 12
        &&& 1 <= self.day <= days_in_month(self.year as int, self.month as int)
        &&& self.hour < 24
        &&& self.minute < 60
        &&& self.second < 60
        &&& self.weekday < 7
    }
}

/// The pattern of the date and time in the persona's system prompt.
pub open spec fn prompt_time_pattern() -> Seq<char> {
    "%Y年%m月%d日 %H:%M"@
}

/// The pattern of the date and time in the time tool's answer.
pub open spec fn tool_time_pattern() -> Seq<char> {
    "%Y-%m-%d %H:%M"@
}

/// `k` zeros (none when `k` is not positive).
pub open spec fn zeros(k: int) -> Seq<char> {
    Seq::new(
        if k > 0 {
            k as nat
        } else {
            0
        },
        |i: int| '0',
    )
}

/// A number in at least two digits, as chrono's `%m`, `%d`, `%H` and `%M` write it.
pub open spec fn two_digits(n: nat) -> Seq<char> {
    zeros(2 - dec(n).len()) + dec(n)
}

/// The year as chrono's `%Y` writes it (`write_year`): at least four digits,
/// and a sign for years outside 0 to 9999.
pub open spec fn year_text(y: int) -> Seq<char> {
    let a: nat = if y < 0 {
        (-y) as nat
    } else {
        y as nat
    };
    let digits = zeros(4 - dec(a).len()) + dec(a);
    if 0 <= y <= 9999 {
        digits
    } else if y < 0 {
        seq!['-'] + digits
    } else {
        seq!['+'] + digits
    }
}

/// What chrono writes for a time under one of the two patterns.
pub open spec fn time_text(t: LocalTime, pattern: Seq<char>) -> Seq<char> {
    if pattern == prompt_time_pattern() {
        year_text(t.year as int) + "年"@ + two_digits(t.month as nat) + "月"@ + two_digits(
            t.day as nat,
        ) + "日 "@ + two_digits(t.hour as nat) + ":"@ + two_digits(t.minute as nat)
    } else {
        year_text(t.year as int) + "-"@ + two_digits(t.month as nat) + "-"@ + two_digits(
            t.day as nat,
        ) + " "@ + two_digits(t.hour as nat) + ":"@ + two_digits(t.minute as nat)
    }
}

/// `chrono::Local::now()`, taken apart into its calendar fields.
/// Claims only that `chrono` hands back a valid date (its `Datelike` and
/// `Timelike` accessors stay in their documented ranges); which moment it
/// is depends on the system clock and time zone.
#[verifier::external_body]
pub(crate) fn local_now() -> (t: LocalTime)
    ensures
        t.wf(),
{
    let now = chrono::Local::now();
    LocalTime {
        year: now.year(),
        month: now.month(),
        day: now.day(),
        hour: now.hour(),
        minute: now.minute(),
        second: now.second(),
        weekday: now.weekday().num_days_from_monday(),
    }
}

/// `chrono::NaiveDateTime::format(pattern).to_string()` for one of the two
/// patterns this library uses: the year as `write_year` writes it, the other
/// fields in two digits (`write_two` with zero padding), and the pattern's
/// literal characters between them.
#[verifier::external_body]
pub(crate) fn format_time(t: &LocalTime, pattern: &str) -> (s: String)
    requires
        t.wf(),
        pattern@ == prompt_time_pattern() || pattern@ == tool_time_pattern(),
    ensures
        s@ == time_text(*t, pattern@),
{
    let date = chrono::NaiveDate::from_ymd_opt(t.year, t.month, t.day).unwrap();
    let moment = date.and_hms_opt(t.hour, t.minute, t.second).unwrap();
    moment.format(pattern).to_string()
}

} // verus!
