//! Calendar dates as plain year, month and day values, validated and
//! counted in days through chrono.

use vstd::prelude::*;
use crate::text::{dec_int, dec_padded, i64_to_string, u64_to_string_pad};
use chrono::Datelike;

verus! {

/// A proleptic Gregorian leap year.
pub open spec fn is_leap_year(y: int) -> bool {
    y % 4 == 0 && (y % 100 != 0 || y % 400 == 0)
}

/// Days of month `m` in year `y`.
pub open spec fn days_in_month(y: int, m: int) -> int {
    if m == 2 {
        if is_leap_year(y) {
            29
        } else {
            28
        }
    } else if m == 4 || m == 6 || m == 9 || m == 11 {
        30
    } else {
        31
    }
}

/// A calendar day that exists and that chrono's `NaiveDate` can hold:
/// the year range is `NaiveDate`'s own.
pub open spec fn valid_ymd(y: int, m: int, d: int) -> bool {
    &&& -262143 <= y <= 262142
    &&& 1 <= m <= 12
    &&& 1 <= d <= days_in_month(y, m)
}

/// A calendar date.
#[derive(Clone, Copy, Debug, PartialEq, Eq, Structural)]
pub struct Date {
    pub year: i32,
    pub month: u32,
    pub day: u32,
}

/// The day count of a date in the proleptic Gregorian calendar, day 1
/// being January 1 of year 1: the value chrono's
/// `Datelike::num_days_from_ce` returns, a function of year, month and
/// day alone.
pub uninterp spec fn day_number(year: int, month: int, day: int) -> int;

impl Date {
    /// The date names a day that exists.
    pub open spec fn wf(self) -> bool {
        valid_ymd(self.year as int, self.month as int, self.day as int)
    }

    /// This date's proleptic Gregorian day count.
    pub open spec fn day_num(self) -> int {
        day_number(self.year as int, self.month as int, self.day as int)
    }
}

/// Relies on chrono's `NaiveDate::from_ymd_opt`: it returns `Some` exactly
/// when year, month and day name an existing proleptic Gregorian calendar
/// day with the year in `NaiveDate`'s range.
#[verifier::external_body]
pub fn make_date(year: i32, month: u32, day: u32) -> (r: Option<Date>)
    ensures
        r is Some <==> valid_ymd(year as int, month as int, day as int),
        r matches Some(d) ==> d == (Date { year, month, day }),
{
    chrono::NaiveDate::from_ymd_opt(year, month, day).map(|_| Date { year, month, day })
}

/// Relies on chrono's `Datelike::num_days_from_ce` (an `i32`), reached
/// from a `NaiveDate` built with `NaiveDate::from_ymd_opt`: the proleptic
/// Gregorian day count that `day_number` names.
#[verifier::external_body]
pub fn date_day_number(d: &Date) -> (n: i64)
    requires
        d.wf(),
    ensures
        n == day_number(d.year as int, d.month as int, d.day as int),
        -0x8000_0000 <= n <= 0x7fff_ffff,
{
    chrono::NaiveDate::from_ymd_opt(d.year, d.month, d.day).unwrap().num_days_from_ce() as i64
}

/// Chronological order on dates: lexicographic on year, month, day.
pub open spec fn date_lt(a: Date, b: Date) -> bool {
    ||| a.year < b.year
    ||| (a.year == b.year && a.month < b.month)
    ||| (a.year == b.year && a.month == b.month && a.day < b.day)
}

/// Decides `date_lt`.
pub fn date_before(a: &Date, b: &Date) -> (r: bool)
    ensures
        r == date_lt(*a, *b),
{
    a.year < b.year || (a.year == b.year && (a.month < b.month || (a.month == b.month && a.day
        < b.day)))
}

/// The `YYYY-MM-DD` rendering of a date: the year zero-padded to four
/// digits when it has no more, month and day to two.
pub open spec fn date_iso(d: Date) -> Seq<char> {
    let y = if 0 <= d.year <= 9999 {
        dec_padded(d.year as int, 4)
    } else {
        dec_int(d.year as int)
    };
    y + seq!['-'] + dec_padded(d.month as int, 2) + seq!['-'] + dec_padded(d.day as int, 2)
}

/// Renders a date as `date_iso` says.
pub fn date_to_string(d: &Date) -> (r: String)
    ensures
        r@ == date_iso(*d),
{
    let mut r = if 0 <= d.year && d.year <= 9999 {
        u64_to_string_pad(d.year as u64, 4)
    } else {
        i64_to_string(d.year as i64)
    };
    r.append("-");
    let m = u64_to_string_pad(d.month as u64, 2);
    r.append(m.as_str());
    r.append("-");
    let day = u64_to_string_pad(d.day as u64, 2);
    r.append(day.as_str());
    proof {
        reveal_strlit("-");
        assert(r@ =~= date_iso(*d));
    }
    r
}

} // verus!
