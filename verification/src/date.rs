//! Calendar dates as they appear in front matter, their `YYYY-MM-DD` text,
//! and the two date computations taken from chrono.

use chrono::Datelike;
use vstd::prelude::*;
use crate::text::{chars_of, decimal, decimal_string, push_char};

verus! {

/// The first year that chrono's `NaiveDate` represents.
pub const MIN_YEAR: i32 = -262143;

/// The last year that chrono's `NaiveDate` represents.
pub const MAX_YEAR: i32 = 262142;

/// A day of the proleptic Gregorian calendar.
#[derive(Clone, Copy, Debug, PartialEq, Eq, Structural)]
pub struct Date {
    pub year: i32,
    pub month: u32,
    pub day: u32,
}

/// Leap years of the Gregorian calendar.
pub open spec fn is_leap_year(y: int) -> bool {
    (y % 4 == 0 && y % 100 != 0) || y % 400 == 0
}

/// The number of days of month `m` (1 to 12) in year `y`.
pub open spec fn days_in_month(y: int, m: int) -> int {
    if m == 2 {
        if is_leap_year(y) { 29 } else { 28 }
    } else if m == 4 || m == 6 || m == 9 || m == 11 {
        30
    } else {
        31
    }
}

/// `y-m-d` names a day that a `NaiveDate` can hold.
pub open spec fn valid_ymd(y: int, m: int, d: int) -> bool {
    &&& MIN_YEAR <= y <= MAX_YEAR
    &&& 1 <= m <= 12
    &&& 1 <= d <= days_in_month(y, m)
}

/// `Some(d)` orders after `Some(e)` exactly when `d` is a later day.
pub open spec fn date_later(a: Date, b: Date) -> bool {
    ||| a.year > b.year
    ||| (a.year == b.year && a.month > b.month)
    ||| (a.year == b.year && a.month == b.month && a.day > b.day)
}

/// `k` zeros.
pub open spec fn zeros(k: int) -> Seq<char> {
    Seq::new(if k > 0 { k as nat } else { 0 }, |i: int| '0')
}

/// The decimal numeral of `n`, padded with zeros to at least `width` digits.
pub open spec fn padded(n: nat, width: int) -> Seq<char> {
    zeros(width - decimal(n).len()) + decimal(n)
}

/// How chrono writes a year for `%Y`: four digits for years 0 to 9999,
/// otherwise a sign and at least four digits.
pub open spec fn year_text(y: int) -> Seq<char> {
    if 0 <= y <= 9999 {
        padded(y as nat, 4)
    } else if y < 0 {
        seq!['-'] + padded((-y) as nat, 4)
    } else {
        seq!['+'] + padded(y as nat, 4)
    }
}

/// The text of `%Y-%m-%d`.
pub open spec fn ymd_text(y: int, m: nat, d: nat) -> Seq<char> {
    year_text(y) + seq!['-'] + padded(m, 2) + seq!['-'] + padded(d, 2)
}

impl Date {
    /// This value names a real day.
    pub open spec fn wf(&self) -> bool {
        valid_ymd(self.year as int, self.month as int, self.day as int)
    }

    /// The date's `%Y-%m-%d` text.
    pub open spec fn text(&self) -> Seq<char> {
        ymd_text(self.year as int, self.month as nat, self.day as nat)
    }

    /// The day `year-month-day`, if there is one: `NaiveDate::from_ymd_opt`.
    pub fn from_ymd(year: i32, month: u32, day: u32) -> (r: Option<Date>)
        ensures
            r is Some <==> valid_ymd(year as int, month as int, day as int),
            r matches Some(d) ==> d == (Date { year, month, day }),
    {
        if year < MIN_YEAR || year > MAX_YEAR || month < 1 || month > 12 || day < 1 {
            return None;
        }
        if day <= month_length(year, month) {
            Some(Date { year, month, day })
        } else {
            None
        }
    }

    /// This date is a later day than `other`.
    pub fn is_later_than(&self, other: &Date) -> (r: bool)
        ensures
            r == date_later(*self, *other),
    {
        self.year > other.year || (self.year == other.year && self.month > other.month) || (
        self.year == other.year && self.month == other.month && self.day > other.day)
    }

    /// The date as `%Y-%m-%d`, the way chrono formats and displays a `NaiveDate`.
    pub fn format_ymd(&self) -> (r: String)
        ensures
            r@ == self.text(),
    {
        let mut out = String::new();
        if 0 <= self.year && self.year <= 9999 {
            push_padded(&mut out, self.year as u64, 4);
        } else if self.year < 0 {
            push_char(&mut out, '-');
            let a: i64 = -(self.year as i64);
            push_padded(&mut out, a as u64, 4);
        } else {
            push_char(&mut out, '+');
            push_padded(&mut out, self.year as u64, 4);
        }
        push_char(&mut out, '-');
        push_padded(&mut out, self.month as u64, 2);
        push_char(&mut out, '-');
        push_padded(&mut out, self.day as u64, 2);
        assert(out@ =~= self.text());
        out
    }
}

/// `days_in_month` for a month from 1 to 12.
fn month_length(year: i32, month: u32) -> (r: u32)
    requires
        MIN_YEAR <= year <= MAX_YEAR,
        1 <= month <= 12,
    ensures
        r == days_in_month(year as int, month as int),
{
    if month == 2 {
        // Shift by a multiple of 400 so that the remainders are taken of a
        // non-negative number; that keeps every leap-year test unchanged.
        let y: u64 = (year as i64 + 400000) as u64;
        proof {
            let yi = year as int;
            assert(y as int == yi + 400000);
            assert((yi + 400000) % 4 == yi % 4);
            assert((yi + 400000) % 100 == yi % 100);
            assert((yi + 400000) % 400 == yi % 400);
        }
        if (y % 4 == 0 && y % 100 != 0) || y % 400 == 0 {
            29
        } else {
            28
        }
    } else if month == 4 || month == 6 || month == 9 || month == 11 {
        30
    } else {
        31
    }
}

/// Appends `padded(n, width)`.
fn push_padded(out: &mut String, n: u64, width: usize)
    ensures
        final(out)@ == old(out)@ + padded(n as nat, width as int),
{
    let digits = decimal_string(n);
    let len = chars_of(digits.as_str()).len();
    let ghost start = out@;
    let mut k: usize = len;
    while k < width
        invariant
            len == decimal(n as nat).len(),
            len <= k,
            k <= width || k == len,
            out@ == start + zeros(k - len),
        decreases width - k,
    {
        push_char(out, '0');
        assert(zeros(k + 1 - len) =~= zeros(k - len).push('0'));
        k += 1;
    }
    if len >= width {
        assert(zeros(width - len) =~= zeros(k - len));
    } else {
        assert(k == width);
    }
    out.append(digits.as_str());
    assert(final(out)@ =~= start + padded(n as nat, width as int));
}

/// `s` is the `%Y-%m-%d` text of the real day `y-m-d` of a year from 0 to 9999.
pub open spec fn reads_as_day(s: Seq<char>, y: i32, m: u32, d: u32) -> bool {
    valid_ymd(y as int, m as int, d as int) && 0 <= y <= 9999 && s == ymd_text(y as int, m as nat, d as nat)
}

/// `s` is the `%Y-%m-%d` text of some real day of a year from 0 to 9999.
pub open spec fn names_a_day(s: Seq<char>) -> bool {
    exists|y: i32, m: u32, d: u32| reads_as_day(s, y, m, d)
}

/// What chrono's `NaiveDate::parse_from_str(s, "%Y-%m-%d")` gives, as year,
/// month and day.
pub uninterp spec fn chrono_ymd(s: Seq<char>) -> Option<(i32, u32, u32)>;

/// `NaiveDate::parse_from_str(s, "%Y-%m-%d")`, as `(year, month, day)`.
/// Claimed of chrono: the result depends on `s` alone; a parsed date is a
/// real day in `NaiveDate`'s range; and the `%Y-%m-%d` text of a day of a
/// year from 0 to 9999 parses back to that day (chrono documents that
/// `NaiveDate` parses the format that it displays).
#[verifier::external_body]
pub(crate) fn parse_ymd(s: &str) -> (r: Option<(i32, u32, u32)>)
    ensures
        r == chrono_ymd(s@),
        r matches Some(t) ==> valid_ymd(t.0 as int, t.1 as int, t.2 as int),
        forall|y: i32, m: u32, d: u32| #[trigger] reads_as_day(s@, y, m, d) ==> r == Some((y, m, d)),
{
    chrono::NaiveDate::parse_from_str(s, "%Y-%m-%d").ok().map(|d| (d.year(), d.month(), d.day()))
}

/// The number of days from 1970-01-01 to `y-m-d`, counting backwards for
/// earlier days.
pub open spec fn days_from_epoch(y: int, m: int, d: int) -> int {
    let y2 = if m <= 2 { y - 1 } else { y };
    let era = y2 / 400;
    let yoe = y2 - era * 400;
    let mp = if m > 2 { m - 3 } else { m + 9 };
    let doy = (153 * mp + 2) / 5 + d - 1;
    let doe = yoe * 365 + yoe / 4 - yoe / 100 + doy;
    era * 146097 + doe - 719468
}

/// The English short name of weekday `w`, counting from Sunday as 0.
pub open spec fn weekday_name(w: int) -> Seq<char> {
    if w == 0 { "Sun"@ }
    else if w == 1 { "Mon"@ }
    else if w == 2 { "Tue"@ }
    else if w == 3 { "Wed"@ }
    else if w == 4 { "Thu"@ }
    else if w == 5 { "Fri"@ }
    else { "Sat"@ }
}

/// The English short name of month `m` (1 to 12).
pub open spec fn month_name(m: int) -> Seq<char> {
    if m == 1 { "Jan"@ }
    else if m == 2 { "Feb"@ }
    else if m == 3 { "Mar"@ }
    else if m == 4 { "Apr"@ }
    else if m == 5 { "May"@ }
    else if m == 6 { "Jun"@ }
    else if m == 7 { "Jul"@ }
    else if m == 8 { "Aug"@ }
    else if m == 9 { "Sep"@ }
    else if m == 10 { "Oct"@ }
    else if m == 11 { "Nov"@ }
    else { "Dec"@ }
}

/// The RFC 2822 text of midnight UTC of `y-m-d`, as chrono writes it:
/// weekday, day of the month without a leading zero, month, four-digit
/// year, `00:00:00` and the offset `+0000`.
pub open spec fn rfc2822_midnight(y: int, m: int, d: int) -> Seq<char> {
    weekday_name((days_from_epoch(y, m, d) + 4) % 7) + ", "@ + (if d < 10 {
        decimal(d as nat)
    } else {
        padded(d as nat, 2)
    }) + " "@ + month_name(m) + " "@ + padded(y as nat, 4) + " 00:00:00 +0000"@
}

/// `NaiveDate::from_ymd_opt(y, m, d)` at 00:00:00 UTC, written by
/// `DateTime::to_rfc2822`. chrono panics for years outside 0 to 9999, which
/// the `requires` leaves out. Claimed: the text is `rfc2822_midnight`, which
/// is what chrono's `write_rfc2822` writes for such a time.
#[verifier::external_body]
pub(crate) fn rfc2822_midnight_utc(y: i32, m: u32, d: u32) -> (r: String)
    requires
        valid_ymd(y as int, m as int, d as int),
        0 <= y <= 9999,
    ensures
        r@ == rfc2822_midnight(y as int, m as int, d as int),
{
    chrono::NaiveDate::from_ymd_opt(y, m, d).unwrap().and_hms_opt(0, 0, 0).unwrap().and_utc().to_rfc2822()
}

} // verus!
