use chrono::{Datelike, Timelike};
use vstd::prelude::*;
use crate::text::{decimal_spec, digits_value, is_digit, is_digit_run};
use vstd::arithmetic::div_mod::{
    lemma_fundamental_div_mod,
    lemma_fundamental_div_mod_converse,
    lemma_mod_bound,
};

verus! {

/// First year that chrono's `NaiveDate` can hold.
pub const MIN_YEAR: i32 = -262143;

/// Last year that chrono's `NaiveDate` can hold.
pub const MAX_YEAR: i32 = 262142;

/// Leap years of the proleptic Gregorian calendar.
pub open spec fn is_leap_year(y: int) -> bool {
    y % 4 == 0 && (y % 100 != 0 || y % 400 == 0)
}

/// Number of days in month `m` (1 to 12) of year `y`.
pub open spec fn days_in_month(y: int, m: int) -> int {
    if m == 2 {
        if is_leap_year(y) {
            29
        } else {
            28
        }
    } else if m == 4 || m == 6 || m == 9 || m == 11 {
        30
    } else {
        31
    }
}

/// Number of days in year `y`.
pub open spec fn days_in_year(y: int) -> int {
    if is_leap_year(y) {
        366
    } else {
        365
    }
}

/// Days from 0001-01-01 to the first day of year `y` (negative before year 1).
pub open spec fn days_before_year(y: int) -> int {
    365 * (y - 1) + (y - 1) / 4 - (y - 1) / 100 + (y - 1) / 400
}

/// Days from the first of January of year `y` to the first day of month `m`.
pub open spec fn days_before_month(y: int, m: int) -> int
    decreases m,
{
    if m <= 1 {
        0
    } else {
        days_before_month(y, m - 1) + days_in_month(y, m - 1)
    }
}

/// Days from 0001-01-01 (a Monday) to the date `y-m-d`.
pub open spec fn day_number(y: int, m: int, d: int) -> int {
    days_before_year(y) + days_before_month(y, m) + d - 1
}

/// Whether `y-m-d` names a day of the calendar.
pub open spec fn is_calendar_date(y: int, m: int, d: int) -> bool {
    1 <= m <= 12 && 1 <= d <= days_in_month(y, m)
}

/// Whether `y-m-d` is a date that chrono's `NaiveDate` can hold.
pub open spec fn is_supported_date(y: int, m: int, d: int) -> bool {
    is_calendar_date(y, m, d) && MIN_YEAR <= y <= MAX_YEAR
}

/// Day number of the first date chrono can hold.
pub open spec fn first_day_number() -> int {
    day_number(MIN_YEAR as int, 1, 1)
}

/// Day number of the last date chrono can hold.
pub open spec fn last_day_number() -> int {
    day_number(MAX_YEAR as int, 12, 31)
}

/// Lexicographic order on (year, month, day).
pub open spec fn ymd_le(y1: int, m1: int, d1: int, y2: int, m2: int, d2: int) -> bool {
    y1 < y2 || (y1 == y2 && (m1 < m2 || (m1 == m2 && d1 <= d2)))
}

proof fn lemma_div_step(y: int, k: int)
    requires
        k > 0,
    ensures
        y / k - (y - 1) / k == (if y % k == 0 { 1int } else { 0int }),
{
    let q = (y - 1) / k;
    let r = (y - 1) % k;
    lemma_fundamental_div_mod(y - 1, k);
    lemma_mod_bound(y - 1, k);
    assert((q + 1) * k == k * q + k && q * k == k * q) by (nonlinear_arith);
    if r == k - 1 {
        lemma_fundamental_div_mod_converse(y, k, q + 1, 0);
    } else {
        lemma_fundamental_div_mod_converse(y, k, q, r + 1);
    }
}

/// The first day of year `y + 1` comes `days_in_year(y)` days after that of year `y`.
pub proof fn lemma_next_year(y: int)
    ensures
        days_before_year(y + 1) == days_before_year(y) + days_in_year(y),
{
    lemma_div_step(y, 4);
    lemma_div_step(y, 100);
    lemma_div_step(y, 400);
    assert(y % 400 == 0 ==> y % 100 == 0 && y % 4 == 0) by {
        lemma_fundamental_div_mod(y, 400);
        if y % 400 == 0 {
            lemma_fundamental_div_mod_converse(y, 100, 4 * (y / 400), 0);
            lemma_fundamental_div_mod_converse(y, 4, 100 * (y / 400), 0);
        }
    }
    assert(y % 100 == 0 ==> y % 4 == 0) by {
        lemma_fundamental_div_mod(y, 100);
        if y % 100 == 0 {
            lemma_fundamental_div_mod_converse(y, 4, 25 * (y / 100), 0);
        }
    }
}

/// The months of a year add up to the year.
pub proof fn lemma_months_fill_year(y: int)
    ensures
        days_before_month(y, 13) == days_in_year(y),
{
    reveal_with_fuel(days_before_month, 13);
}

/// Days before month `m1` are no more than days before a later month `m2`,
/// and a month fits before the next.
pub proof fn lemma_days_before_month_mono(y: int, m1: int, m2: int)
    requires
        1 <= m1 <= m2,
    ensures
        days_before_month(y, m1) + (if m1 < m2 { days_in_month(y, m1) } else { 0 })
            <= days_before_month(y, m2),
    decreases m2 - m1,
{
    if m1 < m2 {
        lemma_days_before_month_mono(y, m1 + 1, m2);
    }
}

/// Earlier years start earlier.
pub proof fn lemma_days_before_year_mono(y1: int, y2: int)
    requires
        y1 < y2,
    ensures
        days_before_year(y1) + days_in_year(y1) <= days_before_year(y2),
    decreases y2 - y1,
{
    lemma_next_year(y1);
    if y1 + 1 < y2 {
        lemma_days_before_year_mono(y1 + 1, y2);
    }
}

/// A calendar date comes before the next year starts.
pub proof fn lemma_date_within_year(y: int, m: int, d: int)
    requires
        is_calendar_date(y, m, d),
    ensures
        days_before_year(y) <= day_number(y, m, d),
        day_number(y, m, d) < days_before_year(y) + days_in_year(y),
{
    lemma_days_before_month_mono(y, m, 13);
    lemma_months_fill_year(y);
    lemma_days_before_month_mono(y, 1, m);
}

/// Day numbers follow the calendar order: a strictly later date has a strictly
/// larger day number.
pub proof fn lemma_day_number_strict(y1: int, m1: int, d1: int, y2: int, m2: int, d2: int)
    requires
        is_calendar_date(y1, m1, d1),
        is_calendar_date(y2, m2, d2),
        ymd_le(y1, m1, d1, y2, m2, d2),
        !(y1 == y2 && m1 == m2 && d1 == d2),
    ensures
        day_number(y1, m1, d1) < day_number(y2, m2, d2),
{
    lemma_date_within_year(y1, m1, d1);
    lemma_date_within_year(y2, m2, d2);
    if y1 < y2 {
        lemma_days_before_year_mono(y1, y2);
    } else if m1 < m2 {
        lemma_days_before_month_mono(y1, m1, m2);
    }
}

/// Two calendar dates with the same day number are the same date, and the
/// calendar order is the order of day numbers.
pub proof fn lemma_day_number_order(y1: int, m1: int, d1: int, y2: int, m2: int, d2: int)
    requires
        is_calendar_date(y1, m1, d1),
        is_calendar_date(y2, m2, d2),
    ensures
        ymd_le(y1, m1, d1, y2, m2, d2) <==> day_number(y1, m1, d1) <= day_number(y2, m2, d2),
        day_number(y1, m1, d1) == day_number(y2, m2, d2) ==> (y1 == y2 && m1 == m2 && d1 == d2),
{
    if !(y1 == y2 && m1 == m2 && d1 == d2) {
        if ymd_le(y1, m1, d1, y2, m2, d2) {
            lemma_day_number_strict(y1, m1, d1, y2, m2, d2);
        } else {
            lemma_day_number_strict(y2, m2, d2, y1, m1, d1);
        }
    }
}

/// The day after the last day of a month is the first day of the next month.
pub proof fn lemma_month_end_successor(y: int, m: int)
    requires
        1 <= m <= 12,
    ensures
        m < 12 ==> day_number(y, m, days_in_month(y, m)) + 1 == day_number(y, m + 1, 1),
        m == 12 ==> day_number(y, m, days_in_month(y, m)) + 1 == day_number(y + 1, 1, 1),
{
    if m == 12 {
        lemma_months_fill_year(y);
        lemma_next_year(y);
        assert(days_before_month(y, 13) == days_before_month(y, 12) + 31);
    }
}

/// The dates chrono can hold are exactly the day numbers from the first to the
/// last supported date.
pub proof fn lemma_supported_range(y: int, m: int, d: int)
    requires
        is_supported_date(y, m, d),
    ensures
        first_day_number() <= day_number(y, m, d) <= last_day_number(),
{
    if !(y == MIN_YEAR && m == 1 && d == 1) {
        lemma_day_number_strict(MIN_YEAR as int, 1, 1, y, m, d);
    }
    if !(y == MAX_YEAR && m == 12 && d == 31) {
        lemma_day_number_strict(y, m, d, MAX_YEAR as int, 12, 31);
    }
}

} // verus!

verus! {

/// A calendar date (proleptic Gregorian), as chrono's `NaiveDate` holds it.
#[derive(Clone, Copy, Debug, PartialEq, Eq, Structural)]
pub struct Date {
    pub year: i32,
    pub month: u32,
    pub day: u32,
}

impl Date {
    /// Whether this names a real day that chrono can hold.
    pub open spec fn is_valid(self) -> bool {
        is_supported_date(self.year as int, self.month as int, self.day as int)
    }

    /// Days since 0001-01-01.
    pub open spec fn number(self) -> int {
        day_number(self.year as int, self.month as int, self.day as int)
    }

    /// Day of the week, counted from Monday (0) to Sunday (6).
    pub open spec fn weekday(self) -> int {
        self.number() % 7
    }

    /// Calendar order.
    pub open spec fn spec_le(self, other: Date) -> bool {
        ymd_le(
            self.year as int,
            self.month as int,
            self.day as int,
            other.year as int,
            other.month as int,
            other.day as int,
        )
    }

    /// Whether this date is on or before `other`.
    pub fn is_on_or_before(&self, other: &Date) -> (r: bool)
        ensures
            r == self.spec_le(*other),
    {
        self.year < other.year || (self.year == other.year && (self.month < other.month || (
        self.month == other.month && self.day <= other.day)))
    }
}

/// The supported date with day number `n` (the only one, see `lemma_date_with_number`).
pub open spec fn date_with_number(n: int) -> Date {
    choose|d: Date| d.is_valid() && d.number() == n
}

/// A valid date is the date with its own day number.
pub proof fn lemma_date_with_number(d: Date)
    requires
        d.is_valid(),
    ensures
        date_with_number(d.number()) == d,
{
    let e = date_with_number(d.number());
    assert(e.is_valid() && e.number() == d.number());
    lemma_day_number_order(
        e.year as int,
        e.month as int,
        e.day as int,
        d.year as int,
        d.month as int,
        d.day as int,
    );
}

/// Two valid dates are in calendar order exactly when their day numbers are.
pub proof fn lemma_date_order(a: Date, b: Date)
    requires
        a.is_valid(),
        b.is_valid(),
    ensures
        a.spec_le(b) <==> a.number() <= b.number(),
        a.number() == b.number() <==> a == b,
{
    lemma_day_number_order(
        a.year as int,
        a.month as int,
        a.day as int,
        b.year as int,
        b.month as int,
        b.day as int,
    );
}

/// A point in time (UTC): a date, the seconds since its midnight and the
/// nanoseconds within that second (from one billion on, a leap second).
#[derive(Clone, Copy, Debug, PartialEq, Eq, Structural)]
pub struct Timestamp {
    pub date: Date,
    pub seconds: u32,
    pub nanos: u32,
}

impl Timestamp {
    /// Whether this is a time chrono's `DateTime<Utc>` can hold.
    pub open spec fn is_valid(self) -> bool {
        &&& self.date.is_valid()
        &&& self.seconds < 86400
        &&& self.nanos < 2_000_000_000
        &&& self.nanos >= 1_000_000_000 ==> self.seconds % 60 == 59
    }

    /// Chronological order.
    pub open spec fn spec_le(self, other: Timestamp) -> bool {
        ||| (self.date.spec_le(other.date) && self.date != other.date)
        ||| (self.date == other.date && (self.seconds < other.seconds || (self.seconds
            == other.seconds && self.nanos <= other.nanos)))
    }

    /// Whether this time is at or before `other`.
    pub fn is_at_or_before(&self, other: &Timestamp) -> (r: bool)
        ensures
            r == self.spec_le(*other),
    {
        if self.date == other.date {
            self.seconds < other.seconds || (self.seconds == other.seconds && self.nanos
                <= other.nanos)
        } else {
            self.date.is_on_or_before(&other.date)
        }
    }
}

/// Digits of `s` padded on the left with zeros to at least `width` characters.
pub open spec fn zero_pad(s: Seq<char>, width: nat) -> Seq<char> {
    if s.len() < width {
        Seq::new((width - s.len()) as nat, |i: int| '0') + s
    } else {
        s
    }
}

/// A number below 100 written with two digits.
pub open spec fn two_digits(n: int) -> Seq<char> {
    zero_pad(crate::text::decimal_spec(n as nat), 2)
}

/// chrono's `%Y`: four digits for years 0 to 9999, otherwise a sign and at
/// least four digits.
pub open spec fn year_text(y: int) -> Seq<char> {
    if 0 <= y <= 9999 {
        zero_pad(crate::text::decimal_spec(y as nat), 4)
    } else if y < 0 {
        seq!['-'] + zero_pad(crate::text::decimal_spec((-y) as nat), 4)
    } else {
        seq!['+'] + zero_pad(crate::text::decimal_spec(y as nat), 4)
    }
}

/// chrono's `%B`: the English name of month `m`.
pub open spec fn month_name(m: int) -> Seq<char> {
    if m == 1 {
        "January"@
    } else if m == 2 {
        "February"@
    } else if m == 3 {
        "March"@
    } else if m == 4 {
        "April"@
    } else if m == 5 {
        "May"@
    } else if m == 6 {
        "June"@
    } else if m == 7 {
        "July"@
    } else if m == 8 {
        "August"@
    } else if m == 9 {
        "September"@
    } else if m == 10 {
        "October"@
    } else if m == 11 {
        "November"@
    } else {
        "December"@
    }
}

/// chrono's `%A`: the English name of weekday `w` (0 is Monday).
pub open spec fn weekday_name(w: int) -> Seq<char> {
    if w == 0 {
        "Monday"@
    } else if w == 1 {
        "Tuesday"@
    } else if w == 2 {
        "Wednesday"@
    } else if w == 3 {
        "Thursday"@
    } else if w == 4 {
        "Friday"@
    } else if w == 5 {
        "Saturday"@
    } else {
        "Sunday"@
    }
}

/// `%Y-%m-%d`, e.g. `2025-01-20`.
pub open spec fn date_text(d: Date) -> Seq<char> {
    year_text(d.year as int) + "-"@ + two_digits(d.month as int) + "-"@ + two_digits(d.day as int)
}

/// `%B %d, %Y`, e.g. `January 20, 2025`.
pub open spec fn long_date_text(d: Date) -> Seq<char> {
    month_name(d.month as int) + " "@ + two_digits(d.day as int) + ", "@ + year_text(d.year as int)
}

/// `%A, %B %d, %Y`, e.g. `Monday, January 20, 2025`.
pub open spec fn day_heading_text(d: Date) -> Seq<char> {
    weekday_name(d.weekday()) + ", "@ + long_date_text(d)
}

/// `%Y-%m-%d %H:%M:%S UTC`, e.g. `2026-03-10 09:00:00 UTC`.
pub open spec fn utc_time_text(t: Timestamp) -> Seq<char> {
    date_text(t.date) + " "@ + two_digits((t.seconds / 3600) as int) + ":"@ + two_digits(
        ((t.seconds % 3600) / 60) as int,
    ) + ":"@ + two_digits(t.seconds % 60 + t.nanos / 1_000_000_000) + " UTC"@
}

/// chrono's `NaiveDate::from_ymd_opt`. Trusted: it gives the date exactly when
/// `year-month-day` is a real day with a year that chrono holds.
#[verifier::external_body]
pub(crate) fn chrono_date(year: i32, month: u32, day: u32) -> (r: Option<Date>)
    ensures
        r is Some <==> is_supported_date(year as int, month as int, day as int),
        r matches Some(d) ==> d == (Date { year, month, day }),
{
    match chrono::NaiveDate::from_ymd_opt(year, month, day) {
        Some(n) => Some(Date { year: n.year(), month: n.month(), day: n.day() }),
        None => None,
    }
}

/// chrono's `NaiveDate::checked_add_signed` with a whole number of days (what
/// `date + Duration::days(n)` calls). Trusted: the result is the date `days`
/// days away, and there is one exactly when that date is in chrono's range.
#[verifier::external_body]
pub(crate) fn chrono_add_days(date: &Date, days: i64) -> (r: Option<Date>)
    requires
        date.is_valid(),
        -100_000_000_000 <= days <= 100_000_000_000,
    ensures
        r is Some <==> first_day_number() <= date.number() + days <= last_day_number(),
        r matches Some(d) ==> d.is_valid() && d.number() == date.number() + days,
{
    let start = chrono::NaiveDate::from_ymd_opt(date.year, date.month, date.day).unwrap();
    match start.checked_add_signed(chrono::Duration::days(days)) {
        Some(n) => Some(Date { year: n.year(), month: n.month(), day: n.day() }),
        None => None,
    }
}

/// chrono's `Datelike::weekday` as `num_days_from_monday`. Trusted: 0001-01-01
/// is a Monday and weekdays repeat every seven days.
#[verifier::external_body]
pub(crate) fn chrono_weekday(date: &Date) -> (w: u32)
    requires
        date.is_valid(),
    ensures
        w == date.weekday(),
{
    let d = chrono::NaiveDate::from_ymd_opt(date.year, date.month, date.day).unwrap();
    d.weekday().num_days_from_monday()
}

/// chrono's `NaiveDate::format`, for the two patterns this library uses.
/// Trusted: `%Y-%m-%d` and `%B %d, %Y` print as `date_text` and
/// `long_date_text` say; other patterns are left unsaid.
#[verifier::external_body]
pub(crate) fn chrono_format_date(date: &Date, pattern: &str) -> (s: String)
    requires
        date.is_valid(),
        pattern@ == "%Y-%m-%d"@ || pattern@ == "%B %d, %Y"@,
    ensures
        pattern@ == "%Y-%m-%d"@ ==> s@ == date_text(*date),
        pattern@ == "%B %d, %Y"@ ==> s@ == long_date_text(*date),
{
    let d = chrono::NaiveDate::from_ymd_opt(date.year, date.month, date.day).unwrap();
    d.format(pattern).to_string()
}

/// chrono's `DateTime<Utc>::format`, for the three patterns this library uses.
/// Trusted: they print as `date_text`, `day_heading_text` and `utc_time_text`
/// say; other patterns are left unsaid.
#[verifier::external_body]
pub(crate) fn chrono_format_time(t: &Timestamp, pattern: &str) -> (s: String)
    requires
        t.is_valid(),
        pattern@ == "%Y-%m-%d"@ || pattern@ == "%A, %B %d, %Y"@ || pattern@
            == "%Y-%m-%d %H:%M:%S UTC"@,
    ensures
        pattern@ == "%Y-%m-%d"@ ==> s@ == date_text(t.date),
        pattern@ == "%A, %B %d, %Y"@ ==> s@ == day_heading_text(t.date),
        pattern@ == "%Y-%m-%d %H:%M:%S UTC"@ ==> s@ == utc_time_text(*t),
{
    let d = chrono::NaiveDate::from_ymd_opt(t.date.year, t.date.month, t.date.day).unwrap();
    let time = chrono::NaiveTime::from_num_seconds_from_midnight_opt(t.seconds, t.nanos).unwrap();
    d.and_time(time).and_utc().format(pattern).to_string()
}

/// chrono's `Utc::now`. Trusted only to give a time chrono can hold, no
/// earlier than 1970-01-01 (chrono panics on a clock set before the Unix
/// epoch); which time it is depends on the clock and is left unsaid.
#[verifier::external_body]
pub(crate) fn chrono_utc_now() -> (t: Timestamp)
    ensures
        t.is_valid(),
        t.date.number() >= day_number(1970, 1, 1),
{
    let now = chrono::Utc::now();
    let date = Date { year: now.year(), month: now.month(), day: now.day() };
    Timestamp { date, seconds: now.num_seconds_from_midnight(), nanos: now.nanosecond() }
}

} // verus!

verus! {

/// The Monday that starts the week holding `n`, as a day number.
pub open spec fn week_start_number(n: int) -> int {
    n - n % 7
}

/// The start of a week falls on a Monday, on or before the day, less than a
/// week before it.
pub proof fn lemma_week_start(n: int)
    ensures
        week_start_number(n) % 7 == 0,
        week_start_number(n) <= n < week_start_number(n) + 7,
        week_start_number(week_start_number(n)) == week_start_number(n),
        (week_start_number(n) + 6) % 7 == 6,
{
    lemma_fundamental_div_mod(n, 7);
    lemma_mod_bound(n, 7);
    vstd::arithmetic::div_mod::lemma_mod_multiples_basic(n / 7, 7);
    lemma_fundamental_div_mod_converse(week_start_number(n) + 6, 7, n / 7, 6);
    assert(week_start_number(n) == (n / 7) * 7) by (nonlinear_arith)
        requires
            n == 7 * (n / 7) + n % 7,
    ;
}

/// The Monday that starts the week of `time` (chrono's weekday and a
/// subtraction of days).
pub fn get_week_start(time: &Timestamp) -> (start: Date)
    requires
        time.is_valid(),
        week_start_number(time.date.number()) >= first_day_number(),
    ensures
        start.is_valid(),
        start.number() == week_start_number(time.date.number()),
        start.weekday() == 0,
        start.spec_le(time.date),
        time.date.number() - start.number() < 7,
{
    proof {
        lemma_supported_range(time.date.year as int, time.date.month as int, time.date.day as int);
        lemma_week_start(time.date.number());
    }
    let w = chrono_weekday(&time.date);
    match chrono_add_days(&time.date, -(w as i64)) {
        Some(d) => {
            proof {
                lemma_date_order(d, time.date);
            }
            d
        },
        None => time.date,
    }
}


proof fn lemma_decimal_value(n: nat)
    ensures
        is_digit_run(decimal_spec(n)),
        digits_value(decimal_spec(n)) == n,
        n < 10 ==> decimal_spec(n).len() == 1,
        10 <= n < 100 ==> decimal_spec(n).len() == 2,
    decreases n,
{
    let s = decimal_spec(n);
    lemma_fundamental_div_mod(n as int, 10);
    lemma_mod_bound(n as int, 10);
    let d = n % 10;
    assert(((d + 48) as char) as int == d + 48);
    if n >= 10 {
        lemma_decimal_value(n / 10);
        assert(s.drop_last() =~= decimal_spec(n / 10));
        assert(s.last() == crate::text::digit_char(d));
        assert(digits_value(s) == digits_value(s.drop_last()) * 10 + (s.last() as int - 48));
        assert(forall|i: int| 0 <= i < s.len() - 1 ==> s[i] == decimal_spec(n / 10)[i]);
        assert(n / 10 < 10 <==> n < 100);
    } else {
        assert(s.drop_last() =~= Seq::<char>::empty());
        assert(digits_value(s.drop_last()) == 0);
        assert(n % 10 == n);
        assert(digits_value(s) == digits_value(s.drop_last()) * 10 + (s.last() as int - 48));
    }
}

proof fn lemma_zeros_value(k: nat)
    ensures
        digits_value(Seq::new(k, |i: int| '0')) == 0,
    decreases k,
{
    if k > 0 {
        assert(Seq::new(k, |i: int| '0').drop_last() =~= Seq::new((k - 1) as nat, |i: int| '0'));
        lemma_zeros_value((k - 1) as nat);
    }
}

proof fn lemma_leading_zeros(k: nat, s: Seq<char>)
    ensures
        digits_value(Seq::new(k, |i: int| '0') + s) == digits_value(s),
    decreases s.len(),
{
    let z = Seq::new(k, |i: int| '0');
    if s.len() == 0 {
        assert(z + s =~= z);
        lemma_zeros_value(k);
    } else {
        assert((z + s).drop_last() =~= z + s.drop_last());
        lemma_leading_zeros(k, s.drop_last());
    }
}

proof fn lemma_zero_pad(n: nat, width: nat)
    ensures
        is_digit_run(zero_pad(decimal_spec(n), width)),
        digits_value(zero_pad(decimal_spec(n), width)) == n,
        zero_pad(decimal_spec(n), width).len() == (if decimal_spec(n).len() < width {
            width
        } else {
            decimal_spec(n).len()
        }),
{
    lemma_decimal_value(n);
    let s = decimal_spec(n);
    if s.len() < width {
        let k = (width - s.len()) as nat;
        lemma_leading_zeros(k, s);
        let t = Seq::new(k, |i: int| '0') + s;
        assert forall|i: int| 0 <= i < t.len() implies is_digit(#[trigger] t[i]) by {
            if i >= k {
                assert(t[i] == s[i - k]);
            }
        }
    }
}

/// Different years are written differently.
proof fn lemma_year_text_injective(a: int, b: int)
    requires
        year_text(a) == year_text(b),
    ensures
        a == b,
{
    let t = year_text(a);
    assert(t.len() > 0) by {
        lemma_zero_pad(if a < 0 { (-a) as nat } else { a as nat }, 4);
    }
    if 0 <= a <= 9999 {
        lemma_zero_pad(a as nat, 4);
        assert(is_digit(t[0]));
    } else if a < 0 {
        lemma_zero_pad((-a) as nat, 4);
        assert(year_text(a).drop_first() =~= zero_pad(decimal_spec((-a) as nat), 4));
    } else {
        lemma_zero_pad(a as nat, 4);
        assert(year_text(a).drop_first() =~= zero_pad(decimal_spec(a as nat), 4));
    }
    if 0 <= b <= 9999 {
        lemma_zero_pad(b as nat, 4);
        assert(is_digit(t[0]));
    } else if b < 0 {
        lemma_zero_pad((-b) as nat, 4);
        assert(year_text(b).drop_first() =~= zero_pad(decimal_spec((-b) as nat), 4));
    } else {
        lemma_zero_pad(b as nat, 4);
        assert(year_text(b).drop_first() =~= zero_pad(decimal_spec(b as nat), 4));
    }
}

/// Different valid dates are written differently as `%Y-%m-%d`.
pub proof fn lemma_date_text_injective(a: Date, b: Date)
    requires
        a.is_valid(),
        b.is_valid(),
        date_text(a) == date_text(b),
    ensures
        a == b,
{
    reveal_strlit("-");
    lemma_zero_pad(a.month as nat, 2);
    lemma_zero_pad(a.day as nat, 2);
    lemma_zero_pad(b.month as nat, 2);
    lemma_zero_pad(b.day as nat, 2);
    lemma_decimal_value(a.month as nat);
    lemma_decimal_value(a.day as nat);
    lemma_decimal_value(b.month as nat);
    lemma_decimal_value(b.day as nat);
    let ya = year_text(a.year as int);
    let yb = year_text(b.year as int);
    let ta = date_text(a);
    let tb = date_text(b);
    assert("-"@.len() == 1);
    assert(two_digits(a.month as int).len() == 2);
    assert(two_digits(a.day as int).len() == 2);
    assert(two_digits(b.month as int).len() == 2);
    assert(two_digits(b.day as int).len() == 2);
    assert(ta.len() == ya.len() + 6);
    assert(tb.len() == yb.len() + 6);
    assert(ya.len() == yb.len());
    assert(ta.subrange(0, ya.len() as int) =~= ya);
    assert(tb.subrange(0, yb.len() as int) =~= yb);
    lemma_year_text_injective(a.year as int, b.year as int);
    assert(ta.subrange(ya.len() + 1int, ya.len() + 3int) =~= two_digits(a.month as int));
    assert(tb.subrange(yb.len() + 1int, yb.len() + 3int) =~= two_digits(b.month as int));
    assert(ta.subrange(ya.len() + 4int, ya.len() + 6int) =~= two_digits(a.day as int));
    assert(tb.subrange(yb.len() + 4int, yb.len() + 6int) =~= two_digits(b.day as int));
}

} // verus!
