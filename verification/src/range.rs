use vstd::prelude::*;
use crate::calendar::{
    chrono_add_days, chrono_date, chrono_format_date, chrono_utc_now, date_text, date_with_number,
    day_number, days_in_month, first_day_number, last_day_number, lemma_date_order, lemma_date_with_number,
    lemma_day_number_strict, lemma_month_end_successor, lemma_supported_range, Date,
    MAX_YEAR, MIN_YEAR,
};
use crate::text::{chars_of, parse_i32, parse_i32_spec, parse_u32, parse_u32_spec, string_from_chars};

verus! {

/// Why a date range could not be worked out.
#[derive(Clone, Copy, Debug, PartialEq, Eq, Structural)]
pub enum DateError {
    /// The month text is not of the form `MM/YYYY` (not exactly one `/`).
    InvalidFormat,
    /// The part before `/` is not a month number.
    InvalidMonthNumber,
    /// The part after `/` is not a year.
    InvalidYear,
    /// The month number is not between 1 and 12.
    MonthOutOfRange,
    /// The month does not lie in the dates chrono can hold.
    InvalidDate,
    /// The range would start before the first date chrono can hold.
    OutOfRange,
}

/// The days from `start` to `end`, both included.
#[derive(Clone, Copy, Debug, PartialEq, Eq, Structural)]
pub struct DateRange {
    pub start: Date,
    pub end: Date,
}

impl DateRange {
    /// Whether `date` lies between `start` and `end`, both included.
    pub open spec fn spec_contains(self, date: Date) -> bool {
        self.start.spec_le(date) && date.spec_le(self.end)
    }

    /// Whether `date` lies in the range.
    pub fn contains(&self, date: Date) -> (r: bool)
        ensures
            r == self.spec_contains(date),
    {
        self.start.is_on_or_before(&date) && date.is_on_or_before(&self.end)
    }

    /// The start of the range as a GitLab `since` timestamp, midnight UTC.
    pub fn since_timestamp(&self) -> (s: String)
        requires
            self.start.is_valid(),
        ensures
            s@ == date_text(self.start) + "T00:00:00Z"@,
    {
        let mut s = chrono_format_date(&self.start, "%Y-%m-%d");
        s.append("T00:00:00Z");
        s
    }

    /// The day after the range as a GitLab `until` timestamp, midnight UTC.
    pub fn until_timestamp(&self) -> (s: String)
        requires
            self.end.is_valid(),
            self.end.number() < last_day_number(),
        ensures
            s@ == date_text(date_with_number(self.end.number() + 1)) + "T00:00:00Z"@,
    {
        proof {
            lemma_supported_range(self.end.year as int, self.end.month as int, self.end.day as int);
        }
        match chrono_add_days(&self.end, 1) {
            Some(next) => {
                proof {
                    lemma_date_with_number(next);
                }
                let mut s = chrono_format_date(&next, "%Y-%m-%d");
                s.append("T00:00:00Z");
                s
            },
            None => String::new(),
        }
    }
}

/// `i` is the place of the only `/` in `s`.
pub open spec fn is_only_slash(s: Seq<char>, i: int) -> bool {
    &&& 0 <= i < s.len()
    &&& s[i] == '/'
    &&& forall|j: int| 0 <= j < s.len() && j != i ==> s[j] != '/'
}

/// The text before and after the `/` of `s`, when it has exactly one.
pub open spec fn split_at_slash(s: Seq<char>) -> Option<(Seq<char>, Seq<char>)> {
    if exists|i: int| is_only_slash(s, i) {
        let i = choose|i: int| is_only_slash(s, i);
        Some((s.take(i), s.skip(i + 1)))
    } else {
        None
    }
}

/// The first and last day of the month that `s` (`MM/YYYY`) names, or why there is none.
pub open spec fn parse_month_spec(s: Seq<char>) -> Result<(Date, Date), DateError> {
    match split_at_slash(s) {
        None => Err(DateError::InvalidFormat),
        Some((m, y)) => match parse_u32_spec(m) {
            None => Err(DateError::InvalidMonthNumber),
            Some(month) => match parse_i32_spec(y) {
                None => Err(DateError::InvalidYear),
                Some(year) => if !(1 <= month <= 12) {
                    Err(DateError::MonthOutOfRange)
                } else if !(MIN_YEAR <= year <= MAX_YEAR) || (month == 12 && year == MAX_YEAR) {
                    Err(DateError::InvalidDate)
                } else {
                    Ok(
                        (
                            Date { year, month, day: 1 },
                            Date {
                                year,
                                month,
                                day: days_in_month(year as int, month as int) as u32,
                            },
                        ),
                    )
                },
            },
        },
    }
}

/// Place of the only `/` in `chars`, if there is exactly one.
fn find_only_slash(chars: &Vec<char>) -> (r: Option<usize>)
    ensures
        match r {
            Some(i) => is_only_slash(chars@, i as int),
            None => !exists|i: int| is_only_slash(chars@, i),
        },
{
    let mut first: Option<usize> = None;
    let mut second: Option<usize> = None;
    let mut k: usize = 0;
    while k < chars.len()
        invariant
            k <= chars.len(),
            first is None ==> second is None && forall|j: int| 0 <= j < k ==> chars@[j] != '/',
            first matches Some(f) ==> f < k && chars@[f as int] == '/' && (second is None
                ==> forall|j: int| 0 <= j < k && j != f ==> chars@[j] != '/'),
            second matches Some(g) ==> first matches Some(f) && f < g < k && chars@[g as int]
                == '/',
        decreases chars.len() - k,
    {
        if chars[k] == '/' {
            if first.is_none() {
                first = Some(k);
            } else if second.is_none() {
                second = Some(k);
            }
        }
        k += 1;
    }
    match (first, second) {
        (Some(f), None) => Some(f),
        (Some(f), Some(g)) => {
            assert forall|i: int| !is_only_slash(chars@, i) by {
                if is_only_slash(chars@, i) {
                    assert(chars@[f as int] == '/' && chars@[g as int] == '/');
                }
            }
            None
        },
        _ => {
            assert forall|i: int| !is_only_slash(chars@, i) by {}
            None
        },
    }
}

/// The first and last day of the month named by `month_str` in `MM/YYYY` form.
pub fn parse_month(month_str: &str) -> (r: Result<(Date, Date), DateError>)
    ensures
        r == parse_month_spec(month_str@),
{
    let chars = chars_of(month_str);
    let slash = match find_only_slash(&chars) {
        Some(i) => i,
        None => return Err(DateError::InvalidFormat),
    };
    proof {
        let c = choose|i: int| is_only_slash(chars@, i);
        assert(is_only_slash(chars@, c));
        assert(c == slash as int);
    }
    let month_text = string_from_chars(&chars, 0, slash);
    let year_text = string_from_chars(&chars, slash + 1, chars.len());
    assert(month_text@ =~= month_str@.take(slash as int));
    assert(year_text@ =~= month_str@.skip(slash + 1));
    let month = match parse_u32(month_text.as_str()) {
        Some(m) => m,
        None => return Err(DateError::InvalidMonthNumber),
    };
    let year = match parse_i32(year_text.as_str()) {
        Some(y) => y,
        None => return Err(DateError::InvalidYear),
    };
    if !(1 <= month && month <= 12) {
        return Err(DateError::MonthOutOfRange);
    }
    let start = match chrono_date(year, month, 1) {
        Some(d) => d,
        None => return Err(DateError::InvalidDate),
    };
    let next = if month == 12 {
        chrono_date(year + 1, 1, 1)
    } else {
        chrono_date(year, month + 1, 1)
    };
    let next = match next {
        Some(d) => d,
        None => return Err(DateError::InvalidDate),
    };
    proof {
        lemma_month_end_successor(year as int, month as int);
        lemma_supported_range(year as int, month as int, 1);
        lemma_supported_range(next.year as int, next.month as int, next.day as int);
    }
    match chrono_add_days(&next, -1) {
        Some(end) => {
            let ghost last = Date {
                year,
                month,
                day: days_in_month(year as int, month as int) as u32,
            };
            proof {
                lemma_date_order(end, last);
            }
            Ok((start, end))
        },
        None => Err(DateError::InvalidDate),
    }
}

/// The `days` days before `today`, through `today`.
pub open spec fn range_before_spec(today: Date, days: u32) -> Result<DateRange, DateError> {
    if today.number() - days >= first_day_number() {
        Ok(DateRange { start: date_with_number(today.number() - days), end: today })
    } else {
        Err(DateError::OutOfRange)
    }
}

/// The range from `days` days before `today` through `today`.
pub fn range_before(today: Date, days: u32) -> (r: Result<DateRange, DateError>)
    requires
        today.is_valid(),
    ensures
        r == range_before_spec(today, days),
{
    proof {
        lemma_supported_range(today.year as int, today.month as int, today.day as int);
    }
    match chrono_add_days(&today, -(days as i64)) {
        Some(start) => {
            proof {
                lemma_date_with_number(start);
            }
            Ok(DateRange { start, end: today })
        },
        None => Err(DateError::OutOfRange),
    }
}

/// The range to report on: the month `MM/YYYY` when one is given, otherwise the
/// `days` days up to today (UTC).
pub fn resolve_date_range(month: Option<&str>, days: u32) -> (r: Result<DateRange, DateError>)
    ensures
        month matches Some(m) ==> r == (match parse_month_spec(m@) {
            Ok((start, end)) => Ok(DateRange { start, end }),
            Err(e) => Err(e),
        }),
        month is None ==> exists|today: Date|
            today.is_valid() && today.number() >= day_number(1970, 1, 1) && r
                == range_before_spec(today, days),
        month is None && days <= day_number(1970, 1, 1) - first_day_number() ==> r is Ok,
        month is None && days <= 36500 ==> r is Ok,
{
    match month {
        Some(m) => match parse_month(m) {
            Ok((start, end)) => Ok(DateRange { start, end }),
            Err(e) => Err(e),
        },
        None => {
            let now = chrono_utc_now();
            proof {
                lemma_day_number_strict(MIN_YEAR as int, 1, 1, 1970, 1, 1);
            }
            range_before(now.date, days)
        },
    }
}


/// A parsed month runs from its first to its last day: both are valid dates of
/// that month, and the day after the last is the first of the next month.
pub proof fn lemma_parse_month_whole_month(s: Seq<char>)
    requires
        parse_month_spec(s) is Ok,
    ensures
        ({
            let (first, last) = parse_month_spec(s)->Ok_0;
            &&& first.is_valid() && last.is_valid()
            &&& first.year == last.year && first.month == last.month
            &&& first.day == 1
            &&& last.day == days_in_month(first.year as int, first.month as int)
            &&& last.number() - first.number() + 1 == days_in_month(
                first.year as int,
                first.month as int,
            )
            &&& first.month < 12 ==> last.number() + 1 == day_number(
                first.year as int,
                first.month + 1,
                1,
            )
            &&& first.month == 12 ==> last.number() + 1 == day_number(first.year + 1, 1, 1)
        }),
{
    let (first, last) = parse_month_spec(s)->Ok_0;
    lemma_month_end_successor(first.year as int, first.month as int);
}

/// A range holds a date exactly when the date's day number lies between those
/// of its ends.
pub proof fn lemma_range_contains(range: DateRange, d: Date)
    requires
        range.start.is_valid(),
        range.end.is_valid(),
        d.is_valid(),
    ensures
        range.spec_contains(d) <==> range.start.number() <= d.number() <= range.end.number(),
{
    lemma_date_order(range.start, d);
    lemma_date_order(d, range.end);
}

/// The range of a parsed month holds exactly the dates of that month.
pub proof fn lemma_month_range_contains(s: Seq<char>, d: Date)
    requires
        parse_month_spec(s) is Ok,
        d.is_valid(),
    ensures
        ({
            let (first, last) = parse_month_spec(s)->Ok_0;
            (DateRange { start: first, end: last }).spec_contains(d) <==> (d.year == first.year
                && d.month == first.month)
        }),
{
}

} // verus!
