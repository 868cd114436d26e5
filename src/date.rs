//! Calendar dates and their rendering through strftime directives.
use vstd::prelude::*;
use std::fmt::Write;

verus! {

/// A day of the proleptic Gregorian calendar.
#[derive(Clone, Copy, Debug, PartialEq, Eq, Structural)]
pub struct Date {
    pub year: i32,
    pub month: u32,
    pub day: u32,
}

/// Whether `year` is a leap year.
pub open spec fn is_leap(year: int) -> bool {
    (year % 4 == 0 && year % 100 != 0) || year % 400 == 0
}

/// The number of days of `month` in `year`.
pub open spec fn days_in_month(year: int, month: int) -> int {
    if month == 2 {
        if is_leap(year) {
            29
        } else {
            28
        }
    } else if month == 4 || month == 6 || month == 9 || month == 11 {
        30
    } else {
        31
    }
}

/// The decimal digit `d` as a character.
pub open spec fn digit(d: int) -> char {
    seq!['0', '1', '2', '3', '4', '5', '6', '7', '8', '9'][d]
}

/// `n` in decimal, zero-padded to `width` digits.
pub open spec fn padded(n: int, width: nat) -> Seq<char>
    decreases width,
{
    if width == 0 {
        seq![]
    } else {
        padded(n / 10, (width - 1) as nat).push(digit(n % 10))
    }
}

/// The strftime format `%Y-%m-%d`.
pub open spec fn iso_format() -> Seq<char> {
    seq!['%', 'Y', '-', '%', 'm', '-', '%', 'd']
}

/// A date written as `YYYY-MM-DD`.
pub open spec fn iso_text(year: int, month: int, day: int) -> Seq<char> {
    padded(year, 4) + seq!['-'] + padded(month, 2) + seq!['-'] + padded(day, 2)
}

impl Date {
    /// A real day of a four-digit year.
    pub open spec fn wf(&self) -> bool {
        &&& 1 <= self.year <= 9999
        &&& 1 <= self.month <= 12
        &&& 1 <= self.day <= days_in_month(self.year as int, self.month as int)
    }

    /// The date written as `YYYY-MM-DD`.
    pub open spec fn iso(&self) -> Seq<char> {
        iso_text(self.year as int, self.month as int, self.day as int)
    }

    /// The date for `year`, `month` and `day`, if that day exists in a four-digit year.
    pub fn new(year: i32, month: u32, day: u32) -> (r: Option<Date>)
        ensures
            r is Some <==> (Date { year, month, day }).wf(),
            r is Some ==> r->0 == (Date { year, month, day }),
    {
        if year < 1 || year > 9999 || month < 1 || month > 12 || day < 1 {
            return None;
        }
        let leap = (year % 4 == 0 && year % 100 != 0) || year % 400 == 0;
        let last: u32 = if month == 2 {
            if leap {
                29
            } else {
                28
            }
        } else if month == 4 || month == 6 || month == 9 || month == 11 {
            30
        } else {
            31
        };
        if day > last {
            None
        } else {
            Some(Date { year, month, day })
        }
    }
}

/// What chrono writes for the date `year`-`month`-`day` under the strftime
/// format `fmt`; `None` where the date does not exist or `fmt` is malformed.
pub uninterp spec fn strftime_text(year: int, month: int, day: int, fmt: Seq<char>) -> Option<
    Seq<char>,
>;

/// The text of `date` under the strftime format `fmt`.
pub open spec fn rendered(date: Date, fmt: Seq<char>) -> Option<Seq<char>> {
    strftime_text(date.year as int, date.month as int, date.day as int, fmt)
}

/// Relies on chrono's `NaiveDate::from_ymd_opt` and `NaiveDate::format`, written out
/// through `Display`: the text depends on the date and the format alone, writing
/// fails on a malformed format, and `%Y`, `%m`, `%d` are the year zero-padded to
/// four digits (years 0 to 9999) and the month and day zero-padded to two.
#[verifier::external_body]
pub(crate) fn render_date(date: &Date, fmt: &str) -> (r: Option<String>)
    ensures
        strftime_text(date.year as int, date.month as int, date.day as int, fmt@) == match r {
            Some(s) => Some(s@),
            None => None::<Seq<char>>,
        },
        date.wf() && fmt@ == iso_format() ==> r is Some && r->0@ == date.iso(),
{
    let d = chrono::NaiveDate::from_ymd_opt(date.year, date.month, date.day)?;
    let mut out = String::new();
    write!(out, "{}", d.format(fmt)).ok()?;
    Some(out)
}

} // verus!
