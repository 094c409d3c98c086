//! Calendar dates as plain year, month and day numbers.

use vstd::prelude::*;

verus! {

/// A calendar date held as plain numbers, so that contracts can speak of its
/// parts. The collection only stores dates; it never computes with them.
#[derive(Clone, Copy, Debug, PartialEq, Eq, Structural)]
pub struct Date {
    pub year: u16,
    pub month: u8,
    pub day: u8,
}

/// A date the library accepts: a four-digit year and month and day numbers in
/// their calendar ranges.
pub open spec fn date_wf(d: Date) -> bool {
    d.year <= 9999 && 1 <= d.month <= 12 && 1 <= d.day <= 31
}

/// The year, month and day that the ISO `YYYY-MM-DD` reading of a string
/// gives, or nothing where the string is not such a date. The result depends
/// on the characters alone.
pub uninterp spec fn iso_date_of(s: Seq<char>) -> Option<(int, int, int)>;

/// The library's date for a parsed year-month-day triple: the triple itself
/// where the year has at most four digits, nothing otherwise.
pub open spec fn date_from_parts(p: Option<(int, int, int)>) -> Option<Date> {
    match p {
        Some(t) => if 0 <= t.0 <= 9999 {
            Some(
                (Date { year: t.0 as u16, month: t.1 as u8, day: t.2 as u8 }),
            )
        } else {
            None
        },
        None => None,
    }
}

/// Relies on `chrono::NaiveDate::parse_from_str` with the `%Y-%m-%d` format,
/// whose result depends on the characters alone, and on
/// `chrono::Datelike::{year, month, day}`: `month()` ranges over `1..=12` and
/// `day()` over `1..=31`.
#[verifier::external_body]
fn chrono_parse_iso(s: &str) -> (r: Option<(i32, u32, u32)>)
    ensures
        match r {
            Some(p) => iso_date_of(s@) == Some((p.0 as int, p.1 as int, p.2 as int))
                && 1 <= p.1 <= 12 && 1 <= p.2 <= 31,
            None => iso_date_of(s@) is None,
        },
{
    match chrono::NaiveDate::parse_from_str(s, "%Y-%m-%d") {
        Ok(d) => Some(
            (chrono::Datelike::year(&d), chrono::Datelike::month(&d), chrono::Datelike::day(&d)),
        ),
        Err(_) => None,
    }
}

/// Parses a due-date string in ISO `YYYY-MM-DD` form into the library's date.
/// Strings that are no such date, and dates whose year needs more than four
/// digits, give nothing.
pub fn parse_due_date(s: &str) -> (r: Option<Date>)
    ensures
        r == date_from_parts(iso_date_of(s@)),
        r matches Some(d) ==> date_wf(d),
{
    match chrono_parse_iso(s) {
        Some((y, m, d)) => if 0 <= y && y <= 9999 {
            Some(Date { year: y as u16, month: m as u8, day: d as u8 })
        } else {
            None
        },
        None => None,
    }
}

} // verus!
