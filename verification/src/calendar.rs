//! Calendar facts obtained from `chrono`: date parsing, day counts and weekdays.
use vstd::prelude::*;
use crate::types::{Date, valid_date, day_number, weekday};

verus! {

/// `d` lies in the range of dates that `chrono::NaiveDate` represents.
pub open spec fn in_chrono_range(d: Date) -> bool {
    -262143 <= d.year <= 262142
}

/// A date that `chrono` can represent.
pub open spec fn representable(d: Date) -> bool {
    valid_date(d) && in_chrono_range(d)
}

/// What `chrono::NaiveDate::parse_from_str(s, "%d.%m.%Y")` yields for `s`, as
/// (year, month, day).
pub uninterp spec fn parsed_dmy(s: Seq<char>) -> Option<(i32, u32, u32)>;

/// Reads a `DD.MM.YYYY` date through `chrono::NaiveDate::parse_from_str` with the format
/// `%d.%m.%Y`. Claimed: the result is the one `parsed_dmy` names, and a parsed date
/// exists in the calendar and in chrono's range (chrono rejects out-of-bound dates and
/// only builds dates in its range). Which texts chrono accepts is not stated.
#[verifier::external_body]
pub(crate) fn parse_dmy(s: &str) -> (r: Option<Date>)
    ensures
        parsed_dmy(s@) == (match r {
            Some(d) => Some((d.year, d.month, d.day)),
            None => None::<(i32, u32, u32)>,
        }),
        r matches Some(d) ==> representable(d),
{
    chrono::NaiveDate::parse_from_str(s, "%d.%m.%Y").ok().map(
        |d| Date {
            year: chrono::Datelike::year(&d),
            month: chrono::Datelike::month(&d),
            day: chrono::Datelike::day(&d),
        },
    )
}

/// Whole days from `start` to `end` (negative when `end` is earlier), computed by
/// `chrono` as `(end - start).num_days()`. Claimed: the difference of the proleptic
/// Gregorian day numbers.
#[verifier::external_body]
pub(crate) fn days_between(start: Date, end: Date) -> (r: i64)
    requires
        representable(start),
        representable(end),
    ensures
        r == day_number(end) - day_number(start),
{
    let a = chrono::NaiveDate::from_ymd_opt(start.year, start.month, start.day).unwrap();
    let b = chrono::NaiveDate::from_ymd_opt(end.year, end.month, end.day).unwrap();
    (b - a).num_days()
}

/// Weekday of a date through `chrono::Datelike::weekday`, Monday = 0. Claimed: the
/// proleptic Gregorian weekday.
#[verifier::external_body]
fn weekday_of(d: Date) -> (r: u32)
    requires
        representable(d),
    ensures
        r == weekday(d),
{
    let nd = chrono::NaiveDate::from_ymd_opt(d.year, d.month, d.day).unwrap();
    chrono::Datelike::weekday(&nd).num_days_from_monday()
}

/// English name of a weekday number, Monday = 0.
pub open spec fn weekday_name(w: int) -> Seq<char> {
    if w == 0 { "Monday"@ }
    else if w == 1 { "Tuesday"@ }
    else if w == 2 { "Wednesday"@ }
    else if w == 3 { "Thursday"@ }
    else if w == 4 { "Friday"@ }
    else if w == 5 { "Saturday"@ }
    else { "Sunday"@ }
}

/// English name of the weekday of `date`.
pub fn day_name(date: Date) -> (r: &'static str)
    requires
        representable(date),
    ensures
        r@ == weekday_name(weekday(date)),
{
    let w = weekday_of(date);
    if w == 0 { "Monday" }
    else if w == 1 { "Tuesday" }
    else if w == 2 { "Wednesday" }
    else if w == 3 { "Thursday" }
    else if w == 4 { "Friday" }
    else if w == 5 { "Saturday" }
    else { "Sunday" }
}

} // verus!
