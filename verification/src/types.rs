//! Display settings and the calendar values that the report logic reads.
use vstd::prelude::*;

verus! {

/// The program's short version, shown in the usage text and the footers.
pub const VERSION: &'static str = "0.2";

/// Display theme: selects the hue sweep used for every colored value.
#[derive(Clone, Copy, Debug, PartialEq, Eq, Structural)]
pub enum Theme {
    /// cyan to indigo
    Blue,
    /// indigo through red to orange (the default)
    Warm,
    /// cyan through indigo and red to orange
    Rainbow,
    /// blue to red
    Classic,
    /// cyan to lime
    Rainforest,
}

/// Unit system for display.
#[derive(Clone, Copy, Debug, PartialEq, Eq, Structural)]
pub enum Units {
    /// °C, km/h, mm, hPa (the default)
    Metric,
    /// °F, mph, in, inHg
    Imperial,
    /// °C, mph, mm, hPa
    British,
}

impl Units {
    /// Temperatures are shown in Fahrenheit.
    pub fn use_fahrenheit(self) -> (r: bool)
        ensures
            r == (self == Units::Imperial),
    {
        self == Units::Imperial
    }

    /// Speeds are shown in miles per hour.
    pub fn use_mph(self) -> (r: bool)
        ensures
            r == (self != Units::Metric),
    {
        self != Units::Metric
    }

    /// Precipitation is shown in inches.
    pub fn use_inches(self) -> (r: bool)
        ensures
            r == (self == Units::Imperial),
    {
        self == Units::Imperial
    }

    /// Pressure is shown in inches of mercury.
    pub fn use_inhg(self) -> (r: bool)
        ensures
            r == (self == Units::Imperial),
    {
        self == Units::Imperial
    }

    /// Temperature unit letter (shown after a degree sign).
    pub fn temp_label(self) -> (r: &'static str)
        ensures
            r@ == (if self == Units::Imperial { "F"@ } else { "C"@ }),
    {
        if self.use_fahrenheit() { "F" } else { "C" }
    }

    /// Speed unit.
    pub fn wind_label(self) -> (r: &'static str)
        ensures
            r@ == (if self != Units::Metric { "mph"@ } else { "km/h"@ }),
    {
        if self.use_mph() { "mph" } else { "km/h" }
    }

    /// Precipitation unit.
    pub fn rain_label(self) -> (r: &'static str)
        ensures
            r@ == (if self == Units::Imperial { "in"@ } else { "mm"@ }),
    {
        if self.use_inches() { "in" } else { "mm" }
    }

    /// Pressure unit.
    pub fn pressure_label(self) -> (r: &'static str)
        ensures
            r@ == (if self == Units::Imperial { "inHg"@ } else { "hPa"@ }),
    {
        if self.use_inhg() { "inHg" } else { "hPa" }
    }
}

/// Forecast profile; only the standard profile and the drone profile are rendered.
#[derive(Clone, Copy, Debug, PartialEq, Eq, Structural)]
pub enum Mode {
    Standard,
    Drone,
    Pilot,
}

/// A calendar date of the proleptic Gregorian calendar.
#[derive(Clone, Copy, Debug, PartialEq, Eq, Structural)]
pub struct Date {
    pub year: i32,
    pub month: u32,
    pub day: u32,
}

/// A local wall-clock time on a date, to the minute.
#[derive(Clone, Copy, Debug, PartialEq, Eq, Structural)]
pub struct Stamp {
    pub date: Date,
    pub hour: u32,
    pub minute: u32,
}

/// Whether `y` is a leap year.
pub open spec fn is_leap(y: int) -> bool {
    (y % 4 == 0 && y % 100 != 0) || y % 400 == 0
}

/// Number of days in month `m` of year `y`.
pub open spec fn days_in_month(y: int, m: int) -> int {
    if m == 2 {
        if is_leap(y) { 29 } else { 28 }
    } else if m == 4 || m == 6 || m == 9 || m == 11 {
        30
    } else {
        31
    }
}

/// `d` names a day that exists in the calendar.
pub open spec fn valid_date(d: Date) -> bool {
    1 <= d.month <= 12 && 1 <= d.day <= days_in_month(d.year as int, d.month as int)
}

/// Days from 1970-01-01 to `d` (negative before it).
pub open spec fn day_number(d: Date) -> int {
    let y: int = if d.month <= 2 { d.year - 1 } else { d.year as int };
    let era: int = y / 400;
    let yoe: int = y - era * 400;
    let mp: int = (d.month + 9) % 12;
    let doy: int = (153 * mp + 2) / 5 + d.day - 1;
    let doe: int = yoe * 365 + yoe / 4 - yoe / 100 + doy;
    era * 146097 + doe - 719468
}

/// The year counted from March: January and February belong to the year before.
spec fn march_year(d: Date) -> int {
    if d.month <= 2 { d.year - 1 } else { d.year as int }
}

/// The month counted from March = 0 to February = 11.
spec fn march_month(d: Date) -> int {
    if d.month >= 3 { d.month - 3 } else { d.month + 9 }
}

/// Days from the epoch's reference to March 1 of the March-based year `y`.
spec fn year_start(y: int) -> int {
    let era: int = y / 400;
    let yoe: int = y - era * 400;
    era * 146097 + yoe * 365 + yoe / 4 - yoe / 100
}

/// Days from March 1 to the first of March-based month `mp`.
spec fn month_start(mp: int) -> int {
    (153 * mp + 2) / 5
}

proof fn lemma_day_number_parts(d: Date)
    requires
        1 <= d.month <= 12,
    ensures
        day_number(d) == year_start(march_year(d)) + month_start(march_month(d)) + d.day - 1
            - 719468,
        0 <= march_month(d) < 12,
{
    assert((d.month + 9) % 12 == march_month(d));
}

/// The first days of the March-based months, and the lengths of all but February.
proof fn lemma_month_starts(mp: int)
    requires
        0 <= mp < 12,
    ensures
        month_start(mp) <= month_start(mp + 1),
        mp < 11 ==> month_start(mp + 1) <= 337,
        month_start(11) == 337,
        month_start(mp) >= 0,
{
    vstd::arithmetic::div_mod::lemma_div_is_ordered(153 * mp + 2, 153 * (mp + 1) + 2, 5);
    vstd::arithmetic::div_mod::lemma_div_is_ordered(2int, 153 * mp + 2, 5);
    if mp < 11 {
        vstd::arithmetic::div_mod::lemma_div_is_ordered(153 * (mp + 1) + 2, 1685int, 5);
    }
}

/// A month other than February lasts from its first day to the next month's first day.
proof fn lemma_month_length(d: Date)
    requires
        1 <= d.month <= 12,
        d.month != 2,
    ensures
        days_in_month(d.year as int, d.month as int) == month_start(march_month(d) + 1)
            - month_start(march_month(d)),
{
    let m = d.month;
    if m == 1 { assert(month_start(11) - month_start(10) == 31); }
    else if m == 3 { assert(month_start(1) - month_start(0) == 31); }
    else if m == 4 { assert(month_start(2) - month_start(1) == 30); }
    else if m == 5 { assert(month_start(3) - month_start(2) == 31); }
    else if m == 6 { assert(month_start(4) - month_start(3) == 30); }
    else if m == 7 { assert(month_start(5) - month_start(4) == 31); }
    else if m == 8 { assert(month_start(6) - month_start(5) == 31); }
    else if m == 9 { assert(month_start(7) - month_start(6) == 30); }
    else if m == 10 { assert(month_start(8) - month_start(7) == 31); }
    else if m == 11 { assert(month_start(9) - month_start(8) == 30); }
    else { assert(month_start(10) - month_start(9) == 31); }
}

/// Stepping `x` by one moves `x / d` up exactly when `x + 1` is a multiple of `d`.
proof fn lemma_div_step(x: int, d: int)
    requires
        d == 4 || d == 100,
    ensures
        (x + 1) / d == x / d + (if (x + 1) % d == 0 { 1int } else { 0 }),
{
    vstd::arithmetic::div_mod::lemma_fundamental_div_mod(x, d);
    vstd::arithmetic::div_mod::lemma_fundamental_div_mod(x + 1, d);
    vstd::arithmetic::div_mod::lemma_mod_bound(x, d);
    vstd::arithmetic::div_mod::lemma_mod_bound(x + 1, d);
    if d == 4 {
        assert(4 * ((x + 1) / 4) + (x + 1) % 4 == x + 1);
        assert(4 * (x / 4) + x % 4 == x);
    } else {
        assert(100 * ((x + 1) / 100) + (x + 1) % 100 == x + 1);
        assert(100 * (x / 100) + x % 100 == x);
    }
}

/// A March-based year lasts 365 days, 366 when the February in it has a 29th.
proof fn lemma_year_length(y: int)
    ensures
        year_start(y + 1) - year_start(y) == 365 + (if is_leap(y + 1) { 1int } else { 0 }),
{
    let era = y / 400;
    let yoe = y - era * 400;
    vstd::arithmetic::div_mod::lemma_fundamental_div_mod(y, 400);
    vstd::arithmetic::div_mod::lemma_mod_bound(y, 400);
    assert(0 <= yoe < 400);
    if yoe < 399 {
        vstd::arithmetic::div_mod::lemma_div_multiples_vanish_fancy(era, yoe + 1, 400);
        assert(400 * era + (yoe + 1) == y + 1);
        assert((y + 1) / 400 == era);
        vstd::arithmetic::div_mod::lemma_mod_multiples_vanish(100 * era, yoe + 1, 4);
        assert(4 * (100 * era) + (yoe + 1) == y + 1);
        vstd::arithmetic::div_mod::lemma_mod_multiples_vanish(4 * era, yoe + 1, 100);
        assert(100 * (4 * era) + (yoe + 1) == y + 1);
        vstd::arithmetic::div_mod::lemma_mod_multiples_vanish(era, yoe + 1, 400);
        vstd::arithmetic::div_mod::lemma_small_mod((yoe + 1) as nat, 400);
        lemma_div_step(yoe, 4);
        lemma_div_step(yoe, 100);
    } else {
        vstd::arithmetic::div_mod::lemma_div_multiples_vanish_fancy(era + 1, 0, 400);
        assert(400 * (era + 1) + 0 == y + 1);
        vstd::arithmetic::div_mod::lemma_mod_multiples_vanish(era + 1, 0, 400);
        assert((y + 1) % 400 == 0);
    }
}

proof fn lemma_year_start_increasing(y1: int, y2: int)
    requires
        y1 < y2,
    ensures
        year_start(y1) + 365 <= year_start(y2),
    decreases y2 - y1,
{
    lemma_year_length(y1);
    if y1 + 1 < y2 {
        lemma_year_start_increasing(y1 + 1, y2);
    }
}

/// Day numbers follow the calendar: a strictly earlier date has a smaller day number.
pub proof fn lemma_day_number_increasing(a: Date, b: Date)
    requires
        valid_date(a),
        valid_date(b),
        date_le(a, b),
        a != b,
    ensures
        day_number(a) < day_number(b),
{
    lemma_day_number_parts(a);
    lemma_day_number_parts(b);
    let (sa, sb) = (march_year(a), march_year(b));
    let (ma, mb) = (march_month(a), march_month(b));
    lemma_month_starts(ma);
    lemma_month_starts(mb);
    if a.month != 2 {
        lemma_month_length(a);
    }
    if sa == sb {
        if ma < mb {
            vstd::arithmetic::div_mod::lemma_div_is_ordered(
                153 * (ma + 1) + 2,
                153 * mb + 2,
                5,
            );
        }
    } else {
        assert(sa < sb);
        lemma_year_length(sa);
        lemma_year_start_increasing(sa, sb);
    }
}

/// Day of the week, Monday = 0 through Sunday = 6 (1970-01-01 was a Thursday).
pub open spec fn weekday(d: Date) -> int {
    (day_number(d) + 3) % 7
}

/// Chronological order of dates.
pub open spec fn date_le(a: Date, b: Date) -> bool {
    a.year < b.year || (a.year == b.year && (a.month < b.month || (a.month == b.month
        && a.day <= b.day)))
}

/// Chronological order of wall-clock times.
pub open spec fn stamp_le(a: Stamp, b: Stamp) -> bool {
    if a.date != b.date {
        date_le(a.date, b.date)
    } else {
        a.hour < b.hour || (a.hour == b.hour && a.minute <= b.minute)
    }
}

/// `a` is not later than `b`.
pub fn date_not_after(a: Date, b: Date) -> (r: bool)
    ensures
        r == date_le(a, b),
{
    a.year < b.year || (a.year == b.year && (a.month < b.month || (a.month == b.month && a.day
        <= b.day)))
}

/// `a` is not later than `b`.
pub fn stamp_not_after(a: Stamp, b: Stamp) -> (r: bool)
    ensures
        r == stamp_le(a, b),
{
    if a.date != b.date {
        date_not_after(a.date, b.date)
    } else {
        a.hour < b.hour || (a.hour == b.hour && a.minute <= b.minute)
    }
}

} // verus!
