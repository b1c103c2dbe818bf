//! Calendar dates in the proleptic Gregorian calendar, read as UTC.
//!
//! A date is held as plain year/month/day values; everything the sync logic
//! needs from a date — ordering, the weekday, the instant of midnight — is
//! computed here from a day count that starts at 0000-01-01 (day 0).

use vstd::prelude::*;

verus! {

/// One calendar day, interpreted as UTC.
#[derive(Clone, Copy, PartialEq, Eq, Structural, Debug)]
pub struct Date {
    pub year: u32,
    pub month: u32,
    pub day: u32,
}

pub open spec fn spec_is_leap_year(y: int) -> bool {
    y % 4 == 0 && (y % 100 != 0 || y % 400 == 0)
}

pub open spec fn spec_days_in_month(y: int, m: int) -> int {
    if m == 2 {
        if spec_is_leap_year(y) {
            29
        } else {
            28
        }
    } else if m == 4 || m == 6 || m == 9 || m == 11 {
        30
    } else {
        31
    }
}

impl Date {
    /// Dates the library works with: four-digit years, real calendar days.
    pub open spec fn valid(self) -> bool {
        self.year <= 9999 && 1 <= self.month <= 12 && 1 <= self.day <= spec_days_in_month(
            self.year as int,
            self.month as int,
        )
    }
}

/// Number of days in all years before year `y`, counting from year 0.
pub open spec fn spec_days_before_year(y: nat) -> nat
    decreases y,
{
    if y == 0 {
        0
    } else {
        spec_days_before_year((y - 1) as nat) + if spec_is_leap_year(y - 1) {
            366nat
        } else {
            365nat
        }
    }
}

/// Number of days in the months of year `y` that precede month `m`.
pub open spec fn spec_days_before_month(y: nat, m: nat) -> nat
    decreases m,
{
    if m <= 1 {
        0
    } else {
        spec_days_before_month(y, (m - 1) as nat) + spec_days_in_month(
            y as int,
            (m - 1) as int,
        ) as nat
    }
}

/// Day index of a date, counted from 0000-01-01 as day 0.
pub open spec fn spec_rata_die(d: Date) -> int {
    spec_days_before_year(d.year as nat) + spec_days_before_month(d.year as nat, d.month as nat)
        + d.day - 1
}

/// Day number relative to 1970-01-01 (day 0), the scale of the sync window.
pub open spec fn spec_epoch_days(d: Date) -> int {
    spec_rata_die(d) - spec_days_before_year(1970)
}

/// The UTC instant of midnight on `d`, in seconds since 1970-01-01T00:00:00Z.
pub open spec fn spec_midnight_epoch_secs(d: Date) -> int {
    spec_epoch_days(d) * 86400
}

pub fn is_leap_year(y: u32) -> (r: bool)
    ensures
        r == spec_is_leap_year(y as int),
{
    y % 4 == 0 && (y % 100 != 0 || y % 400 == 0)
}

pub fn days_in_month(y: u32, m: u32) -> (r: u32)
    requires
        1 <= m <= 12,
    ensures
        r == spec_days_in_month(y as int, m as int),
{
    if m == 2 {
        if is_leap_year(y) {
            29
        } else {
            28
        }
    } else if m == 4 || m == 6 || m == 9 || m == 11 {
        30
    } else {
        31
    }
}

proof fn lemma_days_before_year_bound(y: nat)
    ensures
        spec_days_before_year(y) <= 366 * y,
    decreases y,
{
    if y > 0 {
        lemma_days_before_year_bound((y - 1) as nat);
    }
}

fn days_before_year(y: u32) -> (r: u64)
    requires
        y <= 10000,
    ensures
        r == spec_days_before_year(y as nat),
        r <= 366 * y,
{
    let mut i: u32 = 0;
    let mut r: u64 = 0;
    while i < y
        invariant
            i <= y <= 10000,
            r == spec_days_before_year(i as nat),
            r <= 366 * i,
        decreases y - i,
    {
        if is_leap_year(i) {
            r = r + 366;
        } else {
            r = r + 365;
        }
        i = i + 1;
    }
    r
}

fn days_before_month(y: u32, m: u32) -> (r: u64)
    requires
        1 <= m <= 12,
    ensures
        r == spec_days_before_month(y as nat, m as nat),
        r <= 366,
{
    let mut i: u32 = 1;
    let mut r: u64 = 0;
    while i < m
        invariant
            1 <= i <= m <= 12,
            r == spec_days_before_month(y as nat, i as nat),
            r <= 31 * (i - 1),
        decreases m - i,
    {
        r = r + days_in_month(y, i) as u64;
        i = i + 1;
    }
    r
}

/// Day number of `d` relative to 1970-01-01.
pub fn epoch_days(d: Date) -> (r: i64)
    requires
        d.valid(),
    ensures
        r == spec_epoch_days(d),
        -721020 <= r <= 3660400,
{
    proof {
        lemma_days_before_year_bound(d.year as nat);
        lemma_days_before_year_bound(1970);
    }
    let before_year = days_before_year(d.year);
    let before_month = days_before_month(d.year, d.month);
    let epoch = days_before_year(1970);
    before_year as i64 + before_month as i64 + d.day as i64 - 1 - epoch as i64
}

/// The UTC instant of midnight on `d`, in seconds since the epoch.
pub fn midnight_epoch_secs(d: Date) -> (r: i64)
    requires
        d.valid(),
    ensures
        r == spec_midnight_epoch_secs(d),
        -721020 * 86400 <= r <= 3660400 * 86400,
{
    epoch_days(d) * 86400
}

/// Index of the weekday of `d`: day 0 of the count (0000-01-01) falls on a
/// Saturday, so index 0 stands for Saturday.
pub open spec fn spec_weekday_index(d: Date) -> int {
    spec_rata_die(d) % 7
}

/// Short English name of the weekday of `d`.
pub open spec fn spec_weekday_label(d: Date) -> Seq<char> {
    let i = spec_weekday_index(d);
    if i == 0 {
        "Sat"@
    } else if i == 1 {
        "Sun"@
    } else if i == 2 {
        "Mon"@
    } else if i == 3 {
        "Tue"@
    } else if i == 4 {
        "Wed"@
    } else if i == 5 {
        "Thu"@
    } else {
        "Fri"@
    }
}

/// Short English name of the weekday of `d`, as written into point records.
pub fn weekday_label(d: Date) -> (r: &'static str)
    requires
        d.valid(),
    ensures
        r@ == spec_weekday_label(d),
{
    proof {
        lemma_days_before_year_bound(d.year as nat);
    }
    let before_year = days_before_year(d.year);
    let before_month = days_before_month(d.year, d.month);
    let rata_die = before_year + before_month + d.day as u64 - 1;
    let i = rata_die % 7;
    if i == 0 {
        "Sat"
    } else if i == 1 {
        "Sun"
    } else if i == 2 {
        "Mon"
    } else if i == 3 {
        "Tue"
    } else if i == 4 {
        "Wed"
    } else if i == 5 {
        "Thu"
    } else {
        "Fri"
    }
}

} // verus!
