//! The civil date of a moment in time.
use vstd::prelude::*;

use crate::text::{dec, push_chars, push_dec, string_of};

verus! {

pub open spec fn is_leap(y: int) -> bool {
    y % 4 == 0 && (y % 100 != 0 || y % 400 == 0)
}

pub open spec fn year_days(y: int) -> int {
    if is_leap(y) {
        366
    } else {
        365
    }
}

pub open spec fn month_days(y: int, m: int) -> int {
    if m == 2 {
        if is_leap(y) {
            29
        } else {
            28
        }
    } else if m == 4 || m == 6 || m == 9 || m == 11 {
        30
    } else {
        31
    }
}

/// The leap years up to and including year `y`.
pub open spec fn leaps_to(y: int) -> int {
    y / 4 - y / 100 + y / 400
}

/// The days from 1970-01-01 to the first day of year `y`.
pub open spec fn days_to_year(y: int) -> int {
    365 * (y - 1970) + leaps_to(y - 1) - leaps_to(1969)
}

/// The days from the first day of year `y` to the first day of month `m`.
pub open spec fn days_to_month(y: int, m: int) -> int
    decreases m,
{
    if m <= 1 {
        0
    } else {
        days_to_month(y, m - 1) + month_days(y, m - 1)
    }
}

/// The days from 1970-01-01 to a date.
pub open spec fn day_number(y: int, m: int, d: int) -> int {
    days_to_year(y) + days_to_month(y, m) + d - 1
}

/// Is it a date of the calendar?
pub open spec fn is_date(y: int, m: int, d: int) -> bool {
    1 <= m <= 12 && 1 <= d <= month_days(y, m)
}

proof fn lemma_year_step(y: int)
    requires
        y >= 1970,
    ensures
        days_to_year(y + 1) == days_to_year(y) + year_days(y),
{
    assert(y / 4 == (y - 1) / 4 + (if y % 4 == 0 {
        1int
    } else {
        0
    }));
    assert(y / 100 == (y - 1) / 100 + (if y % 100 == 0 {
        1int
    } else {
        0
    }));
    assert(y / 400 == (y - 1) / 400 + (if y % 400 == 0 {
        1int
    } else {
        0
    }));
}

proof fn lemma_era(e: int)
    requires
        e >= 0,
    ensures
        days_to_year(1970 + 400 * e) == 146097 * e,
{
    let y = 1970 + 400 * e;
    assert((y - 1) / 4 == 492 + 100 * e);
    assert((y - 1) / 100 == 19 + 4 * e);
    assert((y - 1) / 400 == 4 + e);
}

/// A date.
#[derive(Clone, Copy, PartialEq, Eq, Structural)]
pub struct Date {
    pub year: u64,
    pub month: u8,
    pub day: u8,
}

fn leap(y: u64) -> (r: bool)
    ensures
        r == is_leap(y as int),
{
    y % 4 == 0 && (y % 100 != 0 || y % 400 == 0)
}

/// The date on which a number of days after 1970-01-01 falls.
pub fn civil_from_days(days: u64) -> (r: Date)
    requires
        days <= 0xFFFF_FFFF_FFFF,
    ensures
        is_date(r.year as int, r.month as int, r.day as int),
        day_number(r.year as int, r.month as int, r.day as int) == days,
{
    let era: u64 = days / 146097;
    let mut left: u64 = days % 146097;
    let mut year: u64 = 1970 + 400 * era;
    proof {
        lemma_era(era as int);
    }
    while left >= 365 && !(left == 365 && leap(year))
        invariant
            1970 <= year <= 1970 + 400 * era + 146097 - left,
            left <= 146097,
            era <= 0xFFFF_FFFF_FFFF,
            days_to_year(year as int) + left == days,
        decreases left,
    {
        proof {
            lemma_year_step(year as int);
        }
        left = left - (if leap(year) {
            366u64
        } else {
            365u64
        });
        year += 1;
    }
    let mut month: u8 = 1;
    proof {
        reveal_with_fuel(days_to_month, 13);
    }
    while month < 12 && left >= month_length(year, month) as u64
        invariant
            1 <= month <= 12,
            left < 366,
            days_to_year(year as int) + days_to_month(year as int, month as int) + left == days,
            days_to_month(year as int, month as int) + left < year_days(year as int),
        decreases 12 - month,
    {
        left = left - month_length(year, month) as u64;
        month += 1;
    }
    proof {
        reveal_with_fuel(days_to_month, 13);
    }
    Date { year, month, day: (left + 1) as u8 }
}

fn month_length(y: u64, m: u8) -> (r: u8)
    ensures
        r == month_days(y as int, m as int),
{
    if m == 2 {
        if leap(y) {
            29
        } else {
            28
        }
    } else if m == 4 || m == 6 || m == 9 || m == 11 {
        30
    } else {
        31
    }
}

/// Decimal notation with zeros in front, up to so many digits.
pub open spec fn padded(n: nat, width: nat) -> Seq<char> {
    crate::flats::zero_padded(dec(n), width)
}

/// A date as `YYYY-MM-DD`.
pub open spec fn iso_text(d: Date) -> Seq<char> {
    padded(d.year as nat, 4).push('-') + padded(d.month as nat, 2).push('-') + padded(
        d.day as nat,
        2,
    )
}

fn push_padded(out: &mut Vec<char>, n: u64, width: usize)
    ensures
        final(out)@ == old(out)@ + padded(n as nat, width as nat),
{
    let ghost start = out@;
    let mut digits: Vec<char> = Vec::new();
    push_dec(&mut digits, n as u128);
    proof {
        assert(digits@ =~= dec(n as nat));
    }
    while digits.len() < width
        invariant
            padded(n as nat, width as nat) == crate::flats::zero_padded(digits@, width as nat),
        decreases width - digits@.len(),
    {
        let ghost before = digits@;
        digits.insert(0, '0');
        proof {
            assert(digits@ =~= seq!['0'] + before);
        }
    }
    push_chars(out, digits.as_slice());
}

/// The date of a moment, in seconds since 1970-01-01T00:00:00Z, as `YYYY-MM-DD`.
pub fn today_iso(secs: u64) -> (r: String)
    ensures
        exists|d: Date|
            is_date(d.year as int, d.month as int, d.day as int) && day_number(
                d.year as int,
                d.month as int,
                d.day as int,
            ) == secs as int / 86400 && r@ == #[trigger] iso_text(d),
{
    let d: Date = civil_from_days(secs / 86400);
    let mut out: Vec<char> = Vec::new();
    push_padded(&mut out, d.year, 4);
    out.push('-');
    push_padded(&mut out, d.month as u64, 2);
    out.push('-');
    push_padded(&mut out, d.day as u64, 2);
    proof {
        assert(out@ =~= iso_text(d));
    }
    string_of(out.as_slice())
}

// ---- laws ------------------------------------------------------------------

proof fn lemma_days_to_year_monotone(a: int, b: int)
    requires
        1970 <= a <= b,
    ensures
        days_to_year(a) + 365 * (b - a) <= days_to_year(b),
    decreases b - a,
{
    if a < b {
        lemma_days_to_year_monotone(a, b - 1);
        lemma_year_step(b - 1);
    }
}

proof fn lemma_in_year(y: int, m: int, d: int)
    requires
        is_date(y, m, d),
    ensures
        0 <= days_to_month(y, m) + d - 1 < year_days(y),
{
    reveal_with_fuel(days_to_month, 13);
}

proof fn lemma_in_month(y: int, m: int, k: int)
    requires
        1 <= m < k <= 12,
    ensures
        days_to_month(y, m) + month_days(y, m) <= days_to_month(y, k),
    decreases k - m,
{
    if k > m + 1 {
        lemma_in_month(y, m, k - 1);
    }
}

/// No two dates fall on the same day, so the date of a day is unique.
pub proof fn dates_are_distinct(y1: int, m1: int, d1: int, y2: int, m2: int, d2: int)
    requires
        y1 >= 1970,
        y2 >= 1970,
        is_date(y1, m1, d1),
        is_date(y2, m2, d2),
        day_number(y1, m1, d1) == day_number(y2, m2, d2),
    ensures
        y1 == y2 && m1 == m2 && d1 == d2,
{
    lemma_in_year(y1, m1, d1);
    lemma_in_year(y2, m2, d2);
    if y1 < y2 {
        lemma_year_step(y1);
        lemma_days_to_year_monotone(y1 + 1, y2);
    } else if y2 < y1 {
        lemma_year_step(y2);
        lemma_days_to_year_monotone(y2 + 1, y1);
    } else if m1 < m2 {
        lemma_in_month(y1, m1, m2);
    } else if m2 < m1 {
        lemma_in_month(y1, m2, m1);
    }
}

} // verus!
