//! Calendar-day computation for date-segmented snapshot files.
//!
//! A flush in segmented mode names its target file after the current
//! calendar day, so a new segment begins automatically at each date
//! rollover. The day is derived from the epoch time by whole days, and
//! written as the year, a two-digit month and a two-digit day, separated by
//! dashes.

use vstd::prelude::*;
use vstd::string::StringExecFns;

use crate::codec::spec_dec;

verus! {

/// Proleptic Gregorian leap years.
pub open spec fn is_leap_year(y: nat) -> bool {
    (y % 4 == 0 && y % 100 != 0) || y % 400 == 0
}

/// Days in a calendar year.
pub open spec fn days_in_year(y: nat) -> nat {
    if is_leap_year(y) {
        366nat
    } else {
        365nat
    }
}

/// Days in a calendar month (1 through 12).
pub open spec fn days_in_month(y: nat, m: nat) -> nat {
    if m == 1 {
        31nat
    } else if m == 2 {
        if is_leap_year(y) {
            29nat
        } else {
            28nat
        }
    } else if m == 3 {
        31nat
    } else if m == 4 {
        30nat
    } else if m == 5 {
        31nat
    } else if m == 6 {
        30nat
    } else if m == 7 {
        31nat
    } else if m == 8 {
        31nat
    } else if m == 9 {
        30nat
    } else if m == 10 {
        31nat
    } else if m == 11 {
        30nat
    } else {
        31nat
    }
}

/// Days from the epoch (1970-01-01) to the start of year `y`.
pub open spec fn days_before_year(y: nat) -> nat
    decreases y,
{
    if y <= 1970 {
        0nat
    } else {
        days_before_year((y - 1) as nat) + days_in_year((y - 1) as nat)
    }
}

/// Days from the start of year `y` to the start of month `m` of that year.
pub open spec fn days_before_month(y: nat, m: nat) -> nat
    decreases m,
{
    if m <= 1 {
        0nat
    } else {
        days_before_month(y, (m - 1) as nat) + days_in_month(y, (m - 1) as nat)
    }
}

/// `y`-`m`-`d` is the calendar date of day number `days` since the epoch.
pub open spec fn civil_date_of(days: nat, y: nat, m: nat, d: nat) -> bool {
    &&& 1970 <= y
    &&& 1 <= m <= 12
    &&& 1 <= d <= days_in_month(y, m)
    &&& days == days_before_year(y) + days_before_month(y, m) + (d - 1)
}

/// The twelve months of a year hold exactly its days.
proof fn lemma_year_days(y: nat)
    ensures
        days_before_month(y, 13) == days_in_year(y),
{
    reveal_with_fuel(days_before_month, 14);
}

/// Every year from the epoch on adds at least 365 days.
proof fn lemma_days_before_year_lower(y: nat)
    requires
        1970 <= y,
    ensures
        days_before_year(y) >= 365 * (y - 1970),
    decreases y,
{
    if y > 1970 {
        lemma_days_before_year_lower((y - 1) as nat);
    }
}

/// Whether a year is a leap year.
fn leap_year(y: u64) -> (r: bool)
    ensures
        r == is_leap_year(y as nat),
{
    (y % 4 == 0 && y % 100 != 0) || y % 400 == 0
}

/// Days in a calendar year.
fn year_days(y: u64) -> (n: u64)
    ensures
        n as nat == days_in_year(y as nat),
        365 <= n <= 366,
{
    if leap_year(y) {
        366
    } else {
        365
    }
}

/// Days in a calendar month.
fn month_days(y: u64, m: u64) -> (n: u64)
    requires
        1 <= m <= 12,
    ensures
        n as nat == days_in_month(y as nat, m as nat),
        28 <= n <= 31,
{
    if m == 1 {
        31
    } else if m == 2 {
        if leap_year(y) {
            29
        } else {
            28
        }
    } else if m == 3 {
        31
    } else if m == 4 {
        30
    } else if m == 5 {
        31
    } else if m == 6 {
        30
    } else if m == 7 {
        31
    } else if m == 8 {
        31
    } else if m == 9 {
        30
    } else if m == 10 {
        31
    } else if m == 11 {
        30
    } else {
        31
    }
}

/// The calendar date of a day number since the epoch.
pub fn civil_from_days(days: u64) -> (ymd: (u64, u64, u64))
    ensures
        civil_date_of(days as nat, ymd.0 as nat, ymd.1 as nat, ymd.2 as nat),
{
    let mut y: u64 = 1970;
    let mut rem: u64 = days;
    loop
        invariant
            1970 <= y,
            days_before_year(y as nat) + rem as nat == days as nat,
        ensures
            1970 <= y,
            days_before_year(y as nat) + rem as nat == days as nat,
            (rem as nat) < days_in_year(y as nat),
        decreases rem,
    {
        let diy = year_days(y);
        if rem < diy {
            break ;
        }
        proof {
            lemma_days_before_year_lower(y as nat);
        }
        rem = rem - diy;
        y = y + 1;
    }
    let ghost year_rem = rem as nat;
    let mut m: u64 = 1;
    loop
        invariant
            1 <= m <= 12,
            days_before_month(y as nat, m as nat) + rem as nat == year_rem,
            year_rem < days_in_year(y as nat),
        ensures
            1 <= m <= 12,
            days_before_month(y as nat, m as nat) + rem as nat == year_rem,
            (rem as nat) < days_in_month(y as nat, m as nat),
        decreases rem,
    {
        let dim = month_days(y, m);
        if rem < dim {
            break ;
        }
        proof {
            if m == 12 {
                lemma_year_days(y as nat);
                assert(false);
            }
        }
        rem = rem - dim;
        m = m + 1;
    }
    let d = rem + 1;
    (y, m, d)
}

/// The day number of an epoch time, by whole days.
pub fn epoch_days(epoch_seconds: u64) -> (days: u64)
    ensures
        days as nat == epoch_seconds as nat / 86400,
{
    epoch_seconds / 86400
}

/// A number in decimal, left-padded with a zero to two digits.
pub open spec fn spec_pad2(x: nat) -> Seq<char> {
    if x < 10 {
        "0"@ + spec_dec(x)
    } else {
        spec_dec(x)
    }
}

/// A calendar date as text: the year, a two-digit month and a two-digit day,
/// separated by dashes.
pub open spec fn spec_date_text(y: nat, m: nat, d: nat) -> Seq<char> {
    spec_dec(y) + "-"@ + spec_pad2(m) + "-"@ + spec_pad2(d)
}

/// Writes a calendar date as text.
pub fn format_date(y: u64, m: u64, d: u64) -> (s: String)
    ensures
        s@ == spec_date_text(y as nat, m as nat, d as nat),
{
    let mut s = String::new();
    crate::codec::push_dec(y, &mut s);
    s.append("-");
    if m < 10 {
        s.append("0");
    }
    crate::codec::push_dec(m, &mut s);
    s.append("-");
    if d < 10 {
        s.append("0");
    }
    crate::codec::push_dec(d, &mut s);
    proof {
        assert(s@ =~= spec_date_text(y as nat, m as nat, d as nat));
    }
    s
}

} // verus!
