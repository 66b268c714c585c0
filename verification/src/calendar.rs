//! The UTC calendar date and time of a clock reading, as the
//! `YYYYMMDD-HHMM` stamp that names exported backups.
use vstd::prelude::*;
use crate::text::{chars_of, decimal, push_char, push_decimal, push_str};

verus! {

/// Gregorian leap years.
pub open spec fn is_leap(y: int) -> bool {
    (y % 4 == 0 && y % 100 != 0) || y % 400 == 0
}

pub open spec fn year_len(y: int) -> int {
    if is_leap(y) {
        366
    } else {
        365
    }
}

/// The number of leap years in `0..y`, for `y >= 0`.
pub open spec fn leaps_before(y: int) -> int {
    (y + 3) / 4 - (y + 99) / 100 + (y + 399) / 400
}

/// The days from 1970-01-01 to January 1 of year `y`.
pub open spec fn days_before_year(y: int) -> int {
    365 * (y - 1970) + leaps_before(y) - leaps_before(1970)
}

/// The days of month `m` (1 to 12) of year `y`.
pub open spec fn month_len(y: int, m: int) -> int {
    if m == 2 {
        if is_leap(y) {
            29
        } else {
            28
        }
    } else if m == 4 || m == 6 || m == 9 || m == 11 {
        30
    } else {
        31
    }
}

/// The days of year `y` before the first day of month `m`.
pub open spec fn days_before_month(y: int, m: int) -> int
    decreases m,
{
    if m <= 1 {
        0
    } else {
        days_before_month(y, m - 1) + month_len(y, m - 1)
    }
}

/// `(y, m, d)` is the UTC date of the reading `secs`, in seconds since
/// 1970-01-01 00:00 UTC.
pub open spec fn is_date_of(secs: int, y: int, m: int, d: int) -> bool {
    &&& 1970 <= y
    &&& 1 <= m <= 12
    &&& 1 <= d <= month_len(y, m)
    &&& secs / 86400 == days_before_year(y) + days_before_month(y, m) + d - 1
}

/// `n` in decimal, padded on the left with zeros to `width` digits.
pub open spec fn padded(n: nat, width: nat) -> Seq<char> {
    let digits = decimal(n);
    if digits.len() >= width {
        digits
    } else {
        Seq::new((width - digits.len()) as nat, |i: int| '0') + digits
    }
}

/// `YYYYMMDD-HHMM` of the reading `secs`, whose date is `(y, m, d)`.
pub open spec fn stamp_text(secs: int, y: int, m: int, d: int) -> Seq<char> {
    padded(y as nat, 4) + padded(m as nat, 2) + padded(d as nat, 2) + "-"@ + padded(
        ((secs % 86400) / 3600) as nat,
        2,
    ) + padded(((secs % 3600) / 60) as nat, 2)
}

/// `YYYY-MM-DDTHH:MM:SSZ` of the reading `secs`, whose date is `(y, m, d)`:
/// the ISO 8601 date and time in UTC.
pub open spec fn iso_text(secs: int, y: int, m: int, d: int) -> Seq<char> {
    padded(y as nat, 4) + "-"@ + padded(m as nat, 2) + "-"@ + padded(d as nat, 2) + "T"@ + padded(
        ((secs % 86400) / 3600) as nat,
        2,
    ) + ":"@ + padded(((secs % 3600) / 60) as nat, 2) + ":"@ + padded((secs % 60) as nat, 2) + "Z"@
}

proof fn lemma_leap_step(y: int)
    requires
        y >= 0,
    ensures
        leaps_before(y + 1) == leaps_before(y) + (if is_leap(y) { 1int } else { 0int }),
{
    assert((y + 4) / 4 == (y + 3) / 4 + (if y % 4 == 0 { 1int } else { 0int })) by (nonlinear_arith)
        requires
            y >= 0,
    ;
    assert((y + 100) / 100 == (y + 99) / 100 + (if y % 100 == 0 { 1int } else { 0int }))
        by (nonlinear_arith)
        requires
            y >= 0,
    ;
    assert((y + 400) / 400 == (y + 399) / 400 + (if y % 400 == 0 { 1int } else { 0int }))
        by (nonlinear_arith)
        requires
            y >= 0,
    ;
    assert(y % 400 == 0 ==> y % 100 == 0 && y % 4 == 0) by (nonlinear_arith);
    assert(y % 100 == 0 ==> y % 4 == 0) by (nonlinear_arith);
}

proof fn lemma_year_step(y: int)
    requires
        y >= 0,
    ensures
        days_before_year(y + 1) == days_before_year(y) + year_len(y),
{
    lemma_leap_step(y);
}

proof fn lemma_years_grow(a: int, b: int)
    requires
        0 <= a <= b,
    ensures
        days_before_year(b) - days_before_year(a) >= 365 * (b - a),
    decreases b - a,
{
    if a < b {
        lemma_years_grow(a, b - 1);
        lemma_year_step(b - 1);
    }
}

proof fn lemma_month_sum(y: int)
    ensures
        days_before_month(y, 13) == year_len(y),
{
    reveal_with_fuel(days_before_month, 13);
}

proof fn lemma_months_grow(y: int, a: int, b: int)
    requires
        a <= b,
    ensures
        days_before_month(y, a) <= days_before_month(y, b),
    decreases b - a,
{
    if a < b {
        lemma_months_grow(y, a, b - 1);
    }
}

/// A reading has one date: the date stamped on it is determined.
pub proof fn lemma_date_unique(secs: int, y1: int, m1: int, d1: int, y2: int, m2: int, d2: int)
    requires
        is_date_of(secs, y1, m1, d1),
        is_date_of(secs, y2, m2, d2),
    ensures
        y1 == y2 && m1 == m2 && d1 == d2,
{
    lemma_month_sum(y1);
    lemma_month_sum(y2);
    lemma_months_grow(y1, m1 + 1, 13);
    lemma_months_grow(y2, m2 + 1, 13);
    lemma_months_grow(y1, 1, m1);
    lemma_months_grow(y2, 1, m2);
    assert(days_before_month(y1, m1 + 1) == days_before_month(y1, m1) + month_len(y1, m1));
    assert(days_before_month(y2, m2 + 1) == days_before_month(y2, m2) + month_len(y2, m2));
    if y1 < y2 {
        lemma_year_step(y1);
        lemma_years_grow(y1 + 1, y2);
    } else if y2 < y1 {
        lemma_year_step(y2);
        lemma_years_grow(y2 + 1, y1);
    } else {
        if m1 < m2 {
            lemma_months_grow(y1, m1 + 1, m2);
        } else if m2 < m1 {
            lemma_months_grow(y1, m2 + 1, m1);
        }
    }
}

fn days_before_year_exec(y: u128) -> (r: u128)
    requires
        1970 <= y <= 2_000_000_000_000_000,
    ensures
        r == days_before_year(y as int),
{
    proof {
        lemma_years_grow(1970, y as int);
        assert(leaps_before(1970) == 478);
    }
    let a = 365 * (y - 1970) + (y + 3) / 4 + (y + 399) / 400;
    let b = (y + 99) / 100 + 478;
    a - b
}

fn is_leap_exec(y: u128) -> (r: bool)
    ensures
        r == is_leap(y as int),
{
    (y % 4 == 0 && y % 100 != 0) || y % 400 == 0
}

fn month_len_exec(y: u128, m: u128) -> (r: u128)
    ensures
        r == month_len(y as int, m as int),
{
    if m == 2 {
        if is_leap_exec(y) {
            29
        } else {
            28
        }
    } else if m == 4 || m == 6 || m == 9 || m == 11 {
        30
    } else {
        31
    }
}

fn push_padded(s: &mut String, n: u128, width: usize)
    ensures
        final(s)@ == old(s)@ + padded(n as nat, width as nat),
{
    let mut digits = String::new();
    push_decimal(&mut digits, n);
    assert(digits@ =~= decimal(n as nat));
    let len = chars_of(digits.as_str()).len();
    let ghost start = s@;
    if len < width {
        let mut k: usize = 0;
        while k < width - len
            invariant
                k <= width - len,
                s@ == start + Seq::new(k as nat, |i: int| '0'),
            decreases width - len - k,
        {
            push_char(s, '0');
            proof {
                assert(start + Seq::new((k + 1) as nat, |i: int| '0') =~= (start + Seq::new(
                    k as nat,
                    |i: int| '0',
                )).push('0'));
            }
            k = k + 1;
        }
    }
    push_str(s, digits.as_str());
    proof {
        if len < width {
            assert(start + Seq::new((width - len) as nat, |i: int| '0') + decimal(n as nat) =~= start
                + (Seq::new((width - len) as nat, |i: int| '0') + decimal(n as nat)));
        }
    }
}

/// The UTC date of a clock reading, in seconds since the Unix epoch.
fn utc_date(secs: u64) -> (r: (u128, u128, u128))
    ensures
        is_date_of(secs as int, r.0 as int, r.1 as int, r.2 as int),
        r.0 <= 2_000_000_000_000_000,
{
    let days: u128 = (secs / 86400) as u128;
    assert(days * 400 / 146097 <= days) by (nonlinear_arith);
    assert(days <= 1_000_000_000_000_000);
    proof {
        assert(days_before_year(1970) == 0);
    }
    let mut y: u128 = 1970 + days * 400 / 146097;
    while days_before_year_exec(y) > days
        invariant
            1970 <= y <= 1970 + days,
            days <= 1_000_000_000_000_000,
            days_before_year(1970) == 0,
        decreases y,
    {
        y = y - 1;
    }
    while days_before_year_exec(y + 1) <= days
        invariant
            1970 <= y <= 1970 + days,
            days <= 1_000_000_000_000_000,
            days_before_year(y as int) <= days,
        decreases days - days_before_year(y as int),
    {
        proof {
            lemma_year_step(y as int);
            lemma_years_grow(1970, y + 1);
            assert(days_before_year(1970) == 0);
        }
        y = y + 1;
    }
    proof {
        lemma_year_step(y as int);
        lemma_month_sum(y as int);
    }
    let mut doy: u128 = days - days_before_year_exec(y);
    let mut m: u128 = 1;
    while m < 12 && doy >= month_len_exec(y, m)
        invariant
            1 <= m <= 12,
            days == days_before_year(y as int) + days_before_month(y as int, m as int) + doy,
            doy < year_len(y as int) - days_before_month(y as int, m as int),
            days_before_month(y as int, 13) == year_len(y as int),
        decreases 12 - m,
    {
        doy = doy - month_len_exec(y, m);
        m = m + 1;
    }
    proof {
        if m == 12 {
            assert(days_before_month(y as int, 13) == days_before_month(y as int, 12) + month_len(
                y as int,
                12,
            ));
        }
    }
    (y, m, doy + 1)
}

/// `YYYYMMDD-HHMM` of a clock reading, in seconds since the Unix epoch, in
/// UTC.
pub fn utc_stamp(secs: u64) -> (r: String)
    ensures
        exists|y: int, m: int, d: int| is_date_of(secs as int, y, m, d) && r@ == stamp_text(secs as int, y, m, d),
{
    let (y, m, d) = utc_date(secs);
    let hour: u128 = ((secs % 86400) / 3600) as u128;
    let minute: u128 = ((secs % 3600) / 60) as u128;
    let mut r = String::new();
    push_padded(&mut r, y, 4);
    push_padded(&mut r, m, 2);
    push_padded(&mut r, d, 2);
    push_str(&mut r, "-");
    push_padded(&mut r, hour, 2);
    push_padded(&mut r, minute, 2);
    proof {
        reveal_strlit("-");
        assert(r@ =~= stamp_text(secs as int, y as int, m as int, d as int));
    }
    r
}

/// `YYYY-MM-DDTHH:MM:SSZ` of a clock reading, in seconds since the Unix
/// epoch (ISO 8601, UTC).
pub fn utc_date_time(secs: u64) -> (r: String)
    ensures
        exists|y: int, m: int, d: int| is_date_of(secs as int, y, m, d) && r@ == iso_text(secs as int, y, m, d),
{
    let (y, m, d) = utc_date(secs);
    let hour: u128 = ((secs % 86400) / 3600) as u128;
    let minute: u128 = ((secs % 3600) / 60) as u128;
    let second: u128 = (secs % 60) as u128;
    let mut r = String::new();
    push_padded(&mut r, y, 4);
    push_str(&mut r, "-");
    push_padded(&mut r, m, 2);
    push_str(&mut r, "-");
    push_padded(&mut r, d, 2);
    push_str(&mut r, "T");
    push_padded(&mut r, hour, 2);
    push_str(&mut r, ":");
    push_padded(&mut r, minute, 2);
    push_str(&mut r, ":");
    push_padded(&mut r, second, 2);
    push_str(&mut r, "Z");
    proof {
        reveal_strlit("-");
        reveal_strlit("T");
        reveal_strlit(":");
        reveal_strlit("Z");
        assert(r@ =~= iso_text(secs as int, y as int, m as int, d as int));
    }
    r
}

} // verus!
