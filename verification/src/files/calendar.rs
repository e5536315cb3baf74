//! Unix time to a `YYMMDD` civil date (UTC), by the days-to-civil algorithm
//! of the proleptic Gregorian calendar.

use vstd::prelude::*;

use crate::format::{dec, decimal, pad_zeros, zero_pad};
use crate::text::string_of;

verus! {

/// The civil date `(year, month, day)` of the day `days` days after
/// 1970-01-01 (Hinnant's `civil_from_days`; `/` is floor division here).
pub open spec fn civil_from_days(days: int) -> (int, int, int) {
    let z = days + 719468;
    let era = z / 146097;
    let doe = z - era * 146097;
    let yoe = (doe - doe / 1460 + doe / 36524 - doe / 146096) / 365;
    let y = yoe + era * 400;
    let doy = doe - (365 * yoe + yoe / 4 - yoe / 100);
    let mp = (5 * doy + 2) / 153;
    let d = doy - (153 * mp + 2) / 5 + 1;
    let m = if mp < 10 {
        mp + 3
    } else {
        mp - 9
    };
    (
        if m <= 2 {
            y + 1
        } else {
            y
        },
        m,
        d,
    )
}

/// `YYMMDD` of the UTC day holding `unix_secs`: the year modulo 100, the
/// month and the day, each as two digits.
pub open spec fn yymmdd(unix_secs: int) -> Seq<char> {
    let (y, m, d) = civil_from_days(unix_secs / 86400);
    zero_pad(dec((y % 100) as nat), 2) + zero_pad(dec(m as nat), 2) + zero_pad(dec(d as nat), 2)
}

/// Floor division by a positive divisor.
fn floor_div(a: i64, b: i64) -> (q: i64)
    requires
        b > 0,
    ensures
        q == a / b,
{
    if a >= 0 {
        a / b
    } else {
        let n: i64 = -(a + 1);
        let q0: i64 = n / b;
        proof {
            let r0 = n % b;
            vstd::arithmetic::div_mod::lemma_fundamental_div_mod(n as int, b as int);
            assert(a == (-q0 - 1) * b + (b - r0 - 1)) by (nonlinear_arith)
                requires
                    n == b * q0 + r0,
                    a == -n - 1,
            ;
            vstd::arithmetic::div_mod::lemma_fundamental_div_mod_converse(
                a as int,
                b as int,
                -q0 - 1,
                b - r0 - 1,
            );
        }
        -q0 - 1
    }
}

proof fn lemma_month_day_ranges(doe: int)
    requires
        0 <= doe < 146097,
    ensures
        ({
            let yoe = (doe - doe / 1460 + doe / 36524 - doe / 146096) / 365;
            let doy = doe - (365 * yoe + yoe / 4 - yoe / 100);
            let mp = (5 * doy + 2) / 153;
            let d = doy - (153 * mp + 2) / 5 + 1;
            &&& 0 <= yoe < 400
            &&& 0 <= doy <= 365
            &&& 0 <= mp <= 11
            &&& 1 <= d <= 31
        }),
{
}

fn two_digits(n: u64) -> (r: Vec<char>)
    ensures
        r@ == zero_pad(dec(n as nat), 2),
{
    pad_zeros(decimal(n as u128), 2)
}

/// The `YYMMDD` text of the UTC day holding `unix_secs` (used in output
/// file names).
pub fn date_yymmdd(unix_secs: i64) -> (r: String)
    ensures
        r@ == yymmdd(unix_secs as int),
{
    let days = floor_div(unix_secs, 86400);
    let z: i64 = days + 719468;
    let era = floor_div(z, 146097);
    let doe: i64 = z - era * 146097;
    proof {
        lemma_month_day_ranges(doe as int);
    }
    let yoe: i64 = (doe - doe / 1460 + doe / 36524 - doe / 146096) / 365;
    let y: i64 = yoe + era * 400;
    let doy: i64 = doe - (365 * yoe + yoe / 4 - yoe / 100);
    let mp: i64 = (5 * doy + 2) / 153;
    let d: i64 = doy - (153 * mp + 2) / 5 + 1;
    let m: i64 = if mp < 10 {
        mp + 3
    } else {
        mp - 9
    };
    let year: i64 = if m <= 2 {
        y + 1
    } else {
        y
    };
    let yy = year - floor_div(year, 100) * 100;
    let mut v = two_digits(yy as u64);
    let mm = two_digits(m as u64);
    let dd = two_digits(d as u64);
    let ghost v0 = v@;
    let mut mm2 = mm;
    v.append(&mut mm2);
    let mut dd2 = dd;
    v.append(&mut dd2);
    string_of(v.as_slice())
}


/// Gregorian leap year.
pub open spec fn is_leap_year(y: int) -> bool {
    y % 4 == 0 && (y % 100 != 0 || y % 400 == 0)
}

/// Days in month `m` (1..=12) of year `y`.
pub open spec fn month_length(y: int, m: int) -> int {
    if m == 2 {
        if is_leap_year(y) {
            29
        } else {
            28
        }
    } else if m == 4 || m == 6 || m == 9 || m == 11 {
        30
    } else {
        31
    }
}

/// Days before month `m` in a common year.
pub open spec fn month_start(m: int) -> int {
    if m == 1 {
        0
    } else if m == 2 {
        31
    } else if m == 3 {
        59
    } else if m == 4 {
        90
    } else if m == 5 {
        120
    } else if m == 6 {
        151
    } else if m == 7 {
        181
    } else if m == 8 {
        212
    } else if m == 9 {
        243
    } else if m == 10 {
        273
    } else if m == 11 {
        304
    } else {
        334
    }
}

/// Days of year `y` before month `m`.
pub open spec fn days_before_month(y: int, m: int) -> int {
    month_start(m) + if m > 2 && is_leap_year(y) {
        1int
    } else {
        0int
    }
}

/// Leap years before year `y` (counted from year 1; the difference of two
/// such counts is the number of leap years between).
pub open spec fn leaps_before(y: int) -> int {
    (y - 1) / 4 - (y - 1) / 100 + (y - 1) / 400
}

/// The day number of the date `y-m-d`, counted from 1970-01-01 = 0.
pub open spec fn days_from_epoch(y: int, m: int, d: int) -> int {
    365 * (y - 1970) + leaps_before(y) - leaps_before(1970) + days_before_month(y, m) + d - 1
}

/// Days from 0000-03-01 to March 1 of year `y`.
pub open spec fn march_start(y: int) -> int {
    365 * y + y / 4 - y / 100 + y / 400
}

proof fn lemma_day_of_era(doe: int)
    requires
        0 <= doe < 146097,
    ensures
        ({
            let yoe = (doe - doe / 1460 + doe / 36524 - doe / 146096) / 365;
            let doy = doe - (365 * yoe + yoe / 4 - yoe / 100);
            let mp = (5 * doy + 2) / 153;
            let d = doy - (153 * mp + 2) / 5 + 1;
            let m = if mp < 10 {
                mp + 3
            } else {
                mp - 9
            };
            &&& 0 <= yoe < 400
            &&& 0 <= mp <= 11
            &&& 1 <= m <= 12
            &&& 1 <= d <= month_length(
                yoe + (if m <= 2 {
                    1int
                } else {
                    0int
                }),
                m,
            )
        }),
{
    let yoe = (doe - doe / 1460 + doe / 36524 - doe / 146096) / 365;
    let doy = doe - (365 * yoe + yoe / 4 - yoe / 100);
    assert(0 <= yoe < 400);
    assert(doy <= 364 + (if is_leap_year(yoe + 1) {
        1int
    } else {
        0int
    }));
}

proof fn lemma_era_start(era: int, k: int)
    requires
        0 <= k < 400,
    ensures
        march_start(400 * era + k) == 146097 * era + 365 * k + k / 4 - k / 100,
{
}

proof fn lemma_leap_period(era: int, k: int)
    ensures
        is_leap_year(400 * era + k) == is_leap_year(k),
{
}

proof fn lemma_step_div(y: int, q: int)
    requires
        q > 0,
    ensures
        y / q - (y - 1) / q == (if y % q == 0 {
            1int
        } else {
            0int
        }),
{
    assert(y / q - (y - 1) / q == (if y % q == 0 {
        1int
    } else {
        0int
    })) by (nonlinear_arith)
        requires
            q > 0,
    ;
}

proof fn lemma_leaps_step(y: int)
    ensures
        leaps_before(y) + (if is_leap_year(y) {
            1int
        } else {
            0int
        }) == y / 4 - y / 100 + y / 400,
{
    lemma_step_div(y, 4);
    lemma_step_div(y, 100);
    lemma_step_div(y, 400);
    assert(y % 100 == 0 ==> y % 4 == 0);
    assert(y % 400 == 0 ==> y % 100 == 0);
}

proof fn lemma_march_based(yp: int, mp: int, d: int)
    requires
        0 <= mp <= 11,
    ensures
        ({
            let m = if mp < 10 {
                mp + 3
            } else {
                mp - 9
            };
            let y = if m <= 2 {
                yp + 1
            } else {
                yp
            };
            days_from_epoch(y, m, d) + 719468 == march_start(yp) + (153 * mp + 2) / 5 + d - 1
        }),
{
    assert(leaps_before(1970) == 477);
    assert(leaps_before(yp + 1) == yp / 4 - yp / 100 + yp / 400);
    lemma_leaps_step(yp);
    let off = (153 * mp + 2) / 5;
    if mp == 0 {
        assert(off == 0);
    } else if mp == 1 {
        assert(off == 31);
    } else if mp == 2 {
        assert(off == 61);
    } else if mp == 3 {
        assert(off == 92);
    } else if mp == 4 {
        assert(off == 122);
    } else if mp == 5 {
        assert(off == 153);
    } else if mp == 6 {
        assert(off == 184);
    } else if mp == 7 {
        assert(off == 214);
    } else if mp == 8 {
        assert(off == 245);
    } else if mp == 9 {
        assert(off == 275);
    } else if mp == 10 {
        assert(off == 306);
    } else {
        assert(off == 337);
    }
}

/// `civil_from_days` gives the calendar date of the day: a real month, a
/// day within that month's length (leap years included), and the date's
/// day number from 1970-01-01 is the day given. So `date_yymmdd` names the
/// UTC day of its timestamp.
pub proof fn law_civil_date_is_the_day(days: int)
    ensures
        ({
            let (y, m, d) = civil_from_days(days);
            &&& 1 <= m <= 12
            &&& 1 <= d <= month_length(y, m)
            &&& days_from_epoch(y, m, d) == days
        }),
{
    let z = days + 719468;
    let era = z / 146097;
    let doe = z - era * 146097;
    assert(0 <= doe < 146097);
    lemma_day_of_era(doe);
    let yoe = (doe - doe / 1460 + doe / 36524 - doe / 146096) / 365;
    let doy = doe - (365 * yoe + yoe / 4 - yoe / 100);
    let mp = (5 * doy + 2) / 153;
    let d = doy - (153 * mp + 2) / 5 + 1;
    lemma_era_start(era, yoe);
    lemma_leap_period(era, yoe + 1);
    lemma_march_based(yoe + era * 400, mp, d);
}

} // verus!
