//! Conversions between a day count since the Unix epoch (1970-01-01) and
//! a proleptic Gregorian civil date (year, month, day), after Howard
//! Hinnant's well-known algorithms: 400-year eras of 146097 days, each
//! counted from March 1 so that the leap day falls at the end of a year.

use vstd::prelude::*;

verus! {

/// Days from 0000-03-01 to 1970-01-01.
pub const EPOCH_SHIFT: i64 = 719468;
/// Days in one 400-year era.
pub const DAYS_PER_ERA: i64 = 146097;

/// The month counted from March (March is 0, February is 11).
pub open spec fn month_from_march(m: int) -> int {
    if m > 2 { m - 3 } else { m + 9 }
}

/// The day of the year (from March 1) on which month `mp` (counted from
/// March) begins.
pub open spec fn month_start(mp: int) -> int {
    (153 * mp + 2) / 5
}

/// Days from the start of an era to the start of its year `yoe`.
pub open spec fn year_start(yoe: int) -> int {
    365 * yoe + yoe / 4 - yoe / 100
}

/// Days since 1970-01-01 of the civil date `y`-`m`-`d`.
pub open spec fn spec_days_from_civil(y: int, m: int, d: int) -> int {
    let y = if m <= 2 { y - 1 } else { y };
    let era = y / 400;
    let yoe = y - era * 400;
    let doy = month_start(month_from_march(m)) + d - 1;
    era * 146097 + year_start(yoe) + doy - 719468
}

/// The year of its era on which day `doe` of the era falls.
pub open spec fn year_of_era(doe: int) -> int {
    (doe - doe / 1460 + doe / 36524 - doe / 146096) / 365
}

/// The civil date (year, month, day) of the day `z` days after 1970-01-01.
pub open spec fn spec_civil_from_days(z: int) -> (int, int, int) {
    let z = z + 719468;
    let era = z / 146097;
    let doe = z - era * 146097;
    let yoe = year_of_era(doe);
    let y = yoe + era * 400;
    let doy = doe - year_start(yoe);
    let mp = (5 * doy + 2) / 153;
    let d = doy - month_start(mp) + 1;
    let m = if mp < 10 { mp + 3 } else { mp - 9 };
    (if m <= 2 { y + 1 } else { y }, m, d)
}

proof fn lemma_year_of_era_bounds(doe: int)
    requires
        0 <= doe < 146097,
    ensures
        0 <= year_of_era(doe) < 400,
        year_start(year_of_era(doe)) <= doe,
        doe - year_start(year_of_era(doe)) < 366,
{
    let a = doe / 1460;
    let b = doe / 36524;
    let c = doe / 146096;
    assert(0 <= a <= 100);
    assert(0 <= b <= 4);
    assert(0 <= c <= 1);
    assert(a * 1460 <= doe < a * 1460 + 1460);
    assert(b * 36524 <= doe < b * 36524 + 36524);
    assert(c * 146096 <= doe);
    assert(c == 1 ==> doe == 146096);
    let n = doe - a + b - c;
    let yoe = n / 365;
    assert(yoe * 365 <= n < yoe * 365 + 365);
    assert(0 <= yoe < 400);
    let q = yoe / 4;
    let h = yoe / 100;
    assert(q * 4 <= yoe < q * 4 + 4);
    assert(h * 100 <= yoe < h * 100 + 100);
    assert(year_start(yoe) == 365 * yoe + q - h);
    assert(365 * yoe + q - h <= doe) by (nonlinear_arith)
        requires
            yoe * 365 <= n,
            n == doe - a + b - c,
            a * 1460 <= doe < a * 1460 + 1460,
            b * 36524 <= doe < b * 36524 + 36524,
            c * 146096 <= doe,
            q * 4 <= yoe < q * 4 + 4,
            h * 100 <= yoe < h * 100 + 100,
            0 <= yoe < 400,
            0 <= doe < 146097,
            0 <= c <= 1,
    ;
    assert(doe - (365 * yoe + q - h) < 366) by (nonlinear_arith)
        requires
            n < yoe * 365 + 365,
            n == doe - a + b - c,
            a * 1460 <= doe < a * 1460 + 1460,
            b * 36524 <= doe < b * 36524 + 36524,
            c * 146096 <= doe,
            c == 1 ==> doe == 146096,
            q * 4 <= yoe < q * 4 + 4,
            h * 100 <= yoe < h * 100 + 100,
            0 <= yoe < 400,
            0 <= doe < 146097,
            0 <= c <= 1,
    ;
}

/// Days from 1970-01-01 to the civil date of day `z` is `z` again: the two
/// conversions undo each other in this direction for every day count.
pub proof fn lemma_days_from_civil_of_civil(z: int)
    ensures
        ({
            let (y, m, d) = spec_civil_from_days(z);
            spec_days_from_civil(y, m, d) == z
        }),
        1 <= spec_civil_from_days(z).1 <= 12,
        1 <= spec_civil_from_days(z).2 <= 31,
{
    let zz = z + 719468;
    let era = zz / 146097;
    let doe = zz - era * 146097;
    assert(0 <= doe < 146097);
    lemma_year_of_era_bounds(doe);
    let yoe = year_of_era(doe);
    let y = yoe + era * 400;
    let doy = doe - year_start(yoe);
    assert(0 <= doy < 366);
    let mp = (5 * doy + 2) / 153;
    assert(0 <= mp <= 11);
    assert(mp * 153 <= 5 * doy + 2 < mp * 153 + 153);
    let ms = month_start(mp);
    assert(ms * 5 <= 153 * mp + 2 < ms * 5 + 5);
    assert(ms <= doy) by (nonlinear_arith)
        requires
            mp * 153 <= 5 * doy + 2,
            ms * 5 <= 153 * mp + 2,
    ;
    assert(doy - ms < 31) by (nonlinear_arith)
        requires
            5 * doy + 2 < mp * 153 + 153,
            153 * mp + 2 < ms * 5 + 5,
    ;
    let (yy, m, d) = spec_civil_from_days(z);
    assert(m == (if mp < 10 { mp + 3 } else { mp - 9 }));
    assert(month_from_march(m) == mp);
    let y2 = if m <= 2 { yy - 1 } else { yy };
    assert(y2 == y);
    assert(y / 400 == era) by (nonlinear_arith)
        requires
            y == yoe + era * 400,
            0 <= yoe < 400,
    ;
    assert(y - (y / 400) * 400 == yoe);
}


/// Whether `y` is a leap year of the proleptic Gregorian calendar.
pub open spec fn is_leap_year(y: int) -> bool {
    (y % 4 == 0 && y % 100 != 0) || y % 400 == 0
}

/// The number of days in month `m` (1 for January) of year `y`.
pub open spec fn days_in_month(y: int, m: int) -> int {
    if m == 2 {
        if is_leap_year(y) { 29 } else { 28 }
    } else if m == 4 || m == 6 || m == 9 || m == 11 {
        30
    } else {
        31
    }
}

/// Whether (`y`, `m`, `d`) names a day of the proleptic Gregorian calendar.
pub open spec fn is_valid_date(y: int, m: int, d: int) -> bool {
    1 <= m <= 12 && 1 <= d <= days_in_month(y, m)
}

/// The number of days in year `yoe` of an era, a year that runs from
/// March 1 to the end of the February that follows it.
spec fn era_year_len(yoe: int) -> int {
    if is_leap_year(yoe + 1) { 366 } else { 365 }
}

/// Day `r` of era year `yoe` is mapped back to `yoe` by `year_of_era`.
proof fn lemma_year_of_era_exact(yoe: int, r: int)
    requires
        0 <= yoe < 400,
        0 <= r < era_year_len(yoe),
    ensures
        year_of_era(year_start(yoe) + r) == yoe,
        0 <= year_start(yoe) + r < 146097,
{
    let q = yoe / 4;
    let h = yoe / 100;
    assert(4 * q <= yoe < 4 * q + 4);
    assert(100 * h <= yoe < 100 * h + 100);
    let s = yoe - 4 * q;
    let k = yoe - 100 * h;
    let k4 = k / 4;
    assert(4 * k4 <= k < 4 * k4 + 4);
    assert(q == 25 * h + k4);
    assert(0 <= h <= 3);
    if s != 3 {
        vstd::arithmetic::div_mod::lemma_fundamental_div_mod_converse(yoe + 1, 4, q, s + 1);
        assert(!is_leap_year(yoe + 1));
    }
    if k == 99 && yoe != 399 {
        vstd::arithmetic::div_mod::lemma_fundamental_div_mod_converse(yoe + 1, 100, h + 1, 0);
        vstd::arithmetic::div_mod::lemma_fundamental_div_mod_converse(yoe + 1, 400, 0, yoe + 1);
        assert(!is_leap_year(yoe + 1));
    }
    assert(r <= 365);
    assert(r == 365 ==> s == 3);
    assert(k == 99 && r == 365 ==> yoe == 399);
    let doe = year_start(yoe) + r;
    assert(doe == 365 * yoe + q - h + r);
    assert(doe == 36524 * h + 365 * k + k4 + r);
    let a = doe / 1460;
    let b = doe / 36524;
    let c = doe / 146096;
    let t = 365 * s + q - h + r;
    assert(doe == 1460 * q + t);
    assert(0 <= t < 2920);
    assert(a == (if t >= 1460 { q + 1 } else { q })) by {
        vstd::arithmetic::div_mod::lemma_fundamental_div_mod_converse(
            doe,
            1460,
            if t >= 1460 { q + 1 } else { q },
            if t >= 1460 { t - 1460 } else { t },
        );
    }
    if doe == 146096 {
        assert(b == 4 && c == 1 && a == 100);
    } else {
        let u = 365 * k + k4 + r;
        assert(0 <= u < 36524);
        vstd::arithmetic::div_mod::lemma_fundamental_div_mod_converse(doe, 36524, h, u);
        assert(b == h);
        assert(c == 0);
        assert(t >= 1460 ==> r >= 1);
    }
    let n = doe - a + b - c;
    assert(365 * yoe <= n < 365 * yoe + 365);
    vstd::arithmetic::div_mod::lemma_fundamental_div_mod_converse(n, 365, yoe, n - 365 * yoe);
}

/// The civil date of the day count of a valid date is that date again:
/// `civil_from_days` undoes `days_from_civil` on every day of the
/// proleptic Gregorian calendar.
pub proof fn lemma_civil_of_days_from_civil(y: int, m: int, d: int)
    requires
        is_valid_date(y, m, d),
    ensures
        spec_civil_from_days(spec_days_from_civil(y, m, d)) == (y, m, d),
{
    let y1 = if m <= 2 { y - 1 } else { y };
    let era = y1 / 400;
    let yoe = y1 - era * 400;
    assert(era * 400 <= y1 < era * 400 + 400);
    assert(0 <= yoe < 400);
    let mp = month_from_march(m);
    let doy = month_start(mp) + d - 1;
    if m == 2 {
        vstd::arithmetic::div_mod::lemma_mod_multiples_vanish(era * 100, yoe + 1, 4);
        vstd::arithmetic::div_mod::lemma_mod_multiples_vanish(era * 4, yoe + 1, 100);
        vstd::arithmetic::div_mod::lemma_mod_multiples_vanish(era, yoe + 1, 400);
        assert(y == 400 * era + (yoe + 1));
        assert(is_leap_year(y) == is_leap_year(yoe + 1));
    }
    assert(0 <= doy < era_year_len(yoe));
    let doe = year_start(yoe) + doy;
    lemma_year_of_era_exact(yoe, doy);
    let z = spec_days_from_civil(y, m, d);
    assert(z + 719468 == era * 146097 + doe);
    vstd::arithmetic::div_mod::lemma_fundamental_div_mod_converse(z + 719468, 146097, era, doe);
    assert((5 * doy + 2) / 153 == mp);
    assert(doy - month_start(mp) + 1 == d);
}

/// `floor(a / b)` for a positive divisor, without signed division.
fn floor_div(a: i64, b: i64) -> (q: i64)
    requires
        b > 0,
        a > i64::MIN + b,
    ensures
        q == a / b,
{
    if a >= 0 {
        a / b
    } else {
        let n: i64 = b - 1 - a;
        let t: i64 = n / b;
        proof {
            assert(t * b <= n < t * b + b) by (nonlinear_arith)
                requires t == n / b, b > 0, n >= 0;
            assert(-t * b <= a < -t * b + b) by (nonlinear_arith)
                requires t * b <= n < t * b + b, n == b - 1 - a;
            assert(a / b == -t) by (nonlinear_arith)
                requires -t * b <= a < -t * b + b, b > 0;
        }
        -t
    }
}

/// Converts a day count since 1970-01-01 to the civil date
/// (year, month, day) it falls on.
pub fn civil_from_days(z: i64) -> (r: (i64, u32, u32))
    requires
        z <= i64::MAX - EPOCH_SHIFT,
    ensures
        (r.0 as int, r.1 as int, r.2 as int) == spec_civil_from_days(z as int),
        spec_days_from_civil(r.0 as int, r.1 as int, r.2 as int) == z,
        1 <= r.1 <= 12,
        1 <= r.2 <= 31,
{
    proof {
        lemma_days_from_civil_of_civil(z as int);
    }
    let zz: i64 = z + EPOCH_SHIFT;
    let era: i64 = floor_div(zz, DAYS_PER_ERA);
    proof {
        assert(era * 146097 <= zz < era * 146097 + 146097) by (nonlinear_arith)
            requires era == zz / 146097;
    }
    let doe: u64 = (zz - era * DAYS_PER_ERA) as u64;
    proof {
        lemma_year_of_era_bounds(doe as int);
    }
    let yoe: u64 = (doe - doe / 1460 + doe / 36524 - doe / 146096) / 365;
    let y: i64 = yoe as i64 + era * 400;
    let doy: u64 = doe - (365 * yoe + yoe / 4 - yoe / 100);
    let mp: u64 = (5 * doy + 2) / 153;
    proof {
        assert(mp * 153 <= 5 * doy + 2) by (nonlinear_arith)
            requires mp == (5 * doy + 2) / 153;
        assert((153 * mp + 2) / 5 <= doy) by (nonlinear_arith)
            requires mp * 153 <= 5 * doy + 2;
        assert(mp <= 11);
    }
    let d: u32 = (doy - (153 * mp + 2) / 5 + 1) as u32;
    let m: u32 = if mp < 10 { (mp + 3) as u32 } else { (mp - 9) as u32 };
    let year: i64 = if m <= 2 { y + 1 } else { y };
    (year, m, d)
}

/// Days since 1970-01-01 of the civil date `y`-`m`-`d` (with `m` counted
/// from 1 for January).
pub fn days_from_civil(y: i64, m: u32, d: u32) -> (r: i64)
    requires
        -0x40_0000_0000_0000 <= y <= 0x40_0000_0000_0000,
        !(m == 3 && d == 0),
    ensures
        r == spec_days_from_civil(y as int, m as int, d as int),
{
    let y: i64 = if m <= 2 { y - 1 } else { y };
    let era: i64 = floor_div(y, 400);
    proof {
        assert(era * 400 <= y < era * 400 + 400) by (nonlinear_arith)
            requires era == y / 400;
        assert(-0x40_0000_0000_0000int / 400 - 1 <= era <= 0x40_0000_0000_0000int / 400) by (nonlinear_arith)
            requires era * 400 <= y < era * 400 + 400, -0x40_0000_0000_0001int <= y <= 0x40_0000_0000_0000int;
    }
    let yoe: u64 = (y - era * 400) as u64;
    let mp: u64 = if m > 2 { (m - 3) as u64 } else { (m + 9) as u64 };
    proof {
        assert(mp == month_from_march(m as int));
        assert(mp > 0 || d > 0);
        assert((153 * mp + 2) / 5 + d >= 1);
    }
    let doy: u64 = (153 * mp + 2) / 5 + d as u64 - 1;
    let doe: u64 = yoe * 365 + yoe / 4 - yoe / 100 + doy;
    era * DAYS_PER_ERA + doe as i64 - EPOCH_SHIFT
}


/// A coarse bound on the day count of a date with a small year.
pub proof fn lemma_days_from_civil_bounds(y: int, m: int, d: int)
    requires
        -1_000_000 <= y <= 1_000_000,
        0 <= m <= 255,
        0 <= d <= 255,
    ensures
        -1_000_000_000 <= spec_days_from_civil(y, m, d) <= 1_000_000_000,
{
    let y1 = if m <= 2 { y - 1 } else { y };
    let era = y1 / 400;
    assert(era * 400 <= y1 < era * 400 + 400);
    assert(-2502 <= era <= 2500);
    let yoe = y1 - era * 400;
    assert(0 <= yoe < 400);
    assert(0 <= year_start(yoe) <= 146097);
    let mp = month_from_march(m);
    assert(0 <= mp <= 264);
    assert(0 <= month_start(mp) <= 8080);
    assert(-2502 * 146097 <= era * 146097 <= 2500 * 146097) by (nonlinear_arith)
        requires -2502 <= era <= 2500;
}

} // verus!
