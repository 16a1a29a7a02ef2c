//! The proleptic Gregorian calendar: days since 1970-01-01 and dates.

use vstd::arithmetic::div_mod::*;
use vstd::prelude::*;

verus! {

/// Whether `y` has a 29 February.
pub open spec fn is_leap(y: int) -> bool {
    y % 4 == 0 && (y % 100 != 0 || y % 400 == 0)
}

/// The leap days in the years before `y`, counted from year 1.
pub open spec fn leaps_before(y: int) -> int {
    (y - 1) / 4 - (y - 1) / 100 + (y - 1) / 400
}

/// The days from 1970-01-01 to the first day of year `y`.
pub open spec fn year_start(y: int) -> int {
    365 * (y - 1970) + leaps_before(y) - leaps_before(1970)
}

/// The length of a month.
pub open spec fn month_days(y: int, m: int) -> int {
    if m == 2 {
        if is_leap(y) {
            29
        } else {
            28
        }
    } else if m == 4 || m == 6 || m == 9 || m == 11 {
        30
    } else {
        31
    }
}

/// The days of year `y` before month `m`.
pub open spec fn days_before_month(y: int, m: int) -> int
    decreases m,
{
    if m <= 1 {
        0
    } else {
        days_before_month(y, m - 1) + month_days(y, m - 1)
    }
}

/// Whether there is such a date.
pub open spec fn is_date(y: int, m: int, d: int) -> bool {
    1 <= m <= 12 && 1 <= d <= month_days(y, m)
}

/// The days from 1970-01-01 to a date.
pub open spec fn day_number(y: int, m: int, d: int) -> int {
    year_start(y) + days_before_month(y, m) + d - 1
}

/// The date that lies `z` days after 1970-01-01.
pub open spec fn civil(z: int) -> (int, int, int) {
    choose|t: (int, int, int)| is_date(t.0, t.1, t.2) && #[trigger] day_number(t.0, t.1, t.2) == z
}

proof fn month_table(y: int)
    ensures
        days_before_month(y, 1) == 0,
        days_before_month(y, 2) == 31,
        forall|m: int| 3 <= m <= 13 ==> #[trigger] days_before_month(y, m) == days_before_month(
            2001,
            m,
        ) + if is_leap(y) {
            1int
        } else {
            0int
        },
        days_before_month(2001, 3) == 59,
        days_before_month(2001, 4) == 90,
        days_before_month(2001, 5) == 120,
        days_before_month(2001, 6) == 151,
        days_before_month(2001, 7) == 181,
        days_before_month(2001, 8) == 212,
        days_before_month(2001, 9) == 243,
        days_before_month(2001, 10) == 273,
        days_before_month(2001, 11) == 304,
        days_before_month(2001, 12) == 334,
        days_before_month(2001, 13) == 365,
{
    reveal_with_fuel(days_before_month, 14);
}

proof fn div_step(y: int, k: int)
    requires
        k > 0,
    ensures
        y / k == (y - 1) / k + if y % k == 0 {
            1int
        } else {
            0int
        },
{
    lemma_fundamental_div_mod(y, k);
    let q = y / k;
    let r = y % k;
    if r == 0 {
        assert(y - 1 == (q - 1) * k + (k - 1)) by (nonlinear_arith)
            requires
                y == k * q,
        ;
        lemma_fundamental_div_mod_converse(y - 1, k, q - 1, k - 1);
    } else {
        assert(y - 1 == q * k + (r - 1)) by (nonlinear_arith)
            requires
                y == k * q + r,
        ;
        lemma_fundamental_div_mod_converse(y - 1, k, q, r - 1);
    }
}

proof fn year_lengths(y: int)
    ensures
        year_start(y + 1) == year_start(y) + 365 + if is_leap(y) {
            1int
        } else {
            0int
        },
{
    div_step(y, 4);
    div_step(y, 100);
    div_step(y, 400);
    assert(y % 400 == 0 ==> y % 100 == 0);
    assert(y % 100 == 0 ==> y % 4 == 0);
}

proof fn years_grow(a: int, b: int)
    requires
        a <= b,
    ensures
        year_start(a) + 365 * (b - a) <= year_start(b),
    decreases b - a,
{
    if a < b {
        years_grow(a, b - 1);
        year_lengths(b - 1);
    }
}

proof fn date_in_year(y: int, m: int, d: int)
    requires
        is_date(y, m, d),
    ensures
        year_start(y) <= day_number(y, m, d) < year_start(y + 1),
        days_before_month(y, m) <= day_number(y, m, d) - year_start(y) < days_before_month(
            y,
            m + 1,
        ),
{
    month_table(y);
    year_lengths(y);
}

/// No two dates have the same day number.
pub proof fn day_number_is_injective(a: (int, int, int), b: (int, int, int))
    requires
        is_date(a.0, a.1, a.2),
        is_date(b.0, b.1, b.2),
        day_number(a.0, a.1, a.2) == day_number(b.0, b.1, b.2),
    ensures
        a == b,
{
    date_in_year(a.0, a.1, a.2);
    date_in_year(b.0, b.1, b.2);
    if a.0 < b.0 {
        years_grow(a.0 + 1, b.0);
    }
    if b.0 < a.0 {
        years_grow(b.0 + 1, a.0);
    }
    month_table(a.0);
}

/// A date is the one its day number stands for.
pub proof fn civil_undoes_day_number(y: int, m: int, d: int)
    requires
        is_date(y, m, d),
    ensures
        civil(day_number(y, m, d)) == (y, m, d),
{
    let z = day_number(y, m, d);
    let t = (y, m, d);
    assert(is_date(t.0, t.1, t.2) && day_number(t.0, t.1, t.2) == z);
    let c = civil(z);
    assert(is_date(c.0, c.1, c.2) && day_number(c.0, c.1, c.2) == z);
    day_number_is_injective(c, t);
}

/// The day in the 400-year cycle that begins on 1 March splits into a year of
/// the cycle and a day of that year.
proof fn year_of_cycle(doe: int)
    requires
        0 <= doe <= 146_096,
    ensures
        ({
            let yoe = (doe - doe / 1460 + doe / 36_524 - doe / 146_096) / 365;
            let doy = doe - (365 * yoe + yoe / 4 - yoe / 100);
            &&& 0 <= yoe <= 399
            &&& 0 <= doy <= 365
            &&& doy == 365 ==> is_leap(yoe + 1)
        }),
{
    let c = doe / 36_524;
    let q = doe / 1460;
    assert(0 <= c <= 4);
    assert(0 <= q <= 100);
    let yoe = (doe - doe / 1460 + doe / 36_524 - doe / 146_096) / 365;
    assert(0 <= yoe <= 399);
}

proof fn cycles(y: int, era: int)
    ensures
        leaps_before(y + 400 * era) == leaps_before(y) + 97 * era,
        is_leap(y + 400 * era) == is_leap(y),
{
    lemma_hoist_over_denominator(y - 1, 100 * era, 4);
    lemma_hoist_over_denominator(y - 1, 4 * era, 100);
    lemma_hoist_over_denominator(y - 1, era, 400);
    lemma_mod_multiples_vanish(100 * era, y, 4);
    lemma_mod_multiples_vanish(4 * era, y, 100);
    lemma_mod_multiples_vanish(era, y, 400);
}

/// A day counted from 1 March splits into a month counted from March and a day
/// of that month.
proof fn month_of_year(doy: int)
    requires
        0 <= doy <= 365,
    ensures
        ({
            let mp = (5 * doy + 2) / 153;
            let d = doy - (153 * mp + 2) / 5 + 1;
            &&& 0 <= mp <= 11
            &&& 1 <= d <= 31
            &&& mp < 10 ==> d <= month_days(2001, mp + 3) && days_before_month(2001, mp + 3) + d - 1
                == doy + 59
            &&& mp == 10 ==> days_before_month(2001, 1) + d - 1 == doy - 306
            &&& mp == 11 ==> d <= 29 && days_before_month(2001, 2) + d - 1 == doy - 306 && (d == 29
                ==> doy == 365)
        }),
{
    month_table(2001);
    let mp = (5 * doy + 2) / 153;
    assert(mp == 0 || mp == 1 || mp == 2 || mp == 3 || mp == 4 || mp == 5 || mp == 6 || mp == 7 || mp
        == 8 || mp == 9 || mp == 10 || mp == 11);
}

/// The day number of a date given by its cycle, year of the cycle, month from
/// March and day.
proof fn day_in_cycle(era: int, yoe: int, doy: int, m: int, d: int)
    requires
        0 <= yoe <= 399,
        0 <= doy <= 365,
        doy == 365 ==> is_leap(yoe + 1),
        m == (if (5 * doy + 2) / 153 < 10 {
            (5 * doy + 2) / 153 + 3
        } else {
            (5 * doy + 2) / 153 - 9
        }),
        d == doy - (153 * ((5 * doy + 2) / 153) + 2) / 5 + 1,
    ensures
        ({
            let y = yoe + 400 * era + if m <= 2 {
                1int
            } else {
                0int
            };
            &&& is_date(y, m, d)
            &&& day_number(y, m, d) == 365 * yoe + yoe / 4 - yoe / 100 + doy + era * 146_097
                - 719_468
        }),
{
    month_of_year(doy);
    let y = yoe + 400 * era + if m <= 2 {
        1int
    } else {
        0int
    };
    month_table(y);
    month_table(2001);
    cycles(yoe, era);
    cycles(yoe + 1, era);
    if m >= 3 {
        assert(leaps_before(yoe) + (if is_leap(yoe) {
            1int
        } else {
            0int
        }) == yoe / 4 - yoe / 100) by {
            year_lengths(yoe);
        }
    } else {
        assert(leaps_before(yoe + 1) == yoe / 4 - yoe / 100);
    }
}

/// Days since 1970-01-01 to year, month and day.
pub fn civil_from_days(z: i64) -> (r: (i64, u32, u32))
    requires
        z <= i64::MAX - 719_468,
    ensures
        is_date(r.0 as int, r.1 as int, r.2 as int),
        day_number(r.0 as int, r.1 as int, r.2 as int) == z,
        civil(z as int) == (r.0 as int, r.1 as int, r.2 as int),
{
    let z1: i64 = z + 719_468;
    let era: i64 = if z1 >= 0 {
        z1 / 146_097
    } else {
        -((-(z1 + 1)) / 146_097) - 1
    };
    assert(0 <= z1 - era * 146_097 <= 146_096);
    let doe: i64 = z1 - era * 146_097;
    proof {
        year_of_cycle(doe as int);
    }
    let yoe: i64 = (doe - doe / 1460 + doe / 36_524 - doe / 146_096) / 365;
    let y: i64 = yoe + era * 400;
    let doy: i64 = doe - (365 * yoe + yoe / 4 - yoe / 100);
    proof {
        month_of_year(doy as int);
    }
    let mp: i64 = (5 * doy + 2) / 153;
    let d: i64 = doy - (153 * mp + 2) / 5 + 1;
    let m: i64 = if mp < 10 {
        mp + 3
    } else {
        mp - 9
    };
    let year: i64 = if m <= 2 {
        y + 1
    } else {
        y
    };
    proof {
        day_in_cycle(era as int, yoe as int, doy as int, m as int, d as int);
        civil_undoes_day_number(year as int, m as int, d as int);
    }
    (year, m as u32, d as u32)
}

/// The days from 1970-01-01 to the day `d` of month `m`, counted in years and
/// months that begin in March; it also counts on for a month or a day that the
/// calendar does not have.
pub open spec fn march_count(y: int, m: int, d: int) -> int {
    let a = if m <= 2 {
        y - 1
    } else {
        y
    };
    let mp = if m > 2 {
        m - 3
    } else {
        m + 9
    };
    365 * a + a / 4 - a / 100 + a / 400 + (153 * mp + 2) / 5 + d - 1 - 719_468
}

/// Counting from March gives the day number of every date.
pub proof fn march_count_is_day_number(y: int, m: int, d: int)
    requires
        is_date(y, m, d),
    ensures
        march_count(y, m, d) == day_number(y, m, d),
{
    month_table(y);
    if m > 2 {
        year_lengths(y);
        assert(m == 3 || m == 4 || m == 5 || m == 6 || m == 7 || m == 8 || m == 9 || m == 10 || m
            == 11 || m == 12);
    }
}

/// Counting the days of a date and asking for the date of that count gives the
/// date back.
pub proof fn date_round_trip(y: int, m: int, d: int)
    requires
        is_date(y, m, d),
    ensures
        civil(march_count(y, m, d)) == (y, m, d),
{
    march_count_is_day_number(y, m, d);
    civil_undoes_day_number(y, m, d);
}

/// See the spec function `march_count`.
pub fn count_days(y: i64, m: u32, d: u32) -> (r: i128)
    ensures
        r == march_count(y as int, m as int, d as int),
        -0x1000_0000_0000_0000_0000 <= r <= 0x1000_0000_0000_0000_0000,
{
    let a: i128 = if m <= 2 {
        y as i128 - 1
    } else {
        y as i128
    };
    let era: i128 = if a >= 0 {
        a / 400
    } else {
        -((-(a + 1)) / 400) - 1
    };
    let yoe: i128 = a - era * 400;
    assert(0 <= yoe <= 399);
    let mp: i128 = if m > 2 {
        m as i128 - 3
    } else {
        m as i128 + 9
    };
    let doy: i128 = (153 * mp + 2) / 5 + d as i128 - 1;
    let doe: i128 = yoe * 365 + yoe / 4 - yoe / 100 + doy;
    proof {
        assert(a as int / 400 == era);
        assert(a as int / 100 == yoe as int / 100 + 4 * era);
        assert(a as int / 4 == yoe as int / 4 + 100 * era);
    }
    era * 146_097 + doe - 719_468
}

/// Year, month and day to days since 1970-01-01.
pub fn days_from_civil(y: i64, m: u32, d: u32) -> (r: i64)
    requires
        i64::MIN <= march_count(y as int, m as int, d as int) <= i64::MAX,
    ensures
        r == march_count(y as int, m as int, d as int),
        is_date(y as int, m as int, d as int) ==> r == day_number(y as int, m as int, d as int),
{
    proof {
        if is_date(y as int, m as int, d as int) {
            march_count_is_day_number(y as int, m as int, d as int);
        }
    }
    count_days(y, m, d) as i64
}

/// A year is a leap year if it is a multiple of 4 but not of 100, or of 400;
/// the months have the lengths that everyone knows.
pub proof fn months_have_their_lengths(y: int, m: int)
    requires
        1 <= m <= 12,
    ensures
        month_days(y, m) == 31 <==> m == 1 || m == 3 || m == 5 || m == 7 || m == 8 || m == 10 || m
            == 12,
        month_days(y, m) == 30 <==> m == 4 || m == 6 || m == 9 || m == 11,
        month_days(y, m) == 29 <==> m == 2 && y % 4 == 0 && (y % 100 != 0 || y % 400 == 0),
        month_days(y, m) == 28 <==> m == 2 && (y % 4 != 0 || (y % 100 == 0 && y % 400 != 0)),
{
}

/// The days are counted from 1970-01-01, and each day has the number behind
/// that of the day before it, across the ends of months and years.
pub proof fn days_follow_each_other(y: int, m: int, d: int)
    requires
        is_date(y, m, d),
    ensures
        day_number(1970, 1, 1) == 0,
        is_date(y, m, d + 1) ==> day_number(y, m, d + 1) == day_number(y, m, d) + 1,
        !is_date(y, m, d + 1) && m < 12 ==> day_number(y, m + 1, 1) == day_number(y, m, d) + 1,
        !is_date(y, m, d + 1) && m == 12 ==> day_number(y + 1, 1, 1) == day_number(y, m, d) + 1,
{
    month_table(y);
    month_table(y + 1);
    month_table(1970);
    year_lengths(y);
    assert(days_before_month(2001, 13) == 365) by {
        reveal_with_fuel(days_before_month, 13);
    }
    assert(days_before_month(y, m + 1) == days_before_month(y, m) + month_days(y, m));
}

} // verus!
