//! The proleptic Gregorian calendar: the number of days from 1 January 1970 to
//! a date.

use vstd::prelude::*;

verus! {

/// A year with a 29 February.
pub open spec fn is_leap_year(y: int) -> bool {
    y % 4 == 0 && (y % 100 != 0 || y % 400 == 0)
}

/// The number of days of a year.
pub open spec fn year_length(y: int) -> int {
    if is_leap_year(y) {
        366
    } else {
        365
    }
}

/// The number of days of a month.
pub open spec fn month_length(y: int, m: int) -> int {
    if m == 2 {
        if is_leap_year(y) {
            29
        } else {
            28
        }
    } else if m == 4 || m == 6 || m == 9 || m == 11 {
        30
    } else {
        31
    }
}

/// The date exists in the calendar.
pub open spec fn is_calendar_date(y: int, m: int, d: int) -> bool {
    1 <= m <= 12 && 1 <= d <= month_length(y, m)
}

/// The number of days from 1 January 1970 to 1 January of a year.
pub open spec fn year_start(y: int) -> int
    decreases (if y < 1970 {
        1970 - y
    } else {
        y - 1970
    }),
{
    if y == 1970 {
        0
    } else if y > 1970 {
        year_start(y - 1) + year_length(y - 1)
    } else {
        year_start(y + 1) - year_length(y)
    }
}

/// The number of days of a year before the given month.
pub open spec fn days_before_month(y: int, m: int) -> int
    decreases m,
{
    if m <= 1 {
        0
    } else {
        days_before_month(y, m - 1) + month_length(y, m - 1)
    }
}

/// The number of days from 1 January 1970 to a date.
pub open spec fn days_from_epoch(y: int, m: int, d: int) -> int {
    year_start(y) + days_before_month(y, m) + d - 1
}

/// The date after a date.
pub open spec fn next_date(y: int, m: int, d: int) -> (int, int, int) {
    if d < month_length(y, m) {
        (y, m, d + 1)
    } else if m < 12 {
        (y, m + 1, 1)
    } else {
        (y + 1, 1, 1)
    }
}

/// Division that rounds towards zero.
pub open spec fn quotient(a: int, b: int) -> int {
    if a >= 0 {
        a / b
    } else {
        -((-a) / b)
    }
}

/// 1 for January and February, 0 for the months from March on.
pub open spec fn year_shift(m: int) -> int {
    quotient(14 - m, 12)
}

/// The year counted from March -4800.
pub open spec fn shifted_year(y: int, m: int) -> int {
    y + 4800 - year_shift(m)
}

/// The month counted from March.
pub open spec fn shifted_month(m: int) -> int {
    m + 12 * year_shift(m) - 3
}

/// The Julian day number formula, counted from 1 January 1970. It takes any
/// numbers; what it says of a date that exists is `law_epoch_days`.
pub open spec fn epoch_days(y: int, m: int, d: int) -> int {
    let y2 = shifted_year(y, m);
    d + quotient(153 * shifted_month(m) + 2, 5) + 365 * y2 + quotient(y2, 4) - quotient(y2, 100)
        + quotient(y2, 400) - 32045 - 2440588
}

/// A number that an `i64` holds.
pub open spec fn fits(n: int) -> bool {
    i64::MIN <= n <= i64::MAX
}

/// No step of the formula leaves the range of an `i64`.
pub open spec fn epoch_days_fits(y: int, m: int, d: int) -> bool {
    let y2 = shifted_year(y, m);
    let days = d + quotient(153 * shifted_month(m) + 2, 5);
    let with_years = days + 365 * y2;
    &&& fits(14 - m)
    &&& fits(y + 4800)
    &&& fits(y2)
    &&& fits(days)
    &&& fits(365 * y2)
    &&& fits(with_years)
    &&& fits(with_years + quotient(y2, 4))
    &&& fits(with_years + quotient(y2, 4) - quotient(y2, 100))
    &&& fits(with_years + quotient(y2, 4) - quotient(y2, 100) + quotient(y2, 400))
    &&& fits(with_years + quotient(y2, 4) - quotient(y2, 100) + quotient(y2, 400) - 32045)
    &&& fits(epoch_days(y, m, d))
}

/// The years and months for which rounding towards zero does no harm to the
/// formula: those from March -4800 on, and before them the leap years, each
/// from March to February.
pub open spec fn epoch_days_exact(y: int, m: int) -> bool {
    shifted_year(y, m) >= 0 || is_leap_year(shifted_year(y, m))
}

/// The formula for 1 January agrees with the count of the years' lengths.
proof fn lemma_year_start(y: int)
    ensures
        year_start(y) == 365 * (y + 4799) + (y + 4799) / 4 - (y + 4799) / 100 + (y + 4799) / 400
            - 2472326,
    decreases (if y < 1970 {
        1970 - y
    } else {
        y - 1970
    }),
{
    if y > 1970 {
        lemma_year_start(y - 1);
        assert(is_leap_year(y - 1) <==> is_leap_year(y + 4799));
    } else if y < 1970 {
        lemma_year_start(y + 1);
        assert(is_leap_year(y) <==> is_leap_year(y + 4800));
    }
}

/// The days before each month.
proof fn lemma_days_before_month(y: int, m: int)
    requires
        1 <= m <= 12,
    ensures
        m <= 2 ==> days_before_month(y, m) == 31 * (m - 1),
        m >= 3 ==> days_before_month(y, m) == (153 * (m - 3) + 2) / 5 + 59 + (year_length(y) - 365),
{
    reveal_with_fuel(days_before_month, 13);
}

/// Rounding towards zero and rounding down agree on the leap days of the years
/// from 0 on, and on those of a leap year before.
proof fn lemma_rounding(n: int)
    requires
        n >= 0 || is_leap_year(n),
    ensures
        quotient(n, 4) - quotient(n, 100) + quotient(n, 400) == n / 4 - n / 100 + n / 400,
{
    if n < 0 {
        let k = -n;
        assert(k % 4 == 0 && n / 4 == -(k / 4));
        if n % 100 != 0 {
            assert(n / 100 == -(k / 100) - 1);
            assert(n / 400 == -(k / 400) - 1);
        } else {
            assert(n / 100 == -(k / 100));
            assert(n / 400 == -(k / 400));
        }
    }
}

/// Law: for every date of the calendar from 1 March -4800 on, and in the leap
/// years before, the formula is the number of days from 1 January 1970.
pub proof fn law_epoch_days(y: int, m: int, d: int)
    requires
        is_calendar_date(y, m, d),
        epoch_days_exact(y, m),
    ensures
        epoch_days(y, m, d) == days_from_epoch(y, m, d),
{
    lemma_year_start(y);
    lemma_year_start(y + 1);
    lemma_days_before_month(y, m);
    lemma_rounding(shifted_year(y, m));
    if m <= 2 {
        assert(year_shift(m) == 1);
        assert(shifted_month(m) == m + 9);
    } else {
        assert(year_shift(m) == 0);
        assert(year_start(y + 1) == year_start(y) + year_length(y)) by {
            if y < 1970 {
                assert(year_start(y) == year_start(y + 1) - year_length(y));
            }
        }
    }
}

/// Law: a day later counts one day more, over the ends of months and years.
pub proof fn law_next_date(y: int, m: int, d: int)
    requires
        is_calendar_date(y, m, d),
    ensures
        ({
            let n = next_date(y, m, d);
            &&& is_calendar_date(n.0, n.1, n.2)
            &&& days_from_epoch(n.0, n.1, n.2) == days_from_epoch(y, m, d) + 1
        }),
{
    lemma_days_before_month(y, m);
    lemma_days_before_month(y, 12);
    lemma_year_start(y);
    lemma_year_start(y + 1);
    assert(days_before_month(y + 1, 1) == 0);
}

/// Law: 1 January 1970 is day 0.
pub proof fn law_epoch()
    ensures
        days_from_epoch(1970, 1, 1) == 0,
{
}

/// The number of days from 1 January 1970 to a date.
pub fn date_to_epoch_days(y: i64, m: i64, d: i64) -> (r: i64)
    requires
        epoch_days_fits(y as int, m as int, d as int),
    ensures
        r == epoch_days(y as int, m as int, d as int),
        is_calendar_date(y as int, m as int, d as int) && epoch_days_exact(y as int, m as int)
            ==> r == days_from_epoch(y as int, m as int, d as int),
{
    let a: i64 = (14 - m) / 12;
    assert(a == year_shift(m as int));
    let y2: i64 = y + 4800 - a;
    let m2: i64 = m + 12 * a - 3;
    assert(0 <= m2 <= 22);
    let jdn: i64 = d + (153 * m2 + 2) / 5 + 365 * y2 + y2 / 4 - y2 / 100 + y2 / 400 - 32045;
    proof {
        if is_calendar_date(y as int, m as int, d as int) && epoch_days_exact(y as int, m as int) {
            law_epoch_days(y as int, m as int, d as int);
        }
    }
    jdn - 2440588
}

/// Law: a day more counts one more, also beyond the end of a month; and the months
/// before the first and after the last are those of the years around.
pub proof fn law_beyond_the_calendar(y: int, m: int, d: int, n: int)
    ensures
        epoch_days(y, m, d + n) == epoch_days(y, m, d) + n,
        epoch_days(y, 0, d) == epoch_days(y - 1, 12, d),
        epoch_days(y, 13, d) == epoch_days(y + 1, 1, d),
        epoch_days(y, 14, d) == epoch_days(y + 1, 2, d),
{
}

} // verus!
