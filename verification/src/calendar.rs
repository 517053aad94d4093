//! Days of the Gregorian calendar and times of day, as texts.

use crate::text::{decimal, padded_text, zero_padded};
use vstd::prelude::*;

verus! {

// ---- the calendar -----------------------------------------------------------

/// True of a leap year. Years before the first are counted on through zero.
pub open spec fn leap(year: int) -> bool {
    year % 4 == 0 && (year % 100 != 0 || year % 400 == 0)
}

/// The days of a year.
pub open spec fn year_len(year: int) -> int {
    if leap(year) {
        366
    } else {
        365
    }
}

/// The days of a month, which is counted from one.
pub open spec fn month_len(year: int, month: int) -> int {
    if month == 2 {
        if leap(year) {
            29
        } else {
            28
        }
    } else if month == 4 || month == 6 || month == 9 || month == 11 {
        30
    } else {
        31
    }
}

/// The days of a year that lie before a month.
pub open spec fn days_before_month(year: int, month: int) -> int
    decreases month,
{
    if month <= 1 {
        0
    } else {
        days_before_month(year, month - 1) + month_len(year, month - 1)
    }
}

/// The days from the first day of the year 1 to the first day of a year: 365 for
/// each year, and one more for each leap year.
pub open spec fn days_before_year(year: int) -> int {
    365 * (year - 1) + (year - 1) / 4 - (year - 1) / 100 + (year - 1) / 400
}

/// The days from the first day of the year 1 to that of 1970.
pub const EPOCH_DAYS: i64 = 719_162;

/// True of a day of the calendar.
pub open spec fn is_date(year: int, month: int, day: int) -> bool {
    1 <= month <= 12 && 1 <= day <= month_len(year, month)
}

/// The number of a day, counted from the first of January 1970.
pub open spec fn day_number(year: int, month: int, day: int) -> int {
    days_before_year(year) + days_before_month(year, month) + day - 1 - EPOCH_DAYS
}

// ---- texts ------------------------------------------------------------------

/// A year in four digits or more; one that needs a sign or more digits has a sign.
pub open spec fn year_text(year: int) -> Seq<char> {
    if 0 <= year <= 9999 {
        zero_padded(decimal(year as nat), 4)
    } else if year < 0 {
        seq!['-'] + zero_padded(decimal((-year) as nat), 4)
    } else {
        seq!['+'] + zero_padded(decimal(year as nat), 4)
    }
}

/// A day such as `2026-06-01`.
pub open spec fn date_text(year: int, month: int, day: int) -> Seq<char> {
    year_text(year) + "-"@ + zero_padded(decimal(month as nat), 2) + "-"@ + zero_padded(
        decimal(day as nat),
        2,
    )
}

/// The text of the day with the given number.
pub open spec fn civil_date(number: int) -> Seq<char> {
    let (year, month, day) = choose|year: int, month: int, day: int|
        is_date(year, month, day) && #[trigger] day_number(year, month, day) == number;
    date_text(year, month, day)
}

/// The text of a time of day such as `143055`, given its seconds.
pub open spec fn clock_text(second: int) -> Seq<char> {
    zero_padded(decimal((second / 3600) as nat), 2) + zero_padded(
        decimal((second % 3600 / 60) as nat),
        2,
    ) + zero_padded(decimal((second % 60) as nat), 2)
}

// ---- the calendar has each day once -----------------------------------------

pub(crate) proof fn lemma_year(year: int)
    ensures
        days_before_year(year + 1) == days_before_year(year) + year_len(year),
{
}

proof fn lemma_years(a: int, b: int)
    requires
        a <= b,
    ensures
        days_before_year(a) <= days_before_year(b),
    decreases b - a,
{
    if a < b {
        lemma_years(a, b - 1);
        lemma_year(b - 1);
    }
}

proof fn lemma_months(year: int, a: int, b: int)
    requires
        1 <= a <= b,
    ensures
        days_before_month(year, a) <= days_before_month(year, b),
        a < b ==> days_before_month(year, a) + month_len(year, a) <= days_before_month(year, b),
    decreases b - a,
{
    if a < b {
        lemma_months(year, a, b - 1);
    }
}

pub(crate) proof fn lemma_twelve_months(year: int)
    ensures
        days_before_month(year, 13) == year_len(year),
{
    reveal_with_fuel(days_before_month, 14);
}

/// No two days of the calendar have the same number.
pub proof fn a_day_has_one_number(
    year: int,
    month: int,
    day: int,
    other_year: int,
    other_month: int,
    other_day: int,
)
    requires
        is_date(year, month, day),
        is_date(other_year, other_month, other_day),
        day_number(year, month, day) == day_number(other_year, other_month, other_day),
    ensures
        year == other_year,
        month == other_month,
        day == other_day,
{
    lemma_twelve_months(year);
    lemma_twelve_months(other_year);
    lemma_months(year, month, 13);
    lemma_months(year, 1, month);
    lemma_months(other_year, other_month, 13);
    lemma_months(other_year, 1, other_month);
    lemma_year(year);
    lemma_year(other_year);
    if year < other_year {
        lemma_years(year + 1, other_year);
    } else if other_year < year {
        lemma_years(other_year + 1, year);
    } else if month < other_month {
        lemma_months(year, month, other_month);
    } else if other_month < month {
        lemma_months(year, other_month, month);
    }
}

/// Every number is that of a day.
pub proof fn a_number_has_its_day(number: int)
    ensures
        exists|year: int, month: int, day: int|
            is_date(year, month, day) && #[trigger] day_number(year, month, day) == number,
{
    let n = number + EPOCH_DAYS;
    let cycles = n / 146_097;
    let in_cycle = n % 146_097;
    let centuries = if in_cycle / 36_524 < 3 {
        in_cycle / 36_524
    } else {
        3
    };
    let in_century = in_cycle - centuries * 36_524;
    let fours = in_century / 1_461;
    let in_four = in_century - fours * 1_461;
    let years = if in_four / 365 < 3 {
        in_four / 365
    } else {
        3
    };
    let rest = in_four - years * 365;
    let year = cycles * 400 + centuries * 100 + fours * 4 + years + 1;
    assert(days_before_year(year) + rest == n);
    assert(fours == 24 && centuries < 3 ==> in_four < 1_460);
    assert(leap(year) <==> years == 3 && (fours != 24 || centuries == 3));
    lemma_twelve_months(year);
    lemma_month_exists(year, 1, rest);
    let (month, day) = choose|month: int, day: int|
        #[trigger] is_date(year, month, day) && days_before_month(year, month) + day == rest + 1;
    assert(day_number(year, month, day) == number);
}

proof fn lemma_month_exists(year: int, from: int, rest: int)
    requires
        1 <= from <= 12,
        days_before_month(year, from) <= rest < days_before_month(year, 13),
    ensures
        exists|month: int, day: int|
            #[trigger] is_date(year, month, day) && days_before_month(year, month) + day == rest
                + 1,
    decreases 13 - from,
{
    let next = days_before_month(year, from + 1);
    assert(next == days_before_month(year, from) + month_len(year, from));
    if rest < next {
        let day = rest + 1 - days_before_month(year, from);
        assert(is_date(year, from, day) && days_before_month(year, from) + day == rest + 1);
    } else {
        lemma_month_exists(year, from + 1, rest);
    }
}

pub(crate) proof fn lemma_civil_date(year: int, month: int, day: int)
    requires
        is_date(year, month, day),
    ensures
        civil_date(day_number(year, month, day)) == date_text(year, month, day),
{
    let number = day_number(year, month, day);
    let (y, m, d) = choose|y: int, m: int, d: int|
        is_date(y, m, d) && #[trigger] day_number(y, m, d) == number;
    a_day_has_one_number(year, month, day, y, m, d);
}

/// A day of the years 1000 to 9999 has ten characters.
pub proof fn a_common_date_has_ten_characters(number: int)
    requires
        day_number(1000, 1, 1) <= number <= day_number(9999, 12, 31),
    ensures
        civil_date(number).len() == 10,
{
    a_number_has_its_day(number);
    let (year, month, day) = choose|year: int, month: int, day: int|
        is_date(year, month, day) && #[trigger] day_number(year, month, day) == number;
    lemma_twelve_months(year);
    lemma_months(year, month, 13);
    lemma_months(year, 1, month);
    lemma_twelve_months(9999);
    lemma_months(9999, 12, 13);
    lemma_year(year);
    lemma_year(9999);
    if year < 1000 {
        lemma_years(year + 1, 1000);
    }
    if year > 9999 {
        lemma_years(10_000, year);
    }
    reveal_with_fuel(decimal, 4);
    reveal_with_fuel(zero_padded, 4);
    reveal_strlit("-");
}

/// A time of day has six characters.
pub proof fn a_clock_has_six_characters(second: int)
    requires
        0 <= second < 86_400,
    ensures
        clock_text(second).len() == 6,
{
    reveal_with_fuel(decimal, 2);
    reveal_with_fuel(zero_padded, 3);
}

// ---- executable functions ---------------------------------------------------

/// The year in which a day lies, and which day of it, counted from zero. `n` is
/// counted from the first day of the year 1.
fn year_of(n: i64) -> (r: (i64, i64))
    requires
        -200_000_000_000_000 <= n <= 200_000_000_000_000,
    ensures
        days_before_year(r.0 as int) + r.1 == n,
        0 <= r.1 < year_len(r.0 as int),
        -600_000_000_000 <= r.0 <= 600_000_000_000,
{
    // Counted from a day two thousand million cycles of 400 years earlier, no number
    // of interest is negative.
    let shifted: u64 = (n + 292_194_000_000_000) as u64;
    let cycles: i64 = (shifted / 146_097) as i64 - 2_000_000_000;
    let in_cycle: u64 = shifted % 146_097;
    let centuries: u64 = if in_cycle / 36_524 < 3 {
        in_cycle / 36_524
    } else {
        3
    };
    let in_century: u64 = in_cycle - centuries * 36_524;
    let fours: u64 = in_century / 1_461;
    let in_four: u64 = in_century - fours * 1_461;
    let years: u64 = if in_four / 365 < 3 {
        in_four / 365
    } else {
        3
    };
    let rest: u64 = in_four - years * 365;
    let year: i64 = cycles * 400 + (centuries * 100 + fours * 4 + years + 1) as i64;
    proof {
        assert(in_century <= 36_524 && (centuries < 3 ==> in_century < 36_524));
        assert(fours <= 24);
        assert(fours == 24 && centuries < 3 ==> in_four < 1_460);
        assert((year - 1) / 4 == 100 * cycles + 25 * centuries + fours);
        assert((year - 1) / 100 == 4 * cycles + centuries);
        assert((year - 1) / 400 == cycles);
        assert(leap(year as int) <==> years == 3 && (fours != 24 || centuries == 3));
    }
    (year, rest as i64)
}

/// The month in which a day of a year lies, and which day of it, counted from one.
fn month_of(year: i64, rest: i64) -> (r: (i64, i64))
    requires
        -600_000_000_000 <= year <= 600_000_000_000,
        0 <= rest < year_len(year as int),
    ensures
        is_date(year as int, r.0 as int, r.1 as int),
        days_before_month(year as int, r.0 as int) + r.1 - 1 == rest,
{
    let shifted: u64 = (year + 800_000_000_000) as u64;
    let is_leap = shifted % 4 == 0 && (shifted % 100 != 0 || shifted % 400 == 0);
    let mut month: i64 = 1;
    let mut left: i64 = rest;
    proof {
        lemma_twelve_months(year as int);
    }
    loop
        invariant
            1 <= month <= 12,
            0 <= left < 366,
            is_leap == leap(year as int),
            days_before_month(year as int, month as int) + left == rest,
            rest < year_len(year as int),
            days_before_month(year as int, 13) == year_len(year as int),
        decreases 13 - month,
    {
        let len: i64 = if month == 2 {
            if is_leap {
                29
            } else {
                28
            }
        } else if month == 4 || month == 6 || month == 9 || month == 11 {
            30
        } else {
            31
        };
        assert(len == month_len(year as int, month as int));
        if left < len {
            return (month, left + 1);
        }
        assert(days_before_month(year as int, month + 1) == days_before_month(
            year as int,
            month as int,
        ) + len);
        left = left - len;
        month = month + 1;
    }
}

/// A year as a text.
fn write_year(year: i64) -> (r: String)
    requires
        -1_000_000_000_000 <= year <= 1_000_000_000_000,
    ensures
        r@ == year_text(year as int),
{
    if 0 <= year && year <= 9999 {
        padded_text(year as u64, 4)
    } else {
        let mut s = String::new();
        if year < 0 {
            s.push('-');
            s.append(padded_text((-year) as u64, 4).as_str());
        } else {
            s.push('+');
            s.append(padded_text(year as u64, 4).as_str());
        }
        assert(s@ =~= year_text(year as int));
        s
    }
}

/// The text of the day with the given number.
pub(crate) fn date_of_day(number: i64) -> (r: String)
    requires
        -199_000_000_000_000 <= number <= 199_000_000_000_000,
    ensures
        r@ == civil_date(number as int),
{
    let (year, rest) = year_of(number + EPOCH_DAYS);
    let (month, day) = month_of(year, rest);
    proof {
        lemma_civil_date(year as int, month as int, day as int);
    }
    let mut s = write_year(year);
    s.append("-");
    s.append(padded_text(month as u64, 2).as_str());
    s.append("-");
    s.append(padded_text(day as u64, 2).as_str());
    s
}

/// The text of a time of day, given its seconds.
pub fn clock_of_second(second: u32) -> (r: String)
    ensures
        r@ == clock_text(second as int),
{
    let mut s = padded_text((second / 3600) as u64, 2);
    s.append(padded_text((second % 3600 / 60) as u64, 2).as_str());
    s.append(padded_text((second % 60) as u64, 2).as_str());
    s
}

} // verus!
