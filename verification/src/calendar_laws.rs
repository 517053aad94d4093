//! Laws of the calendar: how days follow each other, and how times are written.

use crate::calendar::{
    civil_date, clock_text, day_number, days_before_month, is_date, lemma_civil_date,
    lemma_twelve_months, lemma_year,
};
use crate::text::{decimal, zero_padded};
use vstd::prelude::*;

verus! {

/// Days follow each other: the first of January 1970 is day zero, and the day after a day has
/// the next number, at the end of a month and of a year too. February has 29 days in every
/// fourth year, but for those of a century that 400 does not divide.
pub proof fn days_follow_each_other(year: int, month: int, day: int)
    requires
        is_date(year, month, day),
    ensures
        day_number(1970, 1, 1) == 0,
        is_date(year, month, day + 1) ==> day_number(year, month, day + 1) == day_number(
            year,
            month,
            day,
        ) + 1,
        !is_date(year, month, day + 1) && month < 12 ==> day_number(year, month + 1, 1)
            == day_number(year, month, day) + 1,
        !is_date(year, month, day + 1) && month == 12 ==> day_number(year + 1, 1, 1) == day_number(
            year,
            month,
            day,
        ) + 1,
        is_date(year, 2, 29) <==> year % 400 == 0 || (year % 4 == 0 && year % 100 != 0),
        is_date(year, 2, 28) && !is_date(year, 2, 30),
        is_date(year, month, 31) <==> month == 1 || month == 3 || month == 5 || month == 7 || month
            == 8 || month == 10 || month == 12,
        month != 2 ==> is_date(year, month, 30),
        !is_date(year, month, 32) && !is_date(year, 13, day) && !is_date(year, 0, day),
{
    lemma_year(year);
    lemma_twelve_months(year);
    reveal_with_fuel(days_before_month, 2);
}

/// A day is written by its year, its month and its day, with hyphens between them; a time of
/// day by its hours, its minutes and its seconds.
pub proof fn a_time_is_written_by_its_parts(
    year: int,
    month: int,
    day: int,
    hour: int,
    minute: int,
    second: int,
)
    requires
        is_date(year, month, day),
        1000 <= year <= 9999,
        0 <= hour < 24,
        0 <= minute < 60,
        0 <= second < 60,
    ensures
        civil_date(day_number(year, month, day)) == decimal(year as nat) + "-"@ + zero_padded(
            decimal(month as nat),
            2,
        ) + "-"@ + zero_padded(decimal(day as nat), 2),
        clock_text(hour * 3600 + minute * 60 + second) == zero_padded(decimal(hour as nat), 2)
            + zero_padded(decimal(minute as nat), 2) + zero_padded(decimal(second as nat), 2),
{
    lemma_civil_date(year, month, day);
    reveal_with_fuel(decimal, 4);
    let t = hour * 3600 + minute * 60 + second;
    assert(t / 3600 == hour);
    assert(t % 3600 == minute * 60 + second);
    assert((t % 3600) / 60 == minute);
    assert(t % 60 == second);
}

} // verus!
