//! The proleptic Gregorian calendar: how seconds since 1970 fall into days and months.

use vstd::prelude::*;

verus! {

/// Whether a year of the proleptic Gregorian calendar is a leap year.
pub open spec fn leap(year: int) -> bool {
    year % 4 == 0 && (year % 100 != 0 || year % 400 == 0)
}

/// The days of a month of the proleptic Gregorian calendar.
pub open spec fn days_in_month(year: int, month: int) -> int {
    if month == 2 {
        if leap(year) {
            29
        } else {
            28
        }
    } else if month == 4 || month == 6 || month == 9 || month == 11 {
        30
    } else {
        31
    }
}

/// The days from the beginning of the year 1 to the beginning of `year`.
pub open spec fn days_before_year(year: int) -> int {
    365 * (year - 1) + (year - 1) / 4 - (year - 1) / 100 + (year - 1) / 400
}

/// The days from the beginning of `year` to the beginning of its month `month`.
pub open spec fn days_before_month(year: int, month: int) -> int
    decreases month,
{
    if month <= 1 {
        0
    } else {
        days_before_month(year, month - 1) + days_in_month(year, month - 1)
    }
}

/// The days from the beginning of the year 1 to the beginning of 1970.
pub const DAYS_BEFORE_1970: i64 = 719_162;

/// The days of the month that is `month` months after January of the year 0.
pub open spec fn month_length(month: int) -> int {
    days_in_month(month / 12, month % 12 + 1)
}

/// The days from the beginning of 1970 to the beginning of the month that is `month` months after
/// January of the year 0.
pub open spec fn month_start(month: int) -> int {
    days_before_year(month / 12) + days_before_month(month / 12, month % 12 + 1) - DAYS_BEFORE_1970
}

/// The seconds from the beginning of 1970 to second `second` of day `day` of a month, which is
/// counted from January of the year 0.
pub open spec fn seconds_at(month: int, day: int, second: int) -> int {
    (month_start(month) + day - 1) * 86_400 + second
}

/// Whether the calendar writes `secs` seconds since 1970 as second `second` of day `day` of a month,
/// which is counted from January of the year 0.
pub open spec fn is_at(secs: int, month: int, day: int, second: int) -> bool {
    &&& 1 <= day <= month_length(month)
    &&& 0 <= second < 86_400
    &&& secs == seconds_at(month, day, second)
}

/// How the calendar writes `secs` seconds since 1970: the month, counted from January of the year 0,
/// the day of the month and the second of the day.
pub open spec fn written(secs: int) -> (int, int, int) {
    choose|month: int, day: int, second: int| is_at(secs, month, day, second)
}

/// The day of the month.
pub open spec fn day_of(secs: int) -> int {
    written(secs).1
}

/// Whether the month that is `months` months on has the day of the month of an instant.
pub open spec fn keeps_day(secs: int, months: int) -> bool {
    day_of(secs) <= month_length(written(secs).0 + months)
}

/// The same second of the same day `months` months on, or of the last day of that month where it has
/// no such day.
pub open spec fn moved_by_months(secs: int, months: int) -> int {
    let (month, day, second) = written(secs);
    let length = month_length(month + months);
    seconds_at(month + months, if day <= length { day } else { length }, second)
}

proof fn lemma_year_length(year: int)
    ensures
        days_before_year(year + 1) == days_before_year(year) + if leap(year) { 366int } else { 365int },
{
}

proof fn lemma_months_fill_the_year(year: int)
    ensures
        days_before_month(year, 13) == if leap(year) { 366int } else { 365int },
{
    reveal_with_fuel(days_before_month, 13);
}

proof fn lemma_next_month(month: int)
    ensures
        month_start(month + 1) == month_start(month) + month_length(month),
{
    let year = month / 12;
    if month % 12 < 11 {
        assert((month + 1) / 12 == year);
        assert((month + 1) % 12 == month % 12 + 1);
    } else {
        assert((month + 1) / 12 == year + 1);
        assert((month + 1) % 12 == 0);
        lemma_year_length(year);
        lemma_months_fill_the_year(year);
        assert(days_before_month(year, 13) == days_before_month(year, 12) + days_in_month(year, 12));
    }
}

proof fn lemma_months_ascend(a: int, b: int)
    requires
        a < b,
    ensures
        month_start(a) + month_length(a) <= month_start(b),
        month_start(a) + 28 * (b - a) <= month_start(b),
    decreases b - a,
{
    lemma_next_month(b - 1);
    if a < b - 1 {
        lemma_months_ascend(a, b - 1);
    }
}

/// A day between the beginnings of two months falls into a month.
proof fn lemma_month_between(days: int, a: int, b: int) -> (month: int)
    requires
        a < b,
        month_start(a) <= days < month_start(b),
    ensures
        month_start(month) <= days < month_start(month) + month_length(month),
    decreases b - a,
{
    lemma_next_month(a);
    if days < month_start(a + 1) {
        a
    } else {
        assert(a + 1 < b);
        lemma_month_between(days, a + 1, b)
    }
}

/// The calendar writes every instant.
proof fn lemma_is_written(secs: int)
    ensures
        is_at(secs, written(secs).0, written(secs).1, written(secs).2),
{
    let days = secs / 86_400;
    let size = if days < 0 { -days } else { days };
    let a = -size - 720_000;
    let b = size + 720_000;
    assert(month_start(0) == -719_528) by {
        reveal_with_fuel(days_before_month, 2);
    }
    lemma_months_ascend(a, 0);
    lemma_months_ascend(0, b);
    let month = lemma_month_between(days, a, b);
    assert(is_at(secs, month, days - month_start(month) + 1, secs % 86_400));
}

/// The calendar writes an instant in one way only.
pub proof fn lemma_written_once(secs: int, month: int, day: int, second: int)
    requires
        is_at(secs, month, day, second),
    ensures
        written(secs) == (month, day, second),
{
    lemma_is_written(secs);
    let (other, other_day, other_second) = written(secs);
    if other < month {
        lemma_months_ascend(other, month);
    }
    if month < other {
        lemma_months_ascend(month, other);
    }
}

/// Instants are in the order of how the calendar writes them.
proof fn lemma_order(a: int, b: int)
    ensures
        a <= b <==> {
            let (month, day, second) = written(a);
            let (other, other_day, other_second) = written(b);
            ||| month < other
            ||| month == other && day < other_day
            ||| month == other && day == other_day && second <= other_second
        },
{
    lemma_is_written(a);
    lemma_is_written(b);
    let month = written(a).0;
    let other = written(b).0;
    if month < other {
        lemma_months_ascend(month, other);
    }
    if other < month {
        lemma_months_ascend(other, month);
    }
}

/// How the calendar writes an instant that was moved by months.
proof fn lemma_moved(secs: int, months: int)
    ensures
        ({
            let (month, day, second) = written(secs);
            let length = month_length(month + months);
            &&& written(moved_by_months(secs, months)) == (
                month + months,
                if day <= length {
                    day
                } else {
                    length
                },
                second,
            )
        }),
{
    lemma_is_written(secs);
    let (month, day, second) = written(secs);
    let length = month_length(month + months);
    assert(28 <= length);
    let kept = if day <= length { day } else { length };
    lemma_written_once(moved_by_months(secs, months), month + months, kept, second);
}

proof fn lemma_second_of_the_minute(month: int, day: int, second: int)
    ensures
        seconds_at(month, day, second) % 60 == second % 60,
{
    let days = month_start(month) + day - 1;
    vstd::arithmetic::div_mod::lemma_mod_multiples_vanish(days * 1_440, second, 60);
}

/// Moving by months keeps the second of the minute.
pub proof fn lemma_moved_keeps_the_second(secs: int, months: int)
    ensures
        moved_by_months(secs, months) % 60 == secs % 60,
{
    lemma_is_written(secs);
    let (month, day, second) = written(secs);
    let length = month_length(month + months);
    lemma_second_of_the_minute(month, day, second);
    lemma_second_of_the_minute(month + months, if day <= length { day } else { length }, second);
}

/// Moving by months and back gives the instant again, where the month in between has its day.
pub proof fn lemma_months_are_undone(secs: int, months: int)
    requires
        keeps_day(secs, months),
    ensures
        moved_by_months(moved_by_months(secs, months), -months) == secs,
{
    lemma_is_written(secs);
    lemma_moved(secs, months);
}

/// Moving on by months goes forward, and moving back goes backward.
pub proof fn lemma_moved_direction(secs: int, months: int)
    ensures
        months > 0 ==> secs < moved_by_months(secs, months),
        months < 0 ==> moved_by_months(secs, months) < secs,
        months == 0 ==> moved_by_months(secs, months) == secs,
{
    lemma_is_written(secs);
    lemma_moved(secs, months);
    lemma_order(secs, moved_by_months(secs, months));
    lemma_order(moved_by_months(secs, months), secs);
}

/// An instant is not before another that was moved back by months, if it is not before that one when
/// it is itself moved on by as many; and it is after it, if it is after.
pub proof fn lemma_moved_back_is_below(secs: int, months: int, start: int)
    requires
        start <= moved_by_months(secs, months),
    ensures
        moved_by_months(start, -months) <= secs,
        start < moved_by_months(secs, months) ==> moved_by_months(start, -months) < secs,
{
    lemma_is_written(secs);
    lemma_is_written(start);
    lemma_moved(secs, months);
    lemma_moved(start, -months);
    lemma_order(start, moved_by_months(secs, months));
    lemma_order(moved_by_months(secs, months), start);
    lemma_order(moved_by_months(start, -months), secs);
    lemma_order(secs, moved_by_months(start, -months));
}

/// Whether no shorter month comes between an instant and `end` when the one is moved on by months and
/// the other back: the instant stays in a month before that of `end`; or it keeps its day, and so
/// does `end`, or the instant is before the last day of its month or no later in the day than `end`.
pub open spec fn steps_evenly(secs: int, months: int, end: int) -> bool {
    let (month, day, second) = written(secs);
    ||| month + months < written(end).0
    ||| {
        &&& keeps_day(secs, months)
        &&& keeps_day(end, -months) || day < month_length(month) || second <= written(end).2
    }
}

/// An instant before the 28th of a month, or at midnight on the 28th, steps evenly with every other.
pub proof fn law_early_days_step_evenly(secs: int, months: int, end: int)
    requires
        day_of(secs) < 28 || (day_of(secs) == 28 && written(secs).2 == 0),
    ensures
        steps_evenly(secs, months, end),
{
    lemma_is_written(secs);
    lemma_is_written(end);
}

/// An instant is not after another that was moved back by months, if it is not after that one when
/// it is itself moved on by as many, where the two step evenly.
pub proof fn lemma_moved_back_is_above(secs: int, months: int, end: int)
    requires
        steps_evenly(secs, months, end),
        moved_by_months(secs, months) <= end,
    ensures
        secs <= moved_by_months(end, -months),
{
    lemma_is_written(secs);
    lemma_is_written(end);
    lemma_moved(secs, months);
    lemma_moved(end, -months);
    lemma_order(moved_by_months(secs, months), end);
    lemma_order(secs, moved_by_months(end, -months));
}

/// An instant that is not after another that was moved back by months is not after that one when it
/// is itself moved on by as many.
pub proof fn lemma_moved_on_is_below(secs: int, months: int, end: int)
    requires
        secs <= moved_by_months(end, -months),
    ensures
        moved_by_months(secs, months) <= end,
{
    lemma_is_written(end);
    lemma_moved(secs, months);
    lemma_moved(end, -months);
    lemma_order(secs, moved_by_months(end, -months));
    lemma_order(moved_by_months(secs, months), end);
}

/// The months have 31 and 30 days in turn, from January to July and again from August to December;
/// February alone is shorter, of 29 days in a leap year and of 28 in another. A year has 365 days, and
/// 366 where it is a leap year.
pub proof fn law_lengths_of_months_and_years(year: int, month: int)
    requires
        1 <= month <= 12,
    ensures
        month != 2 ==> days_in_month(year, month) == if (month <= 7) == (month % 2 == 1) { 31int } else { 30int },
        days_in_month(year, 2) == if leap(year) { 29int } else { 28int },
        month_start(year * 12 + 12) - month_start(year * 12) == if leap(year) { 366int } else { 365int },
        month_start(year * 12 + month) - month_start(year * 12 + month - 1) == days_in_month(year, month),
{
    lemma_next_month(year * 12 + month - 1);
    assert((year * 12 + month - 1) / 12 == year);
    assert((year * 12 + month - 1) % 12 == month - 1);
    assert((year * 12 + 12) / 12 == year + 1 && (year * 12 + 12) % 12 == 0);
    assert((year * 12) / 12 == year && (year * 12) % 12 == 0);
    lemma_year_length(year);
}

/// The calendar repeats after 400 years, which have 97 leap days and a whole number of weeks.
pub proof fn law_calendar_repeats(year: int)
    ensures
        leap(year + 400) <==> leap(year),
        month_start((year + 400) * 12) - month_start(year * 12) == 400 * 365 + 97,
        (400int * 365 + 97) % 7 == 0,
        month_start(1970int * 12) == 0,
{
    lemma_starts_of_years(year);
    lemma_starts_of_years(year + 400);
    lemma_starts_of_years(1970);
    let y = year - 1;
    assert((y + 400) / 4 == y / 4 + 100);
    assert((y + 400) / 100 == y / 100 + 4);
    assert((y + 400) / 400 == y / 400 + 1);
    assert(days_before_year(1970) == 719_162);
}

proof fn lemma_starts_of_years(year: int)
    ensures
        month_start(year * 12) == days_before_year(year) - DAYS_BEFORE_1970,
{
    assert((year * 12) / 12 == year && (year * 12) % 12 == 0);
}

/// Only a year that four divides is a leap year, and of the years of a full century only one that 400
/// divides.
pub proof fn law_leap_years(n: int)
    ensures
        !leap(4 * n + 1) && !leap(4 * n + 2) && !leap(4 * n + 3),
        leap(400 * n) && !leap(400 * n + 100) && !leap(400 * n + 200) && !leap(400 * n + 300),
        n % 25 != 0 ==> leap(4 * n),
{
    assert((4 * n) % 100 == 0 ==> n % 25 == 0);
    assert((400 * n + 100) % 400 == 100);
    assert((400 * n + 200) % 400 == 200);
    assert((400 * n + 300) % 400 == 300);
    assert((400 * n + 100) % 100 == 0);
    assert((400 * n + 200) % 100 == 0);
    assert((400 * n + 300) % 100 == 0);
}

} // verus!
