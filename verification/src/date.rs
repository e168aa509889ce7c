//! Dates: the calendar half of turning what a caller wrote into the serial
//! number a workbook stores.
//!
//! A workbook has no date cells. It has numbers, and a format that makes one
//! look like a date, so writing a date means writing the number Excel would
//! have written. What is here is the calendar: reading an ISO 8601 date and
//! checking it against the calendar, and counting the days from 1970-01-01 to
//! it. Which serial a day is, and which part of a day a time is, are
//! questions of floating point and are answered where the serial is made.

use vstd::prelude::*;
use vstd::string::StringExecFns;

use crate::error::{Error, ErrorCode};
use crate::text::{all_digits, chars_of, digits_value, is_digit, string_of_range};

verus! {

/// A year, a month and a day, as an ISO date spells them.
pub type Civil = (i64, i64, i64);

/// Whether `year` is a leap year in the proleptic Gregorian calendar.
pub open spec fn is_leap(year: int) -> bool {
    year % 4 == 0 && (year % 100 != 0 || year % 400 == 0)
}

/// How many days month `month` of `year` has; none for a month that is not
/// one.
pub open spec fn month_days(year: int, month: int) -> int {
    if month == 1 || month == 3 || month == 5 || month == 7 || month == 8 || month == 10 || month == 12 {
        31
    } else if month == 4 || month == 6 || month == 9 || month == 11 {
        30
    } else if month == 2 {
        if is_leap(year) {
            29
        } else {
            28
        }
    } else {
        0
    }
}

/// Whether `year`, `month` and `day` name a day of the calendar.
pub open spec fn is_day(year: int, month: int, day: int) -> bool {
    1 <= month <= 12 && 1 <= day <= month_days(year, month)
}

/// Whether `year` is a leap year in the proleptic Gregorian calendar.
pub fn leap(year: i64) -> (yes: bool)
    ensures
        yes == is_leap(year as int),
{
    year % 4 == 0 && (year % 100 != 0 || year % 400 == 0)
}

/// How many days month `month` of `year` has.
pub fn days_in(year: i64, month: i64) -> (days: i64)
    ensures
        days == month_days(year as int, month as int),
{
    if month == 1 || month == 3 || month == 5 || month == 7 || month == 8 || month == 10 || month == 12 {
        31
    } else if month == 4 || month == 6 || month == 9 || month == 11 {
        30
    } else if month == 2 {
        if leap(year) {
            29
        } else {
            28
        }
    } else {
        0
    }
}

/// Whether `s` spells a date the way ISO 8601 does: four digits of year, two
/// of month and two of day, joined by hyphens and nothing else.
pub open spec fn is_iso_date(s: Seq<char>) -> bool {
    &&& s.len() == 10
    &&& s[4] == '-'
    &&& s[7] == '-'
    &&& all_digits(s.subrange(0, 4))
    &&& all_digits(s.subrange(5, 7))
    &&& all_digits(s.subrange(8, 10))
}

/// What saying `text` is not a date says.
pub open spec fn not_a_date_message(text: Seq<char>) -> Seq<char> {
    "'"@ + text
        + "' is not a date; write type date takes an ISO 8601 date such as 2026-09-13, a datetime such as 2026-09-13T14:30:00, or the serial itself. A datetime carries no time zone, because a serial cannot hold one."@
}

/// The date `date` spells, as part of `whole`: the year, the month and the
/// day, checked against the calendar, or why it is not one.
pub open spec fn civil_of(date: Seq<char>, whole: Seq<char>) -> Result<(int, int, int), Seq<char>> {
    if !is_iso_date(date) {
        Err(not_a_date_message(whole))
    } else {
        let year = digits_value(date.subrange(0, 4)) as int;
        let month = digits_value(date.subrange(5, 7)) as int;
        let day = digits_value(date.subrange(8, 10)) as int;
        if is_day(year, month, day) {
            Ok((year, month, day))
        } else {
            Err(
                "'"@ + whole + "' is not a date: there is no "@ + date.subrange(8, 10) + " of month "@
                    + date.subrange(5, 7) + " in "@ + date.subrange(0, 4),
            )
        }
    }
}

/// Why `text` is not a date, and what one looks like.
pub fn not_a_date(text: &str) -> (err: Error)
    ensures
        err.spec_code() == ErrorCode::Usage,
        err.spec_message() == not_a_date_message(text@),
{
    let mut message = String::from_str("'");
    message.append(text);
    message.append(
        "' is not a date; write type date takes an ISO 8601 date such as 2026-09-13, a datetime such as 2026-09-13T14:30:00, or the serial itself. A datetime carries no time zone, because a serial cannot hold one.",
    );
    Error::usage(message.as_str())
}

/// The value of the digits `s[from..to]`, which are at most four.
fn small_number(s: &[char], from: usize, to: usize) -> (value: i64)
    requires
        from <= to <= s@.len(),
        to - from <= 4,
        all_digits(s@.subrange(from as int, to as int)),
    ensures
        value as int == digits_value(s@.subrange(from as int, to as int)),
        0 <= value < 10000,
{
    let mut v: i64 = 0;
    let mut i: usize = from;
    while i < to
        invariant
            from <= i <= to <= s@.len(),
            to - from <= 4,
            all_digits(s@.subrange(from as int, to as int)),
            v as int == digits_value(s@.subrange(from as int, i as int)),
            0 <= v,
            v < pow10(i - from),
        decreases to - i,
    {
        assert(s@.subrange(from as int, i + 1).drop_last() =~= s@.subrange(from as int, i as int));
        assert(is_digit(s@.subrange(from as int, to as int)[i - from]));
        let d = (s[i] as u32 - '0' as u32) as i64;
        assert(v * 10 + d < pow10(i + 1 - from)) by (nonlinear_arith)
            requires
                v < pow10(i - from),
                0 <= d <= 9,
                pow10(i + 1 - from) == pow10(i - from) * 10,
        ;
        v = v * 10 + d;
        i = i + 1;
    }
    v
}

/// Ten to the `n`, for the few `n` a date field spans.
pub open spec fn pow10(n: int) -> int {
    if n <= 0 {
        1
    } else if n == 1 {
        10
    } else if n == 2 {
        100
    } else if n == 3 {
        1000
    } else {
        10000
    }
}

/// The date `date` spells, checked against the calendar; `whole` is what the
/// caller wrote, which the refusal quotes.
///
/// Each field has a fixed width, because ISO 8601 fixes it, and because a
/// variable one would make `2026-9-3` a date here and not in the package. A
/// field carrying anything but digits is not a number: `+1` and `1e2` are
/// numbers to Rust and are not fields of a date.
pub fn civil(date: &str, whole: &str) -> (day: Result<Civil, Error>)
    ensures
        match day {
            Ok((y, m, d)) => civil_of(date@, whole@) == Ok::<(int, int, int), Seq<char>>(
                (y as int, m as int, d as int),
            ),
            Err(e) => civil_of(date@, whole@) == Err::<(int, int, int), Seq<char>>(e.spec_message())
                && e.spec_code() == ErrorCode::Usage,
        },
{
    let s = chars_of(date);
    if s.len() != 10 || s[4] != '-' || s[7] != '-' {
        return Err(not_a_date(whole));
    }
    let mut k: usize = 0;
    while k < 10
        invariant
            s@ == date@,
            s@.len() == 10,
            k <= 10,
            forall|j: int| 0 <= j < k && j != 4 && j != 7 ==> is_digit(#[trigger] s@[j]),
        decreases 10 - k,
    {
        if k != 4 && k != 7 && !(s[k] >= '0' && s[k] <= '9') {
            proof {
                if k < 4 {
                    assert(!is_digit(s@.subrange(0, 4)[k as int]));
                } else if k < 7 {
                    assert(!is_digit(s@.subrange(5, 7)[k - 5]));
                } else {
                    assert(!is_digit(s@.subrange(8, 10)[k - 8]));
                }
            }
            return Err(not_a_date(whole));
        }
        k = k + 1;
    }
    assert(all_digits(s@.subrange(0, 4))) by {
        assert forall|j: int| 0 <= j < 4 implies is_digit(#[trigger] s@.subrange(0, 4)[j]) by {
            assert(s@.subrange(0, 4)[j] == s@[j]);
        }
    }
    assert(all_digits(s@.subrange(5, 7))) by {
        assert forall|j: int| 0 <= j < 2 implies is_digit(#[trigger] s@.subrange(5, 7)[j]) by {
            assert(s@.subrange(5, 7)[j] == s@[j + 5]);
        }
    }
    assert(all_digits(s@.subrange(8, 10))) by {
        assert forall|j: int| 0 <= j < 2 implies is_digit(#[trigger] s@.subrange(8, 10)[j]) by {
            assert(s@.subrange(8, 10)[j] == s@[j + 8]);
        }
    }
    let year = small_number(&s, 0, 4);
    let month = small_number(&s, 5, 7);
    let day = small_number(&s, 8, 10);
    if month < 1 || month > 12 || day < 1 || day > days_in(year, month) {
        let mut message = String::from_str("'");
        message.append(whole);
        message.append("' is not a date: there is no ");
        message.append(string_of_range(&s, 8, 10).as_str());
        message.append(" of month ");
        message.append(string_of_range(&s, 5, 7).as_str());
        message.append(" in ");
        message.append(string_of_range(&s, 0, 4).as_str());
        return Err(Error::usage(message.as_str()));
    }
    Ok((year, month, day))
}

/// The days from 1970-01-01 to the day `(year, month, day)`, negative before
/// it, counted the way Howard Hinnant's `days_from_civil` counts them: March
/// is taken as the first month of the year, so a leap day lands at the end
/// and the arithmetic never has to know whether it happened.
pub open spec fn day_number(year: int, month: int, day: int) -> int {
    let y = if month <= 2 { year - 1 } else { year };
    let era = (if y >= 0 { y } else { y - 399 }) / 400;
    let year_of_era = y - era * 400;
    let shifted = if month > 2 { month - 3 } else { month + 9 };
    let day_of_year = (153 * shifted + 2) / 5 + day - 1;
    let day_of_era = year_of_era * 365 + year_of_era / 4 - year_of_era / 100 + day_of_year;
    era * 146_097 + day_of_era - 719_468
}

/// The days from 1970-01-01 to the given date, negative before it. The date
/// is one a four-digit year spells.
pub fn days_from_civil(date: Civil) -> (days: i64)
    requires
        0 <= date.0 <= 9999,
        1 <= date.1 <= 12,
        1 <= date.2 <= 31,
    ensures
        days as int == day_number(date.0 as int, date.1 as int, date.2 as int),
{
    let (year, month, day) = date;
    let year = year - if month <= 2 {
        1
    } else {
        0
    };
    let era = if year >= 0 {
        year
    } else {
        year - 399
    } / 400;
    let year_of_era = year - era * 400;
    let shifted = if month > 2 {
        month - 3
    } else {
        month + 9
    };
    let day_of_year = (153 * shifted + 2) / 5 + day - 1;
    assert(0 <= year_of_era < 400) by (nonlinear_arith)
        requires
            -1 <= year <= 9999,
            era == (if year >= 0 { year as int } else { year - 399 }) / 400,
            year_of_era == year - era * 400,
    ;
    assert(0 <= era <= 24 || era == -1) by (nonlinear_arith)
        requires
            -1 <= year <= 9999,
            era == (if year >= 0 { year as int } else { year - 399 }) / 400,
    ;
    let day_of_era = year_of_era * 365 + year_of_era / 4 - year_of_era / 100 + day_of_year;
    era * 146_097 + day_of_era - 719_468
}

/// The day after `(year, month, day)`.
pub open spec fn next_day(year: int, month: int, day: int) -> (int, int, int) {
    if day < month_days(year, month) {
        (year, month, day + 1)
    } else if month < 12 {
        (year, month + 1, 1)
    } else {
        (year + 1, 1, 1)
    }
}

/// The part of a day's number that counts whole March-based years `y`:
/// every year of them, and the leap days among them.
pub open spec fn years_part(y: int) -> int {
    let era = (if y >= 0 { y } else { y - 399 }) / 400;
    let year_of_era = y - era * 400;
    era * 146_097 + year_of_era * 365 + year_of_era / 4 - year_of_era / 100
}

/// The part of a day's number that counts the days of its March-based year
/// before it.
pub open spec fn days_part(month: int, day: int) -> int {
    let shifted = if month > 2 { month - 3 } else { month + 9 };
    (153 * shifted + 2) / 5 + day - 1
}

proof fn lemma_day_number_parts(year: int, month: int, day: int)
    ensures
        day_number(year, month, day) == years_part(if month <= 2 { year - 1 } else { year }) + days_part(
            month,
            day,
        ) - 719_468,
{
}

/// A March-based year holds 366 days where the year it ends in is a leap
/// year, and 365 otherwise.
proof fn lemma_years_part_step(y: int)
    requires
        -1 <= y < 9999,
    ensures
        years_part(y + 1) - years_part(y) == if is_leap(y + 1) {
            366int
        } else {
            365int
        },
{
    let era = (if y >= 0 { y } else { y - 399 }) / 400;
    let yoe = y - era * 400;
    assert(0 <= yoe < 400 && (era == -1 || 0 <= era <= 24) && y == era * 400 + yoe) by (nonlinear_arith)
        requires
            -1 <= y < 9999,
            era == (if y >= 0 { y } else { y - 399 }) / 400,
            yoe == y - era * 400,
    ;
    let era2 = (if y + 1 >= 0 { y + 1 } else { y + 1 - 399 }) / 400;
    let yoe2 = (y + 1) - era2 * 400;
    if yoe < 399 {
        vstd::arithmetic::div_mod::lemma_fundamental_div_mod_converse(y + 1, 400, era, yoe + 1);
        assert(era2 == era && yoe2 == yoe + 1);
        assert((y + 1) % 4 == (yoe + 1) % 4 && (y + 1) % 100 == (yoe + 1) % 100 && (y + 1) % 400 == yoe + 1)
            by (nonlinear_arith)
            requires
                0 <= yoe < 399,
                y == era * 400 + yoe,
                era == -1 || 0 <= era <= 24,
        ;
        assert((yoe + 1) / 4 - yoe / 4 == if (yoe + 1) % 4 == 0 { 1int } else { 0int }) by (nonlinear_arith)
            requires
                0 <= yoe < 399,
        ;
        assert((yoe + 1) / 100 - yoe / 100 == if (yoe + 1) % 100 == 0 { 1int } else { 0int }) by (nonlinear_arith)
            requires
                0 <= yoe < 399,
        ;
        assert(years_part(y + 1) - years_part(y) == 365 + ((yoe + 1) / 4 - yoe / 4) - ((yoe + 1) / 100 - yoe / 100))
            by (nonlinear_arith)
            requires
                era2 == era,
                yoe2 == yoe + 1,
                era == (if y >= 0 { y } else { y - 399 }) / 400,
                yoe == y - era * 400,
                era2 == (if y + 1 >= 0 { y + 1 } else { y + 1 - 399 }) / 400,
                yoe2 == (y + 1) - era2 * 400,
                years_part(y) == era * 146_097 + yoe * 365 + yoe / 4 - yoe / 100,
                years_part(y + 1) == era2 * 146_097 + yoe2 * 365 + yoe2 / 4 - yoe2 / 100,
        ;
    } else {
        assert(era2 == era + 1 && yoe2 == 0) by (nonlinear_arith)
            requires
                yoe == 399,
                y == era * 400 + yoe,
                era == -1 || 0 <= era <= 24,
                era2 == (if y + 1 >= 0 { y + 1 } else { y + 1 - 399 }) / 400,
                yoe2 == (y + 1) - era2 * 400,
        ;
        assert((y + 1) % 400 == 0) by (nonlinear_arith)
            requires
                yoe == 399,
                y == era * 400 + yoe,
        ;
        assert(years_part(y + 1) - years_part(y) == 366) by (nonlinear_arith)
            requires
                era2 == era + 1,
                yoe2 == 0,
                yoe == 399,
                years_part(y) == era * 146_097 + yoe * 365 + yoe / 4 - yoe / 100,
                years_part(y + 1) == era2 * 146_097 + yoe2 * 365 + yoe2 / 4 - yoe2 / 100,
        ;
    }
}

/// Days follow each other: the day after any day of a four-digit year has
/// the next number, so the count is exact across months, leap days and
/// years alike.
pub proof fn law_the_next_day_is_one_day_later(year: int, month: int, day: int)
    requires
        0 <= year <= 9999,
        is_day(year, month, day),
        !(year == 9999 && month == 12 && day == 31),
    ensures
        ({
            let (y, m, d) = next_day(year, month, day);
            day_number(y, m, d) == day_number(year, month, day) + 1
        }),
{
    let (y, m, d) = next_day(year, month, day);
    lemma_day_number_parts(year, month, day);
    lemma_day_number_parts(y, m, d);
    if day < month_days(year, month) {
    } else if month < 12 {
        if month == 2 {
            lemma_years_part_step(year - 1);
        }
    } else {
    }
}

} // verus!
