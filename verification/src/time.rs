//! Moments as text.

use vstd::prelude::*;

use crate::text::{decimal, write_decimal};

verus! {

/// A day in the calendar.
#[verifier::ext_equal]
pub struct Date {
    pub year: int,
    pub month: int,
    pub day: int,
}

/// Whether a year has a leap day.
pub open spec fn is_leap_year(year: int) -> bool {
    year % 4 == 0 && (year % 100 != 0 || year % 400 == 0)
}

/// The number of days in a month.
pub open spec fn days_in_month(year: int, month: int) -> int {
    if month == 2 {
        if is_leap_year(year) {
            29
        } else {
            28
        }
    } else if month == 4 || month == 6 || month == 9 || month == 11 {
        30
    } else {
        31
    }
}

/// Whether there is such a day.
pub open spec fn is_date(date: Date) -> bool {
    &&& 1 <= date.month <= 12
    &&& 1 <= date.day <= days_in_month(date.year, date.month)
}

/// The number of days from the beginning of the year to the beginning of a month.
pub open spec fn days_before_month(year: int, month: int) -> int
    decreases month,
{
    if month <= 1 {
        0
    } else {
        days_before_month(year, month - 1) + days_in_month(year, month - 1)
    }
}

/// The number of days from the beginning of the year 1 to the beginning of a year.
pub open spec fn days_before_year(year: int) -> int {
    365 * (year - 1) + (year - 1) / 4 - (year - 1) / 100 + (year - 1) / 400
}

/// The number of days from the first of January 1970 to a day.
pub open spec fn day_number(date: Date) -> int {
    days_before_year(date.year) + days_before_month(date.year, date.month) + date.day - 1 - 719_162
}

/// The day with a number.
pub open spec fn date_of(days: int) -> Date {
    choose|date: Date| is_date(date) && #[trigger] day_number(date) == days
}

proof fn lemma_year_of_era(day_of_era: int)
    requires
        0 <= day_of_era <= 146_096,
    ensures
        ({
            let year = (day_of_era - day_of_era / 1460 + day_of_era / 36_524 - day_of_era / 146_096)
                / 365;
            let day_of_year = day_of_era - (365 * year + year / 4 - year / 100);
            &&& 0 <= year <= 399
            &&& 0 <= day_of_year <= 365
            &&& day_of_year == 365 ==> is_leap_year(year + 1)
        }),
{
}

proof fn lemma_month_starts(year: int)
    ensures
        days_before_month(year, 1) == 0,
        days_before_month(year, 2) == 31,
        forall|month: int|
            3 <= month <= 12 ==> #[trigger] days_before_month(year, month) == 59 + (if is_leap_year(
                year,
            ) {
                1int
            } else {
                0int
            }) + (153 * (month - 3) + 2) / 5,
{
    reveal_with_fuel(days_before_month, 13);
}

/// The year, the month and the day with a number.
pub fn civil_from_days(days: i64) -> (date: (i64, u32, u32))
    requires
        -200_000_000_000_000 <= days <= 200_000_000_000_000,
    ensures
        ({
            let found = Date { year: date.0 as int, month: date.1 as int, day: date.2 as int };
            is_date(found) && day_number(found) == days
        }),
        -600_000_000_000 <= date.0 <= 600_000_000_000,
{
    let shifted: i64 = days + 719_468;
    let era: i64 = if shifted >= 0 {
        shifted / 146_097
    } else {
        -((146_096 - shifted) / 146_097)
    };
    let day_of_era: i64 = shifted - era * 146_097;
    assert(0 <= day_of_era <= 146_096);
    let year_of_era: i64 = (day_of_era - day_of_era / 1460 + day_of_era / 36_524 - day_of_era
        / 146_096) / 365;
    proof {
        lemma_year_of_era(day_of_era as int);
    }
    let year: i64 = year_of_era + era * 400;
    let day_of_year: i64 = day_of_era - (365 * year_of_era + year_of_era / 4 - year_of_era / 100);
    let month_prime: i64 = (5 * day_of_year + 2) / 153;
    let day: u32 = (day_of_year - (153 * month_prime + 2) / 5 + 1) as u32;
    let month: u32 = if month_prime < 10 {
        (month_prime + 3) as u32
    } else {
        (month_prime - 9) as u32
    };
    let adjusted_year: i64 = if month <= 2 {
        year + 1
    } else {
        year
    };
    proof {
        let found = Date { year: adjusted_year as int, month: month as int, day: day as int };
        lemma_month_starts(adjusted_year as int);
        lemma_civil(
            era as int,
            year_of_era as int,
            day_of_year as int,
            found,
        );
    }
    (adjusted_year, month, day)
}

/// Counting days from the first of March makes the leap day the last one of a year.
proof fn lemma_civil(era: int, year_of_era: int, day_of_year: int, found: Date)
    requires
        0 <= year_of_era <= 399,
        0 <= day_of_year <= 365,
        day_of_year == 365 ==> is_leap_year(year_of_era + 1),
        ({
            let month = (5 * day_of_year + 2) / 153;
            &&& found.day == day_of_year - (153 * month + 2) / 5 + 1
            &&& found.month == (if month < 10 {
                month + 3
            } else {
                month - 9
            })
            &&& found.year == year_of_era + era * 400 + (if month < 10 {
                0int
            } else {
                1int
            })
        }),
    ensures
        is_date(found),
        day_number(found) == era * 146_097 + 365 * year_of_era + year_of_era / 4 - year_of_era / 100
            + day_of_year - 719_468,
{
    lemma_month_starts(found.year);
    lemma_years_of_era(era, year_of_era);
    lemma_month_of_year(day_of_year);
}

proof fn lemma_years_of_era(era: int, year_of_era: int)
    requires
        0 <= year_of_era <= 399,
    ensures
        ({
            let year = year_of_era + era * 400;
            &&& is_leap_year(year) == is_leap_year(year_of_era)
            &&& is_leap_year(year + 1) == is_leap_year(year_of_era + 1)
            &&& days_before_year(year + 1) == era * 146_097 + 365 * year_of_era + year_of_era / 4
                - year_of_era / 100
            &&& days_before_year(year) == days_before_year(year + 1) - 365 - (if is_leap_year(year) {
                1int
            } else {
                0int
            })
        }),
{
    let year = year_of_era + era * 400;
    lemma_whole_periods(year_of_era, 100 * era, 4);
    lemma_whole_periods(year_of_era, 4 * era, 100);
    lemma_whole_periods(year_of_era, era, 400);
    lemma_whole_periods(year_of_era + 1, 100 * era, 4);
    lemma_whole_periods(year_of_era + 1, 4 * era, 100);
    lemma_whole_periods(year_of_era + 1, era, 400);
    lemma_whole_periods(year_of_era - 1, 100 * era, 4);
    lemma_whole_periods(year_of_era - 1, 4 * era, 100);
    lemma_whole_periods(year_of_era - 1, era, 400);
    lemma_one_year_before(year_of_era);
}

proof fn lemma_whole_periods(year: int, periods: int, length: int)
    requires
        length > 0,
    ensures
        (year + periods * length) / length == year / length + periods,
        (year + periods * length) % length == year % length,
{
    vstd::arithmetic::div_mod::lemma_hoist_over_denominator(year, periods, length as nat);
    vstd::arithmetic::div_mod::lemma_mod_multiples_vanish(periods, year, length);
    assert(length * periods + year == year + periods * length) by (nonlinear_arith);
}

proof fn lemma_one_year_before(year: int)
    requires
        0 <= year <= 399,
    ensures
        year / 4 - year / 100 + year / 400 - ((year - 1) / 4 - (year - 1) / 100 + (year - 1) / 400)
            == (if is_leap_year(year) {
            1int
        } else {
            0int
        }),
{
}

proof fn lemma_month_of_year(day_of_year: int)
    requires
        0 <= day_of_year <= 365,
    ensures
        ({
            let month = (5 * day_of_year + 2) / 153;
            let day = day_of_year - (153 * month + 2) / 5 + 1;
            &&& 0 <= month <= 11
            &&& 1 <= day <= 31
            &&& month == 1 || month == 3 || month == 6 || month == 8 ==> day <= 30
            &&& month == 11 ==> day <= 29 && (day == 29 ==> day_of_year == 365)
        }),
{
}

/// The day after a day.
pub open spec fn next_day(date: Date) -> Date {
    if date.day < days_in_month(date.year, date.month) {
        Date { day: date.day + 1, ..date }
    } else if date.month < 12 {
        Date { month: date.month + 1, day: 1, ..date }
    } else {
        Date { year: date.year + 1, month: 1, day: 1 }
    }
}

/// Days are numbered as they follow each other: the day after a day has the next number.
pub proof fn law_days_follow_each_other(date: Date)
    requires
        is_date(date),
    ensures
        is_date(next_day(date)),
        day_number(next_day(date)) == day_number(date) + 1,
{
    lemma_month_starts(date.year);
    lemma_month_starts(date.year + 1);
    lemma_year_length(date.year);
}

proof fn lemma_year_length(year: int)
    ensures
        days_before_year(year + 1) == days_before_year(year) + 365 + (if is_leap_year(year) {
            1int
        } else {
            0int
        }),
{
    let era = year / 400;
    lemma_years_of_era(era, year % 400);
    assert(year == year % 400 + era * 400);
}

/// The first of January 1970 has the number 0.
pub proof fn law_days_are_counted_from_1970()
    ensures
        day_number(Date { year: 1970, month: 1, day: 1 }) == 0,
{
}

proof fn lemma_years_grow(first: int, second: int)
    requires
        first < second,
    ensures
        days_before_year(second) >= days_before_year(first) + 365 + (if is_leap_year(first) {
            1int
        } else {
            0int
        }),
    decreases second - first,
{
    lemma_year_length(first);
    if first + 1 < second {
        lemma_years_grow(first + 1, second);
    }
}

/// No two days have the same number.
pub proof fn law_days_have_one_number(first: Date, second: Date)
    requires
        is_date(first),
        is_date(second),
        day_number(first) == day_number(second),
    ensures
        first == second,
{
    lemma_month_starts(first.year);
    lemma_month_starts(second.year);
    if first.year < second.year {
        lemma_years_grow(first.year, second.year);
    } else if second.year < first.year {
        lemma_years_grow(second.year, first.year);
    } else {
        lemma_months_grow(first, second);
    }
}

proof fn lemma_months_grow(first: Date, second: Date)
    requires
        is_date(first),
        is_date(second),
        first.year == second.year,
        days_before_month(first.year, first.month) + first.day == days_before_month(
            second.year,
            second.month,
        ) + second.day,
    ensures
        first.month == second.month,
{
    reveal_with_fuel(days_before_month, 13);
}

/// The digits of a number, with zeros before them up to a width.
pub open spec fn zero_filled(number: nat, width: int) -> Seq<char>
    decreases width,
{
    let digits = decimal(number);
    if digits.len() >= width {
        digits
    } else {
        Seq::new((width - digits.len()) as nat, |i: int| '0') + digits
    }
}

/// A number with zeros up to a width, which its sign takes part of.
pub open spec fn padded(number: int, width: int) -> Seq<char> {
    if number < 0 {
        "-"@ + zero_filled((-number) as nat, width - 1)
    } else {
        zero_filled(number as nat, width)
    }
}

/// A day and a second of it as text, by ISO 8601.
pub open spec fn stamp(date: Date, second: int) -> Seq<char> {
    padded(date.year, 4) + "-"@ + padded(date.month, 2) + "-"@ + padded(date.day, 2) + "T"@ + padded(
        second / 3600,
        2,
    ) + ":"@ + padded(second % 3600 / 60, 2) + ":"@ + padded(second % 60, 2) + "Z"@
}

/// A moment as text: the day and the second of the day in the time zone UTC.
pub open spec fn iso_text(seconds: int) -> Seq<char> {
    stamp(date_of(seconds / 86_400), seconds % 86_400)
}

fn write_padded(number: i64, width: usize) -> (text: String)
    requires
        number > i64::MIN,
        1 <= width <= 4,
    ensures
        text@ == padded(number as int, width as int),
{
    let mut text = String::new();
    let mut room: usize = width;
    let magnitude: i64 = if number < 0 {
        text.append("-");
        room = room - 1;
        -number
    } else {
        number
    };
    let ghost sign = text@;
    let digits = write_decimal(magnitude as u128);
    let length: usize = digits.as_str().unicode_len();
    let mut filled: usize = 0;
    while length < room && filled < room - length
        invariant
            length == digits@.len(),
            filled == 0 || filled <= room - length,
            text@ == sign + Seq::new(filled as nat, |i: int| '0'),
        decreases room - filled,
    {
        text.push('0');
        filled = filled + 1;
        assert(text@ == sign + Seq::new(filled as nat, |i: int| '0'));
    }
    text.append(digits.as_str());
    assert(text@ == sign + zero_filled(magnitude as nat, room as int));
    if number >= 0 {
        assert(text@ == zero_filled(magnitude as nat, room as int));
    }
    text
}

/// A moment, in seconds since the beginning of 1970, as text: `YYYY-MM-DDTHH:MM:SSZ`.
pub fn iso8601_from_unix_seconds(seconds: i64) -> (text: String)
    ensures
        text@ == iso_text(seconds as int),
{
    let days: i64 = if seconds >= 0 {
        seconds / 86_400
    } else {
        -((-(seconds + 1)) / 86_400) - 1
    };
    let second_of_day: i64 = if seconds >= 0 {
        seconds % 86_400
    } else {
        86_399 - (-(seconds + 1)) % 86_400
    };
    let (year, month, day) = civil_from_days(days);
    proof {
        let found = Date { year: year as int, month: month as int, day: day as int };
        assert(days == seconds as int / 86_400);
        assert(second_of_day == seconds as int % 86_400);
        assert(is_date(date_of(days as int)) && day_number(date_of(days as int)) == days);
        law_days_have_one_number(found, date_of(days as int));
    }
    let mut text = write_padded(year, 4);
    text.append("-");
    text.append(write_padded(month as i64, 2).as_str());
    text.append("-");
    text.append(write_padded(day as i64, 2).as_str());
    text.append("T");
    text.append(write_padded(second_of_day / 3600, 2).as_str());
    text.append(":");
    text.append(write_padded(second_of_day % 3600 / 60, 2).as_str());
    text.append(":");
    text.append(write_padded(second_of_day % 60, 2).as_str());
    text.append("Z");
    text
}

/// `std::time::SystemTime`, a moment.
#[verifier::external_type_specification]
#[verifier::external_body]
pub struct ExSystemTime(std::time::SystemTime);

/// `std::time::SystemTimeError`, which says that a moment lies before another.
#[verifier::external_type_specification]
#[verifier::external_body]
pub struct ExSystemTimeError(std::time::SystemTimeError);

/// `std::time::SystemTime::now`, what the clock of the system shows. Nothing is said of it.
pub assume_specification [std::time::SystemTime::now]() -> (now: std::time::SystemTime);

/// `std::time::SystemTime::duration_since`, the time between two moments. Nothing is said of it.
pub assume_specification [std::time::SystemTime::duration_since](
    this: &std::time::SystemTime,
    earlier: std::time::SystemTime,
) -> (duration: Result<std::time::Duration, std::time::SystemTimeError>);

/// `std::time::Duration::as_secs`, the whole seconds of a time. Nothing is said of it.
pub assume_specification [std::time::Duration::as_secs](this: &std::time::Duration) -> (seconds: u64);

/// The constant `std::time::UNIX_EPOCH`, the beginning of 1970. Nothing is said of it.
#[verifier::external_body]
fn unix_epoch() -> (epoch: std::time::SystemTime) {
    std::time::UNIX_EPOCH
}

/// The present moment as text. A clock that is set before 1970 shows its beginning.
pub fn iso8601_now() -> (text: String)
    ensures
        exists|seconds: i64| text@ == #[trigger] iso_text(seconds as int),
{
    let seconds: i64 = match std::time::SystemTime::now().duration_since(unix_epoch()) {
        Ok(duration) => duration.as_secs() as i64,
        Err(_) => 0,
    };
    let text = iso8601_from_unix_seconds(seconds);
    assert(text@ == iso_text(seconds as int));
    text
}

} // verus!
