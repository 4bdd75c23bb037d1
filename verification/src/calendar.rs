//! Points in time, with their date and time of day in UTC.

use chrono::{DateTime, Datelike, Timelike, Utc};
use vstd::prelude::*;

use crate::text::zero_padded;

verus! {

/// A leap year of the Gregorian calendar.
pub open spec fn is_leap_year(year: int) -> bool {
    year % 4 == 0 && (year % 100 != 0 || year % 400 == 0)
}

/// The number of days in a month.
pub open spec fn days_in_month(year: int, month: int) -> int {
    if month == 2 {
        if is_leap_year(year) {
            29
        } else {
            28
        }
    } else if month == 4 || month == 6 || month == 9 || month == 11 {
        30
    } else {
        31
    }
}

/// A date of the Gregorian calendar, which is taken to hold for all time.
pub open spec fn is_date(year: int, month: int, day: int) -> bool {
    1 <= month <= 12 && 1 <= day <= days_in_month(year, month)
}

/// The number of days of a year before a month.
pub open spec fn days_before_month(year: int, month: int) -> int
    decreases month,
{
    if month <= 1 {
        0
    } else {
        days_before_month(year, month - 1) + days_in_month(year, month - 1)
    }
}

/// The number of days from the start of 1970 to the start of a year. There were 477 leap years
/// before 1970, counted from the year 1.
pub open spec fn days_before_year(year: int) -> int {
    365 * (year - 1970) + ((year - 1) / 4 - (year - 1) / 100 + (year - 1) / 400 - 477)
}

/// The number of days from 1970-01-01 to a date.
pub open spec fn day_number(year: int, month: int, day: int) -> int {
    days_before_year(year) + days_before_month(year, month) + day - 1
}

/// A point in time that has a date: its year lies between -262143 and 262142, and it is not more
/// than a second after the whole second, or two if that is the last one of a minute.
pub open spec fn is_representable(seconds: int, nanos: int) -> bool {
    &&& day_number(-262143, 1, 1) <= seconds / 86_400 <= day_number(262142, 12, 31)
    &&& nanos < 1_000_000_000 || (nanos < 2_000_000_000 && seconds % 60 == 59)
}

/// A point in time and its date and time of day in UTC.
#[derive(Clone, Copy, Debug, PartialEq, Eq)]
pub struct UtcTime {
    /// Seconds since the start of 1970.
    pub seconds: i64,
    /// Nanoseconds since the whole second.
    pub nanos: u32,
    /// Year of the date.
    pub year: i32,
    /// Month of the date, from 1.
    pub month: u32,
    /// Day of the month, from 1.
    pub day: u32,
    /// Hour of the day.
    pub hour: u32,
    /// Minute of the hour.
    pub minute: u32,
}

impl UtcTime {
    /// The date and the time of day are those of the point in time.
    pub open spec fn is_consistent(self) -> bool {
        &&& is_representable(self.seconds as int, self.nanos as int)
        &&& is_date(self.year as int, self.month as int, self.day as int)
        &&& day_number(self.year as int, self.month as int, self.day as int) == self.seconds as int
            / 86_400
        &&& self.hour == (self.seconds as int % 86_400) / 3_600
        &&& self.minute == (self.seconds as int % 3_600) / 60
    }
}

/// A year as it stands in a date: four digits, and a sign if it does not have four digits.
pub open spec fn date_year(year: int) -> Seq<char> {
    if 0 <= year <= 9999 {
        zero_padded(year as nat, 4)
    } else if year < 0 {
        seq!['-'] + zero_padded((-year) as nat, 4)
    } else {
        seq!['+'] + zero_padded(year as nat, 4)
    }
}

/// A date as text: year, month and day, with hyphens between them.
pub open spec fn date_text(year: int, month: nat, day: nat) -> Seq<char> {
    date_year(year) + seq!['-'] + zero_padded(month, 2) + seq!['-'] + zero_padded(day, 2)
}

/// `chrono::DateTime::<Utc>::from_timestamp`, with `Datelike::year`, `Datelike::month`,
/// `Datelike::day`, `Timelike::hour` and `Timelike::minute` of what it returns: the UTC date and
/// time of day of a point in time, which is there for exactly the points that have a date.
#[verifier::external_body]
pub(crate) fn utc_from_timestamp(seconds: i64, nanos: u32) -> (time: Option<UtcTime>)
    ensures
        time is Some <==> is_representable(seconds as int, nanos as int),
        time matches Some(t) ==> t.seconds == seconds && t.nanos == nanos && t.is_consistent(),
{
    DateTime::<Utc>::from_timestamp(seconds, nanos).map(
        |t| UtcTime {
            seconds,
            nanos,
            year: t.year(),
            month: t.month(),
            day: t.day(),
            hour: t.hour(),
            minute: t.minute(),
        },
    )
}

/// `chrono::DateTime::<Utc>::format`, for the one pattern that is used: the year, a hyphen, the
/// month in two digits, a hyphen and the day in two digits. A year without four digits has a sign.
#[verifier::external_body]
pub(crate) fn format_utc(time: &UtcTime, pattern: &str) -> (text: String)
    requires
        time.is_consistent(),
        pattern@ == "%Y-%m-%d"@,
    ensures
        text@ == date_text(time.year as int, time.month as nat, time.day as nat),
{
    DateTime::<Utc>::from_timestamp(time.seconds, time.nanos).unwrap().format(pattern).to_string()
}

/// The days of a year before a month, month by month.
proof fn lemma_days_before_months(year: int)
    ensures
        days_before_month(year, 1) == 0,
        days_before_month(year, 2) == 31,
        days_before_month(year, 3) == 31 + days_in_month(year, 2),
        days_before_month(year, 4) == 62 + days_in_month(year, 2),
        days_before_month(year, 5) == 92 + days_in_month(year, 2),
        days_before_month(year, 6) == 123 + days_in_month(year, 2),
        days_before_month(year, 7) == 153 + days_in_month(year, 2),
        days_before_month(year, 8) == 184 + days_in_month(year, 2),
        days_before_month(year, 9) == 215 + days_in_month(year, 2),
        days_before_month(year, 10) == 245 + days_in_month(year, 2),
        days_before_month(year, 11) == 276 + days_in_month(year, 2),
        days_before_month(year, 12) == 306 + days_in_month(year, 2),
{
    reveal_with_fuel(days_before_month, 13);
}

/// A year is as long as the days between its start and the start of the next one.
proof fn lemma_year_length(year: int)
    ensures
        days_before_year(year + 1) - days_before_year(year) == 337 + days_in_month(year, 2),
{
}

/// A later year does not start before an earlier one has ended.
proof fn lemma_years_in_order(earlier: int, later: int)
    requires
        earlier < later,
    ensures
        days_before_year(earlier + 1) <= days_before_year(later),
{
}

/// The day of a date lies within its year.
proof fn lemma_date_in_year(year: int, month: int, day: int)
    requires
        is_date(year, month, day),
    ensures
        days_before_year(year) <= day_number(year, month, day) < days_before_year(year + 1),
{
    lemma_days_before_months(year);
    lemma_year_length(year);
}

/// No two dates have the same day number, so a point in time has one date only.
pub proof fn lemma_one_date(
    left_year: int,
    left_month: int,
    left_day: int,
    right_year: int,
    right_month: int,
    right_day: int,
)
    requires
        is_date(left_year, left_month, left_day),
        is_date(right_year, right_month, right_day),
        day_number(left_year, left_month, left_day) == day_number(
            right_year,
            right_month,
            right_day,
        ),
    ensures
        left_year == right_year,
        left_month == right_month,
        left_day == right_day,
{
    lemma_date_in_year(left_year, left_month, left_day);
    lemma_date_in_year(right_year, right_month, right_day);
    if left_year < right_year {
        lemma_years_in_order(left_year, right_year);
    }
    if right_year < left_year {
        lemma_years_in_order(right_year, left_year);
    }
    lemma_days_before_months(left_year);
}

/// A point in time that is not before 1970 has a year that is not before 1970.
pub proof fn lemma_year_after_epoch(time: UtcTime)
    requires
        time.is_consistent(),
        time.seconds >= 0,
    ensures
        time.year >= 1970,
        time.hour < 24,
        time.minute < 60,
{
    lemma_date_in_year(time.year as int, time.month as int, time.day as int);
    if time.year < 1970 {
        if time.year < 1969 {
            lemma_years_in_order(time.year as int, 1970);
        }
        assert(days_before_year(1970) == 0);
    }
}

/// Which dates there are by the Gregorian calendar: months have thirty-one days, but for four that
/// have thirty and February, which has twenty-eight, and twenty-nine in every fourth year but for
/// three of four full centuries.
pub proof fn lemma_which_dates_there_are(year: int, month: int, day: int)
    ensures
        is_date(year, month, day) <==> {
            &&& 1 <= month <= 12
            &&& 1 <= day
            &&& day <= 31
            &&& (month == 4 || month == 6 || month == 9 || month == 11) ==> day <= 30
            &&& month == 2 ==> day <= 29
            &&& month == 2 && day == 29 ==> year % 400 == 0 || (year % 4 == 0 && year % 100 != 0)
        },
{
}

/// The first of January of 1970 is the day with the number zero, and the day after a date, which is
/// the next one of the month or else the first one of the next month, has the next number.
pub proof fn lemma_days_are_counted(year: int, month: int, day: int)
    requires
        is_date(year, month, day),
    ensures
        day_number(1970, 1, 1) == 0,
        if is_date(year, month, day + 1) {
            day_number(year, month, day + 1) == day_number(year, month, day) + 1
        } else if month < 12 {
            day_number(year, month + 1, 1) == day_number(year, month, day) + 1
        } else {
            day_number(year + 1, 1, 1) == day_number(year, month, day) + 1
        },
{
    lemma_days_before_months(1970);
    lemma_days_before_months(year);
    lemma_days_before_months(year + 1);
    lemma_year_length(year);
}

/// Every day from 1970 on has a date.
pub proof fn lemma_some_date(number: nat) -> (date: (int, int, int))
    ensures
        is_date(date.0, date.1, date.2),
        day_number(date.0, date.1, date.2) == number,
        1970 <= date.0 <= 1970 + number,
    decreases number,
{
    if number == 0 {
        lemma_days_before_months(1970);
        (1970, 1, 1)
    } else {
        let (year, month, day) = lemma_some_date((number - 1) as nat);
        lemma_days_before_months(year);
        lemma_days_before_months(year + 1);
        lemma_year_length(year);
        if day < days_in_month(year, month) {
            (year, month, day + 1)
        } else if month < 12 {
            assert(days_before_month(year, month + 1) == days_before_month(year, month)
                + days_in_month(year, month));
            (year, month + 1, 1)
        } else {
            (year + 1, 1, 1)
        }
    }
}

/// A time between 1970 and the end of the year 10889 has a date.
pub proof fn lemma_representable(seconds: int, nanos: int)
    requires
        0 <= seconds <= 281_474_976_710,
        0 <= nanos < 1_000_000_000,
    ensures
        is_representable(seconds, nanos),
{
    lemma_days_before_months(262142);
    lemma_days_before_months(-262143);
}

} // verus!
