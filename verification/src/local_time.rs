//! Points in time as the clock on the wall shows them.

use vstd::arithmetic::div_mod::lemma_mod_multiples_vanish;
use vstd::prelude::*;

use chrono::{Datelike, TimeZone, Timelike};

use crate::text::{decimal, decimal_of};

verus! {

/// The first second that a calendar holds: that of the year -262143 in UTC.
pub const EARLIEST_TIMESTAMP: i64 = -8334601228800;

/// The last second that a calendar holds: that of the year 262142 in UTC.
pub const LATEST_TIMESTAMP: i64 = 8210266876799;

/// The number of the first day that a calendar holds.
pub const FIRST_DAY: i32 = -95746129;

/// The number of the last day that a calendar holds.
pub const LAST_DAY: i32 = 95745399;

/// Whether the clock on the wall can show a point in time.
pub open spec fn showable(timestamp: i64) -> bool {
    EARLIEST_TIMESTAMP <= timestamp <= LATEST_TIMESTAMP
}

/// Date and time of day in the time zone of the machine.
#[derive(Debug, Clone, Copy, PartialEq, Eq, Structural)]
pub struct LocalTime {
    pub year: i32,
    pub month: u32,
    pub day: u32,
    pub hour: u32,
    pub minute: u32,
    pub second: u32,
    /// The number of the day, where the first day of the year 1 is day 1.
    pub day_number: i32,
}

impl LocalTime {
    /// Whether each part lies within its bounds.
    pub open spec fn valid(self) -> bool {
        &&& -262144 <= self.year <= 262143
        &&& 1 <= self.month <= 12
        &&& 1 <= self.day <= 31
        &&& self.hour < 24
        &&& self.minute < 60
        &&& self.second < 60
        &&& FIRST_DAY - 1 <= self.day_number <= LAST_DAY + 1
    }
}

/// Whether a year has a day more.
pub open spec fn is_leap_year(year: int) -> bool {
    year % 4 == 0 && (year % 100 != 0 || year % 400 == 0)
}

/// How many days a month has.
pub open spec fn days_in_month(year: int, month: int) -> int {
    if month == 2 {
        if is_leap_year(year) {
            29
        } else {
            28
        }
    } else if month == 4 || month == 6 || month == 9 || month == 11 {
        30
    } else {
        31
    }
}

/// How many days of a year lie before a month.
pub open spec fn days_before_month(year: int, month: int) -> int
    decreases month,
{
    if month <= 1 {
        0
    } else {
        days_before_month(year, month - 1) + days_in_month(year, month - 1)
    }
}

/// The number of a day of the calendar, where the first day of the year 1 is day 1.
pub open spec fn day_number_of(year: int, month: int, day: int) -> int {
    365 * (year - 1) + (year - 1) / 4 - (year - 1) / 100 + (year - 1) / 400 + days_before_month(
        year,
        month,
    ) + day
}

/// Whether a year, a month, a day and a number of a day name the same day of the calendar.
pub open spec fn is_calendar_day(year: int, month: int, day: int, number: int) -> bool {
    1 <= month <= 12 && 1 <= day <= days_in_month(year, month) && number == day_number_of(
        year,
        month,
        day,
    )
}

/// The seconds from the start of 1970 to a reading of the clock on the wall.
pub open spec fn reading_seconds(day: i32, seconds: u32) -> int {
    (day - 719163) * 86400 + seconds
}

/// Whether the clock on the wall may show a date and a time of day at a point in time: they are a
/// reading of the calendar, and less than a day from what the clock shows in UTC.
pub open spec fn shown_at(t: LocalTime, timestamp: i64) -> bool {
    &&& t.valid()
    &&& is_calendar_day(t.year as int, t.month as int, t.day as int, t.day_number as int)
    &&& -86400 < reading_seconds(
        t.day_number,
        (t.hour * 3600 + t.minute * 60 + t.second) as u32,
    ) - timestamp < 86400
}

/// `chrono::DateTime::from_timestamp` and its conversion to `chrono::Local`, taken apart by
/// `year`, `month`, `day`, `hour`, `minute`, `second` and `num_days_from_ce`. What the clock shows
/// rests on the time zone of the machine; claimed is that it is a reading of the calendar, and less
/// than a day from what the clock shows in UTC, as every offset of `chrono` is less than a day.
#[verifier::external_body]
fn local_parts(timestamp: i64) -> (r: LocalTime)
    requires
        showable(timestamp),
    ensures
        shown_at(r, timestamp),
{
    let utc = chrono::DateTime::from_timestamp(timestamp, 0).unwrap();
    let local = utc.with_timezone(&chrono::Local);
    LocalTime {
        year: local.year(),
        month: local.month(),
        day: local.day(),
        hour: local.hour(),
        minute: local.minute(),
        second: local.second(),
        day_number: local.num_days_from_ce(),
    }
}

/// Date and time of day at a point in time, where the clock on the wall can show it.
pub fn local_time(timestamp: i64) -> (r: Option<LocalTime>)
    ensures
        r is Some == showable(timestamp),
        r matches Some(t) ==> shown_at(t, timestamp),
{
    if EARLIEST_TIMESTAMP <= timestamp && timestamp <= LATEST_TIMESTAMP {
        Some(local_parts(timestamp))
    } else {
        None
    }
}

/// A number below one hundred in two digits.
pub open spec fn two_digits(n: nat) -> Seq<char> {
    if n < 10 {
        seq!['0'] + decimal_of(n)
    } else {
        decimal_of(n)
    }
}

/// A number in at least four digits.
pub open spec fn four_digits(n: nat) -> Seq<char> {
    if n < 10 {
        "000"@ + decimal_of(n)
    } else if n < 100 {
        "00"@ + decimal_of(n)
    } else if n < 1000 {
        "0"@ + decimal_of(n)
    } else {
        decimal_of(n)
    }
}

/// A year in at least four digits, with a sign where it has more or lies before the year 0.
pub open spec fn year_digits(year: int) -> Seq<char> {
    if year < 0 {
        "-"@ + four_digits((-year) as nat)
    } else if year < 10000 {
        four_digits(year as nat)
    } else {
        "+"@ + four_digits(year as nat)
    }
}

fn push_four_digits(out: &mut String, n: u64)
    ensures
        final(out)@ == old(out)@ + four_digits(n as nat),
{
    if n < 10 {
        out.push_str("000");
    } else if n < 100 {
        out.push_str("00");
    } else if n < 1000 {
        out.push_str("0");
    }
    out.push_str(&decimal(n));
    assert(out@ =~= old(out)@ + four_digits(n as nat));
}

fn push_two_digits(out: &mut String, n: u32)
    ensures
        final(out)@ == old(out)@ + two_digits(n as nat),
{
    if n < 10 {
        out.push('0');
    }
    out.push_str(&decimal(n as u64));
    assert(out@ =~= old(out)@ + two_digits(n as nat));
}

/// The date as year, month and day.
pub open spec fn date_text(t: LocalTime) -> Seq<char> {
    year_digits(t.year as int) + "-"@ + two_digits(t.month as nat) + "-"@ + two_digits(
        t.day as nat,
    )
}

/// The time of day as hour and minute.
pub open spec fn minute_text(t: LocalTime) -> Seq<char> {
    two_digits(t.hour as nat) + ":"@ + two_digits(t.minute as nat)
}

/// The time of day as hour, minute and second.
pub open spec fn second_text(t: LocalTime) -> Seq<char> {
    minute_text(t) + ":"@ + two_digits(t.second as nat)
}

impl LocalTime {
    /// The date as year, month and day.
    pub fn date(&self) -> (r: String)
        requires
            self.valid(),
        ensures
            r@ == date_text(*self),
    {
        let mut r = String::new();
        let year: i64 = self.year as i64;
        if year < 0 {
            r.push_str("-");
            push_four_digits(&mut r, (-year) as u64);
        } else {
            if year > 9999 {
                r.push_str("+");
            }
            push_four_digits(&mut r, year as u64);
        }
        assert(r@ =~= year_digits(self.year as int));
        r.push_str("-");
        push_two_digits(&mut r, self.month);
        r.push_str("-");
        push_two_digits(&mut r, self.day);
        r
    }

    /// The time of day as hour and minute.
    pub fn hour_minute(&self) -> (r: String)
        ensures
            r@ == minute_text(*self),
    {
        let mut r = String::new();
        push_two_digits(&mut r, self.hour);
        r.push_str(":");
        push_two_digits(&mut r, self.minute);
        assert(r@ =~= minute_text(*self));
        r
    }

    /// The time of day as hour, minute and second.
    pub fn hour_minute_second(&self) -> (r: String)
        ensures
            r@ == second_text(*self),
    {
        let mut r = self.hour_minute();
        r.push_str(":");
        push_two_digits(&mut r, self.second);
        r
    }

    /// Date and time of day.
    pub fn date_and_time(&self) -> (r: String)
        requires
            self.valid(),
        ensures
            r@ == full_text(*self),
    {
        let mut r = self.date();
        r.push_str(" ");
        r.push_str(&self.hour_minute_second());
        r
    }
}

/// Date and time of day.
pub open spec fn full_text(t: LocalTime) -> Seq<char> {
    date_text(t) + " "@ + second_text(t)
}

fn month_length(year: i32, month: u32) -> (r: u32)
    requires
        -262144 <= year <= 262143,
    ensures
        r == days_in_month(year as int, month as int),
{
    if month == 2 {
        let shifted: u32 = (year + 400_000) as u32;
        proof {
            lemma_mod_multiples_vanish(100_000, year as int, 4);
            lemma_mod_multiples_vanish(4_000, year as int, 100);
            lemma_mod_multiples_vanish(1_000, year as int, 400);
        }
        if shifted % 4 == 0 && (shifted % 100 != 0 || shifted % 400 == 0) {
            29
        } else {
            28
        }
    } else if month == 4 || month == 6 || month == 9 || month == 11 {
        30
    } else {
        31
    }
}

proof fn lemma_year_of_day(year: int, month: int, day: int)
    requires
        1 <= month <= 12,
        day <= 31,
        day_number_of(year, month, day) > FIRST_DAY,
    ensures
        year >= -262143,
{
    reveal_with_fuel(days_before_month, 13);
}

proof fn lemma_year_end(year: int)
    ensures
        day_number_of(year, 1, 1) == day_number_of(year - 1, 12, 31) + 1,
{
    reveal_with_fuel(days_before_month, 13);
}

/// The same time of day, one day before.
pub fn previous_day(t: &LocalTime) -> (r: LocalTime)
    requires
        t.valid(),
        is_calendar_day(t.year as int, t.month as int, t.day as int, t.day_number as int),
        t.day_number > FIRST_DAY + 1,
    ensures
        r.valid(),
        is_calendar_day(r.year as int, r.month as int, r.day as int, r.day_number as int),
        r.day_number == t.day_number - 1,
        r.hour == t.hour && r.minute == t.minute && r.second == t.second,
{
    let mut r = *t;
    r.day_number = t.day_number - 1;
    if t.day > 1 {
        r.day = t.day - 1;
    } else if t.month > 1 {
        r.month = t.month - 1;
        r.day = month_length(t.year, t.month - 1);
    } else {
        proof {
            lemma_year_of_day(t.year as int, 1, 1);
            lemma_year_end(t.year as int);
        }
        r.year = t.year - 1;
        r.month = 12;
        r.day = 31;
        proof {
            lemma_year_of_day(r.year as int, 12, 31);
        }
    }
    r
}

/// The same time of day, so many days before.
pub fn days_before(t: &LocalTime, days: u32) -> (r: LocalTime)
    requires
        t.valid(),
        is_calendar_day(t.year as int, t.month as int, t.day as int, t.day_number as int),
        t.day_number - days > FIRST_DAY,
    ensures
        r.valid(),
        is_calendar_day(r.year as int, r.month as int, r.day as int, r.day_number as int),
        r.day_number == t.day_number - days,
        r.hour == t.hour && r.minute == t.minute && r.second == t.second,
{
    let mut r = *t;
    let mut gone: u32 = 0;
    while gone < days
        invariant
            gone <= days,
            t.day_number - days > FIRST_DAY,
            r.valid(),
            is_calendar_day(r.year as int, r.month as int, r.day as int, r.day_number as int),
            r.day_number == t.day_number - gone,
            r.hour == t.hour && r.minute == t.minute && r.second == t.second,
        decreases days - gone,
    {
        r = previous_day(&r);
        gone += 1;
    }
    r
}

/// Whether seconds and nanoseconds name a reading of the clock on the wall. The nanoseconds pass
/// one second only within a leap second.
pub open spec fn readable(seconds: i64, nanos: u32) -> bool {
    showable(seconds) && (nanos < 1_000_000_000 || (nanos < 2_000_000_000 && seconds as int % 60
        == 59))
}

/// What `chrono::NaiveDateTime::parse_from_str` reads in a text by a format: the seconds from the
/// start of 1970 to that reading of the clock on the wall, and the nanoseconds.
pub uninterp spec fn reading_parsed(text: Seq<char>, format: Seq<char>) -> Option<(i64, u32)>;

/// `chrono::NaiveDateTime::parse_from_str`. What it returns is named; that a reading lies within
/// the calendar is claimed of it.
#[verifier::external_body]
pub(crate) fn parse_reading(text: &str, format: &str) -> (r: Option<(i64, u32)>)
    ensures
        r == reading_parsed(text@, format@),
        r matches Some(reading) ==> readable(reading.0, reading.1),
{
    match chrono::NaiveDateTime::parse_from_str(text, format) {
        Ok(naive) => Some((naive.and_utc().timestamp(), naive.and_utc().timestamp_subsec_nanos())),
        Err(_) => None,
    }
}

/// When the clock on the wall shows a reading.
#[derive(Debug, Clone, Copy, PartialEq, Eq, Structural)]
pub enum WallMoment {
    /// Once, at this point in time.
    Once(i64),
    /// Twice, as where the clock is set back; this is the point in time that `chrono` names first.
    Twice(i64),
    /// Never, as where the clock is set forward.
    Never,
}

/// Whether the clock on the wall may show a reading then: less than a day from where it does in UTC.
pub open spec fn moment_fits(moment: WallMoment, seconds: i64) -> bool {
    match moment {
        WallMoment::Once(t) => -86400 < t - seconds < 86400,
        WallMoment::Twice(t) => -86400 < t - seconds < 86400,
        WallMoment::Never => true,
    }
}

/// `chrono::Local.from_local_datetime` on a reading of the clock on the wall. When the clock shows
/// it rests on the time zone of the machine; claimed is that a point in time that comes back lies
/// less than a day from the reading.
#[verifier::external_body]
pub(crate) fn moment_of(seconds: i64, nanos: u32) -> (r: WallMoment)
    requires
        readable(seconds, nanos),
    ensures
        moment_fits(r, seconds),
{
    let naive = chrono::DateTime::from_timestamp(seconds, nanos).unwrap().naive_utc();
    match chrono::Local.from_local_datetime(&naive) {
        chrono::LocalResult::Single(time) => WallMoment::Once(time.timestamp()),
        chrono::LocalResult::Ambiguous(first, _) => WallMoment::Twice(first.timestamp()),
        chrono::LocalResult::None => WallMoment::Never,
    }
}

/// A day of the calendar.
#[derive(Debug, Clone, Copy, PartialEq, Eq, Structural)]
pub struct CalendarDay {
    pub year: i32,
    pub month: u32,
    pub day: u32,
    /// The number of the day, where the first day of the year 1 is day 1.
    pub number: i32,
}

/// What `chrono::NaiveDate::parse_from_str` reads in a text by a format.
pub uninterp spec fn day_parsed(text: Seq<char>, format: Seq<char>) -> Option<CalendarDay>;

/// What `chrono::NaiveDate::parse_from_str` says of a text that is no day by a format.
pub uninterp spec fn day_fault(text: Seq<char>, format: Seq<char>) -> Seq<char>;

/// `chrono::NaiveDate::parse_from_str`, taken apart by `year`, `month`, `day` and
/// `num_days_from_ce`. What it returns is named, and so is what its error says; that it is a day of
/// the calendar, and its number the one of that day, is claimed of it.
#[verifier::external_body]
pub(crate) fn read_day(text: &str, format: &str) -> (r: Result<CalendarDay, String>)
    ensures
        match r {
            Ok(day) => day_parsed(text@, format@) == Some(day) && FIRST_DAY <= day.number <= LAST_DAY
                && is_calendar_day(
                day.year as int,
                day.month as int,
                day.day as int,
                day.number as int,
            ),
            Err(fault) => day_parsed(text@, format@) is None && fault@ == day_fault(text@, format@),
        },
{
    match chrono::NaiveDate::parse_from_str(text, format) {
        Ok(date) => Ok(CalendarDay {
            year: date.year(),
            month: date.month(),
            day: date.day(),
            number: date.num_days_from_ce(),
        }),
        Err(error) => Err(error.to_string()),
    }
}

/// The day that a text names by a format.
pub(crate) fn parse_day(text: &str, format: &str) -> (r: Option<CalendarDay>)
    ensures
        r == day_parsed(text@, format@),
        r matches Some(day) ==> FIRST_DAY <= day.number <= LAST_DAY && is_calendar_day(
            day.year as int,
            day.month as int,
            day.day as int,
            day.number as int,
        ),
{
    match read_day(text, format) {
        Ok(day) => Some(day),
        Err(_) => None,
    }
}

/// What `chrono::NaiveTime::parse_from_str` reads in a text by a format: the seconds since
/// midnight and the nanoseconds.
pub uninterp spec fn time_parsed(text: Seq<char>, format: Seq<char>) -> Option<(u32, u32)>;

/// What `chrono::NaiveTime::parse_from_str` says of a text that is no time of day by a format.
pub uninterp spec fn time_fault(text: Seq<char>, format: Seq<char>) -> Seq<char>;

/// `chrono::NaiveTime::parse_from_str`. What it returns is named, and so is what its error says;
/// that the seconds lie within a day and the nanoseconds within a second, or a leap second, is
/// claimed of it.
#[verifier::external_body]
pub(crate) fn read_time(text: &str, format: &str) -> (r: Result<(u32, u32), String>)
    ensures
        match r {
            Ok(time) => time_parsed(text@, format@) == Some(time) && time.0 < 86400 && (time.1
                < 1_000_000_000 || (time.1 < 2_000_000_000 && time.0 % 60 == 59)),
            Err(fault) => time_parsed(text@, format@) is None && fault@ == time_fault(
                text@,
                format@,
            ),
        },
{
    match chrono::NaiveTime::parse_from_str(text, format) {
        Ok(time) => Ok((time.num_seconds_from_midnight(), time.nanosecond())),
        Err(error) => Err(error.to_string()),
    }
}

} // verus!
