//! Calendar dates of the proleptic Gregorian calendar, and the date
//! arithmetic and date text that the rest of the library builds on.
//! The arithmetic itself is done by `chrono`; this module states what
//! it yields.

use chrono::Datelike;
use chrono::NaiveDate;
use vstd::prelude::*;

verus! {

/// First year that a date can have.
pub const MIN_YEAR: i32 = -262143;

/// Last year that a date can have.
pub const MAX_YEAR: i32 = 262142;

/// Whether `year` has a 29th of February.
pub open spec fn is_leap_year(year: int) -> bool {
    (year % 4 == 0 && year % 100 != 0) || year % 400 == 0
}

/// Number of days of `month` (1 to 12) in `year`.
pub open spec fn days_in_month(year: int, month: int) -> int {
    if month == 2 {
        if is_leap_year(year) {
            29
        } else {
            28
        }
    } else if month == 4 || month == 6 || month == 9 || month == 11 {
        30
    } else {
        31
    }
}

/// Whether (`year`, `month`, `day`) names a day that exists and that a
/// date can hold.
pub open spec fn is_valid_date(year: int, month: int, day: int) -> bool {
    &&& MIN_YEAR <= year <= MAX_YEAR
    &&& 1 <= month <= 12
    &&& 1 <= day <= days_in_month(year, month)
}

/// The day before (`year`, `month`, `day`), or `None` for the first day
/// that a date can hold.
pub open spec fn previous_day_of(year: int, month: int, day: int) -> Option<(int, int, int)> {
    if day > 1 {
        Some((year, month, day - 1))
    } else if month > 1 {
        Some((year, month - 1, days_in_month(year, month - 1)))
    } else if year > MIN_YEAR {
        Some((year - 1, 12, 31))
    } else {
        None
    }
}

/// The character of one decimal digit.
pub open spec fn digit_char(digit: int) -> char {
    if digit == 0 {
        '0'
    } else if digit == 1 {
        '1'
    } else if digit == 2 {
        '2'
    } else if digit == 3 {
        '3'
    } else if digit == 4 {
        '4'
    } else if digit == 5 {
        '5'
    } else if digit == 6 {
        '6'
    } else if digit == 7 {
        '7'
    } else if digit == 8 {
        '8'
    } else {
        '9'
    }
}

/// Decimal digits of a number that is not negative, without padding.
pub open spec fn decimal_text(number: int) -> Seq<char>
    decreases number,
{
    if number < 10 {
        seq![digit_char(number)]
    } else {
        decimal_text(number / 10).push(digit_char(number % 10))
    }
}

/// Decimal digits of a number that is not negative, with zeros in front
/// until there are `width` characters.
pub open spec fn zero_padded(number: int, width: int) -> Seq<char> {
    let digits = decimal_text(number);
    if digits.len() >= width {
        digits
    } else {
        Seq::new((width - digits.len()) as nat, |i: int| '0') + digits
    }
}

/// Text of a year: four digits from 0 to 9999, otherwise a sign and at
/// least four digits.
pub open spec fn year_text(year: int) -> Seq<char> {
    if 0 <= year <= 9999 {
        zero_padded(year, 4)
    } else if year < 0 {
        seq!['-'] + zero_padded(-year, 4)
    } else {
        seq!['+'] + zero_padded(year, 4)
    }
}

/// Text of a date as year, month and day with hyphens between them,
/// such as `2024-02-29`.
pub open spec fn iso_date_text(year: int, month: int, day: int) -> Seq<char> {
    year_text(year) + seq!['-'] + zero_padded(month, 2) + seq!['-'] + zero_padded(day, 2)
}

/// What reading a text as year, month and day with hyphens between them
/// gives: the date, or `None` where the text is no such date.
pub uninterp spec fn parsed_iso_date(text: Seq<char>) -> Option<(int, int, int)>;

/// A day of the calendar.
#[derive(Clone, Copy, Debug, PartialEq, Eq, Structural)]
pub struct CalendarDate {
    pub year: i32,
    pub month: u32,
    pub day: u32,
}

impl View for CalendarDate {
    type V = (int, int, int);

    open spec fn view(&self) -> (int, int, int) {
        (self.year as int, self.month as int, self.day as int)
    }
}

impl CalendarDate {
    /// The day exists.
    pub open spec fn wf(&self) -> bool {
        is_valid_date(self.year as int, self.month as int, self.day as int)
    }
}

/// The day that an optional date holds, if it holds one and the day
/// exists.
pub open spec fn day_of(date: Option<CalendarDate>) -> Option<(int, int, int)> {
    match date {
        Some(day) => if day.wf() {
            Some(day@)
        } else {
            None
        },
        None => None,
    }
}

/// `chrono::NaiveDate::from_ymd_opt`. It gives a date exactly for the
/// triples that name an existing day within the years a date can hold,
/// and that date has the year, month and day it was asked for.
#[verifier::external_body]
pub(crate) fn date_from_ymd(year: i32, month: u32, day: u32) -> (r: Option<CalendarDate>)
    ensures
        r is Some <==> is_valid_date(year as int, month as int, day as int),
        r matches Some(d) ==> d.year == year && d.month == month && d.day == day,
{
    match NaiveDate::from_ymd_opt(year, month, day) {
        Some(d) => Some(CalendarDate { year: d.year(), month: d.month(), day: d.day() }),
        None => None,
    }
}

/// `chrono::NaiveDate::pred_opt`, on the date that
/// `NaiveDate::from_ymd_opt` makes of the day. It gives the previous
/// day of the calendar, and `None` only for the first day a date can
/// hold.
#[verifier::external_body]
pub(crate) fn previous_day(date: CalendarDate) -> (r: Option<CalendarDate>)
    requires
        date.wf(),
    ensures
        r matches Some(p) ==> p.wf() && previous_day_of(
            date.year as int,
            date.month as int,
            date.day as int,
        ) == Some(p@),
        r is None ==> previous_day_of(date.year as int, date.month as int, date.day as int)
            is None,
{
    let day = NaiveDate::from_ymd_opt(date.year, date.month, date.day).unwrap();
    match day.pred_opt() {
        Some(p) => Some(CalendarDate { year: p.year(), month: p.month(), day: p.day() }),
        None => None,
    }
}

/// `chrono::NaiveDate::parse_from_str` with the format `%Y-%m-%d`. What
/// it reads is named by `parsed_iso_date`; a date that it gives exists.
#[verifier::external_body]
pub(crate) fn parse_iso_date(text: &str) -> (r: Option<CalendarDate>)
    ensures
        r matches Some(d) ==> d.wf() && parsed_iso_date(text@) == Some(d@),
        r is None ==> parsed_iso_date(text@) is None,
{
    match NaiveDate::parse_from_str(text, "%Y-%m-%d") {
        Ok(d) => Some(CalendarDate { year: d.year(), month: d.month(), day: d.day() }),
        Err(_) => None,
    }
}

/// `chrono::NaiveDate::format` with the format `%Y-%m-%d`, on the date
/// that `NaiveDate::from_ymd_opt` makes of the day, written out as a
/// `String`: the year in four digits (signed, and longer where it must
/// be, outside 0 to 9999), the month and the day in two digits.
#[verifier::external_body]
pub(crate) fn format_iso_date(date: CalendarDate) -> (r: String)
    requires
        date.wf(),
    ensures
        r@ == iso_date_text(date.year as int, date.month as int, date.day as int),
{
    let day = NaiveDate::from_ymd_opt(date.year, date.month, date.day).unwrap();
    day.format("%Y-%m-%d").to_string()
}

/// Whether the text is a day of the calendar written as year, month and
/// day with hyphens between them.
pub open spec fn is_day_text(text: Seq<char>) -> bool {
    exists|year: int, month: int, day: int|
        is_valid_date(year, month, day) && text == #[trigger] iso_date_text(year, month, day)
}

/// `chrono::Local::now`, formatted as `%Y-%m-%d`: the day it is on this
/// machine. Which day is not known beforehand; it is a day of the
/// calendar, written as `NaiveDate::format` writes one.
#[verifier::external_body]
pub(crate) fn today_text() -> (r: String)
    ensures
        is_day_text(r@),
{
    chrono::Local::now().format("%Y-%m-%d").to_string()
}

/// Last day of `month` in `year` as the day before the first of the
/// next month; 28 where that first is no date.
pub open spec fn last_day_of_month_spec(year: int, month: int) -> int {
    if 1 <= month <= 12 && MIN_YEAR <= year && (if month == 12 {
        year < MAX_YEAR
    } else {
        year <= MAX_YEAR
    }) {
        days_in_month(year, month)
    } else if month == 0 && MIN_YEAR < year <= MAX_YEAR {
        31
    } else {
        28
    }
}

/// Last day of the given month: the day before the first day of the
/// month after it. Where that first day is no date (the month is not
/// one of the twelve, or the next month lies outside the years a date
/// can hold) the answer is 28.
pub fn last_day_of_month(year: i32, month: u32) -> (r: u32)
    ensures
        r == last_day_of_month_spec(year as int, month as int),
        is_valid_date(year as int, month as int, 1) && year < MAX_YEAR ==> r == days_in_month(
            year as int,
            month as int,
        ),
{
    let first_of_next = if month == 12 {
        if year < i32::MAX {
            date_from_ymd(year + 1, 1, 1)
        } else {
            None
        }
    } else if month < u32::MAX {
        date_from_ymd(year, month + 1, 1)
    } else {
        None
    };
    match first_of_next {
        Some(first) => match previous_day(first) {
            Some(last) => last.day,
            None => 28,
        },
        None => 28,
    }
}

/// Number of days of the month (1 to 12) in the year.
pub fn month_length(year: i32, month: u32) -> (r: u32)
    ensures
        r == days_in_month(year as int, month as int),
{
    if month == 2 {
        // Leap years come round every 400 years: a year is a leap year
        // where the year that many years later is one.
        let later: i64 = year as i64 + 2147484000;
        assert((year as int) % 4 == (later as int) % 4 && (year as int) % 100 == (later as int)
            % 100 && (year as int) % 400 == (later as int) % 400);
        if (later % 4 == 0 && later % 100 != 0) || later % 400 == 0 {
            29
        } else {
            28
        }
    } else if month == 4 || month == 6 || month == 9 || month == 11 {
        30
    } else {
        31
    }
}

/// The day six months after a day: the same day of the month six
/// months on, and where that month is too short, as many days into the
/// month after it as the day lies past its end.
pub open spec fn six_months_after(day: (int, int, int)) -> (int, int, int) {
    let months = day.1 - 1 + 6;
    let year = day.0 + months / 12;
    let month = months % 12 + 1;
    if day.2 <= days_in_month(year, month) {
        (year, month, day.2)
    } else if month == 12 {
        (year + 1, 1, day.2 - days_in_month(year, month))
    } else {
        (year, month + 1, day.2 - days_in_month(year, month))
    }
}

/// The day six months after a day of the calendar is a day of the
/// calendar, unless it lies past the last year that a date can hold.
pub proof fn lemma_six_months_after_is_a_day(day: (int, int, int))
    requires
        is_valid_date(day.0, day.1, day.2),
        six_months_after(day).0 <= MAX_YEAR,
    ensures
        is_valid_date(
            six_months_after(day).0,
            six_months_after(day).1,
            six_months_after(day).2,
        ),
{
}

/// The day six months after a day: see `six_months_after`. `None`
/// where the day does not exist, or the day six months after it lies
/// past the last year that a date can hold.
pub fn six_months_from(day: CalendarDate) -> (r: Option<CalendarDate>)
    ensures
        match r {
            Some(later) => day.wf() && later.wf() && later@ == six_months_after(day@),
            None => day.wf() ==> six_months_after(day@).0 > MAX_YEAR,
        },
{
    if date_from_ymd(day.year, day.month, day.day).is_none() {
        return None;
    }
    let months: u32 = day.month - 1 + 6;
    let year: i32 = day.year + (months / 12) as i32;
    let month: u32 = months % 12 + 1;
    let length: u32 = month_length(year, month);
    if day.day <= length {
        date_from_ymd(year, month, day.day)
    } else if month == 12 {
        date_from_ymd(year + 1, 1, day.day - length)
    } else {
        date_from_ymd(year, month + 1, day.day - length)
    }
}

/// The day six months after the given day, as text; `None` where the
/// text is no date or the day six months after it lies past the last
/// year that a date can hold. What the text reads as is
/// `parsed_iso_date`; for what follows from it, see `six_months_from`.
pub fn six_months_later(day: &str) -> (r: Option<String>)
    ensures
        match r {
            Some(text) => {
                &&& parsed_iso_date(day@) matches Some(read)
                &&& six_months_after(read).0 <= MAX_YEAR
                &&& text@ == iso_date_text(
                    six_months_after(read).0,
                    six_months_after(read).1,
                    six_months_after(read).2,
                )
            },
            None => parsed_iso_date(day@) matches Some(read) ==> six_months_after(read).0
                > MAX_YEAR,
        },
        parsed_iso_date(day@) matches Some(read) ==> is_valid_date(read.0, read.1, read.2),
{
    match parse_iso_date(day) {
        Some(read) => match six_months_from(read) {
            Some(later) => Some(format_iso_date(later)),
            None => None,
        },
        None => None,
    }
}

} // verus!
