//! The schedule of a debt: one due date for each installment, a month
//! apart, on the billing day of the account or on the day of the month
//! on which the debt starts.

use crate::calendar::{
    date_from_ymd, day_of, days_in_month, format_iso_date, is_leap_year, is_valid_date,
    iso_date_text, last_day_of_month, last_day_of_month_spec, parse_iso_date, parsed_iso_date,
    CalendarDate, MAX_YEAR, MIN_YEAR,
};
use crate::errors::LedgerError;
use crate::models::{int_of_i32, texts};
use vstd::prelude::*;

verus! {

/// Day of the month on which installments fall due, before it is cut
/// to the length of a month: the billing day where there is one, else
/// the day of the start date.
pub open spec fn anchor_day(start_day: int, billing_day: Option<int>) -> int {
    match billing_day {
        Some(day) => day,
        None => start_day,
    }
}

/// The anchor day, or the last day of the month where the month is
/// shorter.
pub open spec fn clamped_day(anchor: int, last_day: int) -> int {
    if anchor <= last_day {
        anchor
    } else {
        last_day
    }
}

/// Year in which the installment with this number (from 1) falls due.
pub open spec fn due_year(start: (int, int, int), number: int) -> int {
    start.0 + (start.1 - 1 + number) / 12
}

/// Month in which the installment with this number (from 1) falls due:
/// `number` months after the month of the start date.
pub open spec fn due_month(start: (int, int, int), number: int) -> int {
    (start.1 - 1 + number) % 12 + 1
}

/// Due date of the installment with this number (from 1), or `None`
/// where the day so computed is no date.
pub open spec fn due_date(start: (int, int, int), billing_day: Option<int>, number: int) -> Option<
    (int, int, int),
> {
    let year = due_year(start, number);
    let month = due_month(start, number);
    let day = clamped_day(anchor_day(start.2, billing_day), last_day_of_month_spec(year, month));
    if is_valid_date(year, month, day) {
        Some((year, month, day))
    } else {
        None
    }
}

/// Whether `outcome` is the schedule of a debt of `total` installments
/// that starts on `start` (`None`: a start date that is no date).
///
/// A schedule has one date for each installment, in order, written as
/// year, month and day. There is none where the start date is no date,
/// and none where a due date cannot be built: the failure then names
/// the first installment without one.
pub open spec fn is_schedule(
    outcome: Result<Seq<Seq<char>>, LedgerError>,
    start: Option<(int, int, int)>,
    billing_day: Option<int>,
    total: int,
) -> bool {
    match outcome {
        Ok(dates) => {
            &&& start is Some
            &&& dates.len() == if total > 0 {
                total
            } else {
                0
            }
            &&& forall|number: int|
                1 <= number <= dates.len() ==> {
                    &&& (#[trigger] due_date(start->0, billing_day, number)) matches Some(date)
                    &&& dates[number - 1] == iso_date_text(date.0, date.1, date.2)
                }
        },
        Err(LedgerError::InvalidStartDate) => start is None,
        Err(LedgerError::UnconstructibleDueDate { installment }) => {
            &&& start is Some
            &&& 1 <= installment <= total
            &&& due_date(start->0, billing_day, installment as int) is None
            &&& forall|number: int|
                1 <= number < installment ==> (#[trigger] due_date(
                    start->0,
                    billing_day,
                    number,
                )) is Some
        },
        Err(_) => false,
    }
}

/// The texts of a schedule, or its failure.
pub open spec fn schedule_view(outcome: Result<Vec<String>, LedgerError>) -> Result<
    Seq<Seq<char>>,
    LedgerError,
> {
    match outcome {
        Ok(dates) => Ok(texts(dates@)),
        Err(e) => Err(e),
    }
}

/// A start date and a number of installments have one schedule: two
/// outcomes for the same terms are the same.
pub proof fn lemma_schedule_is_unique(
    first: Result<Seq<Seq<char>>, LedgerError>,
    second: Result<Seq<Seq<char>>, LedgerError>,
    start: Option<(int, int, int)>,
    billing_day: Option<int>,
    total: int,
)
    requires
        is_schedule(first, start, billing_day, total),
        is_schedule(second, start, billing_day, total),
    ensures
        first == second,
{
    match (first, second) {
        (Ok(a), Ok(b)) => {
            assert forall|i: int| 0 <= i < a.len() implies a[i] == b[i] by {
                let d = due_date(start->0, billing_day, i + 1);
            }
            assert(a =~= b);
        },
        (Ok(a), Err(LedgerError::UnconstructibleDueDate { installment })) => {
            let d = due_date(start->0, billing_day, installment as int);
            assert(false);
        },
        (Err(LedgerError::UnconstructibleDueDate { installment }), Ok(b)) => {
            let d = due_date(start->0, billing_day, installment as int);
            assert(false);
        },
        (
            Err(LedgerError::UnconstructibleDueDate { installment: k1 }),
            Err(LedgerError::UnconstructibleDueDate { installment: k2 }),
        ) => {
            if k1 < k2 {
                let d = due_date(start->0, billing_day, k1 as int);
                assert(false);
            }
            if k2 < k1 {
                let d = due_date(start->0, billing_day, k2 as int);
                assert(false);
            }
        },
        _ => {},
    }
}

/// Number of the first installment, among the first `count`, whose due
/// date is no date; `None` where each of them has one.
pub open spec fn first_unconstructible(
    start: (int, int, int),
    billing_day: Option<int>,
    count: int,
) -> Option<int>
    decreases count,
{
    if count <= 0 {
        None
    } else {
        match first_unconstructible(start, billing_day, count - 1) {
            Some(number) => Some(number),
            None => if due_date(start, billing_day, count) is None {
                Some(count)
            } else {
                None
            },
        }
    }
}

/// The schedule of a debt of `total` installments that starts on
/// `start` (`None`: a start date that is no date): the due dates as
/// text, or the failure that names the first installment without one.
pub open spec fn schedule_of(
    start: Option<(int, int, int)>,
    billing_day: Option<int>,
    total: int,
) -> Result<Seq<Seq<char>>, LedgerError> {
    match start {
        None => Err(LedgerError::InvalidStartDate),
        Some(first) => match first_unconstructible(first, billing_day, total) {
            Some(number) => Err(LedgerError::UnconstructibleDueDate { installment: number as i32 }),
            None => Ok(
                Seq::new(
                    (if total > 0 {
                        total
                    } else {
                        0
                    }) as nat,
                    |i: int|
                        {
                            let date = due_date(first, billing_day, i + 1)->0;
                            iso_date_text(date.0, date.1, date.2)
                        },
                ),
            ),
        },
    }
}

/// What `first_unconstructible` finds is the first installment without
/// a due date, and it finds one wherever there is one.
pub proof fn lemma_first_unconstructible(
    start: (int, int, int),
    billing_day: Option<int>,
    count: int,
)
    ensures
        match first_unconstructible(start, billing_day, count) {
            Some(number) => {
                &&& 1 <= number <= count
                &&& due_date(start, billing_day, number) is None
                &&& forall|earlier: int|
                    1 <= earlier < number ==> (#[trigger] due_date(start, billing_day, earlier))
                        is Some
            },
            None => forall|number: int|
                1 <= number <= count ==> (#[trigger] due_date(start, billing_day, number))
                    is Some,
        },
    decreases count,
{
    if count > 0 {
        lemma_first_unconstructible(start, billing_day, count - 1);
    }
}

/// Every start date and number of installments has a schedule, and it
/// is `schedule_of` them.
pub proof fn lemma_schedule_exists(
    start: Option<(int, int, int)>,
    billing_day: Option<int>,
    total: int,
)
    requires
        total <= i32::MAX,
    ensures
        is_schedule(schedule_of(start, billing_day, total), start, billing_day, total),
{
    if let Some(first) = start {
        lemma_first_unconstructible(first, billing_day, total);
    }
}

/// An outcome that is the schedule for the terms is `schedule_of` them.
pub proof fn lemma_schedule_of(
    outcome: Result<Seq<Seq<char>>, LedgerError>,
    start: Option<(int, int, int)>,
    billing_day: Option<int>,
    total: int,
)
    requires
        is_schedule(outcome, start, billing_day, total),
        total <= i32::MAX,
    ensures
        schedule_of(start, billing_day, total) == outcome,
{
    lemma_schedule_exists(start, billing_day, total);
    lemma_schedule_is_unique(
        schedule_of(start, billing_day, total),
        outcome,
        start,
        billing_day,
        total,
    );
}

/// With the anchor on the 31st and a start in January, the first
/// installment falls due on the last day of February: the 29th in a
/// leap year, the 28th otherwise.
pub proof fn lemma_end_of_january_falls_to_end_of_february(
    start: (int, int, int),
    billing_day: Option<int>,
)
    requires
        is_valid_date(start.0, start.1, start.2),
        start.1 == 1,
        anchor_day(start.2, billing_day) == 31,
    ensures
        due_date(start, billing_day, 1) == Some(
            (start.0, 2int, if is_leap_year(start.0) {
                29int
            } else {
                28int
            }),
        ),
{
}

/// Each installment falls due in the month after the one before it,
/// and the first in the month after the start.
pub proof fn lemma_due_months_follow(start: (int, int, int), number: int)
    requires
        1 <= start.1 <= 12,
        number >= 1,
    ensures
        1 <= due_month(start, number) <= 12,
        due_year(start, 1) * 12 + due_month(start, 1) == start.0 * 12 + start.1 + 1,
        due_year(start, number + 1) * 12 + due_month(start, number + 1) == due_year(start, number)
            * 12 + due_month(start, number) + 1,
{
}

/// An anchor that every month has (1 to 28) is the due day of every
/// installment, and an anchor of 29 to 31 is cut to the length of the
/// month, as long as the schedule stays within the years a date can
/// hold.
pub proof fn lemma_due_day_is_anchor_cut_to_month(
    start: (int, int, int),
    billing_day: Option<int>,
    number: int,
)
    requires
        is_valid_date(start.0, start.1, start.2),
        number >= 1,
        due_year(start, number) < MAX_YEAR,
        1 <= anchor_day(start.2, billing_day),
    ensures
        due_date(start, billing_day, number) matches Some(date) && date.0 == due_year(start, number)
            && date.1 == due_month(start, number) && date.2 == clamped_day(
            anchor_day(start.2, billing_day),
            days_in_month(date.0, date.1),
        ),
{
}

/// A debt whose schedule stays within the years that a date can hold,
/// on an anchor day of 1 or above, has a schedule: one due date for
/// each installment, a month apart, each on the anchor day or on the
/// last day of a month that is shorter.
pub proof fn lemma_schedule_within_years(
    start: (int, int, int),
    billing_day: Option<int>,
    total: int,
)
    requires
        is_valid_date(start.0, start.1, start.2),
        total <= i32::MAX,
        1 <= anchor_day(start.2, billing_day),
        due_year(start, total) < MAX_YEAR,
    ensures
        schedule_of(Some(start), billing_day, total) matches Ok(dates) && dates.len() == (
        if total > 0 {
            total
        } else {
            0
        }) && forall|number: int|
            1 <= number <= total ==> #[trigger] dates[number - 1] == iso_date_text(
                due_year(start, number),
                due_month(start, number),
                clamped_day(
                    anchor_day(start.2, billing_day),
                    days_in_month(due_year(start, number), due_month(start, number)),
                ),
            ),
{
    lemma_first_unconstructible(start, billing_day, total);
    assert forall|number: int| 1 <= number <= total implies (#[trigger] due_date(
        start,
        billing_day,
        number,
    )) is Some by {
        assert(due_year(start, number) <= due_year(start, total));
        lemma_due_day_is_anchor_cut_to_month(start, billing_day, number);
    }
    if let Some(number) = first_unconstructible(start, billing_day, total) {
        assert(due_date(start, billing_day, number) is Some);
    }
    let dates = schedule_of(Some(start), billing_day, total)->Ok_0;
    assert forall|number: int| 1 <= number <= total implies #[trigger] dates[number - 1]
        == iso_date_text(
        due_year(start, number),
        due_month(start, number),
        clamped_day(
            anchor_day(start.2, billing_day),
            days_in_month(due_year(start, number), due_month(start, number)),
        ),
    ) by {
        assert(due_year(start, number) <= due_year(start, total));
        lemma_due_day_is_anchor_cut_to_month(start, billing_day, number);
    }
}

/// With the anchor on the 31st and a start in January, the schedule of
/// a debt of at least one installment begins on the last day of
/// February: the 29th in a leap year, the 28th otherwise.
pub proof fn lemma_schedule_begins_at_end_of_february(
    start: (int, int, int),
    billing_day: Option<int>,
    total: int,
)
    requires
        is_valid_date(start.0, start.1, start.2),
        start.1 == 1,
        anchor_day(start.2, billing_day) == 31,
        1 <= total <= i32::MAX,
        due_year(start, total) < MAX_YEAR,
    ensures
        schedule_of(Some(start), billing_day, total) matches Ok(dates) && dates.len() == total
            && dates[0] == iso_date_text(
            start.0,
            2,
            if is_leap_year(start.0) {
                29
            } else {
                28
            },
        ),
{
    lemma_schedule_within_years(start, billing_day, total);
    let dates = schedule_of(Some(start), billing_day, total)->Ok_0;
    assert(dates[1 - 1] == dates[0]);
}

/// Due dates of the installments from `start` on, each a month after
/// the one before, computed from a start date that has been read.
///
/// `Ok` holds `total_installments` dates (none where that is not above
/// zero). The result is `Err(InvalidStartDate)` exactly where `start` is
/// `None` or a day that does not exist, and
/// `Err(UnconstructibleDueDate)` with the number of the first
/// installment whose due date is no date: a billing day below 1, or a
/// schedule that runs past the last year a date can hold. A billing day
/// above the length of a month falls on the last day of the month.
pub fn due_dates_from(
    start: Option<CalendarDate>,
    billing_day: Option<i32>,
    total_installments: i32,
) -> (r: Result<Vec<String>, LedgerError>)
    ensures
        is_schedule(
            schedule_view(r),
            day_of(start),
            int_of_i32(billing_day),
            total_installments as int,
        ),
{
    let first = match start {
        Some(d) => match date_from_ymd(d.year, d.month, d.day) {
            Some(day) => day,
            None => {
                return Err(LedgerError::InvalidStartDate);
            },
        },
        None => {
            return Err(LedgerError::InvalidStartDate);
        },
    };
    let mut dates: Vec<String> = Vec::new();
    let mut number: i32 = 1;
    while number <= total_installments
        invariant
            day_of(start) == Some(first@),
            first.wf(),
            1 <= number,
            number <= total_installments + 1 || dates.len() == 0,
            total_installments >= 1 ==> number <= total_installments + 1,
            dates.len() == number - 1,
            number >= 2 ==> due_year(first@, number - 1) <= MAX_YEAR,
            forall|n: int|
                1 <= n <= dates.len() ==> {
                    &&& (#[trigger] due_date(first@, int_of_i32(billing_day), n)) matches Some(date)
                    &&& dates[n - 1]@ == iso_date_text(date.0, date.1, date.2)
                },
        decreases total_installments + 1 - number,
    {
        assert(number <= 12 * (MAX_YEAR - MIN_YEAR + 2)) by {
            if number >= 2 {
                let offset: int = first.month - 1 + (number - 1);
                assert(first.year + offset / 12 <= MAX_YEAR);
            }
        }
        let months_offset: i32 = (first.month as i32 - 1) + number;
        let target_year: i32 = first.year + months_offset / 12;
        let target_month: u32 = (months_offset % 12) as u32 + 1;
        let last_day: u32 = last_day_of_month(target_year, target_month);
        let clamped: u32 = match billing_day {
            Some(day) => if day < 1 {
                return Err(LedgerError::UnconstructibleDueDate { installment: number });
            } else if (day as u32) <= last_day {
                day as u32
            } else {
                last_day
            },
            None => if first.day <= last_day {
                first.day
            } else {
                last_day
            },
        };
        assert(target_year == due_year(first@, number as int));
        assert(target_month == due_month(first@, number as int));
        assert(clamped == clamped_day(
            anchor_day(first.day as int, int_of_i32(billing_day)),
            last_day_of_month_spec(target_year as int, target_month as int),
        ));
        let date = match date_from_ymd(target_year, target_month, clamped) {
            Some(date) => date,
            None => {
                return Err(LedgerError::UnconstructibleDueDate { installment: number });
            },
        };
        dates.push(format_iso_date(date));
        number = number + 1;
    }
    proof {
        assert(texts(dates@).len() == dates.len());
        assert forall|i: int| 0 <= i < dates.len() implies texts(dates@)[i] == dates[i]@ by {}
    }
    Ok(dates)
}

/// Due dates of a debt that starts on `start_date` (year, month and
/// day with hyphens between them), one for each of `total_installments`
/// installments: the first a month after the start, each on the billing
/// day, or on the day of the start date where there is none, and on the
/// last day of the month where the month is shorter.
///
/// What the start date reads as is `parsed_iso_date`; for what follows
/// from it, see `due_dates_from`.
pub fn calculate_due_dates(
    start_date: &str,
    billing_day: Option<i32>,
    total_installments: i32,
) -> (r: Result<Vec<String>, LedgerError>)
    ensures
        is_schedule(
            schedule_view(r),
            parsed_iso_date(start_date@),
            int_of_i32(billing_day),
            total_installments as int,
        ),
        schedule_view(r) == schedule_of(
            parsed_iso_date(start_date@),
            int_of_i32(billing_day),
            total_installments as int,
        ),
        parsed_iso_date(start_date@) matches Some(day) ==> is_valid_date(day.0, day.1, day.2),
{
    let start = parse_iso_date(start_date);
    let r = due_dates_from(start, billing_day, total_installments);
    proof {
        lemma_schedule_of(
            schedule_view(r),
            parsed_iso_date(start_date@),
            int_of_i32(billing_day),
            total_installments as int,
        );
    }
    r
}

} // verus!
