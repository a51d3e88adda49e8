use necronomics::calendar::{last_day_of_month, CalendarDate};
use necronomics::errors::{ErrorKind, LedgerError};
use necronomics::schedule::{calculate_due_dates, due_dates_from};

fn strings(list: &[&str]) -> Vec<String> {
    list.iter().map(|s| s.to_string()).collect()
}

#[test]
fn twelve_installments_from_mid_january() {
    let dates = calculate_due_dates("2024-01-15", None, 12).unwrap();
    assert_eq!(
        dates,
        strings(&[
            "2024-02-15", "2024-03-15", "2024-04-15", "2024-05-15", "2024-06-15", "2024-07-15",
            "2024-08-15", "2024-09-15", "2024-10-15", "2024-11-15", "2024-12-15", "2025-01-15",
        ])
    );
}

#[test]
fn anchor_31_is_clamped_to_end_of_february_in_a_leap_year() {
    let dates = calculate_due_dates("2024-01-31", None, 3).unwrap();
    assert_eq!(dates, strings(&["2024-02-29", "2024-03-31", "2024-04-30"]));
}

#[test]
fn anchor_31_is_clamped_to_end_of_february_in_a_common_year() {
    let dates = calculate_due_dates("2023-01-10", Some(31), 2).unwrap();
    assert_eq!(dates, strings(&["2023-02-28", "2023-03-31"]));
}

#[test]
fn billing_day_overrides_the_day_of_the_start_date() {
    let dates = calculate_due_dates("2024-11-30", Some(5), 3).unwrap();
    assert_eq!(dates, strings(&["2024-12-05", "2025-01-05", "2025-02-05"]));
}

#[test]
fn schedule_is_the_same_when_asked_twice() {
    let first = calculate_due_dates("2024-05-31", Some(30), 24);
    let second = calculate_due_dates("2024-05-31", Some(30), 24);
    assert_eq!(first, second);
    assert_eq!(first.unwrap().len(), 24);
}

#[test]
fn no_installments_give_an_empty_schedule() {
    assert_eq!(calculate_due_dates("2024-01-15", None, 0), Ok(Vec::new()));
    assert_eq!(calculate_due_dates("2024-01-15", None, -3), Ok(Vec::new()));
}

#[test]
fn unreadable_start_date_is_an_invalid_date() {
    let e = calculate_due_dates("15/01/2024", None, 12).unwrap_err();
    assert_eq!(e, LedgerError::InvalidStartDate);
    assert_eq!(e.kind(), ErrorKind::InvalidDate);
    assert_eq!(calculate_due_dates("", None, 1), Err(LedgerError::InvalidStartDate));
    assert_eq!(calculate_due_dates("2024-02-30", None, 1), Err(LedgerError::InvalidStartDate));
}

#[test]
fn billing_day_zero_cannot_be_built() {
    assert_eq!(
        calculate_due_dates("2024-01-15", Some(0), 12),
        Err(LedgerError::UnconstructibleDueDate { installment: 1 })
    );
}

#[test]
fn billing_day_beyond_every_month_falls_on_the_last_day() {
    let dates = calculate_due_dates("2024-01-15", Some(40), 2).unwrap();
    assert_eq!(dates, strings(&["2024-02-29", "2024-03-31"]));
    let dates = calculate_due_dates("2024-01-15", Some(31), 3).unwrap();
    assert_eq!(dates, strings(&["2024-02-29", "2024-03-31", "2024-04-30"]));
}

#[test]
fn billing_day_below_one_builds_no_date() {
    assert_eq!(
        calculate_due_dates("2024-01-15", Some(-1), 2),
        Err(LedgerError::UnconstructibleDueDate { installment: 1 })
    );
    assert_eq!(calculate_due_dates("2024-01-15", Some(-1), 0), Ok(Vec::new()));
}

#[test]
fn schedule_past_the_last_year_names_the_first_missing_installment() {
    let start = CalendarDate { year: 262142, month: 11, day: 30 };
    assert_eq!(
        due_dates_from(Some(start), None, 5),
        Err(LedgerError::UnconstructibleDueDate { installment: 2 })
    );
    assert_eq!(due_dates_from(Some(start), None, 1), Ok(strings(&["+262142-12-28"])));
}

#[test]
fn due_dates_from_a_read_date() {
    let start = CalendarDate { year: 1999, month: 12, day: 31 };
    assert_eq!(
        due_dates_from(Some(start), None, 3),
        Ok(strings(&["2000-01-31", "2000-02-29", "2000-03-31"]))
    );
    assert_eq!(due_dates_from(None, Some(3), 3), Err(LedgerError::InvalidStartDate));
}

#[test]
fn years_outside_four_digits_are_signed() {
    let start = CalendarDate { year: 9999, month: 12, day: 1 };
    assert_eq!(due_dates_from(Some(start), None, 1), Ok(strings(&["+10000-01-01"])));
    let start = CalendarDate { year: -1, month: 3, day: 7 };
    assert_eq!(due_dates_from(Some(start), None, 1), Ok(strings(&["-0001-04-07"])));
    let start = CalendarDate { year: 12, month: 3, day: 7 };
    assert_eq!(due_dates_from(Some(start), None, 1), Ok(strings(&["0012-04-07"])));
}

#[test]
fn last_day_of_each_month() {
    let lengths: Vec<u32> = (1..=12).map(|m| last_day_of_month(2023, m)).collect();
    assert_eq!(lengths, vec![31, 28, 31, 30, 31, 30, 31, 31, 30, 31, 30, 31]);
    assert_eq!(last_day_of_month(2024, 2), 29);
    assert_eq!(last_day_of_month(1900, 2), 28);
    assert_eq!(last_day_of_month(2000, 2), 29);
}

#[test]
fn last_day_of_what_is_no_month() {
    assert_eq!(last_day_of_month(2024, 13), 28);
    assert_eq!(last_day_of_month(2024, u32::MAX), 28);
    assert_eq!(last_day_of_month(2024, 0), 31);
    assert_eq!(last_day_of_month(-262143, 0), 28);
    assert_eq!(last_day_of_month(262142, 12), 28);
    assert_eq!(last_day_of_month(i32::MAX, 12), 28);
    assert_eq!(last_day_of_month(262142, 11), 30);
}
