//! Debts and their installments: how a debt is opened with its whole
//! schedule, changed, deleted, and paid off one installment at a time.

use crate::balance::{
    balances_are_consistent, lemma_balance_after_push, recalculate_account_balance, recalculated,
    signed_total,
};
use crate::calendar::{
    day_of, days_in_month, is_day_text, is_valid_date, iso_date_text, parse_iso_date,
    parsed_iso_date, today_text, CalendarDate, MAX_YEAR,
};
use crate::errors::LedgerError;
use crate::ledger::{
    find, fresh_id, ids_are_new, is_first_with_key, is_new_id, keys_are_unique,
    lemma_filter_is_within, lemma_position_is_first, lemma_position_of_first,
    lemma_position_of_missing, lemma_unique_after_add, lemma_unique_after_filter,
    lemma_unique_after_push, lemma_unique_after_remove, lemma_unique_after_update, outcome_view,
    position, Keyed, Ledger, LedgerView,
};
use crate::models::{
    copy_text, int_of_i32, lemma_views_after_push, lemma_views_after_remove,
    lemma_views_after_update, texts, views_of, AccountView, CreateDebtInput, CreditUtilization, CreditUtilizationView, Debt,
    DebtChanges, DebtTerms, DebtView, DebtWithInstallments, DebtWithInstallmentsView, Installment,
    InstallmentView, Transaction, TransactionView, UpdateDebtInput,
};
use crate::ordering::{in_order, sort, Ordered, OrderedRow};
use crate::schedule::{
    anchor_day, calculate_due_dates, clamped_day, due_dates_from, due_month, due_year,
    lemma_schedule_exists, lemma_schedule_of, lemma_schedule_within_years, schedule_of,
    schedule_view,
};
use crate::text::{decimal_string, signed_decimal_text};
use crate::transactions::{
    balance_fits, lemma_recalculation_restores, type_matches, types_match_categories,
};
use vstd::prelude::*;
use vstd::string::StringExecFns;

verus! {

/// The row of a debt that has just been opened: active, with no
/// installment paid, and without the time that the store will stamp on
/// it.
pub open spec fn new_debt(id: Seq<char>, terms: DebtTerms) -> DebtView {
    DebtView {
        id,
        account_id: terms.account_id,
        description: terms.description,
        original_amount: terms.original_amount,
        total_installments: terms.total_installments,
        paid_installments: 0,
        monthly_payment: terms.monthly_payment,
        interest_rate_bits: terms.interest_rate_bits,
        start_date: terms.start_date,
        is_active: 1,
        notes: terms.notes,
        created_at: Seq::empty(),
    }
}

/// The row of an installment that has just been scheduled: pending.
pub open spec fn new_installment(
    id: Seq<char>,
    debt_id: Seq<char>,
    number: int,
    due_date: Seq<char>,
    amount: int,
) -> InstallmentView {
    InstallmentView {
        id,
        debt_id,
        installment_number: number,
        due_date,
        amount,
        status: "pending"@,
        actual_payment_date: None,
        transaction_id: None,
        created_at: Seq::empty(),
    }
}

/// The installments of a debt that has just been opened: one for each
/// due date, numbered from 1 in the order of the dates, each of the
/// same amount.
pub open spec fn new_installments(
    ids: Seq<Seq<char>>,
    debt_id: Seq<char>,
    dates: Seq<Seq<char>>,
    amount: int,
) -> Seq<InstallmentView> {
    Seq::new(dates.len(), |k: int| new_installment(ids[k], debt_id, k + 1, dates[k], amount))
}

/// The rule that the terms of a debt break, if any; the first in this
/// order: there is a description, the principal, the number of
/// installments and the monthly payment are above zero, there is a
/// start date, the account exists and is active.
pub open spec fn debt_refusal(pre: LedgerView, terms: DebtTerms) -> Option<LedgerError> {
    let account = position(pre.accounts, terms.account_id);
    if terms.description.len() == 0 {
        Some(LedgerError::EmptyDescription)
    } else if terms.original_amount <= 0 {
        Some(LedgerError::NonPositivePrincipal)
    } else if terms.total_installments <= 0 {
        Some(LedgerError::NonPositiveInstallmentCount)
    } else if terms.monthly_payment <= 0 {
        Some(LedgerError::NonPositiveMonthlyPayment)
    } else if terms.start_date.len() == 0 {
        Some(LedgerError::EmptyStartDate)
    } else if account is None {
        Some(LedgerError::AccountNotFound)
    } else if pre.accounts[account->0].is_active != 1 {
        Some(LedgerError::DebtOnInactiveAccount)
    } else {
        None
    }
}

/// What opening a debt gives, and the ledger after it. `start` is what
/// the start date reads as, `debt_id` and `installment_ids` are the ids
/// for the new rows.
///
/// Terms that break a rule are refused with that rule. The schedule is
/// then generated, on the billing day of the account where it has one,
/// and its failure is the failure of the request. The store refuses
/// ids that are not one for each installment (`IdCountMismatch`), ids
/// that are taken or repeated (`DuplicateId`), and a sum of the
/// installments that does not fit an amount (`AmountOverflow`). A
/// failure leaves the ledger as it was. Otherwise the debt and all its
/// installments, pending, are added, and the result joins them with the
/// name of the account, the first due date and the sum of the
/// installments.
pub open spec fn create_debt_spec(
    pre: LedgerView,
    terms: DebtTerms,
    start: Option<(int, int, int)>,
    debt_id: Seq<char>,
    installment_ids: Seq<Seq<char>>,
) -> (Result<DebtWithInstallmentsView, LedgerError>, LedgerView) {
    match debt_refusal(pre, terms) {
        Some(e) => (Err(e), pre),
        None => {
            let account = pre.accounts[position(pre.accounts, terms.account_id)->0];
            match schedule_of(start, account.billing_day, terms.total_installments) {
                Err(e) => (Err(e), pre),
                Ok(dates) => {
                    let debt = new_debt(debt_id, terms);
                    let rows = new_installments(
                        installment_ids,
                        debt_id,
                        dates,
                        terms.monthly_payment,
                    );
                    if installment_ids.len() != dates.len() {
                        (Err(LedgerError::IdCountMismatch), pre)
                    } else if position(pre.debts, debt_id) is Some {
                        (Err(LedgerError::DuplicateId), pre)
                    } else if dates.len() * terms.monthly_payment > i64::MAX {
                        (Err(LedgerError::AmountOverflow), pre)
                    } else if !ids_are_new(pre.installments, rows) {
                        (Err(LedgerError::DuplicateId), pre)
                    } else {
                        (
                            Ok(
                                DebtWithInstallmentsView {
                                    debt,
                                    installments: rows,
                                    account_name: account.name,
                                    next_due_date: if rows.len() > 0 {
                                        Some(rows[0].due_date)
                                    } else {
                                        None
                                    },
                                    remaining_amount: dates.len() * terms.monthly_payment,
                                },
                            ),
                            LedgerView {
                                debts: pre.debts.push(debt),
                                installments: pre.installments + rows,
                                ..pre
                            },
                        )
                    }
                },
            }
        },
    }
}

/// Opens a debt under the given ids: see `create_debt_spec` for the
/// rules, in their order, and for what a success changes. What the
/// start date reads as is `parsed_iso_date`; for what follows from it,
/// see `create_debt_from`.
pub fn create_debt_with_ids(
    ledger: &mut Ledger,
    input: CreateDebtInput,
    debt_id: String,
    installment_ids: Vec<String>,
) -> (r: Result<DebtWithInstallments, LedgerError>)
    ensures
        (outcome_view(r), final(ledger)@) == create_debt_spec(
            old(ledger)@,
            input@,
            parsed_iso_date(input.start_date@),
            debt_id@,
            texts(installment_ids@),
        ),
        parsed_iso_date(input.start_date@) matches Some(day) ==> is_valid_date(
            day.0,
            day.1,
            day.2,
        ),
{
    let start = parse_iso_date(input.start_date.as_str());
    create_debt_from(ledger, input, start, debt_id, installment_ids)
}

/// Opens a debt under the given ids, with its start date already read:
/// `start` is the day that the start date of the terms stands for, and
/// `None` where it stands for none. See `create_debt_spec` for the
/// rules, in their order, and for what a success changes.
pub fn create_debt_from(
    ledger: &mut Ledger,
    input: CreateDebtInput,
    start: Option<CalendarDate>,
    debt_id: String,
    installment_ids: Vec<String>,
) -> (r: Result<DebtWithInstallments, LedgerError>)
    ensures
        (outcome_view(r), final(ledger)@) == create_debt_spec(
            old(ledger)@,
            input@,
            day_of(start),
            debt_id@,
            texts(installment_ids@),
        ),
{
    if input.description.as_str().is_empty() {
        return Err(LedgerError::EmptyDescription);
    }
    if input.original_amount <= 0 {
        return Err(LedgerError::NonPositivePrincipal);
    }
    if input.total_installments <= 0 {
        return Err(LedgerError::NonPositiveInstallmentCount);
    }
    if input.monthly_payment <= 0 {
        return Err(LedgerError::NonPositiveMonthlyPayment);
    }
    if input.start_date.as_str().is_empty() {
        return Err(LedgerError::EmptyStartDate);
    }
    let account_index = match find(&ledger.accounts, input.account_id.as_str()) {
        Some(i) => i,
        None => {
            return Err(LedgerError::AccountNotFound);
        },
    };
    if ledger.accounts[account_index].is_active != 1 {
        return Err(LedgerError::DebtOnInactiveAccount);
    }
    let billing_day = ledger.accounts[account_index].billing_day;
    let account_name = ledger.accounts[account_index].name.clone();
    let schedule = due_dates_from(start, billing_day, input.total_installments);
    proof {
        lemma_schedule_of(
            schedule_view(schedule),
            day_of(start),
            int_of_i32(billing_day),
            input.total_installments as int,
        );
    }
    let dates = match schedule {
        Ok(dates) => dates,
        Err(e) => {
            return Err(e);
        },
    };
    if installment_ids.len() != dates.len() {
        return Err(LedgerError::IdCountMismatch);
    }
    if find(&ledger.debts, debt_id.as_str()).is_some() {
        return Err(LedgerError::DuplicateId);
    }
    let count: usize = dates.len();
    assert(count == input.total_installments);
    assert(count as int * input.monthly_payment as int <= 0x8000_0000 * 0x8000_0000_0000_0000)
        by (nonlinear_arith)
        requires
            0 <= count as int <= 0x8000_0000,
            0 <= input.monthly_payment as int <= 0x8000_0000_0000_0000,
    ;
    let remaining: i128 = (count as i128) * (input.monthly_payment as i128);
    if remaining > i64::MAX as i128 {
        return Err(LedgerError::AmountOverflow);
    }
    let ghost planned = new_installments(
        texts(installment_ids@),
        debt_id@,
        texts(dates@),
        input.monthly_payment as int,
    );
    let ghost wanted = create_debt_spec(
        old(ledger)@,
        input@,
        day_of(start),
        debt_id@,
        texts(installment_ids@),
    );
    let mut rows: Vec<Installment> = Vec::new();
    let mut shown: Vec<Installment> = Vec::new();
    let mut k: usize = 0;
    while k < count
        invariant
            k <= count,
            !ids_are_new(old(ledger)@.installments, planned) ==> wanted == (
                Err::<DebtWithInstallmentsView, LedgerError>(LedgerError::DuplicateId),
                old(ledger)@,
            ),
            wanted == create_debt_spec(
                old(ledger)@,
                input@,
                day_of(start),
                debt_id@,
                texts(installment_ids@),
            ),
            count == dates.len(),
            count == installment_ids.len(),
            count <= i32::MAX,
            rows.len() == k,
            shown.len() == k,
            planned == new_installments(
                texts(installment_ids@),
                debt_id@,
                texts(dates@),
                input.monthly_payment as int,
            ),
            views_of(rows@) =~= planned.take(k as int),
            views_of(shown@) =~= planned.take(k as int),
            forall|j: int| 0 <= j < k ==> is_new_id(old(ledger)@.installments, planned, j),
            *ledger == *old(ledger),
        decreases count - k,
    {
        let id = installment_ids[k].clone();
        if find(&ledger.installments, id.as_str()).is_some() || find(&rows, id.as_str()).is_some() {
            proof {
                assert(!is_new_id(old(ledger)@.installments, planned, k as int));
            }
            return Err(LedgerError::DuplicateId);
        }
        let row = Installment {
            id,
            debt_id: debt_id.clone(),
            installment_number: (k + 1) as i32,
            due_date: dates[k].clone(),
            amount: input.monthly_payment,
            status: "pending".to_owned(),
            actual_payment_date: None,
            transaction_id: None,
            created_at: String::new(),
        };
        proof {
            assert(row@ == planned[k as int]);
            lemma_views_after_push(rows@, row);
            assert(planned.take(k as int).push(planned[k as int]) =~= planned.take(k + 1));
        }
        let copy = row.copy_of();
        proof {
            lemma_views_after_push(shown@, copy);
        }
        rows.push(row);
        shown.push(copy);
        k = k + 1;
    }
    proof {
        assert(planned.take(count as int) =~= planned);
    }
    let next_due_date = if shown.len() > 0 {
        Some(shown[0].due_date.clone())
    } else {
        None
    };
    let debt = Debt {
        id: debt_id,
        account_id: input.account_id,
        description: input.description,
        original_amount: input.original_amount,
        total_installments: input.total_installments,
        paid_installments: 0,
        monthly_payment: input.monthly_payment,
        interest_rate_bits: input.interest_rate_bits,
        start_date: input.start_date,
        is_active: 1,
        notes: input.notes,
        created_at: String::new(),
    };
    let result = DebtWithInstallments {
        debt: debt.copy_of(),
        installments: shown,
        account_name,
        next_due_date,
        remaining_amount: remaining as i64,
    };
    proof {
        lemma_views_after_push(ledger.debts@, debt);
        assert(views_of(ledger.installments@ + rows@) =~= views_of(ledger.installments@)
            + views_of(rows@));
    }
    ledger.debts.push(debt);
    ledger.installments.append(&mut rows);
    Ok(result)
}

/// How many ids opening the debt will ask for: one for each date of its
/// schedule, none where the request will be refused before that.
fn ids_needed(ledger: &Ledger, input: &CreateDebtInput) -> (r: usize)
    ensures
        debt_refusal(ledger@, input@) is None ==> {
            let account = ledger@.accounts[position(ledger@.accounts, input.account_id@)->0];
            schedule_of(
                parsed_iso_date(input.start_date@),
                account.billing_day,
                input.total_installments as int,
            ) matches Ok(dates) ==> r == dates.len()
        },
{
    if input.total_installments <= 0 {
        return 0;
    }
    match find(&ledger.accounts, input.account_id.as_str()) {
        None => 0,
        Some(i) => match calculate_due_dates(
            input.start_date.as_str(),
            ledger.accounts[i].billing_day,
            input.total_installments,
        ) {
            Ok(dates) => dates.len(),
            Err(_) => 0,
        },
    }
}

/// Opens a debt and schedules all its installments, as one change that
/// is kept whole or not at all. The ids of the new rows are drawn at
/// random, one for the debt and one for each installment; what follows
/// from them is what `create_debt_with_ids` does.
pub fn create_debt(ledger: &mut Ledger, input: CreateDebtInput) -> (r: Result<
    DebtWithInstallments,
    LedgerError,
>)
    ensures
        exists|debt_id: Seq<char>, installment_ids: Seq<Seq<char>>|
            (outcome_view(r), final(ledger)@) == #[trigger] create_debt_spec(
                old(ledger)@,
                input@,
                parsed_iso_date(input.start_date@),
                debt_id,
                installment_ids,
            ),
        r != Err::<DebtWithInstallments, LedgerError>(LedgerError::IdCountMismatch),
{
    let count: usize = ids_needed(ledger, &input);
    let debt_id = fresh_id();
    let mut installment_ids: Vec<String> = Vec::new();
    while installment_ids.len() < count
        invariant
            installment_ids.len() <= count,
        decreases count - installment_ids.len(),
    {
        installment_ids.push(fresh_id());
    }
    let ghost chosen = create_debt_spec(
        old(ledger)@,
        input@,
        parsed_iso_date(input.start_date@),
        debt_id@,
        texts(installment_ids@),
    );
    proof {
        assert(texts(installment_ids@).len() == count);
        if debt_refusal(old(ledger)@, input@) is None {
            let account = old(ledger)@.accounts[position(
                old(ledger)@.accounts,
                input.account_id@,
            )->0];
            lemma_schedule_exists(
                parsed_iso_date(input.start_date@),
                account.billing_day,
                input.total_installments as int,
            );
        }
        assert(chosen.0 != Err::<DebtWithInstallmentsView, LedgerError>(
            LedgerError::IdCountMismatch,
        ));
    }
    let r = create_debt_with_ids(ledger, input, debt_id, installment_ids);
    proof {
        assert(outcome_view(r) == chosen.0);
    }
    r
}

/// How many installments of the debt are paid.
pub open spec fn paid_count(rows: Seq<InstallmentView>, debt_id: Seq<char>) -> int
    decreases rows.len(),
{
    if rows.len() == 0 {
        0
    } else {
        paid_count(rows.drop_last(), debt_id) + if rows.last().debt_id == debt_id
            && rows.last().status == "paid"@ {
            1int
        } else {
            0int
        }
    }
}

/// Sum of the installments of the debt that are still pending.
pub open spec fn pending_total(rows: Seq<InstallmentView>, debt_id: Seq<char>) -> int
    decreases rows.len(),
{
    if rows.len() == 0 {
        0
    } else {
        pending_total(rows.drop_last(), debt_id) + if rows.last().debt_id == debt_id
            && rows.last().status == "pending"@ {
            rows.last().amount
        } else {
            0int
        }
    }
}

/// How many installments of the debt are paid.
pub fn count_paid(rows: &Vec<Installment>, debt_id: &str) -> (r: usize)
    ensures
        r == paid_count(views_of(rows@), debt_id@),
{
    let wanted = debt_id.to_owned();
    let paid = "paid".to_owned();
    let mut count: usize = 0;
    let mut i: usize = 0;
    while i < rows.len()
        invariant
            i <= rows.len(),
            wanted@ == debt_id@,
            paid@ == "paid"@,
            count <= i,
            count == paid_count(views_of(rows@).take(i as int), debt_id@),
        decreases rows.len() - i,
    {
        proof {
            assert(views_of(rows@).take(i + 1).drop_last() =~= views_of(rows@).take(i as int));
        }
        if rows[i].debt_id == wanted && rows[i].status == paid {
            count = count + 1;
        }
        i = i + 1;
    }
    proof {
        assert(views_of(rows@).take(rows.len() as int) =~= views_of(rows@));
    }
    count
}

/// Sum of the installments of the debt that are still pending, in a
/// range wide enough for any number of amounts.
pub fn sum_pending(rows: &Vec<Installment>, debt_id: &str) -> (r: i128)
    ensures
        r == pending_total(views_of(rows@), debt_id@),
{
    let wanted = debt_id.to_owned();
    let pending = "pending".to_owned();
    let mut total: i128 = 0;
    let mut i: usize = 0;
    while i < rows.len()
        invariant
            i <= rows.len(),
            wanted@ == debt_id@,
            pending@ == "pending"@,
            total == pending_total(views_of(rows@).take(i as int), debt_id@),
            -(i as int) * 0x8000_0000_0000_0000 <= total <= (i as int) * 0x8000_0000_0000_0000,
        decreases rows.len() - i,
    {
        proof {
            assert(views_of(rows@).take(i + 1).drop_last() =~= views_of(rows@).take(i as int));
            assert((i as int + 1) * 0x8000_0000_0000_0000 == (i as int) * 0x8000_0000_0000_0000
                + 0x8000_0000_0000_0000) by (nonlinear_arith);
            assert((i as int + 1) * 0x8000_0000_0000_0000 <= 0x1_0000_0000_0000_0000
                * 0x8000_0000_0000_0000) by (nonlinear_arith)
                requires
                    i as int + 1 <= 0x1_0000_0000_0000_0000,
            ;
        }
        if rows[i].debt_id == wanted && rows[i].status == pending {
            total = total + rows[i].amount as i128;
        }
        i = i + 1;
    }
    proof {
        assert(views_of(rows@).take(rows.len() as int) =~= views_of(rows@));
    }
    total
}

/// The debt with the id, with the number of its installments that are
/// paid counted anew; `None` where no debt has the id.
pub open spec fn debt_with_count(pre: LedgerView, id: Seq<char>) -> Option<DebtView> {
    match position(pre.debts, id) {
        Some(i) => Some(
            DebtView { paid_installments: paid_count(pre.installments, id), ..pre.debts[i] },
        ),
        None => None,
    }
}

/// The debt with the id, with its paid installments counted from the
/// installments rather than read from the row. Fails with
/// `AmountOverflow` exactly where a debt has the id and that count does
/// not fit the field.
pub fn get_debt_by_id(ledger: &Ledger, id: &str) -> (r: Result<Option<Debt>, LedgerError>)
    ensures
        match r {
            Ok(Some(debt)) => debt_with_count(ledger@, id@) == Some(debt@),
            Ok(None) => debt_with_count(ledger@, id@) is None,
            Err(e) => {
                &&& e == LedgerError::AmountOverflow
                &&& debt_with_count(ledger@, id@) matches Some(debt)
                &&& debt.paid_installments > i32::MAX
            },
        },
{
    match find(&ledger.debts, id) {
        None => Ok(None),
        Some(i) => {
            let count: usize = count_paid(&ledger.installments, id);
            if count > i32::MAX as usize {
                return Err(LedgerError::AmountOverflow);
            }
            let mut debt = ledger.debts[i].copy_of();
            debt.paid_installments = count as i32;
            Ok(Some(debt))
        },
    }
}

/// The row that a debt becomes when it is changed. Only the
/// description, the interest rate, whether it is active and the notes
/// can change; each that is given takes the place of the one before.
/// Notes that are not given stay.
pub open spec fn merged_debt(existing: DebtView, changes: DebtChanges) -> DebtView {
    DebtView {
        description: changes.description.unwrap_or(existing.description),
        interest_rate_bits: changes.interest_rate_bits.unwrap_or(existing.interest_rate_bits),
        is_active: match changes.is_active {
            Some(active) => if active {
                1
            } else {
                0
            },
            None => existing.is_active,
        },
        notes: if changes.notes is Some {
            changes.notes
        } else {
            existing.notes
        },
        ..existing
    }
}

/// What changing the debt with the id gives, and the ledger after it.
///
/// Fails with `DebtNotFound` where no debt has the id (and with
/// `AmountOverflow` where the count of its paid installments does not
/// fit); the ledger is then as it was. Otherwise the merged row takes
/// the place of the debt; the schedule and the installments stay as they
/// are. The result is the merged row with its paid installments counted
/// anew.
pub open spec fn update_debt_spec(pre: LedgerView, id: Seq<char>, changes: DebtChanges) -> (
    Result<DebtView, LedgerError>,
    LedgerView,
) {
    match position(pre.debts, id) {
        None => (Err(LedgerError::DebtNotFound), pre),
        Some(i) => {
            let row = merged_debt(pre.debts[i], changes);
            let paid = paid_count(pre.installments, id);
            if paid > i32::MAX {
                (Err(LedgerError::AmountOverflow), pre)
            } else {
                (
                    Ok(DebtView { paid_installments: paid, ..row }),
                    LedgerView { debts: pre.debts.update(i, row), ..pre },
                )
            }
        },
    }
}

/// Changes what may change of a debt: its description, interest rate,
/// notes, and whether it is active.
pub fn update_debt(ledger: &mut Ledger, id: String, input: UpdateDebtInput) -> (r: Result<
    Debt,
    LedgerError,
>)
    ensures
        (outcome_view(r), final(ledger)@) == update_debt_spec(old(ledger)@, id@, input@),
{
    let index = match find(&ledger.debts, id.as_str()) {
        Some(i) => i,
        None => {
            return Err(LedgerError::DebtNotFound);
        },
    };
    let count: usize = count_paid(&ledger.installments, id.as_str());
    if count > i32::MAX as usize {
        return Err(LedgerError::AmountOverflow);
    }
    let existing = &ledger.debts[index];
    let row = Debt {
        id: existing.id.clone(),
        account_id: existing.account_id.clone(),
        description: match input.description {
            Some(text) => text,
            None => existing.description.clone(),
        },
        original_amount: existing.original_amount,
        total_installments: existing.total_installments,
        paid_installments: existing.paid_installments,
        monthly_payment: existing.monthly_payment,
        interest_rate_bits: match input.interest_rate_bits {
            Some(bits) => bits,
            None => existing.interest_rate_bits,
        },
        start_date: existing.start_date.clone(),
        is_active: match input.is_active {
            Some(active) => if active {
                1
            } else {
                0
            },
            None => existing.is_active,
        },
        notes: match input.notes {
            Some(text) => Some(text),
            None => copy_text(&existing.notes),
        },
        created_at: existing.created_at.clone(),
    };
    let mut shown = row.copy_of();
    shown.paid_installments = count as i32;
    proof {
        lemma_views_after_update(ledger.debts@, index as int, row);
    }
    ledger.debts.set(index, row);
    Ok(shown)
}

/// The installments that do not belong to the debt, in their order.
pub open spec fn without_debt(rows: Seq<InstallmentView>, debt_id: Seq<char>) -> Seq<
    InstallmentView,
> {
    rows.filter(|row: InstallmentView| row.debt_id != debt_id)
}

/// The installments that belong to the debt, in their order.
pub open spec fn of_debt(rows: Seq<InstallmentView>, debt_id: Seq<char>) -> Seq<InstallmentView> {
    rows.filter(|row: InstallmentView| row.debt_id == debt_id)
}

/// What deleting the debt with the id gives, and the ledger after it.
///
/// Fails with `DebtNotFound`, leaving the ledger as it was, where no
/// debt has the id. Otherwise the debt is gone and with it every
/// installment that belongs to it. The transactions stay, also those
/// that paid its installments.
pub open spec fn delete_debt_spec(pre: LedgerView, id: Seq<char>) -> (
    Result<(), LedgerError>,
    LedgerView,
) {
    match position(pre.debts, id) {
        None => (Err(LedgerError::DebtNotFound), pre),
        Some(i) => (
            Ok(()),
            LedgerView {
                debts: pre.debts.remove(i),
                installments: without_debt(pre.installments, id),
                ..pre
            },
        ),
    }
}

/// The installments that belong to the debt (`belonging`) or those that
/// do not, in their order.
fn installments_where(rows: &Vec<Installment>, debt_id: &str, belonging: bool) -> (r: Vec<
    Installment,
>)
    ensures
        views_of(r@) == if belonging {
            of_debt(views_of(rows@), debt_id@)
        } else {
            without_debt(views_of(rows@), debt_id@)
        },
{
    let wanted = debt_id.to_owned();
    let mut kept: Vec<Installment> = Vec::new();
    let mut i: usize = 0;
    proof {
        reveal(Seq::filter);
        assert(views_of(kept@) =~= views_of(rows@).take(0));
    }
    while i < rows.len()
        invariant
            i <= rows.len(),
            wanted@ == debt_id@,
            views_of(kept@) == if belonging {
                of_debt(views_of(rows@).take(i as int), debt_id@)
            } else {
                without_debt(views_of(rows@).take(i as int), debt_id@)
            },
        decreases rows.len() - i,
    {
        proof {
            reveal(Seq::filter);
            assert(views_of(rows@).take(i + 1).drop_last() =~= views_of(rows@).take(i as int));
        }
        if (rows[i].debt_id == wanted) == belonging {
            let copy = rows[i].copy_of();
            proof {
                lemma_views_after_push(kept@, copy);
            }
            kept.push(copy);
        }
        i = i + 1;
    }
    proof {
        assert(views_of(rows@).take(rows.len() as int) =~= views_of(rows@));
    }
    kept
}

/// Deletes a debt and all its installments. The transactions that paid
/// its installments stay in the ledger.
pub fn delete_debt(ledger: &mut Ledger, id: String) -> (r: Result<(), LedgerError>)
    ensures
        (r, final(ledger)@) == delete_debt_spec(old(ledger)@, id@),
{
    let index = match find(&ledger.debts, id.as_str()) {
        Some(i) => i,
        None => {
            return Err(LedgerError::DebtNotFound);
        },
    };
    let kept = installments_where(&ledger.installments, id.as_str(), false);
    proof {
        lemma_views_after_remove(ledger.debts@, index as int);
    }
    ledger.debts.remove(index);
    ledger.installments = kept;
    Ok(())
}

/// The installments of a debt, in the order of their numbers.
pub fn list_installments_for_debt(ledger: &Ledger, debt_id: &str) -> (r: Vec<Installment>)
    ensures
        views_of(r@) == by_number(of_debt(ledger@.installments, debt_id@)),
{
    let belonging = installments_where(&ledger.installments, debt_id, true);
    sort_by_number(&belonging)
}

/// Description of the expense that pays an installment: it names the
/// number of the installment and the debt.
pub open spec fn payment_description(number: int, debt_description: Seq<char>) -> Seq<char> {
    "Pago cuota "@ + signed_decimal_text(number) + " - "@ + debt_description
}

/// The expense that pays an installment: of the amount of the
/// installment, on the account of the debt, dated `today`.
pub open spec fn payment_transaction(
    id: Seq<char>,
    debt: DebtView,
    installment: InstallmentView,
    category_id: Seq<char>,
    today: Seq<char>,
) -> TransactionView {
    TransactionView {
        id,
        account_id: debt.account_id,
        category_id,
        amount: installment.amount,
        transaction_type: "expense"@,
        description: payment_description(installment.installment_number, debt.description),
        date: today,
        notes: None,
        created_at: Seq::empty(),
    }
}

/// The installment once it is paid: paid `today` by the transaction.
/// Its number, due date and amount stay.
pub open spec fn paid_installment(
    installment: InstallmentView,
    today: Seq<char>,
    transaction_id: Seq<char>,
) -> InstallmentView {
    InstallmentView {
        status: "paid"@,
        actual_payment_date: Some(today),
        transaction_id: Some(transaction_id),
        ..installment
    }
}

/// The rule that paying the installment breaks, if any; the first in
/// this order: the installment exists, it is not paid yet, its debt
/// exists, the account of the debt exists and is active, the category
/// exists, is active and is for expenses. A category that breaks one of
/// the last three is an invalid category for the payment.
pub open spec fn payment_refusal(
    pre: LedgerView,
    installment_id: Seq<char>,
    category_id: Seq<char>,
) -> Option<LedgerError> {
    let installment = position(pre.installments, installment_id);
    let debt = position(pre.debts, pre.installments[installment->0].debt_id);
    let account = position(pre.accounts, pre.debts[debt->0].account_id);
    let category = position(pre.categories, category_id);
    if installment is None {
        Some(LedgerError::InstallmentNotFound)
    } else if pre.installments[installment->0].status == "paid"@ {
        Some(LedgerError::AlreadyPaid)
    } else if debt is None {
        Some(LedgerError::DebtNotFound)
    } else if account is None {
        Some(LedgerError::AccountNotFound)
    } else if pre.accounts[account->0].is_active != 1 {
        Some(LedgerError::PaymentOnInactiveAccount)
    } else if category is None {
        Some(LedgerError::PaymentCategoryNotFound)
    } else if pre.categories[category->0].is_active != 1 {
        Some(LedgerError::InactiveCategory)
    } else if pre.categories[category->0].category_type != "expense"@ {
        Some(LedgerError::CategoryNotExpense)
    } else {
        None
    }
}

/// What paying the installment gives, and the ledger after it.
/// `transaction_id` is the id for the expense, `today` the day of the
/// payment.
///
/// A payment that breaks a rule is refused with that rule; an
/// installment that is paid already is refused with `AlreadyPaid`. The
/// store then refuses an id that is taken (`DuplicateId`), and a
/// balance or a count of paid installments that does not fit
/// (`AmountOverflow`). A failure leaves the ledger as it was.
/// Otherwise, all at once: one expense is added for the amount of the
/// installment; the installment is paid, today, by that expense; the
/// balance of the account is recalculated; and the debt's count of paid
/// installments is set to the number of its installments that are
/// paid.
pub open spec fn mark_installment_paid_spec(
    pre: LedgerView,
    installment_id: Seq<char>,
    category_id: Seq<char>,
    transaction_id: Seq<char>,
    today: Seq<char>,
) -> (Result<InstallmentView, LedgerError>, LedgerView) {
    match payment_refusal(pre, installment_id, category_id) {
        Some(e) => (Err(e), pre),
        None => {
            let i = position(pre.installments, installment_id)->0;
            let d = position(pre.debts, pre.installments[i].debt_id)->0;
            let debt = pre.debts[d];
            let paid = paid_installment(pre.installments[i], today, transaction_id);
            let expense = payment_transaction(
                transaction_id,
                debt,
                pre.installments[i],
                category_id,
                today,
            );
            let written = LedgerView {
                transactions: pre.transactions.push(expense),
                installments: pre.installments.update(i, paid),
                ..pre
            };
            let count = paid_count(written.installments, debt.id);
            if position(pre.transactions, transaction_id) is Some {
                (Err(LedgerError::DuplicateId), pre)
            } else if !balance_fits(written.transactions, debt.account_id) || count > i32::MAX {
                (Err(LedgerError::AmountOverflow), pre)
            } else {
                (
                    Ok(paid),
                    LedgerView {
                        debts: pre.debts.update(d, DebtView { paid_installments: count, ..debt }),
                        ..recalculated(written, debt.account_id)
                    },
                )
            }
        },
    }
}

/// Pays an installment with the given id for the expense and the given
/// day of payment: see `mark_installment_paid_spec` for the rules, in
/// their order, and for what a success changes.
pub fn mark_installment_paid_on(
    ledger: &mut Ledger,
    installment_id: String,
    category_id: String,
    transaction_id: String,
    today: String,
) -> (r: Result<Installment, LedgerError>)
    ensures
        (outcome_view(r), final(ledger)@) == mark_installment_paid_spec(
            old(ledger)@,
            installment_id@,
            category_id@,
            transaction_id@,
            today@,
        ),
{
    let i = match find(&ledger.installments, installment_id.as_str()) {
        Some(i) => i,
        None => {
            return Err(LedgerError::InstallmentNotFound);
        },
    };
    let paid_text = "paid".to_owned();
    if ledger.installments[i].status == paid_text {
        return Err(LedgerError::AlreadyPaid);
    }
    let d = match find(&ledger.debts, ledger.installments[i].debt_id.as_str()) {
        Some(d) => d,
        None => {
            return Err(LedgerError::DebtNotFound);
        },
    };
    match find(&ledger.accounts, ledger.debts[d].account_id.as_str()) {
        None => {
            return Err(LedgerError::AccountNotFound);
        },
        Some(a) => {
            if ledger.accounts[a].is_active != 1 {
                return Err(LedgerError::PaymentOnInactiveAccount);
            }
        },
    }
    let expense_text = "expense".to_owned();
    match find(&ledger.categories, category_id.as_str()) {
        None => {
            return Err(LedgerError::PaymentCategoryNotFound);
        },
        Some(c) => {
            if ledger.categories[c].is_active != 1 {
                return Err(LedgerError::InactiveCategory);
            }
            if !(ledger.categories[c].category_type == expense_text) {
                return Err(LedgerError::CategoryNotExpense);
            }
        },
    }
    if find(&ledger.transactions, transaction_id.as_str()).is_some() {
        return Err(LedgerError::DuplicateId);
    }
    let unpaid = ledger.installments[i].copy_of();
    let debt = ledger.debts[d].copy_of();
    let mut description = "Pago cuota ".to_owned();
    let number = decimal_string(unpaid.installment_number as i64);
    description.append(number.as_str());
    description.append(" - ");
    description.append(debt.description.as_str());
    proof {
        assert(description@ =~= payment_description(
            unpaid.installment_number as int,
            debt.description@,
        ));
    }
    let expense = Transaction {
        id: transaction_id.clone(),
        account_id: debt.account_id.clone(),
        category_id,
        amount: unpaid.amount,
        transaction_type: expense_text,
        description,
        date: today.clone(),
        notes: None,
        created_at: String::new(),
    };
    let mut paid = unpaid.copy_of();
    paid.status = paid_text;
    paid.actual_payment_date = Some(today);
    paid.transaction_id = Some(transaction_id);
    let shown = paid.copy_of();
    proof {
        lemma_views_after_push(ledger.transactions@, expense);
        lemma_views_after_update(ledger.installments@, i as int, paid);
        lemma_views_after_update(ledger.installments@.update(i as int, paid), i as int, unpaid);
        assert(views_of(ledger.installments@).update(i as int, paid@).update(i as int, unpaid@)
            =~= views_of(ledger.installments@));
    }
    let ghost expense_view = expense@;
    ledger.transactions.push(expense);
    ledger.installments.set(i, paid);
    let total: i128 = signed_total(&ledger.transactions, debt.account_id.as_str());
    let count: usize = count_paid(&ledger.installments, debt.id.as_str());
    if total < i64::MIN as i128 || total > i64::MAX as i128 || count > i32::MAX as usize {
        let ghost unkept = ledger.transactions@;
        ledger.transactions.pop();
        ledger.installments.set(i, unpaid);
        proof {
            assert(views_of(unkept) == views_of(old(ledger).transactions@).push(expense_view));
            assert forall|j: int| 0 <= j < unkept.len() - 1 implies views_of(
                unkept.drop_last(),
            )[j] == views_of(old(ledger).transactions@)[j] by {
                assert(views_of(unkept)[j] == unkept[j]@);
            }
            assert(views_of(ledger.transactions@) =~= views_of(old(ledger).transactions@));
        }
        return Err(LedgerError::AmountOverflow);
    }
    let done = recalculate_account_balance(ledger, debt.account_id.as_str());
    let mut counted = debt;
    counted.paid_installments = count as i32;
    proof {
        lemma_views_after_update(ledger.debts@, d as int, counted);
    }
    ledger.debts.set(d, counted);
    Ok(shown)
}

/// Pays an installment: books the expense, marks the installment paid,
/// recalculates the balance of the account and counts the paid
/// installments of the debt, as one change that is kept whole or not at
/// all. The id of the expense is drawn at random and the day of payment
/// is today on this machine; what follows from them is what
/// `mark_installment_paid_on` does.
///
/// A payment that breaks a rule is refused with that rule, whatever was
/// drawn; a refusal leaves the ledger as it was; and a payment that
/// goes through `is_payment_today`.
pub fn mark_installment_paid(
    ledger: &mut Ledger,
    installment_id: String,
    category_id: String,
) -> (r: Result<Installment, LedgerError>)
    ensures
        exists|transaction_id: Seq<char>, today: Seq<char>|
            is_day_text(today) && (outcome_view(r), final(ledger)@)
                == #[trigger] mark_installment_paid_spec(
                old(ledger)@,
                installment_id@,
                category_id@,
                transaction_id,
                today,
            ),
        payment_refusal(old(ledger)@, installment_id@, category_id@) matches Some(e) ==> r
            == Err::<Installment, LedgerError>(e),
        r is Err ==> final(ledger)@ == old(ledger)@,
        r matches Ok(paid) ==> is_payment_today(
            old(ledger)@,
            final(ledger)@,
            paid@,
            installment_id@,
            category_id@,
        ),
{
    let transaction_id = fresh_id();
    let today = today_text();
    let ghost pre = ledger@;
    let ghost drawn = transaction_id@;
    let ghost day = today@;
    let ghost paying = installment_id@;
    let ghost under = category_id@;
    let r = mark_installment_paid_on(ledger, installment_id, category_id, transaction_id, today);
    proof {
        if r is Ok {
            lemma_payment_effect(pre, paying, under, drawn, day);
        }
    }
    r
}

/// Whether `post` is `pre` after the payment of the installment under
/// the category, today, with `paid` as the installment is then: exactly
/// one transaction has come, the last, an expense of the amount of the
/// installment on the account of the debt, under the category, dated
/// with a day; the others are as they were; the installment is paid, on
/// that day, by that transaction, and no other installment has changed;
/// and the debt counts one paid installment more than its installments
/// showed.
pub open spec fn is_payment_today(
    pre: LedgerView,
    post: LedgerView,
    paid: InstallmentView,
    installment_id: Seq<char>,
    category_id: Seq<char>,
) -> bool {
    let i = position(pre.installments, installment_id)->0;
    let d = position(pre.debts, pre.installments[i].debt_id)->0;
    let expense = post.transactions.last();
    &&& position(pre.installments, installment_id) is Some
    &&& position(pre.debts, pre.installments[i].debt_id) is Some
    &&& post.transactions.len() == pre.transactions.len() + 1
    &&& post.transactions.drop_last() == pre.transactions
    &&& expense.transaction_type == "expense"@
    &&& expense.amount == pre.installments[i].amount
    &&& is_day_text(expense.date)
    &&& expense.account_id == pre.debts[d].account_id
    &&& expense.category_id == category_id
    &&& post.installments == pre.installments.update(i, paid)
    &&& paid.status == "paid"@
    &&& paid.actual_payment_date == Some(expense.date)
    &&& paid.transaction_id == Some(expense.id)
    &&& paid.installment_number == pre.installments[i].installment_number
    &&& paid.amount == pre.installments[i].amount
    &&& post.debts.len() == pre.debts.len()
    &&& post.debts[d].paid_installments == paid_count(pre.installments, pre.debts[d].id) + 1
    &&& post.categories == pre.categories
}

impl Ordered for InstallmentView {
    /// The installment with the lower number comes first.
    open spec fn precedes(self, other: InstallmentView) -> bool {
        self.installment_number < other.installment_number
    }

    proof fn lemma_order(first: InstallmentView, second: InstallmentView, third: InstallmentView) {
    }
}

impl OrderedRow for Installment {
    fn comes_before(&self, other: &Installment) -> (r: bool) {
        self.installment_number < other.installment_number
    }

    fn duplicate(&self) -> (r: Installment) {
        self.copy_of()
    }
}

/// The installments in the order of their numbers; those of the same
/// number stay in the order they had.
pub open spec fn by_number(rows: Seq<InstallmentView>) -> Seq<InstallmentView> {
    in_order(rows)
}

/// The installments in the order of their numbers.
pub fn sort_by_number(rows: &Vec<Installment>) -> (r: Vec<Installment>)
    ensures
        views_of(r@) == by_number(views_of(rows@)),
{
    sort(rows)
}

/// Due date of the first installment of the list that is pending.
pub open spec fn next_pending_due(rows: Seq<InstallmentView>) -> Option<Seq<char>>
    decreases rows.len(),
{
    if rows.len() == 0 {
        None
    } else {
        match next_pending_due(rows.drop_last()) {
            Some(date) => Some(date),
            None => if rows.last().status == "pending"@ {
                Some(rows.last().due_date)
            } else {
                None
            },
        }
    }
}

/// The debt with the id, joined with its installments in the order of
/// their numbers, the name of its account, the due date of its first
/// pending installment and the sum of its pending installments.
///
/// Fails with `DebtNotFound` where no debt has the id, with
/// `MissingRow` where the account of the debt is not there, and with
/// `AmountOverflow` where the count of paid installments or the sum of
/// the pending ones does not fit.
pub open spec fn debt_detail(pre: LedgerView, id: Seq<char>) -> Result<
    DebtWithInstallmentsView,
    LedgerError,
> {
    match debt_with_count(pre, id) {
        None => Err(LedgerError::DebtNotFound),
        Some(debt) => {
            let rows = by_number(of_debt(pre.installments, id));
            let account = position(pre.accounts, debt.account_id);
            let remaining = pending_total(pre.installments, id);
            if debt.paid_installments > i32::MAX {
                Err(LedgerError::AmountOverflow)
            } else if account is None {
                Err(LedgerError::MissingRow)
            } else if !(i64::MIN <= remaining <= i64::MAX) {
                Err(LedgerError::AmountOverflow)
            } else {
                Ok(
                    DebtWithInstallmentsView {
                        debt,
                        installments: rows,
                        account_name: pre.accounts[account->0].name,
                        next_due_date: next_pending_due(rows),
                        remaining_amount: remaining,
                    },
                )
            }
        },
    }
}

/// A debt with everything that belongs to it: see `debt_detail`.
pub fn get_debt_detail(ledger: &Ledger, id: String) -> (r: Result<
    DebtWithInstallments,
    LedgerError,
>)
    ensures
        outcome_view(r) == debt_detail(ledger@, id@),
{
    let debt = match get_debt_by_id(ledger, id.as_str()) {
        Ok(Some(debt)) => debt,
        Ok(None) => {
            return Err(LedgerError::DebtNotFound);
        },
        Err(e) => {
            return Err(e);
        },
    };
    let installments = list_installments_for_debt(ledger, id.as_str());
    let account_name = match find(&ledger.accounts, debt.account_id.as_str()) {
        Some(a) => ledger.accounts[a].name.clone(),
        None => {
            return Err(LedgerError::MissingRow);
        },
    };
    let remaining: i128 = sum_pending(&ledger.installments, id.as_str());
    if remaining < i64::MIN as i128 || remaining > i64::MAX as i128 {
        return Err(LedgerError::AmountOverflow);
    }
    let pending = "pending".to_owned();
    let mut next_due_date: Option<String> = None;
    let mut i: usize = 0;
    while i < installments.len()
        invariant
            i <= installments.len(),
            pending@ == "pending"@,
            crate::models::text_of(next_due_date) == next_pending_due(
                views_of(installments@).take(i as int),
            ),
        decreases installments.len() - i,
    {
        proof {
            assert(views_of(installments@).take(i + 1).drop_last() =~= views_of(
                installments@,
            ).take(i as int));
        }
        if next_due_date.is_none() && installments[i].status == pending {
            next_due_date = Some(installments[i].due_date.clone());
        }
        i = i + 1;
    }
    proof {
        assert(views_of(installments@).take(installments.len() as int) =~= views_of(
            installments@,
        ));
    }
    Ok(
        DebtWithInstallments {
            debt,
            installments,
            account_name,
            next_due_date,
            remaining_amount: remaining as i64,
        },
    )
}

/// An installment that is paid is never paid again: the attempt fails
/// with `AlreadyPaid` and changes nothing.
pub proof fn lemma_paid_installment_is_refused(
    pre: LedgerView,
    installment_id: Seq<char>,
    category_id: Seq<char>,
    transaction_id: Seq<char>,
    today: Seq<char>,
)
    requires
        crate::ledger::lookup(pre.installments, installment_id) matches Some(installment)
            && installment.status == "paid"@,
    ensures
        mark_installment_paid_spec(pre, installment_id, category_id, transaction_id, today) == (
            Err::<InstallmentView, LedgerError>(LedgerError::AlreadyPaid),
            pre,
        ),
{
}

/// Paying is one way: once a payment has gone through, the installment
/// is paid, and every later attempt to pay it, with whatever category,
/// on whatever day, fails with `AlreadyPaid` and changes nothing.
pub proof fn lemma_payment_is_one_way(
    pre: LedgerView,
    installment_id: Seq<char>,
    category_id: Seq<char>,
    transaction_id: Seq<char>,
    today: Seq<char>,
    later_category_id: Seq<char>,
    later_transaction_id: Seq<char>,
    later_day: Seq<char>,
)
    requires
        mark_installment_paid_spec(pre, installment_id, category_id, transaction_id, today).0
            is Ok,
    ensures
        ({
            let post = mark_installment_paid_spec(
                pre,
                installment_id,
                category_id,
                transaction_id,
                today,
            ).1;
            &&& crate::ledger::lookup(post.installments, installment_id) matches Some(installment)
                && installment.status == "paid"@
            &&& mark_installment_paid_spec(
                post,
                installment_id,
                later_category_id,
                later_transaction_id,
                later_day,
            ) == (Err::<InstallmentView, LedgerError>(LedgerError::AlreadyPaid), post)
        }),
{
    let post = mark_installment_paid_spec(
        pre,
        installment_id,
        category_id,
        transaction_id,
        today,
    ).1;
    lemma_position_is_first(pre.installments, installment_id);
    let i = position(pre.installments, installment_id)->0;
    assert(post.installments == pre.installments.update(
        i,
        paid_installment(pre.installments[i], today, transaction_id),
    ));
    assert(is_first_with_key(post.installments, installment_id, i)) by {
        assert forall|j: int| 0 <= j < i implies (#[trigger] post.installments[j]).key()
            != installment_id by {
            assert(pre.installments[j].key() != installment_id);
        }
    }
    lemma_position_of_first(post.installments, installment_id, i);
}

/// Marking one more installment of a debt as paid raises the count of
/// its paid installments by one.
pub proof fn lemma_paid_count_after_payment(
    rows: Seq<InstallmentView>,
    index: int,
    paid: InstallmentView,
    debt_id: Seq<char>,
)
    requires
        0 <= index < rows.len(),
        rows[index].debt_id == debt_id,
        rows[index].status != "paid"@,
        paid.debt_id == debt_id,
        paid.status == "paid"@,
    ensures
        paid_count(rows.update(index, paid), debt_id) == paid_count(rows, debt_id) + 1,
    decreases rows.len(),
{
    if index == rows.len() - 1 {
        assert(rows.update(index, paid).drop_last() =~= rows.drop_last());
    } else {
        lemma_paid_count_after_payment(rows.drop_last(), index, paid, debt_id);
        assert(rows.update(index, paid).drop_last() =~= rows.drop_last().update(index, paid));
    }
}

/// A payment that goes through adds exactly one transaction, an expense
/// of the amount of the installment dated on the day of payment; marks
/// the installment paid on that day by that transaction; and raises the
/// debt's count of paid installments by one over what the installments
/// showed before. The other tables, and every other installment, stay.
pub proof fn lemma_payment_effect(
    pre: LedgerView,
    installment_id: Seq<char>,
    category_id: Seq<char>,
    transaction_id: Seq<char>,
    today: Seq<char>,
)
    requires
        mark_installment_paid_spec(pre, installment_id, category_id, transaction_id, today).0
            is Ok,
    ensures
        ({
            let (outcome, post) = mark_installment_paid_spec(
                pre,
                installment_id,
                category_id,
                transaction_id,
                today,
            );
            let i = position(pre.installments, installment_id)->0;
            let d = position(pre.debts, pre.installments[i].debt_id)->0;
            &&& post.transactions.len() == pre.transactions.len() + 1
            &&& post.transactions.drop_last() == pre.transactions
            &&& post.transactions.last().id == transaction_id
            &&& post.transactions.last().amount == pre.installments[i].amount
            &&& post.transactions.last().transaction_type == "expense"@
            &&& post.transactions.last().date == today
            &&& post.transactions.last().account_id == pre.debts[d].account_id
            &&& post.installments == pre.installments.update(i, outcome->Ok_0)
            &&& outcome->Ok_0.status == "paid"@
            &&& outcome->Ok_0.actual_payment_date == Some(today)
            &&& outcome->Ok_0.transaction_id == Some(transaction_id)
            &&& outcome->Ok_0.due_date == pre.installments[i].due_date
            &&& outcome->Ok_0.amount == pre.installments[i].amount
            &&& outcome->Ok_0.installment_number == pre.installments[i].installment_number
            &&& post.debts.len() == pre.debts.len()
            &&& post.debts[d].paid_installments == paid_count(
                pre.installments,
                pre.debts[d].id,
            ) + 1
            &&& post.categories == pre.categories
        }),
{
    let (outcome, post) = mark_installment_paid_spec(
        pre,
        installment_id,
        category_id,
        transaction_id,
        today,
    );
    lemma_position_is_first(pre.installments, installment_id);
    let i = position(pre.installments, installment_id)->0;
    lemma_position_is_first(pre.debts, pre.installments[i].debt_id);
    let d = position(pre.debts, pre.installments[i].debt_id)->0;
    let expense = payment_transaction(
        transaction_id,
        pre.debts[d],
        pre.installments[i],
        category_id,
        today,
    );
    assert(pre.transactions.push(expense).drop_last() =~= pre.transactions);
    lemma_paid_count_after_payment(
        pre.installments,
        i,
        paid_installment(pre.installments[i], today, transaction_id),
        pre.debts[d].id,
    );
}

/// Deleting a debt takes every installment of the debt with it and
/// nothing else: the installments of other debts stay, in their order,
/// and so does every transaction, account and category, the
/// transactions that paid installments of the debt among them.
pub proof fn lemma_delete_debt_cascades(pre: LedgerView, id: Seq<char>)
    requires
        delete_debt_spec(pre, id).0 is Ok,
    ensures
        ({
            let post = delete_debt_spec(pre, id).1;
            &&& post.transactions == pre.transactions
            &&& post.accounts == pre.accounts
            &&& post.categories == pre.categories
            &&& post.debts.len() == pre.debts.len() - 1
            &&& forall|k: int|
                0 <= k < post.installments.len() ==> (#[trigger] post.installments[k]).debt_id
                    != id
            &&& forall|k: int|
                0 <= k < pre.installments.len() && (#[trigger] pre.installments[k]).debt_id != id
                    ==> post.installments.contains(pre.installments[k])
            &&& forall|k: int|
                0 <= k < post.installments.len() ==> pre.installments.contains(
                    #[trigger] post.installments[k],
                )
            &&& keys_are_unique(pre.debts) ==> position(post.debts, id) is None
        }),
{
    let post = delete_debt_spec(pre, id).1;
    let keep = |row: InstallmentView| row.debt_id != id;
    #[allow(deprecated)]
    pre.installments.filter_lemma(keep);
    lemma_position_is_first(pre.debts, id);
    let i = position(pre.debts, id)->0;
    assert forall|k: int| 0 <= k < post.installments.len() implies pre.installments.contains(
        #[trigger] post.installments[k],
    ) by {
        lemma_filter_is_within(pre.installments, keep, k);
    }
    if keys_are_unique(pre.debts) {
        assert forall|j: int| 0 <= j < post.debts.len() implies (#[trigger] post.debts[j]).key()
            != id by {
            if j < i {
                assert(pre.debts[j].key() != pre.debts[i].key());
            } else {
                assert(pre.debts[i].key() != pre.debts[j + 1].key());
            }
        }
        lemma_position_of_missing(post.debts, id);
    }
}

/// A debt that has just been opened has one installment for each
/// installment of its terms, numbered from 1, each pending and of the
/// monthly payment; none is paid, and what remains is the sum of them
/// all.
pub proof fn lemma_new_debt_is_all_pending(
    pre: LedgerView,
    terms: DebtTerms,
    start: Option<(int, int, int)>,
    debt_id: Seq<char>,
    installment_ids: Seq<Seq<char>>,
)
    requires
        create_debt_spec(pre, terms, start, debt_id, installment_ids).0 is Ok,
        terms.total_installments <= i32::MAX,
    ensures
        ({
            let (outcome, post) = create_debt_spec(pre, terms, start, debt_id, installment_ids);
            let opened = outcome->Ok_0;
            &&& opened.installments.len() == terms.total_installments
            &&& opened.debt.paid_installments == 0
            &&& opened.remaining_amount == terms.total_installments * terms.monthly_payment
            &&& forall|k: int|
                0 <= k < opened.installments.len() ==> {
                    &&& (#[trigger] opened.installments[k]).status == "pending"@
                    &&& opened.installments[k].amount == terms.monthly_payment
                    &&& opened.installments[k].installment_number == k + 1
                    &&& opened.installments[k].debt_id == debt_id
                }
            &&& opened.next_due_date == Some(opened.installments[0].due_date)
            &&& post.debts == pre.debts.push(opened.debt)
            &&& post.installments == pre.installments + opened.installments
            &&& post.transactions == pre.transactions
            &&& post.accounts == pre.accounts
        }),
{
    let account = pre.accounts[position(pre.accounts, terms.account_id)->0];
    lemma_schedule_exists(start, account.billing_day, terms.total_installments);
}

/// A debt opens where its terms keep the rules, its account is there
/// and active, the start is a day, the anchor day is 1 or above, the
/// schedule stays within the years that a date can hold, the ids are
/// new, one for each installment, and the sum of the installments fits
/// an amount. It then has one installment for each month after the
/// start, in their order, each due on the anchor day, or on the last
/// day of a month that is shorter; each is pending, without a payment;
/// what remains is the sum of them all, and the next due date is the
/// first. The ledger gains the debt and these installments.
pub proof fn lemma_debt_opens(
    pre: LedgerView,
    terms: DebtTerms,
    start: (int, int, int),
    debt_id: Seq<char>,
    installment_ids: Seq<Seq<char>>,
)
    requires
        terms.description.len() > 0,
        terms.original_amount > 0,
        0 < terms.total_installments <= i32::MAX,
        terms.monthly_payment > 0,
        terms.start_date.len() > 0,
        position(pre.accounts, terms.account_id) is Some,
        pre.accounts[position(pre.accounts, terms.account_id)->0].is_active == 1,
        1 <= anchor_day(
            start.2,
            pre.accounts[position(pre.accounts, terms.account_id)->0].billing_day,
        ),
        is_valid_date(start.0, start.1, start.2),
        due_year(start, terms.total_installments) < MAX_YEAR,
        terms.total_installments * terms.monthly_payment <= i64::MAX,
        installment_ids.len() == terms.total_installments,
        position(pre.debts, debt_id) is None,
        ids_are_new(
            pre.installments,
            new_installments(
                installment_ids,
                debt_id,
                schedule_of(
                    Some(start),
                    pre.accounts[position(pre.accounts, terms.account_id)->0].billing_day,
                    terms.total_installments,
                )->Ok_0,
                terms.monthly_payment,
            ),
        ),
    ensures
        ({
            let account = pre.accounts[position(pre.accounts, terms.account_id)->0];
            let anchor = anchor_day(start.2, account.billing_day);
            let (outcome, post) = create_debt_spec(
                pre,
                terms,
                Some(start),
                debt_id,
                installment_ids,
            );
            let opened = outcome->Ok_0;
            &&& outcome is Ok
            &&& opened.installments.len() == terms.total_installments
            &&& forall|k: int|
                0 <= k < terms.total_installments ==> {
                    &&& (#[trigger] opened.installments[k]).id == installment_ids[k]
                    &&& opened.installments[k].debt_id == debt_id
                    &&& opened.installments[k].installment_number == k + 1
                    &&& opened.installments[k].due_date == iso_date_text(
                        due_year(start, k + 1),
                        due_month(start, k + 1),
                        clamped_day(
                            anchor,
                            days_in_month(due_year(start, k + 1), due_month(start, k + 1)),
                        ),
                    )
                    &&& opened.installments[k].amount == terms.monthly_payment
                    &&& opened.installments[k].status == "pending"@
                    &&& opened.installments[k].actual_payment_date is None
                    &&& opened.installments[k].transaction_id is None
                }
            &&& opened.debt == new_debt(debt_id, terms)
            &&& opened.debt.paid_installments == 0
            &&& opened.account_name == account.name
            &&& opened.remaining_amount == terms.total_installments * terms.monthly_payment
            &&& opened.next_due_date == Some(opened.installments[0].due_date)
            &&& post == (LedgerView {
                debts: pre.debts.push(opened.debt),
                installments: pre.installments + opened.installments,
                ..pre
            })
        }),
{
    let account = pre.accounts[position(pre.accounts, terms.account_id)->0];
    lemma_schedule_within_years(start, account.billing_day, terms.total_installments);
    let dates = schedule_of(Some(start), account.billing_day, terms.total_installments)->Ok_0;
    let opened = create_debt_spec(pre, terms, Some(start), debt_id, installment_ids).0->Ok_0;
    assert forall|k: int| 0 <= k < terms.total_installments implies (
    #[trigger] opened.installments[k]).due_date == iso_date_text(
        due_year(start, k + 1),
        due_month(start, k + 1),
        clamped_day(
            anchor_day(start.2, account.billing_day),
            days_in_month(due_year(start, k + 1), due_month(start, k + 1)),
        ),
    ) by {
        assert(dates[(k + 1) - 1] == dates[k]);
    }
}

/// A payment keeps every balance equal to income less expense over the
/// transactions of its account.
pub proof fn lemma_payment_keeps_balances(
    pre: LedgerView,
    installment_id: Seq<char>,
    category_id: Seq<char>,
    transaction_id: Seq<char>,
    today: Seq<char>,
)
    requires
        keys_are_unique(pre.accounts),
        balances_are_consistent(pre),
    ensures
        balances_are_consistent(
            mark_installment_paid_spec(
                pre,
                installment_id,
                category_id,
                transaction_id,
                today,
            ).1,
        ),
{
    let (outcome, post) = mark_installment_paid_spec(
        pre,
        installment_id,
        category_id,
        transaction_id,
        today,
    );
    if outcome is Ok {
        let i = position(pre.installments, installment_id)->0;
        let d = position(pre.debts, pre.installments[i].debt_id)->0;
        let debt = pre.debts[d];
        let expense = payment_transaction(
            transaction_id,
            debt,
            pre.installments[i],
            category_id,
            today,
        );
        let written = LedgerView {
            transactions: pre.transactions.push(expense),
            installments: pre.installments.update(
                i,
                paid_installment(pre.installments[i], today, transaction_id),
            ),
            ..pre
        };
        let touched = Set::<Seq<char>>::empty().insert(debt.account_id);
        assert forall|k: int|
            0 <= k < written.accounts.len() && !touched.contains(
                (#[trigger] written.accounts[k]).id,
            ) implies written.accounts[k].balance == crate::balance::balance_of(
            written.transactions,
            written.accounts[k].id,
        ) by {
            lemma_balance_after_push(pre.transactions, expense, pre.accounts[k].id);
        }
        lemma_recalculation_restores(written, debt.account_id, touched);
        assert(touched.remove(debt.account_id) =~= Set::<Seq<char>>::empty());
    }
}

/// Whether the installment is a commitment of the account: it is
/// pending, and its debt is an active debt of the account.
pub open spec fn is_commitment(
    ledger: LedgerView,
    installment: InstallmentView,
    account_id: Seq<char>,
) -> bool {
    &&& installment.status == "pending"@
    &&& position(ledger.debts, installment.debt_id) matches Some(d)
    &&& ledger.debts[d].account_id == account_id
    &&& ledger.debts[d].is_active == 1
}

/// Sum of the commitments of the account among the installments.
pub open spec fn commitments(
    ledger: LedgerView,
    installments: Seq<InstallmentView>,
    account_id: Seq<char>,
) -> int
    decreases installments.len(),
{
    if installments.len() == 0 {
        0
    } else {
        commitments(ledger, installments.drop_last(), account_id) + if is_commitment(
            ledger,
            installments.last(),
            account_id,
        ) {
            installments.last().amount
        } else {
            0
        }
    }
}

/// Whether the account is a credit card in use: active, and with a
/// credit limit.
pub open spec fn is_credit_card_in_use(account: AccountView) -> bool {
    &&& account.account_type == "credit_card"@
    &&& account.is_active == 1
    &&& account.credit_limit is Some
}

/// How far the credit card is drawn: what is left of its limit after
/// its balance, and what its active debts still ask for.
pub open spec fn utilization_of(ledger: LedgerView, account: AccountView) -> CreditUtilizationView {
    CreditUtilizationView {
        account_id: account.id,
        account_name: account.name,
        credit_limit: account.credit_limit->0,
        current_balance: account.balance,
        remaining_debt_commitments: commitments(ledger, ledger.installments, account.id),
        available_credit: account.credit_limit->0 - account.balance,
    }
}

/// The utilization of each credit card in use among the accounts, in
/// their order; `AmountOverflow` where a figure does not fit an amount.
pub open spec fn utilizations(ledger: LedgerView, accounts: Seq<AccountView>) -> Result<
    Seq<CreditUtilizationView>,
    LedgerError,
>
    decreases accounts.len(),
{
    if accounts.len() == 0 {
        Ok(Seq::empty())
    } else {
        let figures = utilization_of(ledger, accounts.last());
        match utilizations(ledger, accounts.drop_last()) {
            Err(e) => Err(e),
            Ok(front) => if !is_credit_card_in_use(accounts.last()) {
                Ok(front)
            } else if !(i64::MIN <= figures.remaining_debt_commitments <= i64::MAX) || !(i64::MIN
                <= figures.available_credit <= i64::MAX) {
                Err(LedgerError::AmountOverflow)
            } else {
                Ok(front.push(figures))
            },
        }
    }
}

/// Sum of the commitments of the account, in a range wide enough for
/// any number of amounts.
fn sum_commitments(ledger: &Ledger, account_id: &str) -> (r: i128)
    ensures
        r == commitments(ledger@, ledger@.installments, account_id@),
{
    let wanted = account_id.to_owned();
    let pending = "pending".to_owned();
    let mut total: i128 = 0;
    let mut i: usize = 0;
    while i < ledger.installments.len()
        invariant
            i <= ledger.installments.len(),
            wanted@ == account_id@,
            pending@ == "pending"@,
            total == commitments(ledger@, ledger@.installments.take(i as int), account_id@),
            -(i as int) * 0x8000_0000_0000_0000 <= total <= (i as int) * 0x8000_0000_0000_0000,
        decreases ledger.installments.len() - i,
    {
        proof {
            assert(ledger@.installments.take(i + 1).drop_last() =~= ledger@.installments.take(
                i as int,
            ));
            assert((i as int + 1) * 0x8000_0000_0000_0000 == (i as int) * 0x8000_0000_0000_0000
                + 0x8000_0000_0000_0000) by (nonlinear_arith);
            assert((i as int + 1) * 0x8000_0000_0000_0000 <= 0x1_0000_0000_0000_0000
                * 0x8000_0000_0000_0000) by (nonlinear_arith)
                requires
                    i as int + 1 <= 0x1_0000_0000_0000_0000,
            ;
        }
        let row = &ledger.installments[i];
        if row.status == pending {
            match find(&ledger.debts, row.debt_id.as_str()) {
                Some(d) => {
                    if ledger.debts[d].account_id == wanted && ledger.debts[d].is_active == 1 {
                        total = total + row.amount as i128;
                    }
                },
                None => {},
            }
        }
        i = i + 1;
    }
    proof {
        assert(ledger@.installments.take(ledger.installments.len() as int)
            =~= ledger@.installments);
    }
    total
}

/// How far each credit card is drawn: for every active credit card
/// with a credit limit, the credit that is left (limit less balance)
/// and the sum of the pending installments of its active debts. Fails
/// with `AmountOverflow` exactly where one of these does not fit an
/// amount. Nothing is changed.
pub fn get_credit_utilization(ledger: &Ledger) -> (r: Result<Vec<CreditUtilization>, LedgerError>)
    ensures
        match r {
            Ok(list) => utilizations(ledger@, ledger@.accounts) == Ok::<
                Seq<CreditUtilizationView>,
                LedgerError,
            >(views_of(list@)),
            Err(e) => utilizations(ledger@, ledger@.accounts) == Err::<
                Seq<CreditUtilizationView>,
                LedgerError,
            >(e),
        },
{
    let credit_card = "credit_card".to_owned();
    let mut list: Vec<CreditUtilization> = Vec::new();
    let mut failed = false;
    let mut i: usize = 0;
    proof {
        assert(views_of(list@) =~= Seq::<CreditUtilizationView>::empty());
    }
    while i < ledger.accounts.len()
        invariant
            i <= ledger.accounts.len(),
            credit_card@ == "credit_card"@,
            utilizations(ledger@, ledger@.accounts.take(i as int)) == if failed {
                Err::<Seq<CreditUtilizationView>, LedgerError>(LedgerError::AmountOverflow)
            } else {
                Ok::<Seq<CreditUtilizationView>, LedgerError>(views_of(list@))
            },
        decreases ledger.accounts.len() - i,
    {
        proof {
            assert(ledger@.accounts.take(i + 1).drop_last() =~= ledger@.accounts.take(i as int));
        }
        let account = &ledger.accounts[i];
        if !failed && account.account_type == credit_card && account.is_active == 1 {
            match account.credit_limit {
                Some(limit) => {
                    let remaining: i128 = sum_commitments(ledger, account.id.as_str());
                    let available: i128 = limit as i128 - account.balance as i128;
                    if remaining < i64::MIN as i128 || remaining > i64::MAX as i128 || available
                        < i64::MIN as i128 || available > i64::MAX as i128 {
                        failed = true;
                    } else {
                        let figures = CreditUtilization {
                            account_id: account.id.clone(),
                            account_name: account.name.clone(),
                            credit_limit: limit,
                            current_balance: account.balance,
                            remaining_debt_commitments: remaining as i64,
                            available_credit: available as i64,
                        };
                        proof {
                            lemma_views_after_push(list@, figures);
                        }
                        list.push(figures);
                    }
                },
                None => {},
            }
        }
        i = i + 1;
    }
    proof {
        assert(ledger@.accounts.take(ledger.accounts.len() as int) =~= ledger@.accounts);
    }
    if failed {
        Err(LedgerError::AmountOverflow)
    } else {
        Ok(list)
    }
}

/// Opening a debt keeps the ids of every table apart.
pub proof fn lemma_create_debt_keeps_ids_unique(
    pre: LedgerView,
    terms: DebtTerms,
    start: Option<(int, int, int)>,
    debt_id: Seq<char>,
    installment_ids: Seq<Seq<char>>,
)
    requires
        pre.ids_are_unique(),
    ensures
        create_debt_spec(pre, terms, start, debt_id, installment_ids).1.ids_are_unique(),
{
    let (outcome, post) = create_debt_spec(pre, terms, start, debt_id, installment_ids);
    if outcome is Ok {
        let opened = outcome->Ok_0;
        lemma_unique_after_push(pre.debts, opened.debt);
        lemma_unique_after_add(pre.installments, opened.installments);
    }
}

/// Changing a debt keeps the ids of every table apart.
pub proof fn lemma_update_debt_keeps_ids_unique(
    pre: LedgerView,
    id: Seq<char>,
    changes: DebtChanges,
)
    requires
        pre.ids_are_unique(),
    ensures
        update_debt_spec(pre, id, changes).1.ids_are_unique(),
{
    if let Some(at) = position(pre.debts, id) {
        lemma_position_is_first(pre.debts, id);
        lemma_unique_after_update(pre.debts, at, merged_debt(pre.debts[at], changes));
    }
}

/// Deleting a debt keeps the ids of every table apart.
pub proof fn lemma_delete_debt_keeps_ids_unique(pre: LedgerView, id: Seq<char>)
    requires
        pre.ids_are_unique(),
    ensures
        delete_debt_spec(pre, id).1.ids_are_unique(),
{
    if let Some(at) = position(pre.debts, id) {
        lemma_position_is_first(pre.debts, id);
        lemma_unique_after_remove(pre.debts, at);
        lemma_unique_after_filter(pre.installments, |row: InstallmentView| row.debt_id != id);
    }
}

/// A payment keeps the ids of every table apart.
pub proof fn lemma_payment_keeps_ids_unique(
    pre: LedgerView,
    installment_id: Seq<char>,
    category_id: Seq<char>,
    transaction_id: Seq<char>,
    today: Seq<char>,
)
    requires
        pre.ids_are_unique(),
    ensures
        mark_installment_paid_spec(
            pre,
            installment_id,
            category_id,
            transaction_id,
            today,
        ).1.ids_are_unique(),
{
    let (outcome, post) = mark_installment_paid_spec(
        pre,
        installment_id,
        category_id,
        transaction_id,
        today,
    );
    if outcome is Ok {
        lemma_position_is_first(pre.installments, installment_id);
        let i = position(pre.installments, installment_id)->0;
        lemma_position_is_first(pre.debts, pre.installments[i].debt_id);
        let d = position(pre.debts, pre.installments[i].debt_id)->0;
        let debt = pre.debts[d];
        let expense = payment_transaction(
            transaction_id,
            debt,
            pre.installments[i],
            category_id,
            today,
        );
        let written = LedgerView {
            transactions: pre.transactions.push(expense),
            installments: pre.installments.update(
                i,
                paid_installment(pre.installments[i], today, transaction_id),
            ),
            ..pre
        };
        lemma_unique_after_push(pre.transactions, expense);
        lemma_unique_after_update(
            pre.installments,
            i,
            paid_installment(pre.installments[i], today, transaction_id),
        );
        lemma_recalculation_restores(written, debt.account_id, Set::<Seq<char>>::full());
        lemma_unique_after_update(
            pre.debts,
            d,
            DebtView { paid_installments: paid_count(written.installments, debt.id), ..debt },
        );
    }
}

/// The installment with the id, or `None` where there is none.
pub fn get_installment_by_id(ledger: &Ledger, id: &str) -> (r: Option<Installment>)
    ensures
        match r {
            Some(installment) => crate::ledger::lookup(ledger@.installments, id@) == Some(
                installment@,
            ),
            None => crate::ledger::lookup(ledger@.installments, id@) is None,
        },
{
    match find(&ledger.installments, id) {
        Some(i) => Some(ledger.installments[i].copy_of()),
        None => None,
    }
}

/// Name of the account that owes the debt, as mathematical values;
/// `None` where the debt or its account is not there.
pub open spec fn account_name_for_debt(pre: LedgerView, debt_id: Seq<char>) -> Option<Seq<char>> {
    match position(pre.debts, debt_id) {
        Some(d) => match position(pre.accounts, pre.debts[d].account_id) {
            Some(a) => Some(pre.accounts[a].name),
            None => None,
        },
        None => None,
    }
}

/// Name of the account that owes the debt; `MissingRow` where the debt
/// or its account is not there.
pub fn get_account_name_for_debt(ledger: &Ledger, debt_id: &str) -> (r: Result<String, LedgerError>)
    ensures
        match r {
            Ok(name) => account_name_for_debt(ledger@, debt_id@) == Some(name@),
            Err(e) => e == LedgerError::MissingRow && account_name_for_debt(ledger@, debt_id@)
                is None,
        },
{
    match find(&ledger.debts, debt_id) {
        Some(d) => match find(&ledger.accounts, ledger.debts[d].account_id.as_str()) {
            Some(a) => Ok(ledger.accounts[a].name.clone()),
            None => Err(LedgerError::MissingRow),
        },
        None => Err(LedgerError::MissingRow),
    }
}

/// Opening, changing and deleting a debt touch no account and no
/// transaction, and so keep every balance equal to income less expense
/// over the transactions of its account.
pub proof fn lemma_debt_changes_keep_balances(
    pre: LedgerView,
    terms: DebtTerms,
    start: Option<(int, int, int)>,
    debt_id: Seq<char>,
    installment_ids: Seq<Seq<char>>,
    changes: DebtChanges,
)
    requires
        balances_are_consistent(pre),
    ensures
        balances_are_consistent(create_debt_spec(pre, terms, start, debt_id, installment_ids).1),
        balances_are_consistent(update_debt_spec(pre, debt_id, changes).1),
        balances_are_consistent(delete_debt_spec(pre, debt_id).1),
{
    let opened = create_debt_spec(pre, terms, start, debt_id, installment_ids).1;
    assert(opened.accounts == pre.accounts && opened.transactions == pre.transactions);
    let changed = update_debt_spec(pre, debt_id, changes).1;
    assert(changed.accounts == pre.accounts && changed.transactions == pre.transactions);
    let deleted = delete_debt_spec(pre, debt_id).1;
    assert(deleted.accounts == pre.accounts && deleted.transactions == pre.transactions);
}

/// A debt never has more installments paid than it has installments,
/// and what is still pending of it lies with the installments that are
/// not paid.
pub proof fn lemma_paid_count_is_bounded(rows: Seq<InstallmentView>, debt_id: Seq<char>)
    ensures
        0 <= paid_count(rows, debt_id) <= of_debt(rows, debt_id).len(),
        of_debt(rows, debt_id).len() <= rows.len(),
    decreases rows.len(),
{
    reveal(Seq::filter);
    if rows.len() > 0 {
        lemma_paid_count_is_bounded(rows.drop_last(), debt_id);
    }
}

/// A payment keeps every transaction of the type of its category: the
/// expense that it books is booked under a category for expenses.
pub proof fn lemma_payment_keeps_types(
    pre: LedgerView,
    installment_id: Seq<char>,
    category_id: Seq<char>,
    transaction_id: Seq<char>,
    today: Seq<char>,
)
    requires
        types_match_categories(pre),
    ensures
        types_match_categories(
            mark_installment_paid_spec(
                pre,
                installment_id,
                category_id,
                transaction_id,
                today,
            ).1,
        ),
{
    let (outcome, post) = mark_installment_paid_spec(
        pre,
        installment_id,
        category_id,
        transaction_id,
        today,
    );
    if outcome is Ok {
        assert forall|k: int| 0 <= k < post.transactions.len() implies type_matches(
            post,
            #[trigger] post.transactions[k],
        ) by {
            if k < pre.transactions.len() {
                assert(type_matches(pre, pre.transactions[k]));
            }
        }
    }
}

} // verus!
