use necronomics::calendar::CalendarDate;
use necronomics::debts::{
    count_paid, create_debt, create_debt_from, create_debt_with_ids, delete_debt,
    get_account_name_for_debt,
    get_credit_utilization, get_debt_by_id, get_debt_detail, get_installment_by_id,
    list_installments_for_debt, mark_installment_paid, mark_installment_paid_on, sort_by_number,
    sum_pending, update_debt,
};
use necronomics::errors::{ErrorKind, LedgerError};
use necronomics::ledger::Ledger;
use necronomics::models::{
    Account, Category, CreateDebtInput, CreditUtilization, Installment, UpdateDebtInput,
};

fn account(id: &str, kind: &str, active: i32, billing_day: Option<i32>) -> Account {
    Account {
        id: id.to_string(),
        name: format!("Account {id}"),
        account_type: kind.to_string(),
        currency_id: "cur_clp".to_string(),
        balance: 0,
        credit_limit: if kind == "credit_card" { Some(500_000) } else { None },
        billing_day,
        is_active: active,
        created_at: String::new(),
    }
}

fn category(id: &str, kind: &str, active: i32) -> Category {
    Category {
        id: id.to_string(),
        name: format!("Category {id}"),
        category_type: kind.to_string(),
        icon: None,
        parent_id: None,
        is_active: active,
        created_at: String::new(),
    }
}

fn debt_ledger() -> Ledger {
    let mut ledger = Ledger::new();
    ledger.accounts.push(account("acc", "checking", 1, None));
    ledger.accounts.push(account("card", "credit_card", 1, Some(31)));
    ledger.accounts.push(account("gone", "checking", 0, None));
    ledger.categories.push(category("loans", "expense", 1));
    ledger.categories.push(category("salary", "income", 1));
    ledger.categories.push(category("closed", "expense", 0));
    ledger
}

fn terms(account: &str, principal: i64, count: i32, payment: i64, start: &str) -> CreateDebtInput {
    CreateDebtInput {
        account_id: account.to_string(),
        description: "Notebook".to_string(),
        original_amount: principal,
        total_installments: count,
        monthly_payment: payment,
        interest_rate_bits: 0,
        start_date: start.to_string(),
        notes: None,
    }
}

fn ids(prefix: &str, count: usize) -> Vec<String> {
    (1..=count).map(|i| format!("{prefix}{i}")).collect()
}

fn open_example(ledger: &mut Ledger) {
    create_debt_with_ids(
        ledger,
        terms("acc", 120_000, 12, 10_000, "2024-01-15"),
        "d1".to_string(),
        ids("i", 12),
    )
    .unwrap();
}

fn pay(ledger: &mut Ledger, installment: &str, txn: &str) -> Result<Installment, LedgerError> {
    mark_installment_paid_on(
        ledger,
        installment.to_string(),
        "loans".to_string(),
        txn.to_string(),
        "2024-02-10".to_string(),
    )
}

#[test]
fn debt_of_twelve_installments_from_mid_january() {
    let mut l = debt_ledger();
    let opened = create_debt_with_ids(
        &mut l,
        terms("acc", 120_000, 12, 10_000, "2024-01-15"),
        "d1".to_string(),
        ids("i", 12),
    )
    .unwrap();
    let expected = [
        "2024-02-15", "2024-03-15", "2024-04-15", "2024-05-15", "2024-06-15", "2024-07-15",
        "2024-08-15", "2024-09-15", "2024-10-15", "2024-11-15", "2024-12-15", "2025-01-15",
    ];
    assert_eq!(opened.installments.len(), 12);
    for (k, row) in opened.installments.iter().enumerate() {
        assert_eq!(row.id, format!("i{}", k + 1));
        assert_eq!(row.debt_id, "d1");
        assert_eq!(row.installment_number, k as i32 + 1);
        assert_eq!(row.due_date, expected[k]);
        assert_eq!(row.amount, 10_000);
        assert_eq!(row.status, "pending");
        assert_eq!(row.actual_payment_date, None);
        assert_eq!(row.transaction_id, None);
    }
    assert_eq!(opened.remaining_amount, 120_000);
    assert_eq!(opened.next_due_date, Some("2024-02-15".to_string()));
    assert_eq!(opened.account_name, "Account acc");
    assert_eq!(opened.debt.id, "d1");
    assert_eq!(opened.debt.account_id, "acc");
    assert_eq!(opened.debt.original_amount, 120_000);
    assert_eq!(opened.debt.total_installments, 12);
    assert_eq!(opened.debt.paid_installments, 0);
    assert_eq!(opened.debt.monthly_payment, 10_000);
    assert_eq!(opened.debt.is_active, 1);
    assert_eq!(l.debts, vec![opened.debt.clone()]);
    assert_eq!(l.installments, opened.installments);
    assert!(l.transactions.is_empty());
}

#[test]
fn debt_on_a_card_falls_due_on_its_billing_day() {
    let mut l = debt_ledger();
    let opened = create_debt_with_ids(
        &mut l,
        terms("card", 3000, 3, 1000, "2023-01-10"),
        "d1".to_string(),
        ids("i", 3),
    )
    .unwrap();
    let dates: Vec<&str> = opened.installments.iter().map(|i| i.due_date.as_str()).collect();
    assert_eq!(dates, vec!["2023-02-28", "2023-03-31", "2023-04-30"]);
}

#[test]
fn create_debt_draws_ids() {
    let mut l = debt_ledger();
    let opened = create_debt(&mut l, terms("acc", 500, 5, 100, "2024-05-31")).unwrap();
    assert_eq!(opened.installments.len(), 5);
    assert!(!opened.debt.id.is_empty());
    let mut seen: Vec<&str> = opened.installments.iter().map(|i| i.id.as_str()).collect();
    seen.sort();
    seen.dedup();
    assert_eq!(seen.len(), 5);
    assert_eq!(opened.installments[0].due_date, "2024-06-30");
    assert_eq!(opened.remaining_amount, 500);
    assert_eq!(l.installments.len(), 5);
    let failed = create_debt(&mut l, terms("acc", 500, 5, 100, "not a date"));
    assert_eq!(failed, Err(LedgerError::InvalidStartDate));
    assert_eq!(l.debts.len(), 1);
}

#[test]
fn create_debt_rules_in_order() {
    let mut l = debt_ledger();
    let before = l.clone();
    let mut bad = terms("nobody", 0, 0, 0, "");
    bad.description = String::new();
    let mut attempt = |input: CreateDebtInput, l: &mut Ledger| {
        create_debt_with_ids(l, input, "d".to_string(), ids("i", 2))
    };
    assert_eq!(attempt(bad.clone(), &mut l), Err(LedgerError::EmptyDescription));
    bad.description = "x".to_string();
    assert_eq!(attempt(bad.clone(), &mut l), Err(LedgerError::NonPositivePrincipal));
    bad.original_amount = 10;
    assert_eq!(attempt(bad.clone(), &mut l), Err(LedgerError::NonPositiveInstallmentCount));
    bad.total_installments = 2;
    assert_eq!(attempt(bad.clone(), &mut l), Err(LedgerError::NonPositiveMonthlyPayment));
    bad.monthly_payment = 5;
    assert_eq!(attempt(bad.clone(), &mut l), Err(LedgerError::EmptyStartDate));
    bad.start_date = "soon".to_string();
    assert_eq!(attempt(bad.clone(), &mut l), Err(LedgerError::AccountNotFound));
    bad.account_id = "gone".to_string();
    assert_eq!(attempt(bad.clone(), &mut l), Err(LedgerError::DebtOnInactiveAccount));
    bad.account_id = "acc".to_string();
    assert_eq!(attempt(bad.clone(), &mut l), Err(LedgerError::InvalidStartDate));
    bad.start_date = "2024-01-15".to_string();
    assert_eq!(l, before);
    assert!(attempt(bad, &mut l).is_ok());
}

#[test]
fn create_debt_storage_failures_leave_no_partial_debt() {
    let mut l = debt_ledger();
    open_example(&mut l);
    let before = l.clone();
    let again = create_debt_with_ids(
        &mut l,
        terms("acc", 100, 2, 50, "2024-01-15"),
        "d1".to_string(),
        ids("j", 2),
    );
    assert_eq!(again, Err(LedgerError::DuplicateId));
    let taken = create_debt_with_ids(
        &mut l,
        terms("acc", 100, 2, 50, "2024-01-15"),
        "d2".to_string(),
        vec!["j1".to_string(), "i3".to_string()],
    );
    assert_eq!(taken, Err(LedgerError::DuplicateId));
    let repeated = create_debt_with_ids(
        &mut l,
        terms("acc", 100, 2, 50, "2024-01-15"),
        "d2".to_string(),
        vec!["j1".to_string(), "j1".to_string()],
    );
    assert_eq!(repeated, Err(LedgerError::DuplicateId));
    let short = create_debt_with_ids(
        &mut l,
        terms("acc", 100, 2, 50, "2024-01-15"),
        "d2".to_string(),
        ids("j", 1),
    );
    assert_eq!(short, Err(LedgerError::IdCountMismatch));
    let huge = create_debt_with_ids(
        &mut l,
        terms("acc", 100, 3, i64::MAX / 2, "2024-01-15"),
        "d2".to_string(),
        ids("j", 3),
    );
    assert_eq!(huge, Err(LedgerError::AmountOverflow));
    let card = create_debt_with_ids(
        &mut l,
        CreateDebtInput { account_id: "zero".to_string(), ..terms("acc", 100, 2, 50, "2024-01-15") },
        "d2".to_string(),
        ids("j", 2),
    );
    assert_eq!(card, Err(LedgerError::AccountNotFound));
    assert_eq!(l, before);
    l.accounts.push(account("zero", "credit_card", 1, Some(0)));
    let before = l.clone();
    let unbuildable = create_debt_with_ids(
        &mut l,
        terms("zero", 100, 2, 50, "2024-01-15"),
        "d2".to_string(),
        ids("j", 2),
    );
    assert_eq!(unbuildable, Err(LedgerError::UnconstructibleDueDate { installment: 1 }));
    assert_eq!(unbuildable.unwrap_err().kind(), ErrorKind::InvalidDate);
    assert_eq!(l, before);
}

#[test]
fn paying_the_first_installment() {
    let mut l = debt_ledger();
    open_example(&mut l);
    let paid = pay(&mut l, "i1", "t1").unwrap();
    assert_eq!(paid.id, "i1");
    assert_eq!(paid.status, "paid");
    assert_eq!(paid.actual_payment_date, Some("2024-02-10".to_string()));
    assert_eq!(paid.transaction_id, Some("t1".to_string()));
    assert_eq!(paid.due_date, "2024-02-15");
    assert_eq!(paid.amount, 10_000);
    assert_eq!(paid.installment_number, 1);
    assert_eq!(l.transactions.len(), 1);
    let t = &l.transactions[0];
    assert_eq!(t.id, "t1");
    assert_eq!(t.account_id, "acc");
    assert_eq!(t.category_id, "loans");
    assert_eq!(t.amount, 10_000);
    assert_eq!(t.transaction_type, "expense");
    assert_eq!(t.date, "2024-02-10");
    assert_eq!(t.description, "Pago cuota 1 - Notebook");
    assert_eq!(l.installments[0], paid);
    assert_eq!(l.installments[1].status, "pending");
    assert_eq!(l.debts[0].paid_installments, 1);
    assert_eq!(l.accounts[0].balance, -10_000);
}

#[test]
fn mark_installment_paid_is_dated_today() {
    let mut l = debt_ledger();
    open_example(&mut l);
    let paid = mark_installment_paid(&mut l, "i12".to_string(), "loans".to_string()).unwrap();
    assert_eq!(paid.status, "paid");
    let today = paid.actual_payment_date.clone().unwrap();
    assert_eq!(today.len(), 10);
    assert_eq!(l.transactions.len(), 1);
    assert_eq!(l.transactions[0].date, today);
    assert_eq!(Some(l.transactions[0].id.clone()), paid.transaction_id);
    assert_eq!(l.transactions[0].description, "Pago cuota 12 - Notebook");
    assert_eq!(l.debts[0].paid_installments, 1);
}

#[test]
fn paying_twice_fails_and_changes_nothing() {
    let mut l = debt_ledger();
    open_example(&mut l);
    pay(&mut l, "i1", "t1").unwrap();
    let before = l.clone();
    let again = pay(&mut l, "i1", "t2");
    assert_eq!(again, Err(LedgerError::AlreadyPaid));
    assert_eq!(again.unwrap_err().kind(), ErrorKind::AlreadyPaid);
    assert_eq!(l, before);
    let other =
        mark_installment_paid(&mut l, "i1".to_string(), "no such category".to_string());
    assert_eq!(other, Err(LedgerError::AlreadyPaid));
    assert_eq!(l, before);
}

#[test]
fn payment_rules_in_order() {
    let mut l = debt_ledger();
    open_example(&mut l);
    create_debt_with_ids(
        &mut l,
        terms("acc", 100, 1, 100, "2024-01-15"),
        "orphaned".to_string(),
        ids("o", 1),
    )
    .unwrap();
    let try_pay = |l: &mut Ledger, installment: &str, category: &str| {
        mark_installment_paid_on(
            l,
            installment.to_string(),
            category.to_string(),
            "t1".to_string(),
            "2024-02-10".to_string(),
        )
    };
    let before = l.clone();
    assert_eq!(try_pay(&mut l, "nope", "nope"), Err(LedgerError::InstallmentNotFound));
    assert_eq!(try_pay(&mut l, "i1", "nope"), Err(LedgerError::PaymentCategoryNotFound));
    assert_eq!(LedgerError::PaymentCategoryNotFound.kind(), ErrorKind::InvalidCategory);
    assert_eq!(try_pay(&mut l, "i1", "closed"), Err(LedgerError::InactiveCategory));
    assert_eq!(try_pay(&mut l, "i1", "salary"), Err(LedgerError::CategoryNotExpense));
    assert_eq!(l, before);
    l.accounts[0].is_active = 0;
    assert_eq!(try_pay(&mut l, "i1", "nope"), Err(LedgerError::PaymentOnInactiveAccount));
    l.accounts.remove(0);
    assert_eq!(try_pay(&mut l, "i1", "loans"), Err(LedgerError::AccountNotFound));
    l.debts.retain(|d| d.id != "orphaned");
    assert_eq!(try_pay(&mut l, "o1", "loans"), Err(LedgerError::DebtNotFound));
    assert_eq!(LedgerError::InstallmentNotFound.kind(), ErrorKind::NotFound);
    assert_eq!(LedgerError::PaymentOnInactiveAccount.kind(), ErrorKind::InactiveAccount);
    assert_eq!(LedgerError::CategoryNotExpense.kind(), ErrorKind::InvalidCategory);
}

#[test]
fn payment_storage_failures_change_nothing() {
    let mut l = debt_ledger();
    open_example(&mut l);
    pay(&mut l, "i1", "t1").unwrap();
    let before = l.clone();
    assert_eq!(pay(&mut l, "i2", "t1"), Err(LedgerError::DuplicateId));
    assert_eq!(l, before);
    l.installments[2].amount = i64::MAX;
    let before = l.clone();
    assert_eq!(pay(&mut l, "i3", "t3"), Err(LedgerError::AmountOverflow));
    assert_eq!(l, before);
}

#[test]
fn deleting_a_debt_keeps_its_payments() {
    let mut l = debt_ledger();
    open_example(&mut l);
    create_debt_with_ids(
        &mut l,
        terms("card", 900, 3, 300, "2024-01-31"),
        "d2".to_string(),
        ids("k", 3),
    )
    .unwrap();
    pay(&mut l, "i1", "t1").unwrap();
    pay(&mut l, "i2", "t2").unwrap();
    let transactions = l.transactions.clone();
    let accounts = l.accounts.clone();
    assert_eq!(delete_debt(&mut l, "d1".to_string()), Ok(()));
    assert_eq!(l.debts.len(), 1);
    assert_eq!(l.debts[0].id, "d2");
    assert_eq!(l.installments.len(), 3);
    assert!(l.installments.iter().all(|i| i.debt_id == "d2"));
    let kept: Vec<&str> = l.installments.iter().map(|i| i.id.as_str()).collect();
    assert_eq!(kept, vec!["k1", "k2", "k3"]);
    assert_eq!(l.transactions, transactions);
    assert_eq!(l.accounts, accounts);
    assert_eq!(get_debt_detail(&l, "d1".to_string()), Err(LedgerError::DebtNotFound));
    assert_eq!(delete_debt(&mut l, "d1".to_string()), Err(LedgerError::DebtNotFound));
}

#[test]
fn update_debt_changes_only_what_may_change() {
    let mut l = debt_ledger();
    open_example(&mut l);
    pay(&mut l, "i1", "t1").unwrap();
    let installments = l.installments.clone();
    let updated = update_debt(
        &mut l,
        "d1".to_string(),
        UpdateDebtInput {
            description: Some("Laptop".to_string()),
            interest_rate_bits: Some(4_612_811_918_334_230_528),
            is_active: Some(false),
            notes: Some("refinanced".to_string()),
        },
    )
    .unwrap();
    assert_eq!(updated.description, "Laptop");
    assert_eq!(updated.interest_rate_bits, 4_612_811_918_334_230_528);
    assert_eq!(updated.is_active, 0);
    assert_eq!(updated.notes, Some("refinanced".to_string()));
    assert_eq!(updated.paid_installments, 1);
    assert_eq!(updated.total_installments, 12);
    assert_eq!(updated.start_date, "2024-01-15");
    assert_eq!(l.debts[0], updated);
    assert_eq!(l.installments, installments);
    let kept = update_debt(
        &mut l,
        "d1".to_string(),
        UpdateDebtInput { description: None, interest_rate_bits: None, is_active: None, notes: None },
    )
    .unwrap();
    assert_eq!(kept, updated);
    let back = update_debt(
        &mut l,
        "d1".to_string(),
        UpdateDebtInput {
            description: None,
            interest_rate_bits: None,
            is_active: Some(true),
            notes: None,
        },
    )
    .unwrap();
    assert_eq!(back.is_active, 1);
    assert_eq!(back.notes, Some("refinanced".to_string()));
    let missing = update_debt(
        &mut l,
        "nope".to_string(),
        UpdateDebtInput { description: None, interest_rate_bits: None, is_active: None, notes: None },
    );
    assert_eq!(missing, Err(LedgerError::DebtNotFound));
}

#[test]
fn debt_detail_counts_and_sums_from_the_installments() {
    let mut l = debt_ledger();
    open_example(&mut l);
    pay(&mut l, "i1", "t1").unwrap();
    pay(&mut l, "i3", "t3").unwrap();
    l.debts[0].paid_installments = 99;
    let detail = get_debt_detail(&l, "d1".to_string()).unwrap();
    assert_eq!(detail.debt.paid_installments, 2);
    assert_eq!(detail.installments.len(), 12);
    assert_eq!(detail.next_due_date, Some("2024-03-15".to_string()));
    assert_eq!(detail.remaining_amount, 100_000);
    assert_eq!(detail.account_name, "Account acc");
    let by_id = get_debt_by_id(&l, "d1").unwrap().unwrap();
    assert_eq!(by_id, detail.debt);
    assert_eq!(get_debt_by_id(&l, "nope"), Ok(None));
    assert_eq!(count_paid(&l.installments, "d1"), 2);
    assert_eq!(sum_pending(&l.installments, "d1"), 100_000);
    for i in 0..12 {
        let id = format!("i{}", i + 1);
        if l.installments[i].status == "pending" {
            pay(&mut l, &id, &format!("t{}", i + 1)).unwrap();
        }
    }
    let done = get_debt_detail(&l, "d1".to_string()).unwrap();
    assert_eq!(done.next_due_date, None);
    assert_eq!(done.remaining_amount, 0);
    assert_eq!(done.debt.paid_installments, 12);
    assert_eq!(l.accounts[0].balance, -120_000);
    l.accounts.remove(0);
    assert_eq!(get_debt_detail(&l, "d1".to_string()), Err(LedgerError::MissingRow));
}

#[test]
fn installments_come_in_the_order_of_their_numbers() {
    let mut l = debt_ledger();
    open_example(&mut l);
    l.installments.reverse();
    l.installments.swap(2, 7);
    let listed = list_installments_for_debt(&l, "d1");
    let numbers: Vec<i32> = listed.iter().map(|i| i.installment_number).collect();
    assert_eq!(numbers, (1..=12).collect::<Vec<i32>>());
    let detail = get_debt_detail(&l, "d1".to_string()).unwrap();
    assert_eq!(detail.installments, listed);
    assert_eq!(detail.next_due_date, Some("2024-02-15".to_string()));
    assert!(list_installments_for_debt(&l, "other").is_empty());
}

#[test]
fn sorting_by_number_is_stable() {
    let row = |id: &str, number: i32| Installment {
        id: id.to_string(),
        debt_id: "d".to_string(),
        installment_number: number,
        due_date: String::new(),
        amount: 1,
        status: "pending".to_string(),
        actual_payment_date: None,
        transaction_id: None,
        created_at: String::new(),
    };
    let rows = vec![row("a", 3), row("b", 1), row("c", 3), row("d", 2), row("e", 1)];
    let sorted = sort_by_number(&rows);
    let order: Vec<&str> = sorted.iter().map(|i| i.id.as_str()).collect();
    assert_eq!(order, vec!["b", "e", "d", "a", "c"]);
}

#[test]
fn credit_utilization_of_the_cards_in_use() {
    let mut l = debt_ledger();
    l.accounts.push(account("card2", "credit_card", 1, Some(5)));
    l.accounts.push(account("card3", "credit_card", 0, Some(5)));
    l.accounts.push(Account { credit_limit: None, ..account("card4", "credit_card", 1, Some(5)) });
    l.accounts[1].balance = 120_000;
    create_debt_with_ids(
        &mut l,
        terms("card", 900, 3, 300, "2024-01-31"),
        "d1".to_string(),
        ids("a", 3),
    )
    .unwrap();
    create_debt_with_ids(
        &mut l,
        terms("card", 1000, 2, 500, "2024-01-31"),
        "d2".to_string(),
        ids("b", 2),
    )
    .unwrap();
    create_debt_with_ids(
        &mut l,
        terms("acc", 50, 1, 50, "2024-01-31"),
        "d3".to_string(),
        ids("c", 1),
    )
    .unwrap();
    l.installments[0].status = "paid".to_string();
    l.debts[1].is_active = 0;
    let list = get_credit_utilization(&l).unwrap();
    assert_eq!(
        list,
        vec![
            CreditUtilization {
                account_id: "card".to_string(),
                account_name: "Account card".to_string(),
                credit_limit: 500_000,
                current_balance: 120_000,
                remaining_debt_commitments: 600,
                available_credit: 380_000,
            },
            CreditUtilization {
                account_id: "card2".to_string(),
                account_name: "Account card2".to_string(),
                credit_limit: 500_000,
                current_balance: 0,
                remaining_debt_commitments: 0,
                available_credit: 500_000,
            },
        ]
    );
    l.accounts[1].balance = i64::MIN;
    assert_eq!(get_credit_utilization(&l), Err(LedgerError::AmountOverflow));
}

#[test]
fn lookups_of_installments_and_account_names() {
    let mut l = debt_ledger();
    open_example(&mut l);
    assert_eq!(get_installment_by_id(&l, "i3"), Some(l.installments[2].clone()));
    assert_eq!(get_installment_by_id(&l, "nope"), None);
    assert_eq!(get_account_name_for_debt(&l, "d1"), Ok("Account acc".to_string()));
    assert_eq!(get_account_name_for_debt(&l, "nope"), Err(LedgerError::MissingRow));
    l.accounts.remove(0);
    assert_eq!(get_account_name_for_debt(&l, "d1"), Err(LedgerError::MissingRow));
}

#[test]
fn debt_opened_from_a_day_already_read() {
    let mut l = debt_ledger();
    let start = CalendarDate { year: 2024, month: 1, day: 15 };
    let opened = create_debt_from(
        &mut l,
        terms("acc", 120_000, 12, 10_000, "mid January"),
        Some(start),
        "d1".to_string(),
        ids("i", 12),
    )
    .unwrap();
    let expected = [
        "2024-02-15", "2024-03-15", "2024-04-15", "2024-05-15", "2024-06-15", "2024-07-15",
        "2024-08-15", "2024-09-15", "2024-10-15", "2024-11-15", "2024-12-15", "2025-01-15",
    ];
    let dates: Vec<&str> = opened.installments.iter().map(|i| i.due_date.as_str()).collect();
    assert_eq!(dates, expected);
    let numbers: Vec<i32> = opened.installments.iter().map(|i| i.installment_number).collect();
    assert_eq!(numbers, (1..=12).collect::<Vec<i32>>());
    assert!(opened.installments.iter().all(|i| i.status == "pending" && i.amount == 10_000));
    assert_eq!(opened.debt.paid_installments, 0);
    assert_eq!(opened.remaining_amount, 120_000);
    assert_eq!(opened.next_due_date, Some("2024-02-15".to_string()));
    assert_eq!(opened.debt.start_date, "mid January");
    assert_eq!(l.debts, vec![opened.debt.clone()]);
    assert_eq!(l.installments, opened.installments);
}

#[test]
fn debt_opened_from_no_day_is_refused() {
    let mut l = debt_ledger();
    let before = l.clone();
    let none = create_debt_from(
        &mut l,
        terms("acc", 120_000, 12, 10_000, "2024-01-15"),
        None,
        "d1".to_string(),
        ids("i", 12),
    );
    assert_eq!(none, Err(LedgerError::InvalidStartDate));
    let no_such_day = create_debt_from(
        &mut l,
        terms("acc", 120_000, 12, 10_000, "2023-02-29"),
        Some(CalendarDate { year: 2023, month: 2, day: 29 }),
        "d1".to_string(),
        ids("i", 12),
    );
    assert_eq!(no_such_day, Err(LedgerError::InvalidStartDate));
    let earlier_rule = create_debt_from(
        &mut l,
        terms("nope", 120_000, 12, 10_000, "2024-01-15"),
        None,
        "d1".to_string(),
        ids("i", 12),
    );
    assert_eq!(earlier_rule, Err(LedgerError::AccountNotFound));
    assert_eq!(l, before);
}

#[test]
fn debt_on_a_card_with_a_billing_day_below_one_is_refused() {
    let mut l = debt_ledger();
    l.accounts[1].billing_day = Some(0);
    let before = l.clone();
    let opened = create_debt_from(
        &mut l,
        terms("card", 90_000, 3, 30_000, "2024-01-15"),
        Some(CalendarDate { year: 2024, month: 1, day: 15 }),
        "d1".to_string(),
        ids("i", 3),
    );
    assert_eq!(opened, Err(LedgerError::UnconstructibleDueDate { installment: 1 }));
    assert_eq!(l, before);
}

#[test]
fn payment_is_dated_with_a_day() {
    let mut l = debt_ledger();
    open_example(&mut l);
    let paid = mark_installment_paid(&mut l, "i1".to_string(), "loans".to_string()).unwrap();
    let day = paid.actual_payment_date.unwrap();
    let parts: Vec<&str> = day.split('-').collect();
    assert_eq!(parts.len(), 3);
    assert_eq!((parts[0].len(), parts[1].len(), parts[2].len()), (4, 2, 2));
    let month: u32 = parts[1].parse().unwrap();
    let in_month: u32 = parts[2].parse().unwrap();
    assert!((1..=12).contains(&month) && (1..=31).contains(&in_month));
    assert_eq!(l.transactions[0].date, day);
}
