use necronomics::balance::{has_consistent_balances, recalculate_account_balance};
use necronomics::errors::{ErrorKind, LedgerError};
use necronomics::ledger::Ledger;
use necronomics::models::{Account, Category, Transaction};
use necronomics::transactions::{
    create_transaction, create_transaction_with_id, delete_transaction,
    get_account_id_for_transaction, get_by_id, update_transaction,
};

fn account(id: &str, active: i32) -> Account {
    Account {
        id: id.to_string(),
        name: format!("Account {id}"),
        account_type: "checking".to_string(),
        currency_id: "cur_clp".to_string(),
        balance: 0,
        credit_limit: None,
        billing_day: None,
        is_active: active,
        created_at: String::new(),
    }
}

fn category(id: &str, kind: &str, active: i32) -> Category {
    Category {
        id: id.to_string(),
        name: format!("Category {id}"),
        category_type: kind.to_string(),
        icon: None,
        parent_id: None,
        is_active: active,
        created_at: String::new(),
    }
}

fn ledger() -> Ledger {
    let mut ledger = Ledger::new();
    ledger.accounts.push(account("a1", 1));
    ledger.accounts.push(account("a2", 1));
    ledger.accounts.push(account("archived", 0));
    ledger.categories.push(category("salary", "income", 1));
    ledger.categories.push(category("food", "expense", 1));
    ledger.categories.push(category("old", "expense", 0));
    ledger
}

fn create(
    ledger: &mut Ledger,
    id: &str,
    account: &str,
    category: &str,
    amount: i64,
    kind: &str,
) -> Result<Transaction, LedgerError> {
    create_transaction_with_id(
        ledger,
        id.to_string(),
        account.to_string(),
        category.to_string(),
        amount,
        kind.to_string(),
        "groceries".to_string(),
        "2024-03-01".to_string(),
    )
}

fn balance(ledger: &Ledger, id: &str) -> i64 {
    ledger.accounts.iter().find(|a| a.id == id).unwrap().balance
}

fn signed_sum(ledger: &Ledger, id: &str) -> i64 {
    ledger
        .transactions
        .iter()
        .filter(|t| t.account_id == id)
        .map(|t| if t.transaction_type == "income" { t.amount } else { -t.amount })
        .sum()
}

fn assert_balances_hold(ledger: &Ledger) {
    for a in &ledger.accounts {
        assert_eq!(a.balance, signed_sum(ledger, &a.id), "account {}", a.id);
    }
}

#[test]
fn created_transaction_is_stored_and_balance_follows() {
    let mut l = ledger();
    let t = create(&mut l, "t1", "a1", "salary", 5000, "income").unwrap();
    assert_eq!(t.id, "t1");
    assert_eq!(t.account_id, "a1");
    assert_eq!(t.category_id, "salary");
    assert_eq!(t.amount, 5000);
    assert_eq!(t.transaction_type, "income");
    assert_eq!(t.description, "groceries");
    assert_eq!(t.date, "2024-03-01");
    assert_eq!(t.notes, None);
    assert_eq!(l.transactions, vec![t]);
    assert_eq!(balance(&l, "a1"), 5000);
    create(&mut l, "t2", "a1", "food", 1200, "expense").unwrap();
    assert_eq!(balance(&l, "a1"), 3800);
    assert_eq!(balance(&l, "a2"), 0);
    assert_balances_hold(&l);
}

#[test]
fn create_transaction_draws_an_id() {
    let mut l = ledger();
    let first = create_transaction(
        &mut l,
        "a1".to_string(),
        "food".to_string(),
        10,
        "expense".to_string(),
        "bread".to_string(),
        "2024-03-02".to_string(),
    )
    .unwrap();
    let second = create_transaction(
        &mut l,
        "a1".to_string(),
        "food".to_string(),
        15,
        "expense".to_string(),
        "milk".to_string(),
        "2024-03-02".to_string(),
    )
    .unwrap();
    assert!(!first.id.is_empty());
    assert_ne!(first.id, second.id);
    assert_eq!(l.transactions.len(), 2);
    assert_eq!(balance(&l, "a1"), -25);
}

#[test]
fn create_transaction_rules_in_order() {
    let mut l = ledger();
    let before = l.clone();
    assert_eq!(create(&mut l, "t", "nobody", "none", 0, "gift"), Err(LedgerError::NonPositiveAmount));
    assert_eq!(create(&mut l, "t", "a1", "food", -5, "expense"), Err(LedgerError::NonPositiveAmount));
    let no_date = create_transaction_with_id(
        &mut l,
        "t".to_string(),
        "nobody".to_string(),
        "none".to_string(),
        1,
        "gift".to_string(),
        String::new(),
        String::new(),
    );
    assert_eq!(no_date, Err(LedgerError::EmptyDate));
    assert_eq!(
        create(&mut l, "t", "nobody", "none", 1, "gift"),
        Err(LedgerError::UnknownTransactionType)
    );
    assert_eq!(create(&mut l, "t", "nobody", "none", 1, "income"), Err(LedgerError::AccountNotFound));
    assert_eq!(
        create(&mut l, "t", "archived", "none", 1, "income"),
        Err(LedgerError::TransactionOnInactiveAccount)
    );
    assert_eq!(create(&mut l, "t", "a1", "none", 1, "income"), Err(LedgerError::CategoryNotFound));
    assert_eq!(create(&mut l, "t", "a1", "old", 1, "expense"), Err(LedgerError::InactiveCategory));
    assert_eq!(create(&mut l, "t", "a1", "food", 1, "income"), Err(LedgerError::TypeMismatch));
    assert_eq!(l, before);
}

#[test]
fn error_kinds_of_transaction_rules() {
    assert_eq!(LedgerError::NonPositiveAmount.kind(), ErrorKind::Validation);
    assert_eq!(LedgerError::EmptyDate.kind(), ErrorKind::Validation);
    assert_eq!(LedgerError::UnknownTransactionType.kind(), ErrorKind::Validation);
    assert_eq!(LedgerError::AccountNotFound.kind(), ErrorKind::NotFound);
    assert_eq!(LedgerError::TransactionOnInactiveAccount.kind(), ErrorKind::InactiveAccount);
    assert_eq!(LedgerError::InactiveCategory.kind(), ErrorKind::InvalidCategory);
    assert_eq!(LedgerError::TypeMismatch.kind(), ErrorKind::TypeMismatch);
    assert_eq!(LedgerError::DuplicateId.kind(), ErrorKind::Storage);
    assert_eq!(LedgerError::AmountOverflow.kind(), ErrorKind::Storage);
    assert_eq!(LedgerError::TransactionNotFound.kind(), ErrorKind::NotFound);
}

#[test]
fn an_id_that_is_taken_is_refused() {
    let mut l = ledger();
    create(&mut l, "t1", "a1", "salary", 100, "income").unwrap();
    let before = l.clone();
    assert_eq!(create(&mut l, "t1", "a2", "salary", 7, "income"), Err(LedgerError::DuplicateId));
    assert_eq!(l, before);
}

#[test]
fn a_balance_that_does_not_fit_is_refused() {
    let mut l = ledger();
    create(&mut l, "t1", "a1", "salary", i64::MAX, "income").unwrap();
    let before = l.clone();
    assert_eq!(create(&mut l, "t2", "a1", "salary", 1, "income"), Err(LedgerError::AmountOverflow));
    assert_eq!(l, before);
    create(&mut l, "t3", "a1", "food", 1, "expense").unwrap();
    assert_eq!(balance(&l, "a1"), i64::MAX - 1);
}

#[test]
fn update_merges_given_fields_over_the_row() {
    let mut l = ledger();
    create(&mut l, "t1", "a1", "food", 1000, "expense").unwrap();
    let t = update_transaction(
        &mut l,
        "t1".to_string(),
        None,
        None,
        Some(250),
        None,
        Some("lunch".to_string()),
        None,
    )
    .unwrap();
    assert_eq!(t.amount, 250);
    assert_eq!(t.description, "lunch");
    assert_eq!(t.account_id, "a1");
    assert_eq!(t.category_id, "food");
    assert_eq!(t.transaction_type, "expense");
    assert_eq!(t.date, "2024-03-01");
    assert_eq!(l.transactions, vec![t]);
    assert_eq!(balance(&l, "a1"), -250);
}

#[test]
fn update_that_moves_the_account_recalculates_both() {
    let mut l = ledger();
    create(&mut l, "t1", "a1", "salary", 1000, "income").unwrap();
    create(&mut l, "t2", "a1", "food", 300, "expense").unwrap();
    create(&mut l, "t3", "a2", "salary", 50, "income").unwrap();
    let t = update_transaction(
        &mut l,
        "t1".to_string(),
        Some("a2".to_string()),
        None,
        None,
        None,
        None,
        Some("2024-04-01".to_string()),
    )
    .unwrap();
    assert_eq!(t.account_id, "a2");
    assert_eq!(t.date, "2024-04-01");
    assert_eq!(balance(&l, "a1"), -300);
    assert_eq!(balance(&l, "a2"), 1050);
    assert_balances_hold(&l);
}

#[test]
fn update_rules() {
    let mut l = ledger();
    create(&mut l, "t1", "a1", "food", 1000, "expense").unwrap();
    let before = l.clone();
    let missing =
        update_transaction(&mut l, "nope".to_string(), None, None, Some(0), None, None, None);
    assert_eq!(missing, Err(LedgerError::TransactionNotFound));
    let zero = update_transaction(&mut l, "t1".to_string(), None, None, Some(0), None, None, None);
    assert_eq!(zero, Err(LedgerError::NonPositiveAmount));
    let kind = update_transaction(
        &mut l,
        "t1".to_string(),
        None,
        None,
        None,
        Some("transfer".to_string()),
        None,
        None,
    );
    assert_eq!(kind, Err(LedgerError::UnknownTransactionType));
    assert_eq!(l, before);
}

#[test]
fn update_that_overflows_a_balance_changes_nothing() {
    let mut l = ledger();
    create(&mut l, "t1", "a1", "salary", i64::MAX, "income").unwrap();
    create(&mut l, "t2", "a2", "salary", 5, "income").unwrap();
    let before = l.clone();
    let moved = update_transaction(
        &mut l,
        "t2".to_string(),
        Some("a1".to_string()),
        None,
        None,
        None,
        None,
        None,
    );
    assert_eq!(moved, Err(LedgerError::AmountOverflow));
    assert_eq!(l, before);
}

#[test]
fn delete_removes_the_row_and_recalculates() {
    let mut l = ledger();
    create(&mut l, "t1", "a1", "salary", 1000, "income").unwrap();
    create(&mut l, "t2", "a1", "food", 300, "expense").unwrap();
    assert_eq!(delete_transaction(&mut l, "t1".to_string()), Ok(()));
    assert_eq!(l.transactions.len(), 1);
    assert_eq!(l.transactions[0].id, "t2");
    assert_eq!(balance(&l, "a1"), -300);
    assert_eq!(delete_transaction(&mut l, "t1".to_string()), Err(LedgerError::TransactionNotFound));
    assert_eq!(delete_transaction(&mut l, "t2".to_string()), Ok(()));
    assert_eq!(balance(&l, "a1"), 0);
    assert_balances_hold(&l);
}

#[test]
fn recalculation_is_idempotent() {
    let mut l = ledger();
    l.transactions.push(Transaction {
        id: "t1".to_string(),
        account_id: "a1".to_string(),
        category_id: "salary".to_string(),
        amount: 700,
        transaction_type: "income".to_string(),
        description: String::new(),
        date: "2024-01-01".to_string(),
        notes: None,
        created_at: String::new(),
    });
    assert_eq!(balance(&l, "a1"), 0);
    assert_eq!(recalculate_account_balance(&mut l, "a1"), Ok(()));
    assert_eq!(balance(&l, "a1"), 700);
    let once = l.clone();
    assert_eq!(recalculate_account_balance(&mut l, "a1"), Ok(()));
    assert_eq!(l, once);
    assert_eq!(recalculate_account_balance(&mut l, "unknown"), Ok(()));
    assert_eq!(l, once);
}

#[test]
fn balances_hold_after_a_run_of_changes() {
    let mut l = ledger();
    for i in 0..20i64 {
        let (account, category, kind) = match i % 4 {
            0 => ("a1", "salary", "income"),
            1 => ("a1", "food", "expense"),
            2 => ("a2", "salary", "income"),
            _ => ("a2", "food", "expense"),
        };
        create(&mut l, &format!("t{i}"), account, category, 100 + i * 7, kind).unwrap();
        assert_balances_hold(&l);
    }
    for i in (0..20i64).step_by(3) {
        let to = if i % 2 == 0 { "a2" } else { "a1" };
        update_transaction(
            &mut l,
            format!("t{i}"),
            Some(to.to_string()),
            None,
            Some(1 + i),
            None,
            None,
            None,
        )
        .unwrap();
        assert_balances_hold(&l);
    }
    for i in (1..20i64).step_by(4) {
        delete_transaction(&mut l, format!("t{i}")).unwrap();
        assert_balances_hold(&l);
    }
}

#[test]
fn lookups_of_transactions() {
    let mut l = ledger();
    let t = create(&mut l, "t1", "a2", "salary", 5, "income").unwrap();
    assert_eq!(get_by_id(&l, "t1"), Some(t));
    assert_eq!(get_by_id(&l, "t2"), None);
    assert_eq!(get_account_id_for_transaction(&l, "t1"), Ok("a2".to_string()));
    assert_eq!(get_account_id_for_transaction(&l, "t2"), Err(LedgerError::MissingRow));
}

#[test]
fn soundness_of_a_ledger_can_be_checked() {
    let mut l = ledger();
    assert!(l.has_unique_ids());
    assert!(has_consistent_balances(&l));
    create(&mut l, "t1", "a1", "salary", 100, "income").unwrap();
    create(&mut l, "t2", "a2", "food", 40, "expense").unwrap();
    update_transaction(&mut l, "t2".to_string(), Some("a1".to_string()), None, None, None, None, None)
        .unwrap();
    assert!(l.has_unique_ids());
    assert!(has_consistent_balances(&l));
    l.accounts[0].balance += 1;
    assert!(!has_consistent_balances(&l));
    l.accounts[0].balance -= 1;
    let again = l.transactions[0].clone();
    l.transactions.push(again);
    assert!(!l.has_unique_ids());
    assert!(!has_consistent_balances(&l));
    assert!(Ledger::new().has_unique_ids());
    assert!(has_consistent_balances(&Ledger::new()));
}

#[test]
fn update_keeps_the_type_of_the_category() {
    let mut l = ledger();
    create(&mut l, "t1", "a1", "food", 1000, "expense").unwrap();
    let before = l.clone();
    let only_type = update_transaction(
        &mut l,
        "t1".to_string(),
        None,
        None,
        None,
        Some("income".to_string()),
        None,
        None,
    );
    assert_eq!(only_type, Err(LedgerError::TypeMismatch));
    assert_eq!(LedgerError::TypeMismatch.kind(), ErrorKind::TypeMismatch);
    let only_category = update_transaction(
        &mut l,
        "t1".to_string(),
        None,
        Some("salary".to_string()),
        None,
        None,
        None,
        None,
    );
    assert_eq!(only_category, Err(LedgerError::TypeMismatch));
    assert_eq!(l, before);
    let both = update_transaction(
        &mut l,
        "t1".to_string(),
        None,
        Some("salary".to_string()),
        None,
        Some("income".to_string()),
        None,
        None,
    )
    .unwrap();
    assert_eq!(both.category_id, "salary");
    assert_eq!(both.transaction_type, "income");
    assert_eq!(balance(&l, "a1"), 1000);
    assert_balances_hold(&l);
}

#[test]
fn update_to_a_category_that_is_not_stored_is_not_a_mismatch() {
    let mut l = ledger();
    create(&mut l, "t1", "a1", "food", 1000, "expense").unwrap();
    let t = update_transaction(
        &mut l,
        "t1".to_string(),
        None,
        Some("gone".to_string()),
        None,
        Some("income".to_string()),
        None,
        None,
    )
    .unwrap();
    assert_eq!(t.category_id, "gone");
    assert_eq!(balance(&l, "a1"), 1000);
}
