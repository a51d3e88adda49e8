use necronomics::changes::{ledger_changes, table_changes};
use necronomics::debts::{create_debt_with_ids, delete_debt, mark_installment_paid_on};
use necronomics::ledger::Ledger;
use necronomics::models::{Account, Category, CreateDebtInput};
use necronomics::transactions::{create_transaction_with_id, delete_transaction};

fn account(id: &str, balance: i64) -> Account {
    Account {
        id: id.to_string(),
        name: format!("Account {id}"),
        account_type: "checking".to_string(),
        currency_id: "cur_clp".to_string(),
        balance,
        credit_limit: None,
        billing_day: None,
        is_active: 1,
        created_at: String::new(),
    }
}

fn category(id: &str, kind: &str) -> Category {
    Category {
        id: id.to_string(),
        name: format!("Category {id}"),
        category_type: kind.to_string(),
        icon: None,
        parent_id: None,
        is_active: 1,
        created_at: String::new(),
    }
}

fn ledger() -> Ledger {
    let mut ledger = Ledger::new();
    ledger.accounts.push(account("a1", 0));
    ledger.accounts.push(account("a2", 0));
    ledger.categories.push(category("food", "expense"));
    ledger.categories.push(category("salary", "income"));
    ledger
}

fn spend(ledger: &mut Ledger, id: &str, account: &str, amount: i64) {
    create_transaction_with_id(
        ledger,
        id.to_string(),
        account.to_string(),
        "food".to_string(),
        amount,
        "expense".to_string(),
        "groceries".to_string(),
        "2024-03-01".to_string(),
    )
    .unwrap();
}

fn ids_of(rows: &[Account]) -> Vec<&str> {
    rows.iter().map(|a| a.id.as_str()).collect()
}

#[test]
fn rows_of_a_table_that_came_changed_and_went() {
    let before = vec![account("a", 1), account("b", 2), account("c", 3), account("d", 4)];
    let after = vec![account("e", 9), account("d", 4), account("b", 20), account("f", 0)];
    let changes = table_changes(&before, &after);
    assert_eq!(ids_of(&changes.inserted), vec!["e", "f"]);
    assert_eq!(changes.inserted[0].balance, 9);
    assert_eq!(ids_of(&changes.updated), vec!["b"]);
    assert_eq!(changes.updated[0].balance, 20);
    assert_eq!(changes.deleted, vec!["a".to_string(), "c".to_string()]);
}

#[test]
fn nothing_changes_between_a_table_and_itself() {
    let rows = vec![account("a", 1), account("b", 2)];
    let changes = table_changes(&rows, &rows);
    assert!(changes.inserted.is_empty());
    assert!(changes.updated.is_empty());
    assert!(changes.deleted.is_empty());
    let empty: Vec<Account> = Vec::new();
    let filled = table_changes(&empty, &rows);
    assert_eq!(filled.inserted, rows);
    let cleared = table_changes(&rows, &empty);
    assert_eq!(cleared.deleted, vec!["a".to_string(), "b".to_string()]);
    assert!(cleared.inserted.is_empty() && cleared.updated.is_empty());
}

#[test]
fn a_new_transaction_changes_its_account_and_nothing_else() {
    let before = ledger();
    let mut after = before.clone();
    spend(&mut after, "t1", "a1", 700);
    let changes = ledger_changes(&before, &after);
    assert_eq!(changes.transactions.inserted, after.transactions);
    assert!(changes.transactions.updated.is_empty());
    assert!(changes.transactions.deleted.is_empty());
    assert_eq!(ids_of(&changes.accounts.updated), vec!["a1"]);
    assert_eq!(changes.accounts.updated[0].balance, -700);
    assert!(changes.accounts.inserted.is_empty() && changes.accounts.deleted.is_empty());
    assert!(changes.categories.inserted.is_empty());
    assert!(changes.categories.updated.is_empty());
    assert!(changes.categories.deleted.is_empty());
    assert!(changes.debts.inserted.is_empty());
    assert!(changes.installments.inserted.is_empty());
}

#[test]
fn a_deleted_transaction_is_named_by_its_id() {
    let mut before = ledger();
    spend(&mut before, "t1", "a1", 700);
    spend(&mut before, "t2", "a2", 50);
    let mut after = before.clone();
    delete_transaction(&mut after, "t1".to_string()).unwrap();
    let changes = ledger_changes(&before, &after);
    assert_eq!(changes.transactions.deleted, vec!["t1".to_string()]);
    assert!(changes.transactions.inserted.is_empty());
    assert!(changes.transactions.updated.is_empty());
    assert_eq!(ids_of(&changes.accounts.updated), vec!["a1"]);
    assert_eq!(changes.accounts.updated[0].balance, 0);
}

#[test]
fn a_payment_changes_one_installment_its_debt_and_the_account() {
    let mut before = ledger();
    let terms = CreateDebtInput {
        account_id: "a1".to_string(),
        description: "Notebook".to_string(),
        original_amount: 30_000,
        total_installments: 3,
        monthly_payment: 10_000,
        interest_rate_bits: 0,
        start_date: "2024-01-15".to_string(),
        notes: None,
    };
    let installment_ids = vec!["i1".to_string(), "i2".to_string(), "i3".to_string()];
    let opened = ledger_changes(&ledger(), &{
        create_debt_with_ids(&mut before, terms, "d1".to_string(), installment_ids).unwrap();
        before.clone()
    });
    assert_eq!(opened.debts.inserted.len(), 1);
    assert_eq!(opened.installments.inserted.len(), 3);
    assert!(opened.accounts.updated.is_empty());
    let mut after = before.clone();
    mark_installment_paid_on(
        &mut after,
        "i2".to_string(),
        "food".to_string(),
        "t1".to_string(),
        "2024-03-10".to_string(),
    )
    .unwrap();
    let paid = ledger_changes(&before, &after);
    assert_eq!(paid.installments.updated.len(), 1);
    assert_eq!(paid.installments.updated[0].id, "i2");
    assert_eq!(paid.installments.updated[0].status, "paid");
    assert_eq!(paid.debts.updated.len(), 1);
    assert_eq!(paid.debts.updated[0].paid_installments, 1);
    assert_eq!(paid.transactions.inserted.len(), 1);
    assert_eq!(paid.transactions.inserted[0].id, "t1");
    assert_eq!(ids_of(&paid.accounts.updated), vec!["a1"]);
    assert_eq!(paid.accounts.updated[0].balance, -10_000);
    let mut closed = after.clone();
    delete_debt(&mut closed, "d1".to_string()).unwrap();
    let gone = ledger_changes(&after, &closed);
    assert_eq!(gone.debts.deleted, vec!["d1".to_string()]);
    assert_eq!(gone.installments.deleted.len(), 3);
}
