use necronomics::errors::{ErrorKind, LedgerError};
use necronomics::ledger::Ledger;
use necronomics::listing::{
    apply_filters, count_filtered, list_accounts, list_categories, list_debts, list_filtered,
    list_transactions, paginate,
};
use necronomics::models::{
    Account, Category, Debt, DebtFilter, Installment, Transaction, TransactionFilter,
};

fn filter() -> TransactionFilter {
    TransactionFilter {
        account_id: None,
        category_id: None,
        transaction_type: None,
        date_from: None,
        date_to: None,
        amount_min: None,
        amount_max: None,
        search: None,
        sort_by: None,
        sort_dir: None,
        page: None,
        page_size: None,
    }
}

fn row(id: &str, account: &str, category: &str, amount: i64, kind: &str, text: &str, date: &str)
    -> Transaction
{
    Transaction {
        id: id.to_string(),
        account_id: account.to_string(),
        category_id: category.to_string(),
        amount,
        transaction_type: kind.to_string(),
        description: text.to_string(),
        date: date.to_string(),
        notes: None,
        created_at: format!("2024-01-01 00:00:{amount:02}"),
    }
}

fn rows(count: usize) -> Vec<Transaction> {
    (0..count).map(|i| row(&format!("t{i}"), "a", "c", 1 + i as i64, "expense", "", "2024-01-01")).collect()
}

fn sample() -> Ledger {
    let mut l = Ledger::new();
    l.transactions = vec![
        row("t1", "a1", "food", 50, "expense", "Bread and milk", "2024-03-02"),
        row("t2", "a1", "pay", 900, "income", "Salary March", "2024-03-01"),
        row("t3", "a2", "food", 20, "expense", "bread", "2024-02-10"),
        row("t4", "a2", "rent", 400, "expense", "Rent 100% paid", "2024-03-05"),
        row("t5", "a1", "food", 35, "expense", "Coffee_beans", "2024-01-20"),
        row("t6", "a1", "pay", 10, "income", "Refund", "2024-03-02"),
    ];
    l
}

fn ids(rows: &[Transaction]) -> Vec<&str> {
    rows.iter().map(|t| t.id.as_str()).collect()
}

fn listed(l: &Ledger, f: &TransactionFilter) -> Vec<String> {
    list_transactions(l, f).unwrap().data.into_iter().map(|t| t.id).collect()
}

#[test]
fn second_page_of_forty_five_rows() {
    let mut l = Ledger::new();
    l.transactions = rows(45);
    let f = TransactionFilter {
        page: Some(2),
        page_size: Some(20),
        sort_by: Some("amount".to_string()),
        sort_dir: Some("ASC".to_string()),
        ..filter()
    };
    let page = list_transactions(&l, &f).unwrap();
    assert_eq!(page.data.len(), 20);
    assert_eq!(page.data[0].id, "t20");
    assert_eq!(page.data[19].id, "t39");
    assert_eq!(page.total, 45);
    assert_eq!(page.page, 2);
    assert_eq!(page.page_size, 20);
    assert_eq!(page.total_pages, 3);
    assert_eq!(list_filtered(&l, &f).unwrap(), page.data);
    assert_eq!(count_filtered(&l, &f), 45);
}

#[test]
fn last_page_is_short_and_later_pages_are_empty() {
    let all = rows(45);
    let last = paginate(&all, &TransactionFilter { page: Some(3), page_size: Some(20), ..filter() })
        .unwrap();
    assert_eq!(last.data.len(), 5);
    assert_eq!(last.data[0].id, "t40");
    assert_eq!(last.total_pages, 3);
    let past = paginate(&all, &TransactionFilter { page: Some(4), page_size: Some(20), ..filter() })
        .unwrap();
    assert!(past.data.is_empty());
    assert_eq!(past.total_pages, 3);
    assert_eq!(past.total, 45);
    let exact = paginate(&rows(40), &TransactionFilter { page_size: Some(20), ..filter() }).unwrap();
    assert_eq!(exact.total_pages, 2);
    assert_eq!(exact.data.len(), 20);
}

#[test]
fn defaults_are_first_page_of_twenty_by_date_downwards() {
    let page = paginate(&rows(21), &filter()).unwrap();
    assert_eq!(page.page, 1);
    assert_eq!(page.page_size, 20);
    assert_eq!(page.data.len(), 20);
    assert_eq!(page.total_pages, 2);
    let l = sample();
    assert_eq!(listed(&l, &filter()), vec!["t4", "t1", "t6", "t2", "t3", "t5"]);
}

#[test]
fn no_rows_fill_no_pages() {
    let page = paginate(&Vec::new(), &filter()).unwrap();
    assert_eq!(page.total, 0);
    assert_eq!(page.total_pages, 0);
    assert!(page.data.is_empty());
    assert_eq!(paginate(&rows(1), &filter()).unwrap().total_pages, 1);
    assert_eq!(paginate(&rows(20), &filter()).unwrap().total_pages, 1);
    assert_eq!(paginate(&rows(21), &filter()).unwrap().total_pages, 2);
    let huge = TransactionFilter { page_size: Some(i64::MAX), ..filter() };
    let page = paginate(&rows(3), &huge).unwrap();
    assert_eq!((page.total_pages, page.data.len()), (1, 3));
    let one = TransactionFilter { page_size: Some(1), page: Some(3), ..filter() };
    let page = paginate(&rows(3), &one).unwrap();
    assert_eq!((page.total_pages, page.data.len()), (3, 1));
    assert_eq!(page.data[0].id, "t2");
}

#[test]
fn pages_that_cannot_be_shown() {
    let l = sample();
    let zero = TransactionFilter { page_size: Some(0), ..filter() };
    assert_eq!(list_filtered(&l, &zero), Err(LedgerError::InvalidPageSize));
    assert_eq!(paginate(&rows(3), &zero), Err(LedgerError::InvalidPageSize));
    assert_eq!(list_transactions(&l, &zero), Err(LedgerError::InvalidPageSize));
    let negative = TransactionFilter { page_size: Some(-5), page: Some(0), ..filter() };
    assert_eq!(list_filtered(&l, &negative), Err(LedgerError::InvalidPageSize));
    let before_first = TransactionFilter { page: Some(0), ..filter() };
    assert_eq!(list_filtered(&l, &before_first), Err(LedgerError::InvalidPage));
    assert_eq!(paginate(&rows(3), &before_first), Err(LedgerError::InvalidPage));
    let far = TransactionFilter { page: Some(i64::MAX), page_size: Some(3), ..filter() };
    assert_eq!(list_filtered(&l, &far), Err(LedgerError::AmountOverflow));
    assert_eq!(LedgerError::InvalidPage.kind(), ErrorKind::Validation);
    assert_eq!(LedgerError::InvalidPageSize.kind(), ErrorKind::Validation);
}

#[test]
fn filters_by_account_category_and_type() {
    let l = sample();
    let by_account = TransactionFilter { account_id: Some("a2".to_string()), ..filter() };
    assert_eq!(ids(&apply_filters(&l.transactions, &by_account)), vec!["t3", "t4"]);
    let by_category = TransactionFilter { category_id: Some("food".to_string()), ..filter() };
    assert_eq!(ids(&apply_filters(&l.transactions, &by_category)), vec!["t1", "t3", "t5"]);
    let by_type = TransactionFilter { transaction_type: Some("income".to_string()), ..filter() };
    assert_eq!(ids(&apply_filters(&l.transactions, &by_type)), vec!["t2", "t6"]);
    let all = TransactionFilter {
        account_id: Some("a1".to_string()),
        category_id: Some("food".to_string()),
        transaction_type: Some("expense".to_string()),
        ..filter()
    };
    assert_eq!(ids(&apply_filters(&l.transactions, &all)), vec!["t1", "t5"]);
    assert_eq!(count_filtered(&l, &all), 2);
    let none = TransactionFilter { account_id: Some("A1".to_string()), ..filter() };
    assert_eq!(count_filtered(&l, &none), 0);
    assert_eq!(list_transactions(&l, &none).unwrap().total_pages, 0);
}

#[test]
fn filters_by_dates_and_amounts() {
    let l = sample();
    let march = TransactionFilter {
        date_from: Some("2024-03-01".to_string()),
        date_to: Some("2024-03-02".to_string()),
        ..filter()
    };
    assert_eq!(ids(&apply_filters(&l.transactions, &march)), vec!["t1", "t2", "t6"]);
    let from = TransactionFilter { date_from: Some("2024-03-02".to_string()), ..filter() };
    assert_eq!(ids(&apply_filters(&l.transactions, &from)), vec!["t1", "t4", "t6"]);
    let until = TransactionFilter { date_to: Some("2024-02".to_string()), ..filter() };
    assert_eq!(ids(&apply_filters(&l.transactions, &until)), vec!["t5"]);
    let amounts =
        TransactionFilter { amount_min: Some(20), amount_max: Some(50), ..filter() };
    assert_eq!(ids(&apply_filters(&l.transactions, &amounts)), vec!["t1", "t3", "t5"]);
    let least = TransactionFilter { amount_min: Some(401), ..filter() };
    assert_eq!(ids(&apply_filters(&l.transactions, &least)), vec!["t2"]);
}

#[test]
fn search_finds_text_in_the_description() {
    let l = sample();
    let find = |text: &str| -> Vec<String> {
        let f = TransactionFilter { search: Some(text.to_string()), ..filter() };
        apply_filters(&l.transactions, &f).into_iter().map(|t| t.id).collect()
    };
    assert_eq!(find("bread"), vec!["t1", "t3"]);
    assert_eq!(find("BREAD"), vec!["t1", "t3"]);
    assert_eq!(find("read a"), vec!["t1"]);
    assert_eq!(find(""), vec!["t1", "t2", "t3", "t4", "t5", "t6"]);
    assert_eq!(find("salary march"), vec!["t2"]);
    assert_eq!(find("march salary"), Vec::<String>::new());
    assert_eq!(find("r%d"), vec!["t1", "t3", "t4", "t6"]);
    assert_eq!(find("e_b"), vec!["t5"]);
    assert_eq!(find("100%"), vec!["t4"]);
    assert_eq!(find("_________________"), Vec::<String>::new());
    assert_eq!(find("______"), vec!["t1", "t2", "t4", "t5", "t6"]);
}

#[test]
fn order_by_each_column() {
    let l = sample();
    let by = |column: &str, direction: &str| -> Vec<String> {
        let f = TransactionFilter {
            sort_by: Some(column.to_string()),
            sort_dir: Some(direction.to_string()),
            ..filter()
        };
        listed(&l, &f)
    };
    assert_eq!(by("date", "ASC"), vec!["t5", "t3", "t2", "t1", "t6", "t4"]);
    assert_eq!(by("date", "DESC"), vec!["t4", "t1", "t6", "t2", "t3", "t5"]);
    assert_eq!(by("amount", "ASC"), vec!["t6", "t3", "t5", "t1", "t4", "t2"]);
    assert_eq!(by("amount", "DESC"), vec!["t2", "t4", "t1", "t5", "t3", "t6"]);
    assert_eq!(by("description", "ASC"), vec!["t1", "t5", "t6", "t4", "t2", "t3"]);
    assert_eq!(by("type", "ASC"), vec!["t1", "t3", "t4", "t5", "t2", "t6"]);
    assert_eq!(by("type", "DESC"), vec!["t2", "t6", "t1", "t3", "t4", "t5"]);
    assert_eq!(by("created_at", "ASC"), vec!["t6", "t3", "t5", "t4", "t1", "t2"]);
    assert_eq!(by("created_at", "DESC"), vec!["t2", "t1", "t4", "t5", "t3", "t6"]);
}

#[test]
fn order_falls_back_to_date_downwards() {
    let l = sample();
    let f = TransactionFilter {
        sort_by: Some("id; DROP TABLE transactions".to_string()),
        sort_dir: Some("asc".to_string()),
        ..filter()
    };
    assert_eq!(listed(&l, &f), vec!["t4", "t1", "t6", "t2", "t3", "t5"]);
    let f = TransactionFilter { sort_by: Some("amount".to_string()), ..filter() };
    assert_eq!(listed(&l, &f), vec!["t2", "t4", "t1", "t5", "t3", "t6"]);
}

#[test]
fn filter_order_and_page_together() {
    let l = sample();
    let f = TransactionFilter {
        transaction_type: Some("expense".to_string()),
        sort_by: Some("amount".to_string()),
        sort_dir: Some("ASC".to_string()),
        page: Some(2),
        page_size: Some(3),
        ..filter()
    };
    let page = list_transactions(&l, &f).unwrap();
    assert_eq!(ids(&page.data), vec!["t4"]);
    assert_eq!(page.total, 4);
    assert_eq!(page.total_pages, 2);
}

fn account(id: &str, name: &str, kind: &str, active: i32) -> Account {
    Account {
        id: id.to_string(),
        name: name.to_string(),
        account_type: kind.to_string(),
        currency_id: "cur_clp".to_string(),
        balance: 0,
        credit_limit: None,
        billing_day: None,
        is_active: active,
        created_at: String::new(),
    }
}

#[test]
fn accounts_are_listed_by_type_and_name() {
    let mut l = Ledger::new();
    l.accounts = vec![
        account("1", "Wallet", "cash", 1),
        account("2", "Visa", "credit_card", 1),
        account("3", "Bank", "checking", 1),
        account("4", "Old", "cash", 0),
        account("5", "Amex", "credit_card", 1),
        account("6", "Jar", "cash", 1),
        account("7", "bank", "checking", 1),
    ];
    let names: Vec<String> = list_accounts(&l).into_iter().map(|a| a.name).collect();
    assert_eq!(names, vec!["Jar", "Wallet", "Bank", "bank", "Amex", "Visa"]);
    assert!(list_accounts(&Ledger::new()).is_empty());
}

fn category(id: &str, name: &str, kind: &str, parent: Option<&str>, active: i32) -> Category {
    Category {
        id: id.to_string(),
        name: name.to_string(),
        category_type: kind.to_string(),
        icon: None,
        parent_id: parent.map(|p| p.to_string()),
        is_active: active,
        created_at: String::new(),
    }
}

#[test]
fn categories_are_listed_by_type_parents_first_then_name() {
    let mut l = Ledger::new();
    l.categories = vec![
        category("1", "Salary", "income", None, 1),
        category("2", "Rent", "expense", Some("4"), 1),
        category("3", "Food", "expense", None, 1),
        category("4", "Home", "expense", None, 1),
        category("5", "Bonus", "income", Some("1"), 1),
        category("6", "Cinema", "expense", Some("3"), 1),
        category("7", "Gone", "expense", None, 0),
        category("8", "Gifts", "income", None, 1),
    ];
    let names: Vec<String> = list_categories(&l).into_iter().map(|c| c.name).collect();
    assert_eq!(names, vec!["Food", "Home", "Cinema", "Rent", "Gifts", "Salary", "Bonus"]);
}

fn debt(id: &str, account: &str, text: &str, active: i32, created: &str) -> Debt {
    Debt {
        id: id.to_string(),
        account_id: account.to_string(),
        description: text.to_string(),
        original_amount: 100,
        total_installments: 2,
        paid_installments: 0,
        monthly_payment: 50,
        interest_rate_bits: 0,
        start_date: "2024-01-01".to_string(),
        is_active: active,
        notes: None,
        created_at: created.to_string(),
    }
}

fn installment(id: &str, debt: &str, status: &str) -> Installment {
    Installment {
        id: id.to_string(),
        debt_id: debt.to_string(),
        installment_number: 1,
        due_date: "2024-02-01".to_string(),
        amount: 50,
        status: status.to_string(),
        actual_payment_date: None,
        transaction_id: None,
        created_at: String::new(),
    }
}

#[test]
fn debts_are_listed_latest_first_with_their_count() {
    let mut l = Ledger::new();
    l.debts = vec![
        debt("d1", "a1", "Notebook", 1, "2024-01-01 10:00:00"),
        debt("d2", "a2", "Car loan", 1, "2024-03-01 10:00:00"),
        debt("d3", "a1", "Old phone", 0, "2024-02-01 10:00:00"),
    ];
    l.installments = vec![
        installment("i1", "d1", "paid"),
        installment("i2", "d1", "paid"),
        installment("i3", "d2", "pending"),
        installment("i4", "d3", "paid"),
    ];
    let list = |f: DebtFilter| -> Vec<(String, i32)> {
        list_debts(&l, &f).unwrap().into_iter().map(|d| (d.id, d.paid_installments)).collect()
    };
    let all = DebtFilter { account_id: None, is_active: None, search: None };
    assert_eq!(
        list(all),
        vec![("d2".to_string(), 0), ("d3".to_string(), 1), ("d1".to_string(), 2)]
    );
    let of_account =
        DebtFilter { account_id: Some("a1".to_string()), is_active: None, search: None };
    assert_eq!(list(of_account), vec![("d3".to_string(), 1), ("d1".to_string(), 2)]);
    let active = DebtFilter { account_id: None, is_active: Some(true), search: None };
    assert_eq!(list(active), vec![("d2".to_string(), 0), ("d1".to_string(), 2)]);
    let inactive = DebtFilter { account_id: None, is_active: Some(false), search: None };
    assert_eq!(list(inactive), vec![("d3".to_string(), 1)]);
    let sought = DebtFilter { account_id: None, is_active: None, search: Some("o".to_string()) };
    assert_eq!(
        list(sought),
        vec![("d2".to_string(), 0), ("d3".to_string(), 1), ("d1".to_string(), 2)]
    );
    let sought = DebtFilter { account_id: None, is_active: None, search: Some("PHONE".to_string()) };
    assert_eq!(list(sought), vec![("d3".to_string(), 1)]);
}
