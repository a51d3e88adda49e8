use necronomics::calendar::CalendarDate;
use necronomics::dashboard::{
    account_balances, base_currency_code, base_currency_id, code_of_base_currency,
    convert_to_base, get_balance_summary, get_category_spending, get_current_month_info,
    get_dashboard_data, get_monthly_transactions, get_recent_transactions,
    monthly_income_expense, month_window, spanish_month_name, top_categories, CategorySpending,
    RatedAmount, RatedBalance, RatedSpending, RecentTransaction,
};
use necronomics::errors::LedgerError;
use necronomics::ledger::Ledger;
use necronomics::listing::list_currencies;
use necronomics::models::{Account, AccountBalance, Category, Currency, Transaction};

fn balance(id: &str, amount: i64, code: &str, at_rate: Option<i64>) -> RatedBalance {
    RatedBalance {
        account: AccountBalance {
            account_id: id.to_string(),
            account_name: format!("Account {id}"),
            balance: amount,
            currency_code: code.to_string(),
        },
        at_rate,
    }
}

fn amount(value: i64, kind: &str, code: &str, at_rate: Option<i64>) -> RatedAmount {
    RatedAmount {
        amount: value,
        transaction_type: kind.to_string(),
        currency_code: code.to_string(),
        at_rate,
    }
}

fn spent(category: &str, value: i64, code: &str, at_rate: Option<i64>) -> RatedSpending {
    RatedSpending {
        category_id: category.to_string(),
        category_name: format!("Name of {category}"),
        amount: value,
        currency_code: code.to_string(),
        at_rate,
    }
}

fn entry(category: &str, value: i64) -> CategorySpending {
    CategorySpending {
        category_id: category.to_string(),
        category_name: format!("Name of {category}"),
        amount: value,
    }
}

#[test]
fn month_names() {
    let names: Vec<&str> = (1..=12).map(spanish_month_name).collect();
    assert_eq!(
        names,
        vec![
            "Enero", "Febrero", "Marzo", "Abril", "Mayo", "Junio", "Julio", "Agosto",
            "Septiembre", "Octubre", "Noviembre", "Diciembre",
        ]
    );
    assert_eq!(spanish_month_name(0), "Desconocido");
    assert_eq!(spanish_month_name(13), "Desconocido");
    assert_eq!(spanish_month_name(-1), "Desconocido");
    assert_eq!(spanish_month_name(i32::MAX), "Desconocido");
}

#[test]
fn base_currency_defaults() {
    assert_eq!(base_currency_id(None), "cur_clp");
    assert_eq!(base_currency_id(Some("cur_usd".to_string())), "cur_usd");
    assert_eq!(base_currency_code(None), "CLP");
    assert_eq!(base_currency_code(Some("USD".to_string())), "USD");
}

#[test]
fn conversion_to_base() {
    assert_eq!(convert_to_base(100, "CLP", "CLP", None), Some(100));
    assert_eq!(convert_to_base(100, "CLP", "CLP", Some(7)), Some(100));
    assert_eq!(convert_to_base(100, "USD", "CLP", Some(95_000)), Some(95_000));
    assert_eq!(convert_to_base(100, "USD", "CLP", None), None);
}

#[test]
fn balance_summary_leaves_out_what_has_no_rate() {
    let rows = vec![
        balance("a", 1000, "CLP", None),
        balance("b", 10, "USD", Some(9500)),
        balance("c", 5, "EUR", None),
        balance("d", -300, "CLP", Some(1)),
    ];
    let summary = get_balance_summary(rows.clone(), "CLP".to_string()).unwrap();
    assert_eq!(summary.consolidated_total, Some(10_200));
    assert_eq!(summary.base_currency_code, "CLP");
    let listed: Vec<AccountBalance> = rows.into_iter().map(|r| r.account).collect();
    assert_eq!(summary.accounts, listed);
}

#[test]
fn balance_summary_without_any_convertible_balance() {
    let rows = vec![balance("c", 5, "EUR", None)];
    let summary = get_balance_summary(rows, "CLP".to_string()).unwrap();
    assert_eq!(summary.consolidated_total, None);
    assert_eq!(summary.accounts.len(), 1);
    let empty = get_balance_summary(Vec::new(), "CLP".to_string()).unwrap();
    assert_eq!(empty.consolidated_total, None);
    let zero = get_balance_summary(vec![balance("a", 0, "CLP", None)], "CLP".to_string()).unwrap();
    assert_eq!(zero.consolidated_total, Some(0));
}

#[test]
fn balance_summary_that_does_not_fit() {
    let rows = vec![balance("a", i64::MAX, "CLP", None), balance("b", 1, "CLP", None)];
    assert_eq!(get_balance_summary(rows, "CLP".to_string()), Err(LedgerError::AmountOverflow));
    let rows = vec![
        balance("a", i64::MAX, "CLP", None),
        balance("b", 1, "CLP", None),
        balance("c", -1, "CLP", None),
    ];
    let summary = get_balance_summary(rows, "CLP".to_string()).unwrap();
    assert_eq!(summary.consolidated_total, Some(i64::MAX));
}

#[test]
fn income_and_expense_of_the_month() {
    let rows = vec![
        amount(1000, "income", "CLP", None),
        amount(200, "expense", "CLP", None),
        amount(3, "income", "USD", Some(2850)),
        amount(9, "expense", "EUR", None),
        amount(50, "transfer", "CLP", None),
        amount(70, "expense", "USD", Some(66_500)),
    ];
    let sums = monthly_income_expense(&rows, "CLP", 2, 2024).unwrap();
    assert_eq!(sums.income, 3850);
    assert_eq!(sums.expense, 66_700);
    assert_eq!(sums.month_name, "Febrero");
    assert_eq!(sums.year, 2024);
    let none = monthly_income_expense(&Vec::new(), "CLP", 14, 2024).unwrap();
    assert_eq!((none.income, none.expense), (0, 0));
    assert_eq!(none.month_name, "Desconocido");
    let too_much = vec![amount(i64::MAX, "income", "CLP", None), amount(1, "income", "CLP", None)];
    assert_eq!(monthly_income_expense(&too_much, "CLP", 1, 2024), Err(LedgerError::AmountOverflow));
}

#[test]
fn top_five_categories_and_the_others() {
    let rows = vec![
        spent("food", 100, "CLP", None),
        spent("rent", 900, "CLP", None),
        spent("fun", 50, "CLP", None),
        spent("food", 250, "CLP", None),
        spent("car", 300, "CLP", None),
        spent("pets", 40, "CLP", None),
        spent("gym", 30, "USD", Some(60)),
        spent("trip", 80, "EUR", None),
        spent("books", 20, "CLP", None),
    ];
    let (shown, total) = top_categories(&rows, "CLP").unwrap();
    assert_eq!(
        shown,
        vec![
            entry("rent", 900),
            entry("food", 350),
            entry("car", 300),
            entry("gym", 60),
            entry("fun", 50),
            CategorySpending {
                category_id: "otros".to_string(),
                category_name: "Otros".to_string(),
                amount: 60,
            },
        ]
    );
    assert_eq!(total, 1720);
}

#[test]
fn few_categories_have_no_others() {
    let rows = vec![
        spent("a", 10, "CLP", None),
        spent("b", 10, "CLP", None),
        spent("c", 30, "CLP", None),
        spent("a", 0, "CLP", None),
    ];
    let (shown, total) = top_categories(&rows, "CLP").unwrap();
    assert_eq!(shown, vec![entry("c", 30), entry("a", 10), entry("b", 10)]);
    assert_eq!(total, 50);
    let five: Vec<RatedSpending> =
        ["a", "b", "c", "d", "e"].iter().map(|c| spent(c, 7, "CLP", None)).collect();
    assert_eq!(top_categories(&five, "CLP").unwrap().0.len(), 5);
}

#[test]
fn nothing_spent_shows_nothing() {
    assert_eq!(top_categories(&Vec::new(), "CLP"), Ok((Vec::new(), 0)));
    let unrated = vec![spent("trip", 80, "EUR", None)];
    assert_eq!(top_categories(&unrated, "CLP"), Ok((Vec::new(), 0)));
    let refunds = vec![spent("a", 10, "CLP", None), spent("b", -10, "CLP", None)];
    assert_eq!(top_categories(&refunds, "CLP"), Ok((Vec::new(), 0)));
    let too_much = vec![spent("a", i64::MAX, "CLP", None), spent("a", 1, "CLP", None)];
    assert_eq!(top_categories(&too_much, "CLP"), Err(LedgerError::AmountOverflow));
    let in_all = vec![spent("a", i64::MAX, "CLP", None), spent("b", 1, "CLP", None)];
    assert_eq!(top_categories(&in_all, "CLP"), Err(LedgerError::AmountOverflow));
}

#[test]
fn the_whole_overview() {
    let recent = vec![RecentTransaction {
        id: "t1".to_string(),
        account_name: "Wallet".to_string(),
        category_name: "Food".to_string(),
        amount: 100,
        transaction_type: "expense".to_string(),
        description: "bread".to_string(),
        date: "2024-02-03".to_string(),
        currency_code: "CLP".to_string(),
    }];
    let data = get_dashboard_data(
        "CLP".to_string(),
        vec![balance("a", 1000, "CLP", None), balance("b", 1, "USD", Some(950))],
        vec![amount(500, "income", "CLP", None), amount(100, "expense", "CLP", None)],
        2,
        2024,
        vec![spent("food", 100, "CLP", None)],
        recent.clone(),
    )
    .unwrap();
    assert_eq!(data.balance_summary.consolidated_total, Some(1950));
    assert_eq!(data.balance_summary.accounts.len(), 2);
    assert_eq!(data.monthly_income_expense.income, 500);
    assert_eq!(data.monthly_income_expense.expense, 100);
    assert_eq!(data.monthly_income_expense.month_name, "Febrero");
    assert_eq!(data.monthly_income_expense.year, 2024);
    assert_eq!(data.top_categories, vec![entry("food", 100)]);
    assert_eq!(data.total_spending, 100);
    assert_eq!(data.recent_transactions, recent);
    let failed = get_dashboard_data(
        "CLP".to_string(),
        vec![balance("a", i64::MAX, "CLP", None), balance("b", 1, "CLP", None)],
        Vec::new(),
        2,
        2024,
        Vec::new(),
        Vec::new(),
    );
    assert_eq!(failed, Err(LedgerError::AmountOverflow));
}

fn board_ledger() -> Ledger {
    let mut l = Ledger::new();
    let currency = |id: &str, code: &str| Currency {
        id: id.to_string(),
        code: code.to_string(),
        name: code.to_string(),
        symbol: "$".to_string(),
        decimal_places: 0,
        created_at: String::new(),
    };
    l.currencies = vec![currency("cur_usd", "USD"), currency("cur_clp", "CLP"), currency("cur_eur", "EUR")];
    let account = |id: &str, currency: &str, balance: i64, active: i32| Account {
        id: id.to_string(),
        name: format!("Account {id}"),
        account_type: "checking".to_string(),
        currency_id: currency.to_string(),
        balance,
        credit_limit: None,
        billing_day: None,
        is_active: active,
        created_at: String::new(),
    };
    l.accounts = vec![
        account("a1", "cur_clp", 1000, 1),
        account("a2", "cur_usd", 20, 1),
        account("a3", "cur_clp", 5, 0),
        account("a4", "cur_xyz", 7, 1),
    ];
    let category = |id: &str, parent: Option<&str>| Category {
        id: id.to_string(),
        name: format!("Name of {id}"),
        category_type: "expense".to_string(),
        icon: None,
        parent_id: parent.map(|p| p.to_string()),
        is_active: 1,
        created_at: String::new(),
    };
    l.categories = vec![
        category("home", None),
        category("rent", Some("home")),
        category("food", None),
        category("lost", Some("nowhere")),
    ];
    let row = |id: &str, account: &str, category: &str, amount: i64, kind: &str, date: &str| {
        Transaction {
            id: id.to_string(),
            account_id: account.to_string(),
            category_id: category.to_string(),
            amount,
            transaction_type: kind.to_string(),
            description: format!("About {id}"),
            date: date.to_string(),
            notes: None,
            created_at: format!("2024-01-01 00:00:{}", &id[1..]),
        }
    };
    l.transactions = vec![
        row("t01", "a1", "rent", 400, "expense", "2024-03-01"),
        row("t02", "a2", "food", 30, "expense", "2024-03-31"),
        row("t03", "a1", "food", 50, "expense", "2024-04-01"),
        row("t04", "a1", "home", 900, "income", "2024-03-15"),
        row("t05", "a4", "food", 9, "expense", "2024-03-10"),
        row("t06", "zz", "food", 8, "expense", "2024-03-10"),
        row("t07", "a1", "none", 7, "expense", "2024-03-10"),
        row("t08", "a1", "lost", 6, "expense", "2024-02-29"),
        row("t09", "a3", "lost", 5, "expense", "2024-03-15"),
        row("t10", "a1", "food", 1, "expense", "2024-03-15"),
        row("t11", "a1", "food", 2, "expense", "2024-03-15"),
        row("t12", "a1", "food", 3, "expense", "2024-01-15"),
        row("t13", "a1", "food", 4, "expense", "2023-12-15"),
    ];
    l
}

#[test]
fn balances_of_the_accounts_in_use() {
    let l = board_ledger();
    let rows = account_balances(&l);
    assert_eq!(rows, vec![balance("a1", 1000, "CLP", None), balance("a2", 20, "USD", None)]);
    assert_eq!(code_of_base_currency(&l, "cur_eur"), "EUR");
    assert_eq!(code_of_base_currency(&l, "cur_gbp"), "CLP");
    let codes: Vec<String> = list_currencies(&l).into_iter().map(|c| c.code).collect();
    assert_eq!(codes, vec!["CLP", "EUR", "USD"]);
}

#[test]
fn the_month_of_a_day() {
    let march = get_current_month_info("2024-03-15").unwrap();
    assert_eq!((march.month, march.year), (3, 2024));
    assert_eq!((march.from.as_str(), march.until.as_str()), ("2024-03-01", "2024-04-01"));
    let december = get_current_month_info("2024-12-31").unwrap();
    assert_eq!((december.month, december.year), (12, 2024));
    assert_eq!((december.from.as_str(), december.until.as_str()), ("2024-12-01", "2025-01-01"));
    assert_eq!(get_current_month_info("2024-02-30"), None);
    assert_eq!(get_current_month_info("now"), None);
    assert_eq!(get_current_month_info("+262142-12-05"), None);
    let day = CalendarDate { year: 2023, month: 2, day: 28 };
    let february = month_window(day).unwrap();
    assert_eq!((february.from.as_str(), february.until.as_str()), ("2023-02-01", "2023-03-01"));
    assert_eq!(month_window(CalendarDate { year: 2023, month: 2, day: 29 }), None);
    assert_eq!(month_window(CalendarDate { year: 2023, month: 13, day: 1 }), None);
}

#[test]
fn transactions_and_expenses_of_the_month() {
    let l = board_ledger();
    let monthly = get_monthly_transactions(&l, "2024-03-01", "2024-04-01");
    let seen: Vec<(i64, &str, &str)> = monthly
        .iter()
        .map(|r| (r.amount, r.transaction_type.as_str(), r.currency_code.as_str()))
        .collect();
    assert_eq!(
        seen,
        vec![
            (400, "expense", "CLP"),
            (30, "expense", "USD"),
            (900, "income", "CLP"),
            (7, "expense", "CLP"),
            (5, "expense", "CLP"),
            (1, "expense", "CLP"),
            (2, "expense", "CLP"),
        ]
    );
    assert!(monthly.iter().all(|r| r.at_rate.is_none()));
    let spending = get_category_spending(&l, "2024-03-01", "2024-04-01");
    let seen: Vec<(&str, &str, i64, &str)> = spending
        .iter()
        .map(|r| {
            (r.category_id.as_str(), r.category_name.as_str(), r.amount, r.currency_code.as_str())
        })
        .collect();
    assert_eq!(
        seen,
        vec![
            ("home", "Name of home", 400, "CLP"),
            ("food", "Name of food", 30, "USD"),
            ("lost", "Name of lost", 5, "CLP"),
            ("food", "Name of food", 1, "CLP"),
            ("food", "Name of food", 2, "CLP"),
        ]
    );
}

#[test]
fn the_ten_latest_transactions() {
    let l = board_ledger();
    let recent = get_recent_transactions(&l);
    let ids: Vec<&str> = recent.iter().map(|r| r.id.as_str()).collect();
    assert_eq!(ids, vec!["t03", "t02", "t11", "t10", "t09", "t04", "t01", "t08", "t12", "t13"]);
    assert_eq!(recent[0].account_name, "Account a1");
    assert_eq!(recent[0].category_name, "Name of food");
    assert_eq!(recent[0].currency_code, "CLP");
    assert_eq!(recent[0].amount, 50);
    assert_eq!(recent[0].description, "About t03");
    assert_eq!(recent[1].currency_code, "USD");
    let mut few = board_ledger();
    few.transactions.truncate(2);
    assert_eq!(get_recent_transactions(&few).len(), 2);
    let mut many = board_ledger();
    for i in 20..40 {
        let mut t = many.transactions[0].clone();
        t.id = format!("t{i}");
        t.date = format!("2025-01-{i}");
        many.transactions.push(t);
    }
    let recent = get_recent_transactions(&many);
    assert_eq!(recent.len(), 10);
    assert_eq!(recent[0].id, "t39");
    assert_eq!(recent[9].id, "t30");
}
