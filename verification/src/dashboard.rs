//! What the overview screen shows: the month's name, and sums over what
//! the store has read.

use crate::calendar::{
    date_from_ymd, format_iso_date, is_valid_date, iso_date_text, parse_iso_date, parsed_iso_date,
    CalendarDate, MAX_YEAR,
};
use crate::errors::LedgerError;
use crate::ledger::{find, position, Keyed, Ledger, LedgerView, Row};
use crate::models::{
    lemma_views_after_push, text_of, views_of, AccountBalance, AccountBalanceView, AccountView,
    BalanceSummary, TransactionView,
};
use crate::ordering::{
    in_order, rows_of, sort, unkeyed, Copied, Ordered, OrderedRow, SortableView, SortKey,
    SortKeyView,
};
use crate::text::{is_text_before, text_before};
use vstd::prelude::*;

verus! {

/// Spanish name of a month by its number, and a word for "unknown" for
/// a number that names no month.
pub open spec fn month_name(month: int) -> Seq<char> {
    if month == 1 {
        "Enero"@
    } else if month == 2 {
        "Febrero"@
    } else if month == 3 {
        "Marzo"@
    } else if month == 4 {
        "Abril"@
    } else if month == 5 {
        "Mayo"@
    } else if month == 6 {
        "Junio"@
    } else if month == 7 {
        "Julio"@
    } else if month == 8 {
        "Agosto"@
    } else if month == 9 {
        "Septiembre"@
    } else if month == 10 {
        "Octubre"@
    } else if month == 11 {
        "Noviembre"@
    } else if month == 12 {
        "Diciembre"@
    } else {
        "Desconocido"@
    }
}

/// Spanish name of the month with this number (1 to 12); "Desconocido"
/// for any other number.
pub fn spanish_month_name(month: i32) -> (r: &'static str)
    ensures
        r@ == month_name(month as int),
{
    match month {
        1 => "Enero",
        2 => "Febrero",
        3 => "Marzo",
        4 => "Abril",
        5 => "Mayo",
        6 => "Junio",
        7 => "Julio",
        8 => "Agosto",
        9 => "Septiembre",
        10 => "Octubre",
        11 => "Noviembre",
        12 => "Diciembre",
        _ => "Desconocido",
    }
}

/// Id of the currency that sums are expressed in unless another is
/// asked for.
pub open spec fn default_base_currency_id() -> Seq<char> {
    "cur_clp"@
}

/// Code of the currency that sums are expressed in where the store
/// does not know the base currency.
pub open spec fn default_base_currency_code() -> Seq<char> {
    "CLP"@
}

/// Id of the base currency: the one asked for, else the default.
pub fn base_currency_id(asked: Option<String>) -> (r: String)
    ensures
        r@ == text_of(asked).unwrap_or(default_base_currency_id()),
{
    match asked {
        Some(id) => id,
        None => "cur_clp".to_owned(),
    }
}

/// Code of the base currency: the one the store has for it, else the
/// default.
pub fn base_currency_code(found: Option<String>) -> (r: String)
    ensures
        r@ == text_of(found).unwrap_or(default_base_currency_code()),
{
    match found {
        Some(code) => code,
        None => "CLP".to_owned(),
    }
}

/// Code of the base currency: that of the currency with the id, else
/// the default.
pub fn code_of_base_currency(ledger: &Ledger, base_id: &str) -> (r: String)
    ensures
        r@ == match position(ledger@.currencies, base_id@) {
            Some(c) => ledger@.currencies[c].code,
            None => default_base_currency_code(),
        },
{
    match find(&ledger.currencies, base_id) {
        Some(c) => ledger.currencies[c].code.clone(),
        None => "CLP".to_owned(),
    }
}

/// An amount in the base currency: the amount itself where it is in
/// the base currency already, else what it comes to at the latest
/// rate, and `None` where there is no rate.
pub open spec fn in_base(
    amount: int,
    currency_code: Seq<char>,
    base_code: Seq<char>,
    at_rate: Option<int>,
) -> Option<int> {
    if currency_code == base_code {
        Some(amount)
    } else {
        at_rate
    }
}

/// An amount in the base currency. `at_rate` is what the amount comes
/// to at the latest rate from its currency to the base currency, and
/// `None` where there is no such rate: the amount is then left out of
/// every sum, neither counted as zero nor reported as a failure.
pub fn convert_to_base(
    amount: i64,
    currency_code: &str,
    base_code: &str,
    at_rate: Option<i64>,
) -> (r: Option<i64>)
    ensures
        crate::models::int_of_i64(r) == in_base(
            amount as int,
            currency_code@,
            base_code@,
            crate::models::int_of_i64(at_rate),
        ),
{
    if currency_code.to_owned() == base_code.to_owned() {
        Some(amount)
    } else {
        at_rate
    }
}

/// The balance of an account, with what it comes to at the latest rate
/// from its currency to the base currency (`None`: there is no rate).
#[derive(Clone, Debug, PartialEq, Eq)]
pub struct RatedBalance {
    /// The balance.
    pub account: AccountBalance,
    /// The balance at the latest rate.
    pub at_rate: Option<i64>,
}

/// A rated balance as mathematical values.
pub struct RatedBalanceView {
    pub account: AccountBalanceView,
    pub at_rate: Option<int>,
}

impl View for RatedBalance {
    type V = RatedBalanceView;

    open spec fn view(&self) -> RatedBalanceView {
        RatedBalanceView {
            account: self.account@,
            at_rate: crate::models::int_of_i64(self.at_rate),
        }
    }
}

/// The balance in the base currency.
pub open spec fn balance_in_base(row: RatedBalanceView, base_code: Seq<char>) -> Option<int> {
    in_base(row.account.balance, row.account.currency_code, base_code, row.at_rate)
}

/// Sum of the balances that can be expressed in the base currency.
pub open spec fn consolidated_sum(rows: Seq<RatedBalanceView>, base_code: Seq<char>) -> int
    decreases rows.len(),
{
    if rows.len() == 0 {
        0
    } else {
        consolidated_sum(rows.drop_last(), base_code) + match balance_in_base(
            rows.last(),
            base_code,
        ) {
            Some(amount) => amount,
            None => 0,
        }
    }
}

/// Whether one of the balances can be expressed in the base currency.
pub open spec fn any_in_base(rows: Seq<RatedBalanceView>, base_code: Seq<char>) -> bool
    decreases rows.len(),
{
    if rows.len() == 0 {
        false
    } else {
        any_in_base(rows.drop_last(), base_code) || balance_in_base(rows.last(), base_code)
            is Some
    }
}

/// The balances without their rates.
pub open spec fn balances_of(rows: Seq<RatedBalanceView>) -> Seq<AccountBalanceView> {
    rows.map_values(|row: RatedBalanceView| row.account)
}

/// A summary of balances as mathematical values.
pub struct BalanceSummaryView {
    pub accounts: Seq<AccountBalanceView>,
    pub consolidated_total: Option<int>,
    pub base_currency_code: Seq<char>,
}

/// The summary as mathematical values.
pub open spec fn summary_view(summary: BalanceSummary) -> BalanceSummaryView {
    BalanceSummaryView {
        accounts: views_of(summary.accounts@),
        consolidated_total: crate::models::int_of_i64(summary.consolidated_total),
        base_currency_code: summary.base_currency_code@,
    }
}

/// The balances of the accounts and their sum in the base currency.
/// An account whose balance cannot be expressed in the base currency is
/// listed, and left out of the sum; there is no sum where none can be
/// expressed. `AmountOverflow` where the sum does not fit an amount.
pub open spec fn balance_summary(rows: Seq<RatedBalanceView>, base_code: Seq<char>) -> Result<
    BalanceSummaryView,
    LedgerError,
> {
    let sum = consolidated_sum(rows, base_code);
    if !(i64::MIN <= sum <= i64::MAX) {
        Err(LedgerError::AmountOverflow)
    } else {
        Ok(
            BalanceSummaryView {
                accounts: balances_of(rows),
                consolidated_total: if any_in_base(rows, base_code) {
                    Some(sum)
                } else {
                    None
                },
                base_currency_code: base_code,
            },
        )
    }
}

/// Sums the balances of the active accounts in the base currency: see
/// `balance_summary`.
pub fn get_balance_summary(rows: Vec<RatedBalance>, base_code: String) -> (r: Result<
    BalanceSummary,
    LedgerError,
>)
    ensures
        match r {
            Ok(summary) => balance_summary(views_of(rows@), base_code@) == Ok::<
                BalanceSummaryView,
                LedgerError,
            >(summary_view(summary)),
            Err(e) => balance_summary(views_of(rows@), base_code@) == Err::<
                BalanceSummaryView,
                LedgerError,
            >(e),
        },
{
    let mut accounts: Vec<AccountBalance> = Vec::new();
    let mut sum: i128 = 0;
    let mut any = false;
    let mut i: usize = 0;
    while i < rows.len()
        invariant
            i <= rows.len(),
            accounts.len() == i,
            forall|k: int| 0 <= k < i ==> (#[trigger] accounts[k])@ == views_of(rows@)[k].account,
            sum == consolidated_sum(views_of(rows@).take(i as int), base_code@),
            any == any_in_base(views_of(rows@).take(i as int), base_code@),
            -(i as int) * 0x8000_0000_0000_0000 <= sum <= (i as int) * 0x8000_0000_0000_0000,
        decreases rows.len() - i,
    {
        proof {
            assert(views_of(rows@).take(i + 1).drop_last() =~= views_of(rows@).take(i as int));
            assert((i as int + 1) * 0x8000_0000_0000_0000 == (i as int) * 0x8000_0000_0000_0000
                + 0x8000_0000_0000_0000) by (nonlinear_arith);
            assert((i as int + 1) * 0x8000_0000_0000_0000 <= 0x1_0000_0000_0000_0000
                * 0x8000_0000_0000_0000) by (nonlinear_arith)
                requires
                    i as int + 1 <= 0x1_0000_0000_0000_0000,
            ;
        }
        let row = &rows[i];
        match convert_to_base(
            row.account.balance,
            row.account.currency_code.as_str(),
            base_code.as_str(),
            row.at_rate,
        ) {
            Some(amount) => {
                sum = sum + amount as i128;
                any = true;
            },
            None => {},
        }
        accounts.push(row.account.copy_of());
        i = i + 1;
    }
    proof {
        assert(views_of(rows@).take(rows.len() as int) =~= views_of(rows@));
        assert(views_of(accounts@) =~= balances_of(views_of(rows@)));
    }
    if sum < i64::MIN as i128 || sum > i64::MAX as i128 {
        return Err(LedgerError::AmountOverflow);
    }
    Ok(
        BalanceSummary {
            accounts,
            consolidated_total: if any {
                Some(sum as i64)
            } else {
                None
            },
            base_currency_code: base_code,
        },
    )
}

/// The amount of a transaction of the month, with what it comes to at
/// the latest rate from the currency of its account to the base
/// currency (`None`: there is no rate).
#[derive(Clone, Debug, PartialEq, Eq)]
pub struct RatedAmount {
    /// The amount.
    pub amount: i64,
    /// `income` or `expense`.
    pub transaction_type: String,
    /// Code of the currency of the account.
    pub currency_code: String,
    /// The amount at the latest rate.
    pub at_rate: Option<i64>,
}

/// A rated amount as mathematical values.
pub struct RatedAmountView {
    pub amount: int,
    pub transaction_type: Seq<char>,
    pub currency_code: Seq<char>,
    pub at_rate: Option<int>,
}

impl View for RatedAmount {
    type V = RatedAmountView;

    open spec fn view(&self) -> RatedAmountView {
        RatedAmountView {
            amount: self.amount as int,
            transaction_type: self.transaction_type@,
            currency_code: self.currency_code@,
            at_rate: crate::models::int_of_i64(self.at_rate),
        }
    }
}

/// What the row adds to the sum of the transactions of a type: its
/// amount in the base currency if it is of the type and can be
/// expressed in the base currency, nothing otherwise.
pub open spec fn counted_amount(
    row: RatedAmountView,
    transaction_type: Seq<char>,
    base_code: Seq<char>,
) -> int {
    match in_base(row.amount, row.currency_code, base_code, row.at_rate) {
        Some(amount) => if row.transaction_type == transaction_type {
            amount
        } else {
            0
        },
        None => 0,
    }
}

/// Sum, in the base currency, of the transactions of a type.
pub open spec fn type_total(
    rows: Seq<RatedAmountView>,
    transaction_type: Seq<char>,
    base_code: Seq<char>,
) -> int
    decreases rows.len(),
{
    if rows.len() == 0 {
        0
    } else {
        type_total(rows.drop_last(), transaction_type, base_code) + counted_amount(
            rows.last(),
            transaction_type,
            base_code,
        )
    }
}

/// Income and expense of a month in the base currency.
#[derive(Clone, Debug, PartialEq, Eq)]
pub struct MonthlyIncomeExpense {
    /// Sum of the income.
    pub income: i64,
    /// Sum of the expense.
    pub expense: i64,
    /// Spanish name of the month.
    pub month_name: String,
    /// The year.
    pub year: i32,
}

/// Whether income and expense of the month, in the base currency, each
/// fit an amount.
pub open spec fn monthly_sums_fit(rows: Seq<RatedAmountView>, base_code: Seq<char>) -> bool {
    &&& i64::MIN <= type_total(rows, "income"@, base_code) <= i64::MAX
    &&& i64::MIN <= type_total(rows, "expense"@, base_code) <= i64::MAX
}

/// Income and expense of the month in the base currency, over the
/// transactions of the month. A transaction that cannot be expressed in
/// the base currency, or that is neither income nor expense, is left
/// out. Fails with `AmountOverflow` exactly where a sum does not fit an
/// amount (see `monthly_sums_fit`).
pub fn monthly_income_expense(
    rows: &Vec<RatedAmount>,
    base_code: &str,
    month: i32,
    year: i32,
) -> (r: Result<MonthlyIncomeExpense, LedgerError>)
    ensures
        match r {
            Ok(sums) => {
                &&& sums.income == type_total(views_of(rows@), "income"@, base_code@)
                &&& sums.expense == type_total(views_of(rows@), "expense"@, base_code@)
                &&& sums.month_name@ == month_name(month as int)
                &&& sums.year == year
            },
            Err(e) => e == LedgerError::AmountOverflow,
        },
        r is Ok <==> monthly_sums_fit(views_of(rows@), base_code@),
{
    let income_text = "income".to_owned();
    let expense_text = "expense".to_owned();
    let mut income: i128 = 0;
    let mut expense: i128 = 0;
    let mut i: usize = 0;
    while i < rows.len()
        invariant
            i <= rows.len(),
            income_text@ == "income"@,
            expense_text@ == "expense"@,
            income == type_total(views_of(rows@).take(i as int), "income"@, base_code@),
            expense == type_total(views_of(rows@).take(i as int), "expense"@, base_code@),
            -(i as int) * 0x8000_0000_0000_0000 <= income <= (i as int) * 0x8000_0000_0000_0000,
            -(i as int) * 0x8000_0000_0000_0000 <= expense <= (i as int) * 0x8000_0000_0000_0000,
        decreases rows.len() - i,
    {
        proof {
            assert(views_of(rows@).take(i + 1).drop_last() =~= views_of(rows@).take(i as int));
            assert((i as int + 1) * 0x8000_0000_0000_0000 == (i as int) * 0x8000_0000_0000_0000
                + 0x8000_0000_0000_0000) by (nonlinear_arith);
            assert((i as int + 1) * 0x8000_0000_0000_0000 <= 0x1_0000_0000_0000_0000
                * 0x8000_0000_0000_0000) by (nonlinear_arith)
                requires
                    i as int + 1 <= 0x1_0000_0000_0000_0000,
            ;
        }
        let row = &rows[i];
        match convert_to_base(row.amount, row.currency_code.as_str(), base_code, row.at_rate) {
            Some(amount) => {
                if row.transaction_type == income_text {
                    income = income + amount as i128;
                }
                if row.transaction_type == expense_text {
                    expense = expense + amount as i128;
                }
            },
            None => {},
        }
        i = i + 1;
    }
    proof {
        assert(views_of(rows@).take(rows.len() as int) =~= views_of(rows@));
    }
    if income < i64::MIN as i128 || income > i64::MAX as i128 || expense < i64::MIN as i128
        || expense > i64::MAX as i128 {
        return Err(LedgerError::AmountOverflow);
    }
    Ok(
        MonthlyIncomeExpense {
            income: income as i64,
            expense: expense as i64,
            month_name: spanish_month_name(month).to_owned(),
            year,
        },
    )
}

/// An expense of the month under its category (its parent, for a
/// subcategory), with what it comes to at the latest rate from the
/// currency of its account to the base currency (`None`: there is no
/// rate).
#[derive(Clone, Debug, PartialEq, Eq)]
pub struct RatedSpending {
    /// The category.
    pub category_id: String,
    /// Its name.
    pub category_name: String,
    /// The amount.
    pub amount: i64,
    /// Code of the currency of the account.
    pub currency_code: String,
    /// The amount at the latest rate.
    pub at_rate: Option<i64>,
}

/// A rated expense as mathematical values.
pub struct RatedSpendingView {
    pub category_id: Seq<char>,
    pub category_name: Seq<char>,
    pub amount: int,
    pub currency_code: Seq<char>,
    pub at_rate: Option<int>,
}

impl View for RatedSpending {
    type V = RatedSpendingView;

    open spec fn view(&self) -> RatedSpendingView {
        RatedSpendingView {
            category_id: self.category_id@,
            category_name: self.category_name@,
            amount: self.amount as int,
            currency_code: self.currency_code@,
            at_rate: crate::models::int_of_i64(self.at_rate),
        }
    }
}

/// What was spent under a category, in the base currency.
#[derive(Clone, Debug, PartialEq, Eq)]
pub struct CategorySpending {
    /// The category; `otros` for all the categories past the first
    /// five.
    pub category_id: String,
    /// Its name.
    pub category_name: String,
    /// What was spent.
    pub amount: i64,
}

/// Spending under a category as mathematical values.
pub struct CategorySpendingView {
    pub category_id: Seq<char>,
    pub category_name: Seq<char>,
    pub amount: int,
}

impl View for CategorySpending {
    type V = CategorySpendingView;

    open spec fn view(&self) -> CategorySpendingView {
        CategorySpendingView {
            category_id: self.category_id@,
            category_name: self.category_name@,
            amount: self.amount as int,
        }
    }
}

impl Keyed for CategorySpendingView {
    open spec fn key(self) -> Seq<char> {
        self.category_id
    }
}

impl Row for CategorySpending {
    fn id_text(&self) -> (r: &String) {
        &self.category_id
    }
}

impl Ordered for CategorySpendingView {
    /// More spending comes first.
    open spec fn precedes(self, other: CategorySpendingView) -> bool {
        self.amount > other.amount
    }

    proof fn lemma_order(
        first: CategorySpendingView,
        second: CategorySpendingView,
        third: CategorySpendingView,
    ) {
    }
}

impl OrderedRow for CategorySpending {
    fn comes_before(&self, other: &CategorySpending) -> (r: bool) {
        self.amount > other.amount
    }

    fn duplicate(&self) -> (r: CategorySpending) {
        CategorySpending {
            category_id: self.category_id.clone(),
            category_name: self.category_name.clone(),
            amount: self.amount,
        }
    }
}

/// The categories with one more expense: it is added to what was spent
/// under its category; a category that is not yet among them comes
/// last, under the name that the expense gives it. An expense that
/// cannot be expressed in the base currency changes nothing.
/// `AmountOverflow` where what was spent under a category does not fit
/// an amount.
pub open spec fn with_spending(
    categories: Seq<CategorySpendingView>,
    row: RatedSpendingView,
    base_code: Seq<char>,
) -> Result<Seq<CategorySpendingView>, LedgerError> {
    match in_base(row.amount, row.currency_code, base_code, row.at_rate) {
        None => Ok(categories),
        Some(amount) => match position(categories, row.category_id) {
            Some(at) => if i64::MIN <= categories[at].amount + amount <= i64::MAX {
                Ok(
                    categories.update(
                        at,
                        CategorySpendingView {
                            amount: categories[at].amount + amount,
                            ..categories[at]
                        },
                    ),
                )
            } else {
                Err(LedgerError::AmountOverflow)
            },
            None => Ok(
                categories.push(
                    CategorySpendingView {
                        category_id: row.category_id,
                        category_name: row.category_name,
                        amount,
                    },
                ),
            ),
        },
    }
}

/// What was spent under each category, in the order in which the
/// categories first appear among the expenses.
pub open spec fn spending_by_category(rows: Seq<RatedSpendingView>, base_code: Seq<char>) -> Result<
    Seq<CategorySpendingView>,
    LedgerError,
>
    decreases rows.len(),
{
    if rows.len() == 0 {
        Ok(Seq::empty())
    } else {
        match spending_by_category(rows.drop_last(), base_code) {
            Err(e) => Err(e),
            Ok(categories) => with_spending(categories, rows.last(), base_code),
        }
    }
}

/// Sum of what was spent under the categories.
pub open spec fn spending_total(categories: Seq<CategorySpendingView>) -> int
    decreases categories.len(),
{
    if categories.len() == 0 {
        0
    } else {
        spending_total(categories.drop_last()) + categories.last().amount
    }
}

/// The entry that stands for all the categories past the first five.
pub open spec fn others_entry(amount: int) -> CategorySpendingView {
    CategorySpendingView { category_id: "otros"@, category_name: "Otros"@, amount }
}

/// How many categories are shown by themselves.
pub open spec fn shown_count(categories: Seq<CategorySpendingView>) -> int {
    if categories.len() < 5 {
        categories.len() as int
    } else {
        5
    }
}

/// The categories to show, out of what was spent under each: none
/// where nothing was spent in all; else the five under which the most
/// was spent, the most first, and one entry for the sum of all the
/// others where that sum is above zero.
pub open spec fn top_of(categories: Seq<CategorySpendingView>) -> Seq<CategorySpendingView> {
    let ranked = in_order(categories);
    let shown = ranked.take(shown_count(ranked));
    let others = spending_total(ranked.skip(shown_count(ranked)));
    if spending_total(ranked) <= 0 {
        Seq::empty()
    } else if others > 0 {
        shown.push(others_entry(others))
    } else {
        shown
    }
}

/// What was spent under the first rows of a list and what was spent
/// under the rest are together what was spent under all of them.
pub proof fn lemma_spending_splits(categories: Seq<CategorySpendingView>, count: int)
    requires
        0 <= count <= categories.len(),
    ensures
        spending_total(categories.take(count)) + spending_total(categories.skip(count))
            == spending_total(categories),
    decreases categories.len(),
{
    if count == categories.len() {
        assert(categories.take(count) =~= categories);
        assert(categories.skip(count).len() == 0);
    } else {
        lemma_spending_splits(categories.drop_last(), count);
        assert(categories.take(count) =~= categories.drop_last().take(count));
        assert(categories.skip(count).drop_last() =~= categories.drop_last().skip(count));
        assert(categories.skip(count).last() == categories.last());
    }
}

/// Of the categories to show: there are at most six; there is none
/// where nothing was spent in all; the categories shown by themselves
/// are those under which the most was spent, the most first; and where
/// the others come to nothing or more, what is shown adds up to what
/// was spent in all.
pub proof fn lemma_top_categories(categories: Seq<CategorySpendingView>)
    ensures
        top_of(categories).len() <= 6,
        spending_total(in_order(categories)) <= 0 ==> top_of(categories).len() == 0,
        spending_total(in_order(categories)) > 0 ==> ({
            let ranked = in_order(categories);
            let shown = shown_count(ranked);
            &&& shown == if categories.len() < 5 {
                categories.len() as int
            } else {
                5
            }
            &&& top_of(categories).len() >= shown
            &&& forall|i: int| 0 <= i < shown ==> #[trigger] top_of(categories)[i] == ranked[i]
            &&& forall|i: int, j: int|
                0 <= i < j < ranked.len() ==> (#[trigger] ranked[i]).amount >= (
                #[trigger] ranked[j]).amount
            &&& spending_total(ranked.skip(shown)) >= 0 ==> spending_total(top_of(categories))
                == spending_total(ranked)
        }),
{
    let ranked = in_order(categories);
    let shown = shown_count(ranked);
    crate::ordering::lemma_in_order(categories);
    lemma_spending_splits(ranked, shown);
    assert forall|i: int, j: int| 0 <= i < j < ranked.len() implies (#[trigger] ranked[i]).amount
        >= (#[trigger] ranked[j]).amount by {
        assert(!ranked[j].precedes(ranked[i]));
    }
    let others = spending_total(ranked.skip(shown));
    if spending_total(ranked) > 0 && others > 0 {
        let top = ranked.take(shown).push(others_entry(others));
        assert(top.drop_last() =~= ranked.take(shown));
    }
}

/// What was spent under each category, gathered from the expenses of
/// the month.
fn gather_spending(rows: &Vec<RatedSpending>, base_code: &str) -> (r: Result<
    Vec<CategorySpending>,
    LedgerError,
>)
    ensures
        match r {
            Ok(categories) => spending_by_category(views_of(rows@), base_code@) == Ok::<
                Seq<CategorySpendingView>,
                LedgerError,
            >(views_of(categories@)),
            Err(e) => e == LedgerError::AmountOverflow && spending_by_category(
                views_of(rows@),
                base_code@,
            ) == Err::<Seq<CategorySpendingView>, LedgerError>(e),
        },
{
    let mut categories: Vec<CategorySpending> = Vec::new();
    let mut failed = false;
    let mut i: usize = 0;
    proof {
        assert(views_of(categories@) =~= Seq::<CategorySpendingView>::empty());
    }
    while i < rows.len()
        invariant
            i <= rows.len(),
            spending_by_category(views_of(rows@).take(i as int), base_code@) == if failed {
                Err::<Seq<CategorySpendingView>, LedgerError>(LedgerError::AmountOverflow)
            } else {
                Ok::<Seq<CategorySpendingView>, LedgerError>(views_of(categories@))
            },
        decreases rows.len() - i,
    {
        proof {
            assert(views_of(rows@).take(i + 1).drop_last() =~= views_of(rows@).take(i as int));
        }
        let row = &rows[i];
        if !failed {
            match convert_to_base(row.amount, row.currency_code.as_str(), base_code, row.at_rate) {
                None => {},
                Some(amount) => match find(&categories, row.category_id.as_str()) {
                    Some(at) => {
                        let sum: i128 = categories[at].amount as i128 + amount as i128;
                        if sum < i64::MIN as i128 || sum > i64::MAX as i128 {
                            failed = true;
                        } else {
                            let ghost before = categories@;
                            let mut category = categories.remove(at);
                            category.amount = sum as i64;
                            proof {
                                assert(views_of(categories@.insert(at as int, category))
                                    =~= views_of(before).update(at as int, category@));
                            }
                            categories.insert(at, category);
                        }
                    },
                    None => {
                        let category = CategorySpending {
                            category_id: row.category_id.clone(),
                            category_name: row.category_name.clone(),
                            amount,
                        };
                        proof {
                            lemma_views_after_push(categories@, category);
                        }
                        categories.push(category);
                    },
                },
            }
        }
        i = i + 1;
    }
    proof {
        assert(views_of(rows@).take(rows.len() as int) =~= views_of(rows@));
    }
    if failed {
        Err(LedgerError::AmountOverflow)
    } else {
        Ok(categories)
    }
}

/// Sum of what was spent under the categories from `from` on, in a
/// range wide enough for any number of amounts.
fn sum_spending(categories: &Vec<CategorySpending>, from: usize) -> (r: i128)
    requires
        from <= categories.len(),
    ensures
        r == spending_total(views_of(categories@).skip(from as int)),
{
    let mut total: i128 = 0;
    let mut i: usize = from;
    let ghost rest = views_of(categories@).skip(from as int);
    while i < categories.len()
        invariant
            from <= i <= categories.len(),
            rest == views_of(categories@).skip(from as int),
            total == spending_total(rest.take(i - from)),
            -((i - from) as int) * 0x8000_0000_0000_0000 <= total <= ((i - from) as int)
                * 0x8000_0000_0000_0000,
        decreases categories.len() - i,
    {
        proof {
            assert(rest.take(i - from + 1).drop_last() =~= rest.take(i - from));
            assert(rest.take(i - from + 1).last() == views_of(categories@)[i as int]);
            assert(((i - from) as int + 1) * 0x8000_0000_0000_0000 == ((i - from) as int)
                * 0x8000_0000_0000_0000 + 0x8000_0000_0000_0000) by (nonlinear_arith);
            assert(((i - from) as int + 1) * 0x8000_0000_0000_0000 <= 0x1_0000_0000_0000_0000
                * 0x8000_0000_0000_0000) by (nonlinear_arith)
                requires
                    (i - from) as int + 1 <= 0x1_0000_0000_0000_0000,
            ;
        }
        total = total + categories[i].amount as i128;
        i = i + 1;
    }
    proof {
        assert(rest.take(categories.len() - from) =~= rest);
    }
    total
}

/// Whether what was spent under each category, what was spent in all,
/// and what was spent under the categories past the first five each fit
/// an amount.
pub open spec fn spending_fits(rows: Seq<RatedSpendingView>, base_code: Seq<char>) -> bool {
    &&& spending_by_category(rows, base_code) matches Ok(categories)
    &&& i64::MIN <= spending_total(in_order(categories)) <= i64::MAX
    &&& i64::MIN <= spending_total(
        in_order(categories).skip(shown_count(in_order(categories))),
    ) <= i64::MAX
}

/// The categories under which the most was spent in the month, and
/// what was spent in all.
///
/// The expenses are gathered by category, each in the base currency;
/// one that cannot be expressed in it is left out. `Ok` holds the
/// categories to show (see `top_of`) and the sum over all categories.
/// Fails with `AmountOverflow` exactly where what was spent under a
/// category, in all, or under the categories past the first five, does
/// not fit an amount (see `spending_fits`).
pub fn top_categories(rows: &Vec<RatedSpending>, base_code: &str) -> (r: Result<
    (Vec<CategorySpending>, i64),
    LedgerError,
>)
    ensures
        match r {
            Ok((shown, total)) => {
                &&& spending_by_category(views_of(rows@), base_code@) matches Ok(categories)
                &&& views_of(shown@) == top_of(categories)
                &&& total == spending_total(in_order(categories))
            },
            Err(e) => e == LedgerError::AmountOverflow,
        },
        r is Ok <==> spending_fits(views_of(rows@), base_code@),
{
    let categories = match gather_spending(rows, base_code) {
        Ok(categories) => categories,
        Err(e) => {
            return Err(e);
        },
    };
    let ranked = sort(&categories);
    let count: usize = if ranked.len() < 5 {
        ranked.len()
    } else {
        5
    };
    proof {
        assert(views_of(ranked@).skip(0) =~= views_of(ranked@));
    }
    let total: i128 = sum_spending(&ranked, 0);
    let others: i128 = sum_spending(&ranked, count);
    if total < i64::MIN as i128 || total > i64::MAX as i128 || others < i64::MIN as i128 || others
        > i64::MAX as i128 {
        return Err(LedgerError::AmountOverflow);
    }
    let mut shown: Vec<CategorySpending> = Vec::new();
    if total > 0 {
        let mut i: usize = 0;
        proof {
            assert(views_of(shown@) =~= views_of(ranked@).take(0));
        }
        while i < count
            invariant
                i <= count <= ranked.len(),
                views_of(shown@) == views_of(ranked@).take(i as int),
            decreases count - i,
        {
            let copy = ranked[i].duplicate();
            proof {
                lemma_views_after_push(shown@, copy);
                assert(views_of(ranked@).take(i as int).push(copy@) =~= views_of(ranked@).take(
                    i + 1,
                ));
            }
            shown.push(copy);
            i = i + 1;
        }
        if others > 0 {
            let entry = CategorySpending {
                category_id: "otros".to_owned(),
                category_name: "Otros".to_owned(),
                amount: others as i64,
            };
            proof {
                lemma_views_after_push(shown@, entry);
            }
            shown.push(entry);
        }
    } else {
        proof {
            assert(views_of(shown@) =~= Seq::<CategorySpendingView>::empty());
        }
    }
    Ok((shown, total as i64))
}

/// A transaction as the overview lists it.
#[derive(Clone, Debug, PartialEq, Eq)]
pub struct RecentTransaction {
    /// Identity of the transaction.
    pub id: String,
    /// Name of its account.
    pub account_name: String,
    /// Name of its category.
    pub category_name: String,
    /// Its amount.
    pub amount: i64,
    /// `income` or `expense`.
    pub transaction_type: String,
    /// What it was for.
    pub description: String,
    /// Day it took place.
    pub date: String,
    /// Code of the currency of its account.
    pub currency_code: String,
}

/// Everything that the overview shows.
#[derive(Clone, Debug, PartialEq, Eq)]
pub struct DashboardData {
    /// Balances of the active accounts and their sum.
    pub balance_summary: BalanceSummary,
    /// Income and expense of the month.
    pub monthly_income_expense: MonthlyIncomeExpense,
    /// The categories under which the most was spent in the month.
    pub top_categories: Vec<CategorySpending>,
    /// What was spent in the month in all.
    pub total_spending: i64,
    /// The latest transactions.
    pub recent_transactions: Vec<RecentTransaction>,
}

/// Whether every sum that the overview shows fits an amount: the sum of
/// the balances, income and expense of the month, and what was spent.
pub open spec fn overview_fits(
    balances: Seq<RatedBalanceView>,
    monthly: Seq<RatedAmountView>,
    spending: Seq<RatedSpendingView>,
    base_code: Seq<char>,
) -> bool {
    &&& balance_summary(balances, base_code) is Ok
    &&& monthly_sums_fit(monthly, base_code)
    &&& spending_fits(spending, base_code)
}

/// Everything that the overview shows, put together from what the
/// store has read: the balances of the active accounts, the
/// transactions and the expenses of the month, each with what it comes
/// to at the latest rate, the number of the month and the year, and the
/// latest transactions.
///
/// The parts are those of `get_balance_summary`,
/// `monthly_income_expense` and `top_categories`. The result is `Ok`
/// exactly where every sum that it shows fits an amount (see
/// `overview_fits`), and `Err(AmountOverflow)` otherwise.
pub fn get_dashboard_data(
    base_code: String,
    balances: Vec<RatedBalance>,
    monthly: Vec<RatedAmount>,
    month: i32,
    year: i32,
    spending: Vec<RatedSpending>,
    recent: Vec<RecentTransaction>,
) -> (r: Result<DashboardData, LedgerError>)
    ensures
        match r {
            Ok(data) => {
                &&& balance_summary(views_of(balances@), base_code@) == Ok::<
                    BalanceSummaryView,
                    LedgerError,
                >(summary_view(data.balance_summary))
                &&& data.monthly_income_expense.income == type_total(
                    views_of(monthly@),
                    "income"@,
                    base_code@,
                )
                &&& data.monthly_income_expense.expense == type_total(
                    views_of(monthly@),
                    "expense"@,
                    base_code@,
                )
                &&& data.monthly_income_expense.month_name@ == month_name(month as int)
                &&& data.monthly_income_expense.year == year
                &&& spending_by_category(views_of(spending@), base_code@) matches Ok(categories)
                &&& views_of(data.top_categories@) == top_of(categories)
                &&& data.total_spending == spending_total(in_order(categories))
                &&& data.recent_transactions == recent
            },
            Err(e) => e == LedgerError::AmountOverflow,
        },
        r is Ok <==> overview_fits(
            views_of(balances@),
            views_of(monthly@),
            views_of(spending@),
            base_code@,
        ),
{
    let sums = match monthly_income_expense(&monthly, base_code.as_str(), month, year) {
        Ok(sums) => sums,
        Err(e) => {
            return Err(e);
        },
    };
    let (shown, total) = match top_categories(&spending, base_code.as_str()) {
        Ok(found) => found,
        Err(e) => {
            return Err(e);
        },
    };
    let summary = match get_balance_summary(balances, base_code) {
        Ok(summary) => summary,
        Err(e) => {
            return Err(e);
        },
    };
    Ok(
        DashboardData {
            balance_summary: summary,
            monthly_income_expense: sums,
            top_categories: shown,
            total_spending: total,
            recent_transactions: recent,
        },
    )
}

/// Code of the currency of the account with the id; `None` where the
/// account or its currency is not there.
pub open spec fn code_for_account(ledger: LedgerView, account_id: Seq<char>) -> Option<Seq<char>> {
    match position(ledger.accounts, account_id) {
        Some(a) => match position(ledger.currencies, ledger.accounts[a].currency_id) {
            Some(c) => Some(ledger.currencies[c].code),
            None => None,
        },
        None => None,
    }
}

/// Code of the currency of the account with the id.
fn currency_code_for(ledger: &Ledger, account_id: &str) -> (r: Option<String>)
    ensures
        text_of(r) == code_for_account(ledger@, account_id@),
{
    match find(&ledger.accounts, account_id) {
        Some(a) => match find(&ledger.currencies, ledger.accounts[a].currency_id.as_str()) {
            Some(c) => Some(ledger.currencies[c].code.clone()),
            None => None,
        },
        None => None,
    }
}

/// The balance of each of the accounts that is in use and whose
/// currency is there, with the code of the currency, and not yet
/// expressed at any rate.
pub open spec fn balances_to_rate(ledger: LedgerView, accounts: Seq<AccountView>) -> Seq<
    RatedBalanceView,
>
    decreases accounts.len(),
{
    if accounts.len() == 0 {
        Seq::empty()
    } else {
        let front = balances_to_rate(ledger, accounts.drop_last());
        let account = accounts.last();
        match position(ledger.currencies, account.currency_id) {
            Some(c) => if account.is_active == 1 {
                front.push(
                    RatedBalanceView {
                        account: AccountBalanceView {
                            account_id: account.id,
                            account_name: account.name,
                            balance: account.balance,
                            currency_code: ledger.currencies[c].code,
                        },
                        at_rate: None,
                    },
                )
            } else {
                front
            },
            None => front,
        }
    }
}

/// The balance of each account that is in use, with the code of its
/// currency, for the caller to express at the latest rate. An account
/// whose currency is not there is left out.
pub fn account_balances(ledger: &Ledger) -> (r: Vec<RatedBalance>)
    ensures
        views_of(r@) == balances_to_rate(ledger@, ledger@.accounts),
{
    let mut rows: Vec<RatedBalance> = Vec::new();
    let mut i: usize = 0;
    proof {
        assert(views_of(rows@) =~= Seq::<RatedBalanceView>::empty());
    }
    while i < ledger.accounts.len()
        invariant
            i <= ledger.accounts.len(),
            views_of(rows@) == balances_to_rate(ledger@, ledger@.accounts.take(i as int)),
        decreases ledger.accounts.len() - i,
    {
        proof {
            assert(ledger@.accounts.take(i + 1).drop_last() =~= ledger@.accounts.take(i as int));
        }
        let account = &ledger.accounts[i];
        match find(&ledger.currencies, account.currency_id.as_str()) {
            Some(c) => {
                if account.is_active == 1 {
                    let row = RatedBalance {
                        account: AccountBalance {
                            account_id: account.id.clone(),
                            account_name: account.name.clone(),
                            balance: account.balance,
                            currency_code: ledger.currencies[c].code.clone(),
                        },
                        at_rate: None,
                    };
                    proof {
                        lemma_views_after_push(rows@, row);
                    }
                    rows.push(row);
                }
            },
            None => {},
        }
        i = i + 1;
    }
    proof {
        assert(ledger@.accounts.take(ledger.accounts.len() as int) =~= ledger@.accounts);
    }
    rows
}

/// A month: its number and year, its first day, and the first day of
/// the month after it.
#[derive(Clone, Debug, PartialEq, Eq)]
pub struct MonthWindow {
    /// Number of the month, from 1.
    pub month: i32,
    /// The year.
    pub year: i32,
    /// First day of the month, as text.
    pub from: String,
    /// First day of the month after it, as text.
    pub until: String,
}

/// The first day of the month after the month of a day.
pub open spec fn first_of_next_month(day: (int, int, int)) -> (int, int, int) {
    if day.1 == 12 {
        (day.0 + 1, 1, 1)
    } else {
        (day.0, day.1 + 1, 1)
    }
}

/// Whether `window` is the month of the day.
pub open spec fn is_month_of(window: MonthWindow, day: (int, int, int)) -> bool {
    &&& window.month == day.1
    &&& window.year == day.0
    &&& window.from@ == iso_date_text(day.0, day.1, 1)
    &&& window.until@ == iso_date_text(
        first_of_next_month(day).0,
        first_of_next_month(day).1,
        first_of_next_month(day).2,
    )
}

/// The month of a day. `None` where the day does not exist, or the
/// month after it lies past the last year that a date can hold.
pub fn month_window(day: CalendarDate) -> (r: Option<MonthWindow>)
    ensures
        match r {
            Some(window) => day.wf() && is_month_of(window, day@),
            None => day.wf() ==> first_of_next_month(day@).0 > MAX_YEAR,
        },
{
    let first = match date_from_ymd(day.year, day.month, 1) {
        Some(first) => first,
        None => {
            return None;
        },
    };
    if date_from_ymd(day.year, day.month, day.day).is_none() {
        return None;
    }
    let next = if day.month == 12 {
        date_from_ymd(day.year + 1, 1, 1)
    } else {
        date_from_ymd(day.year, day.month + 1, 1)
    };
    match next {
        Some(next) => Some(
            MonthWindow {
                month: day.month as i32,
                year: day.year,
                from: format_iso_date(first),
                until: format_iso_date(next),
            },
        ),
        None => None,
    }
}

/// The month of today, where `today` is a day as text: its number and
/// year, and its first day and the first day of the month after it.
/// What `today` reads as is `parsed_iso_date`; for what follows from
/// it, see `month_window`.
pub fn get_current_month_info(today: &str) -> (r: Option<MonthWindow>)
    ensures
        match r {
            Some(window) => parsed_iso_date(today@) matches Some(day) && is_month_of(window, day),
            None => parsed_iso_date(today@) matches Some(day) ==> first_of_next_month(day).0
                > MAX_YEAR,
        },
        parsed_iso_date(today@) matches Some(day) ==> is_valid_date(day.0, day.1, day.2),
{
    match parse_iso_date(today) {
        Some(day) => month_window(day),
        None => None,
    }
}

/// Whether the transaction is dated on `from` or later and before
/// `until`. Days are compared as texts.
pub open spec fn is_dated_within(row: TransactionView, from: Seq<char>, until: Seq<char>) -> bool {
    !text_before(row.date, from) && text_before(row.date, until)
}

/// The amount of each of the transactions that is dated within the
/// days and whose account and currency are there, with its type and the
/// code of the currency, and not yet expressed at any rate.
pub open spec fn amounts_to_rate(
    ledger: LedgerView,
    transactions: Seq<TransactionView>,
    from: Seq<char>,
    until: Seq<char>,
) -> Seq<RatedAmountView>
    decreases transactions.len(),
{
    if transactions.len() == 0 {
        Seq::empty()
    } else {
        let front = amounts_to_rate(ledger, transactions.drop_last(), from, until);
        let row = transactions.last();
        match code_for_account(ledger, row.account_id) {
            Some(code) => if is_dated_within(row, from, until) {
                front.push(
                    RatedAmountView {
                        amount: row.amount,
                        transaction_type: row.transaction_type,
                        currency_code: code,
                        at_rate: None,
                    },
                )
            } else {
                front
            },
            None => front,
        }
    }
}

/// The transactions dated from `from` and before `until`, each with its
/// amount, its type and the code of the currency of its account, for
/// the caller to express at the latest rate. A transaction whose
/// account or currency is not there is left out.
pub fn get_monthly_transactions(ledger: &Ledger, from: &str, until: &str) -> (r: Vec<RatedAmount>)
    ensures
        views_of(r@) == amounts_to_rate(ledger@, ledger@.transactions, from@, until@),
{
    let mut rows: Vec<RatedAmount> = Vec::new();
    let mut i: usize = 0;
    proof {
        assert(views_of(rows@) =~= Seq::<RatedAmountView>::empty());
    }
    while i < ledger.transactions.len()
        invariant
            i <= ledger.transactions.len(),
            views_of(rows@) == amounts_to_rate(
                ledger@,
                ledger@.transactions.take(i as int),
                from@,
                until@,
            ),
        decreases ledger.transactions.len() - i,
    {
        proof {
            assert(ledger@.transactions.take(i + 1).drop_last() =~= ledger@.transactions.take(
                i as int,
            ));
        }
        let row = &ledger.transactions[i];
        match currency_code_for(ledger, row.account_id.as_str()) {
            Some(code) => {
                if !is_text_before(row.date.as_str(), from) && is_text_before(
                    row.date.as_str(),
                    until,
                ) {
                    let rated = RatedAmount {
                        amount: row.amount,
                        transaction_type: row.transaction_type.clone(),
                        currency_code: code,
                        at_rate: None,
                    };
                    proof {
                        lemma_views_after_push(rows@, rated);
                    }
                    rows.push(rated);
                }
            },
            None => {},
        }
        i = i + 1;
    }
    proof {
        assert(ledger@.transactions.take(ledger.transactions.len() as int)
            =~= ledger@.transactions);
    }
    rows
}

/// The category that an expense is counted under: the category above
/// the one it is booked under, where that has one that is there, else
/// the one it is booked under; `None` where that one is not there.
pub open spec fn spending_category(ledger: LedgerView, category_id: Seq<char>) -> Option<
    (Seq<char>, Seq<char>),
> {
    match position(ledger.categories, category_id) {
        Some(c) => {
            let category = ledger.categories[c];
            match position(ledger.categories, category.parent_id->0) {
                Some(p) => if category.parent_id is Some {
                    Some((ledger.categories[p].id, ledger.categories[p].name))
                } else {
                    Some((category.id, category.name))
                },
                None => Some((category.id, category.name)),
            }
        },
        None => None,
    }
}

/// Each of the transactions that is an expense dated within the days,
/// and whose category, account and currency are there: its amount,
/// under the category it is counted under, with the code of the
/// currency, and not yet expressed at any rate.
pub open spec fn spending_to_rate(
    ledger: LedgerView,
    transactions: Seq<TransactionView>,
    from: Seq<char>,
    until: Seq<char>,
) -> Seq<RatedSpendingView>
    decreases transactions.len(),
{
    if transactions.len() == 0 {
        Seq::empty()
    } else {
        let front = spending_to_rate(ledger, transactions.drop_last(), from, until);
        let row = transactions.last();
        match (
            spending_category(ledger, row.category_id),
            code_for_account(ledger, row.account_id),
        ) {
            (Some(category), Some(code)) => if row.transaction_type == "expense"@
                && is_dated_within(row, from, until) {
                front.push(
                    RatedSpendingView {
                        category_id: category.0,
                        category_name: category.1,
                        amount: row.amount,
                        currency_code: code,
                        at_rate: None,
                    },
                )
            } else {
                front
            },
            _ => front,
        }
    }
}

/// The category that an expense is counted under.
fn category_for_spending(ledger: &Ledger, category_id: &str) -> (r: Option<(String, String)>)
    ensures
        match r {
            Some((id, name)) => spending_category(ledger@, category_id@) == Some((id@, name@)),
            None => spending_category(ledger@, category_id@) is None,
        },
{
    match find(&ledger.categories, category_id) {
        Some(c) => {
            let category = &ledger.categories[c];
            match &category.parent_id {
                Some(parent) => match find(&ledger.categories, parent.as_str()) {
                    Some(p) => Some(
                        (ledger.categories[p].id.clone(), ledger.categories[p].name.clone()),
                    ),
                    None => Some((category.id.clone(), category.name.clone())),
                },
                None => Some((category.id.clone(), category.name.clone())),
            }
        },
        None => None,
    }
}

/// The expenses dated from `from` and before `until`, each under the
/// category it is counted under (a subcategory under the category
/// above it), with the code of the currency of its account, for the
/// caller to express at the latest rate. An expense whose category,
/// account or currency is not there is left out.
pub fn get_category_spending(ledger: &Ledger, from: &str, until: &str) -> (r: Vec<RatedSpending>)
    ensures
        views_of(r@) == spending_to_rate(ledger@, ledger@.transactions, from@, until@),
{
    let expense = "expense".to_owned();
    let mut rows: Vec<RatedSpending> = Vec::new();
    let mut i: usize = 0;
    proof {
        assert(views_of(rows@) =~= Seq::<RatedSpendingView>::empty());
    }
    while i < ledger.transactions.len()
        invariant
            i <= ledger.transactions.len(),
            expense@ == "expense"@,
            views_of(rows@) == spending_to_rate(
                ledger@,
                ledger@.transactions.take(i as int),
                from@,
                until@,
            ),
        decreases ledger.transactions.len() - i,
    {
        proof {
            assert(ledger@.transactions.take(i + 1).drop_last() =~= ledger@.transactions.take(
                i as int,
            ));
        }
        let row = &ledger.transactions[i];
        let category = category_for_spending(ledger, row.category_id.as_str());
        let code = currency_code_for(ledger, row.account_id.as_str());
        match (category, code) {
            (Some((category_id, category_name)), Some(code)) => {
                if row.transaction_type == expense && !is_text_before(row.date.as_str(), from)
                    && is_text_before(row.date.as_str(), until) {
                    let rated = RatedSpending {
                        category_id,
                        category_name,
                        amount: row.amount,
                        currency_code: code,
                        at_rate: None,
                    };
                    proof {
                        lemma_views_after_push(rows@, rated);
                    }
                    rows.push(rated);
                }
            },
            _ => {},
        }
        i = i + 1;
    }
    proof {
        assert(ledger@.transactions.take(ledger.transactions.len() as int)
            =~= ledger@.transactions);
    }
    rows
}

/// A transaction as the overview lists it, as mathematical values.
pub struct RecentTransactionView {
    pub id: Seq<char>,
    pub account_name: Seq<char>,
    pub category_name: Seq<char>,
    pub amount: int,
    pub transaction_type: Seq<char>,
    pub description: Seq<char>,
    pub date: Seq<char>,
    pub currency_code: Seq<char>,
}

impl View for RecentTransaction {
    type V = RecentTransactionView;

    open spec fn view(&self) -> RecentTransactionView {
        RecentTransactionView {
            id: self.id@,
            account_name: self.account_name@,
            category_name: self.category_name@,
            amount: self.amount as int,
            transaction_type: self.transaction_type@,
            description: self.description@,
            date: self.date@,
            currency_code: self.currency_code@,
        }
    }
}

impl Copied for RecentTransaction {
    fn duplicate(&self) -> (r: RecentTransaction) {
        RecentTransaction {
            id: self.id.clone(),
            account_name: self.account_name.clone(),
            category_name: self.category_name.clone(),
            amount: self.amount,
            transaction_type: self.transaction_type.clone(),
            description: self.description.clone(),
            date: self.date.clone(),
            currency_code: self.currency_code.clone(),
        }
    }
}

/// The transaction as the overview lists it, with what it is ordered
/// by: its date, then the time it was created, the latest first.
/// `None` where its account, its category or its currency is not
/// there.
pub open spec fn as_recent(ledger: LedgerView, row: TransactionView) -> Option<
    SortableView<RecentTransactionView>,
> {
    match (
        position(ledger.accounts, row.account_id),
        position(ledger.categories, row.category_id),
        code_for_account(ledger, row.account_id),
    ) {
        (Some(a), Some(c), Some(code)) => Some(
            SortableView {
                keys: seq![SortKeyView::Text(row.date), SortKeyView::Text(row.created_at)],
                descending: true,
                row: RecentTransactionView {
                    id: row.id,
                    account_name: ledger.accounts[a].name,
                    category_name: ledger.categories[c].name,
                    amount: row.amount,
                    transaction_type: row.transaction_type,
                    description: row.description,
                    date: row.date,
                    currency_code: code,
                },
            },
        ),
        _ => None,
    }
}

/// The transactions as the overview lists them, in their order.
pub open spec fn all_recent(ledger: LedgerView, transactions: Seq<TransactionView>) -> Seq<
    SortableView<RecentTransactionView>,
>
    decreases transactions.len(),
{
    if transactions.len() == 0 {
        Seq::empty()
    } else {
        let front = all_recent(ledger, transactions.drop_last());
        match as_recent(ledger, transactions.last()) {
            Some(row) => front.push(row),
            None => front,
        }
    }
}

/// The first rows of a list, at most `count` of them.
pub open spec fn at_most<T>(rows: Seq<T>, count: int) -> Seq<T> {
    if rows.len() <= count {
        rows
    } else {
        rows.take(count)
    }
}

/// The ten latest transactions: by date, and on one date by the time
/// they were created, the latest first.
pub open spec fn latest_ten(ledger: LedgerView) -> Seq<RecentTransactionView> {
    at_most(rows_of(in_order(all_recent(ledger, ledger.transactions))), 10)
}

/// The ten latest transactions, each with the names of its account and
/// its category and the code of its currency. A transaction whose
/// account, category or currency is not there is left out.
pub fn get_recent_transactions(ledger: &Ledger) -> (r: Vec<RecentTransaction>)
    ensures
        views_of(r@) == latest_ten(ledger@),
        r.len() <= 10,
{
    let mut keyed: Vec<crate::ordering::Sortable<RecentTransaction>> = Vec::new();
    let mut i: usize = 0;
    proof {
        assert(views_of(keyed@) =~= Seq::<SortableView<RecentTransactionView>>::empty());
    }
    while i < ledger.transactions.len()
        invariant
            i <= ledger.transactions.len(),
            views_of(keyed@) == all_recent(ledger@, ledger@.transactions.take(i as int)),
        decreases ledger.transactions.len() - i,
    {
        proof {
            assert(ledger@.transactions.take(i + 1).drop_last() =~= ledger@.transactions.take(
                i as int,
            ));
        }
        let row = &ledger.transactions[i];
        let account = find(&ledger.accounts, row.account_id.as_str());
        let category = find(&ledger.categories, row.category_id.as_str());
        let code = currency_code_for(ledger, row.account_id.as_str());
        match (account, category, code) {
            (Some(a), Some(c), Some(code)) => {
                let mut keys: Vec<SortKey> = Vec::new();
                keys.push(SortKey::Text(row.date.clone()));
                keys.push(SortKey::Text(row.created_at.clone()));
                let recent = crate::ordering::Sortable {
                    keys,
                    descending: true,
                    row: RecentTransaction {
                        id: row.id.clone(),
                        account_name: ledger.accounts[a].name.clone(),
                        category_name: ledger.categories[c].name.clone(),
                        amount: row.amount,
                        transaction_type: row.transaction_type.clone(),
                        description: row.description.clone(),
                        date: row.date.clone(),
                        currency_code: code,
                    },
                };
                proof {
                    assert(views_of(recent.keys@) =~= as_recent(ledger@, row@)->0.keys);
                    lemma_views_after_push(keyed@, recent);
                }
                keyed.push(recent);
            },
            _ => {},
        }
        i = i + 1;
    }
    proof {
        assert(ledger@.transactions.take(ledger.transactions.len() as int)
            =~= ledger@.transactions);
    }
    let sorted = unkeyed(sort(&keyed));
    let mut latest: Vec<RecentTransaction> = Vec::new();
    let mut k: usize = 0;
    while k < sorted.len() && k < 10
        invariant
            k <= sorted.len(),
            k <= 10,
            views_of(latest@) == views_of(sorted@).take(k as int),
        decreases sorted.len() - k,
    {
        let copy = sorted[k].duplicate();
        proof {
            lemma_views_after_push(latest@, copy);
            assert(views_of(sorted@).take(k as int).push(copy@) =~= views_of(sorted@).take(
                k + 1,
            ));
        }
        latest.push(copy);
        k = k + 1;
    }
    proof {
        assert(views_of(sorted@).len() == sorted.len());
        if sorted.len() <= 10 {
            assert(views_of(sorted@).take(sorted.len() as int) =~= views_of(sorted@));
        }
    }
    latest
}

} // verus!
