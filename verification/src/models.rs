//! The rows of the store and the values that requests take and give,
//! each with the mathematical value that contracts speak of.

use vstd::prelude::*;

verus! {

/// The text of an optional string.
pub open spec fn text_of(value: Option<String>) -> Option<Seq<char>> {
    match value {
        Some(s) => Some(s@),
        None => None,
    }
}

/// The number that an optional 32-bit number holds.
pub open spec fn int_of_i32(value: Option<i32>) -> Option<int> {
    match value {
        Some(v) => Some(v as int),
        None => None,
    }
}

/// The number that an optional 64-bit number holds.
pub open spec fn int_of_i64(value: Option<i64>) -> Option<int> {
    match value {
        Some(v) => Some(v as int),
        None => None,
    }
}

/// The texts of a list of strings.
pub open spec fn texts(list: Seq<String>) -> Seq<Seq<char>> {
    list.map_values(|s: String| s@)
}

/// The values that a list of rows stands for.
pub open spec fn views_of<T: View>(rows: Seq<T>) -> Seq<T::V> {
    rows.map_values(|row: T| row@)
}

/// A copy of an optional string.
pub fn copy_text(value: &Option<String>) -> (r: Option<String>)
    ensures
        text_of(r) == text_of(*value),
{
    match value {
        Some(s) => Some(s.clone()),
        None => None,
    }
}

/// The views of a list with one more row.
pub proof fn lemma_views_after_push<T: View>(rows: Seq<T>, row: T)
    ensures
        views_of(rows.push(row)) == views_of(rows).push(row@),
{
    assert(views_of(rows.push(row)) =~= views_of(rows).push(row@));
}

/// The views of a list with one row replaced.
pub proof fn lemma_views_after_update<T: View>(rows: Seq<T>, index: int, row: T)
    requires
        0 <= index < rows.len(),
    ensures
        views_of(rows.update(index, row)) == views_of(rows).update(index, row@),
{
    assert(views_of(rows.update(index, row)) =~= views_of(rows).update(index, row@));
}

/// The views of a list with one row removed.
pub proof fn lemma_views_after_remove<T: View>(rows: Seq<T>, index: int)
    requires
        0 <= index < rows.len(),
    ensures
        views_of(rows.remove(index)) == views_of(rows).remove(index),
{
    assert(views_of(rows.remove(index)) =~= views_of(rows).remove(index));
}

/// An account: where money is held or owed.
#[derive(Clone, Debug, PartialEq, Eq)]
pub struct Account {
    /// Identity of the account.
    pub id: String,
    /// Name shown for it.
    pub name: String,
    /// Kind of account, such as `credit_card`.
    pub account_type: String,
    /// The currency it is held in.
    pub currency_id: String,
    /// Cached balance in minor units: income less expense over its
    /// transactions.
    pub balance: i64,
    /// Credit limit in minor units; a credit card has one.
    pub credit_limit: Option<i64>,
    /// Day of the month (1 to 31) on which it bills; a credit card has one.
    pub billing_day: Option<i32>,
    /// 1 while the account is in use, 0 once archived.
    pub is_active: i32,
    /// When the store took the row.
    pub created_at: String,
}

/// What an `Account` holds, as mathematical values.
pub struct AccountView {
    pub id: Seq<char>,
    pub name: Seq<char>,
    pub account_type: Seq<char>,
    pub currency_id: Seq<char>,
    pub balance: int,
    pub credit_limit: Option<int>,
    pub billing_day: Option<int>,
    pub is_active: int,
    pub created_at: Seq<char>,
}

impl View for Account {
    type V = AccountView;

    open spec fn view(&self) -> AccountView {
        AccountView {
            id: self.id@,
            name: self.name@,
            account_type: self.account_type@,
            currency_id: self.currency_id@,
            balance: self.balance as int,
            credit_limit: int_of_i64(self.credit_limit),
            billing_day: int_of_i32(self.billing_day),
            is_active: self.is_active as int,
            created_at: self.created_at@,
        }
    }
}

impl Account {
    /// A copy with the same contents.
    pub fn copy_of(&self) -> (r: Account)
        ensures
            r@ == self@,
    {
        Account {
            id: self.id.clone(),
            name: self.name.clone(),
            account_type: self.account_type.clone(),
            currency_id: self.currency_id.clone(),
            balance: self.balance,
            credit_limit: self.credit_limit,
            billing_day: self.billing_day,
            is_active: self.is_active,
            created_at: self.created_at.clone(),
        }
    }
}

/// A category of income or expense, at most one level below a parent.
#[derive(Clone, Debug, PartialEq, Eq)]
pub struct Category {
    /// Identity of the category.
    pub id: String,
    /// Name shown for it.
    pub name: String,
    /// `income` or `expense`.
    pub category_type: String,
    /// Icon shown for it.
    pub icon: Option<String>,
    /// The category above it, if it is a subcategory.
    pub parent_id: Option<String>,
    /// 1 while the category is in use.
    pub is_active: i32,
    /// When the store took the row.
    pub created_at: String,
}

/// What a `Category` holds, as mathematical values.
pub struct CategoryView {
    pub id: Seq<char>,
    pub name: Seq<char>,
    pub category_type: Seq<char>,
    pub icon: Option<Seq<char>>,
    pub parent_id: Option<Seq<char>>,
    pub is_active: int,
    pub created_at: Seq<char>,
}

impl View for Category {
    type V = CategoryView;

    open spec fn view(&self) -> CategoryView {
        CategoryView {
            id: self.id@,
            name: self.name@,
            category_type: self.category_type@,
            icon: text_of(self.icon),
            parent_id: text_of(self.parent_id),
            is_active: self.is_active as int,
            created_at: self.created_at@,
        }
    }
}

impl Category {
    /// A copy with the same contents.
    pub fn copy_of(&self) -> (r: Category)
        ensures
            r@ == self@,
    {
        Category {
            id: self.id.clone(),
            name: self.name.clone(),
            category_type: self.category_type.clone(),
            icon: copy_text(&self.icon),
            parent_id: copy_text(&self.parent_id),
            is_active: self.is_active,
            created_at: self.created_at.clone(),
        }
    }
}

/// A currency that accounts are held in.
#[derive(Clone, Debug, PartialEq, Eq)]
pub struct Currency {
    /// Identity of the currency.
    pub id: String,
    /// Its code, such as `CLP`.
    pub code: String,
    /// Its name.
    pub name: String,
    /// Its symbol.
    pub symbol: String,
    /// How many decimal places its minor unit stands for.
    pub decimal_places: i32,
    /// When the store took the row.
    pub created_at: String,
}

/// What a `Currency` holds, as mathematical values.
pub struct CurrencyView {
    pub id: Seq<char>,
    pub code: Seq<char>,
    pub name: Seq<char>,
    pub symbol: Seq<char>,
    pub decimal_places: int,
    pub created_at: Seq<char>,
}

impl View for Currency {
    type V = CurrencyView;

    open spec fn view(&self) -> CurrencyView {
        CurrencyView {
            id: self.id@,
            code: self.code@,
            name: self.name@,
            symbol: self.symbol@,
            decimal_places: self.decimal_places as int,
            created_at: self.created_at@,
        }
    }
}

impl Currency {
    /// A copy with the same contents.
    pub fn copy_of(&self) -> (r: Currency)
        ensures
            r@ == self@,
    {
        Currency {
            id: self.id.clone(),
            code: self.code.clone(),
            name: self.name.clone(),
            symbol: self.symbol.clone(),
            decimal_places: self.decimal_places,
            created_at: self.created_at.clone(),
        }
    }
}

/// An entry of the ledger: money that came into or left an account.
#[derive(Clone, Debug, PartialEq, Eq)]
pub struct Transaction {
    /// Identity of the transaction.
    pub id: String,
    /// The account it belongs to.
    pub account_id: String,
    /// The category it is booked under.
    pub category_id: String,
    /// Amount in minor units, above zero.
    pub amount: i64,
    /// `income` or `expense`, as the category.
    pub transaction_type: String,
    /// What it was for.
    pub description: String,
    /// Day it took place.
    pub date: String,
    /// Free notes.
    pub notes: Option<String>,
    /// When the store took the row.
    pub created_at: String,
}

/// What a `Transaction` holds, as mathematical values.
pub struct TransactionView {
    pub id: Seq<char>,
    pub account_id: Seq<char>,
    pub category_id: Seq<char>,
    pub amount: int,
    pub transaction_type: Seq<char>,
    pub description: Seq<char>,
    pub date: Seq<char>,
    pub notes: Option<Seq<char>>,
    pub created_at: Seq<char>,
}

impl View for Transaction {
    type V = TransactionView;

    open spec fn view(&self) -> TransactionView {
        TransactionView {
            id: self.id@,
            account_id: self.account_id@,
            category_id: self.category_id@,
            amount: self.amount as int,
            transaction_type: self.transaction_type@,
            description: self.description@,
            date: self.date@,
            notes: text_of(self.notes),
            created_at: self.created_at@,
        }
    }
}

impl Transaction {
    /// A copy with the same contents.
    pub fn copy_of(&self) -> (r: Transaction)
        ensures
            r@ == self@,
    {
        Transaction {
            id: self.id.clone(),
            account_id: self.account_id.clone(),
            category_id: self.category_id.clone(),
            amount: self.amount,
            transaction_type: self.transaction_type.clone(),
            description: self.description.clone(),
            date: self.date.clone(),
            notes: copy_text(&self.notes),
            created_at: self.created_at.clone(),
        }
    }
}

/// A debt paid off in monthly installments.
#[derive(Clone, Debug, PartialEq, Eq)]
pub struct Debt {
    /// Identity of the debt.
    pub id: String,
    /// The account that owes it.
    pub account_id: String,
    /// What it is for.
    pub description: String,
    /// The principal in minor units.
    pub original_amount: i64,
    /// How many installments it is paid in.
    pub total_installments: i32,
    /// How many of them are paid: a count kept beside the installments.
    pub paid_installments: i32,
    /// Amount of each installment in minor units.
    pub monthly_payment: i64,
    /// Nominal interest rate as the bit pattern of a 64-bit float. The ledger
    /// carries it and never reads it.
    pub interest_rate_bits: u64,
    /// Day the debt starts; the first installment falls due a month later.
    pub start_date: String,
    /// 1 while the debt counts towards commitments.
    pub is_active: i32,
    /// Free notes.
    pub notes: Option<String>,
    /// When the store took the row.
    pub created_at: String,
}

/// What a `Debt` holds, as mathematical values.
pub struct DebtView {
    pub id: Seq<char>,
    pub account_id: Seq<char>,
    pub description: Seq<char>,
    pub original_amount: int,
    pub total_installments: int,
    pub paid_installments: int,
    pub monthly_payment: int,
    pub interest_rate_bits: int,
    pub start_date: Seq<char>,
    pub is_active: int,
    pub notes: Option<Seq<char>>,
    pub created_at: Seq<char>,
}

impl View for Debt {
    type V = DebtView;

    open spec fn view(&self) -> DebtView {
        DebtView {
            id: self.id@,
            account_id: self.account_id@,
            description: self.description@,
            original_amount: self.original_amount as int,
            total_installments: self.total_installments as int,
            paid_installments: self.paid_installments as int,
            monthly_payment: self.monthly_payment as int,
            interest_rate_bits: self.interest_rate_bits as int,
            start_date: self.start_date@,
            is_active: self.is_active as int,
            notes: text_of(self.notes),
            created_at: self.created_at@,
        }
    }
}

impl Debt {
    /// A copy with the same contents.
    pub fn copy_of(&self) -> (r: Debt)
        ensures
            r@ == self@,
    {
        Debt {
            id: self.id.clone(),
            account_id: self.account_id.clone(),
            description: self.description.clone(),
            original_amount: self.original_amount,
            total_installments: self.total_installments,
            paid_installments: self.paid_installments,
            monthly_payment: self.monthly_payment,
            interest_rate_bits: self.interest_rate_bits,
            start_date: self.start_date.clone(),
            is_active: self.is_active,
            notes: copy_text(&self.notes),
            created_at: self.created_at.clone(),
        }
    }
}

/// One installment of a debt.
#[derive(Clone, Debug, PartialEq, Eq)]
pub struct Installment {
    /// Identity of the installment.
    pub id: String,
    /// The debt it belongs to.
    pub debt_id: String,
    /// Its place in the schedule, from 1.
    pub installment_number: i32,
    /// Day it falls due.
    pub due_date: String,
    /// Amount in minor units: the debt's monthly payment when it was opened.
    pub amount: i64,
    /// `pending`, then `paid`; never back.
    pub status: String,
    /// Day it was paid.
    pub actual_payment_date: Option<String>,
    /// The expense booked when it was paid.
    pub transaction_id: Option<String>,
    /// When the store took the row.
    pub created_at: String,
}

/// What an `Installment` holds, as mathematical values.
pub struct InstallmentView {
    pub id: Seq<char>,
    pub debt_id: Seq<char>,
    pub installment_number: int,
    pub due_date: Seq<char>,
    pub amount: int,
    pub status: Seq<char>,
    pub actual_payment_date: Option<Seq<char>>,
    pub transaction_id: Option<Seq<char>>,
    pub created_at: Seq<char>,
}

impl View for Installment {
    type V = InstallmentView;

    open spec fn view(&self) -> InstallmentView {
        InstallmentView {
            id: self.id@,
            debt_id: self.debt_id@,
            installment_number: self.installment_number as int,
            due_date: self.due_date@,
            amount: self.amount as int,
            status: self.status@,
            actual_payment_date: text_of(self.actual_payment_date),
            transaction_id: text_of(self.transaction_id),
            created_at: self.created_at@,
        }
    }
}

impl Installment {
    /// A copy with the same contents.
    pub fn copy_of(&self) -> (r: Installment)
        ensures
            r@ == self@,
    {
        Installment {
            id: self.id.clone(),
            debt_id: self.debt_id.clone(),
            installment_number: self.installment_number,
            due_date: self.due_date.clone(),
            amount: self.amount,
            status: self.status.clone(),
            actual_payment_date: copy_text(&self.actual_payment_date),
            transaction_id: copy_text(&self.transaction_id),
            created_at: self.created_at.clone(),
        }
    }
}

/// Balance of one account, with the code of its currency.
#[derive(Clone, Debug, PartialEq, Eq)]
pub struct AccountBalance {
    /// The account.
    pub account_id: String,
    /// Its name.
    pub account_name: String,
    /// Its balance in minor units.
    pub balance: i64,
    /// Code of its currency.
    pub currency_code: String,
}

/// What an `AccountBalance` holds, as mathematical values.
pub struct AccountBalanceView {
    pub account_id: Seq<char>,
    pub account_name: Seq<char>,
    pub balance: int,
    pub currency_code: Seq<char>,
}

impl View for AccountBalance {
    type V = AccountBalanceView;

    open spec fn view(&self) -> AccountBalanceView {
        AccountBalanceView {
            account_id: self.account_id@,
            account_name: self.account_name@,
            balance: self.balance as int,
            currency_code: self.currency_code@,
        }
    }
}

impl AccountBalance {
    /// A copy with the same contents.
    pub fn copy_of(&self) -> (r: AccountBalance)
        ensures
            r@ == self@,
    {
        AccountBalance {
            account_id: self.account_id.clone(),
            account_name: self.account_name.clone(),
            balance: self.balance,
            currency_code: self.currency_code.clone(),
        }
    }
}

/// How far a credit card is drawn.
#[derive(Clone, Debug, PartialEq, Eq)]
pub struct CreditUtilization {
    /// The account.
    pub account_id: String,
    /// Its name.
    pub account_name: String,
    /// Its credit limit.
    pub credit_limit: i64,
    /// Its balance.
    pub current_balance: i64,
    /// Sum of the pending installments of its active debts.
    pub remaining_debt_commitments: i64,
    /// Credit limit less balance.
    pub available_credit: i64,
}

/// What a `CreditUtilization` holds, as mathematical values.
pub struct CreditUtilizationView {
    pub account_id: Seq<char>,
    pub account_name: Seq<char>,
    pub credit_limit: int,
    pub current_balance: int,
    pub remaining_debt_commitments: int,
    pub available_credit: int,
}

impl View for CreditUtilization {
    type V = CreditUtilizationView;

    open spec fn view(&self) -> CreditUtilizationView {
        CreditUtilizationView {
            account_id: self.account_id@,
            account_name: self.account_name@,
            credit_limit: self.credit_limit as int,
            current_balance: self.current_balance as int,
            remaining_debt_commitments: self.remaining_debt_commitments as int,
            available_credit: self.available_credit as int,
        }
    }
}

impl CreditUtilization {
    /// A copy with the same contents.
    pub fn copy_of(&self) -> (r: CreditUtilization)
        ensures
            r@ == self@,
    {
        CreditUtilization {
            account_id: self.account_id.clone(),
            account_name: self.account_name.clone(),
            credit_limit: self.credit_limit,
            current_balance: self.current_balance,
            remaining_debt_commitments: self.remaining_debt_commitments,
            available_credit: self.available_credit,
        }
    }
}

/// What one debt asks for in one month.
#[derive(Clone, Debug, PartialEq, Eq)]
pub struct DebtProjectionEntry {
    /// The debt.
    pub debt_id: String,
    /// Its description.
    pub debt_description: String,
    /// Sum of its installments due in the month.
    pub amount: i64,
}

/// What a `DebtProjectionEntry` holds, as mathematical values.
pub struct DebtProjectionEntryView {
    pub debt_id: Seq<char>,
    pub debt_description: Seq<char>,
    pub amount: int,
}

impl View for DebtProjectionEntry {
    type V = DebtProjectionEntryView;

    open spec fn view(&self) -> DebtProjectionEntryView {
        DebtProjectionEntryView {
            debt_id: self.debt_id@,
            debt_description: self.debt_description@,
            amount: self.amount as int,
        }
    }
}

impl DebtProjectionEntry {
    /// A copy with the same contents.
    pub fn copy_of(&self) -> (r: DebtProjectionEntry)
        ensures
            r@ == self@,
    {
        DebtProjectionEntry {
            debt_id: self.debt_id.clone(),
            debt_description: self.debt_description.clone(),
            amount: self.amount,
        }
    }
}

/// What to list of the transactions: which to keep, in what order, and
/// which page of them.
#[derive(Clone, Debug, PartialEq, Eq)]
pub struct TransactionFilter {
    /// Keep those of this account.
    pub account_id: Option<String>,
    /// Keep those of this category.
    pub category_id: Option<String>,
    /// Keep those of this type.
    pub transaction_type: Option<String>,
    /// Keep those dated on this day or later.
    pub date_from: Option<String>,
    /// Keep those dated on this day or earlier.
    pub date_to: Option<String>,
    /// Keep those of at least this amount.
    pub amount_min: Option<i64>,
    /// Keep those of at most this amount.
    pub amount_max: Option<i64>,
    /// Keep those whose description holds this text.
    pub search: Option<String>,
    /// Column to order by; `date` unless it is one of the columns on offer.
    pub sort_by: Option<String>,
    /// `ASC` or `DESC`; `DESC` unless it is one of the two.
    pub sort_dir: Option<String>,
    /// Page to show, from 1; the first unless given.
    pub page: Option<i64>,
    /// Rows on a page; 20 unless given.
    pub page_size: Option<i64>,
}

/// One page of a longer list.
#[derive(Clone, Debug, PartialEq, Eq)]
pub struct PaginatedResult<T> {
    /// The rows of the page.
    pub data: Vec<T>,
    /// How many rows the whole list has.
    pub total: i64,
    /// Which page this is, from 1.
    pub page: i64,
    /// How many rows a page holds.
    pub page_size: i64,
    /// How many pages the whole list fills.
    pub total_pages: i64,
}

/// Balances of the active accounts, and their sum in one currency.
#[derive(Clone, Debug, PartialEq, Eq)]
pub struct BalanceSummary {
    /// Balance of each active account.
    pub accounts: Vec<AccountBalance>,
    /// Sum of the balances that could be expressed in the base currency;
    /// `None` where none could.
    pub consolidated_total: Option<i64>,
    /// Code of the base currency.
    pub base_currency_code: String,
}

/// Which debts to list.
#[derive(Clone, Debug, PartialEq, Eq)]
pub struct DebtFilter {
    /// Keep those of this account.
    pub account_id: Option<String>,
    /// Keep those that are active, or those that are not.
    pub is_active: Option<bool>,
    /// Keep those whose description holds this text.
    pub search: Option<String>,
}

/// A debt with its installments and what is left of it.
#[derive(Clone, Debug, PartialEq, Eq)]
pub struct DebtWithInstallments {
    /// The debt.
    pub debt: Debt,
    /// Its installments in the order of their numbers.
    pub installments: Vec<Installment>,
    /// Name of the account that owes it.
    pub account_name: String,
    /// Due date of the first installment that is still pending.
    pub next_due_date: Option<String>,
    /// Sum of the installments that are still pending.
    pub remaining_amount: i64,
}

/// A debt with its installments and what is left of it, as
/// mathematical values.
pub struct DebtWithInstallmentsView {
    pub debt: DebtView,
    pub installments: Seq<InstallmentView>,
    pub account_name: Seq<char>,
    pub next_due_date: Option<Seq<char>>,
    pub remaining_amount: int,
}

impl View for DebtWithInstallments {
    type V = DebtWithInstallmentsView;

    open spec fn view(&self) -> DebtWithInstallmentsView {
        DebtWithInstallmentsView {
            debt: self.debt@,
            installments: views_of(self.installments@),
            account_name: self.account_name@,
            next_due_date: text_of(self.next_due_date),
            remaining_amount: self.remaining_amount as int,
        }
    }
}

/// What the debts ask for in one month.
#[derive(Clone, Debug, PartialEq, Eq)]
pub struct MonthlyProjection {
    /// The month, as year and month with a hyphen between them.
    pub month: String,
    /// What each debt asks for.
    pub debts: Vec<DebtProjectionEntry>,
    /// Sum over the debts.
    pub total: i64,
}

/// What the debts ask for in one month, as mathematical values.
pub struct MonthlyProjectionView {
    pub month: Seq<char>,
    pub debts: Seq<DebtProjectionEntryView>,
    pub total: int,
}

impl View for MonthlyProjection {
    type V = MonthlyProjectionView;

    open spec fn view(&self) -> MonthlyProjectionView {
        MonthlyProjectionView {
            month: self.month@,
            debts: views_of(self.debts@),
            total: self.total as int,
        }
    }
}

/// Terms of a debt to open.
#[derive(Clone, Debug, PartialEq, Eq)]
pub struct CreateDebtInput {
    /// The account that owes it.
    pub account_id: String,
    /// What it is for.
    pub description: String,
    /// The principal in minor units.
    pub original_amount: i64,
    /// How many installments it is paid in.
    pub total_installments: i32,
    /// Amount of each installment in minor units.
    pub monthly_payment: i64,
    /// Nominal interest rate as the bit pattern of a 64-bit float.
    pub interest_rate_bits: u64,
    /// Day the debt starts.
    pub start_date: String,
    /// Free notes.
    pub notes: Option<String>,
}

/// Terms of a debt to open, as mathematical values.
pub struct DebtTerms {
    pub account_id: Seq<char>,
    pub description: Seq<char>,
    pub original_amount: int,
    pub total_installments: int,
    pub monthly_payment: int,
    pub interest_rate_bits: int,
    pub start_date: Seq<char>,
    pub notes: Option<Seq<char>>,
}

impl View for CreateDebtInput {
    type V = DebtTerms;

    open spec fn view(&self) -> DebtTerms {
        DebtTerms {
            account_id: self.account_id@,
            description: self.description@,
            original_amount: self.original_amount as int,
            total_installments: self.total_installments as int,
            monthly_payment: self.monthly_payment as int,
            interest_rate_bits: self.interest_rate_bits as int,
            start_date: self.start_date@,
            notes: text_of(self.notes),
        }
    }
}

/// What to change of a debt; a field left out stays as it is.
#[derive(Clone, Debug, PartialEq, Eq)]
pub struct UpdateDebtInput {
    /// New description.
    pub description: Option<String>,
    /// New nominal interest rate as the bit pattern of a 64-bit float.
    pub interest_rate_bits: Option<u64>,
    /// Whether the debt is active.
    pub is_active: Option<bool>,
    /// New notes.
    pub notes: Option<String>,
}

/// What to change of a debt, as mathematical values.
pub struct DebtChanges {
    pub description: Option<Seq<char>>,
    pub interest_rate_bits: Option<int>,
    pub is_active: Option<bool>,
    pub notes: Option<Seq<char>>,
}

impl View for UpdateDebtInput {
    type V = DebtChanges;

    open spec fn view(&self) -> DebtChanges {
        DebtChanges {
            description: text_of(self.description),
            interest_rate_bits: match self.interest_rate_bits {
                Some(bits) => Some(bits as int),
                None => None,
            },
            is_active: self.is_active,
            notes: text_of(self.notes),
        }
    }
}

} // verus!
