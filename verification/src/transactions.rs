//! Entries of the ledger: how a transaction is created, changed and
//! deleted. Each change recalculates the balance of every account it
//! touches, and is kept whole or not at all.

use crate::balance::{
    balance_of, balances_are_consistent, lemma_balance_after_push, lemma_balance_after_remove,
    lemma_balance_after_update, recalculate_account_balance, recalculated,
};
use crate::errors::LedgerError;
use crate::ledger::{
    find, fresh_id, keys_are_unique, lemma_position_is_first, lemma_unique_after_push,
    lemma_unique_after_remove, lemma_unique_after_update, outcome_view, position, Keyed, Ledger,
    LedgerView,
};
use crate::models::{
    copy_text, lemma_views_after_push, lemma_views_after_remove, lemma_views_after_update, text_of,
    views_of, Transaction, TransactionView,
};
use vstd::prelude::*;

verus! {

/// Whether the text names one of the two types of transaction.
pub open spec fn is_transaction_type(text: Seq<char>) -> bool {
    text == "income"@ || text == "expense"@
}

/// The row of a transaction that has just been created: without notes,
/// and without the time that the store will stamp on it.
pub open spec fn new_transaction(
    id: Seq<char>,
    account_id: Seq<char>,
    category_id: Seq<char>,
    amount: int,
    transaction_type: Seq<char>,
    description: Seq<char>,
    date: Seq<char>,
) -> TransactionView {
    TransactionView {
        id,
        account_id,
        category_id,
        amount,
        transaction_type,
        description,
        date,
        notes: None,
        created_at: Seq::empty(),
    }
}

/// The rule that a transaction to create breaks, if any; the first in
/// this order: the amount is above zero, there is a date, the type is
/// income or expense, the account exists and is active, the category
/// exists, is active and has the type of the transaction.
pub open spec fn creation_refusal(pre: LedgerView, row: TransactionView) -> Option<LedgerError> {
    let account = position(pre.accounts, row.account_id);
    let category = position(pre.categories, row.category_id);
    if row.amount <= 0 {
        Some(LedgerError::NonPositiveAmount)
    } else if row.date.len() == 0 {
        Some(LedgerError::EmptyDate)
    } else if !is_transaction_type(row.transaction_type) {
        Some(LedgerError::UnknownTransactionType)
    } else if account is None {
        Some(LedgerError::AccountNotFound)
    } else if pre.accounts[account->0].is_active != 1 {
        Some(LedgerError::TransactionOnInactiveAccount)
    } else if category is None {
        Some(LedgerError::CategoryNotFound)
    } else if pre.categories[category->0].is_active != 1 {
        Some(LedgerError::InactiveCategory)
    } else if pre.categories[category->0].category_type != row.transaction_type {
        Some(LedgerError::TypeMismatch)
    } else {
        None
    }
}

/// Whether the balance of the account, over these transactions, fits
/// an amount.
pub open spec fn balance_fits(rows: Seq<TransactionView>, account_id: Seq<char>) -> bool {
    i64::MIN <= balance_of(rows, account_id) <= i64::MAX
}

/// What creating the transaction `row` gives, and the ledger after it.
///
/// A row that breaks a rule is refused with that rule. The store then
/// refuses an id that is taken (`DuplicateId`) and a balance that does
/// not fit (`AmountOverflow`). A refusal leaves the ledger as it was.
/// Otherwise the row is added to the transactions, and the balance of
/// its account is set to income less expense over them.
pub open spec fn create_transaction_spec(pre: LedgerView, row: TransactionView) -> (
    Result<TransactionView, LedgerError>,
    LedgerView,
) {
    let written = LedgerView { transactions: pre.transactions.push(row), ..pre };
    match creation_refusal(pre, row) {
        Some(e) => (Err(e), pre),
        None => if position(pre.transactions, row.id) is Some {
            (Err(LedgerError::DuplicateId), pre)
        } else if !balance_fits(written.transactions, row.account_id) {
            (Err(LedgerError::AmountOverflow), pre)
        } else {
            (Ok(row), recalculated(written, row.account_id))
        },
    }
}

/// Creates a transaction under the given id: see
/// `create_transaction_spec` for the rules, in their order, and for
/// what a success changes.
pub fn create_transaction_with_id(
    ledger: &mut Ledger,
    id: String,
    account_id: String,
    category_id: String,
    amount: i64,
    transaction_type: String,
    description: String,
    date: String,
) -> (r: Result<Transaction, LedgerError>)
    ensures
        (outcome_view(r), final(ledger)@) == create_transaction_spec(
            old(ledger)@,
            new_transaction(
                id@,
                account_id@,
                category_id@,
                amount as int,
                transaction_type@,
                description@,
                date@,
            ),
        ),
{
    if amount <= 0 {
        return Err(LedgerError::NonPositiveAmount);
    }
    if date.as_str().is_empty() {
        return Err(LedgerError::EmptyDate);
    }
    let income = "income".to_owned();
    let expense = "expense".to_owned();
    if !(transaction_type == income) && !(transaction_type == expense) {
        return Err(LedgerError::UnknownTransactionType);
    }
    match find(&ledger.accounts, account_id.as_str()) {
        None => {
            return Err(LedgerError::AccountNotFound);
        },
        Some(i) => {
            if ledger.accounts[i].is_active != 1 {
                return Err(LedgerError::TransactionOnInactiveAccount);
            }
        },
    }
    match find(&ledger.categories, category_id.as_str()) {
        None => {
            return Err(LedgerError::CategoryNotFound);
        },
        Some(i) => {
            if ledger.categories[i].is_active != 1 {
                return Err(LedgerError::InactiveCategory);
            }
            if !(ledger.categories[i].category_type == transaction_type) {
                return Err(LedgerError::TypeMismatch);
            }
        },
    }
    if find(&ledger.transactions, id.as_str()).is_some() {
        return Err(LedgerError::DuplicateId);
    }
    let row = Transaction {
        id,
        account_id,
        category_id,
        amount,
        transaction_type,
        description,
        date,
        notes: None,
        created_at: String::new(),
    };
    let created = row.copy_of();
    proof {
        lemma_views_after_push(ledger.transactions@, row);
    }
    ledger.transactions.push(row);
    match recalculate_account_balance(ledger, created.account_id.as_str()) {
        Ok(()) => Ok(created),
        Err(e) => {
            let ghost unkept = ledger.transactions@;
            ledger.transactions.pop();
            proof {
                assert(views_of(unkept) == views_of(old(ledger).transactions@).push(created@));
                assert(ledger.transactions@ == unkept.drop_last());
                assert forall|j: int| 0 <= j < unkept.len() - 1 implies views_of(
                    unkept.drop_last(),
                )[j] == views_of(old(ledger).transactions@)[j] by {
                    assert(views_of(unkept)[j] == unkept[j]@);
                }
                assert(views_of(ledger.transactions@) =~= views_of(old(ledger).transactions@));
            }
            Err(e)
        },
    }
}

/// Creates a transaction and recalculates the balance of its account,
/// as one change that is kept whole or not at all. The id of the new
/// transaction is drawn at random; what follows from it is what
/// `create_transaction_with_id` does.
pub fn create_transaction(
    ledger: &mut Ledger,
    account_id: String,
    category_id: String,
    amount: i64,
    transaction_type: String,
    description: String,
    date: String,
) -> (r: Result<Transaction, LedgerError>)
    ensures
        exists|id: Seq<char>|
            (outcome_view(r), final(ledger)@) == create_transaction_spec(
                old(ledger)@,
                #[trigger] new_transaction(
                    id,
                    account_id@,
                    category_id@,
                    amount as int,
                    transaction_type@,
                    description@,
                    date@,
                ),
            ),
{
    let id = fresh_id();
    create_transaction_with_id(
        ledger,
        id,
        account_id,
        category_id,
        amount,
        transaction_type,
        description,
        date,
    )
}

/// The row that a transaction becomes when it is changed: each field
/// that is given takes the place of the one before, the others stay.
pub open spec fn merged_transaction(
    existing: TransactionView,
    account_id: Option<Seq<char>>,
    category_id: Option<Seq<char>>,
    amount: Option<int>,
    transaction_type: Option<Seq<char>>,
    description: Option<Seq<char>>,
    date: Option<Seq<char>>,
) -> TransactionView {
    TransactionView {
        id: existing.id,
        account_id: account_id.unwrap_or(existing.account_id),
        category_id: category_id.unwrap_or(existing.category_id),
        amount: amount.unwrap_or(existing.amount),
        transaction_type: transaction_type.unwrap_or(existing.transaction_type),
        description: description.unwrap_or(existing.description),
        date: date.unwrap_or(existing.date),
        notes: existing.notes,
        created_at: existing.created_at,
    }
}

/// What putting `row` in the place of the transaction with the id
/// gives, and the ledger after it.
///
/// Fails with `TransactionNotFound` where no transaction has the id,
/// with `NonPositiveAmount` or `UnknownTransactionType` where the row
/// breaks that rule, with `TypeMismatch` where the category of the row
/// is there and is of another type than the row, and with
/// `AmountOverflow` where the balance of an account it touches would
/// not fit. A failure leaves the ledger as it was. Otherwise the row
/// takes the place of the first transaction with the id, the balance
/// of the account it was on is recalculated, and,
/// where the account has changed, the balance of the account it is on
/// now.
pub open spec fn replace_transaction_spec(pre: LedgerView, id: Seq<char>, row: TransactionView) -> (
    Result<TransactionView, LedgerError>,
    LedgerView,
) {
    match position(pre.transactions, id) {
        None => (Err(LedgerError::TransactionNotFound), pre),
        Some(i) => {
            let before = pre.transactions[i].account_id;
            let written = LedgerView { transactions: pre.transactions.update(i, row), ..pre };
            if row.amount <= 0 {
                (Err(LedgerError::NonPositiveAmount), pre)
            } else if !is_transaction_type(row.transaction_type) {
                (Err(LedgerError::UnknownTransactionType), pre)
            } else if position(pre.categories, row.category_id) is Some
                && pre.categories[position(pre.categories, row.category_id)->0].category_type
                != row.transaction_type {
                (Err(LedgerError::TypeMismatch), pre)
            } else if !balance_fits(written.transactions, before) || !balance_fits(
                written.transactions,
                row.account_id,
            ) {
                (Err(LedgerError::AmountOverflow), pre)
            } else if row.account_id == before {
                (Ok(row), recalculated(written, before))
            } else {
                (Ok(row), recalculated(recalculated(written, before), row.account_id))
            }
        },
    }
}

/// What changing the transaction with the id gives, and the ledger
/// after it: the fields that are given are merged over the row, and the
/// merged row takes the place of the old one as
/// `replace_transaction_spec` says.
pub open spec fn update_transaction_spec(
    pre: LedgerView,
    id: Seq<char>,
    account_id: Option<Seq<char>>,
    category_id: Option<Seq<char>>,
    amount: Option<int>,
    transaction_type: Option<Seq<char>>,
    description: Option<Seq<char>>,
    date: Option<Seq<char>>,
) -> (Result<TransactionView, LedgerError>, LedgerView) {
    match position(pre.transactions, id) {
        None => (Err(LedgerError::TransactionNotFound), pre),
        Some(i) => replace_transaction_spec(
            pre,
            id,
            merged_transaction(
                pre.transactions[i],
                account_id,
                category_id,
                amount,
                transaction_type,
                description,
                date,
            ),
        ),
    }
}

/// The given text, or a copy of the text there was.
fn text_or(given: Option<String>, existing: &String) -> (r: String)
    ensures
        r@ == text_of(given).unwrap_or(existing@),
{
    match given {
        Some(text) => text,
        None => existing.clone(),
    }
}

/// Changes a transaction: the fields that are given take the place of
/// those of the row, the others stay. The row that results must be of
/// an amount above zero, income or expense, and of the type of its
/// category. The change and the recalculation
/// of the balances, of the account the transaction was on and of the
/// account it is on now, are kept whole or not at all.
pub fn update_transaction(
    ledger: &mut Ledger,
    id: String,
    account_id: Option<String>,
    category_id: Option<String>,
    amount: Option<i64>,
    transaction_type: Option<String>,
    description: Option<String>,
    date: Option<String>,
) -> (r: Result<Transaction, LedgerError>)
    ensures
        (outcome_view(r), final(ledger)@) == update_transaction_spec(
            old(ledger)@,
            id@,
            text_of(account_id),
            text_of(category_id),
            match amount {
                Some(v) => Some(v as int),
                None => None,
            },
            text_of(transaction_type),
            text_of(description),
            text_of(date),
        ),
{
    let index = match find(&ledger.transactions, id.as_str()) {
        Some(i) => i,
        None => {
            return Err(LedgerError::TransactionNotFound);
        },
    };
    let existing = ledger.transactions[index].copy_of();
    let row = Transaction {
        id: existing.id.clone(),
        account_id: text_or(account_id, &existing.account_id),
        category_id: text_or(category_id, &existing.category_id),
        amount: match amount {
            Some(v) => v,
            None => existing.amount,
        },
        transaction_type: text_or(transaction_type, &existing.transaction_type),
        description: text_or(description, &existing.description),
        date: text_or(date, &existing.date),
        notes: copy_text(&existing.notes),
        created_at: existing.created_at.clone(),
    };
    if row.amount <= 0 {
        return Err(LedgerError::NonPositiveAmount);
    }
    let income = "income".to_owned();
    let expense = "expense".to_owned();
    if !(row.transaction_type == income) && !(row.transaction_type == expense) {
        return Err(LedgerError::UnknownTransactionType);
    }
    match find(&ledger.categories, row.category_id.as_str()) {
        Some(c) => {
            if !(ledger.categories[c].category_type == row.transaction_type) {
                return Err(LedgerError::TypeMismatch);
            }
        },
        None => {},
    }
    let updated = row.copy_of();
    let account_changed = !(updated.account_id == existing.account_id);
    proof {
        lemma_views_after_update(ledger.transactions@, index as int, row);
        lemma_views_after_update(
            ledger.transactions@.update(index as int, row),
            index as int,
            existing,
        );
        assert(views_of(ledger.transactions@).update(index as int, row@).update(
            index as int,
            existing@,
        ) =~= views_of(ledger.transactions@));
    }
    ledger.transactions.set(index, row);
    let before: i128 = signed_total_of(ledger, existing.account_id.as_str());
    let after: i128 = signed_total_of(ledger, updated.account_id.as_str());
    if before < i64::MIN as i128 || before > i64::MAX as i128 || after < i64::MIN as i128 || after
        > i64::MAX as i128 {
        ledger.transactions.set(index, existing);
        return Err(LedgerError::AmountOverflow);
    }
    let first = recalculate_account_balance(ledger, existing.account_id.as_str());
    if account_changed {
        let second = recalculate_account_balance(ledger, updated.account_id.as_str());
    }
    Ok(updated)
}

/// Income less expense over the transactions of an account of the
/// ledger.
fn signed_total_of(ledger: &Ledger, account_id: &str) -> (r: i128)
    ensures
        r == balance_of(ledger@.transactions, account_id@),
{
    crate::balance::signed_total(&ledger.transactions, account_id)
}

/// What deleting the transaction with the id gives, and the ledger
/// after it.
///
/// Fails with `TransactionNotFound` where no transaction has the id,
/// and with `AmountOverflow` where the balance of its account would not
/// fit; a failure leaves the ledger as it was. Otherwise the first
/// transaction with the id is gone and the balance of its account is
/// recalculated.
pub open spec fn delete_transaction_spec(pre: LedgerView, id: Seq<char>) -> (
    Result<(), LedgerError>,
    LedgerView,
) {
    match position(pre.transactions, id) {
        None => (Err(LedgerError::TransactionNotFound), pre),
        Some(i) => {
            let account_id = pre.transactions[i].account_id;
            let written = LedgerView { transactions: pre.transactions.remove(i), ..pre };
            if !balance_fits(written.transactions, account_id) {
                (Err(LedgerError::AmountOverflow), pre)
            } else {
                (Ok(()), recalculated(written, account_id))
            }
        },
    }
}

/// Deletes a transaction and recalculates the balance of its account,
/// as one change that is kept whole or not at all.
pub fn delete_transaction(ledger: &mut Ledger, id: String) -> (r: Result<(), LedgerError>)
    ensures
        (r, final(ledger)@) == delete_transaction_spec(old(ledger)@, id@),
{
    let index = match find(&ledger.transactions, id.as_str()) {
        Some(i) => i,
        None => {
            return Err(LedgerError::TransactionNotFound);
        },
    };
    proof {
        lemma_views_after_remove(ledger.transactions@, index as int);
    }
    let removed = ledger.transactions.remove(index);
    let total: i128 = signed_total_of(ledger, removed.account_id.as_str());
    if total < i64::MIN as i128 || total > i64::MAX as i128 {
        proof {
            assert(ledger.transactions@.insert(index as int, removed) =~= old(
                ledger,
            ).transactions@);
        }
        ledger.transactions.insert(index, removed);
        return Err(LedgerError::AmountOverflow);
    }
    let done = recalculate_account_balance(ledger, removed.account_id.as_str());
    Ok(())
}

/// Every account whose id is not among `excluded` has the balance that
/// its transactions give.
pub open spec fn consistent_outside(ledger: LedgerView, excluded: Set<Seq<char>>) -> bool {
    forall|i: int|
        0 <= i < ledger.accounts.len() && !excluded.contains((#[trigger] ledger.accounts[i]).id)
            ==> ledger.accounts[i].balance == balance_of(
            ledger.transactions,
            ledger.accounts[i].id,
        )
}

/// Recalculating the balance of an account makes that account
/// consistent and leaves the others as they were.
pub proof fn lemma_recalculation_restores(
    pre: LedgerView,
    account_id: Seq<char>,
    excluded: Set<Seq<char>>,
)
    requires
        keys_are_unique(pre.accounts),
        consistent_outside(pre, excluded),
        balance_fits(pre.transactions, account_id),
    ensures
        consistent_outside(recalculated(pre, account_id), excluded.remove(account_id)),
        keys_are_unique(recalculated(pre, account_id).accounts),
        recalculated(pre, account_id).transactions == pre.transactions,
{
    lemma_position_is_first(pre.accounts, account_id);
    let post = recalculated(pre, account_id);
    assert forall|i: int|
        0 <= i < post.accounts.len() && !excluded.remove(account_id).contains(
            (#[trigger] post.accounts[i]).id,
        ) implies post.accounts[i].balance == balance_of(
        post.transactions,
        post.accounts[i].id,
    ) by {
        let row = pre.accounts[i];
        if row.id == account_id {
            let first = position(pre.accounts, account_id)->0;
            assert(first == i) by {
                if first != i {
                    assert(pre.accounts[first].id == pre.accounts[i].id);
                }
            }
        } else {
            assert(!excluded.contains(row.id));
        }
    }
    assert forall|i: int, j: int| 0 <= i < j < post.accounts.len() implies (
    #[trigger] post.accounts[i]).key() != (#[trigger] post.accounts[j]).key() by {
        assert(pre.accounts[i].key() != pre.accounts[j].key());
    }
}

/// Creating a transaction keeps every balance equal to income less
/// expense over the transactions of its account.
pub proof fn lemma_create_transaction_keeps_balances(pre: LedgerView, row: TransactionView)
    requires
        keys_are_unique(pre.accounts),
        balances_are_consistent(pre),
    ensures
        balances_are_consistent(create_transaction_spec(pre, row).1),
        keys_are_unique(create_transaction_spec(pre, row).1.accounts),
{
    let (outcome, post) = create_transaction_spec(pre, row);
    if outcome is Ok {
        let written = LedgerView { transactions: pre.transactions.push(row), ..pre };
        let touched = Set::<Seq<char>>::empty().insert(row.account_id);
        assert forall|i: int|
            0 <= i < written.accounts.len() && !touched.contains(
                (#[trigger] written.accounts[i]).id,
            ) implies written.accounts[i].balance == balance_of(
            written.transactions,
            written.accounts[i].id,
        ) by {
            lemma_balance_after_push(pre.transactions, row, pre.accounts[i].id);
        }
        lemma_recalculation_restores(written, row.account_id, touched);
        assert(touched.remove(row.account_id) =~= Set::<Seq<char>>::empty());
    }
}

/// Changing a transaction keeps every balance equal to income less
/// expense over the transactions of its account: that of the account
/// it was on, that of the account it is on now, and those of the
/// accounts it never touched.
pub proof fn lemma_update_transaction_keeps_balances(
    pre: LedgerView,
    id: Seq<char>,
    row: TransactionView,
)
    requires
        keys_are_unique(pre.accounts),
        balances_are_consistent(pre),
    ensures
        balances_are_consistent(replace_transaction_spec(pre, id, row).1),
        keys_are_unique(replace_transaction_spec(pre, id, row).1.accounts),
{
    let (outcome, post) = replace_transaction_spec(pre, id, row);
    if outcome is Ok {
        let i = position(pre.transactions, id)->0;
        lemma_position_is_first(pre.transactions, id);
        let before = pre.transactions[i].account_id;
        let written = LedgerView { transactions: pre.transactions.update(i, row), ..pre };
        let touched = Set::<Seq<char>>::empty().insert(before).insert(row.account_id);
        assert forall|k: int|
            0 <= k < written.accounts.len() && !touched.contains(
                (#[trigger] written.accounts[k]).id,
            ) implies written.accounts[k].balance == balance_of(
            written.transactions,
            written.accounts[k].id,
        ) by {
            lemma_balance_after_update(pre.transactions, i, row, pre.accounts[k].id);
        }
        lemma_recalculation_restores(written, before, touched);
        let first = recalculated(written, before);
        if row.account_id == before {
            assert(touched.remove(before) =~= Set::<Seq<char>>::empty());
        } else {
            lemma_recalculation_restores(first, row.account_id, touched.remove(before));
            assert(touched.remove(before).remove(row.account_id) =~= Set::<Seq<char>>::empty());
        }
    }
}

/// Deleting a transaction keeps every balance equal to income less
/// expense over the transactions of its account.
pub proof fn lemma_delete_transaction_keeps_balances(pre: LedgerView, id: Seq<char>)
    requires
        keys_are_unique(pre.accounts),
        balances_are_consistent(pre),
    ensures
        balances_are_consistent(delete_transaction_spec(pre, id).1),
        keys_are_unique(delete_transaction_spec(pre, id).1.accounts),
{
    let (outcome, post) = delete_transaction_spec(pre, id);
    if outcome is Ok {
        let i = position(pre.transactions, id)->0;
        lemma_position_is_first(pre.transactions, id);
        let account_id = pre.transactions[i].account_id;
        let written = LedgerView { transactions: pre.transactions.remove(i), ..pre };
        let touched = Set::<Seq<char>>::empty().insert(account_id);
        assert forall|k: int|
            0 <= k < written.accounts.len() && !touched.contains(
                (#[trigger] written.accounts[k]).id,
            ) implies written.accounts[k].balance == balance_of(
            written.transactions,
            written.accounts[k].id,
        ) by {
            lemma_balance_after_remove(pre.transactions, i, pre.accounts[k].id);
        }
        lemma_recalculation_restores(written, account_id, touched);
        assert(touched.remove(account_id) =~= Set::<Seq<char>>::empty());
    }
}

/// Changing a transaction by merging fields over it keeps every
/// balance equal to income less expense over the transactions of its
/// account.
pub proof fn lemma_update_keeps_balances(
    pre: LedgerView,
    id: Seq<char>,
    account_id: Option<Seq<char>>,
    category_id: Option<Seq<char>>,
    amount: Option<int>,
    transaction_type: Option<Seq<char>>,
    description: Option<Seq<char>>,
    date: Option<Seq<char>>,
)
    requires
        keys_are_unique(pre.accounts),
        balances_are_consistent(pre),
    ensures
        balances_are_consistent(
            update_transaction_spec(
                pre,
                id,
                account_id,
                category_id,
                amount,
                transaction_type,
                description,
                date,
            ).1,
        ),
{
    if let Some(i) = position(pre.transactions, id) {
        lemma_update_transaction_keeps_balances(
            pre,
            id,
            merged_transaction(
                pre.transactions[i],
                account_id,
                category_id,
                amount,
                transaction_type,
                description,
                date,
            ),
        );
    }
}

/// Creating a transaction keeps the ids of every table apart.
pub proof fn lemma_create_transaction_keeps_ids_unique(pre: LedgerView, row: TransactionView)
    requires
        pre.ids_are_unique(),
    ensures
        create_transaction_spec(pre, row).1.ids_are_unique(),
{
    if create_transaction_spec(pre, row).0 is Ok {
        let written = LedgerView { transactions: pre.transactions.push(row), ..pre };
        lemma_unique_after_push(pre.transactions, row);
        lemma_recalculation_restores(written, row.account_id, Set::<Seq<char>>::full());
    }
}

/// Changing a transaction keeps the ids of every table apart.
pub proof fn lemma_update_transaction_keeps_ids_unique(
    pre: LedgerView,
    id: Seq<char>,
    row: TransactionView,
)
    requires
        pre.ids_are_unique(),
        row.id == id,
    ensures
        replace_transaction_spec(pre, id, row).1.ids_are_unique(),
{
    if replace_transaction_spec(pre, id, row).0 is Ok {
        let i = position(pre.transactions, id)->0;
        lemma_position_is_first(pre.transactions, id);
        let before = pre.transactions[i].account_id;
        let written = LedgerView { transactions: pre.transactions.update(i, row), ..pre };
        lemma_unique_after_update(pre.transactions, i, row);
        lemma_recalculation_restores(written, before, Set::<Seq<char>>::full());
        lemma_recalculation_restores(
            recalculated(written, before),
            row.account_id,
            Set::<Seq<char>>::full().remove(before),
        );
    }
}

/// Deleting a transaction keeps the ids of every table apart, and
/// leaves no transaction with the id.
pub proof fn lemma_delete_transaction_keeps_ids_unique(pre: LedgerView, id: Seq<char>)
    requires
        pre.ids_are_unique(),
    ensures
        delete_transaction_spec(pre, id).1.ids_are_unique(),
        delete_transaction_spec(pre, id).0 is Ok ==> position(
            delete_transaction_spec(pre, id).1.transactions,
            id,
        ) is None,
{
    if delete_transaction_spec(pre, id).0 is Ok {
        let i = position(pre.transactions, id)->0;
        lemma_position_is_first(pre.transactions, id);
        let written = LedgerView { transactions: pre.transactions.remove(i), ..pre };
        lemma_unique_after_remove(pre.transactions, i);
        lemma_recalculation_restores(
            written,
            pre.transactions[i].account_id,
            Set::<Seq<char>>::full(),
        );
    }
}

/// The transaction with the id, or `None` where there is none.
pub fn get_by_id(ledger: &Ledger, id: &str) -> (r: Option<Transaction>)
    ensures
        match r {
            Some(row) => crate::ledger::lookup(ledger@.transactions, id@) == Some(row@),
            None => crate::ledger::lookup(ledger@.transactions, id@) is None,
        },
{
    match find(&ledger.transactions, id) {
        Some(i) => Some(ledger.transactions[i].copy_of()),
        None => None,
    }
}

/// The account of the transaction with the id; `MissingRow` where no
/// transaction has the id.
pub fn get_account_id_for_transaction(ledger: &Ledger, transaction_id: &str) -> (r: Result<
    String,
    LedgerError,
>)
    ensures
        match r {
            Ok(account_id) => crate::ledger::lookup(ledger@.transactions, transaction_id@)
                matches Some(row) && row.account_id == account_id@,
            Err(e) => e == LedgerError::MissingRow && crate::ledger::lookup(
                ledger@.transactions,
                transaction_id@,
            ) is None,
        },
{
    match find(&ledger.transactions, transaction_id) {
        Some(i) => Ok(ledger.transactions[i].account_id.clone()),
        None => Err(LedgerError::MissingRow),
    }
}

/// Whether the transaction is of the type of its category, where its
/// category is there.
pub open spec fn type_matches(ledger: LedgerView, row: TransactionView) -> bool {
    position(ledger.categories, row.category_id) matches Some(c)
        ==> ledger.categories[c].category_type == row.transaction_type
}

/// Every transaction is of the type of its category.
pub open spec fn types_match_categories(ledger: LedgerView) -> bool {
    forall|i: int|
        0 <= i < ledger.transactions.len() ==> type_matches(
            ledger,
            #[trigger] ledger.transactions[i],
        )
}

/// Creating, changing and deleting a transaction keep every transaction
/// of the type of its category: no row is stored whose type is another
/// than that of its category.
pub proof fn lemma_transaction_changes_keep_types(
    pre: LedgerView,
    row: TransactionView,
    id: Seq<char>,
    replacement: TransactionView,
)
    requires
        types_match_categories(pre),
    ensures
        types_match_categories(create_transaction_spec(pre, row).1),
        types_match_categories(replace_transaction_spec(pre, id, replacement).1),
        types_match_categories(delete_transaction_spec(pre, id).1),
{
    let created = create_transaction_spec(pre, row).1;
    assert forall|k: int| 0 <= k < created.transactions.len() implies type_matches(
        created,
        #[trigger] created.transactions[k],
    ) by {
        if k < pre.transactions.len() {
            assert(type_matches(pre, pre.transactions[k]));
        }
    }
    let replaced = replace_transaction_spec(pre, id, replacement).1;
    assert forall|k: int| 0 <= k < replaced.transactions.len() implies type_matches(
        replaced,
        #[trigger] replaced.transactions[k],
    ) by {
        assert(type_matches(pre, pre.transactions[k]));
    }
    let deleted = delete_transaction_spec(pre, id).1;
    assert forall|k: int| 0 <= k < deleted.transactions.len() implies type_matches(
        deleted,
        #[trigger] deleted.transactions[k],
    ) by {
        if deleted.transactions.len() < pre.transactions.len() {
            let at = position(pre.transactions, id)->0;
            lemma_position_is_first(pre.transactions, id);
            let from = if k < at {
                k
            } else {
                k + 1
            };
            assert(type_matches(pre, pre.transactions[from]));
        } else {
            assert(type_matches(pre, pre.transactions[k]));
        }
    }
}

} // verus!
