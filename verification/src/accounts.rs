//! Accounts: how one is created, changed, archived and deleted. A
//! credit card always carries a credit limit and a billing day.

use crate::balance::{balance_of, balances_are_consistent};
use crate::errors::LedgerError;
use crate::ledger::{
    find, fresh_id, lemma_position_is_first, lemma_unique_after_push, lemma_unique_after_remove,
    lemma_unique_after_update, lookup, outcome_view, position, Ledger, LedgerView,
};
use crate::models::{
    int_of_i32, int_of_i64, lemma_views_after_push, lemma_views_after_update, text_of, Account,
    AccountView, TransactionView,
};
use vstd::prelude::*;

verus! {

/// Whether the account is a credit card.
pub open spec fn is_credit_card(account_type: Seq<char>) -> bool {
    account_type == "credit_card"@
}

/// The row of an account that has just been created: active, with a
/// balance of zero, and without the time that the store will stamp on
/// it.
pub open spec fn new_account(
    id: Seq<char>,
    name: Seq<char>,
    account_type: Seq<char>,
    currency_id: Seq<char>,
    credit_limit: Option<int>,
    billing_day: Option<int>,
) -> AccountView {
    AccountView {
        id,
        name,
        account_type,
        currency_id,
        balance: 0,
        credit_limit,
        billing_day,
        is_active: 1,
        created_at: Seq::empty(),
    }
}

/// What creating an account gives, and the ledger after it.
///
/// A credit card without a credit limit is refused with
/// `MissingCreditLimit`, one without a billing day with
/// `MissingBillingDay`. The store refuses an id that is taken
/// (`DuplicateId`). A failure leaves the ledger as it was; otherwise the
/// account is added.
pub open spec fn create_account_spec(pre: LedgerView, row: AccountView) -> (
    Result<AccountView, LedgerError>,
    LedgerView,
) {
    if is_credit_card(row.account_type) && row.credit_limit is None {
        (Err(LedgerError::MissingCreditLimit), pre)
    } else if is_credit_card(row.account_type) && row.billing_day is None {
        (Err(LedgerError::MissingBillingDay), pre)
    } else if position(pre.accounts, row.id) is Some {
        (Err(LedgerError::DuplicateId), pre)
    } else {
        (Ok(row), LedgerView { accounts: pre.accounts.push(row), ..pre })
    }
}

/// Creates an account under the given id: see `create_account_spec`.
pub fn create_account_with_id(
    ledger: &mut Ledger,
    id: String,
    name: String,
    account_type: String,
    currency_id: String,
    credit_limit: Option<i64>,
    billing_day: Option<i32>,
) -> (r: Result<Account, LedgerError>)
    ensures
        (outcome_view(r), final(ledger)@) == create_account_spec(
            old(ledger)@,
            new_account(
                id@,
                name@,
                account_type@,
                currency_id@,
                int_of_i64(credit_limit),
                int_of_i32(billing_day),
            ),
        ),
{
    let credit_card = "credit_card".to_owned();
    if account_type == credit_card {
        if credit_limit.is_none() {
            return Err(LedgerError::MissingCreditLimit);
        }
        if billing_day.is_none() {
            return Err(LedgerError::MissingBillingDay);
        }
    }
    if find(&ledger.accounts, id.as_str()).is_some() {
        return Err(LedgerError::DuplicateId);
    }
    let row = Account {
        id,
        name,
        account_type,
        currency_id,
        balance: 0,
        credit_limit,
        billing_day,
        is_active: 1,
        created_at: String::new(),
    };
    let created = row.copy_of();
    proof {
        lemma_views_after_push(ledger.accounts@, row);
    }
    ledger.accounts.push(row);
    Ok(created)
}

/// Creates an account; a credit card needs a credit limit and a billing
/// day. The id of the new account is drawn at random; what follows
/// from it is what `create_account_with_id` does.
pub fn create_account(
    ledger: &mut Ledger,
    name: String,
    account_type: String,
    currency_id: String,
    credit_limit: Option<i64>,
    billing_day: Option<i32>,
) -> (r: Result<Account, LedgerError>)
    ensures
        exists|id: Seq<char>|
            (outcome_view(r), final(ledger)@) == create_account_spec(
                old(ledger)@,
                #[trigger] new_account(
                    id,
                    name@,
                    account_type@,
                    currency_id@,
                    int_of_i64(credit_limit),
                    int_of_i32(billing_day),
                ),
            ),
{
    let id = fresh_id();
    create_account_with_id(ledger, id, name, account_type, currency_id, credit_limit, billing_day)
}

/// The account with the id; `AccountNotFound` where there is none.
pub fn get_account(ledger: &Ledger, id: String) -> (r: Result<Account, LedgerError>)
    ensures
        match r {
            Ok(account) => lookup(ledger@.accounts, id@) == Some(account@),
            Err(e) => e == LedgerError::AccountNotFound && lookup(ledger@.accounts, id@) is None,
        },
{
    match find(&ledger.accounts, id.as_str()) {
        Some(i) => Ok(ledger.accounts[i].copy_of()),
        None => Err(LedgerError::AccountNotFound),
    }
}

/// The row that an account becomes when it is changed: each field that
/// is given takes the place of the one before, the others stay. The
/// type of an account never changes.
pub open spec fn merged_account(
    existing: AccountView,
    name: Option<Seq<char>>,
    currency_id: Option<Seq<char>>,
    credit_limit: Option<int>,
    billing_day: Option<int>,
) -> AccountView {
    AccountView {
        name: name.unwrap_or(existing.name),
        currency_id: currency_id.unwrap_or(existing.currency_id),
        credit_limit: if credit_limit is Some {
            credit_limit
        } else {
            existing.credit_limit
        },
        billing_day: if billing_day is Some {
            billing_day
        } else {
            existing.billing_day
        },
        ..existing
    }
}

/// What changing the account with the id gives, and the ledger after
/// it.
///
/// Fails with `AccountNotFound` where no account has the id, and, for
/// a credit card that would be left without one, with
/// `MissingCreditLimit` or `MissingBillingDay`. A failure leaves the
/// ledger as it was; otherwise the merged row takes the place of the
/// account.
pub open spec fn update_account_spec(
    pre: LedgerView,
    id: Seq<char>,
    name: Option<Seq<char>>,
    currency_id: Option<Seq<char>>,
    credit_limit: Option<int>,
    billing_day: Option<int>,
) -> (Result<AccountView, LedgerError>, LedgerView) {
    match position(pre.accounts, id) {
        None => (Err(LedgerError::AccountNotFound), pre),
        Some(at) => {
            let row = merged_account(
                pre.accounts[at],
                name,
                currency_id,
                credit_limit,
                billing_day,
            );
            if is_credit_card(row.account_type) && row.credit_limit is None {
                (Err(LedgerError::MissingCreditLimit), pre)
            } else if is_credit_card(row.account_type) && row.billing_day is None {
                (Err(LedgerError::MissingBillingDay), pre)
            } else {
                (Ok(row), LedgerView { accounts: pre.accounts.update(at, row), ..pre })
            }
        },
    }
}

/// Changes the name, the currency, the credit limit and the billing day
/// of an account; what is not given stays. A credit card keeps its
/// credit limit and its billing day.
pub fn update_account(
    ledger: &mut Ledger,
    id: String,
    name: Option<String>,
    currency_id: Option<String>,
    credit_limit: Option<i64>,
    billing_day: Option<i32>,
) -> (r: Result<Account, LedgerError>)
    ensures
        (outcome_view(r), final(ledger)@) == update_account_spec(
            old(ledger)@,
            id@,
            text_of(name),
            text_of(currency_id),
            int_of_i64(credit_limit),
            int_of_i32(billing_day),
        ),
{
    let at = match find(&ledger.accounts, id.as_str()) {
        Some(at) => at,
        None => {
            return Err(LedgerError::AccountNotFound);
        },
    };
    let existing = &ledger.accounts[at];
    let final_limit = if credit_limit.is_some() {
        credit_limit
    } else {
        existing.credit_limit
    };
    let final_day = if billing_day.is_some() {
        billing_day
    } else {
        existing.billing_day
    };
    let credit_card = "credit_card".to_owned();
    if existing.account_type == credit_card {
        if final_limit.is_none() {
            return Err(LedgerError::MissingCreditLimit);
        }
        if final_day.is_none() {
            return Err(LedgerError::MissingBillingDay);
        }
    }
    let row = Account {
        id: existing.id.clone(),
        name: match name {
            Some(text) => text,
            None => existing.name.clone(),
        },
        account_type: existing.account_type.clone(),
        currency_id: match currency_id {
            Some(text) => text,
            None => existing.currency_id.clone(),
        },
        balance: existing.balance,
        credit_limit: final_limit,
        billing_day: final_day,
        is_active: existing.is_active,
        created_at: existing.created_at.clone(),
    };
    let updated = row.copy_of();
    proof {
        lemma_views_after_update(ledger.accounts@, at as int, row);
    }
    ledger.accounts.set(at, row);
    Ok(updated)
}

/// The ledger with the first account with the id archived; unchanged
/// where no account has the id.
pub open spec fn archive_account_spec(pre: LedgerView, id: Seq<char>) -> LedgerView {
    match position(pre.accounts, id) {
        Some(at) => LedgerView {
            accounts: pre.accounts.update(at, AccountView { is_active: 0, ..pre.accounts[at] }),
            ..pre
        },
        None => pre,
    }
}

/// Archives an account: it stays in the ledger with its transactions,
/// and takes no new ones. An id that no account has changes nothing.
pub fn archive_account(ledger: &mut Ledger, id: String)
    ensures
        final(ledger)@ == archive_account_spec(old(ledger)@, id@),
{
    match find(&ledger.accounts, id.as_str()) {
        Some(at) => {
            let mut row = ledger.accounts[at].copy_of();
            row.is_active = 0;
            proof {
                lemma_views_after_update(ledger.accounts@, at as int, row);
            }
            ledger.accounts.set(at, row);
        },
        None => {},
    }
}

/// How many transactions the account has.
pub open spec fn transaction_count(transactions: Seq<TransactionView>, account_id: Seq<char>) -> int
    decreases transactions.len(),
{
    if transactions.len() == 0 {
        0
    } else {
        transaction_count(transactions.drop_last(), account_id) + if transactions.last().account_id
            == account_id {
            1int
        } else {
            0int
        }
    }
}

/// Whether the account has a transaction.
pub fn has_transactions(ledger: &Ledger, account_id: &str) -> (r: bool)
    ensures
        r == (transaction_count(ledger@.transactions, account_id@) > 0),
{
    let wanted = account_id.to_owned();
    let mut found = false;
    let mut i: usize = 0;
    while i < ledger.transactions.len()
        invariant
            i <= ledger.transactions.len(),
            wanted@ == account_id@,
            0 <= transaction_count(ledger@.transactions.take(i as int), account_id@),
            found == (transaction_count(ledger@.transactions.take(i as int), account_id@) > 0),
        decreases ledger.transactions.len() - i,
    {
        proof {
            assert(ledger@.transactions.take(i + 1).drop_last() =~= ledger@.transactions.take(
                i as int,
            ));
        }
        if ledger.transactions[i].account_id == wanted {
            found = true;
        }
        i = i + 1;
    }
    proof {
        assert(ledger@.transactions.take(ledger.transactions.len() as int)
            =~= ledger@.transactions);
    }
    found
}

/// What deleting the account with the id gives, and the ledger after
/// it.
///
/// Fails with `AccountHasTransactions`, leaving the ledger as it was,
/// where the account has a transaction: such an account is archived,
/// not deleted. Otherwise the first account with the id is gone; an id
/// that no account has changes nothing.
pub open spec fn delete_account_spec(pre: LedgerView, id: Seq<char>) -> (
    Result<(), LedgerError>,
    LedgerView,
) {
    if transaction_count(pre.transactions, id) > 0 {
        (Err(LedgerError::AccountHasTransactions), pre)
    } else {
        match position(pre.accounts, id) {
            Some(at) => (Ok(()), LedgerView { accounts: pre.accounts.remove(at), ..pre }),
            None => (Ok(()), pre),
        }
    }
}

/// Deletes an account for good, unless it has transactions.
pub fn delete_account(ledger: &mut Ledger, id: String) -> (r: Result<(), LedgerError>)
    ensures
        (r, final(ledger)@) == delete_account_spec(old(ledger)@, id@),
{
    if has_transactions(ledger, id.as_str()) {
        return Err(LedgerError::AccountHasTransactions);
    }
    match find(&ledger.accounts, id.as_str()) {
        Some(at) => {
            proof {
                crate::models::lemma_views_after_remove(ledger.accounts@, at as int);
            }
            ledger.accounts.remove(at);
        },
        None => {},
    }
    Ok(())
}

/// Creating, changing, archiving and deleting an account keep the ids
/// of every table apart, and touch no other table.
pub proof fn lemma_account_changes_keep_ids_unique(
    pre: LedgerView,
    row: AccountView,
    id: Seq<char>,
    name: Option<Seq<char>>,
    currency_id: Option<Seq<char>>,
    credit_limit: Option<int>,
    billing_day: Option<int>,
)
    requires
        pre.ids_are_unique(),
    ensures
        create_account_spec(pre, row).1.ids_are_unique(),
        update_account_spec(
            pre,
            id,
            name,
            currency_id,
            credit_limit,
            billing_day,
        ).1.ids_are_unique(),
        archive_account_spec(pre, id).ids_are_unique(),
        delete_account_spec(pre, id).1.ids_are_unique(),
{
    if create_account_spec(pre, row).0 is Ok {
        lemma_unique_after_push(pre.accounts, row);
    }
    if let Some(at) = position(pre.accounts, id) {
        lemma_position_is_first(pre.accounts, id);
        lemma_unique_after_update(
            pre.accounts,
            at,
            merged_account(pre.accounts[at], name, currency_id, credit_limit, billing_day),
        );
        lemma_unique_after_update(
            pre.accounts,
            at,
            AccountView { is_active: 0, ..pre.accounts[at] },
        );
        lemma_unique_after_remove(pre.accounts, at);
    }
}

/// A credit card that has its credit limit and its billing day keeps
/// them through every change: no change takes them away.
pub proof fn lemma_credit_card_keeps_limit_and_day(
    pre: LedgerView,
    id: Seq<char>,
    name: Option<Seq<char>>,
    currency_id: Option<Seq<char>>,
    credit_limit: Option<int>,
    billing_day: Option<int>,
)
    ensures
        update_account_spec(pre, id, name, currency_id, credit_limit, billing_day).0 matches Ok(
            account,
        ) ==> (is_credit_card(account.account_type) ==> account.credit_limit is Some
            && account.billing_day is Some),
{
}

/// An account that has just been created as a credit card has a credit
/// limit and a billing day.
pub proof fn lemma_new_credit_card_has_limit_and_day(pre: LedgerView, row: AccountView)
    ensures
        create_account_spec(pre, row).0 matches Ok(account) ==> (is_credit_card(
            account.account_type,
        ) ==> account.credit_limit is Some && account.billing_day is Some),
{
}

/// Whether every transaction belongs to an account that exists.
pub open spec fn transactions_have_accounts(ledger: LedgerView) -> bool {
    forall|i: int|
        0 <= i < ledger.transactions.len() ==> position(
            ledger.accounts,
            (#[trigger] ledger.transactions[i]).account_id,
        ) is Some
}

/// An account without transactions has a balance of zero.
pub proof fn lemma_balance_without_transactions(
    transactions: Seq<TransactionView>,
    account_id: Seq<char>,
)
    requires
        forall|i: int|
            0 <= i < transactions.len() ==> (#[trigger] transactions[i]).account_id != account_id,
    ensures
        balance_of(transactions, account_id) == 0,
    decreases transactions.len(),
{
    if transactions.len() > 0 {
        let front = transactions.drop_last();
        assert forall|i: int| 0 <= i < front.len() implies (#[trigger] front[i]).account_id
            != account_id by {
            assert(transactions[i].account_id != account_id);
        }
        lemma_balance_without_transactions(front, account_id);
        assert(transactions[transactions.len() - 1].account_id != account_id);
    }
}

/// Creating, changing, archiving and deleting an account keep every
/// balance equal to income less expense over the transactions of its
/// account: a new account starts at zero and has no transactions, and
/// no other change touches a balance or a transaction.
pub proof fn lemma_account_changes_keep_balances(
    pre: LedgerView,
    row: AccountView,
    id: Seq<char>,
    name: Option<Seq<char>>,
    currency_id: Option<Seq<char>>,
    credit_limit: Option<int>,
    billing_day: Option<int>,
)
    requires
        balances_are_consistent(pre),
        transactions_have_accounts(pre),
        row.balance == 0,
    ensures
        balances_are_consistent(create_account_spec(pre, row).1),
        balances_are_consistent(
            update_account_spec(pre, id, name, currency_id, credit_limit, billing_day).1,
        ),
        balances_are_consistent(archive_account_spec(pre, id)),
        balances_are_consistent(delete_account_spec(pre, id).1),
{
    if create_account_spec(pre, row).0 is Ok {
        let post = create_account_spec(pre, row).1;
        assert forall|i: int| 0 <= i < pre.transactions.len() implies (
        #[trigger] pre.transactions[i]).account_id != row.id by {}
        lemma_balance_without_transactions(pre.transactions, row.id);
        assert forall|i: int| 0 <= i < post.accounts.len() implies (
        #[trigger] post.accounts[i]).balance == balance_of(
            post.transactions,
            post.accounts[i].id,
        ) by {
            if i < pre.accounts.len() {
                assert(post.accounts[i] == pre.accounts[i]);
            }
        }
    }
    if let Some(at) = position(pre.accounts, id) {
        lemma_position_is_first(pre.accounts, id);
        let updated = update_account_spec(pre, id, name, currency_id, credit_limit, billing_day).1;
        assert forall|i: int| 0 <= i < updated.accounts.len() implies (
        #[trigger] updated.accounts[i]).balance == balance_of(
            updated.transactions,
            updated.accounts[i].id,
        ) by {
            assert(pre.accounts[i].balance == balance_of(pre.transactions, pre.accounts[i].id));
        }
        let archived = archive_account_spec(pre, id);
        assert forall|i: int| 0 <= i < archived.accounts.len() implies (
        #[trigger] archived.accounts[i]).balance == balance_of(
            archived.transactions,
            archived.accounts[i].id,
        ) by {
            assert(pre.accounts[i].balance == balance_of(pre.transactions, pre.accounts[i].id));
        }
        let deleted = delete_account_spec(pre, id).1;
        assert forall|i: int| 0 <= i < deleted.accounts.len() implies (
        #[trigger] deleted.accounts[i]).balance == balance_of(
            deleted.transactions,
            deleted.accounts[i].id,
        ) by {
            if deleted.accounts.len() < pre.accounts.len() {
                let from = if i < at {
                    i
                } else {
                    i + 1
                };
                assert(pre.accounts[from].balance == balance_of(
                    pre.transactions,
                    pre.accounts[from].id,
                ));
            } else {
                assert(pre.accounts[i].balance == balance_of(
                    pre.transactions,
                    pre.accounts[i].id,
                ));
            }
        }
    }
}

} // verus!
