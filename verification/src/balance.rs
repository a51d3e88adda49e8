//! The balance of an account: what came in less what went out, over
//! the transactions of the account.

use crate::errors::LedgerError;
use crate::ledger::{find, lemma_position_is_first, position, Ledger, LedgerView};
use crate::models::{views_of, AccountView, Transaction, TransactionView};
use vstd::prelude::*;

verus! {

/// What a transaction adds to the balance of an account: its amount if
/// it is income of that account, its amount taken off if it is an
/// expense of that account, nothing otherwise.
pub open spec fn contribution(row: TransactionView, account_id: Seq<char>) -> int {
    if row.account_id != account_id {
        0
    } else if row.transaction_type == "income"@ {
        row.amount
    } else if row.transaction_type == "expense"@ {
        -row.amount
    } else {
        0
    }
}

/// Income less expense over the transactions of an account.
pub open spec fn balance_of(rows: Seq<TransactionView>, account_id: Seq<char>) -> int
    decreases rows.len(),
{
    if rows.len() == 0 {
        0
    } else {
        balance_of(rows.drop_last(), account_id) + contribution(rows.last(), account_id)
    }
}

/// The cached balance of every account is income less expense over its
/// transactions.
pub open spec fn balances_are_consistent(ledger: LedgerView) -> bool {
    forall|i: int|
        0 <= i < ledger.accounts.len() ==> (#[trigger] ledger.accounts[i]).balance == balance_of(
            ledger.transactions,
            ledger.accounts[i].id,
        )
}

/// The accounts with the balance of the first account with the id set
/// anew; unchanged where no account has the id.
pub open spec fn with_balance(
    accounts: Seq<AccountView>,
    account_id: Seq<char>,
    balance: int,
) -> Seq<AccountView> {
    match position(accounts, account_id) {
        Some(i) => accounts.update(i, AccountView { balance, ..accounts[i] }),
        None => accounts,
    }
}

/// One more transaction adds its contribution.
pub proof fn lemma_balance_after_push(
    rows: Seq<TransactionView>,
    row: TransactionView,
    account_id: Seq<char>,
)
    ensures
        balance_of(rows.push(row), account_id) == balance_of(rows, account_id) + contribution(
            row,
            account_id,
        ),
{
    assert(rows.push(row).drop_last() =~= rows);
}

/// A transaction that is replaced takes its contribution with it and
/// leaves that of its replacement.
pub proof fn lemma_balance_after_update(
    rows: Seq<TransactionView>,
    index: int,
    row: TransactionView,
    account_id: Seq<char>,
)
    requires
        0 <= index < rows.len(),
    ensures
        balance_of(rows.update(index, row), account_id) == balance_of(rows, account_id)
            - contribution(rows[index], account_id) + contribution(row, account_id),
    decreases rows.len(),
{
    if index == rows.len() - 1 {
        assert(rows.update(index, row).drop_last() =~= rows.drop_last());
    } else {
        lemma_balance_after_update(rows.drop_last(), index, row, account_id);
        assert(rows.update(index, row).drop_last() =~= rows.drop_last().update(index, row));
    }
}

/// A transaction that is removed takes its contribution with it.
pub proof fn lemma_balance_after_remove(
    rows: Seq<TransactionView>,
    index: int,
    account_id: Seq<char>,
)
    requires
        0 <= index < rows.len(),
    ensures
        balance_of(rows.remove(index), account_id) == balance_of(rows, account_id) - contribution(
            rows[index],
            account_id,
        ),
    decreases rows.len(),
{
    if index == rows.len() - 1 {
        assert(rows.remove(index) =~= rows.drop_last());
    } else {
        lemma_balance_after_remove(rows.drop_last(), index, account_id);
        assert(rows.remove(index).drop_last() =~= rows.drop_last().remove(index));
        assert(rows.remove(index).last() == rows.last());
    }
}

/// Income less expense over the transactions of an account, in a range
/// wide enough for any number of amounts.
pub fn signed_total(rows: &Vec<Transaction>, account_id: &str) -> (r: i128)
    ensures
        r == balance_of(views_of(rows@), account_id@),
{
    let wanted = account_id.to_owned();
    let income = "income".to_owned();
    let expense = "expense".to_owned();
    let mut total: i128 = 0;
    let mut i: usize = 0;
    while i < rows.len()
        invariant
            i <= rows.len(),
            wanted@ == account_id@,
            income@ == "income"@,
            expense@ == "expense"@,
            total == balance_of(views_of(rows@).take(i as int), account_id@),
            -(i as int) * 0x8000_0000_0000_0000 <= total <= (i as int) * 0x8000_0000_0000_0000,
        decreases rows.len() - i,
    {
        proof {
            assert(views_of(rows@).take(i + 1).drop_last() =~= views_of(rows@).take(i as int));
            assert((i as int + 1) * 0x8000_0000_0000_0000 == (i as int) * 0x8000_0000_0000_0000
                + 0x8000_0000_0000_0000) by (nonlinear_arith);
            assert((i as int + 1) * 0x8000_0000_0000_0000 <= 0x1_0000_0000_0000_0000
                * 0x8000_0000_0000_0000) by (nonlinear_arith)
                requires
                    i as int + 1 <= 0x1_0000_0000_0000_0000,
            ;
        }
        let row = &rows[i];
        if row.account_id == wanted {
            if row.transaction_type == income {
                total = total + row.amount as i128;
            } else if row.transaction_type == expense {
                total = total - row.amount as i128;
            }
        }
        i = i + 1;
    }
    proof {
        assert(views_of(rows@).take(rows.len() as int) =~= views_of(rows@));
    }
    total
}

/// What recalculating the balance of an account leaves of the ledger:
/// the first account with the id has the balance that its transactions
/// give. Nothing changes where no account has the id, or where the
/// balance does not fit an amount.
pub open spec fn recalculated(pre: LedgerView, account_id: Seq<char>) -> LedgerView {
    let balance = balance_of(pre.transactions, account_id);
    if i64::MIN <= balance <= i64::MAX {
        LedgerView { accounts: with_balance(pre.accounts, account_id, balance), ..pre }
    } else {
        pre
    }
}

/// Sets the cached balance of the account anew, to income less expense
/// over its transactions. It is called within every change that
/// touches the transactions of an account, before the change is kept.
///
/// Fails with `AmountOverflow`, and changes nothing, exactly where the
/// balance does not fit an amount. An id that no account has changes
/// nothing. Doing it twice is doing it once.
pub fn recalculate_account_balance(ledger: &mut Ledger, account_id: &str) -> (r: Result<
    (),
    LedgerError,
>)
    ensures
        final(ledger)@ == recalculated(old(ledger)@, account_id@),
        r is Ok <==> i64::MIN <= balance_of(old(ledger)@.transactions, account_id@) <= i64::MAX,
        r is Err ==> r == Err::<(), LedgerError>(LedgerError::AmountOverflow),
{
    let total: i128 = signed_total(&ledger.transactions, account_id);
    if total < i64::MIN as i128 || total > i64::MAX as i128 {
        return Err(LedgerError::AmountOverflow);
    }
    match find(&ledger.accounts, account_id) {
        Some(i) => {
            let mut account = ledger.accounts[i].copy_of();
            account.balance = total as i64;
            ledger.accounts.set(i, account);
            proof {
                assert(final(ledger)@.accounts =~= with_balance(
                    old(ledger)@.accounts,
                    account_id@,
                    total as int,
                ));
            }
        },
        None => {},
    }
    Ok(())
}

/// Recalculating a balance twice gives what recalculating it once
/// gives.
pub proof fn lemma_recalculation_is_idempotent(pre: LedgerView, account_id: Seq<char>)
    ensures
        recalculated(recalculated(pre, account_id), account_id) == recalculated(pre, account_id),
{
    let once = recalculated(pre, account_id);
    let balance = balance_of(pre.transactions, account_id);
    if i64::MIN <= balance <= i64::MAX {
        lemma_position_is_first(pre.accounts, account_id);
        match position(pre.accounts, account_id) {
            Some(i) => {
                crate::ledger::lemma_position_of_first(once.accounts, account_id, i);
                assert(once.accounts.update(i, AccountView { balance, ..once.accounts[i] })
                    =~= once.accounts);
            },
            None => {},
        }
    }
}

/// After a recalculation the account's balance is income less expense
/// over its transactions.
pub proof fn lemma_recalculated_balance(pre: LedgerView, account_id: Seq<char>)
    requires
        i64::MIN <= balance_of(pre.transactions, account_id) <= i64::MAX,
    ensures
        crate::ledger::lookup(recalculated(pre, account_id).accounts, account_id) matches Some(
            account,
        ) ==> account.balance == balance_of(
            recalculated(pre, account_id).transactions,
            account_id,
        ),
        crate::ledger::has_key(pre.accounts, account_id) ==> crate::ledger::has_key(
            recalculated(pre, account_id).accounts,
            account_id,
        ),
{
    lemma_position_is_first(pre.accounts, account_id);
    let post = recalculated(pre, account_id);
    match position(pre.accounts, account_id) {
        Some(i) => {
            crate::ledger::lemma_position_of_first(post.accounts, account_id, i);
        },
        None => {
            crate::ledger::lemma_position_of_missing(post.accounts, account_id);
        },
    }
}

/// Whether the cached balance of every account is income less expense
/// over its transactions.
pub fn has_consistent_balances(ledger: &Ledger) -> (r: bool)
    ensures
        r == balances_are_consistent(ledger@),
{
    let mut i: usize = 0;
    while i < ledger.accounts.len()
        invariant
            i <= ledger.accounts.len(),
            forall|k: int|
                0 <= k < i ==> (#[trigger] ledger@.accounts[k]).balance == balance_of(
                    ledger@.transactions,
                    ledger@.accounts[k].id,
                ),
        decreases ledger.accounts.len() - i,
    {
        let total: i128 = signed_total(&ledger.transactions, ledger.accounts[i].id.as_str());
        if total != ledger.accounts[i].balance as i128 {
            proof {
                assert(ledger@.accounts[i as int].balance != balance_of(
                    ledger@.transactions,
                    ledger@.accounts[i as int].id,
                ));
            }
            return false;
        }
        i = i + 1;
    }
    true
}

} // verus!
