//! What a request has changed of the ledger: for each table the rows
//! that are new, the rows that have changed, and the ids of the rows
//! that are gone. It is what has to be written to the store.

use crate::ledger::{
    find, keys_are_unique, lemma_unique_position, position, Keyed, Ledger, Row,
};
use crate::models::{
    lemma_views_after_push, text_of, texts, views_of, Account, Category, Debt, Installment,
    Transaction,
};
use crate::ordering::Copied;
use vstd::prelude::*;

verus! {

/// A row that can be told from another.
pub trait Comparable: View + Sized {
    /// Whether the two rows hold the same.
    fn same_as(&self, other: &Self) -> (r: bool)
        ensures
            r == (self@ == other@),
    ;
}

/// Whether two optional texts are the same.
fn same_text(first: &Option<String>, second: &Option<String>) -> (r: bool)
    ensures
        r == (text_of(*first) == text_of(*second)),
{
    match (first, second) {
        (Some(a), Some(b)) => *a == *b,
        (None, None) => true,
        _ => false,
    }
}

impl Comparable for Account {
    fn same_as(&self, other: &Account) -> (r: bool) {
        let same_limit = match (self.credit_limit, other.credit_limit) {
            (Some(a), Some(b)) => a == b,
            (None, None) => true,
            _ => false,
        };
        let same_day = match (self.billing_day, other.billing_day) {
            (Some(a), Some(b)) => a == b,
            (None, None) => true,
            _ => false,
        };
        self.id == other.id && self.name == other.name && self.account_type == other.account_type
            && self.currency_id == other.currency_id && self.balance == other.balance
            && same_limit && same_day && self.is_active == other.is_active && self.created_at
            == other.created_at
    }
}

impl Comparable for Category {
    fn same_as(&self, other: &Category) -> (r: bool) {
        self.id == other.id && self.name == other.name && self.category_type
            == other.category_type && same_text(&self.icon, &other.icon) && same_text(
            &self.parent_id,
            &other.parent_id,
        ) && self.is_active == other.is_active && self.created_at == other.created_at
    }
}

impl Comparable for Transaction {
    fn same_as(&self, other: &Transaction) -> (r: bool) {
        self.id == other.id && self.account_id == other.account_id && self.category_id
            == other.category_id && self.amount == other.amount && self.transaction_type
            == other.transaction_type && self.description == other.description && self.date
            == other.date && same_text(&self.notes, &other.notes) && self.created_at
            == other.created_at
    }
}

impl Comparable for Debt {
    fn same_as(&self, other: &Debt) -> (r: bool) {
        self.id == other.id && self.account_id == other.account_id && self.description
            == other.description && self.original_amount == other.original_amount
            && self.total_installments == other.total_installments && self.paid_installments
            == other.paid_installments && self.monthly_payment == other.monthly_payment
            && self.interest_rate_bits == other.interest_rate_bits && self.start_date
            == other.start_date && self.is_active == other.is_active && same_text(
            &self.notes,
            &other.notes,
        ) && self.created_at == other.created_at
    }
}

impl Comparable for Installment {
    fn same_as(&self, other: &Installment) -> (r: bool) {
        self.id == other.id && self.debt_id == other.debt_id && self.installment_number
            == other.installment_number && self.due_date == other.due_date && self.amount
            == other.amount && self.status == other.status && same_text(
            &self.actual_payment_date,
            &other.actual_payment_date,
        ) && same_text(&self.transaction_id, &other.transaction_id) && self.created_at
            == other.created_at
    }
}

impl Copied for Installment {
    fn duplicate(&self) -> (r: Installment) {
        self.copy_of()
    }
}

/// The rows of `after` whose id no row of `before` has, in their order.
pub open spec fn inserted_rows<V: Keyed>(before: Seq<V>, after: Seq<V>) -> Seq<V>
    decreases after.len(),
{
    if after.len() == 0 {
        Seq::empty()
    } else {
        let front = inserted_rows(before, after.drop_last());
        if position(before, after.last().key()) is None {
            front.push(after.last())
        } else {
            front
        }
    }
}

/// The rows of `after` that hold something else than the row of
/// `before` with their id, in their order.
pub open spec fn updated_rows<V: Keyed>(before: Seq<V>, after: Seq<V>) -> Seq<V>
    decreases after.len(),
{
    if after.len() == 0 {
        Seq::empty()
    } else {
        let front = updated_rows(before, after.drop_last());
        match position(before, after.last().key()) {
            Some(at) => if before[at] != after.last() {
                front.push(after.last())
            } else {
                front
            },
            None => front,
        }
    }
}

/// The ids of the rows of `before` whose id no row of `after` has, in
/// their order.
pub open spec fn deleted_ids<V: Keyed>(before: Seq<V>, after: Seq<V>) -> Seq<Seq<char>>
    decreases before.len(),
{
    if before.len() == 0 {
        Seq::empty()
    } else {
        let front = deleted_ids(before.drop_last(), after);
        if position(after, before.last().key()) is None {
            front.push(before.last().key())
        } else {
            front
        }
    }
}

/// What has changed of one table.
pub struct TableChanges<R> {
    /// The rows that are new.
    pub inserted: Vec<R>,
    /// The rows that were there and hold something else now.
    pub updated: Vec<R>,
    /// The ids of the rows that are gone.
    pub deleted: Vec<String>,
}

/// What has changed of a table between `before` and `after`: the rows
/// of `after` with an id that is new, the rows of `after` that differ
/// from the row of `before` with their id, and the ids of `before` that
/// `after` no longer has.
pub fn table_changes<R: Row + Copied + Comparable>(
    before: &Vec<R>,
    after: &Vec<R>,
) -> (r: TableChanges<R>) where R::V: Keyed
    ensures
        views_of(r.inserted@) == inserted_rows(views_of(before@), views_of(after@)),
        views_of(r.updated@) == updated_rows(views_of(before@), views_of(after@)),
        texts(r.deleted@) == deleted_ids(views_of(before@), views_of(after@)),
{
    let mut inserted: Vec<R> = Vec::new();
    let mut updated: Vec<R> = Vec::new();
    let mut i: usize = 0;
    proof {
        assert(views_of(inserted@) =~= Seq::<R::V>::empty());
        assert(views_of(updated@) =~= Seq::<R::V>::empty());
    }
    while i < after.len()
        invariant
            i <= after.len(),
            views_of(inserted@) == inserted_rows(
                views_of(before@),
                views_of(after@).take(i as int),
            ),
            views_of(updated@) == updated_rows(views_of(before@), views_of(after@).take(i as int)),
        decreases after.len() - i,
    {
        proof {
            assert(views_of(after@).take(i + 1).drop_last() =~= views_of(after@).take(i as int));
        }
        match find(before, after[i].id_text().as_str()) {
            Some(at) => {
                if !before[at].same_as(&after[i]) {
                    let copy = after[i].duplicate();
                    proof {
                        lemma_views_after_push(updated@, copy);
                    }
                    updated.push(copy);
                }
            },
            None => {
                let copy = after[i].duplicate();
                proof {
                    lemma_views_after_push(inserted@, copy);
                }
                inserted.push(copy);
            },
        }
        i = i + 1;
    }
    proof {
        assert(views_of(after@).take(after.len() as int) =~= views_of(after@));
    }
    let mut deleted: Vec<String> = Vec::new();
    let mut j: usize = 0;
    proof {
        assert(texts(deleted@) =~= Seq::<Seq<char>>::empty());
    }
    while j < before.len()
        invariant
            j <= before.len(),
            texts(deleted@) == deleted_ids(views_of(before@).take(j as int), views_of(after@)),
        decreases before.len() - j,
    {
        proof {
            assert(views_of(before@).take(j + 1).drop_last() =~= views_of(before@).take(j as int));
        }
        if find(after, before[j].id_text().as_str()).is_none() {
            let id = before[j].id_text().clone();
            proof {
                assert(texts(deleted@.push(id)) =~= texts(deleted@).push(id@));
            }
            deleted.push(id);
        }
        j = j + 1;
    }
    proof {
        assert(views_of(before@).take(before.len() as int) =~= views_of(before@));
    }
    TableChanges { inserted, updated, deleted }
}

/// What has changed of the ledger, table by table. The currencies are
/// not among them: no request changes a currency.
pub struct LedgerChanges {
    pub accounts: TableChanges<Account>,
    pub categories: TableChanges<Category>,
    pub transactions: TableChanges<Transaction>,
    pub debts: TableChanges<Debt>,
    pub installments: TableChanges<Installment>,
}

/// Whether `changes` is what has changed of a table between `before`
/// and `after`.
pub open spec fn is_change_of<R: View>(
    changes: TableChanges<R>,
    before: Seq<R::V>,
    after: Seq<R::V>,
) -> bool where R::V: Keyed {
    &&& views_of(changes.inserted@) == inserted_rows(before, after)
    &&& views_of(changes.updated@) == updated_rows(before, after)
    &&& texts(changes.deleted@) == deleted_ids(before, after)
}

/// What a request has changed of the ledger: what has to be written to
/// the store so that it holds `after` where it held `before`.
pub fn ledger_changes(before: &Ledger, after: &Ledger) -> (r: LedgerChanges)
    ensures
        is_change_of(r.accounts, before@.accounts, after@.accounts),
        is_change_of(r.categories, before@.categories, after@.categories),
        is_change_of(r.transactions, before@.transactions, after@.transactions),
        is_change_of(r.debts, before@.debts, after@.debts),
        is_change_of(r.installments, before@.installments, after@.installments),
{
    LedgerChanges {
        accounts: table_changes(&before.accounts, &after.accounts),
        categories: table_changes(&before.categories, &after.categories),
        transactions: table_changes(&before.transactions, &after.transactions),
        debts: table_changes(&before.debts, &after.debts),
        installments: table_changes(&before.installments, &after.installments),
    }
}

/// Between a table and its first rows, none of these is new or has
/// changed, and none of the table is gone once all are there, where no
/// two of its rows have the same id.
pub proof fn lemma_no_change_among_first<V: Keyed>(rows: Seq<V>, upto: int)
    requires
        keys_are_unique(rows),
        0 <= upto <= rows.len(),
    ensures
        inserted_rows(rows, rows.take(upto)).len() == 0,
        updated_rows(rows, rows.take(upto)).len() == 0,
        deleted_ids(rows.take(upto), rows).len() == 0,
    decreases upto,
{
    if upto > 0 {
        lemma_no_change_among_first(rows, upto - 1);
        assert(rows.take(upto).drop_last() =~= rows.take(upto - 1));
        lemma_unique_position(rows, upto - 1);
    }
}

/// Between a table and itself nothing has changed, where no two of its
/// rows have the same id: no row is new, none has changed and none is
/// gone.
pub proof fn lemma_no_change<V: Keyed>(rows: Seq<V>)
    requires
        keys_are_unique(rows),
    ensures
        inserted_rows(rows, rows).len() == 0,
        updated_rows(rows, rows).len() == 0,
        deleted_ids(rows, rows).len() == 0,
{
    lemma_no_change_among_first(rows, rows.len() as int);
    assert(rows.take(rows.len() as int) =~= rows);
}

} // verus!
