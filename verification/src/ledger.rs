//! The state of the ledger: its tables, how a row is found by its
//! id, and what it means for the state to be sound.

use crate::models::{
    views_of, Account, AccountView, Category, CategoryView, Currency, CurrencyView, Debt, DebtView,
    Installment, InstallmentView, Transaction, TransactionView,
};
use crate::errors::LedgerError;
use vstd::prelude::*;

verus! {

/// `uuid::Uuid::new_v4`, written out as text: an id drawn at random.
/// Nothing is known of it beforehand, not even that it is new.
#[verifier::external_body]
pub(crate) fn fresh_id() -> (r: String) {
    uuid::Uuid::new_v4().to_string()
}

/// The outcome of a request as mathematical values.
pub open spec fn outcome_view<T: View>(outcome: Result<T, LedgerError>) -> Result<
    T::V,
    LedgerError,
> {
    match outcome {
        Ok(value) => Ok(value@),
        Err(e) => Err(e),
    }
}

/// A value that is found by an id.
pub trait Keyed {
    /// The id of the value.
    spec fn key(self) -> Seq<char>;
}

impl Keyed for AccountView {
    open spec fn key(self) -> Seq<char> {
        self.id
    }
}

impl Keyed for CategoryView {
    open spec fn key(self) -> Seq<char> {
        self.id
    }
}

impl Keyed for CurrencyView {
    open spec fn key(self) -> Seq<char> {
        self.id
    }
}

impl Keyed for TransactionView {
    open spec fn key(self) -> Seq<char> {
        self.id
    }
}

impl Keyed for DebtView {
    open spec fn key(self) -> Seq<char> {
        self.id
    }
}

impl Keyed for InstallmentView {
    open spec fn key(self) -> Seq<char> {
        self.id
    }
}

/// A row of a table, which is found by its id.
pub trait Row: View + Sized where Self::V: Keyed {
    /// The id of the row.
    fn id_text(&self) -> (r: &String)
        ensures
            r@ == self@.key(),
    ;
}

impl Row for Account {
    fn id_text(&self) -> (r: &String) {
        &self.id
    }
}

impl Row for Category {
    fn id_text(&self) -> (r: &String) {
        &self.id
    }
}

impl Row for Currency {
    fn id_text(&self) -> (r: &String) {
        &self.id
    }
}

impl Row for Transaction {
    fn id_text(&self) -> (r: &String) {
        &self.id
    }
}

impl Row for Debt {
    fn id_text(&self) -> (r: &String) {
        &self.id
    }
}

impl Row for Installment {
    fn id_text(&self) -> (r: &String) {
        &self.id
    }
}

/// Whether the row at `index` is the first of `rows` with the id.
pub open spec fn is_first_with_key<R: Keyed>(rows: Seq<R>, id: Seq<char>, index: int) -> bool {
    &&& 0 <= index < rows.len()
    &&& rows[index].key() == id
    &&& forall|j: int| 0 <= j < index ==> (#[trigger] rows[j]).key() != id
}

/// Whether a row of `rows` has the id.
pub open spec fn has_key<R: Keyed>(rows: Seq<R>, id: Seq<char>) -> bool {
    exists|i: int| 0 <= i < rows.len() && (#[trigger] rows[i]).key() == id
}

/// Where the first row with the id stands, or `None` where no row has
/// the id.
pub open spec fn position<R: Keyed>(rows: Seq<R>, id: Seq<char>) -> Option<int> {
    if exists|i: int| is_first_with_key(rows, id, i) {
        Some(choose|i: int| is_first_with_key(rows, id, i))
    } else {
        None
    }
}

/// The first row with the id, or `None` where no row has the id.
pub open spec fn lookup<R: Keyed>(rows: Seq<R>, id: Seq<char>) -> Option<R> {
    match position(rows, id) {
        Some(i) => Some(rows[i]),
        None => None,
    }
}

/// No two rows have the same id.
pub open spec fn keys_are_unique<R: Keyed>(rows: Seq<R>) -> bool {
    forall|i: int, j: int|
        0 <= i < j < rows.len() ==> (#[trigger] rows[i]).key() != (#[trigger] rows[j]).key()
}

/// The first row with an id is where `position` says.
pub proof fn lemma_position_of_first<R: Keyed>(rows: Seq<R>, id: Seq<char>, index: int)
    requires
        is_first_with_key(rows, id, index),
    ensures
        position(rows, id) == Some(index),
        lookup(rows, id) == Some(rows[index]),
        has_key(rows, id),
{
    let found = choose|i: int| is_first_with_key(rows, id, i);
    assert(is_first_with_key(rows, id, found));
    if found < index {
        assert(rows[found].key() != id);
    }
    if index < found {
        assert(rows[index].key() != id);
    }
}

/// Where no row has the id, `position` finds none.
pub proof fn lemma_position_of_missing<R: Keyed>(rows: Seq<R>, id: Seq<char>)
    requires
        forall|j: int| 0 <= j < rows.len() ==> (#[trigger] rows[j]).key() != id,
    ensures
        position(rows, id) is None,
        lookup(rows, id) is None,
        !has_key(rows, id),
{
}

/// What `position` finds is the first row with the id, and it finds
/// one exactly where a row has the id.
pub proof fn lemma_position_is_first<R: Keyed>(rows: Seq<R>, id: Seq<char>)
    ensures
        position(rows, id) matches Some(i) ==> is_first_with_key(rows, id, i),
        position(rows, id) is Some <==> has_key(rows, id),
{
    if has_key(rows, id) {
        let some = choose|i: int| 0 <= i < rows.len() && (#[trigger] rows[i]).key() == id;
        lemma_first_exists(rows, id, some);
    }
    if position(rows, id) is Some {
        let i = position(rows, id)->0;
        assert(is_first_with_key(rows, id, i));
        assert(rows[i].key() == id);
    }
}

proof fn lemma_first_exists<R: Keyed>(rows: Seq<R>, id: Seq<char>, index: int)
    requires
        0 <= index < rows.len(),
        rows[index].key() == id,
    ensures
        exists|i: int| is_first_with_key(rows, id, i),
    decreases index,
{
    if exists|j: int| 0 <= j < index && (#[trigger] rows[j]).key() == id {
        let j = choose|j: int| 0 <= j < index && (#[trigger] rows[j]).key() == id;
        lemma_first_exists(rows, id, j);
    } else {
        assert(is_first_with_key(rows, id, index));
    }
}

/// Index of the first row with the id.
pub fn find<R: Row>(rows: &Vec<R>, id: &str) -> (r: Option<usize>) where R::V: Keyed
    ensures
        match r {
            Some(i) => position(views_of(rows@), id@) == Some(i as int) && i < rows.len(),
            None => position(views_of(rows@), id@) is None,
        },
{
    let wanted = id.to_owned();
    let mut i: usize = 0;
    while i < rows.len()
        invariant
            i <= rows.len(),
            wanted@ == id@,
            forall|j: int| 0 <= j < i ==> (#[trigger] views_of(rows@)[j]).key() != id@,
        decreases rows.len() - i,
    {
        if *rows[i].id_text() == wanted {
            proof {
                lemma_position_of_first(views_of(rows@), id@, i as int);
            }
            return Some(i);
        }
        i = i + 1;
    }
    proof {
        lemma_position_of_missing(views_of(rows@), id@);
    }
    None
}

/// The ledger: every account, category, currency, transaction, debt
/// and installment there is.
#[derive(Clone, Debug, PartialEq, Eq)]
pub struct Ledger {
    pub accounts: Vec<Account>,
    pub categories: Vec<Category>,
    pub currencies: Vec<Currency>,
    pub transactions: Vec<Transaction>,
    pub debts: Vec<Debt>,
    pub installments: Vec<Installment>,
}

/// The ledger as mathematical values: each table a sequence of rows.
pub struct LedgerView {
    pub accounts: Seq<AccountView>,
    pub categories: Seq<CategoryView>,
    pub currencies: Seq<CurrencyView>,
    pub transactions: Seq<TransactionView>,
    pub debts: Seq<DebtView>,
    pub installments: Seq<InstallmentView>,
}

impl View for Ledger {
    type V = LedgerView;

    open spec fn view(&self) -> LedgerView {
        LedgerView {
            accounts: views_of(self.accounts@),
            categories: views_of(self.categories@),
            currencies: views_of(self.currencies@),
            transactions: views_of(self.transactions@),
            debts: views_of(self.debts@),
            installments: views_of(self.installments@),
        }
    }
}

impl LedgerView {
    /// No table holds an id twice.
    pub open spec fn ids_are_unique(self) -> bool {
        &&& keys_are_unique(self.accounts)
        &&& keys_are_unique(self.categories)
        &&& keys_are_unique(self.currencies)
        &&& keys_are_unique(self.transactions)
        &&& keys_are_unique(self.debts)
        &&& keys_are_unique(self.installments)
    }
}

impl Ledger {
    /// A ledger without rows.
    pub fn new() -> (r: Ledger)
        ensures
            r@.ids_are_unique(),
            r@.accounts.len() == 0,
            r@.categories.len() == 0,
            r@.currencies.len() == 0,
            r@.transactions.len() == 0,
            r@.debts.len() == 0,
            r@.installments.len() == 0,
    {
        Ledger {
            accounts: Vec::new(),
            categories: Vec::new(),
            currencies: Vec::new(),
            transactions: Vec::new(),
            debts: Vec::new(),
            installments: Vec::new(),
        }
    }
}

/// Whether the id of the row at `index` of `added` is neither among
/// `existing` nor among the rows of `added` before it.
pub open spec fn is_new_id<R: Keyed>(existing: Seq<R>, added: Seq<R>, index: int) -> bool {
    &&& position(existing, added[index].key()) is None
    &&& position(added.take(index), added[index].key()) is None
}

/// Whether the rows to add bring ids that are not taken, each a
/// different one.
pub open spec fn ids_are_new<R: Keyed>(existing: Seq<R>, added: Seq<R>) -> bool {
    forall|k: int| 0 <= k < added.len() ==> is_new_id(existing, added, k)
}

/// One more row with an id that no row has keeps the ids apart.
pub proof fn lemma_unique_after_push<R: Keyed>(rows: Seq<R>, row: R)
    requires
        keys_are_unique(rows),
        position(rows, row.key()) is None,
    ensures
        keys_are_unique(rows.push(row)),
{
    lemma_position_is_first(rows, row.key());
    let more = rows.push(row);
    assert forall|i: int, j: int| 0 <= i < j < more.len() implies (#[trigger] more[i]).key() != (
    #[trigger] more[j]).key() by {
        if j < rows.len() {
            assert(rows[i].key() != rows[j].key());
        } else {
            assert(rows[i].key() != row.key());
        }
    }
}

/// A row that takes the place of one with the same id keeps the ids
/// apart.
pub proof fn lemma_unique_after_update<R: Keyed>(rows: Seq<R>, index: int, row: R)
    requires
        keys_are_unique(rows),
        0 <= index < rows.len(),
        row.key() == rows[index].key(),
    ensures
        keys_are_unique(rows.update(index, row)),
{
    let changed = rows.update(index, row);
    assert forall|i: int, j: int| 0 <= i < j < changed.len() implies (
    #[trigger] changed[i]).key() != (#[trigger] changed[j]).key() by {
        assert(rows[i].key() != rows[j].key());
    }
}

/// Taking a row away keeps the ids apart, and leaves no row with its
/// id.
pub proof fn lemma_unique_after_remove<R: Keyed>(rows: Seq<R>, index: int)
    requires
        keys_are_unique(rows),
        0 <= index < rows.len(),
    ensures
        keys_are_unique(rows.remove(index)),
        position(rows.remove(index), rows[index].key()) is None,
{
    let fewer = rows.remove(index);
    assert forall|i: int, j: int| 0 <= i < j < fewer.len() implies (#[trigger] fewer[i]).key() != (
    #[trigger] fewer[j]).key() by {
        let from = if i < index {
            i
        } else {
            i + 1
        };
        let to = if j < index {
            j
        } else {
            j + 1
        };
        assert(rows[from].key() != rows[to].key());
    }
    assert forall|j: int| 0 <= j < fewer.len() implies (#[trigger] fewer[j]).key()
        != rows[index].key() by {
        if j < index {
            assert(rows[j].key() != rows[index].key());
        } else {
            assert(rows[index].key() != rows[j + 1].key());
        }
    }
    lemma_position_of_missing(fewer, rows[index].key());
}

/// Where each kept row stood before a filter. The places rise along the
/// kept rows.
pub proof fn lemma_filter_places<T>(rows: Seq<T>, keep: spec_fn(T) -> bool) -> (places: Seq<int>)
    ensures
        places.len() == rows.filter(keep).len(),
        forall|k: int|
            0 <= k < places.len() ==> 0 <= (#[trigger] places[k]) < rows.len()
                && rows[places[k]] == rows.filter(keep)[k] && keep(rows[places[k]]),
        forall|k: int, l: int| 0 <= k < l < places.len() ==> places[k] < places[l],
    decreases rows.len(),
{
    reveal(Seq::filter);
    if rows.len() == 0 {
        Seq::empty()
    } else {
        let front = lemma_filter_places(rows.drop_last(), keep);
        if keep(rows.last()) {
            front.push(rows.len() - 1)
        } else {
            front
        }
    }
}

/// Keeping some of the rows keeps the ids apart.
pub proof fn lemma_unique_after_filter<R: Keyed>(rows: Seq<R>, keep: spec_fn(R) -> bool)
    requires
        keys_are_unique(rows),
    ensures
        keys_are_unique(rows.filter(keep)),
{
    let places = lemma_filter_places(rows, keep);
    let kept = rows.filter(keep);
    assert forall|i: int, j: int| 0 <= i < j < kept.len() implies (#[trigger] kept[i]).key() != (
    #[trigger] kept[j]).key() by {
        assert(rows[places[i]].key() != rows[places[j]].key());
    }
}

/// More rows whose ids are new, each a different one, keep the ids
/// apart.
pub proof fn lemma_unique_after_add<R: Keyed>(existing: Seq<R>, added: Seq<R>)
    requires
        keys_are_unique(existing),
        ids_are_new(existing, added),
    ensures
        keys_are_unique(existing + added),
{
    let all = existing + added;
    assert forall|i: int, j: int| 0 <= i < j < all.len() implies (#[trigger] all[i]).key() != (
    #[trigger] all[j]).key() by {
        if j < existing.len() {
            assert(existing[i].key() != existing[j].key());
        } else {
            let k = j - existing.len();
            assert(is_new_id(existing, added, k));
            lemma_position_is_first(existing, added[k].key());
            lemma_position_is_first(added.take(k), added[k].key());
            if i < existing.len() {
                assert(existing[i].key() != added[k].key());
            } else {
                assert(added.take(k)[i - existing.len()].key() != added[k].key());
            }
        }
    }
}

/// Rows that keep their ids are found where they were.
pub proof fn lemma_same_keys_same_position<R: Keyed>(before: Seq<R>, after: Seq<R>, id: Seq<char>)
    requires
        before.len() == after.len(),
        forall|k: int| 0 <= k < before.len() ==> (#[trigger] before[k]).key() == after[k].key(),
    ensures
        position(after, id) == position(before, id),
{
    lemma_position_is_first(before, id);
    match position(before, id) {
        Some(i) => {
            assert forall|j: int| 0 <= j < i implies (#[trigger] after[j]).key() != id by {
                assert(before[j].key() != id);
            }
            assert(before[i].key() == after[i].key());
            lemma_position_of_first(after, id, i);
        },
        None => {
            assert forall|j: int| 0 <= j < after.len() implies (#[trigger] after[j]).key()
                != id by {
                assert(before[j].key() == after[j].key());
            }
            lemma_position_of_missing(after, id);
        },
    }
}

/// Where a row is found once one more row has been added: where it was
/// found before, or last where the new row is the first with the id.
pub proof fn lemma_position_after_push<R: Keyed>(rows: Seq<R>, row: R, id: Seq<char>)
    ensures
        position(rows.push(row), id) == if position(rows, id) is Some {
            position(rows, id)
        } else if row.key() == id {
            Some(rows.len() as int)
        } else {
            None
        },
{
    lemma_position_is_first(rows, id);
    let more = rows.push(row);
    match position(rows, id) {
        Some(i) => {
            assert forall|j: int| 0 <= j < i implies (#[trigger] more[j]).key() != id by {
                assert(rows[j].key() != id);
            }
            lemma_position_of_first(more, id, i);
        },
        None => {
            assert forall|j: int| 0 <= j < rows.len() implies (#[trigger] more[j]).key()
                != id by {
                assert(rows[j].key() != id);
            }
            if row.key() == id {
                lemma_position_of_first(more, id, rows.len() as int);
            } else {
                lemma_position_of_missing(more, id);
            }
        },
    }
}

/// Among rows whose ids are apart, a row is found where it stands.
pub proof fn lemma_unique_position<R: Keyed>(rows: Seq<R>, index: int)
    requires
        keys_are_unique(rows),
        0 <= index < rows.len(),
    ensures
        position(rows, rows[index].key()) == Some(index),
{
    assert forall|j: int| 0 <= j < index implies (#[trigger] rows[j]).key()
        != rows[index].key() by {}
    lemma_position_of_first(rows, rows[index].key(), index);
}

/// Whether the row at `index` is the first of `rows` that is wanted.
pub open spec fn is_first_wanted<T>(rows: Seq<T>, wanted: spec_fn(T) -> bool, index: int) -> bool {
    &&& 0 <= index < rows.len()
    &&& wanted(rows[index])
    &&& forall|j: int| 0 <= j < index ==> !wanted(#[trigger] rows[j])
}

/// Where the first row that is wanted stands, or `None` where no row
/// is wanted.
pub open spec fn first_index<T>(rows: Seq<T>, wanted: spec_fn(T) -> bool) -> Option<int> {
    if exists|i: int| is_first_wanted(rows, wanted, i) {
        Some(choose|i: int| is_first_wanted(rows, wanted, i))
    } else {
        None
    }
}

/// The first row that is wanted is where `first_index` says.
pub proof fn lemma_first_index_found<T>(rows: Seq<T>, wanted: spec_fn(T) -> bool, index: int)
    requires
        is_first_wanted(rows, wanted, index),
    ensures
        first_index(rows, wanted) == Some(index),
{
    let found = choose|i: int| is_first_wanted(rows, wanted, i);
    assert(is_first_wanted(rows, wanted, found));
    if found < index {
        assert(!wanted(rows[found]));
    }
    if index < found {
        assert(!wanted(rows[index]));
    }
}

/// Where no row is wanted, `first_index` finds none.
pub proof fn lemma_first_index_missing<T>(rows: Seq<T>, wanted: spec_fn(T) -> bool)
    requires
        forall|j: int| 0 <= j < rows.len() ==> !wanted(#[trigger] rows[j]),
    ensures
        first_index(rows, wanted) is None,
{
}

/// Whether no two of the rows have the same id.
pub fn are_ids_unique<R: Row>(rows: &Vec<R>) -> (r: bool) where R::V: Keyed
    ensures
        r == keys_are_unique(views_of(rows@)),
{
    let mut j: usize = 0;
    while j < rows.len()
        invariant
            j <= rows.len(),
            forall|a: int, b: int|
                0 <= a < b < j ==> (#[trigger] views_of(rows@)[a]).key() != (#[trigger] views_of(
                    rows@,
                )[b]).key(),
        decreases rows.len() - j,
    {
        let mut i: usize = 0;
        while i < j
            invariant
                i <= j < rows.len(),
                forall|a: int|
                    0 <= a < i ==> (#[trigger] views_of(rows@)[a]).key() != views_of(
                        rows@,
                    )[j as int].key(),
            decreases j - i,
        {
            if *rows[i].id_text() == *rows[j].id_text() {
                proof {
                    assert(views_of(rows@)[i as int].key() == views_of(rows@)[j as int].key());
                }
                return false;
            }
            i = i + 1;
        }
        j = j + 1;
    }
    true
}

impl Ledger {
    /// Whether no table holds an id twice.
    pub fn has_unique_ids(&self) -> (r: bool)
        ensures
            r == self@.ids_are_unique(),
    {
        are_ids_unique(&self.accounts) && are_ids_unique(&self.categories) && are_ids_unique(
            &self.currencies,
        ) && are_ids_unique(&self.transactions) && are_ids_unique(&self.debts) && are_ids_unique(
            &self.installments,
        )
    }
}

/// Every row that a filter keeps is a row of the list.
pub proof fn lemma_filter_is_within<T>(rows: Seq<T>, keep: spec_fn(T) -> bool, index: int)
    requires
        0 <= index < rows.filter(keep).len(),
    ensures
        rows.contains(rows.filter(keep)[index]),
    decreases rows.len(),
{
    reveal(Seq::filter);
    if rows.len() > 0 {
        let front = rows.drop_last().filter(keep);
        if index < front.len() {
            lemma_filter_is_within(rows.drop_last(), keep, index);
            let at = choose|at: int|
                0 <= at < rows.drop_last().len() && rows.drop_last()[at] == front[index];
            assert(rows[at] == rows.filter(keep)[index]);
        } else {
            assert(rows[rows.len() - 1] == rows.filter(keep)[index]);
        }
    }
}

} // verus!
