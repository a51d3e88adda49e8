//! Listing the rows of the ledger: which of them a filter asks for, in
//! what order, and the page of them to show.

use crate::debts::{count_paid, paid_count};
use crate::errors::LedgerError;
use crate::ledger::{Ledger, LedgerView};
use crate::models::{
    int_of_i64, lemma_views_after_push, text_of, views_of, Account, AccountView, Category,
    CategoryView, Currency, CurrencyView, Debt, DebtFilter, DebtView, PaginatedResult, Transaction,
    TransactionFilter, TransactionView,
};
use crate::ordering::{key_before, Ordered, 
    in_order, rows_of, sort, unkeyed, Copied, Sortable, SortableView, SortKey, SortKeyView,
};
use crate::search::{contains_text, matches_pattern, search_pattern};
use crate::text::{is_text_before, text_before};
use vstd::prelude::*;

verus! {

impl Copied for Transaction {
    fn duplicate(&self) -> (r: Transaction) {
        self.copy_of()
    }
}

impl Copied for Account {
    fn duplicate(&self) -> (r: Account) {
        self.copy_of()
    }
}

impl Copied for Category {
    fn duplicate(&self) -> (r: Category) {
        self.copy_of()
    }
}

impl Copied for Currency {
    fn duplicate(&self) -> (r: Currency) {
        self.copy_of()
    }
}

impl Copied for Debt {
    fn duplicate(&self) -> (r: Debt) {
        self.copy_of()
    }
}

/// What a filter holds, as mathematical values.
pub struct FilterView {
    pub account_id: Option<Seq<char>>,
    pub category_id: Option<Seq<char>>,
    pub transaction_type: Option<Seq<char>>,
    pub date_from: Option<Seq<char>>,
    pub date_to: Option<Seq<char>>,
    pub amount_min: Option<int>,
    pub amount_max: Option<int>,
    pub search: Option<Seq<char>>,
    pub sort_by: Option<Seq<char>>,
    pub sort_dir: Option<Seq<char>>,
    pub page: Option<int>,
    pub page_size: Option<int>,
}

impl View for TransactionFilter {
    type V = FilterView;

    open spec fn view(&self) -> FilterView {
        FilterView {
            account_id: text_of(self.account_id),
            category_id: text_of(self.category_id),
            transaction_type: text_of(self.transaction_type),
            date_from: text_of(self.date_from),
            date_to: text_of(self.date_to),
            amount_min: int_of_i64(self.amount_min),
            amount_max: int_of_i64(self.amount_max),
            search: text_of(self.search),
            sort_by: text_of(self.sort_by),
            sort_dir: text_of(self.sort_dir),
            page: int_of_i64(self.page),
            page_size: int_of_i64(self.page_size),
        }
    }
}

/// Whether the transaction is one that the filter asks for: of the
/// account, the category and the type it names, dated from its first
/// day to its last, of an amount from its least to its greatest, and
/// with the text it seeks in its description. What the filter does not
/// name is not asked.
pub open spec fn matches_filter(row: TransactionView, filter: FilterView) -> bool {
    &&& filter.account_id matches Some(id) ==> row.account_id == id
    &&& filter.category_id matches Some(id) ==> row.category_id == id
    &&& filter.transaction_type matches Some(text) ==> row.transaction_type == text
    &&& filter.date_from matches Some(day) ==> !text_before(row.date, day)
    &&& filter.date_to matches Some(day) ==> !text_before(day, row.date)
    &&& filter.amount_min matches Some(amount) ==> row.amount >= amount
    &&& filter.amount_max matches Some(amount) ==> row.amount <= amount
    &&& filter.search matches Some(text) ==> matches_pattern(
        search_pattern(text),
        row.description,
    )
}

/// The transactions that the filter asks for, in their order.
pub open spec fn filtered(rows: Seq<TransactionView>, filter: FilterView) -> Seq<TransactionView> {
    rows.filter(|row: TransactionView| matches_filter(row, filter))
}

/// Whether the transaction is one that the filter asks for.
fn is_asked_for(row: &Transaction, filter: &TransactionFilter) -> (r: bool)
    ensures
        r == matches_filter(row@, filter@),
{
    match &filter.account_id {
        Some(id) => {
            if !(row.account_id == *id) {
                return false;
            }
        },
        None => {},
    }
    match &filter.category_id {
        Some(id) => {
            if !(row.category_id == *id) {
                return false;
            }
        },
        None => {},
    }
    match &filter.transaction_type {
        Some(text) => {
            if !(row.transaction_type == *text) {
                return false;
            }
        },
        None => {},
    }
    match &filter.date_from {
        Some(day) => {
            if is_text_before(row.date.as_str(), day.as_str()) {
                return false;
            }
        },
        None => {},
    }
    match &filter.date_to {
        Some(day) => {
            if is_text_before(day.as_str(), row.date.as_str()) {
                return false;
            }
        },
        None => {},
    }
    match filter.amount_min {
        Some(amount) => {
            if row.amount < amount {
                return false;
            }
        },
        None => {},
    }
    match filter.amount_max {
        Some(amount) => {
            if row.amount > amount {
                return false;
            }
        },
        None => {},
    }
    match &filter.search {
        Some(text) => {
            if !contains_text(row.description.as_str(), text.as_str()) {
                return false;
            }
        },
        None => {},
    }
    true
}

/// The transactions that the filter asks for, in their order.
pub fn apply_filters(rows: &Vec<Transaction>, filter: &TransactionFilter) -> (r: Vec<Transaction>)
    ensures
        views_of(r@) == filtered(views_of(rows@), filter@),
{
    let mut kept: Vec<Transaction> = Vec::new();
    let mut i: usize = 0;
    proof {
        reveal(Seq::filter);
        assert(views_of(kept@) =~= views_of(rows@).take(0));
    }
    while i < rows.len()
        invariant
            i <= rows.len(),
            views_of(kept@) == filtered(views_of(rows@).take(i as int), filter@),
        decreases rows.len() - i,
    {
        proof {
            reveal(Seq::filter);
            assert(views_of(rows@).take(i + 1).drop_last() =~= views_of(rows@).take(i as int));
        }
        if is_asked_for(&rows[i], filter) {
            let copy = rows[i].copy_of();
            proof {
                lemma_views_after_push(kept@, copy);
            }
            kept.push(copy);
        }
        i = i + 1;
    }
    proof {
        assert(views_of(rows@).take(rows.len() as int) =~= views_of(rows@));
    }
    kept
}

/// How many transactions the filter asks for.
pub fn count_filtered(ledger: &Ledger, filter: &TransactionFilter) -> (r: usize)
    ensures
        r == filtered(ledger@.transactions, filter@).len(),
{
    let kept = apply_filters(&ledger.transactions, filter);
    proof {
        assert(views_of(kept@).len() == kept.len());
    }
    kept.len()
}

/// Whether the rows come from the last to the first: as asked for with
/// `ASC` or `DESC`, and from the last to the first where neither is
/// asked for.
pub open spec fn is_descending(filter: FilterView) -> bool {
    filter.sort_dir != Some("ASC"@)
}

/// What a transaction is ordered by: its amount, description, type or
/// time of creation where the column asked for is `amount`,
/// `description`, `type` or `created_at`; its date otherwise.
pub open spec fn sort_key(row: TransactionView, column: Option<Seq<char>>) -> SortKeyView {
    if column == Some("amount"@) {
        SortKeyView::Number(row.amount)
    } else if column == Some("description"@) {
        SortKeyView::Text(row.description)
    } else if column == Some("type"@) {
        SortKeyView::Text(row.transaction_type)
    } else if column == Some("created_at"@) {
        SortKeyView::Text(row.created_at)
    } else {
        SortKeyView::Text(row.date)
    }
}

/// The transactions, each with what it is ordered by.
pub open spec fn with_sort_keys(rows: Seq<TransactionView>, filter: FilterView) -> Seq<
    SortableView<TransactionView>,
> {
    rows.map_values(
        |row: TransactionView|
            SortableView {
                keys: seq![sort_key(row, filter.sort_by)],
                descending: is_descending(filter),
                row,
            },
    )
}

/// The transactions in the order that the filter asks for: by one of
/// the columns on offer (`date`, `amount`, `description`, `type`,
/// `created_at`; by the date where none of them is asked for), upwards
/// or downwards (downwards where neither is asked for). Transactions
/// that are alike in the column stay in the order they had.
pub open spec fn ordered(rows: Seq<TransactionView>, filter: FilterView) -> Seq<TransactionView> {
    rows_of(in_order(with_sort_keys(rows, filter)))
}

/// The transactions in the order that the filter asks for.
fn put_in_order(rows: &Vec<Transaction>, filter: &TransactionFilter) -> (r: Vec<Transaction>)
    ensures
        views_of(r@) == ordered(views_of(rows@), filter@),
{
    let amount = "amount".to_owned();
    let description = "description".to_owned();
    let kind = "type".to_owned();
    let created_at = "created_at".to_owned();
    let by_amount = match &filter.sort_by {
        Some(column) => *column == amount,
        None => false,
    };
    let by_description = match &filter.sort_by {
        Some(column) => *column == description,
        None => false,
    };
    let by_kind = match &filter.sort_by {
        Some(column) => *column == kind,
        None => false,
    };
    let by_created_at = match &filter.sort_by {
        Some(column) => *column == created_at,
        None => false,
    };
    let descending = match &filter.sort_dir {
        Some(direction) => !(*direction == "ASC".to_owned()),
        None => true,
    };
    let mut keyed: Vec<Sortable<Transaction>> = Vec::new();
    let mut i: usize = 0;
    while i < rows.len()
        invariant
            i <= rows.len(),
            keyed.len() == i,
            by_amount == (filter@.sort_by == Some("amount"@)),
            by_description == (filter@.sort_by == Some("description"@)),
            by_kind == (filter@.sort_by == Some("type"@)),
            by_created_at == (filter@.sort_by == Some("created_at"@)),
            descending == is_descending(filter@),
            forall|k: int|
                0 <= k < i ==> (#[trigger] keyed[k])@ == with_sort_keys(
                    views_of(rows@),
                    filter@,
                )[k],
        decreases rows.len() - i,
    {
        let row = &rows[i];
        let key = if by_amount {
            SortKey::Number(row.amount)
        } else if by_description {
            SortKey::Text(row.description.clone())
        } else if by_kind {
            SortKey::Text(row.transaction_type.clone())
        } else if by_created_at {
            SortKey::Text(row.created_at.clone())
        } else {
            SortKey::Text(row.date.clone())
        };
        let mut keys: Vec<SortKey> = Vec::new();
        keys.push(key);
        proof {
            assert(views_of(keys@) =~= seq![key@]);
        }
        keyed.push(Sortable { keys, descending, row: row.copy_of() });
        i = i + 1;
    }
    proof {
        assert(views_of(keyed@) =~= with_sort_keys(views_of(rows@), filter@));
    }
    unkeyed(sort(&keyed))
}

/// The page asked for: the first unless given.
pub open spec fn page_number(filter: FilterView) -> int {
    filter.page.unwrap_or(1)
}

/// The number of rows on a page: 20 unless given.
pub open spec fn page_length(filter: FilterView) -> int {
    filter.page_size.unwrap_or(20)
}

/// How many pages `total` rows fill, `size` to a page: the quotient
/// rounded up, and none for no rows.
pub open spec fn page_count(total: int, size: int) -> int {
    if total <= 0 {
        0
    } else {
        (total + size - 1) / size
    }
}

/// How many rows come before the page.
pub open spec fn page_offset(filter: FilterView) -> int {
    (page_number(filter) - 1) * page_length(filter)
}

/// Why the page that a filter asks for cannot be shown, if it cannot:
/// a page holds at least one row (`InvalidPageSize`), pages are counted
/// from 1 (`InvalidPage`), and the number of rows before the page must
/// fit an amount (`AmountOverflow`).
pub open spec fn page_refusal(filter: FilterView) -> Option<LedgerError> {
    if page_length(filter) < 1 {
        Some(LedgerError::InvalidPageSize)
    } else if page_number(filter) < 1 {
        Some(LedgerError::InvalidPage)
    } else if page_offset(filter) > i64::MAX {
        Some(LedgerError::AmountOverflow)
    } else {
        None
    }
}

/// Page and page length of a filter, and the rows before the page, once
/// they are known to be sound.
fn page_of(filter: &TransactionFilter) -> (r: Result<(i64, i64, i64), LedgerError>)
    ensures
        match r {
            Ok((page, size, offset)) => page_refusal(filter@) is None && page == page_number(
                filter@,
            ) && size == page_length(filter@) && offset == page_offset(filter@),
            Err(e) => page_refusal(filter@) == Some(e),
        },
{
    let page: i64 = match filter.page {
        Some(page) => page,
        None => 1,
    };
    let size: i64 = match filter.page_size {
        Some(size) => size,
        None => 20,
    };
    if size < 1 {
        return Err(LedgerError::InvalidPageSize);
    }
    if page < 1 {
        return Err(LedgerError::InvalidPage);
    }
    assert(0 <= (page - 1) * size <= 0x8000_0000_0000_0000 * 0x8000_0000_0000_0000)
        by (nonlinear_arith)
        requires
            0 <= page - 1 <= 0x8000_0000_0000_0000,
            0 <= size <= 0x8000_0000_0000_0000,
    ;
    let offset: i128 = (page as i128 - 1) * (size as i128);
    if offset > i64::MAX as i128 {
        return Err(LedgerError::AmountOverflow);
    }
    Ok((page, size, offset as i64))
}

/// One page of transactions as mathematical values.
pub struct PageView {
    pub data: Seq<TransactionView>,
    pub total: int,
    pub page: int,
    pub page_size: int,
    pub total_pages: int,
}

/// The page as mathematical values.
pub open spec fn page_view(page: PaginatedResult<Transaction>) -> PageView {
    PageView {
        data: views_of(page.data@),
        total: page.total as int,
        page: page.page as int,
        page_size: page.page_size as int,
        total_pages: page.total_pages as int,
    }
}

/// The rows of the page that the filter asks for, out of all the rows
/// that it matches, in their order.
pub open spec fn page_rows<T>(rows: Seq<T>, filter: FilterView) -> Seq<T> {
    let first = page_offset(filter);
    let last = first + page_length(filter);
    if first >= rows.len() {
        Seq::empty()
    } else if last >= rows.len() {
        rows.subrange(first, rows.len() as int)
    } else {
        rows.subrange(first, last)
    }
}

/// The page that the filter asks for, out of rows that are all the
/// rows to show, in their order: the rows of the page, how many rows
/// there are in all, which page this is and how long a page is, and how
/// many pages there are: the total divided by the page length, rounded
/// up; none for no rows.
pub open spec fn page_of_rows(rows: Seq<TransactionView>, filter: FilterView) -> PageView {
    PageView {
        data: page_rows(rows, filter),
        total: rows.len() as int,
        page: page_number(filter),
        page_size: page_length(filter),
        total_pages: page_count(rows.len() as int, page_length(filter)),
    }
}

/// Cuts the page that the filter asks for out of all the rows to show:
/// see `page_of_rows`.
///
/// Fails where the page cannot be shown (see `page_refusal`), and with
/// `AmountOverflow` where there are more rows than the total can hold.
pub fn paginate(rows: &Vec<Transaction>, filter: &TransactionFilter) -> (r: Result<
    PaginatedResult<Transaction>,
    LedgerError,
>)
    ensures
        match r {
            Ok(page) => page_refusal(filter@) is None && page_view(page) == page_of_rows(
                views_of(rows@),
                filter@,
            ),
            Err(e) => match page_refusal(filter@) {
                Some(refusal) => e == refusal,
                None => e == LedgerError::AmountOverflow && rows.len() > i64::MAX,
            },
        },
{
    let (page, size, offset) = match page_of(filter) {
        Ok(found) => found,
        Err(e) => {
            return Err(e);
        },
    };
    if rows.len() as u64 > i64::MAX as u64 {
        return Err(LedgerError::AmountOverflow);
    }
    let total: i64 = rows.len() as i64;
    let mut data: Vec<Transaction> = Vec::new();
    if offset < total {
        let first: usize = offset as usize;
        let last: usize = if size >= total - offset {
            rows.len()
        } else {
            (offset + size) as usize
        };
        let mut i: usize = first;
        proof {
            assert(views_of(data@) =~= views_of(rows@).subrange(first as int, first as int));
        }
        while i < last
            invariant
                first <= i <= last <= rows.len(),
                views_of(data@) == views_of(rows@).subrange(first as int, i as int),
            decreases last - i,
        {
            let copy = rows[i].copy_of();
            proof {
                lemma_views_after_push(data@, copy);
                assert(views_of(rows@).subrange(first as int, i as int).push(copy@) =~= views_of(
                    rows@,
                ).subrange(first as int, i + 1));
            }
            data.push(copy);
            i = i + 1;
        }
    } else {
        proof {
            assert(views_of(data@) =~= Seq::<TransactionView>::empty());
        }
    }
    let total_pages: i64 = if total <= 0 {
        0
    } else {
        let pages: i128 = (total as i128 + size as i128 - 1) / (size as i128);
        assert(0 <= pages <= total) by (nonlinear_arith)
            requires
                pages == (total as int + size as int - 1) / (size as int),
                total >= 1,
                size >= 1,
        ;
        pages as i64
    };
    Ok(PaginatedResult { data, total, page, page_size: size, total_pages })
}

/// The page of transactions that the filter asks for: the transactions
/// that it matches, in the order it asks for, cut to the page it asks
/// for.
pub open spec fn listed(ledger: LedgerView, filter: FilterView) -> PageView {
    page_of_rows(ordered(filtered(ledger.transactions, filter), filter), filter)
}

/// The rows of the page of transactions that the filter asks for.
///
/// Fails where the page cannot be shown: see `page_refusal`.
pub fn list_filtered(ledger: &Ledger, filter: &TransactionFilter) -> (r: Result<
    Vec<Transaction>,
    LedgerError,
>)
    ensures
        match r {
            Ok(rows) => page_refusal(filter@) is None && views_of(rows@) == listed(
                ledger@,
                filter@,
            ).data,
            Err(e) => match page_refusal(filter@) {
                Some(refusal) => e == refusal,
                None => e == LedgerError::AmountOverflow && filtered(
                    ledger@.transactions,
                    filter@,
                ).len() > i64::MAX,
            },
        },
{
    match list_transactions(ledger, filter) {
        Ok(page) => Ok(page.data),
        Err(e) => Err(e),
    }
}

/// The transactions that the filter asks for: those of the account,
/// category and type it names, within its dates and amounts, with the
/// text it seeks in their description; in the order it asks for, by
/// date downwards unless it says otherwise; and of these the page it
/// asks for, which is the first, of 20 rows, unless it says otherwise.
/// With the rows come the number of all that the filter matches and the
/// number of pages they fill.
///
/// Fails where the page cannot be shown (see `page_refusal`), and with
/// `AmountOverflow` where the filter matches more rows than the total
/// can hold.
pub fn list_transactions(ledger: &Ledger, filter: &TransactionFilter) -> (r: Result<
    PaginatedResult<Transaction>,
    LedgerError,
>)
    ensures
        match r {
            Ok(page) => page_refusal(filter@) is None && page_view(page) == listed(
                ledger@,
                filter@,
            ),
            Err(e) => match page_refusal(filter@) {
                Some(refusal) => e == refusal,
                None => e == LedgerError::AmountOverflow && filtered(
                    ledger@.transactions,
                    filter@,
                ).len() > i64::MAX,
            },
        },
{
    let kept = apply_filters(&ledger.transactions, filter);
    let sorted = put_in_order(&kept, filter);
    proof {
        crate::ordering::lemma_in_order(
            with_sort_keys(filtered(ledger@.transactions, filter@), filter@),
        );
        assert(views_of(sorted@).len() == sorted.len());
    }
    paginate(&sorted, filter)
}

/// The pages are just enough for the rows: together they hold every
/// row, and without the last they would not.
pub proof fn lemma_pages_cover_rows(total: int, size: int)
    requires
        total >= 0,
        size >= 1,
    ensures
        page_count(total, size) * size >= total,
        total > 0 ==> (page_count(total, size) - 1) * size < total,
        total == 0 ==> page_count(total, size) == 0,
{
    if total > 0 {
        let pages = (total + size - 1) / size;
        assert(pages * size >= total && (pages - 1) * size < total) by (nonlinear_arith)
            requires
                pages == (total + size - 1) / size,
                total >= 1,
                size >= 1,
        ;
    }
}

/// How many rows a page has: a full page before the last page, what is
/// left on the last, none past it.
pub proof fn lemma_page_length<T>(rows: Seq<T>, filter: FilterView)
    requires
        page_refusal(filter) is None,
    ensures
        page_rows(rows, filter).len() == if page_offset(filter) >= rows.len() {
            0
        } else if page_offset(filter) + page_length(filter) >= rows.len() {
            rows.len() - page_offset(filter)
        } else {
            page_length(filter)
        },
{
    assert(page_offset(filter) >= 0) by (nonlinear_arith)
        requires
            page_offset(filter) == (page_number(filter) - 1) * page_length(filter),
            page_number(filter) >= 1,
            page_length(filter) >= 1,
    ;
}

/// Transactions put in order are as many as before, and stand in the
/// order asked for: going down the list, what they are ordered by never
/// falls where the order is upwards, and never rises where it is
/// downwards.
pub proof fn lemma_ordered_is_in_order(rows: Seq<TransactionView>, filter: FilterView)
    ensures
        ordered(rows, filter).len() == rows.len(),
        forall|i: int, j: int|
            0 <= i < j < rows.len() ==> if is_descending(filter) {
                !key_before(
                    sort_key(#[trigger] ordered(rows, filter)[i], filter.sort_by),
                    sort_key(#[trigger] ordered(rows, filter)[j], filter.sort_by),
                )
            } else {
                !key_before(
                    sort_key(ordered(rows, filter)[j], filter.sort_by),
                    sort_key(ordered(rows, filter)[i], filter.sort_by),
                )
            },
{
    broadcast use vstd::seq_lib::group_to_multiset_ensures;

    let keyed = with_sort_keys(rows, filter);
    let sorted = in_order(keyed);
    crate::ordering::lemma_in_order(keyed);
    assert forall|k: int| 0 <= k < sorted.len() implies (#[trigger] sorted[k]).keys == seq![
        sort_key(sorted[k].row, filter.sort_by),
    ] && sorted[k].descending == is_descending(filter) by {
        assert(sorted.to_multiset().count(sorted[k]) > 0);
        assert(keyed.to_multiset().count(sorted[k]) > 0);
        assert(keyed.contains(sorted[k]));
        let from = choose|from: int| 0 <= from < keyed.len() && keyed[from] == sorted[k];
        assert(keyed[from].row == rows[from]);
    }
    assert forall|i: int, j: int| 0 <= i < j < rows.len() implies if is_descending(filter) {
        !key_before(
            sort_key(#[trigger] ordered(rows, filter)[i], filter.sort_by),
            sort_key(#[trigger] ordered(rows, filter)[j], filter.sort_by),
        )
    } else {
        !key_before(
            sort_key(ordered(rows, filter)[j], filter.sort_by),
            sort_key(ordered(rows, filter)[i], filter.sort_by),
        )
    } by {
        assert(!sorted[j].precedes(sorted[i]));
        let first = sorted[i].keys;
        let second = sorted[j].keys;
        assert(first.drop_first().len() == 0);
        assert(second.drop_first().len() == 0);
        assert(ordered(rows, filter)[i] == sorted[i].row);
        assert(ordered(rows, filter)[j] == sorted[j].row);
    }
}

/// Every transaction of a page is one that the filter asks for, and one
/// of the ledger.
pub proof fn lemma_listed_rows_match(ledger: LedgerView, filter: FilterView, index: int)
    requires
        page_refusal(filter) is None,
        0 <= index < listed(ledger, filter).data.len(),
    ensures
        matches_filter(listed(ledger, filter).data[index], filter),
        ledger.transactions.contains(listed(ledger, filter).data[index]),
{
    broadcast use vstd::seq_lib::group_to_multiset_ensures;

    let kept = filtered(ledger.transactions, filter);
    let keyed = with_sort_keys(kept, filter);
    let sorted = in_order(keyed);
    crate::ordering::lemma_in_order(keyed);
    lemma_page_length(rows_of(sorted), filter);
    assert(page_offset(filter) >= 0) by (nonlinear_arith)
        requires
            page_offset(filter) == (page_number(filter) - 1) * page_length(filter),
            page_number(filter) >= 1,
            page_length(filter) >= 1,
    ;
    let at = page_offset(filter) + index;
    let row = listed(ledger, filter).data[index];
    assert(row == sorted[at].row);
    assert(sorted.to_multiset().count(sorted[at]) > 0);
    assert(keyed.to_multiset().count(sorted[at]) > 0);
    assert(keyed.contains(sorted[at]));
    let from = choose|from: int| 0 <= from < keyed.len() && keyed[from] == sorted[at];
    assert(kept[from] == row);
    let keep = |row: TransactionView| matches_filter(row, filter);
    #[allow(deprecated)]
    ledger.transactions.filter_lemma(keep);
    crate::ledger::lemma_filter_is_within(ledger.transactions, keep, from);
}

/// An account with what it is ordered by: its type, then its name.
pub open spec fn keyed_account(account: AccountView) -> SortableView<AccountView> {
    SortableView {
        keys: seq![SortKeyView::Text(account.account_type), SortKeyView::Text(account.name)],
        descending: false,
        row: account,
    }
}

/// The accounts that are in use, in their order.
pub open spec fn accounts_in_use(accounts: Seq<AccountView>) -> Seq<AccountView> {
    accounts.filter(|account: AccountView| account.is_active == 1)
}

/// The accounts, each with what it is ordered by.
pub open spec fn keyed_accounts(accounts: Seq<AccountView>) -> Seq<SortableView<AccountView>> {
    accounts.map_values(|account: AccountView| keyed_account(account))
}

/// The accounts that are in use, by type and, within a type, by name.
pub open spec fn listed_accounts(accounts: Seq<AccountView>) -> Seq<AccountView> {
    rows_of(in_order(keyed_accounts(accounts_in_use(accounts))))
}

/// The accounts that are in use, by type and, within a type, by name.
pub fn list_accounts(ledger: &Ledger) -> (r: Vec<Account>)
    ensures
        views_of(r@) == listed_accounts(ledger@.accounts),
{
    let mut keyed: Vec<Sortable<Account>> = Vec::new();
    let mut i: usize = 0;
    proof {
        reveal(Seq::filter);
        assert(views_of(keyed@) =~= keyed_accounts(accounts_in_use(ledger@.accounts.take(0))));
    }
    while i < ledger.accounts.len()
        invariant
            i <= ledger.accounts.len(),
            views_of(keyed@) == keyed_accounts(accounts_in_use(ledger@.accounts.take(i as int))),
        decreases ledger.accounts.len() - i,
    {
        proof {
            reveal(Seq::filter);
            assert(ledger@.accounts.take(i + 1).drop_last() =~= ledger@.accounts.take(i as int));
        }
        let account = &ledger.accounts[i];
        if account.is_active == 1 {
            let mut keys: Vec<SortKey> = Vec::new();
            keys.push(SortKey::Text(account.account_type.clone()));
            keys.push(SortKey::Text(account.name.clone()));
            let row = Sortable { keys, descending: false, row: account.copy_of() };
            proof {
                assert(views_of(row.keys@) =~= keyed_account(account@).keys);
                lemma_views_after_push(keyed@, row);
                let before = accounts_in_use(ledger@.accounts.take(i as int));
                assert(keyed_accounts(before.push(account@)) =~= keyed_accounts(before).push(
                    row@,
                ));
            }
            keyed.push(row);
        }
        i = i + 1;
    }
    proof {
        assert(ledger@.accounts.take(ledger.accounts.len() as int) =~= ledger@.accounts);
    }
    unkeyed(sort(&keyed))
}

/// A category with what it is ordered by: its type, then whether it
/// stands below another, then its name.
pub open spec fn keyed_category(category: CategoryView) -> SortableView<CategoryView> {
    SortableView {
        keys: seq![
            SortKeyView::Text(category.category_type),
            SortKeyView::Number(
                if category.parent_id is Some {
                    1
                } else {
                    0
                },
            ),
            SortKeyView::Text(category.name),
        ],
        descending: false,
        row: category,
    }
}

/// The categories that are in use, in their order.
pub open spec fn categories_in_use(categories: Seq<CategoryView>) -> Seq<CategoryView> {
    categories.filter(|category: CategoryView| category.is_active == 1)
}

/// The categories, each with what it is ordered by.
pub open spec fn keyed_categories(categories: Seq<CategoryView>) -> Seq<SortableView<CategoryView>> {
    categories.map_values(|category: CategoryView| keyed_category(category))
}

/// The categories that are in use, by type; within a type those that
/// stand on their own first; and then by name.
pub open spec fn listed_categories(categories: Seq<CategoryView>) -> Seq<CategoryView> {
    rows_of(in_order(keyed_categories(categories_in_use(categories))))
}

/// The categories that are in use, by type; within a type those that
/// stand on their own first; and then by name.
pub fn list_categories(ledger: &Ledger) -> (r: Vec<Category>)
    ensures
        views_of(r@) == listed_categories(ledger@.categories),
{
    let mut keyed: Vec<Sortable<Category>> = Vec::new();
    let mut i: usize = 0;
    proof {
        reveal(Seq::filter);
        assert(views_of(keyed@) =~= keyed_categories(
            categories_in_use(ledger@.categories.take(0)),
        ));
    }
    while i < ledger.categories.len()
        invariant
            i <= ledger.categories.len(),
            views_of(keyed@) == keyed_categories(
                categories_in_use(ledger@.categories.take(i as int)),
            ),
        decreases ledger.categories.len() - i,
    {
        proof {
            reveal(Seq::filter);
            assert(ledger@.categories.take(i + 1).drop_last() =~= ledger@.categories.take(
                i as int,
            ));
        }
        let category = &ledger.categories[i];
        if category.is_active == 1 {
            let mut keys: Vec<SortKey> = Vec::new();
            keys.push(SortKey::Text(category.category_type.clone()));
            keys.push(
                SortKey::Number(
                    if category.parent_id.is_some() {
                        1
                    } else {
                        0
                    },
                ),
            );
            keys.push(SortKey::Text(category.name.clone()));
            let row = Sortable { keys, descending: false, row: category.copy_of() };
            proof {
                assert(views_of(row.keys@) =~= keyed_category(category@).keys);
                lemma_views_after_push(keyed@, row);
                let before = categories_in_use(ledger@.categories.take(i as int));
                assert(keyed_categories(before.push(category@)) =~= keyed_categories(
                    before,
                ).push(row@));
            }
            keyed.push(row);
        }
        i = i + 1;
    }
    proof {
        assert(ledger@.categories.take(ledger.categories.len() as int) =~= ledger@.categories);
    }
    unkeyed(sort(&keyed))
}

/// Whether the debt is one that the filter asks for: of the account it
/// names, active or not as it says, and with the text it seeks in its
/// description.
pub open spec fn debt_matches(
    debt: DebtView,
    account_id: Option<Seq<char>>,
    is_active: Option<bool>,
    search: Option<Seq<char>>,
) -> bool {
    &&& account_id matches Some(id) ==> debt.account_id == id
    &&& is_active matches Some(active) ==> debt.is_active == (if active {
        1int
    } else {
        0int
    })
    &&& search matches Some(text) ==> matches_pattern(search_pattern(text), debt.description)
}

/// A debt with its paid installments counted anew, and with what it is
/// ordered by: the time it was created, the latest first.
pub open spec fn keyed_debt(ledger: LedgerView, debt: DebtView) -> SortableView<DebtView> {
    SortableView {
        keys: seq![SortKeyView::Text(debt.created_at)],
        descending: true,
        row: DebtView { paid_installments: paid_count(ledger.installments, debt.id), ..debt },
    }
}

/// The debts that the filter asks for, counted anew and with what they
/// are ordered by, in their order; `AmountOverflow` where a count of
/// paid installments does not fit.
pub open spec fn debts_asked_for(
    ledger: LedgerView,
    debts: Seq<DebtView>,
    account_id: Option<Seq<char>>,
    is_active: Option<bool>,
    search: Option<Seq<char>>,
) -> Result<Seq<SortableView<DebtView>>, LedgerError>
    decreases debts.len(),
{
    if debts.len() == 0 {
        Ok(Seq::empty())
    } else {
        match debts_asked_for(ledger, debts.drop_last(), account_id, is_active, search) {
            Err(e) => Err(e),
            Ok(found) => if !debt_matches(debts.last(), account_id, is_active, search) {
                Ok(found)
            } else if paid_count(ledger.installments, debts.last().id) > i32::MAX {
                Err(LedgerError::AmountOverflow)
            } else {
                Ok(found.push(keyed_debt(ledger, debts.last())))
            },
        }
    }
}

/// The debts that the filter asks for, those created last first, each
/// with its paid installments counted from the installments.
pub open spec fn listed_debts(
    ledger: LedgerView,
    account_id: Option<Seq<char>>,
    is_active: Option<bool>,
    search: Option<Seq<char>>,
) -> Result<Seq<DebtView>, LedgerError> {
    match debts_asked_for(ledger, ledger.debts, account_id, is_active, search) {
        Ok(found) => Ok(rows_of(in_order(found))),
        Err(e) => Err(e),
    }
}

/// Whether the debt is one that the filter asks for.
fn is_debt_asked_for(debt: &Debt, filter: &DebtFilter) -> (r: bool)
    ensures
        r == debt_matches(
            debt@,
            text_of(filter.account_id),
            filter.is_active,
            text_of(filter.search),
        ),
{
    match &filter.account_id {
        Some(id) => {
            if !(debt.account_id == *id) {
                return false;
            }
        },
        None => {},
    }
    match filter.is_active {
        Some(active) => {
            let flag: i32 = if active {
                1
            } else {
                0
            };
            if debt.is_active != flag {
                return false;
            }
        },
        None => {},
    }
    match &filter.search {
        Some(text) => {
            if !contains_text(debt.description.as_str(), text.as_str()) {
                return false;
            }
        },
        None => {},
    }
    true
}

/// The debts that the filter asks for: those of the account it names,
/// active or not as it says, with the text it seeks in their
/// description; those created last first; each with its paid
/// installments counted from the installments. Fails with
/// `AmountOverflow` exactly where such a count does not fit.
pub fn list_debts(ledger: &Ledger, filter: &DebtFilter) -> (r: Result<Vec<Debt>, LedgerError>)
    ensures
        match r {
            Ok(debts) => listed_debts(
                ledger@,
                text_of(filter.account_id),
                filter.is_active,
                text_of(filter.search),
            ) == Ok::<Seq<DebtView>, LedgerError>(views_of(debts@)),
            Err(e) => listed_debts(
                ledger@,
                text_of(filter.account_id),
                filter.is_active,
                text_of(filter.search),
            ) == Err::<Seq<DebtView>, LedgerError>(e),
        },
{
    let mut keyed: Vec<Sortable<Debt>> = Vec::new();
    let mut failed = false;
    let mut i: usize = 0;
    proof {
        assert(views_of(keyed@) =~= Seq::<SortableView<DebtView>>::empty());
    }
    while i < ledger.debts.len()
        invariant
            i <= ledger.debts.len(),
            debts_asked_for(
                ledger@,
                ledger@.debts.take(i as int),
                text_of(filter.account_id),
                filter.is_active,
                text_of(filter.search),
            ) == if failed {
                Err::<Seq<SortableView<DebtView>>, LedgerError>(LedgerError::AmountOverflow)
            } else {
                Ok::<Seq<SortableView<DebtView>>, LedgerError>(views_of(keyed@))
            },
        decreases ledger.debts.len() - i,
    {
        proof {
            assert(ledger@.debts.take(i + 1).drop_last() =~= ledger@.debts.take(i as int));
        }
        let debt = &ledger.debts[i];
        if !failed && is_debt_asked_for(debt, filter) {
            let count: usize = count_paid(&ledger.installments, debt.id.as_str());
            if count > i32::MAX as usize {
                failed = true;
            } else {
                let mut counted = debt.copy_of();
                counted.paid_installments = count as i32;
                let mut keys: Vec<SortKey> = Vec::new();
                keys.push(SortKey::Text(debt.created_at.clone()));
                let row = Sortable { keys, descending: true, row: counted };
                proof {
                    assert(views_of(row.keys@) =~= keyed_debt(ledger@, debt@).keys);
                    lemma_views_after_push(keyed@, row);
                }
                keyed.push(row);
            }
        }
        i = i + 1;
    }
    proof {
        assert(ledger@.debts.take(ledger.debts.len() as int) =~= ledger@.debts);
    }
    if failed {
        Err(LedgerError::AmountOverflow)
    } else {
        Ok(unkeyed(sort(&keyed)))
    }
}

/// The currencies, each with what it is ordered by: its code.
pub open spec fn keyed_currencies(currencies: Seq<CurrencyView>) -> Seq<SortableView<CurrencyView>> {
    currencies.map_values(
        |currency: CurrencyView|
            SortableView {
                keys: seq![SortKeyView::Text(currency.code)],
                descending: false,
                row: currency,
            },
    )
}

/// The currencies by their code.
pub fn list_currencies(ledger: &Ledger) -> (r: Vec<Currency>)
    ensures
        views_of(r@) == rows_of(in_order(keyed_currencies(ledger@.currencies))),
{
    let mut keyed: Vec<Sortable<Currency>> = Vec::new();
    let mut i: usize = 0;
    while i < ledger.currencies.len()
        invariant
            i <= ledger.currencies.len(),
            keyed.len() == i,
            forall|k: int|
                0 <= k < i ==> (#[trigger] keyed[k])@ == keyed_currencies(ledger@.currencies)[k],
        decreases ledger.currencies.len() - i,
    {
        let currency = &ledger.currencies[i];
        let mut keys: Vec<SortKey> = Vec::new();
        keys.push(SortKey::Text(currency.code.clone()));
        proof {
            assert(views_of(keys@) =~= seq![SortKeyView::Text(currency@.code)]);
        }
        keyed.push(Sortable { keys, descending: false, row: currency.copy_of() });
        i = i + 1;
    }
    proof {
        assert(views_of(keyed@) =~= keyed_currencies(ledger@.currencies));
    }
    unkeyed(sort(&keyed))
}

} // verus!
