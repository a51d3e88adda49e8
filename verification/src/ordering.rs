//! Putting rows in order, so that rows of which neither comes before
//! the other stay in the order they had.

use crate::models::views_of;
use crate::text::{
    is_text_before, lemma_text_order_is_strict, lemma_text_order_is_total,
    lemma_text_order_is_transitive, text_before,
};
use vstd::prelude::*;

verus! {

/// A value that is ordered among its like.
pub trait Ordered: Sized {
    /// Whether this value comes before the other.
    spec fn precedes(self, other: Self) -> bool;

    /// Of two values at most one comes before the other; and where a
    /// third does not come before the second, nor the second before the
    /// first, the third does not come before the first.
    proof fn lemma_order(first: Self, second: Self, third: Self)
        ensures
            !(first.precedes(second) && second.precedes(first)),
            !second.precedes(first) && !third.precedes(second) ==> !third.precedes(first),
    ;
}

/// A row that is ordered by what it holds.
pub trait OrderedRow: View + Sized where Self::V: Ordered {
    /// Whether this row comes before the other.
    fn comes_before(&self, other: &Self) -> (r: bool)
        ensures
            r == self@.precedes(other@),
    ;

    /// A copy of the row.
    fn duplicate(&self) -> (r: Self)
        ensures
            r@ == self@,
    ;
}

/// The rows with one more, put behind the last of them that it does
/// not come before.
pub open spec fn placed<T: Ordered>(sorted: Seq<T>, row: T) -> Seq<T>
    decreases sorted.len(),
{
    if sorted.len() == 0 {
        seq![row]
    } else if !row.precedes(sorted.last()) {
        sorted.push(row)
    } else {
        placed(sorted.drop_last(), row).push(sorted.last())
    }
}

/// The rows in order; rows of which neither comes before the other
/// stay in the order they had.
pub open spec fn in_order<T: Ordered>(rows: Seq<T>) -> Seq<T>
    decreases rows.len(),
{
    if rows.len() == 0 {
        rows
    } else {
        placed(in_order(rows.drop_last()), rows.last())
    }
}

/// Whether no row comes before a row that stands before it.
pub open spec fn is_in_order<T: Ordered>(rows: Seq<T>) -> bool {
    forall|i: int, j: int|
        0 <= i < j < rows.len() ==> !(#[trigger] rows[j]).precedes(#[trigger] rows[i])
}

/// Placing a row is inserting it where the rows that it comes before
/// begin.
pub proof fn lemma_placed_is_insert<T: Ordered>(sorted: Seq<T>, row: T, at: int)
    requires
        0 <= at <= sorted.len(),
        forall|j: int| at <= j < sorted.len() ==> row.precedes(#[trigger] sorted[j]),
        at > 0 ==> !row.precedes(sorted[at - 1]),
    ensures
        placed(sorted, row) == sorted.insert(at, row),
    decreases sorted.len(),
{
    if sorted.len() == 0 {
        assert(seq![row] =~= sorted.insert(at, row));
    } else if at == sorted.len() {
        assert(sorted.push(row) =~= sorted.insert(at, row));
    } else {
        assert(row.precedes(sorted[sorted.len() - 1]));
        lemma_placed_is_insert(sorted.drop_last(), row, at);
        assert(sorted.drop_last().insert(at, row).push(sorted.last()) =~= sorted.insert(at, row));
    }
}

/// Placing a row keeps the order, and keeps every row.
pub proof fn lemma_placed_keeps_order<T: Ordered>(sorted: Seq<T>, row: T)
    requires
        is_in_order(sorted),
    ensures
        is_in_order(placed(sorted, row)),
        placed(sorted, row).len() == sorted.len() + 1,
        placed(sorted, row).to_multiset() == sorted.to_multiset().insert(row),
    decreases sorted.len(),
{
    broadcast use vstd::seq_lib::group_to_multiset_ensures;

    if sorted.len() == 0 {
        assert(sorted =~= Seq::<T>::empty());
        assert(seq![row] =~= Seq::<T>::empty().push(row));
    } else if !row.precedes(sorted.last()) {
        let result = sorted.push(row);
        assert forall|i: int, j: int| 0 <= i < j < result.len() implies !(
        #[trigger] result[j]).precedes(#[trigger] result[i]) by {
            if j == sorted.len() {
                if i < sorted.len() - 1 {
                    assert(!sorted[sorted.len() - 1].precedes(sorted[i]));
                    T::lemma_order(sorted[i], sorted.last(), row);
                }
            } else {
                assert(!sorted[j].precedes(sorted[i]));
            }
        }
    } else {
        let front = sorted.drop_last();
        assert forall|i: int, j: int| 0 <= i < j < front.len() implies !(
        #[trigger] front[j]).precedes(#[trigger] front[i]) by {
            assert(!sorted[j].precedes(sorted[i]));
        }
        lemma_placed_keeps_order(front, row);
        let inner = placed(front, row);
        let result = inner.push(sorted.last());
        assert(sorted =~= front.push(sorted.last()));
        assert forall|k: int| 0 <= k < inner.len() implies !sorted.last().precedes(
            #[trigger] inner[k],
        ) by {
            assert(inner.to_multiset().count(inner[k]) > 0);
            if inner[k] != row {
                assert(front.to_multiset().count(inner[k]) > 0);
                assert(front.contains(inner[k]));
                let at = choose|at: int| 0 <= at < front.len() && front[at] == inner[k];
                assert(!sorted[sorted.len() - 1].precedes(sorted[at]));
            } else {
                T::lemma_order(row, sorted.last(), row);
            }
        }
        assert forall|i: int, j: int| 0 <= i < j < result.len() implies !(
        #[trigger] result[j]).precedes(#[trigger] result[i]) by {
            if j < inner.len() {
                assert(!inner[j].precedes(inner[i]));
            } else {
                assert(!sorted.last().precedes(inner[i]));
            }
        }
        assert(result.to_multiset() =~= sorted.to_multiset().insert(row));
    }
}

/// Rows put in order are in order, and are the same rows, each as
/// often as before.
pub proof fn lemma_in_order<T: Ordered>(rows: Seq<T>)
    ensures
        is_in_order(in_order(rows)),
        in_order(rows).len() == rows.len(),
        in_order(rows).to_multiset() == rows.to_multiset(),
    decreases rows.len(),
{
    broadcast use vstd::seq_lib::group_to_multiset_ensures;

    if rows.len() > 0 {
        lemma_in_order(rows.drop_last());
        lemma_placed_keeps_order(in_order(rows.drop_last()), rows.last());
        assert(rows =~= rows.drop_last().push(rows.last()));
    }
}

/// Puts one more row among those in order.
fn place<R: OrderedRow>(sorted: &mut Vec<R>, row: R) where R::V: Ordered
    ensures
        views_of(final(sorted)@) == placed(views_of(old(sorted)@), row@),
{
    let mut at: usize = sorted.len();
    while at > 0 && row.comes_before(&sorted[at - 1])
        invariant
            at <= sorted.len(),
            *sorted == *old(sorted),
            forall|j: int|
                at <= j < sorted.len() ==> row@.precedes(#[trigger] views_of(sorted@)[j]),
        decreases at,
    {
        at = at - 1;
    }
    proof {
        lemma_placed_is_insert(views_of(sorted@), row@, at as int);
        assert(views_of(sorted@.insert(at as int, row)) =~= views_of(sorted@).insert(
            at as int,
            row@,
        ));
    }
    sorted.insert(at, row);
}

/// The rows in order; rows of which neither comes before the other
/// stay in the order they had.
pub fn sort<R: OrderedRow>(rows: &Vec<R>) -> (r: Vec<R>) where R::V: Ordered
    ensures
        views_of(r@) == in_order(views_of(rows@)),
{
    let mut sorted: Vec<R> = Vec::new();
    let mut i: usize = 0;
    proof {
        assert(views_of(rows@).take(0) =~= Seq::<R::V>::empty());
        assert(views_of(sorted@) =~= Seq::<R::V>::empty());
    }
    while i < rows.len()
        invariant
            i <= rows.len(),
            views_of(sorted@) == in_order(views_of(rows@).take(i as int)),
        decreases rows.len() - i,
    {
        proof {
            assert(views_of(rows@).take(i + 1).drop_last() =~= views_of(rows@).take(i as int));
        }
        place(&mut sorted, rows[i].duplicate());
        i = i + 1;
    }
    proof {
        assert(views_of(rows@).take(rows.len() as int) =~= views_of(rows@));
    }
    sorted
}

/// One of the values that rows are ordered by: a number or a text.
#[derive(Clone, Debug, PartialEq, Eq)]
pub enum SortKey {
    Number(i64),
    Text(String),
}

/// One of the values that rows are ordered by, as a mathematical
/// value.
pub enum SortKeyView {
    Number(int),
    Text(Seq<char>),
}

impl View for SortKey {
    type V = SortKeyView;

    open spec fn view(&self) -> SortKeyView {
        match self {
            SortKey::Number(number) => SortKeyView::Number(*number as int),
            SortKey::Text(text) => SortKeyView::Text(text@),
        }
    }
}

/// Whether the first key comes before the second: the lower number,
/// the text that `text_before` puts first; and a number before a text.
pub open spec fn key_before(first: SortKeyView, second: SortKeyView) -> bool {
    match (first, second) {
        (SortKeyView::Number(a), SortKeyView::Number(b)) => a < b,
        (SortKeyView::Text(a), SortKeyView::Text(b)) => text_before(a, b),
        (SortKeyView::Number(_), SortKeyView::Text(_)) => true,
        (SortKeyView::Text(_), SortKeyView::Number(_)) => false,
    }
}

/// Whether the first list of keys comes before the second: the first
/// keys in which they differ decide, and a list comes before every
/// longer list that begins with it.
pub open spec fn keys_before(first: Seq<SortKeyView>, second: Seq<SortKeyView>) -> bool
    decreases first.len(),
{
    if second.len() == 0 {
        false
    } else if first.len() == 0 {
        true
    } else if key_before(first[0], second[0]) {
        true
    } else if key_before(second[0], first[0]) {
        false
    } else {
        keys_before(first.drop_first(), second.drop_first())
    }
}

/// Of two keys that differ exactly one comes before the other, and
/// what comes before a key that comes before a third comes before the
/// third.
pub proof fn lemma_key_order(first: SortKeyView, second: SortKeyView, third: SortKeyView)
    ensures
        !key_before(first, first),
        first != second ==> (key_before(first, second) <==> !key_before(second, first)),
        key_before(first, second) && key_before(second, third) ==> key_before(first, third),
{
    match (first, second, third) {
        (SortKeyView::Text(a), SortKeyView::Text(b), SortKeyView::Text(c)) => {
            lemma_text_order_is_strict(a);
            lemma_text_order_is_total(a, b);
            if text_before(a, b) && text_before(b, c) {
                lemma_text_order_is_transitive(a, b, c);
            }
        },
        (SortKeyView::Text(a), SortKeyView::Text(b), _) => {
            lemma_text_order_is_strict(a);
            lemma_text_order_is_total(a, b);
        },
        (SortKeyView::Text(a), _, _) => {
            lemma_text_order_is_strict(a);
        },
        _ => {},
    }
}

/// Of two lists of keys at most one comes before the other; and where a
/// third does not come before the second, nor the second before the
/// first, the third does not come before the first.
pub proof fn lemma_keys_order(
    first: Seq<SortKeyView>,
    second: Seq<SortKeyView>,
    third: Seq<SortKeyView>,
)
    ensures
        !(keys_before(first, second) && keys_before(second, first)),
        !keys_before(second, first) && !keys_before(third, second) ==> !keys_before(third, first),
    decreases first.len(),
{
    if first.len() > 0 && second.len() > 0 {
        lemma_key_order(first[0], second[0], first[0]);
        lemma_key_order(second[0], first[0], second[0]);
        if third.len() > 0 {
            lemma_key_order(first[0], second[0], third[0]);
            lemma_key_order(third[0], second[0], first[0]);
            lemma_key_order(third[0], first[0], second[0]);
            lemma_key_order(second[0], third[0], first[0]);
            lemma_key_order(first[0], third[0], second[0]);
            lemma_key_order(second[0], first[0], third[0]);
            lemma_keys_order(first.drop_first(), second.drop_first(), third.drop_first());
        } else {
            lemma_keys_order(first.drop_first(), second.drop_first(), third);
        }
    }
}

/// Whether the first key comes before the second.
fn is_key_before(first: &SortKey, second: &SortKey) -> (r: bool)
    ensures
        r == key_before(first@, second@),
{
    match (first, second) {
        (SortKey::Number(a), SortKey::Number(b)) => *a < *b,
        (SortKey::Text(a), SortKey::Text(b)) => is_text_before(a.as_str(), b.as_str()),
        (SortKey::Number(_), SortKey::Text(_)) => true,
        (SortKey::Text(_), SortKey::Number(_)) => false,
    }
}

/// Whether the first list of keys comes before the second.
pub fn are_keys_before(first: &Vec<SortKey>, second: &Vec<SortKey>) -> (r: bool)
    ensures
        r == keys_before(views_of(first@), views_of(second@)),
{
    let mut i: usize = 0;
    proof {
        assert(views_of(first@).skip(0) =~= views_of(first@));
        assert(views_of(second@).skip(0) =~= views_of(second@));
    }
    while i < first.len() && i < second.len()
        invariant
            i <= first.len(),
            i <= second.len(),
            keys_before(views_of(first@), views_of(second@)) == keys_before(
                views_of(first@).skip(i as int),
                views_of(second@).skip(i as int),
            ),
        decreases first.len() - i,
    {
        proof {
            assert(views_of(first@).skip(i as int).drop_first() =~= views_of(first@).skip(i + 1));
            assert(views_of(second@).skip(i as int).drop_first() =~= views_of(second@).skip(
                i + 1,
            ));
        }
        if is_key_before(&first[i], &second[i]) {
            return true;
        }
        if is_key_before(&second[i], &first[i]) {
            return false;
        }
        i = i + 1;
    }
    proof {
        assert(views_of(first@).skip(i as int).len() == first.len() - i);
        assert(views_of(second@).skip(i as int).len() == second.len() - i);
    }
    i < second.len()
}

/// A row that can be copied.
pub trait Copied: View + Sized {
    /// A copy of the row.
    fn duplicate(&self) -> (r: Self)
        ensures
            r@ == self@,
    ;
}

/// A row with the keys that it is ordered by, the first key first.
/// Rows to be listed from the last to the first are `descending`.
pub struct Sortable<T> {
    pub keys: Vec<SortKey>,
    pub descending: bool,
    pub row: T,
}

/// A row with the keys that it is ordered by, as mathematical values.
pub struct SortableView<V> {
    pub keys: Seq<SortKeyView>,
    pub descending: bool,
    pub row: V,
}

impl<T: View> View for Sortable<T> {
    type V = SortableView<T::V>;

    open spec fn view(&self) -> SortableView<T::V> {
        SortableView { keys: views_of(self.keys@), descending: self.descending, row: self.row@ }
    }
}

impl<V> Ordered for SortableView<V> {
    /// Rows come in the order of their keys; descending rows come in
    /// the opposite order, and after the others.
    open spec fn precedes(self, other: SortableView<V>) -> bool {
        if self.descending != other.descending {
            other.descending
        } else if self.descending {
            keys_before(other.keys, self.keys)
        } else {
            keys_before(self.keys, other.keys)
        }
    }

    proof fn lemma_order(first: SortableView<V>, second: SortableView<V>, third: SortableView<V>) {
        lemma_keys_order(first.keys, second.keys, third.keys);
        lemma_keys_order(third.keys, second.keys, first.keys);
        lemma_keys_order(second.keys, first.keys, second.keys);
    }
}

/// A copy of a list of keys.
fn copy_keys(keys: &Vec<SortKey>) -> (r: Vec<SortKey>)
    ensures
        views_of(r@) == views_of(keys@),
{
    let mut copy: Vec<SortKey> = Vec::new();
    let mut i: usize = 0;
    while i < keys.len()
        invariant
            i <= keys.len(),
            copy.len() == i,
            forall|k: int| 0 <= k < i ==> (#[trigger] copy[k])@ == keys[k]@,
        decreases keys.len() - i,
    {
        let key = match &keys[i] {
            SortKey::Number(number) => SortKey::Number(*number),
            SortKey::Text(text) => SortKey::Text(text.clone()),
        };
        copy.push(key);
        i = i + 1;
    }
    proof {
        assert(views_of(copy@) =~= views_of(keys@));
    }
    copy
}

impl<T: Copied> OrderedRow for Sortable<T> {
    fn comes_before(&self, other: &Sortable<T>) -> (r: bool) {
        if self.descending != other.descending {
            other.descending
        } else if self.descending {
            are_keys_before(&other.keys, &self.keys)
        } else {
            are_keys_before(&self.keys, &other.keys)
        }
    }

    fn duplicate(&self) -> (r: Sortable<T>) {
        Sortable {
            keys: copy_keys(&self.keys),
            descending: self.descending,
            row: self.row.duplicate(),
        }
    }
}

/// The rows without their keys.
pub open spec fn rows_of<V>(keyed: Seq<SortableView<V>>) -> Seq<V> {
    keyed.map_values(|row: SortableView<V>| row.row)
}

/// The rows of a list of keyed rows, without their keys.
pub fn unkeyed<T: Copied>(keyed: Vec<Sortable<T>>) -> (r: Vec<T>)
    ensures
        views_of(r@) == rows_of(views_of(keyed@)),
{
    let mut rows: Vec<T> = Vec::new();
    let mut i: usize = 0;
    while i < keyed.len()
        invariant
            i <= keyed.len(),
            rows.len() == i,
            forall|k: int| 0 <= k < i ==> (#[trigger] rows[k])@ == keyed[k]@.row,
        decreases keyed.len() - i,
    {
        rows.push(keyed[i].row.duplicate());
        i = i + 1;
    }
    proof {
        assert(views_of(rows@) =~= rows_of(views_of(keyed@)));
    }
    rows
}

} // verus!
