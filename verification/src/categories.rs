//! Categories of income and expense: a category may stand below one
//! parent, one level deep, and has the type of its parent. Its type
//! cannot change while transactions are linked to it or to a category
//! below it.

use crate::errors::LedgerError;
use crate::ledger::{
    find, fresh_id, keys_are_unique, lemma_filter_places, lemma_position_after_push,
    lemma_position_is_first, lemma_same_keys_same_position, lemma_unique_after_filter,
    lemma_unique_after_push, lemma_unique_position, outcome_view, position, Keyed, Ledger,
    LedgerView,
};
use crate::models::{
    copy_text, lemma_views_after_push, lemma_views_after_update, text_of, views_of, Category,
    CategoryView, TransactionView,
};
use vstd::prelude::*;

verus! {

/// How many transactions are booked under the category.
pub open spec fn linked_count(transactions: Seq<TransactionView>, category_id: Seq<char>) -> int
    decreases transactions.len(),
{
    if transactions.len() == 0 {
        0
    } else {
        linked_count(transactions.drop_last(), category_id) + if transactions.last().category_id
            == category_id {
            1int
        } else {
            0int
        }
    }
}

/// A count of transactions is between none and all of them.
pub proof fn lemma_linked_count_bounds(transactions: Seq<TransactionView>, category_id: Seq<char>)
    ensures
        0 <= linked_count(transactions, category_id) <= transactions.len(),
    decreases transactions.len(),
{
    if transactions.len() > 0 {
        lemma_linked_count_bounds(transactions.drop_last(), category_id);
    }
}

/// Whether the category stands directly below the one with the id.
pub open spec fn is_child_of(category: CategoryView, parent_id: Seq<char>) -> bool {
    category.parent_id == Some(parent_id)
}

/// The categories that stand directly below the one with the id, in
/// their order.
pub open spec fn children(categories: Seq<CategoryView>, parent_id: Seq<char>) -> Seq<
    CategoryView,
> {
    categories.filter(|category: CategoryView| is_child_of(category, parent_id))
}

/// Place, among the first `count` of the categories, of the first that
/// has transactions booked under it.
pub open spec fn first_linked(
    transactions: Seq<TransactionView>,
    categories: Seq<CategoryView>,
    count: int,
) -> Option<int>
    decreases count,
{
    if count <= 0 {
        None
    } else {
        match first_linked(transactions, categories, count - 1) {
            Some(at) => Some(at),
            None => if linked_count(transactions, categories[count - 1].id) > 0 {
                Some(count - 1)
            } else {
                None
            },
        }
    }
}

/// What `first_linked` finds is the first category with transactions,
/// and it finds one wherever there is one.
pub proof fn lemma_first_linked(
    transactions: Seq<TransactionView>,
    categories: Seq<CategoryView>,
    count: int,
)
    ensures
        match first_linked(transactions, categories, count) {
            Some(at) => {
                &&& 0 <= at < count
                &&& linked_count(transactions, categories[at].id) > 0
                &&& forall|k: int|
                    0 <= k < at ==> linked_count(transactions, (#[trigger] categories[k]).id) == 0
            },
            None => forall|k: int|
                0 <= k < count ==> linked_count(transactions, (#[trigger] categories[k]).id) == 0,
        },
    decreases count,
{
    if count > 0 {
        lemma_first_linked(transactions, categories, count - 1);
        lemma_linked_count_bounds(transactions, categories[count - 1].id);
        if let Some(at) = first_linked(transactions, categories, count - 1) {
        } else {
            assert forall|k: int| 0 <= k < count - 1 implies linked_count(
                transactions,
                (#[trigger] categories[k]).id,
            ) == 0 by {}
        }
    }
}

/// How many transactions are booked under the category.
pub fn count_transactions(ledger: &Ledger, category_id: &str) -> (r: usize)
    ensures
        r == linked_count(ledger@.transactions, category_id@),
{
    let wanted = category_id.to_owned();
    let mut count: usize = 0;
    let mut i: usize = 0;
    while i < ledger.transactions.len()
        invariant
            i <= ledger.transactions.len(),
            wanted@ == category_id@,
            count <= i,
            count == linked_count(ledger@.transactions.take(i as int), category_id@),
        decreases ledger.transactions.len() - i,
    {
        proof {
            assert(ledger@.transactions.take(i + 1).drop_last() =~= ledger@.transactions.take(
                i as int,
            ));
        }
        if ledger.transactions[i].category_id == wanted {
            count = count + 1;
        }
        i = i + 1;
    }
    proof {
        assert(ledger@.transactions.take(ledger.transactions.len() as int)
            =~= ledger@.transactions);
    }
    count
}

/// Whether a transaction is booked under the category.
pub fn has_transactions(ledger: &Ledger, category_id: &str) -> (r: bool)
    ensures
        r == (linked_count(ledger@.transactions, category_id@) > 0),
{
    count_transactions(ledger, category_id) > 0
}

/// The categories that stand directly below the one with the id.
pub fn get_subcategories(ledger: &Ledger, parent_id: &str) -> (r: Vec<Category>)
    ensures
        views_of(r@) == children(ledger@.categories, parent_id@),
{
    let wanted = parent_id.to_owned();
    let mut found: Vec<Category> = Vec::new();
    let mut i: usize = 0;
    proof {
        reveal(Seq::filter);
        assert(views_of(found@) =~= ledger@.categories.take(0));
    }
    while i < ledger.categories.len()
        invariant
            i <= ledger.categories.len(),
            wanted@ == parent_id@,
            views_of(found@) == children(ledger@.categories.take(i as int), parent_id@),
        decreases ledger.categories.len() - i,
    {
        proof {
            reveal(Seq::filter);
            assert(ledger@.categories.take(i + 1).drop_last() =~= ledger@.categories.take(
                i as int,
            ));
        }
        let below = match &ledger.categories[i].parent_id {
            Some(parent) => *parent == wanted,
            None => false,
        };
        if below {
            let copy = ledger.categories[i].copy_of();
            proof {
                lemma_views_after_push(found@, copy);
            }
            found.push(copy);
        }
        i = i + 1;
    }
    proof {
        assert(ledger@.categories.take(ledger.categories.len() as int) =~= ledger@.categories);
    }
    found
}

/// The category with the id; `CategoryNotFound` where there is none.
pub fn get_category(ledger: &Ledger, id: String) -> (r: Result<Category, LedgerError>)
    ensures
        match r {
            Ok(category) => crate::ledger::lookup(ledger@.categories, id@) == Some(category@),
            Err(e) => e == LedgerError::CategoryNotFound && crate::ledger::lookup(
                ledger@.categories,
                id@,
            ) is None,
        },
{
    match find(&ledger.categories, id.as_str()) {
        Some(i) => Ok(ledger.categories[i].copy_of()),
        None => Err(LedgerError::CategoryNotFound),
    }
}

/// The row of a category that has just been created: active, and
/// without the time that the store will stamp on it.
pub open spec fn new_category(
    id: Seq<char>,
    name: Seq<char>,
    category_type: Seq<char>,
    icon: Option<Seq<char>>,
    parent_id: Option<Seq<char>>,
) -> CategoryView {
    CategoryView {
        id,
        name,
        category_type,
        icon,
        parent_id,
        is_active: 1,
        created_at: Seq::empty(),
    }
}

/// What creating a category gives, and the ledger after it.
///
/// A category that is to stand below a parent needs that parent to
/// exist (`ParentCategoryNotFound`) and to have no parent itself
/// (`NestedSubcategory`); it takes the type of its parent, whatever
/// type was asked for. The store refuses an id that is taken
/// (`DuplicateId`). A failure leaves the ledger as it was; otherwise the
/// category is added.
pub open spec fn create_category_spec(
    pre: LedgerView,
    id: Seq<char>,
    name: Seq<char>,
    category_type: Seq<char>,
    icon: Option<Seq<char>>,
    parent_id: Option<Seq<char>>,
) -> (Result<CategoryView, LedgerError>, LedgerView) {
    let parent = position(pre.categories, parent_id->0);
    let row = new_category(
        id,
        name,
        if parent_id is Some {
            pre.categories[parent->0].category_type
        } else {
            category_type
        },
        icon,
        parent_id,
    );
    if parent_id is Some && parent is None {
        (Err(LedgerError::ParentCategoryNotFound), pre)
    } else if parent_id is Some && pre.categories[parent->0].parent_id is Some {
        (Err(LedgerError::NestedSubcategory), pre)
    } else if position(pre.categories, id) is Some {
        (Err(LedgerError::DuplicateId), pre)
    } else {
        (Ok(row), LedgerView { categories: pre.categories.push(row), ..pre })
    }
}

/// Creates a category under the given id: see `create_category_spec`.
pub fn create_category_with_id(
    ledger: &mut Ledger,
    id: String,
    name: String,
    category_type: String,
    icon: Option<String>,
    parent_id: Option<String>,
) -> (r: Result<Category, LedgerError>)
    ensures
        (outcome_view(r), final(ledger)@) == create_category_spec(
            old(ledger)@,
            id@,
            name@,
            category_type@,
            text_of(icon),
            text_of(parent_id),
        ),
{
    let mut final_type = category_type;
    match &parent_id {
        Some(parent) => {
            match find(&ledger.categories, parent.as_str()) {
                None => {
                    return Err(LedgerError::ParentCategoryNotFound);
                },
                Some(p) => {
                    if ledger.categories[p].parent_id.is_some() {
                        return Err(LedgerError::NestedSubcategory);
                    }
                    final_type = ledger.categories[p].category_type.clone();
                },
            }
        },
        None => {},
    }
    if find(&ledger.categories, id.as_str()).is_some() {
        return Err(LedgerError::DuplicateId);
    }
    let row = Category {
        id,
        name,
        category_type: final_type,
        icon,
        parent_id,
        is_active: 1,
        created_at: String::new(),
    };
    let created = row.copy_of();
    proof {
        lemma_views_after_push(ledger.categories@, row);
    }
    ledger.categories.push(row);
    Ok(created)
}

/// Creates a category; below a parent it takes the type of the parent.
/// The id of the new category is drawn at random; what follows from it
/// is what `create_category_with_id` does.
pub fn create_category(
    ledger: &mut Ledger,
    name: String,
    category_type: String,
    icon: Option<String>,
    parent_id: Option<String>,
) -> (r: Result<Category, LedgerError>)
    ensures
        exists|id: Seq<char>|
            (outcome_view(r), final(ledger)@) == #[trigger] create_category_spec(
                old(ledger)@,
                id,
                name@,
                category_type@,
                text_of(icon),
                text_of(parent_id),
            ),
{
    let id = fresh_id();
    create_category_with_id(ledger, id, name, category_type, icon, parent_id)
}

/// What to change of a category. A name or a type that is not given
/// stays. The icon is always set anew, and is cleared where none is
/// given. A parent that is not given stays; a parent given as the empty
/// text makes the category stand on its own.
pub struct CategoryChanges {
    pub name: Option<Seq<char>>,
    pub category_type: Option<Seq<char>>,
    pub icon: Option<Seq<char>>,
    pub parent_id: Option<Seq<char>>,
}

/// Whether the changes give the category another type than it has.
pub open spec fn changes_type(existing: CategoryView, changes: CategoryChanges) -> bool {
    changes.category_type matches Some(wanted) && wanted != existing.category_type
}

/// Whether one of the categories has transactions booked under it.
pub open spec fn any_linked(
    transactions: Seq<TransactionView>,
    categories: Seq<CategoryView>,
) -> bool {
    first_linked(transactions, categories, categories.len() as int) is Some
}

/// The row that a category becomes when it is changed.
pub open spec fn merged_category(existing: CategoryView, changes: CategoryChanges) -> CategoryView {
    CategoryView {
        name: changes.name.unwrap_or(existing.name),
        category_type: changes.category_type.unwrap_or(existing.category_type),
        icon: changes.icon,
        parent_id: match changes.parent_id {
            Some(parent) => if parent.len() == 0 {
                None
            } else {
                Some(parent)
            },
            None => existing.parent_id,
        },
        ..existing
    }
}

/// The categories, with the type set anew on every one that stands
/// directly below the category with the id.
pub open spec fn with_children_retyped(
    categories: Seq<CategoryView>,
    parent_id: Seq<char>,
    category_type: Seq<char>,
) -> Seq<CategoryView> {
    categories.map_values(
        |category: CategoryView|
            if is_child_of(category, parent_id) {
                CategoryView { category_type, ..category }
            } else {
                category
            },
    )
}

/// The rule that changing the category breaks, if any; the first in
/// this order.
///
/// The category exists (`CategoryNotFound`). Where its type changes, no
/// transaction is booked under it or under a category below it
/// (`TypeChangeWithTransactions`), and, where it stays below the parent
/// it has, the new type is the type of that parent
/// (`ParentTypeMismatch`). Where a parent is given, the category has no
/// categories below it (`ParentCategoryMove`); and unless the parent
/// is given as the empty text, it is not the category itself
/// (`NestedSubcategory`), it exists (`ParentCategoryNotFound`), it has
/// no parent (`NestedSubcategory`), and it has the type that the
/// category will have (`ParentTypeMismatch`).
pub open spec fn update_category_refusal(
    pre: LedgerView,
    id: Seq<char>,
    changes: CategoryChanges,
) -> Option<LedgerError> {
    let at = position(pre.categories, id);
    let existing = pre.categories[at->0];
    let below = children(pre.categories, id);
    let kept_parent = position(pre.categories, existing.parent_id->0);
    let new_parent = position(pre.categories, changes.parent_id->0);
    let final_type = changes.category_type.unwrap_or(existing.category_type);
    if at is None {
        Some(LedgerError::CategoryNotFound)
    } else if changes_type(existing, changes) && (linked_count(pre.transactions, id) > 0
        || any_linked(pre.transactions, below)) {
        Some(LedgerError::TypeChangeWithTransactions)
    } else if changes_type(existing, changes) && changes.parent_id is None && existing.parent_id
        is Some && kept_parent is Some && pre.categories[kept_parent->0].category_type
        != final_type {
        Some(LedgerError::ParentTypeMismatch)
    } else if changes.parent_id is None {
        None
    } else if below.len() > 0 {
        Some(LedgerError::ParentCategoryMove)
    } else if changes.parent_id->0.len() == 0 {
        None
    } else if changes.parent_id->0 == id {
        Some(LedgerError::NestedSubcategory)
    } else if new_parent is None {
        Some(LedgerError::ParentCategoryNotFound)
    } else if pre.categories[new_parent->0].parent_id is Some {
        Some(LedgerError::NestedSubcategory)
    } else if pre.categories[new_parent->0].category_type != final_type {
        Some(LedgerError::ParentTypeMismatch)
    } else {
        None
    }
}

/// What changing the category with the id gives, and the ledger after
/// it.
///
/// A change that breaks a rule is refused with that rule (see
/// `update_category_refusal`) and leaves the ledger as it was.
/// Otherwise the merged row takes the place of the category, and, where
/// its type has changed, every category directly below it takes the new
/// type too.
pub open spec fn update_category_spec(pre: LedgerView, id: Seq<char>, changes: CategoryChanges) -> (
    Result<CategoryView, LedgerError>,
    LedgerView,
) {
    match update_category_refusal(pre, id, changes) {
        Some(e) => (Err(e), pre),
        None => {
            let at = position(pre.categories, id)->0;
            let existing = pre.categories[at];
            let row = merged_category(existing, changes);
            let cascaded = if changes_type(existing, changes) {
                with_children_retyped(pre.categories, id, row.category_type)
            } else {
                pre.categories
            };
            (Ok(row), LedgerView { categories: cascaded.update(at, row), ..pre })
        },
    }
}

/// Whether one of the categories has transactions booked under it, and
/// the place of the first that has.
fn find_linked(ledger: &Ledger, categories: &Vec<Category>) -> (r: Option<(usize, usize)>)
    ensures
        match r {
            Some((at, count)) => first_linked(
                ledger@.transactions,
                views_of(categories@),
                categories.len() as int,
            ) == Some(at as int) && count == linked_count(
                ledger@.transactions,
                views_of(categories@)[at as int].id,
            ) && at < categories.len(),
            None => first_linked(
                ledger@.transactions,
                views_of(categories@),
                categories.len() as int,
            ) is None,
        },
{
    let mut k: usize = 0;
    while k < categories.len()
        invariant
            k <= categories.len(),
            first_linked(ledger@.transactions, views_of(categories@), k as int) is None,
        decreases categories.len() - k,
    {
        let count: usize = count_transactions(ledger, categories[k].id.as_str());
        if count > 0 {
            proof {
                lemma_first_linked_stays(
                    ledger@.transactions,
                    views_of(categories@),
                    k + 1,
                    categories.len() as int,
                );
            }
            return Some((k, count));
        }
        k = k + 1;
    }
    None
}

/// A category with transactions that is the first among some is the
/// first among more.
pub proof fn lemma_first_linked_stays(
    transactions: Seq<TransactionView>,
    categories: Seq<CategoryView>,
    count: int,
    more: int,
)
    requires
        count <= more,
        first_linked(transactions, categories, count) is Some,
    ensures
        first_linked(transactions, categories, more) == first_linked(
            transactions,
            categories,
            count,
        ),
    decreases more - count,
{
    if count < more {
        lemma_first_linked_stays(transactions, categories, count, more - 1);
    }
}

/// Changes a category. Its type changes only while no transaction is
/// linked to it or to a category below it, and the categories below it
/// then change with it; it moves below a parent only where that keeps
/// the categories one level deep and of one type with their parent.
/// Every rule is checked before anything is written.
pub fn update_category(
    ledger: &mut Ledger,
    id: String,
    name: Option<String>,
    category_type: Option<String>,
    icon: Option<String>,
    parent_id: Option<String>,
) -> (r: Result<Category, LedgerError>)
    ensures
        (outcome_view(r), final(ledger)@) == update_category_spec(
            old(ledger)@,
            id@,
            CategoryChanges {
                name: text_of(name),
                category_type: text_of(category_type),
                icon: text_of(icon),
                parent_id: text_of(parent_id),
            },
        ),
{
    let ghost changes = CategoryChanges {
        name: text_of(name),
        category_type: text_of(category_type),
        icon: text_of(icon),
        parent_id: text_of(parent_id),
    };
    let at = match find(&ledger.categories, id.as_str()) {
        Some(at) => at,
        None => {
            return Err(LedgerError::CategoryNotFound);
        },
    };
    let below = get_subcategories(ledger, id.as_str());
    let existing = ledger.categories[at].copy_of();
    let final_type = match &category_type {
        Some(wanted) => wanted.clone(),
        None => existing.category_type.clone(),
    };
    let type_changes = !(final_type == existing.category_type);
    if type_changes {
        if has_transactions(ledger, id.as_str()) {
            return Err(LedgerError::TypeChangeWithTransactions);
        }
        if find_linked(ledger, &below).is_some() {
            return Err(LedgerError::TypeChangeWithTransactions);
        }
        if parent_id.is_none() {
            match &existing.parent_id {
                Some(kept) => match find(&ledger.categories, kept.as_str()) {
                    Some(p) => {
                        if !(ledger.categories[p].category_type == final_type) {
                            return Err(LedgerError::ParentTypeMismatch);
                        }
                    },
                    None => {},
                },
                None => {},
            }
        }
    }
    match &parent_id {
        Some(parent) => {
            if below.len() > 0 {
                return Err(LedgerError::ParentCategoryMove);
            }
            if !parent.as_str().is_empty() {
                if *parent == id {
                    return Err(LedgerError::NestedSubcategory);
                }
                match find(&ledger.categories, parent.as_str()) {
                    None => {
                        return Err(LedgerError::ParentCategoryNotFound);
                    },
                    Some(p) => {
                        if ledger.categories[p].parent_id.is_some() {
                            return Err(LedgerError::NestedSubcategory);
                        }
                        if !(ledger.categories[p].category_type == final_type) {
                            return Err(LedgerError::ParentTypeMismatch);
                        }
                    },
                }
            }
        },
        None => {},
    }
    assert(update_category_refusal(old(ledger)@, id@, changes) is None);
    let row = Category {
        id: existing.id.clone(),
        name: match name {
            Some(text) => text,
            None => existing.name.clone(),
        },
        category_type: final_type,
        icon,
        parent_id: match parent_id {
            Some(parent) => if parent.as_str().is_empty() {
                None
            } else {
                Some(parent)
            },
            None => copy_text(&existing.parent_id),
        },
        is_active: existing.is_active,
        created_at: existing.created_at.clone(),
    };
    assert(row@ == merged_category(existing@, changes));
    let updated = row.copy_of();
    if type_changes {
        update_subcategory_types(ledger, id.as_str(), updated.category_type.as_str());
    }
    proof {
        assert(ledger@.categories.len() == old(ledger)@.categories.len());
        assert(views_of(ledger.categories@).len() == ledger.categories@.len());
        assert(views_of(old(ledger).categories@).len() == old(ledger).categories@.len());
        lemma_views_after_update(ledger.categories@, at as int, row);
    }
    ledger.categories.set(at, row);
    Ok(updated)
}

/// Gives every category directly below the one with the id the type.
pub fn update_subcategory_types(ledger: &mut Ledger, parent_id: &str, new_type: &str)
    ensures
        final(ledger)@ == (LedgerView {
            categories: with_children_retyped(old(ledger)@.categories, parent_id@, new_type@),
            ..old(ledger)@
        }),
{
    let wanted = parent_id.to_owned();
    let mut rows: Vec<Category> = Vec::new();
    let mut i: usize = 0;
    while i < ledger.categories.len()
        invariant
            i <= ledger.categories.len(),
            wanted@ == parent_id@,
            *ledger == *old(ledger),
            rows.len() == i,
            forall|k: int|
                0 <= k < i ==> (#[trigger] rows[k])@ == with_children_retyped(
                    ledger@.categories,
                    parent_id@,
                    new_type@,
                )[k],
        decreases ledger.categories.len() - i,
    {
        let mut row = ledger.categories[i].copy_of();
        let below = match &row.parent_id {
            Some(parent) => *parent == wanted,
            None => false,
        };
        if below {
            row.category_type = new_type.to_owned();
        }
        rows.push(row);
        i = i + 1;
    }
    proof {
        assert(views_of(rows@) =~= with_children_retyped(
            ledger@.categories,
            parent_id@,
            new_type@,
        ));
    }
    ledger.categories = rows;
}

/// The categories without the one with the id and without those
/// directly below it.
pub open spec fn without_category(categories: Seq<CategoryView>, id: Seq<char>) -> Seq<
    CategoryView,
> {
    categories.filter(|category: CategoryView| category.id != id && !is_child_of(category, id))
}

/// What deleting the category with the id gives, and the ledger after
/// it.
///
/// Fails with `CategoryHasTransactions`, and how many, where
/// transactions are booked under the category; else with
/// `SubcategoryHasTransactions` for the first category directly below
/// it under which transactions are booked, with its place among them
/// and how many. A failure leaves the ledger as it was. Otherwise the
/// category and the categories directly below it are gone.
pub open spec fn delete_category_spec(pre: LedgerView, id: Seq<char>) -> (
    Result<(), LedgerError>,
    LedgerView,
) {
    let own = linked_count(pre.transactions, id);
    let below = children(pre.categories, id);
    if own > 0 {
        (Err(LedgerError::CategoryHasTransactions { count: own as usize }), pre)
    } else {
        match first_linked(pre.transactions, below, below.len() as int) {
            Some(at) => (
                Err(
                    LedgerError::SubcategoryHasTransactions {
                        position: at as usize,
                        count: linked_count(pre.transactions, below[at].id) as usize,
                    },
                ),
                pre,
            ),
            None => (
                Ok(()),
                LedgerView { categories: without_category(pre.categories, id), ..pre },
            ),
        }
    }
}

/// Deletes a category and the categories directly below it, unless
/// transactions are booked under one of them.
pub fn delete_category(ledger: &mut Ledger, id: String) -> (r: Result<(), LedgerError>)
    ensures
        (r, final(ledger)@) == delete_category_spec(old(ledger)@, id@),
{
    let own: usize = count_transactions(ledger, id.as_str());
    if own > 0 {
        return Err(LedgerError::CategoryHasTransactions { count: own });
    }
    let below = get_subcategories(ledger, id.as_str());
    match find_linked(ledger, &below) {
        Some((at, count)) => {
            return Err(LedgerError::SubcategoryHasTransactions { position: at, count });
        },
        None => {},
    }
    let mut kept: Vec<Category> = Vec::new();
    let mut i: usize = 0;
    proof {
        reveal(Seq::filter);
        assert(views_of(kept@) =~= ledger@.categories.take(0));
    }
    while i < ledger.categories.len()
        invariant
            i <= ledger.categories.len(),
            *ledger == *old(ledger),
            views_of(kept@) == without_category(ledger@.categories.take(i as int), id@),
        decreases ledger.categories.len() - i,
    {
        proof {
            reveal(Seq::filter);
            assert(ledger@.categories.take(i + 1).drop_last() =~= ledger@.categories.take(
                i as int,
            ));
        }
        let below = match &ledger.categories[i].parent_id {
            Some(parent) => *parent == id,
            None => false,
        };
        if !(ledger.categories[i].id == id) && !below {
            let copy = ledger.categories[i].copy_of();
            proof {
                lemma_views_after_push(kept@, copy);
            }
            kept.push(copy);
        }
        i = i + 1;
    }
    proof {
        assert(ledger@.categories.take(ledger.categories.len() as int) =~= ledger@.categories);
    }
    ledger.categories = kept;
    Ok(())
}

/// Whether a transaction is booked under the category with the id or
/// under a category directly below it.
pub open spec fn has_linked_transactions(pre: LedgerView, id: Seq<char>) -> bool {
    let below = children(pre.categories, id);
    linked_count(pre.transactions, id) > 0 || exists|k: int|
        0 <= k < below.len() && linked_count(pre.transactions, (#[trigger] below[k]).id) > 0
}

/// The type of a category cannot change while a transaction is booked
/// under it or under a category directly below it: the change is then
/// refused with `TypeChangeWithTransactions`, whatever else it asks
/// for, and nothing is written. It is never refused with that failure
/// otherwise.
pub proof fn lemma_type_change_needs_no_transactions(
    pre: LedgerView,
    id: Seq<char>,
    changes: CategoryChanges,
)
    requires
        position(pre.categories, id) matches Some(at) && changes_type(pre.categories[at], changes),
    ensures
        has_linked_transactions(pre, id) ==> update_category_spec(pre, id, changes) == (
            Err::<CategoryView, LedgerError>(LedgerError::TypeChangeWithTransactions),
            pre,
        ),
        !has_linked_transactions(pre, id) ==> update_category_spec(pre, id, changes).0 != Err::<
            CategoryView,
            LedgerError,
        >(LedgerError::TypeChangeWithTransactions),
{
    let below = children(pre.categories, id);
    lemma_first_linked(pre.transactions, below, below.len() as int);
    lemma_linked_count_bounds(pre.transactions, id);
}

/// A change of type alone, on a category that has no parent, goes
/// through exactly where no transaction is booked under the category
/// or under a category directly below it. The category and every
/// category directly below it then have the new type; no other row and
/// no other field changes, but for the icon, which is set anew.
pub proof fn lemma_type_change_cascades(pre: LedgerView, id: Seq<char>, changes: CategoryChanges)
    requires
        position(pre.categories, id) matches Some(at) && changes_type(pre.categories[at], changes)
            && pre.categories[at].parent_id is None,
        changes.parent_id is None,
    ensures
        update_category_spec(pre, id, changes).0 is Ok <==> !has_linked_transactions(pre, id),
        update_category_spec(pre, id, changes).0 is Ok ==> ({
            let post = update_category_spec(pre, id, changes).1;
            let at = position(pre.categories, id)->0;
            let wanted = changes.category_type->0;
            &&& post.categories.len() == pre.categories.len()
            &&& post.categories[at].category_type == wanted
            &&& post.categories[at].id == id
            &&& post.categories[at].parent_id == pre.categories[at].parent_id
            &&& forall|k: int|
                0 <= k < pre.categories.len() && k != at ==> (#[trigger] post.categories[k]) == (
                if is_child_of(pre.categories[k], id) {
                    CategoryView { category_type: wanted, ..pre.categories[k] }
                } else {
                    pre.categories[k]
                })
            &&& post.transactions == pre.transactions
            &&& post.accounts == pre.accounts
            &&& post.debts == pre.debts
            &&& post.installments == pre.installments
        }),
{
    lemma_type_change_needs_no_transactions(pre, id, changes);
    crate::ledger::lemma_position_is_first(pre.categories, id);
}

/// Whether the category at `index` stands well: on its own, or below a
/// parent that exists, stands on its own, and has the same type.
pub open spec fn stands_well(categories: Seq<CategoryView>, index: int) -> bool {
    categories[index].parent_id is Some ==> {
        &&& position(categories, categories[index].parent_id->0) matches Some(p)
        &&& categories[p].parent_id is None
        &&& categories[p].category_type == categories[index].category_type
    }
}

/// Whether the categories form a tree one level deep: their ids are
/// apart, no category with a parent is itself a parent, and every
/// category has the type of its parent.
pub open spec fn is_sound_tree(categories: Seq<CategoryView>) -> bool {
    &&& keys_are_unique(categories)
    &&& forall|i: int| 0 <= i < categories.len() ==> #[trigger] stands_well(categories, i)
}

/// Creating a category keeps the categories a tree one level deep.
pub proof fn lemma_create_category_keeps_tree(
    pre: LedgerView,
    id: Seq<char>,
    name: Seq<char>,
    category_type: Seq<char>,
    icon: Option<Seq<char>>,
    parent_id: Option<Seq<char>>,
)
    requires
        is_sound_tree(pre.categories),
    ensures
        is_sound_tree(
            create_category_spec(pre, id, name, category_type, icon, parent_id).1.categories,
        ),
{
    let (outcome, post) = create_category_spec(pre, id, name, category_type, icon, parent_id);
    if outcome is Ok {
        let row = outcome->Ok_0;
        lemma_unique_after_push(pre.categories, row);
        assert forall|i: int| 0 <= i < post.categories.len() implies #[trigger] stands_well(
            post.categories,
            i,
        ) by {
            if post.categories[i].parent_id is Some {
                let parent = post.categories[i].parent_id->0;
                lemma_position_after_push(pre.categories, row, parent);
                if i < pre.categories.len() {
                    assert(stands_well(pre.categories, i));
                }
            }
        }
    }
}

/// Where a category that is kept stands once a category and those
/// below it are deleted: a row with its id is found, and it is that
/// category.
proof fn lemma_kept_category_is_found(categories: Seq<CategoryView>, id: Seq<char>, index: int)
    requires
        keys_are_unique(categories),
        0 <= index < categories.len(),
        categories[index].id != id,
        !is_child_of(categories[index], id),
    ensures
        position(without_category(categories, id), categories[index].id) matches Some(p)
            && without_category(categories, id)[p] == categories[index],
{
    let keep = |category: CategoryView| category.id != id && !is_child_of(category, id);
    let kept = categories.filter(keep);
    let places = lemma_filter_places(categories, keep);
    lemma_unique_after_filter(categories, keep);
    categories.lemma_filter_contains(keep, index);
    let p = choose|p: int| 0 <= p < kept.len() && kept[p] == categories[index];
    lemma_unique_position(kept, p);
}

/// Deleting a category keeps the categories a tree one level deep.
pub proof fn lemma_delete_category_keeps_tree(pre: LedgerView, id: Seq<char>)
    requires
        is_sound_tree(pre.categories),
    ensures
        is_sound_tree(delete_category_spec(pre, id).1.categories),
{
    let (outcome, post) = delete_category_spec(pre, id);
    if outcome is Ok {
        let keep = |category: CategoryView| category.id != id && !is_child_of(category, id);
        let places = lemma_filter_places(pre.categories, keep);
        lemma_unique_after_filter(pre.categories, keep);
        assert forall|i: int| 0 <= i < post.categories.len() implies #[trigger] stands_well(
            post.categories,
            i,
        ) by {
            let from = places[i];
            assert(post.categories[i] == pre.categories[from]);
            if post.categories[i].parent_id is Some {
                assert(stands_well(pre.categories, from));
                let parent = pre.categories[from].parent_id->0;
                let p = position(pre.categories, parent)->0;
                lemma_position_is_first(pre.categories, parent);
                lemma_kept_category_is_found(pre.categories, id, p);
            }
        }
    }
}

/// A category that stands below another is among the categories below
/// it.
proof fn lemma_child_is_among_children(categories: Seq<CategoryView>, id: Seq<char>, index: int)
    requires
        0 <= index < categories.len(),
        is_child_of(categories[index], id),
    ensures
        children(categories, id).len() > 0,
{
    let below = |category: CategoryView| is_child_of(category, id);
    categories.lemma_filter_contains(below, index);
}

/// Changing a category keeps the categories a tree one level deep:
/// whatever a change asks for, it goes through only where every
/// category still has the type of its parent and no category stands
/// two levels deep.
pub proof fn lemma_update_category_keeps_tree(
    pre: LedgerView,
    id: Seq<char>,
    changes: CategoryChanges,
)
    requires
        is_sound_tree(pre.categories),
    ensures
        is_sound_tree(update_category_spec(pre, id, changes).1.categories),
{
    let (outcome, post) = update_category_spec(pre, id, changes);
    if outcome is Ok {
        let at = position(pre.categories, id)->0;
        lemma_position_is_first(pre.categories, id);
        let existing = pre.categories[at];
        let row = merged_category(existing, changes);
        let cascaded = if changes_type(existing, changes) {
            with_children_retyped(pre.categories, id, row.category_type)
        } else {
            pre.categories
        };
        assert(post.categories == cascaded.update(at, row));
        assert(post.categories.len() == pre.categories.len());
        assert forall|k: int| 0 <= k < pre.categories.len() implies (
        #[trigger] pre.categories[k]).key() == post.categories[k].key() by {}
        assert forall|i: int, j: int| 0 <= i < j < post.categories.len() implies (
        #[trigger] post.categories[i]).key() != (#[trigger] post.categories[j]).key() by {
            assert(pre.categories[i].key() != pre.categories[j].key());
        }
        assert forall|i: int| 0 <= i < post.categories.len() implies #[trigger] stands_well(
            post.categories,
            i,
        ) by {
            if post.categories[i].parent_id is Some {
                let parent = post.categories[i].parent_id->0;
                lemma_same_keys_same_position(pre.categories, post.categories, parent);
                if i == at {
                    if changes.parent_id is None {
                        assert(stands_well(pre.categories, at));
                        let p = position(pre.categories, parent)->0;
                        lemma_position_is_first(pre.categories, parent);
                        assert(p != at);
                        assert(!is_child_of(pre.categories[p], id));
                    } else {
                        let p = position(pre.categories, parent)->0;
                        lemma_position_is_first(pre.categories, parent);
                        assert(p != at);
                        assert(!is_child_of(pre.categories[p], id));
                    }
                } else {
                    assert(stands_well(pre.categories, i));
                    let p = position(pre.categories, parent)->0;
                    lemma_position_is_first(pre.categories, parent);
                    if p == at {
                        lemma_child_is_among_children(pre.categories, id, i);
                        assert(changes.parent_id is None);
                    } else {
                        assert(!is_child_of(pre.categories[p], id));
                        if is_child_of(pre.categories[i], id) {
                            lemma_unique_position(pre.categories, at);
                            assert(false);
                        }
                    }
                }
            }
        }
    }
}

/// Creating, changing and deleting a category touch no account and no
/// transaction.
pub proof fn lemma_category_changes_keep_ledger(
    pre: LedgerView,
    id: Seq<char>,
    name: Seq<char>,
    category_type: Seq<char>,
    icon: Option<Seq<char>>,
    parent_id: Option<Seq<char>>,
    changes: CategoryChanges,
)
    ensures
        ({
            let created = create_category_spec(pre, id, name, category_type, icon, parent_id).1;
            let changed = update_category_spec(pre, id, changes).1;
            let deleted = delete_category_spec(pre, id).1;
            &&& created.accounts == pre.accounts && created.transactions == pre.transactions
            &&& created.debts == pre.debts && created.installments == pre.installments
            &&& created.currencies == pre.currencies
            &&& changed.accounts == pre.accounts && changed.transactions == pre.transactions
            &&& changed.debts == pre.debts && changed.installments == pre.installments
            &&& deleted.accounts == pre.accounts && deleted.transactions == pre.transactions
            &&& deleted.debts == pre.debts && deleted.installments == pre.installments
        }),
{
}

/// Whether the categories form a tree one level deep.
pub fn has_sound_tree(ledger: &Ledger) -> (r: bool)
    ensures
        r == is_sound_tree(ledger@.categories),
{
    if !crate::ledger::are_ids_unique(&ledger.categories) {
        return false;
    }
    let mut i: usize = 0;
    while i < ledger.categories.len()
        invariant
            i <= ledger.categories.len(),
            forall|k: int| 0 <= k < i ==> #[trigger] stands_well(ledger@.categories, k),
        decreases ledger.categories.len() - i,
    {
        let category = &ledger.categories[i];
        let well = match &category.parent_id {
            Some(parent) => match find(&ledger.categories, parent.as_str()) {
                Some(p) => ledger.categories[p].parent_id.is_none()
                    && ledger.categories[p].category_type == category.category_type,
                None => false,
            },
            None => true,
        };
        if !well {
            proof {
                assert(!stands_well(ledger@.categories, i as int));
            }
            return false;
        }
        i = i + 1;
    }
    true
}

} // verus!
