use necronomics::categories::{
    count_transactions, create_category, create_category_with_id, delete_category, get_category,
    get_subcategories, has_sound_tree, has_transactions, update_category,
    update_subcategory_types,
};
use necronomics::errors::{ErrorKind, LedgerError};
use necronomics::ledger::Ledger;
use necronomics::models::{Category, Transaction};

fn add(ledger: &mut Ledger, id: &str, kind: &str, parent: Option<&str>) -> Category {
    create_category_with_id(
        ledger,
        id.to_string(),
        format!("Name of {id}"),
        kind.to_string(),
        Some("star".to_string()),
        parent.map(|p| p.to_string()),
    )
    .unwrap()
}

fn link(ledger: &mut Ledger, id: &str, category: &str) {
    ledger.transactions.push(Transaction {
        id: id.to_string(),
        account_id: "acc".to_string(),
        category_id: category.to_string(),
        amount: 10,
        transaction_type: "expense".to_string(),
        description: String::new(),
        date: "2024-01-01".to_string(),
        notes: None,
        created_at: String::new(),
    });
}

fn tree() -> Ledger {
    let mut l = Ledger::new();
    add(&mut l, "home", "expense", None);
    add(&mut l, "rent", "expense", Some("home"));
    add(&mut l, "power", "expense", Some("home"));
    add(&mut l, "work", "income", None);
    add(&mut l, "misc", "expense", None);
    l
}

fn retype(l: &mut Ledger, id: &str, kind: &str) -> Result<Category, LedgerError> {
    update_category(l, id.to_string(), None, Some(kind.to_string()), Some("star".to_string()), None)
}

fn move_under(l: &mut Ledger, id: &str, parent: &str) -> Result<Category, LedgerError> {
    update_category(l, id.to_string(), None, None, None, Some(parent.to_string()))
}

fn kind_of(l: &Ledger, id: &str) -> String {
    l.categories.iter().find(|c| c.id == id).unwrap().category_type.clone()
}

#[test]
fn a_subcategory_takes_the_type_of_its_parent() {
    let mut l = Ledger::new();
    let root = add(&mut l, "home", "expense", None);
    assert_eq!(root.category_type, "expense");
    assert_eq!(root.parent_id, None);
    assert_eq!(root.is_active, 1);
    assert_eq!(root.icon, Some("star".to_string()));
    assert_eq!(root.name, "Name of home");
    let child = add(&mut l, "rent", "income", Some("home"));
    assert_eq!(child.category_type, "expense");
    assert_eq!(child.parent_id, Some("home".to_string()));
    assert_eq!(l.categories, vec![root, child]);
}

#[test]
fn create_category_rules() {
    let mut l = tree();
    let before = l.clone();
    let orphan = create_category_with_id(
        &mut l,
        "x".to_string(),
        "X".to_string(),
        "expense".to_string(),
        None,
        Some("nope".to_string()),
    );
    assert_eq!(orphan, Err(LedgerError::ParentCategoryNotFound));
    let nested = create_category_with_id(
        &mut l,
        "x".to_string(),
        "X".to_string(),
        "expense".to_string(),
        None,
        Some("rent".to_string()),
    );
    assert_eq!(nested, Err(LedgerError::NestedSubcategory));
    assert_eq!(nested.unwrap_err().kind(), ErrorKind::BusinessRuleViolation);
    let taken = create_category_with_id(
        &mut l,
        "misc".to_string(),
        "X".to_string(),
        "expense".to_string(),
        None,
        None,
    );
    assert_eq!(taken, Err(LedgerError::DuplicateId));
    assert_eq!(l, before);
}

#[test]
fn create_category_draws_an_id() {
    let mut l = tree();
    let a = create_category(&mut l, "A".to_string(), "income".to_string(), None, None).unwrap();
    let b = create_category(
        &mut l,
        "B".to_string(),
        "expense".to_string(),
        None,
        Some(a.id.clone()),
    )
    .unwrap();
    assert_ne!(a.id, b.id);
    assert_eq!(b.category_type, "income");
    assert_eq!(l.categories.len(), 7);
}

#[test]
fn type_change_without_transactions_cascades() {
    let mut l = tree();
    let updated = retype(&mut l, "home", "income").unwrap();
    assert_eq!(updated.category_type, "income");
    assert_eq!(kind_of(&l, "home"), "income");
    assert_eq!(kind_of(&l, "rent"), "income");
    assert_eq!(kind_of(&l, "power"), "income");
    assert_eq!(kind_of(&l, "work"), "income");
    assert_eq!(kind_of(&l, "misc"), "expense");
    assert_eq!(l.categories.len(), 5);
}

#[test]
fn type_change_with_transactions_is_rejected() {
    let mut l = tree();
    link(&mut l, "t1", "home");
    let before = l.clone();
    assert_eq!(retype(&mut l, "home", "income"), Err(LedgerError::TypeChangeWithTransactions));
    assert_eq!(l, before);
    assert_eq!(retype(&mut l, "home", "expense").unwrap().category_type, "expense");
}

#[test]
fn type_change_with_transactions_below_is_rejected() {
    let mut l = tree();
    link(&mut l, "t1", "power");
    let before = l.clone();
    let refused = retype(&mut l, "home", "income");
    assert_eq!(refused, Err(LedgerError::TypeChangeWithTransactions));
    assert_eq!(refused.unwrap_err().kind(), ErrorKind::BusinessRuleViolation);
    assert_eq!(l, before);
    assert!(retype(&mut l, "misc", "income").is_ok());
}

#[test]
fn a_subcategory_keeps_the_type_of_its_parent() {
    let mut l = tree();
    let before = l.clone();
    assert_eq!(retype(&mut l, "rent", "income"), Err(LedgerError::ParentTypeMismatch));
    assert_eq!(l, before);
    let freed = update_category(
        &mut l,
        "rent".to_string(),
        None,
        Some("income".to_string()),
        None,
        Some(String::new()),
    )
    .unwrap();
    assert_eq!(freed.parent_id, None);
    assert_eq!(freed.category_type, "income");
}

#[test]
fn moving_rules_in_order() {
    let mut l = tree();
    let before = l.clone();
    assert_eq!(move_under(&mut l, "nope", "home"), Err(LedgerError::CategoryNotFound));
    assert_eq!(move_under(&mut l, "home", "misc"), Err(LedgerError::ParentCategoryMove));
    assert_eq!(move_under(&mut l, "home", ""), Err(LedgerError::ParentCategoryMove));
    assert_eq!(move_under(&mut l, "misc", "misc"), Err(LedgerError::NestedSubcategory));
    assert_eq!(move_under(&mut l, "misc", "nope"), Err(LedgerError::ParentCategoryNotFound));
    assert_eq!(move_under(&mut l, "misc", "rent"), Err(LedgerError::NestedSubcategory));
    assert_eq!(move_under(&mut l, "misc", "work"), Err(LedgerError::ParentTypeMismatch));
    assert_eq!(l, before);
    let moved = move_under(&mut l, "misc", "home").unwrap();
    assert_eq!(moved.parent_id, Some("home".to_string()));
    assert_eq!(moved.icon, None);
    let both = update_category(
        &mut l,
        "misc".to_string(),
        Some("Various".to_string()),
        Some("income".to_string()),
        Some("coin".to_string()),
        Some("work".to_string()),
    )
    .unwrap();
    assert_eq!(both.name, "Various");
    assert_eq!(both.category_type, "income");
    assert_eq!(both.icon, Some("coin".to_string()));
    assert_eq!(both.parent_id, Some("work".to_string()));
    assert_eq!(get_category(&l, "misc".to_string()), Ok(both));
}

#[test]
fn update_keeps_what_is_not_given_but_the_icon() {
    let mut l = tree();
    let same = update_category(&mut l, "rent".to_string(), None, None, None, None).unwrap();
    assert_eq!(same.name, "Name of rent");
    assert_eq!(same.category_type, "expense");
    assert_eq!(same.parent_id, Some("home".to_string()));
    assert_eq!(same.icon, None);
    assert_eq!(same.is_active, 1);
}

#[test]
fn delete_category_counts_linked_transactions() {
    let mut l = tree();
    link(&mut l, "t1", "power");
    link(&mut l, "t2", "power");
    link(&mut l, "t3", "misc");
    let before = l.clone();
    assert_eq!(
        delete_category(&mut l, "misc".to_string()),
        Err(LedgerError::CategoryHasTransactions { count: 1 })
    );
    assert_eq!(
        delete_category(&mut l, "home".to_string()),
        Err(LedgerError::SubcategoryHasTransactions { position: 1, count: 2 })
    );
    assert_eq!(l, before);
    assert_eq!(count_transactions(&l, "power"), 2);
    assert_eq!(count_transactions(&l, "rent"), 0);
    assert!(has_transactions(&l, "misc"));
    assert!(!has_transactions(&l, "home"));
}

#[test]
fn delete_category_takes_its_subcategories() {
    let mut l = tree();
    assert_eq!(delete_category(&mut l, "home".to_string()), Ok(()));
    let left: Vec<&str> = l.categories.iter().map(|c| c.id.as_str()).collect();
    assert_eq!(left, vec!["work", "misc"]);
    assert_eq!(delete_category(&mut l, "home".to_string()), Ok(()));
    assert_eq!(l.categories.len(), 2);
    assert_eq!(get_category(&l, "home".to_string()), Err(LedgerError::CategoryNotFound));
}

#[test]
fn subcategories_of_a_category() {
    let mut l = tree();
    let below: Vec<String> = get_subcategories(&l, "home").into_iter().map(|c| c.id).collect();
    assert_eq!(below, vec!["rent".to_string(), "power".to_string()]);
    assert!(get_subcategories(&l, "rent").is_empty());
    update_subcategory_types(&mut l, "home", "income");
    assert_eq!(kind_of(&l, "rent"), "income");
    assert_eq!(kind_of(&l, "power"), "income");
    assert_eq!(kind_of(&l, "home"), "expense");
}

#[test]
fn soundness_of_the_tree_can_be_checked() {
    let mut l = tree();
    assert!(has_sound_tree(&l));
    retype(&mut l, "home", "income").unwrap();
    move_under(&mut l, "misc", "work").unwrap_err();
    delete_category(&mut l, "work".to_string()).unwrap();
    assert!(has_sound_tree(&l));
    l.categories[1].category_type = "expense".to_string();
    assert!(!has_sound_tree(&l));
    l.categories[1].category_type = "income".to_string();
    l.categories[0].parent_id = Some("misc".to_string());
    assert!(!has_sound_tree(&l));
    l.categories[0].parent_id = None;
    l.categories[2].parent_id = Some("nowhere".to_string());
    assert!(!has_sound_tree(&l));
    assert!(has_sound_tree(&Ledger::new()));
}
