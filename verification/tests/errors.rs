use necronomics::errors::{ErrorKind, LedgerError, RequestIds};
use necronomics::text::{decimal_string, unsigned_decimal_string};

fn all() -> Vec<LedgerError> {
    vec![
        LedgerError::EmptyDescription,
        LedgerError::NonPositivePrincipal,
        LedgerError::NonPositiveInstallmentCount,
        LedgerError::NonPositiveMonthlyPayment,
        LedgerError::EmptyStartDate,
        LedgerError::NonPositiveAmount,
        LedgerError::EmptyDate,
        LedgerError::UnknownTransactionType,
        LedgerError::InvalidPage,
        LedgerError::InvalidPageSize,
        LedgerError::MissingCreditLimit,
        LedgerError::MissingBillingDay,
        LedgerError::AccountNotFound,
        LedgerError::CategoryNotFound,
        LedgerError::ParentCategoryNotFound,
        LedgerError::TransactionNotFound,
        LedgerError::DebtNotFound,
        LedgerError::InstallmentNotFound,
        LedgerError::DebtOnInactiveAccount,
        LedgerError::PaymentOnInactiveAccount,
        LedgerError::TransactionOnInactiveAccount,
        LedgerError::PaymentCategoryNotFound,
        LedgerError::InactiveCategory,
        LedgerError::CategoryNotExpense,
        LedgerError::TypeMismatch,
        LedgerError::AccountHasTransactions,
        LedgerError::CategoryHasTransactions { count: 3 },
        LedgerError::SubcategoryHasTransactions { position: 0, count: 12 },
        LedgerError::TypeChangeWithTransactions,
        LedgerError::NestedSubcategory,
        LedgerError::ParentCategoryMove,
        LedgerError::ParentTypeMismatch,
        LedgerError::AlreadyPaid,
        LedgerError::InvalidStartDate,
        LedgerError::UnconstructibleDueDate { installment: 7 },
        LedgerError::DuplicateId,
        LedgerError::IdCountMismatch,
        LedgerError::MissingRow,
        LedgerError::AmountOverflow,
    ]
}

#[test]
fn every_failure_has_its_kind() {
    let kinds: Vec<ErrorKind> = all().iter().map(|e| e.kind()).collect();
    let mut expected = vec![ErrorKind::Validation; 12];
    expected.extend(vec![ErrorKind::NotFound; 6]);
    expected.extend(vec![ErrorKind::InactiveAccount; 3]);
    expected.extend(vec![ErrorKind::InvalidCategory; 3]);
    expected.push(ErrorKind::TypeMismatch);
    expected.extend(vec![ErrorKind::BusinessRuleViolation; 7]);
    expected.push(ErrorKind::AlreadyPaid);
    expected.extend(vec![ErrorKind::InvalidDate; 2]);
    expected.extend(vec![ErrorKind::Storage; 4]);
    assert_eq!(kinds, expected);
}

#[test]
fn every_failure_has_a_message_of_its_own() {
    let mut messages: Vec<String> = all().iter().map(|e| e.message()).collect();
    assert!(messages.iter().all(|m| !m.is_empty()));
    messages.sort();
    messages.dedup();
    assert_eq!(messages.len(), all().len() - 1);
    assert_eq!(
        LedgerError::PaymentCategoryNotFound.message(),
        LedgerError::CategoryNotFound.message()
    );
}

#[test]
fn messages_of_the_rules() {
    assert_eq!(LedgerError::AlreadyPaid.message(), "Esta cuota ya fue pagada");
    assert_eq!(LedgerError::EmptyDescription.message(), "La descripcion es obligatoria");
    assert_eq!(LedgerError::NonPositiveAmount.message(), "El monto debe ser mayor a 0");
    assert_eq!(
        LedgerError::UnknownTransactionType.message(),
        "El tipo de transaccion debe ser 'income' o 'expense'"
    );
    assert_eq!(
        LedgerError::AccountHasTransactions.message(),
        "No se puede eliminar una cuenta con transacciones. Use archivar."
    );
    assert_eq!(
        LedgerError::TypeChangeWithTransactions.message(),
        "No se puede cambiar el tipo de una categoria con transacciones vinculadas"
    );
    assert_eq!(
        LedgerError::PaymentOnInactiveAccount.message(),
        "No se puede registrar pagos en una cuenta archivada"
    );
}

#[test]
fn messages_that_hold_numbers() {
    assert_eq!(
        LedgerError::UnconstructibleDueDate { installment: 7 }.message(),
        "No se pudo calcular fecha para cuota 7"
    );
    assert_eq!(
        LedgerError::UnconstructibleDueDate { installment: -12 }.message(),
        "No se pudo calcular fecha para cuota -12"
    );
    assert_eq!(
        LedgerError::CategoryHasTransactions { count: 3 }.message(),
        "Esta categoria tiene 3 transacciones vinculadas. Reasigna las transacciones a otra \
         categoria antes de eliminar."
    );
    assert_eq!(
        LedgerError::SubcategoryHasTransactions { position: 1, count: 120 }.message(),
        "La subcategoria 2 tiene 120 transacciones vinculadas. Reasigna las transacciones a \
         otra categoria antes de eliminar."
    );
    let last = LedgerError::SubcategoryHasTransactions { position: usize::MAX, count: 0 };
    assert!(last.message().starts_with("La subcategoria "));
}

#[test]
fn numbers_as_text() {
    assert_eq!(decimal_string(0), "0");
    assert_eq!(decimal_string(7), "7");
    assert_eq!(decimal_string(10), "10");
    assert_eq!(decimal_string(1234567890), "1234567890");
    assert_eq!(decimal_string(-1), "-1");
    assert_eq!(decimal_string(-905), "-905");
    assert_eq!(decimal_string(i64::MAX), "9223372036854775807");
    assert_eq!(decimal_string(i64::MIN), "-9223372036854775808");
    assert_eq!(unsigned_decimal_string(0), "0");
    assert_eq!(unsigned_decimal_string(99), "99");
    assert_eq!(unsigned_decimal_string(100), "100");
    assert_eq!(unsigned_decimal_string(u128::MAX), "340282366920938463463374607431768211455");
}

#[test]
fn a_row_that_was_not_found_is_named() {
    let mut ids = RequestIds::none();
    ids.account = Some("acc-7".to_string());
    ids.category = Some("cat-3".to_string());
    ids.installment = Some("inst-1".to_string());
    assert_eq!(LedgerError::AccountNotFound.message_for(&ids), "Cuenta no encontrada: acc-7");
    assert_eq!(LedgerError::CategoryNotFound.message_for(&ids), "Categoria no encontrada: cat-3");
    assert_eq!(
        LedgerError::PaymentCategoryNotFound.message_for(&ids),
        "Categoria no encontrada: cat-3"
    );
    assert_eq!(
        LedgerError::InstallmentNotFound.message_for(&ids),
        "Cuota no encontrada: inst-1"
    );
    assert_eq!(LedgerError::DebtNotFound.message_for(&ids), LedgerError::DebtNotFound.message());
    assert_eq!(LedgerError::AlreadyPaid.message_for(&ids), "Esta cuota ya fue pagada");
    let none = RequestIds::none();
    for e in all() {
        assert_eq!(e.message_for(&none), e.message());
    }
}
