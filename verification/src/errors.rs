//! The failures that the ledger reports, each with the rule it stands
//! for and the text shown to the person at the keyboard.

use crate::calendar::decimal_text;
use crate::models::text_of;
use crate::text::{decimal_string, signed_decimal_text, unsigned_decimal_string};
use vstd::prelude::*;
use vstd::string::StringExecFns;

verus! {

/// How the text on linked transactions ends.
pub const LINKED_SUFFIX: &'static str =
    " transacciones vinculadas. Reasigna las transacciones a otra categoria antes de eliminar.";

/// The family a failure belongs to.
#[derive(Clone, Copy, Debug, PartialEq, Eq, Structural)]
pub enum ErrorKind {
    /// Input that is malformed or out of range.
    Validation,
    /// A row that was referred to does not exist.
    NotFound,
    /// The account has been archived.
    InactiveAccount,
    /// The category is archived or of the wrong type for the operation.
    InvalidCategory,
    /// Category and transaction disagree on income or expense.
    TypeMismatch,
    /// The request breaks a rule of the ledger.
    BusinessRuleViolation,
    /// The installment has been paid before.
    AlreadyPaid,
    /// A date could not be read or built.
    InvalidDate,
    /// The store could not take the write.
    Storage,
}

/// Why a request was turned down.
#[derive(Clone, Copy, Debug, PartialEq, Eq, Structural)]
pub enum LedgerError {
    /// A debt needs a description.
    EmptyDescription,
    /// The principal of a debt must be above zero.
    NonPositivePrincipal,
    /// A debt has at least one installment.
    NonPositiveInstallmentCount,
    /// The monthly payment of a debt must be above zero.
    NonPositiveMonthlyPayment,
    /// A debt needs a start date.
    EmptyStartDate,
    /// The amount of a transaction must be above zero.
    NonPositiveAmount,
    /// A transaction needs a date.
    EmptyDate,
    /// A transaction is either income or expense.
    UnknownTransactionType,
    /// Pages are counted from 1.
    InvalidPage,
    /// A page holds at least one row.
    InvalidPageSize,
    /// A credit card needs a credit limit.
    MissingCreditLimit,
    /// A credit card needs a billing day.
    MissingBillingDay,
    /// No account has the id.
    AccountNotFound,
    /// No category has the id.
    CategoryNotFound,
    /// No category has the id given for the parent.
    ParentCategoryNotFound,
    /// No transaction has the id.
    TransactionNotFound,
    /// No debt has the id.
    DebtNotFound,
    /// No installment has the id.
    InstallmentNotFound,
    /// A debt cannot be opened on an archived account.
    DebtOnInactiveAccount,
    /// A payment cannot be booked on an archived account.
    PaymentOnInactiveAccount,
    /// A transaction cannot be added to an archived account.
    TransactionOnInactiveAccount,
    /// An installment is paid from a category that exists.
    PaymentCategoryNotFound,
    /// The category is archived.
    InactiveCategory,
    /// An installment is paid from an expense category.
    CategoryNotExpense,
    /// The transaction's type is not the category's.
    TypeMismatch,
    /// An account with transactions is archived, not deleted.
    AccountHasTransactions,
    /// The category still has transactions.
    CategoryHasTransactions { count: usize },
    /// A subcategory (the one at `position` among them) still has transactions.
    SubcategoryHasTransactions { position: usize, count: usize },
    /// The type cannot change while transactions are linked.
    TypeChangeWithTransactions,
    /// A subcategory cannot have subcategories.
    NestedSubcategory,
    /// A category with subcategories cannot move under another.
    ParentCategoryMove,
    /// A subcategory has the type of its parent.
    ParentTypeMismatch,
    /// The installment was paid before.
    AlreadyPaid,
    /// The start date is no date.
    InvalidStartDate,
    /// The day is no date, or the end of the time to look ahead from it
    /// is none.
    InvalidDay,
    /// The due date of the installment with this number is no date.
    UnconstructibleDueDate { installment: i32 },
    /// The id is taken.
    DuplicateId,
    /// There is not one id for each row to write.
    IdCountMismatch,
    /// A row that another row refers to is not there.
    MissingRow,
    /// A sum of amounts does not fit the range of an amount.
    AmountOverflow,
}

impl LedgerError {
    /// The family of the failure.
    pub open spec fn kind_spec(self) -> ErrorKind {
        match self {
            LedgerError::EmptyDescription => ErrorKind::Validation,
            LedgerError::NonPositivePrincipal => ErrorKind::Validation,
            LedgerError::NonPositiveInstallmentCount => ErrorKind::Validation,
            LedgerError::NonPositiveMonthlyPayment => ErrorKind::Validation,
            LedgerError::EmptyStartDate => ErrorKind::Validation,
            LedgerError::NonPositiveAmount => ErrorKind::Validation,
            LedgerError::EmptyDate => ErrorKind::Validation,
            LedgerError::UnknownTransactionType => ErrorKind::Validation,
            LedgerError::InvalidPage => ErrorKind::Validation,
            LedgerError::InvalidPageSize => ErrorKind::Validation,
            LedgerError::MissingCreditLimit => ErrorKind::Validation,
            LedgerError::MissingBillingDay => ErrorKind::Validation,
            LedgerError::AccountNotFound => ErrorKind::NotFound,
            LedgerError::CategoryNotFound => ErrorKind::NotFound,
            LedgerError::ParentCategoryNotFound => ErrorKind::NotFound,
            LedgerError::TransactionNotFound => ErrorKind::NotFound,
            LedgerError::DebtNotFound => ErrorKind::NotFound,
            LedgerError::InstallmentNotFound => ErrorKind::NotFound,
            LedgerError::DebtOnInactiveAccount => ErrorKind::InactiveAccount,
            LedgerError::PaymentOnInactiveAccount => ErrorKind::InactiveAccount,
            LedgerError::TransactionOnInactiveAccount => ErrorKind::InactiveAccount,
            LedgerError::PaymentCategoryNotFound => ErrorKind::InvalidCategory,
            LedgerError::InactiveCategory => ErrorKind::InvalidCategory,
            LedgerError::CategoryNotExpense => ErrorKind::InvalidCategory,
            LedgerError::TypeMismatch => ErrorKind::TypeMismatch,
            LedgerError::AccountHasTransactions => ErrorKind::BusinessRuleViolation,
            LedgerError::CategoryHasTransactions { .. } => ErrorKind::BusinessRuleViolation,
            LedgerError::SubcategoryHasTransactions { .. } => ErrorKind::BusinessRuleViolation,
            LedgerError::TypeChangeWithTransactions => ErrorKind::BusinessRuleViolation,
            LedgerError::NestedSubcategory => ErrorKind::BusinessRuleViolation,
            LedgerError::ParentCategoryMove => ErrorKind::BusinessRuleViolation,
            LedgerError::ParentTypeMismatch => ErrorKind::BusinessRuleViolation,
            LedgerError::AlreadyPaid => ErrorKind::AlreadyPaid,
            LedgerError::InvalidStartDate => ErrorKind::InvalidDate,
            LedgerError::InvalidDay => ErrorKind::InvalidDate,
            LedgerError::UnconstructibleDueDate { .. } => ErrorKind::InvalidDate,
            LedgerError::DuplicateId => ErrorKind::Storage,
            LedgerError::IdCountMismatch => ErrorKind::Storage,
            LedgerError::MissingRow => ErrorKind::Storage,
            LedgerError::AmountOverflow => ErrorKind::Storage,
        }
    }

    /// The family of the failure.
    pub fn kind(&self) -> (r: ErrorKind)
        ensures
            r == self.kind_spec(),
    {
        match self {
            LedgerError::EmptyDescription
            | LedgerError::NonPositivePrincipal
            | LedgerError::NonPositiveInstallmentCount
            | LedgerError::NonPositiveMonthlyPayment
            | LedgerError::EmptyStartDate
            | LedgerError::NonPositiveAmount
            | LedgerError::EmptyDate
            | LedgerError::UnknownTransactionType
            | LedgerError::InvalidPage
            | LedgerError::InvalidPageSize
            | LedgerError::MissingCreditLimit
            | LedgerError::MissingBillingDay => ErrorKind::Validation,
            LedgerError::AccountNotFound
            | LedgerError::CategoryNotFound
            | LedgerError::ParentCategoryNotFound
            | LedgerError::TransactionNotFound
            | LedgerError::DebtNotFound
            | LedgerError::InstallmentNotFound => ErrorKind::NotFound,
            LedgerError::DebtOnInactiveAccount
            | LedgerError::PaymentOnInactiveAccount
            | LedgerError::TransactionOnInactiveAccount => ErrorKind::InactiveAccount,
            LedgerError::PaymentCategoryNotFound
            | LedgerError::InactiveCategory
            | LedgerError::CategoryNotExpense => ErrorKind::InvalidCategory,
            LedgerError::TypeMismatch => ErrorKind::TypeMismatch,
            LedgerError::AccountHasTransactions
            | LedgerError::CategoryHasTransactions { .. }
            | LedgerError::SubcategoryHasTransactions { .. }
            | LedgerError::TypeChangeWithTransactions
            | LedgerError::NestedSubcategory
            | LedgerError::ParentCategoryMove
            | LedgerError::ParentTypeMismatch => ErrorKind::BusinessRuleViolation,
            LedgerError::AlreadyPaid => ErrorKind::AlreadyPaid,
            LedgerError::InvalidStartDate
            | LedgerError::InvalidDay
            | LedgerError::UnconstructibleDueDate { .. } => ErrorKind::InvalidDate,
            LedgerError::DuplicateId
            | LedgerError::IdCountMismatch
            | LedgerError::MissingRow
            | LedgerError::AmountOverflow => ErrorKind::Storage,
        }
    }
    /// What the person at the keyboard is told of the failure.
    pub open spec fn message_text(self) -> Seq<char> {
        match self {
            LedgerError::EmptyDescription => "La descripcion es obligatoria"@,
            LedgerError::NonPositivePrincipal => "El monto original debe ser mayor a 0"@,
            LedgerError::NonPositiveInstallmentCount => "El numero de cuotas debe ser mayor a 0"@,
            LedgerError::NonPositiveMonthlyPayment => "El monto por cuota debe ser mayor a 0"@,
            LedgerError::EmptyStartDate => "La fecha de inicio es obligatoria"@,
            LedgerError::NonPositiveAmount => "El monto debe ser mayor a 0"@,
            LedgerError::EmptyDate => "La fecha es obligatoria"@,
            LedgerError::UnknownTransactionType => {
                "El tipo de transaccion debe ser 'income' o 'expense'"@
            },
            LedgerError::InvalidPage => "La pagina debe ser mayor a 0"@,
            LedgerError::InvalidPageSize => "El tamano de pagina debe ser mayor a 0"@,
            LedgerError::MissingCreditLimit => {
                "El limite de credito es requerido para tarjetas de credito"@
            },
            LedgerError::MissingBillingDay => {
                "El dia de facturacion es requerido para tarjetas de credito"@
            },
            LedgerError::AccountNotFound => "Cuenta no encontrada"@,
            LedgerError::CategoryNotFound => "Categoria no encontrada"@,
            LedgerError::ParentCategoryNotFound => "Categoria padre no encontrada"@,
            LedgerError::TransactionNotFound => "Transaccion no encontrada"@,
            LedgerError::DebtNotFound => "Deuda no encontrada"@,
            LedgerError::InstallmentNotFound => "Cuota no encontrada"@,
            LedgerError::DebtOnInactiveAccount => {
                "No se puede crear deudas en una cuenta archivada"@
            },
            LedgerError::PaymentOnInactiveAccount => {
                "No se puede registrar pagos en una cuenta archivada"@
            },
            LedgerError::TransactionOnInactiveAccount => {
                "No se puede agregar transacciones a una cuenta archivada"@
            },
            LedgerError::PaymentCategoryNotFound => "Categoria no encontrada"@,
            LedgerError::InactiveCategory => "No se puede usar una categoria inactiva"@,
            LedgerError::CategoryNotExpense => {
                "La categoria debe ser de tipo 'expense' para pagos de cuotas"@
            },
            LedgerError::TypeMismatch => {
                "El tipo de transaccion no coincide con el tipo de categoria"@
            },
            LedgerError::AccountHasTransactions => {
                "No se puede eliminar una cuenta con transacciones. Use archivar."@
            },
            LedgerError::TypeChangeWithTransactions => {
                "No se puede cambiar el tipo de una categoria con transacciones vinculadas"@
            },
            LedgerError::NestedSubcategory => {
                "No se puede crear una subcategoria de otra subcategoria (solo un nivel de anidamiento permitido)"@
            },
            LedgerError::ParentCategoryMove => {
                "No se puede mover una categoria padre a otra categoria"@
            },
            LedgerError::ParentTypeMismatch => {
                "El tipo de la subcategoria debe coincidir con el tipo de la categoria padre"@
            },
            LedgerError::AlreadyPaid => "Esta cuota ya fue pagada"@,
            LedgerError::InvalidStartDate => "Fecha de inicio invalida"@,
            LedgerError::InvalidDay => "Fecha invalida"@,
            LedgerError::DuplicateId => "El identificador ya existe"@,
            LedgerError::IdCountMismatch => "Faltan identificadores para las filas"@,
            LedgerError::MissingRow => "Falta una fila relacionada"@,
            LedgerError::AmountOverflow => "El monto excede el rango permitido"@,
            LedgerError::CategoryHasTransactions { count } => "Esta categoria tiene "@
                + decimal_text(count as int) + LINKED_SUFFIX@,
            LedgerError::SubcategoryHasTransactions { position, count } => "La subcategoria "@
                + decimal_text(position + 1) + " tiene "@ + decimal_text(count as int)
                + LINKED_SUFFIX@,
            LedgerError::UnconstructibleDueDate { installment } => {
                "No se pudo calcular fecha para cuota "@ + signed_decimal_text(installment as int)
            },
        }
    }

    /// What the person at the keyboard is told of the failure.
    pub fn message(&self) -> (r: String)
        ensures
            r@ == self.message_text(),
    {
        match self {
            LedgerError::EmptyDescription => "La descripcion es obligatoria".to_owned(),
            LedgerError::NonPositivePrincipal => "El monto original debe ser mayor a 0".to_owned(),
            LedgerError::NonPositiveInstallmentCount => {
                "El numero de cuotas debe ser mayor a 0".to_owned()
            },
            LedgerError::NonPositiveMonthlyPayment => {
                "El monto por cuota debe ser mayor a 0".to_owned()
            },
            LedgerError::EmptyStartDate => "La fecha de inicio es obligatoria".to_owned(),
            LedgerError::NonPositiveAmount => "El monto debe ser mayor a 0".to_owned(),
            LedgerError::EmptyDate => "La fecha es obligatoria".to_owned(),
            LedgerError::UnknownTransactionType => {
                "El tipo de transaccion debe ser 'income' o 'expense'".to_owned()
            },
            LedgerError::InvalidPage => "La pagina debe ser mayor a 0".to_owned(),
            LedgerError::InvalidPageSize => "El tamano de pagina debe ser mayor a 0".to_owned(),
            LedgerError::MissingCreditLimit => {
                "El limite de credito es requerido para tarjetas de credito".to_owned()
            },
            LedgerError::MissingBillingDay => {
                "El dia de facturacion es requerido para tarjetas de credito".to_owned()
            },
            LedgerError::AccountNotFound => "Cuenta no encontrada".to_owned(),
            LedgerError::CategoryNotFound => "Categoria no encontrada".to_owned(),
            LedgerError::ParentCategoryNotFound => "Categoria padre no encontrada".to_owned(),
            LedgerError::TransactionNotFound => "Transaccion no encontrada".to_owned(),
            LedgerError::DebtNotFound => "Deuda no encontrada".to_owned(),
            LedgerError::InstallmentNotFound => "Cuota no encontrada".to_owned(),
            LedgerError::DebtOnInactiveAccount => {
                "No se puede crear deudas en una cuenta archivada".to_owned()
            },
            LedgerError::PaymentOnInactiveAccount => {
                "No se puede registrar pagos en una cuenta archivada".to_owned()
            },
            LedgerError::TransactionOnInactiveAccount => {
                "No se puede agregar transacciones a una cuenta archivada".to_owned()
            },
            LedgerError::PaymentCategoryNotFound => "Categoria no encontrada".to_owned(),
            LedgerError::InactiveCategory => "No se puede usar una categoria inactiva".to_owned(),
            LedgerError::CategoryNotExpense => {
                "La categoria debe ser de tipo 'expense' para pagos de cuotas".to_owned()
            },
            LedgerError::TypeMismatch => {
                "El tipo de transaccion no coincide con el tipo de categoria".to_owned()
            },
            LedgerError::AccountHasTransactions => {
                "No se puede eliminar una cuenta con transacciones. Use archivar.".to_owned()
            },
            LedgerError::TypeChangeWithTransactions => {
                "No se puede cambiar el tipo de una categoria con transacciones vinculadas".to_owned()
            },
            LedgerError::NestedSubcategory => {
                "No se puede crear una subcategoria de otra subcategoria (solo un nivel de anidamiento permitido)".to_owned()
            },
            LedgerError::ParentCategoryMove => {
                "No se puede mover una categoria padre a otra categoria".to_owned()
            },
            LedgerError::ParentTypeMismatch => {
                "El tipo de la subcategoria debe coincidir con el tipo de la categoria padre".to_owned()
            },
            LedgerError::AlreadyPaid => "Esta cuota ya fue pagada".to_owned(),
            LedgerError::InvalidStartDate => "Fecha de inicio invalida".to_owned(),
            LedgerError::InvalidDay => "Fecha invalida".to_owned(),
            LedgerError::DuplicateId => "El identificador ya existe".to_owned(),
            LedgerError::IdCountMismatch => "Faltan identificadores para las filas".to_owned(),
            LedgerError::MissingRow => "Falta una fila relacionada".to_owned(),
            LedgerError::AmountOverflow => "El monto excede el rango permitido".to_owned(),
            LedgerError::CategoryHasTransactions { count } => {
                let mut text = "Esta categoria tiene ".to_owned();
                text.append(unsigned_decimal_string(*count as u128).as_str());
                text.append(LINKED_SUFFIX);
                assert(text@ =~= self.message_text());
                text
            },
            LedgerError::SubcategoryHasTransactions { position, count } => {
                let mut text = "La subcategoria ".to_owned();
                text.append(unsigned_decimal_string(*position as u128 + 1).as_str());
                text.append(" tiene ");
                text.append(unsigned_decimal_string(*count as u128).as_str());
                text.append(LINKED_SUFFIX);
                assert(text@ =~= self.message_text());
                text
            },
            LedgerError::UnconstructibleDueDate { installment } => {
                let mut text = "No se pudo calcular fecha para cuota ".to_owned();
                text.append(decimal_string(*installment as i64).as_str());
                assert(text@ =~= self.message_text());
                text
            },
        }
    }
}

/// The ids that a request has named, for the text of a failure to name
/// the row that was not found.
#[derive(Clone, Debug, PartialEq, Eq)]
pub struct RequestIds {
    /// The account that the request names.
    pub account: Option<String>,
    /// The category that the request names.
    pub category: Option<String>,
    /// The category that the request names as the parent.
    pub parent_category: Option<String>,
    /// The transaction that the request names.
    pub transaction: Option<String>,
    /// The debt that the request names.
    pub debt: Option<String>,
    /// The installment that the request names.
    pub installment: Option<String>,
}

/// The ids that a request has named, as mathematical values.
pub struct RequestIdsView {
    pub account: Option<Seq<char>>,
    pub category: Option<Seq<char>>,
    pub parent_category: Option<Seq<char>>,
    pub transaction: Option<Seq<char>>,
    pub debt: Option<Seq<char>>,
    pub installment: Option<Seq<char>>,
}

impl View for RequestIds {
    type V = RequestIdsView;

    open spec fn view(&self) -> RequestIdsView {
        RequestIdsView {
            account: text_of(self.account),
            category: text_of(self.category),
            parent_category: text_of(self.parent_category),
            transaction: text_of(self.transaction),
            debt: text_of(self.debt),
            installment: text_of(self.installment),
        }
    }
}

impl RequestIds {
    /// A request that names no row.
    pub fn none() -> (r: RequestIds)
        ensures
            r@.account is None,
            r@.category is None,
            r@.parent_category is None,
            r@.transaction is None,
            r@.debt is None,
            r@.installment is None,
    {
        RequestIds {
            account: None,
            category: None,
            parent_category: None,
            transaction: None,
            debt: None,
            installment: None,
        }
    }
}

impl LedgerError {
    /// The id of the row that was not found, where the failure is that a
    /// row was not found and the request has named it.
    pub open spec fn missing_id(self, ids: RequestIdsView) -> Option<Seq<char>> {
        match self {
            LedgerError::AccountNotFound => ids.account,
            LedgerError::CategoryNotFound => ids.category,
            LedgerError::PaymentCategoryNotFound => ids.category,
            LedgerError::ParentCategoryNotFound => ids.parent_category,
            LedgerError::TransactionNotFound => ids.transaction,
            LedgerError::DebtNotFound => ids.debt,
            LedgerError::InstallmentNotFound => ids.installment,
            _ => None,
        }
    }

    /// What the person at the keyboard is told of the failure of a
    /// request: the text of the failure, and after it, where a row was
    /// not found, a colon and the id of that row.
    pub open spec fn message_for_text(self, ids: RequestIdsView) -> Seq<char> {
        match self.missing_id(ids) {
            Some(id) => self.message_text() + ": "@ + id,
            None => self.message_text(),
        }
    }

    /// What the person at the keyboard is told of the failure of a
    /// request that has named these ids.
    pub fn message_for(&self, ids: &RequestIds) -> (r: String)
        ensures
            r@ == self.message_for_text(ids@),
    {
        let named = match self {
            LedgerError::AccountNotFound => &ids.account,
            LedgerError::CategoryNotFound => &ids.category,
            LedgerError::PaymentCategoryNotFound => &ids.category,
            LedgerError::ParentCategoryNotFound => &ids.parent_category,
            LedgerError::TransactionNotFound => &ids.transaction,
            LedgerError::DebtNotFound => &ids.debt,
            LedgerError::InstallmentNotFound => &ids.installment,
            _ => {
                return self.message();
            },
        };
        let mut text = self.message();
        match named {
            Some(id) => {
                text.append(": ");
                text.append(id.as_str());
            },
            None => {},
        }
        text
    }
}

} // verus!
