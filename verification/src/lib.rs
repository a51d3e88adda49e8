//! A verified engine for a personal finance ledger: accounts, categories,
//! transactions and installment debts, with calendar-correct payment
//! schedules and account balances that always equal the signed sum of
//! their transactions.

pub mod accounts;
pub mod balance;
pub mod calendar;
pub mod categories;
pub mod changes;
pub mod dashboard;
pub mod debts;
pub mod errors;
pub mod ledger;
pub mod listing;
pub mod models;
pub mod ordering;
pub mod projections;
pub mod schedule;
pub mod search;
pub mod text;
pub mod transactions;
