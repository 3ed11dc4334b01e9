//! A personal expense ledger: records, the rules that keep their identifiers
//! unique, month filters, and the delimited text in which a ledger is kept.

pub mod command;
pub mod date;
pub mod expense;
pub mod ledger;
pub mod store;
