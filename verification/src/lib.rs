//! An incremental, hierarchical summary cache for personal budgeting.
//!
//! A [`Budget`] owns a date-ordered [`Ledger`] of [`Transaction`]s and keeps,
//! for every calendar month, a tree of running aggregates keyed by category
//! path. Adding a transaction costs work in the depth of its category, never
//! in the size of the ledger.

pub mod currency;
pub mod category;
pub mod time;
pub mod lookup;
pub mod text;
pub mod transaction;
pub mod ledger;
pub mod summary;
pub mod budget;

pub use crate::currency::Currency;
pub use crate::category::{Category, ParseError};
pub use crate::time::{CalendarMonth, Timestamp};
pub use crate::transaction::{Source, Transaction};
pub use crate::ledger::Ledger;
pub use crate::summary::{Summary, SummaryData};
pub use crate::budget::{Budget, Cache};
