//! Core of a personal expense tracker: a persistent store for expense
//! records and user credentials, and pure aggregation over loaded expenses.
//!
//! Amounts of money are held in whole cents so that sums are exact.

pub mod aggregate;
pub mod amounts;
pub mod dates;
pub mod laws;
pub mod model;
pub mod password;
pub mod session;
pub mod store;
