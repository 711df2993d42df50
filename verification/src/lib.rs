//! Row-state reconciliation engine for a single-user company ledger.
//!
//! The library owns the in-memory table of company records in their
//! lifecycle phases (persisted, staged for add, staged for edit, aggregate
//! total), validates staged text fields into domain values, aggregates
//! totals, and folds asynchronous persistence results back into row state.
//! The surrounding program supplies the renderer and the store.

pub mod exports;
pub mod model;
pub mod money;
pub mod protocol;
pub mod rows;
pub mod state;
pub mod text;
pub mod total;
pub mod validate;
