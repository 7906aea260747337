//! Core model of a collateralized loan on a distributed ledger: the schedule
//! and restriction vocabulary, the per-operation error taxonomies, the mutation
//! model, the restriction enforcement engine, and a canonical bounded binary
//! encoding for the persisted types.

pub mod types;
pub mod valuation;
pub mod errors;
pub mod loan;
pub mod codec;
