//! Core engine of a schema-migration tool for a column-oriented store.
//!
//! The crate tracks a catalog of versioned, reversible migration units
//! authored on disk, mirrors the store-side ledger of applied versions,
//! and computes which units are pending, which unit a revert targets,
//! and the exact sequence of store operations each command performs.
//! All reconciliation and planning logic is verified; the surrounding
//! binary performs the directory scanning and store calls.

pub mod catalog;
pub mod cli;
pub mod errors;
pub mod executor;
pub mod ledger;
pub mod orchestrate;
pub mod reconcile;
pub mod statements;
pub mod version;
