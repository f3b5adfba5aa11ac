//! Error taxonomy of the engine.
//!
//! Every component returns a typed failure; only the command boundary
//! turns one into a printed message and an exit code. [`CLIError`] is
//! that boundary type; the structured variants below say exactly what
//! went wrong and carry the values a caller can branch on.

use vstd::prelude::*;

use crate::ledger::MigrationRow;

verus! {

/// The error shape reported at the command boundary.
#[derive(Debug)]
pub enum CLIError {
    BadArgs(String),
    InternalError(String),
    DBError(String),
}

/// A failure reported by the store for a single call, carried verbatim.
#[derive(Debug)]
pub struct StoreError {
    pub message: String,
}

/// A reconciliation failure: the command stops before any store call.
#[derive(Debug)]
pub enum MigrationError {
    /// A directory entry is not `<version>_<name>` with a well-formed
    /// version; the offending entry is carried whole.
    BadInput { entry: String },
    /// The ledger records versions that no local unit carries; applying
    /// or reverting anything would target a missing SQL body.
    Drift { records: Vec<MigrationRow> },
    /// A revert was asked for while the ledger is empty.
    NothingToRevert,
}

/// An execution failure while running one unit's statements.
#[derive(Debug)]
pub enum ExecError {
    /// A statement failed: nothing was recorded in the ledger for this
    /// unit, though earlier statements of the unit are not rolled back.
    Apply { version: String, cause: StoreError },
    /// The unit's SQL ran, but recording the outcome in the ledger
    /// failed: store and ledger may now disagree, and an operator must
    /// inspect before re-running.
    LedgerWriteFailed { version: String, cause: StoreError },
}

impl MigrationError {
    /// The message printed for this failure at the command boundary.
    pub fn to_cli_error(&self) -> (e: CLIError)
        ensures
            self matches MigrationError::BadInput { entry } ==> (e matches CLIError::BadArgs(m)
                && m@ == "Invalid migration entry: "@ + entry@),
            self is Drift ==> (e matches CLIError::BadArgs(m) && m@
                == "Your local migrations and the database migrations are out of sync!"@),
            self is NothingToRevert ==> (e matches CLIError::InternalError(m) && m@
                == "No migrations to revert"@),
    {
        match self {
            MigrationError::BadInput { entry } => CLIError::BadArgs(
                String::from_str("Invalid migration entry: ").concat(entry.as_str()),
            ),
            MigrationError::Drift { .. } => CLIError::BadArgs(
                String::from_str(
                    "Your local migrations and the database migrations are out of sync!",
                ),
            ),
            MigrationError::NothingToRevert => CLIError::InternalError(
                String::from_str("No migrations to revert"),
            ),
        }
    }
}

impl ExecError {
    /// The message printed for this failure at the command boundary.
    pub fn to_cli_error(&self) -> (e: CLIError)
        ensures
            self matches ExecError::Apply { version, cause } ==> (e matches CLIError::DBError(m)
                && m@ == "migration failed: "@ + cause.message@),
            self matches ExecError::LedgerWriteFailed { version, cause } ==> (e
                matches CLIError::DBError(m) && m@
                == "ledger write failed after successful migration: "@ + cause.message@),
    {
        match self {
            ExecError::Apply { version: _, cause } => CLIError::DBError(
                String::from_str("migration failed: ").concat(cause.message.as_str()),
            ),
            ExecError::LedgerWriteFailed { version: _, cause } => CLIError::DBError(
                String::from_str("ledger write failed after successful migration: ").concat(
                    cause.message.as_str(),
                ),
            ),
        }
    }
}

} // verus!
