//! The command surface and the resolved connection configuration.
//!
//! These are the plain shapes behind the command-line front end: which
//! command was asked for, and the connection details handed to the store
//! client. Parsing of flags, environment variables and the persisted
//! configuration file happens outside this crate; by the time a command
//! runs, its arguments have been resolved into these types.

use vstd::prelude::*;

use crate::errors::CLIError;

verus! {

/// Resolved connection details for the store. Only the URL is required;
/// the remaining fields fall back to the client's defaults.
#[derive(Debug)]
pub struct SetupArgs {
    pub url: Option<String>,
    pub user: Option<String>,
    pub password: Option<String>,
    pub database: Option<String>,
}

impl SetupArgs {
    /// The URL, required before any store client can be built. Fails
    /// exactly when no URL was resolved from any configuration source.
    pub fn require_url(&self) -> (r: Result<&String, CLIError>)
        ensures
            r is Ok <==> self.url is Some,
            r matches Ok(u) ==> u@ == self.url.unwrap()@,
            r matches Err(e) ==> (e matches CLIError::BadArgs(m) && m@ == "Missing URL"@),
    {
        match &self.url {
            Some(u) => Ok(u),
            None => Err(CLIError::BadArgs(String::from_str("Missing URL"))),
        }
    }
}

/// Arguments of the generate command: the human-readable name of the
/// unit to scaffold.
#[derive(Debug)]
pub struct GenerateArgs {
    pub name: String,
}

/// The migration subcommands.
#[derive(Debug)]
pub enum MigrationCommands {
    /// Scaffold a new unit directory with empty up and down bodies.
    Generate(GenerateArgs),
    /// Apply every pending unit, in ascending version order.
    Run,
    /// Revert the most recently applied unit, then run.
    Redo,
    /// Revert the most recently applied unit.
    Revert,
}

/// The top-level commands.
#[derive(Debug)]
pub enum Commands {
    /// Create the migrations directory and persist connection details.
    Setup(SetupArgs),
    /// Operate on migrations.
    Migration(MigrationCommands),
}

/// One parsed invocation of the tool.
#[derive(Debug)]
pub struct Cli {
    pub command: Commands,
}

} // verus!
