//! The command-line surface as plain data: what a parsed invocation asks
//! the vault to do. The surrounding application maps its argument parser's
//! output onto these types and interprets them against the store.

use vstd::prelude::*;

verus! {

/// A parsed invocation: exactly one command.
#[derive(Debug, Clone)]
pub struct Cli {
    pub command: Commands,
}

/// Every operation the command line offers.
#[derive(Debug, Clone)]
pub enum Commands {
    /// Create a new, empty project.
    Create { project_name: String },
    /// List all stored projects.
    List,
    /// Add one secret to a project; without a value the application
    /// prompts for it.
    Add { project_name: String, key: String, value: Option<String> },
    /// Remove one secret from a project.
    Remove { project_name: String, key: String },
    /// Show a project's secret keys.
    Show { project_name: String },
    /// Export a project's secrets in the named format, to a file or to
    /// standard output.
    Export { project_name: String, format: String, output: Option<String>, force: bool },
    /// Delete a project's envelope.
    Delete { project_name: String },
    /// Import secrets from an env-format file.
    Import { project_name: String, env_file: String },
}

} // verus!
