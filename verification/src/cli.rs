//! The command line: an optional subcommand.

use vstd::prelude::*;

verus! {

/// The parsed command line.
#[derive(Debug)]
pub struct Cli {
    pub command: Option<Command>,
}

/// A subcommand.
#[derive(Debug)]
pub enum Command {
    /// list archived agents and other stale data; delete with `force`
    Cleanup { force: bool },
    /// manage the config
    Config(ConfigCommand),
}

/// A config subcommand.
#[derive(Debug)]
pub enum ConfigCommand {
    /// show the effective config
    Show,
}

} // verus!
