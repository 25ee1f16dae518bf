//! The subcommands mctop understands. Reading them off the command line is
//! the binary's part.

use vstd::prelude::*;

verus! {

/// What to do once the configuration is loaded.
#[derive(Debug, Clone, PartialEq, Eq)]
pub enum Command {
    /// Open the dashboard. This is what running `mctop` with no arguments does.
    Watch,
    /// Print a single reading and exit, for scripts and health checks. The
    /// address, when given, is the server's game address.
    Status { address: Option<String> },
    /// Run each configured command and print its unparsed response.
    Probe,
    /// Show or create the config file.
    Config { action: ConfigAction },
}

/// What to do with the config file.
#[derive(Debug, Clone, PartialEq, Eq)]
pub enum ConfigAction {
    /// Print the path mctop reads its config from.
    Path,
    /// Write a commented starter config, if none exists, or over it when forced.
    Init { force: bool },
    /// Print the configuration in force, after all overrides.
    Show,
}

impl Command {
    /// The command run when none is named: the dashboard.
    pub fn or_default(command: Option<Command>) -> (r: Command)
        ensures
            match command {
                Some(given) => r == given,
                None => r is Watch,
            },
    {
        match command {
            Some(given) => given,
            None => Command::Watch,
        }
    }

    /// Whether the command talks to the server. The config subcommands never
    /// touch the network, so they stay usable when the server is unreachable.
    pub fn connects(&self) -> (r: bool)
        ensures
            r == !(*self is Config),
    {
        match self {
            Command::Config { .. } => false,
            _ => true,
        }
    }
}

} // verus!
