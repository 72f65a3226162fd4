//! The command line.
use vstd::prelude::*;

verus! {

/// The parsed command line.
#[derive(Debug)]
pub struct Cli {
    pub command: Command,
}

/// The subcommands.
#[derive(Debug)]
pub enum Command {
    /// Open the fuzzy picker to select and jump to an instance.
    Pick,
    /// Jump to the most recently started idle instance, with no UI.
    Jump,
    /// A hook event: `idle`, `asking`, `start` or `end`.
    Event { kind: String },
    /// Print the one-line status for the tmux status bar.
    Status,
    /// Print the hook configuration and key bindings to set up.
    Setup,
}

} // verus!
