//! The requests a user can make of the engine, as the command line states them.
use vstd::prelude::*;

verus! {

/// A whole command line: the request, the configuration file, and the IPC socket.
#[derive(Debug, Clone)]
pub struct Cli {
    pub command: Subcommands,
    /// Path to the configuration file.
    pub config: String,
    /// Path to the compositor's IPC socket.
    pub socket: Option<String>,
}

/// The requests.
#[derive(Debug, Clone)]
pub enum Subcommands {
    /// Seed every active monitor with the first workspace group.
    Init,
    /// Show another workspace group on a monitor group.
    Switch { destination: String, mon_group: Option<String> },
    /// Swap two workspace groups.
    MoveGroup { from: i32, to: String, mon_group: Option<String> },
    /// Move the focused container to another workspace group.
    MoveContainer { destination: String, focus: bool, mon_group: Option<String> },
    /// Repair placement after monitors changed.
    Reorganize,
    /// Print the state of the workspaces.
    Print { waybar_module: bool, subscribe: bool },
}

} // verus!
