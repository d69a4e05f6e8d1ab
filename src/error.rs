//! Failures of the placement engine.
use vstd::prelude::*;

verus! {

/// Why an operation of the engine cannot go on.
#[derive(Debug, Clone, Copy, PartialEq, Eq, Structural)]
pub enum EngineError {
    /// The configuration holds no monitor group.
    ConfigError,
    /// A monitor group whose main monitor is needed has no active monitor.
    NoActiveMonitor,
    /// No workspace reports focus.
    NoFocusedWorkspace,
    /// The named monitor group is not configured.
    GroupNotFound,
    /// A destination token or a workspace name that must be managed does not parse.
    ParseError,
}

} // verus!
