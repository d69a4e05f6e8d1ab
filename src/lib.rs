//! Placement of replicated workspace groups over groups of monitors.
pub mod cli;
pub mod command;
pub mod config;
pub mod destination;
pub mod error;
pub mod model;
pub mod placement;
pub mod reconcile;
pub mod snapshot;
pub mod state;
pub mod text;
pub mod workspace_id;
