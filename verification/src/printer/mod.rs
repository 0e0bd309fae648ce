//! The printer's status.
pub mod state;
