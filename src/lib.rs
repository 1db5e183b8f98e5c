//! Turns the notification stream of a smart puzzle cube into decoded moves,
//! and matches sequences of moves against a table of triggers that emit
//! keyboard actions.
pub mod cipher;
pub mod cube;
pub mod config;
pub mod state_machine;
