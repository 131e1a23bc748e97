//! Aster: a conservative, history-first shell completion engine.
//!
//! Every rule that decides what is suggested, recorded, parsed or rendered
//! lives in this library and carries a contract. Processes, sockets, files and
//! the clock stay with the program that drives it.
use vstd::prelude::*;

pub mod client;
pub mod commands;
pub mod config;
pub mod daemon;
pub mod engine;
pub mod integration;
pub mod laws;
pub mod number;
pub mod order;
pub mod output;
pub mod paths;
pub mod preview;
pub mod protocol;
pub mod records;
pub mod store;
pub mod text;

verus! {

/// The version of this program.
pub const VERSION: &'static str = "0.1.0";

} // verus!
