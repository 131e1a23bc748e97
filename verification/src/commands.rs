//! Installed commands: the catalogue, its metadata and where that comes from.
pub mod cache;
pub mod catalog;
pub mod describe;
pub mod discovery;
pub mod help;
pub mod known;
pub mod listing;
pub mod options;
pub mod subcommands;
pub mod values;

pub use crate::commands::catalog::{
    CommandCatalog, CommandEntry, CommandMatch, OptionMatches, SubcommandMatches, ValueMatches,
};
pub use crate::commands::options::OptionMatch;
pub use crate::commands::subcommands::SubcommandMatch;
pub use crate::commands::values::ValueMatch;
