//! Previews of files and of commands that only read.
pub mod ansi;
pub mod command;
pub mod error;
pub mod file;
