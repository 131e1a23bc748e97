//! Why the store did not do what it was asked.
use vstd::prelude::*;
use crate::number;
use crate::store::database;
use crate::number::decimal_chars;
use crate::text::{push_all, push_str};

verus! {

/// Why the store did not do what it was asked.
#[derive(Debug, PartialEq, Eq)]
pub enum StoreError {
    /// The database failed; what it said.
    Database { message: String },
    /// The database was written by a later version.
    SchemaTooNew { version: u64 },
    /// A history file has too many commands.
    TooManyEntries,
    /// The history path is no file.
    NotAFile { path: String },
    /// The history file is too large.
    FileTooLarge { path: String },
    /// The history file grew while it was read.
    FileGrew,
    /// The history file is not UTF-8; what is wrong with it.
    NotUtf8 { problem: String },
}

/// What the user is told.
pub open spec fn store_error_text(e: StoreError) -> Seq<char> {
    match e {
        StoreError::Database { message } => message@,
        StoreError::SchemaTooNew { version } => "database schema "@ + number::decimal(version as nat)
            + " is newer than supported schema 1"@,
        StoreError::TooManyEntries => "history file exceeds 250000 entries"@,
        StoreError::NotAFile { path } => "history path is not a regular file: "@ + path@,
        StoreError::FileTooLarge { path } => "history file exceeds 32 MiB: "@ + path@,
        StoreError::FileGrew => "history file grew beyond the import limit while reading"@,
        StoreError::NotUtf8 { problem } => "history file is not valid UTF-8: "@ + problem@,
    }
}

/// The database failed; its words stand behind a context.
pub open spec fn database_failure(e: StoreError, context: Seq<char>) -> bool {
    e matches StoreError::Database { message } && database::failure_text(message@, context)
}

impl StoreError {
    /// What the user is told.
    pub fn message(&self) -> (r: String)
        ensures
            r@ == store_error_text(*self),
    {
        let mut out = String::new();
        match self {
            StoreError::Database { message } => {
                push_str(&mut out, message.as_str());
            },
            StoreError::SchemaTooNew { version } => {
                push_str(&mut out, "database schema ");
                push_all(&mut out, decimal_chars(*version).as_slice());
                push_str(&mut out, " is newer than supported schema 1");
            },
            StoreError::TooManyEntries => {
                push_str(&mut out, "history file exceeds 250000 entries");
            },
            StoreError::NotAFile { path } => {
                push_str(&mut out, "history path is not a regular file: ");
                push_str(&mut out, path.as_str());
            },
            StoreError::FileTooLarge { path } => {
                push_str(&mut out, "history file exceeds 32 MiB: ");
                push_str(&mut out, path.as_str());
            },
            StoreError::FileGrew => {
                push_str(&mut out, "history file grew beyond the import limit while reading");
            },
            StoreError::NotUtf8 { problem } => {
                push_str(&mut out, "history file is not valid UTF-8: ");
                push_str(&mut out, problem.as_str());
            },
        }
        assert(out@ =~= store_error_text(*self));
        out
    }
}

} // verus!
