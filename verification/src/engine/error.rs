//! Why a completion or a search has no answer.
use vstd::prelude::*;
use crate::store::error;
use crate::store::error::StoreError;
use crate::text::push_str;

verus! {

/// Why a completion or a search has no answer.
#[derive(Debug, PartialEq, Eq)]
pub enum EngineError {
    /// The buffer is longer than a shell's line editor holds.
    BufferTooLong,
    /// The cursor stands behind the buffer or inside a character.
    InvalidCursor,
    /// The query is longer than a shell's line editor holds.
    QueryTooLong,
    /// The store failed.
    Store { error: StoreError },
    /// The fuzzy filter ended with this status.
    FilterFailed { status: String },
    /// The fuzzy filter's output names no candidate where one is expected; what
    /// is wrong with it.
    FilterOutput { problem: String },
}

/// What the user is told.
pub open spec fn engine_error_text(e: EngineError) -> Seq<char> {
    match e {
        EngineError::BufferTooLong => "completion buffer exceeds 65536 bytes"@,
        EngineError::InvalidCursor => "cursor is not a valid UTF-8 byte offset"@,
        EngineError::QueryTooLong => "fuzzy query exceeds 65536 bytes"@,
        EngineError::Store { error } => error::store_error_text(error),
        EngineError::FilterFailed { status } => "fzf fuzzy filter failed with "@ + status@,
        EngineError::FilterOutput { problem } => problem@,
    }
}

impl EngineError {
    /// What the user is told.
    pub fn message(&self) -> (r: String)
        ensures
            r@ == engine_error_text(*self),
    {
        match self {
            EngineError::BufferTooLong => "completion buffer exceeds 65536 bytes".to_string(),
            EngineError::InvalidCursor => "cursor is not a valid UTF-8 byte offset".to_string(),
            EngineError::QueryTooLong => "fuzzy query exceeds 65536 bytes".to_string(),
            EngineError::Store { error } => error.message(),
            EngineError::FilterFailed { status } => {
                let mut out = String::new();
                push_str(&mut out, "fzf fuzzy filter failed with ");
                push_str(&mut out, status.as_str());
                assert(out@ =~= engine_error_text(*self));
                out
            },
            EngineError::FilterOutput { problem } => problem.clone(),
        }
    }
}

} // verus!
