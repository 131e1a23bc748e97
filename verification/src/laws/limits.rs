//! The limits that the library keeps.
use vstd::prelude::*;
use crate::client;
use crate::commands::catalog;
use crate::daemon;
use crate::engine::completion;
use crate::engine::filesystem;
use crate::engine::fuzzy;
use crate::protocol;
use crate::store;
use crate::preview::command;
use crate::preview::file;
use crate::store::history;

verus! {

/// Requests and answers fit into a mebibyte, 64 clients are served at a time and
/// as many commands wait to be looked at. A buffer and a recorded command take
/// 64 KiB, a path and a previewed line 16 KiB. A directory is read up to 1024
/// entries, a history file up to 32 MiB and 250000 commands, and a search looks
/// through 4096 commands of the past.
pub proof fn law_limits()
    ensures
        daemon::MAX_REQUEST_BYTES == 1024 * 1024,
        daemon::MAX_RESPONSE_BYTES == 1024 * 1024,
        client::MAX_RESPONSE_BYTES == 1024 * 1024,
        daemon::MAX_CONNECTIONS == 64,
        catalog::QUEUE_CAPACITY == 64,
        completion::MAX_BUFFER_BYTES == 64 * 1024,
        history::MAX_COMMAND_BYTES == 64 * 1024,
        daemon::MAX_PATH_BYTES == 16 * 1024,
        command::MAX_COMMAND_LINE_BYTES == 16 * 1024,
        file::MAX_PREVIEW_BYTES == 16 * 1024,
        filesystem::MAX_DIRECTORY_ENTRIES == 1024,
        store::MAX_HISTORY_BYTES == 32 * 1024 * 1024,
        history::MAX_HISTORY_ENTRIES == 250_000,
        fuzzy::FUZZY_HISTORY_LIMIT == 4096,
        protocol::PROTOCOL_VERSION == 8,
        store::SCHEMA_VERSION == 1,
        store::BUSY_SECONDS == 2,
{
}

} // verus!
