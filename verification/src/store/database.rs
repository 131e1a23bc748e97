//! The database: its statements, and what is believed of the crate that
//! executes them.
use vstd::prelude::*;
use crate::store::history;
use crate::store::ranking;
use rusqlite::Connection;
use crate::store::ranking::{Event, Ranked};

verus! {

// ---------------------------------------------------------------------------
// Statements
// ---------------------------------------------------------------------------

/// The tables, for a database that has none.
pub const CREATE_TABLES: &'static str = "
            CREATE TABLE IF NOT EXISTS command_events (
                id              INTEGER PRIMARY KEY,
                command         TEXT NOT NULL,
                cwd             TEXT NOT NULL,
                observed_at_ms  INTEGER NOT NULL,
                exit_code       INTEGER,
                source          TEXT NOT NULL,
                source_key      TEXT,
                UNIQUE(source, source_key)
            );
            CREATE INDEX IF NOT EXISTS command_events_command_idx
                ON command_events(command);
            CREATE INDEX IF NOT EXISTS command_events_cwd_idx
                ON command_events(cwd);

            CREATE TABLE IF NOT EXISTS history_imports (
                path            TEXT PRIMARY KEY,
                size_bytes      INTEGER NOT NULL,
                modified_ns     INTEGER NOT NULL
            );
            PRAGMA user_version = 1;
            ";

pub const BEGIN: &'static str = "BEGIN DEFERRED";

pub const COMMIT: &'static str = "COMMIT";

pub const ROLLBACK: &'static str = "ROLLBACK";

pub const INSERT_EVENT: &'static str = "INSERT INTO command_events
                (command, cwd, observed_at_ms, exit_code, source, source_key)
             VALUES (?1, ?2, ?3, ?4, ?5, NULL)";

pub const INSERT_IMPORTED: &'static str = "INSERT INTO command_events
                    (command, cwd, observed_at_ms, exit_code, source, source_key)
                 VALUES (?1, '', ?2, NULL, ?3, ?4)";

pub const DELETE_SOURCE: &'static str = "DELETE FROM command_events WHERE source = ?1";

pub const SAVE_IMPORT: &'static str = "INSERT INTO history_imports (path, size_bytes, modified_ns)
             VALUES (?1, ?2, ?3)
             ON CONFLICT(path) DO UPDATE SET
                size_bytes = excluded.size_bytes,
                modified_ns = excluded.modified_ns";

pub const FIND_IMPORT: &'static str =
    "SELECT size_bytes, modified_ns FROM history_imports WHERE path = ?1";

pub const SELECT_MATCHING: &'static str = "SELECT
                command,
                MAX(CASE WHEN cwd = ?2 THEN 1 ELSE 0 END) AS same_cwd,
                SUM(CASE WHEN exit_code = 0 THEN 1 ELSE 0 END) AS successes,
                MAX(observed_at_ms) AS latest,
                COUNT(*) AS uses
             FROM command_events
             WHERE command LIKE ?1 ESCAPE '\\' AND command <> ?3
              GROUP BY command
              ORDER BY
                latest DESC,
                same_cwd DESC,
                CASE WHEN ?5 = 1 AND successes > 0 THEN 1 ELSE 0 END DESC,
                uses DESC,
                command ASC
             LIMIT ?4";

pub const SELECT_ALL: &'static str = "SELECT
                command,
                MAX(CASE WHEN cwd = ?1 THEN 1 ELSE 0 END) AS same_cwd,
                SUM(CASE WHEN exit_code = 0 THEN 1 ELSE 0 END) AS successes,
                MAX(observed_at_ms) AS latest,
                COUNT(*) AS uses
             FROM command_events
              GROUP BY command
              ORDER BY
                latest DESC,
                same_cwd DESC,
                CASE WHEN ?3 = 1 AND successes > 0 THEN 1 ELSE 0 END DESC,
                uses DESC,
                command ASC
             LIMIT ?2";

// ---------------------------------------------------------------------------
// What a connection reaches
// ---------------------------------------------------------------------------

/// A connection to a database.
#[verifier::external_type_specification]
#[verifier::external_body]
pub struct ExConnection(rusqlite::Connection);

/// What the database says when a statement fails.
#[verifier::external_type_specification]
#[verifier::external_body]
pub struct ExError(rusqlite::Error);

/// Nothing but this connection reaches its database, as one in memory.
pub uninterp spec fn exclusive(c: Connection) -> bool;

/// The path that the connection was opened with; none for one in memory.
pub uninterp spec fn opened_with(c: Connection) -> Option<Seq<char>>;

/// The seconds that a statement waits for a lock.
pub uninterp spec fn busy_seconds(c: Connection) -> nat;

/// The pragmas that were set with success one at a time, by their names. What a
/// batch of statements sets is not among them.
pub uninterp spec fn pragmas_set(c: Connection) -> Map<Seq<char>, Seq<char>>;

/// The last batch of statements that was handed to the connection.
pub uninterp spec fn last_batch(c: Connection) -> Seq<char>;

/// What the database says when a statement fails, in words: the error and behind
/// it its causes.
pub uninterp spec fn said(error: rusqlite::Error) -> Seq<char>;

/// The rows of `command_events` in the order in which they were inserted, as the
/// connection left them when it last changed or restored them; where nothing else
/// reaches the database, as they are. None where there is no such table.
pub uninterp spec fn stored_events(c: Connection) -> Seq<Event>;

/// The rows of `history_imports` by their paths, as the connection left them:
/// size and time of change.
pub uninterp spec fn stored_imports(c: Connection) -> Map<Seq<char>, (int, int)>;

/// A transaction is open.
pub uninterp spec fn in_transaction(c: Connection) -> bool;

/// The open transaction has executed a statement that changes rows. The database
/// lets nothing else change rows until it ends.
pub uninterp spec fn holds_rows(c: Connection) -> bool;

/// The rows of `command_events` when the last change of the connection began: the
/// open transaction, or the last transaction or single statement that changed
/// rows.
pub uninterp spec fn saved_events(c: Connection) -> Seq<Event>;

/// The rows of `history_imports` when the last change of the connection began.
pub uninterp spec fn saved_imports(c: Connection) -> Map<Seq<char>, (int, int)>;

/// The number that `PRAGMA user_version` gives.
pub uninterp spec fn schema_version(c: Connection) -> int;

/// `LIKE` tells capital letters from small ones.
pub uninterp spec fn case_sensitive(c: Connection) -> bool;

/// A connection is set up as before.
pub open spec fn same_setup(a: Connection, b: Connection) -> bool {
    &&& opened_with(b) == opened_with(a)
    &&& busy_seconds(b) == busy_seconds(a)
    &&& pragmas_set(b) == pragmas_set(a)
}

/// A transaction is open in which nothing else changes rows.
pub open spec fn locked(c: Connection) -> bool {
    in_transaction(c) && holds_rows(c)
}

/// A connection after something that changes nothing in its database.
pub open spec fn keeps(a: Connection, b: Connection) -> bool {
    &&& same_setup(a, b)
    &&& keeps_rows(a, b)
}

/// A connection after something that changes nothing in its database, however
/// the connection is set up.
pub open spec fn keeps_rows(a: Connection, b: Connection) -> bool {
    &&& case_sensitive(a) ==> case_sensitive(b)
    &&& exclusive(b) == exclusive(a)
    &&& same_stored(a, b)
    &&& same_saved(a, b)
    &&& in_transaction(b) == in_transaction(a)
    &&& locked(b) == locked(a)
    &&& exclusive(a) ==> schema_version(b) == schema_version(a)
}

/// The connection has changed no rows.
pub open spec fn same_stored(a: Connection, b: Connection) -> bool {
    stored_events(b) == stored_events(a) && stored_imports(b) == stored_imports(a)
}

/// The connection has begun no change.
pub open spec fn same_saved(a: Connection, b: Connection) -> bool {
    saved_events(b) == saved_events(a) && saved_imports(b) == saved_imports(a)
}

/// The rows are those that the open transaction found.
pub open spec fn restored(a: Connection, b: Connection) -> bool {
    &&& same_saved(a, b)
    &&& if locked(a) {
        stored_events(b) == saved_events(a) && stored_imports(b) == saved_imports(a)
    } else {
        same_stored(a, b)
    }
}

/// A connection after a statement that failed: the statement has changed
/// nothing, or the failure has rolled the open transaction back.
pub open spec fn aborts(a: Connection, b: Connection) -> bool {
    ||| keeps(a, b)
    ||| {
        &&& case_sensitive(a) ==> case_sensitive(b)
        &&& exclusive(b) == exclusive(a)
        &&& same_setup(a, b)
        &&& in_transaction(a)
        &&& !in_transaction(b)
        &&& restored(a, b)
    }
}

/// The rows of `command_events` that a statement between two states of a
/// connection finds: those that its transaction has left, or those with which a
/// change begins.
pub open spec fn found_events(a: Connection, b: Connection) -> Seq<Event> {
    if locked(a) {
        stored_events(a)
    } else {
        saved_events(b)
    }
}

/// The rows of `history_imports` that a statement finds.
pub open spec fn found_imports(a: Connection, b: Connection) -> Map<Seq<char>, (int, int)> {
    if locked(a) {
        stored_imports(a)
    } else {
        saved_imports(b)
    }
}

/// A connection after a statement that left these rows. Outside a transaction
/// that has changed rows it begins a change; where nothing else reaches the
/// database, with the rows that the connection left.
pub open spec fn leaves(
    a: Connection,
    b: Connection,
    events: Seq<Event>,
    imports: Map<Seq<char>, (int, int)>,
) -> bool {
    &&& case_sensitive(a) ==> case_sensitive(b)
    &&& exclusive(b) == exclusive(a)
    &&& same_setup(a, b)
    &&& stored_events(b) == events
    &&& stored_imports(b) == imports
    &&& in_transaction(b) == in_transaction(a)
    &&& in_transaction(b) ==> holds_rows(b)
    &&& locked(a) ==> same_saved(a, b)
    &&& !locked(a) && exclusive(a) ==> saved_events(b) == stored_events(a) && saved_imports(b)
        == stored_imports(a)
    &&& exclusive(a) ==> schema_version(b) == schema_version(a)
}

/// A connection after a whole statement without parameters.
pub open spec fn batched(a: Connection, b: Connection, sql: Seq<char>) -> bool {
    &&& case_sensitive(a) ==> case_sensitive(b)
    &&& exclusive(b) == exclusive(a)
    &&& same_setup(a, b)
    &&& sql == BEGIN@ ==> {
        &&& in_transaction(b)
        &&& same_stored(a, b)
        &&& exclusive(a) ==> schema_version(b) == schema_version(a)
    }
    &&& sql == COMMIT@ ==> {
        &&& !in_transaction(b)
        &&& same_stored(a, b)
        &&& same_saved(a, b)
        &&& exclusive(a) ==> schema_version(b) == schema_version(a)
    }
    &&& sql == ROLLBACK@ ==> !in_transaction(b) && restored(a, b)
    &&& sql == CREATE_TABLES@ ==> {
        &&& in_transaction(b) == in_transaction(a)
        &&& same_stored(a, b)
        &&& same_saved(a, b)
        &&& exclusive(a) ==> schema_version(b) == 1
    }
}

// ---------------------------------------------------------------------------
// What the crate does
// ---------------------------------------------------------------------------

/// `rusqlite::Connection::open` opens a database file. Nothing is said of what
/// it holds: other connections reach it too. It is opened at the path that is
/// given, no pragma was set on it yet, and no transaction is open on it.
#[verifier::external_body]
pub(crate) fn open_file(path: &str) -> (r: Result<Connection, rusqlite::Error>)
    ensures
        match r {
            Ok(c) => {
                &&& !in_transaction(c)
                &&& opened_with(c) == Some(path@)
                &&& pragmas_set(c) == Map::<Seq<char>, Seq<char>>::empty()
            },
            Err(_) => true,
        },
{
    Connection::open(path)
}

/// `rusqlite::Connection::open_in_memory` opens a new database, which has no
/// tables and which no other connection reaches.
#[verifier::external_body]
pub(crate) fn open_memory() -> (r: Result<Connection, rusqlite::Error>)
    ensures
        match r {
            Ok(c) => {
                &&& exclusive(c)
                &&& opened_with(c) is None
                &&& pragmas_set(c) == Map::<Seq<char>, Seq<char>>::empty()
                &&& stored_events(c) == Seq::<Event>::empty()
                &&& stored_imports(c) == Map::<Seq<char>, (int, int)>::empty()
                &&& !in_transaction(c)
                &&& schema_version(c) == 0
            },
            Err(_) => true,
        },
{
    Connection::open_in_memory()
}

/// `rusqlite::Connection::busy_timeout` sets how long a statement waits for a
/// lock, and changes nothing in the database. It panics where the milliseconds
/// exceed a signed 32-bit integer.
#[verifier::external_body]
pub(crate) fn set_busy_timeout(connection: &mut Connection, seconds: u64) -> (r: Result<
    (),
    rusqlite::Error,
>)
    requires
        seconds <= 2_000_000,
    ensures
        keeps_rows(*old(connection), *final(connection)),
        opened_with(*final(connection)) == opened_with(*old(connection)),
        pragmas_set(*final(connection)) == pragmas_set(*old(connection)),
        r is Ok ==> busy_seconds(*final(connection)) == seconds,
{
    connection.busy_timeout(std::time::Duration::from_secs(seconds))
}

/// `rusqlite::Connection::pragma_update` sets a pragma. Those three that are
/// set here leave the rows as they are; `case_sensitive_like` makes `LIKE` tell
/// capital letters from small ones.
#[verifier::external_body]
pub(crate) fn set_pragma(connection: &mut Connection, name: &str, value: &str) -> (r: Result<
    (),
    rusqlite::Error,
>)
    requires
        (name@ == "journal_mode"@ && value@ == "WAL"@) || (name@ == "foreign_keys"@ && value@
            == "ON"@) || (name@ == "case_sensitive_like"@ && value@ == "ON"@),
    ensures
        r is Ok ==> keeps_rows(*old(connection), *final(connection)),
        opened_with(*final(connection)) == opened_with(*old(connection)),
        busy_seconds(*final(connection)) == busy_seconds(*old(connection)),
        pragmas_set(*final(connection)) == if r is Ok {
            pragmas_set(*old(connection)).insert(name@, value@)
        } else {
            pragmas_set(*old(connection))
        },
        r is Ok && name@ == "case_sensitive_like"@ ==> case_sensitive(*final(connection)),
{
    connection.pragma_update(None, name, value)
}

/// `rusqlite::Connection::pragma_query_value` reads a pragma, here the version
/// of the schema.
#[verifier::external_body]
pub(crate) fn read_user_version(connection: &Connection, name: &str) -> (r: Result<
    i64,
    rusqlite::Error,
>)
    requires
        name@ == "user_version"@,
    ensures
        r is Ok && exclusive(*connection) ==> r->Ok_0 == schema_version(*connection),
{
    connection.pragma_query_value(None, name, |row| row.get(0))
}

/// `rusqlite::Connection::execute_batch` executes statements without
/// parameters, here those that create the tables where they are missing and
/// those that begin and end a transaction. A transaction that begins has found no
/// rows yet: it finds them when it first changes some. When a statement fails, a
/// transaction stays as it is or is rolled back; tables may have been created,
/// without rows.
#[verifier::external_body]
pub(crate) fn run_batch(connection: &mut Connection, sql: &str) -> (r: Result<(), rusqlite::Error>)
    requires
        sql@ == CREATE_TABLES@ || sql@ == BEGIN@ || sql@ == COMMIT@ || sql@ == ROLLBACK@,
    ensures
        last_batch(*final(connection)) == sql@,
        r is Ok ==> batched(*old(connection), *final(connection), sql@),
        r is Ok && sql@ == BEGIN@ ==> !holds_rows(*final(connection)),
        r is Ok && sql@ == BEGIN@ && exclusive(*old(connection)) ==> saved_events(
            *final(connection),
        ) == stored_events(*old(connection)) && saved_imports(*final(connection))
            == stored_imports(*old(connection)),
        r is Err && (sql@ == BEGIN@ || sql@ == COMMIT@ || sql@ == ROLLBACK@) ==> aborts(
            *old(connection),
            *final(connection),
        ),
        r is Err && !in_transaction(*old(connection)) ==> same_stored(
            *old(connection),
            *final(connection),
        ) && !in_transaction(*final(connection)),
        case_sensitive(*old(connection)) ==> case_sensitive(*final(connection)),
        exclusive(*final(connection)) == exclusive(*old(connection)),
        same_setup(*old(connection), *final(connection)),
{
    connection.execute_batch(sql)
}

/// `rusqlite::Connection::is_autocommit` says whether no transaction is open.
#[verifier::external_body]
pub(crate) fn is_settled(connection: &Connection) -> (b: bool)
    ensures
        b == !in_transaction(*connection),
{
    connection.is_autocommit()
}

/// `rusqlite::Connection::execute` with the statement that inserts a command.
#[verifier::external_body]
pub(crate) fn insert_event(
    connection: &mut Connection,
    sql: &str,
    command: &str,
    cwd: &str,
    observed_at_ms: i64,
    exit_code: i32,
    source: &str,
) -> (r: Result<usize, rusqlite::Error>)
    requires
        sql@ == INSERT_EVENT@,
    ensures
        r is Ok ==> leaves(
            *old(connection),
            *final(connection),
            found_events(*old(connection), *final(connection)).push(
                Event {
                    command: command@,
                    cwd: cwd@,
                    observed_at: observed_at_ms as int,
                    exit_code: Some(exit_code as int),
                    source: source@,
                    source_key: None,
                },
            ),
            found_imports(*old(connection), *final(connection)),
        ),
        r is Err ==> aborts(*old(connection), *final(connection)),
{
    connection.execute(sql, (command, cwd, observed_at_ms, exit_code, source))
}

/// `rusqlite::Connection::execute` with the statement that deletes the commands
/// from one source.
#[verifier::external_body]
pub(crate) fn delete_source(connection: &mut Connection, sql: &str, source: &str) -> (r: Result<
    usize,
    rusqlite::Error,
>)
    requires
        sql@ == DELETE_SOURCE@,
    ensures
        r is Ok ==> leaves(
            *old(connection),
            *final(connection),
            found_events(*old(connection), *final(connection)).filter(|e: Event| e.source != source@),
            found_imports(*old(connection), *final(connection)),
        ),
        r is Err ==> aborts(*old(connection), *final(connection)),
{
    connection.execute(sql, (source,))
}

/// `rusqlite::Connection::prepare_cached` and `rusqlite::Statement::execute`
/// with the statement that inserts a command from a history file.
#[verifier::external_body]
pub(crate) fn insert_imported(
    connection: &mut Connection,
    sql: &str,
    command: &str,
    observed_at_ms: i64,
    source: &str,
    source_key: &str,
) -> (r: Result<usize, rusqlite::Error>)
    requires
        sql@ == INSERT_IMPORTED@,
    ensures
        r is Ok ==> leaves(
            *old(connection),
            *final(connection),
            found_events(*old(connection), *final(connection)).push(
                Event {
                    command: command@,
                    cwd: Seq::empty(),
                    observed_at: observed_at_ms as int,
                    exit_code: None,
                    source: source@,
                    source_key: Some(source_key@),
                },
            ),
            found_imports(*old(connection), *final(connection)),
        ),
        r is Err ==> aborts(*old(connection), *final(connection)),
{
    connection.prepare_cached(sql)?.execute((command, observed_at_ms, source, source_key))
}

/// `rusqlite::Connection::execute` with the statement that notes what a history
/// file was like when it was read.
#[verifier::external_body]
pub(crate) fn save_import(
    connection: &mut Connection,
    sql: &str,
    path: &str,
    size_bytes: i64,
    modified_ns: i64,
) -> (r: Result<usize, rusqlite::Error>)
    requires
        sql@ == SAVE_IMPORT@,
    ensures
        r is Ok ==> leaves(
            *old(connection),
            *final(connection),
            found_events(*old(connection), *final(connection)),
            found_imports(*old(connection), *final(connection)).insert(
                path@,
                (size_bytes as int, modified_ns as int),
            ),
        ),
        r is Err ==> aborts(*old(connection), *final(connection)),
{
    connection.execute(sql, (path, size_bytes, modified_ns))
}

/// `rusqlite::Connection::query_row` and
/// `rusqlite::OptionalExtension::optional` with the statement that finds what a
/// history file was like when it was read.
#[verifier::external_body]
pub(crate) fn find_import(connection: &Connection, sql: &str, path: &str) -> (r: Result<
    Option<(i64, i64)>,
    rusqlite::Error,
>)
    requires
        sql@ == FIND_IMPORT@,
    ensures
        r is Ok && exclusive(*connection) ==> match r->Ok_0 {
            Some(found) => stored_imports(*connection).contains_key(path@) && stored_imports(
                *connection,
            )[path@] == (found.0 as int, found.1 as int),
            None => !stored_imports(*connection).contains_key(path@),
        },
{
    rusqlite::OptionalExtension::optional(
        connection.query_row(sql, (path,), |row| Ok((row.get(0)?, row.get(1)?))),
    )
}

/// What the rows of a query say: the command, whether it was used here, and how
/// often it was used.
pub open spec fn rows_say(rows: Seq<(String, i64, i64)>, ranked: Seq<Ranked>) -> bool {
    &&& rows.len() == ranked.len()
    &&& forall|i: int|
        0 <= i < rows.len() ==> {
            &&& (#[trigger] rows[i]).0@ == ranked[i].command
            &&& (rows[i].1 != 0) == ranked[i].same_cwd
            &&& rows[i].2 == ranked[i].uses
        }
}

/// Rows say what matches a pattern in some state of the table; in the state
/// that it has, where nothing else reaches the database.
pub open spec fn says_matching(
    rows: Seq<(String, i64, i64)>,
    c: Connection,
    pattern: Seq<char>,
    besides: Seq<char>,
    cwd: Seq<char>,
    limit: nat,
    successful_first: bool,
) -> bool {
    exists|e: Seq<Event>|
        {
            &&& rows_say(
                rows,
                #[trigger] ranking::matching_rows(e, pattern, besides, cwd, limit, successful_first),
            )
            &&& exclusive(c) ==> e == stored_events(c)
        }
}

/// Rows say which commands there are in some state of the table; in the state
/// that it has, where nothing else reaches the database.
pub open spec fn says_all(
    rows: Seq<(String, i64, i64)>,
    c: Connection,
    cwd: Seq<char>,
    limit: nat,
    successful_first: bool,
) -> bool {
    exists|e: Seq<Event>|
        {
            &&& rows_say(rows, #[trigger] ranking::inventory_rows(e, cwd, limit, successful_first))
            &&& exclusive(c) ==> e == stored_events(c)
        }
}

/// `rusqlite::Connection::prepare` and `rusqlite::Statement::query_map` with
/// the statement that selects the commands that match a pattern, here one that
/// stands for a beginning. It sees one state of the table, which is known where
/// nothing else reaches the database. `LIKE` reads the pattern and the command up
/// to a NUL; everything else compares whole texts. The outer error comes from the
/// statement, the inner one from reading its rows.
#[verifier::external_body]
pub(crate) fn select_matching(
    connection: &Connection,
    sql: &str,
    pattern: &str,
    cwd: &str,
    besides: &str,
    limit: usize,
    successful_first: i64,
) -> (r: Result<Result<Vec<(String, i64, i64)>, rusqlite::Error>, rusqlite::Error>)
    requires
        sql@ == SELECT_MATCHING@,
        exists|prefix: Seq<char>| pattern@ == #[trigger] history::like_escaped(prefix).push('%'),
    ensures
        match r {
            Ok(Ok(rows)) => {
                &&& rows@.len() <= limit
                &&& case_sensitive(*connection) ==> says_matching(
                    rows@,
                    *connection,
                    pattern@,
                    besides@,
                    cwd@,
                    limit as nat,
                    successful_first == 1,
                )
            },
            _ => true,
        },
{
    let mut statement = connection.prepare(sql)?;
    let rows = statement.query_map(
        (pattern, cwd, besides, limit as i64, successful_first),
        |row| Ok((row.get(0)?, row.get(1)?, row.get(4)?)),
    )?;
    let list = rows.collect();
    Ok(list)
}

/// `rusqlite::Connection::prepare` and `rusqlite::Statement::query_map` with
/// the statement that selects all commands. It sees one state of the table,
/// which is known where nothing else reaches the database. The outer error comes
/// from the statement, the inner one from reading its rows.
#[verifier::external_body]
pub(crate) fn select_all(
    connection: &Connection,
    sql: &str,
    cwd: &str,
    limit: usize,
    successful_first: i64,
) -> (r: Result<Result<Vec<(String, i64, i64)>, rusqlite::Error>, rusqlite::Error>)
    requires
        sql@ == SELECT_ALL@,
    ensures
        match r {
            Ok(Ok(rows)) => says_all(
                rows@,
                *connection,
                cwd@,
                limit as nat,
                successful_first == 1,
            ),
            _ => true,
        },
{
    let mut statement = connection.prepare(sql)?;
    let rows = statement.query_map(
        (cwd, limit as i64, successful_first),
        |row| Ok((row.get(0)?, row.get(1)?, row.get(4)?)),
    )?;
    let list = rows.collect();
    Ok(list)
}

/// `anyhow::Error` made of a `rusqlite::Error` and written with its causes, each
/// behind the one that it is the cause of. The text depends on the error alone.
/// What it is for each error is not stated.
#[verifier::external_body]
pub(crate) fn error_text(error: rusqlite::Error) -> (r: String)
    ensures
        r@ == said(error),
{
    format!("{:#}", anyhow::Error::new(error))
}

/// A message is a failure of the database, in its words behind a context.
pub open spec fn failure_text(message: Seq<char>, context: Seq<char>) -> bool {
    exists|error: rusqlite::Error| message == context + #[trigger] said(error)
}

} // verus!
