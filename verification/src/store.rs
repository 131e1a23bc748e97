//! What the shells have done: commands with their circumstances, kept in a
//! database that all of them share.
use vstd::prelude::*;
use vstd::utf8::*;
use crate::number;
use crate::records;
use crate::text;
use rusqlite::Connection;
use crate::number::{clamped, decimal_chars};
use crate::store::database::{
    delete_source, error_text, find_import, insert_event, insert_imported, is_settled, open_file,
    open_memory, read_user_version, run_batch, save_import, select_all, select_matching,
    set_busy_timeout, set_pragma, BEGIN, COMMIT, CREATE_TABLES, DELETE_SOURCE,
    FIND_IMPORT, INSERT_EVENT, INSERT_IMPORTED, ROLLBACK, SAVE_IMPORT, SELECT_ALL, SELECT_MATCHING,
};
use crate::store::error::StoreError;
use crate::store::history::{
    eligible_command, escape_like, parse_zsh_history, EntryView, HistoryEntry, MAX_HISTORY_ENTRIES,
};
use crate::store::ranking::{Event, Ranked};
use crate::text::{push_str, text_of, utf8_text};

pub mod database;
pub mod error;
pub mod history;
pub mod ranking;

verus! {

/// The version of the tables.
pub const SCHEMA_VERSION: i64 = 1;

/// How long a change waits for others, in seconds.
pub const BUSY_SECONDS: u64 = 2;

/// The size of a history file that is read.
pub const MAX_HISTORY_BYTES: u64 = 33_554_432;

/// A command that was used before.
#[derive(Debug, Clone, PartialEq, Eq)]
pub struct HistoryCandidate {
    pub command: String,
    /// It was used in this directory.
    pub same_cwd: bool,
    pub uses: usize,
}

/// What a command that was used before says.
pub struct HistoryView {
    pub command: Seq<char>,
    pub same_cwd: bool,
    pub uses: nat,
}

impl DeepView for HistoryCandidate {
    type V = HistoryView;

    open spec fn deep_view(&self) -> HistoryView {
        HistoryView { command: self.command@, same_cwd: self.same_cwd, uses: self.uses as nat }
    }
}

/// What became of a history file.
#[derive(Debug, Clone, Copy, PartialEq, Eq, Structural)]
pub struct ImportResult {
    pub imported: usize,
    /// It was read before and has not changed.
    pub skipped: bool,
}

/// What is to be done with a history file.
#[derive(Debug, Clone, Copy, PartialEq, Eq, Structural)]
pub enum ImportPlan {
    /// Nothing: it was read before and has not changed.
    Skip,
    /// It is to be read.
    Read,
}

/// What the file system says of a history file.
#[derive(Debug)]
pub struct HistoryFile {
    /// Its canonical path.
    pub path: String,
    pub is_file: bool,
    pub size: u64,
    /// When it was changed, in nanoseconds.
    pub modified_ns: u128,
}

/// What is noted of a history file when it is read.
pub open spec fn file_mark(file: HistoryFile) -> (int, int) {
    (number::clamp(file.size as nat), number::clamp(file.modified_ns as nat))
}

/// A history file was read when it was as it is now.
pub open spec fn is_noted(imports: Map<Seq<char>, (int, int)>, file: HistoryFile) -> bool {
    imports.contains_key(file.path@) && imports[file.path@] == file_mark(file)
}

/// The source of the commands in a history file.
pub open spec fn file_source(path: Seq<char>) -> Seq<char> {
    "zsh:"@ + path
}

/// The source of the commands of a shell.
pub open spec fn session_source(session_id: Seq<char>) -> Seq<char> {
    "session:"@ + session_id
}

fn joined_text(a: &str, b: &str) -> (r: String)
    ensures
        r@ == a@ + b@,
{
    let mut out = String::new();
    push_str(&mut out, a);
    push_str(&mut out, b);
    assert(out@ =~= a@ + b@);
    out
}

/// The commands that are kept, and how to reach them.
#[derive(Debug)]
pub struct Store {
    connection: Connection,
}

impl Store {
    /// Nothing else reaches what is kept here.
    pub closed spec fn is_private(self) -> bool {
        database::exclusive(self.connection)
    }

    /// The commands that are kept, in the order in which they came: as this store
    /// left them when it last changed them, and as they are where nothing else
    /// reaches them.
    pub closed spec fn events(self) -> Seq<Event> {
        database::stored_events(self.connection)
    }

    /// The history files that were read, with what was noted of them, as this
    /// store left them.
    pub closed spec fn imports(self) -> Map<Seq<char>, (int, int)> {
        database::stored_imports(self.connection)
    }

    /// The path of the file that it is kept in; none for one in memory.
    pub closed spec fn file(self) -> Option<Seq<char>> {
        database::opened_with(self.connection)
    }

    /// The version of its tables.
    pub closed spec fn schema(self) -> int {
        database::schema_version(self.connection)
    }

    /// The seconds that a change waits for others.
    pub closed spec fn busy_seconds(self) -> nat {
        database::busy_seconds(self.connection)
    }

    /// The pragmas that the connection was set up with, by their names.
    pub closed spec fn pragmas(self) -> Map<Seq<char>, Seq<char>> {
        database::pragmas_set(self.connection)
    }

    /// A change is half done.
    pub closed spec fn half_done(self) -> bool {
        database::in_transaction(self.connection)
    }

    /// The last thing asked for was to undo what is half done.
    pub closed spec fn undo_asked(self) -> bool {
        database::last_batch(self.connection) == ROLLBACK@
    }

    /// The commands that were kept when the last change of this store began,
    /// which may be half done.
    pub closed spec fn events_before(self) -> Seq<Event> {
        database::saved_events(self.connection)
    }

    /// The history files that were noted when the last change of this store
    /// began.
    pub closed spec fn imports_before(self) -> Map<Seq<char>, (int, int)> {
        database::saved_imports(self.connection)
    }

    /// It has changed nothing.
    pub open spec fn same_rows(self, other: Store) -> bool {
        self.events() == other.events() && self.imports() == other.imports()
    }

    /// Its last change has undone itself: what is kept is what was kept when the
    /// change began.
    pub open spec fn is_undone(self) -> bool {
        self.events() == self.events_before() && self.imports() == self.imports_before()
    }

    /// Its last change began with what was kept here, unless others came between.
    pub open spec fn begins_with_rows_of(self, other: Store) -> bool {
        other.is_private() ==> self.events_before() == other.events() && self.imports_before()
            == other.imports()
    }

    /// It is kept in the same place and set up as before.
    pub open spec fn same_setup(self, other: Store) -> bool {
        &&& self.file() == other.file()
        &&& self.busy_seconds() == other.busy_seconds()
        &&& self.pragmas() == other.pragmas()
    }

    /// Queries find what they are made for, and no change is half done.
    pub closed spec fn ready(self) -> bool {
        database::case_sensitive(self.connection) && !database::in_transaction(self.connection)
    }
}

// ---------------------------------------------------------------------------
// Opening
// ---------------------------------------------------------------------------

fn database_error(error: rusqlite::Error) -> (r: StoreError)
    ensures
        r matches StoreError::Database { message } && message@ == database::said(error),
        error::database_failure(r, Seq::empty()),
{
    let message = error_text(error);
    assert(message@ =~= Seq::<char>::empty() + database::said(error));
    StoreError::Database { message }
}

fn failed_while(context: &str, error: rusqlite::Error) -> (r: StoreError)
    ensures
        r matches StoreError::Database { message } && message@ == context@ + database::said(error),
        error::database_failure(r, context@),
{
    StoreError::Database { message: joined_text(context, error_text(error).as_str()) }
}

/// What comes before the words of the database where a file cannot be opened.
pub open spec fn opening(path: Seq<char>) -> Seq<char> {
    "failed to open database "@ + path + ": "@
}

/// The pragmas that every store has on top of those of its connection: changes
/// are written ahead, and `LIKE` tells capital letters from small ones.
pub open spec fn with_pragmas(before: Map<Seq<char>, Seq<char>>) -> Map<Seq<char>, Seq<char>> {
    before.insert("journal_mode"@, "WAL"@).insert("foreign_keys"@, "ON"@).insert(
        "case_sensitive_like"@,
        "ON"@,
    )
}

/// A store in a database that is open, or why there is none.
pub open spec fn is_store_of(r: Result<Store, StoreError>, connection: Connection) -> bool {
    match r {
        Ok(s) => {
            &&& s.file() == database::opened_with(connection)
            &&& s.busy_seconds() == BUSY_SECONDS
            &&& s.pragmas() == with_pragmas(database::pragmas_set(connection))
            &&& database::exclusive(connection) ==> {
                &&& s.schema() == opened_schema(database::schema_version(connection))
                &&& s.is_private()
                &&& s.events() == database::stored_events(connection)
                &&& s.imports() == database::stored_imports(connection)
                &&& database::schema_version(connection) <= SCHEMA_VERSION
            }
            &&& !database::in_transaction(connection) ==> s.ready()
        },
        Err(e) => {
            &&& error::database_failure(e, Seq::empty()) || (e is SchemaTooNew
                && e->version > SCHEMA_VERSION)
            &&& database::exclusive(connection) && e is SchemaTooNew ==> database::schema_version(connection)
                > SCHEMA_VERSION && e->version == database::schema_version(connection)
        },
    }
}

/// The version of the tables once a store is open.
pub open spec fn opened_schema(version: int) -> int {
    if version == 0 {
        SCHEMA_VERSION as int
    } else {
        version
    }
}

/// Whether tables of a version have to be created; those of a later version
/// cannot be used.
pub fn check_schema(version: i64) -> (r: Result<bool, StoreError>)
    ensures
        match r {
            Ok(create) => version <= SCHEMA_VERSION && create == (version == 0),
            Err(e) => version > SCHEMA_VERSION && e == (StoreError::SchemaTooNew {
                version: version as u64,
            }),
        },
{
    if version > SCHEMA_VERSION {
        return Err(StoreError::SchemaTooNew { version: version as u64 });
    }
    Ok(version == 0)
}

impl Store {
    /// A store in a database file: the one at this path. Whether it can be
    /// opened, and what it holds, depends on the file.
    pub fn open(path: &str) -> (r: Result<Self, StoreError>)
        ensures
            match r {
                Ok(s) => {
                    &&& s.ready()
                    &&& s.file() == Some(path@)
                    &&& s.busy_seconds() == BUSY_SECONDS
                    &&& s.pragmas() == with_pragmas(Map::empty())
                },
                Err(e) => {
                    ||| error::database_failure(e, opening(path@))
                    ||| error::database_failure(e, Seq::empty())
                    ||| e is SchemaTooNew && e->version > SCHEMA_VERSION
                },
            },
    {
        Store::from_opened(path, open_file(path))
    }

    /// A store in the database at a path, given what became of opening it.
    pub fn from_opened(path: &str, opened: Result<Connection, rusqlite::Error>) -> (r: Result<
        Self,
        StoreError,
    >)
        ensures
            match opened {
                Ok(connection) => is_store_of(r, connection),
                Err(error) => r matches Err(StoreError::Database { message }) && message@
                    == opening(path@) + database::said(error),
            },
            r is Err ==> {
                ||| error::database_failure(r->Err_0, opening(path@))
                ||| error::database_failure(r->Err_0, Seq::empty())
                ||| r->Err_0 is SchemaTooNew && r->Err_0->version > SCHEMA_VERSION
            },
    {
        match opened {
            Ok(connection) => Store::from_connection(connection),
            Err(error) => {
                let context = joined_text(
                    joined_text("failed to open database ", path).as_str(),
                    ": ",
                );
                assert(context@ == opening(path@));
                Err(failed_while(context.as_str(), error))
            },
        }
    }

    /// A store that is gone with the process.
    pub fn in_memory() -> (r: Result<Self, StoreError>)
        ensures
            r is Ok ==> {
                &&& r->Ok_0.ready()
                &&& r->Ok_0.is_private()
                &&& r->Ok_0.file() is None
                &&& r->Ok_0.schema() == SCHEMA_VERSION
                &&& r->Ok_0.busy_seconds() == BUSY_SECONDS
                &&& r->Ok_0.pragmas() == with_pragmas(Map::empty())
                &&& r->Ok_0.events() == Seq::<Event>::empty()
                &&& r->Ok_0.imports() == Map::<Seq<char>, (int, int)>::empty()
            },
            r is Err ==> error::database_failure(r->Err_0, Seq::empty()),
    {
        match open_memory() {
            Ok(connection) => Store::from_connection(connection),
            Err(error) => Err(database_error(error)),
        }
    }

    /// A store in a database that is open. Its tables are created where there
    /// are none; those of a later version are refused.
    pub fn from_connection(connection: Connection) -> (r: Result<Self, StoreError>)
        ensures
            is_store_of(r, connection),
    {
        let mut connection = connection;
        if let Err(error) = set_busy_timeout(&mut connection, BUSY_SECONDS) {
            return Err(database_error(error));
        }
        if let Err(error) = set_pragma(&mut connection, "journal_mode", "WAL") {
            return Err(database_error(error));
        }
        if let Err(error) = set_pragma(&mut connection, "foreign_keys", "ON") {
            return Err(database_error(error));
        }
        if let Err(error) = set_pragma(&mut connection, "case_sensitive_like", "ON") {
            return Err(database_error(error));
        }
        let version: i64 = match read_user_version(&connection, "user_version") {
            Ok(version) => version,
            Err(error) => {
                return Err(database_error(error));
            },
        };
        match check_schema(version) {
            Ok(create) => {
                if create {
                    if let Err(error) = run_batch(&mut connection, CREATE_TABLES) {
                        return Err(database_error(error));
                    }
                }
            },
            Err(error) => {
                return Err(error);
            },
        }
        Ok(Store { connection })
    }
}

// ---------------------------------------------------------------------------
// Recording
// ---------------------------------------------------------------------------

impl Store {
    /// Keeps a command, if it is one that is kept, and says whether it did.
    pub fn record(
        &mut self,
        command: &str,
        cwd: &str,
        exit_code: i32,
        observed_at_ms: i64,
        session_id: &str,
        ignore_leading_space: bool,
    ) -> (r: Result<bool, StoreError>)
        ensures
            !history::eligible(command@, ignore_leading_space) ==> r == Ok::<bool, StoreError>(false)
                && *final(self) == *old(self),
            history::eligible(command@, ignore_leading_space) ==> match r {
                Ok(kept) => kept,
                Err(e) => error::database_failure(e, Seq::empty()),
            },
            final(self).same_setup(*old(self)),
            final(self).is_private() == old(self).is_private(),
            old(self).ready() ==> {
                &&& final(self).ready()
                &&& old(self).is_private() ==> final(self).schema() == old(self).schema()
                &&& if r == Ok::<bool, StoreError>(true) {
                    &&& final(self).begins_with_rows_of(*old(self))
                    &&& final(self).imports() == final(self).imports_before()
                    &&& final(self).events() == final(self).events_before().push(
                        Event {
                            command: command@,
                            cwd: cwd@,
                            observed_at: observed_at_ms as int,
                            exit_code: Some(exit_code as int),
                            source: session_source(session_id@),
                            source_key: None,
                        },
                    )
                } else {
                    final(self).same_rows(*old(self))
                }
            },
    {
        if !eligible_command(command, ignore_leading_space) {
            return Ok(false);
        }
        let source = joined_text("session:", session_id);
        match insert_event(
            &mut self.connection,
            INSERT_EVENT,
            command,
            cwd,
            observed_at_ms,
            exit_code,
            source.as_str(),
        ) {
            Ok(_) => Ok(true),
            Err(error) => Err(database_error(error)),
        }
    }
}

// ---------------------------------------------------------------------------
// Queries
// ---------------------------------------------------------------------------

/// What comes before the words of the database where the rows for a prefix
/// cannot be read.
pub const READING_CANDIDATES: &'static str = "failed to read history candidates: ";

/// What comes before the words of the database where the rows for a search
/// cannot be read.
pub const READING_INVENTORY: &'static str = "failed to read fuzzy history inventory: ";

/// What is said where a query failed: its statement, or reading its rows.
pub open spec fn failed_query_text(message: Seq<char>, reading: Seq<char>) -> bool {
    database::failure_text(message, Seq::empty()) || database::failure_text(message, reading)
}

/// A query failed: its statement, or reading its rows.
pub open spec fn failed_query(e: StoreError, reading: Seq<char>) -> bool {
    e matches StoreError::Database { message } && failed_query_text(message@, reading)
}

/// What is offered of some commands.
pub open spec fn as_candidates(rows: Seq<Ranked>) -> Seq<HistoryView> {
    rows.map_values(
        |row: Ranked|
            HistoryView {
                command: row.command,
                same_cwd: row.same_cwd,
                uses: if row.uses > usize::MAX {
                    usize::MAX as nat
                } else {
                    row.uses
                },
            },
    )
}

fn count_of(n: i64) -> (r: usize)
    ensures
        r == if n < 0 {
            0int
        } else if n > usize::MAX {
            usize::MAX as int
        } else {
            n as int
        },
{
    if n < 0 {
        0
    } else if n as u64 > usize::MAX as u64 {
        usize::MAX
    } else {
        n as usize
    }
}

/// What the rows of a query say.
pub open spec fn candidate_of(row: (String, i64, i64)) -> HistoryView {
    HistoryView {
        command: row.0@,
        same_cwd: row.1 != 0,
        uses: if row.2 < 0 {
            0
        } else if row.2 > usize::MAX {
            usize::MAX as nat
        } else {
            row.2 as nat
        },
    }
}

/// The commands that the rows of a query name.
pub fn history_from_rows(rows: &Vec<(String, i64, i64)>) -> (r: Vec<HistoryCandidate>)
    ensures
        r.deep_view() == rows@.map_values(|row: (String, i64, i64)| candidate_of(row)),
{
    let ghost all = rows@.map_values(|row: (String, i64, i64)| candidate_of(row));
    let mut out: Vec<HistoryCandidate> = Vec::new();
    let mut i: usize = 0;
    assert(out.deep_view() =~= all.take(0));
    while i < rows.len()
        invariant
            i <= rows@.len(),
            all == rows@.map_values(|row: (String, i64, i64)| candidate_of(row)),
            out.deep_view() == all.take(i as int),
        decreases rows.len() - i,
    {
        let ghost before = out.deep_view();
        let candidate = HistoryCandidate {
            command: rows[i].0.clone(),
            same_cwd: rows[i].1 != 0,
            uses: count_of(rows[i].2),
        };
        out.push(candidate);
        assert(out.deep_view() =~= before.push(all[i as int]));
        assert(all.take(i + 1) =~= before.push(all[i as int]));
        i += 1;
    }
    assert(all.take(all.len() as int) =~= all);
    out
}

/// What a query finds, given what the database handed out: its rows, what it says
/// of reading them, or what it says of the statement.
pub fn query_answer(
    rows: Result<Result<Vec<(String, i64, i64)>, rusqlite::Error>, rusqlite::Error>,
    reading: &str,
) -> (r: Result<Vec<HistoryCandidate>, StoreError>)
    ensures
        match rows {
            Ok(Ok(list)) => r matches Ok(found) && found.deep_view() == list@.map_values(
                |row: (String, i64, i64)| candidate_of(row),
            ),
            Ok(Err(error)) => r matches Err(StoreError::Database { message }) && message@ == reading@
                + database::said(error),
            Err(error) => r matches Err(StoreError::Database { message }) && message@
                == database::said(error),
        },
        r is Err ==> failed_query(r->Err_0, reading@),
{
    match rows {
        Ok(Ok(list)) => Ok(history_from_rows(&list)),
        Ok(Err(error)) => Err(failed_while(reading, error)),
        Err(error) => Err(database_error(error)),
    }
}

proof fn lemma_rows_say(rows: Seq<(String, i64, i64)>, ranked: Seq<Ranked>)
    requires
        database::rows_say(rows, ranked),
    ensures
        rows.map_values(|row: (String, i64, i64)| candidate_of(row)) == as_candidates(ranked),
{
    assert(rows.map_values(|row: (String, i64, i64)| candidate_of(row)) =~= as_candidates(ranked));
}

/// What is offered for a prefix comes from some state of what is kept; from the
/// state that it has, where nothing else reaches it.
pub open spec fn offered_for_prefix(
    list: Seq<HistoryView>,
    store: Store,
    prefix: Seq<char>,
    cwd: Seq<char>,
    limit: nat,
    successful_first: bool,
) -> bool {
    exists|e: Seq<Event>|
        {
            &&& list == as_candidates(
                #[trigger] ranking::prefix_rows(e, prefix, cwd, limit, successful_first),
            )
            &&& store.is_private() ==> e == store.events()
        }
}

/// What is offered for a search comes from some state of what is kept; from the
/// state that it has, where nothing else reaches it.
pub open spec fn offered_for_search(
    list: Seq<HistoryView>,
    store: Store,
    cwd: Seq<char>,
    limit: nat,
    successful_first: bool,
) -> bool {
    exists|e: Seq<Event>|
        {
            &&& list == as_candidates(#[trigger] ranking::inventory_rows(e, cwd, limit, successful_first))
            &&& store.is_private() ==> e == store.events()
        }
}

impl Store {
    /// The best commands that start with a prefix and go on behind it. The
    /// database reads a prefix that holds a NUL only up to it, and finds the
    /// commands that are no more than that.
    pub fn history_candidates(
        &self,
        prefix: &str,
        cwd: &str,
        limit: usize,
        successful_first: bool,
    ) -> (r: Result<Vec<HistoryCandidate>, StoreError>)
        ensures
            match r {
                Ok(list) => {
                    &&& list@.len() <= limit
                    &&& self.ready() ==> offered_for_prefix(
                        list.deep_view(),
                        *self,
                        prefix@,
                        cwd@,
                        limit as nat,
                        successful_first,
                    )
                },
                Err(e) => failed_query(e, READING_CANDIDATES@),
            },
    {
        let mut pattern = escape_like(prefix);
        pattern.push('%');
        let success: i64 = if successful_first {
            1
        } else {
            0
        };
        let answer = select_matching(
            &self.connection,
            SELECT_MATCHING,
            pattern.as_str(),
            cwd,
            prefix,
            limit,
            success,
        );
        let ghost given = answer;
        let found = query_answer(answer, READING_CANDIDATES);
        proof {
            if found is Ok {
                let rows = given->Ok_0->Ok_0;
                assert(found->Ok_0@.len() == found->Ok_0.deep_view().len());
                if self.ready() {
                    let e = choose|e: Seq<Event>|
                        {
                            &&& database::rows_say(
                                rows@,
                                #[trigger] ranking::matching_rows(
                                    e,
                                    pattern@,
                                    prefix@,
                                    cwd@,
                                    limit as nat,
                                    successful_first,
                                ),
                            )
                            &&& database::exclusive(self.connection) ==> e == database::stored_events(
                                self.connection,
                            )
                        };
                    ranking::law_pattern_finds_prefix(
                        e,
                        prefix@,
                        cwd@,
                        limit as nat,
                        successful_first,
                    );
                    lemma_rows_say(
                        rows@,
                        ranking::prefix_rows(e, prefix@, cwd@, limit as nat, successful_first),
                    );
                }
            }
        }
        found
    }

    /// The best commands.
    pub fn history_inventory(&self, cwd: &str, limit: usize, successful_first: bool) -> (r: Result<
        Vec<HistoryCandidate>,
        StoreError,
    >)
        ensures
            match r {
                Ok(list) => offered_for_search(
                    list.deep_view(),
                    *self,
                    cwd@,
                    limit as nat,
                    successful_first,
                ),
                Err(e) => failed_query(e, READING_INVENTORY@),
            },
    {
        let success: i64 = if successful_first {
            1
        } else {
            0
        };
        let answer = select_all(&self.connection, SELECT_ALL, cwd, limit, success);
        let ghost given = answer;
        let found = query_answer(answer, READING_INVENTORY);
        proof {
            if found is Ok {
                let rows = given->Ok_0->Ok_0;
                let e = choose|e: Seq<Event>|
                    {
                        &&& database::rows_say(
                            rows@,
                            #[trigger] ranking::inventory_rows(e, cwd@, limit as nat, successful_first),
                        )
                        &&& database::exclusive(self.connection) ==> e == database::stored_events(self.connection)
                    };
                lemma_rows_say(
                    rows@,
                    ranking::inventory_rows(e, cwd@, limit as nat, successful_first),
                );
            }
        }
        found
    }
}

// ---------------------------------------------------------------------------
// History files
// ---------------------------------------------------------------------------

/// What is kept of the commands in a history file.
pub open spec fn file_events(source: Seq<char>, entries: Seq<EntryView>) -> Seq<Event> {
    Seq::new(
        entries.len(),
        |i: int|
            Event {
                command: entries[i].command,
                cwd: Seq::empty(),
                observed_at: entries[i].observed_at,
                exit_code: None,
                source,
                source_key: Some(number::decimal(i as nat)),
            },
    )
}

pub open spec fn not_from(source: Seq<char>) -> spec_fn(Event) -> bool {
    |e: Event| e.source != source
}

/// What is kept after a history file was read: its commands in place of those
/// that were read from it before.
pub open spec fn with_file(
    events: Seq<Event>,
    source: Seq<char>,
    entries: Seq<EntryView>,
) -> Seq<Event> {
    events.filter(not_from(source)) + file_events(source, entries)
}

/// Reading a history file leaves the commands from everywhere else as they are.
pub proof fn law_file_replaces_its_own(
    events: Seq<Event>,
    source: Seq<char>,
    entries: Seq<EntryView>,
)
    ensures
        ({
            let after = with_file(events, source, entries);
            let kept = events.filter(not_from(source));
            &&& after.len() == kept.len() + entries.len()
            &&& forall|i: int| 0 <= i < kept.len() ==> (#[trigger] after[i]) == kept[i]
                && after[i].source != source && events.contains(after[i])
            &&& forall|i: int|
                kept.len() <= i < after.len() ==> (#[trigger] after[i]).source == source
                    && after[i].command == entries[i - kept.len()].command
        }),
{
    let after = with_file(events, source, entries);
    let keep = not_from(source);
    let kept = events.filter(keep);
    assert forall|i: int| 0 <= i < kept.len() implies (#[trigger] after[i]) == kept[i]
        && after[i].source != source && events.contains(after[i]) by {
        events.lemma_filter_pred(keep, i);
        assert(kept.contains(kept[i]));
        events.lemma_filter_contains_rev(keep, kept[i]);
    }
}

/// Reading a history file again with the same commands changes nothing.
pub proof fn law_reading_again_changes_nothing(
    events: Seq<Event>,
    source: Seq<char>,
    entries: Seq<EntryView>,
)
    ensures
        with_file(with_file(events, source, entries), source, entries) == with_file(
            events,
            source,
            entries,
        ),
{
    let keep = not_from(source);
    let kept = events.filter(keep);
    let own = file_events(source, entries);
    events.lemma_filter_len(keep);
    lemma_filter_concat(kept, own, keep);
    lemma_filter_all(kept, keep, events);
    lemma_filter_none(own, keep);
    assert(kept + Seq::<Event>::empty() =~= kept);
}

proof fn lemma_filter_concat(a: Seq<Event>, b: Seq<Event>, keep: spec_fn(Event) -> bool)
    ensures
        (a + b).filter(keep) == a.filter(keep) + b.filter(keep),
    decreases b.len(),
{
    reveal(Seq::filter);
    if b.len() == 0 {
        assert(a + b =~= a);
        assert(a.filter(keep) + b.filter(keep) =~= a.filter(keep));
    } else {
        lemma_filter_concat(a, b.drop_last(), keep);
        assert((a + b).drop_last() =~= a + b.drop_last());
        assert((a + b).last() == b.last());
        if keep(b.last()) {
            assert((a.filter(keep) + b.drop_last().filter(keep)).push(b.last()) =~= a.filter(keep)
                + b.drop_last().filter(keep).push(b.last()));
        }
    }
}

proof fn lemma_filter_all(kept: Seq<Event>, keep: spec_fn(Event) -> bool, events: Seq<Event>)
    requires
        kept == events.filter(keep),
    ensures
        kept.filter(keep) == kept,
{
    assert forall|i: int| 0 <= i < kept.len() implies keep(#[trigger] kept[i]) by {
        events.lemma_filter_pred(keep, i);
    }
    lemma_filter_holds(kept, keep);
}

proof fn lemma_filter_holds(list: Seq<Event>, keep: spec_fn(Event) -> bool)
    requires
        forall|i: int| 0 <= i < list.len() ==> keep(#[trigger] list[i]),
    ensures
        list.filter(keep) == list,
    decreases list.len(),
{
    reveal(Seq::filter);
    if list.len() > 0 {
        let rest = list.drop_last();
        assert forall|i: int| 0 <= i < rest.len() implies keep(#[trigger] rest[i]) by {
            assert(keep(list[i]));
        }
        lemma_filter_holds(rest, keep);
        assert(keep(list[list.len() - 1]));
        assert(rest.push(list.last()) =~= list);
    }
}

proof fn lemma_filter_none(list: Seq<Event>, keep: spec_fn(Event) -> bool)
    requires
        forall|i: int| 0 <= i < list.len() ==> !keep(#[trigger] list[i]),
    ensures
        list.filter(keep) == Seq::<Event>::empty(),
    decreases list.len(),
{
    reveal(Seq::filter);
    if list.len() > 0 {
        let rest = list.drop_last();
        assert forall|i: int| 0 <= i < rest.len() implies !keep(#[trigger] rest[i]) by {
            assert(!keep(list[i]));
        }
        lemma_filter_none(rest, keep);
        assert(!keep(list[list.len() - 1]));
    }
}

/// Whether a history file is to be read, given what was noted of it when it was
/// read last.
pub fn plan_from_mark(previous: Option<(i64, i64)>, size: i64, modified_ns: i64) -> (r: ImportPlan)
    ensures
        r == if previous == Some((size, modified_ns)) {
            ImportPlan::Skip
        } else {
            ImportPlan::Read
        },
{
    match previous {
        Some(mark) => {
            if mark.0 == size && mark.1 == modified_ns {
                ImportPlan::Skip
            } else {
                ImportPlan::Read
            }
        },
        None => ImportPlan::Read,
    }
}

/// Whether a file can be a history file; if not, why.
pub fn check_history_file(file: &HistoryFile) -> (r: Result<(), StoreError>)
    ensures
        match r {
            Ok(_) => file.is_file && file.size <= MAX_HISTORY_BYTES,
            Err(e) => if !file.is_file {
                e == (StoreError::NotAFile { path: file.path })
            } else {
                file.size > MAX_HISTORY_BYTES && e == (StoreError::FileTooLarge {
                    path: file.path,
                })
            },
        },
{
    if !file.is_file {
        return Err(StoreError::NotAFile { path: file.path.clone() });
    }
    if file.size > MAX_HISTORY_BYTES {
        return Err(StoreError::FileTooLarge { path: file.path.clone() });
    }
    Ok(())
}

/// The error for bytes that are not UTF-8.
pub open spec fn not_utf8(e: StoreError, bytes: Seq<u8>) -> bool {
    e matches StoreError::NotUtf8 { problem } && problem@ == text::utf8_problem(bytes)
}

/// The kept commands of a history file, from its bytes.
pub fn read_history_file(content: Vec<u8>, ignore_leading_space: bool) -> (r: Result<
    Vec<HistoryEntry>,
    StoreError,
>)
    ensures
        match r {
            Ok(entries) => {
                &&& content@.len() <= MAX_HISTORY_BYTES
                &&& valid_utf8(content@)
                &&& entries.deep_view() == history::history_entries(
                    decode_utf8(content@),
                    ignore_leading_space,
                )
                &&& entries@.len() <= MAX_HISTORY_ENTRIES
            },
            Err(e) => if content@.len() > MAX_HISTORY_BYTES {
                e is FileGrew
            } else if !valid_utf8(content@) {
                not_utf8(e, content@)
            } else {
                e is TooManyEntries && history::history_entries(
                    decode_utf8(content@),
                    ignore_leading_space,
                ).len() > MAX_HISTORY_ENTRIES
            },
        },
{
    if content.len() as u64 > MAX_HISTORY_BYTES {
        return Err(StoreError::FileGrew);
    }
    match utf8_text(content) {
        Ok(text) => {
            proof {
                vstd::utf8::encode_utf8_decode_utf8(text@);
            }
            parse_zsh_history(text.as_str(), ignore_leading_space)
        },
        Err(problem) => Err(StoreError::NotUtf8 { problem }),
    }
}

/// Whether a history file is to be read: not when its size and the time of its
/// change are those that were noted when it was read.
pub open spec fn planned(
    store: Store,
    file: HistoryFile,
    r: Result<ImportPlan, StoreError>,
) -> bool {
    if !file.is_file {
        r == Err::<ImportPlan, StoreError>(StoreError::NotAFile { path: file.path })
    } else if file.size > MAX_HISTORY_BYTES {
        r == Err::<ImportPlan, StoreError>(StoreError::FileTooLarge { path: file.path })
    } else {
        match r {
            Ok(plan) => store.is_private() ==> (plan == ImportPlan::Skip <==> is_noted(
                store.imports(),
                file,
            )),
            Err(e) => error::database_failure(e, Seq::empty()),
        }
    }
}

/// A history file was read, or why not.
pub open spec fn imported(
    before: Store,
    after: Store,
    file: HistoryFile,
    content: Seq<u8>,
    ignore_leading_space: bool,
    r: Result<ImportResult, StoreError>,
) -> bool {
    let entries = history::history_entries(decode_utf8(content), ignore_leading_space);
    &&& after.same_setup(before)
    &&& after.is_private() == before.is_private()
    &&& if content.len() > MAX_HISTORY_BYTES {
        r is Err && r->Err_0 is FileGrew && after == before
    } else if !valid_utf8(content) {
        r is Err && not_utf8(r->Err_0, content) && after == before
    } else if entries.len() > MAX_HISTORY_ENTRIES {
        r is Err && r->Err_0 is TooManyEntries && after == before
    } else {
        match r {
            Ok(result) => {
                &&& result == (ImportResult { imported: entries.len() as usize, skipped: false })
                &&& before.ready() ==> {
                    &&& after.ready()
                    &&& before.is_private() ==> after.schema() == before.schema()
                    &&& after.begins_with_rows_of(before)
                    &&& after.events() == with_file(
                        after.events_before(),
                        file_source(file.path@),
                        entries,
                    )
                    &&& after.imports() == after.imports_before().insert(
                        file.path@,
                        file_mark(file),
                    )
                }
            },
            Err(e) => {
                &&& error::database_failure(e, Seq::empty())
                &&& before.ready() ==> {
                    &&& after.half_done() == !after.ready()
                    &&& if after.half_done() {
                        after.undo_asked() && after.begins_with_rows_of(before)
                    } else {
                        &&& after.same_rows(before) || after.is_undone()
                        &&& before.is_private() ==> after.same_rows(before)
                    }
                }
            },
        }
    }
}

impl Store {
    /// Whether a history file is to be read: not when its size and the time of
    /// its change are those that were noted when it was read.
    pub fn plan_import(&self, file: &HistoryFile) -> (r: Result<ImportPlan, StoreError>)
        ensures
            planned(*self, *file, r),
    {
        if let Err(error) = check_history_file(file) {
            return Err(error);
        }
        match find_import(&self.connection, FIND_IMPORT, file.path.as_str()) {
            Ok(previous) => Ok(
                plan_from_mark(
                    previous,
                    clamped(file.size as u128),
                    clamped(file.modified_ns),
                ),
            ),
            Err(error) => Err(database_error(error)),
        }
    }

    /// Keeps the commands of a history file in place of those that were read
    /// from it before: all of them, or none.
    pub fn import_zsh_history(
        &mut self,
        file: &HistoryFile,
        content: Vec<u8>,
        ignore_leading_space: bool,
    ) -> (r: Result<ImportResult, StoreError>)
        ensures
            imported(*old(self), *final(self), *file, content@, ignore_leading_space, r),
    {
        let entries = match read_history_file(content, ignore_leading_space) {
            Ok(entries) => entries,
            Err(error) => {
                return Err(error);
            },
        };
        let source = joined_text("zsh:", file.path.as_str());
        match self.write_import(file, source.as_str(), &entries) {
            Ok(_) => Ok(ImportResult { imported: entries.len(), skipped: false }),
            Err(error) => {
                if !is_settled(&self.connection) {
                    let _ = run_batch(&mut self.connection, ROLLBACK);
                }
                Err(database_error(error))
            },
        }
    }

    fn write_import(
        &mut self,
        file: &HistoryFile,
        source: &str,
        entries: &Vec<HistoryEntry>,
    ) -> (r: Result<(), rusqlite::Error>)
        ensures
            database::case_sensitive(old(self).connection) ==> database::case_sensitive(final(self).connection),
            database::exclusive(final(self).connection) == database::exclusive(old(self).connection),
            final(self).same_setup(*old(self)),
            !database::in_transaction(old(self).connection) ==> {
                let a = old(self).connection;
                let b = final(self).connection;
                match r {
                    Ok(_) => {
                        &&& !database::in_transaction(b)
                        &&& database::exclusive(a) ==> database::schema_version(b)
                            == database::schema_version(a)
                        &&& final(self).begins_with_rows_of(*old(self))
                        &&& final(self).events() == with_file(
                            final(self).events_before(),
                            source@,
                            entries.deep_view(),
                        )
                        &&& final(self).imports() == final(self).imports_before().insert(
                            file.path@,
                            file_mark(*file),
                        )
                    },
                    Err(_) => if database::in_transaction(b) {
                        &&& final(self).begins_with_rows_of(*old(self))
                        &&& database::locked(b) || final(self).same_rows(*old(self))
                    } else {
                        &&& final(self).same_rows(*old(self)) || final(self).is_undone()
                        &&& old(self).is_private() ==> final(self).same_rows(*old(self))
                    },
                }
            },
    {
        let ghost a = self.connection;
        let ghost start = !database::in_transaction(a);
        if let Err(error) = run_batch(&mut self.connection, BEGIN) {
            return Err(error);
        }
        if let Err(error) = delete_source(&mut self.connection, DELETE_SOURCE, source) {
            return Err(error);
        }
        let ghost events = database::saved_events(self.connection);
        let ghost imports = database::saved_imports(self.connection);
        let ghost kept = events.filter(not_from(source@));
        let ghost own = file_events(source@, entries.deep_view());
        proof {
            if start {
                lemma_filter_closure(events, source@);
                assert(kept + own.take(0) =~= kept);
            }
        }
        let mut i: usize = 0;
        while i < entries.len()
            invariant
                i <= entries@.len(),
                own == file_events(source@, entries.deep_view()),
                start == !database::in_transaction(a),
                database::case_sensitive(a) ==> database::case_sensitive(self.connection),
                database::exclusive(self.connection) == database::exclusive(a),
                database::same_setup(a, self.connection),
                kept == events.filter(not_from(source@)),
                start ==> {
                    &&& database::exclusive(a) ==> {
                        &&& database::schema_version(self.connection) == database::schema_version(a)
                        &&& events == database::stored_events(a)
                        &&& imports == database::stored_imports(a)
                    }
                    &&& database::locked(self.connection)
                    &&& database::saved_events(self.connection) == events
                    &&& database::saved_imports(self.connection) == imports
                    &&& database::stored_events(self.connection) == kept + own.take(i as int)
                    &&& database::stored_imports(self.connection) == imports
                },
                a == old(self).connection,
            decreases entries.len() - i,
        {
            let key = text_of(decimal_chars(i as u64).as_slice());
            if let Err(error) = insert_imported(
                &mut self.connection,
                INSERT_IMPORTED,
                entries[i].command.as_str(),
                entries[i].observed_at_ms,
                source,
                key.as_str(),
            ) {
                return Err(error);
            }
            proof {
                assert(entries.deep_view()[i as int] == entries@[i as int].deep_view());
                assert((kept + own.take(i as int)).push(own[i as int]) =~= kept + own.take(i + 1));
            }
            i += 1;
        }
        assert(own.take(own.len() as int) =~= own);
        if let Err(error) = save_import(
            &mut self.connection,
            SAVE_IMPORT,
            file.path.as_str(),
            clamped(file.size as u128),
            clamped(file.modified_ns),
        ) {
            return Err(error);
        }
        run_batch(&mut self.connection, COMMIT)
    }
}

proof fn lemma_filter_closure(events: Seq<Event>, source: Seq<char>)
    ensures
        events.filter(|e: Event| e.source != source) == events.filter(not_from(source)),
    decreases events.len(),
{
    reveal(Seq::filter);
    if events.len() > 0 {
        lemma_filter_closure(events.drop_last(), source);
    }
}

/// A history file that was read is skipped as long as its size and the time of
/// its change stay the same, and read again when one of them has changed.
pub proof fn law_unchanged_file_is_skipped(
    imports: Map<Seq<char>, (int, int)>,
    file: HistoryFile,
    later: HistoryFile,
)
    requires
        later.path@ == file.path@,
    ensures
        is_noted(imports.insert(file.path@, file_mark(file)), later) <==> file_mark(later)
            == file_mark(file),
{
}

/// A history file that is read brings its commands in place of those that came
/// from it before, and leaves all others as they are, whoever else changes what
/// is kept. Where nobody does, it is skipped from then on until its size or the
/// time of its change is another.
pub proof fn law_file_is_read_once_until_it_changes(
    before: Store,
    after: Store,
    file: HistoryFile,
    content: Seq<u8>,
    ignore_leading_space: bool,
    r: Result<ImportResult, StoreError>,
    later: HistoryFile,
    plan: Result<ImportPlan, StoreError>,
)
    requires
        before.ready(),
        imported(before, after, file, content, ignore_leading_space, r),
        r is Ok,
        later.path@ == file.path@,
        planned(after, later, plan),
    ensures
        ({
            let source = file_source(file.path@);
            let entries = history::history_entries(decode_utf8(content), ignore_leading_space);
            let kept = after.events_before().filter(not_from(source));
            &&& r->Ok_0 == (ImportResult { imported: entries.len() as usize, skipped: false })
            &&& after.events() == kept + file_events(source, entries)
            &&& forall|i: int| 0 <= i < kept.len() ==> after.events_before().contains(
                #[trigger] kept[i],
            ) && kept[i].source != source
            &&& forall|i: int|
                0 <= i < after.events_before().len() && (#[trigger] after.events_before()[i]).source
                    != source ==> kept.contains(after.events_before()[i])
            &&& before.is_private() ==> {
                &&& after.events_before() == before.events()
                &&& plan is Ok ==> (plan->Ok_0 == ImportPlan::Skip <==> file_mark(later)
                    == file_mark(file))
            }
        }),
{
    let source = file_source(file.path@);
    let entries = history::history_entries(decode_utf8(content), ignore_leading_space);
    let events = after.events_before();
    let keep = not_from(source);
    let kept = events.filter(keep);
    law_unchanged_file_is_skipped(after.imports_before(), file, later);
    assert forall|i: int| 0 <= i < kept.len() implies events.contains(#[trigger] kept[i])
        && kept[i].source != source by {
        events.lemma_filter_pred(keep, i);
        assert(kept.contains(kept[i]));
        events.lemma_filter_contains_rev(keep, kept[i]);
    }
    assert forall|i: int| 0 <= i < events.len() && (#[trigger] events[i]).source
        != source implies kept.contains(events[i]) by {
        events.lemma_filter_contains(keep, i);
    }
}

/// A list offers the best of some events for a prefix: at most `limit` commands,
/// each once, all of them used and answering to the prefix, with what they say of
/// themselves, the better ones first. A command that is left out ranks behind
/// all that are offered, and only where those are `limit`.
pub open spec fn offers_best(
    list: Seq<HistoryView>,
    events: Seq<Event>,
    prefix: Seq<char>,
    cwd: Seq<char>,
    limit: nat,
    successful_first: bool,
) -> bool {
    let group = ranking::grouping(events, cwd);
    &&& list.len() <= limit
    &&& forall|i: int|
        0 <= i < list.len() ==> {
            let c = (#[trigger] list[i]).command;
            &&& history::answers(prefix, c)
            &&& records::without_nul(prefix) ==> text::starts_with(c, prefix)
            &&& c != prefix
            &&& ranking::uses_of(events, c) > 0
            &&& list[i].same_cwd == ranking::used_in(events, c, cwd)
            &&& ranking::uses_of(events, c) <= usize::MAX ==> list[i].uses == ranking::uses_of(
                events,
                c,
            )
        }
    &&& forall|i: int, j: int|
        0 <= i < j < list.len() ==> (#[trigger] list[i]).command != (#[trigger] list[j]).command
            && ranking::rank_le(group(list[i].command), group(list[j].command), successful_first)
    &&& forall|c: Seq<char>|
        #[trigger] history::answers(prefix, c) && c != prefix && ranking::uses_of(events, c) > 0
            && (forall|i: int| 0 <= i < list.len() ==> (#[trigger] list[i]).command != c)
            ==> list.len() == limit && forall|i: int|
            0 <= i < list.len() ==> ranking::rank_le(
                group((#[trigger] list[i]).command),
                group(c),
                successful_first,
            )
}

/// A query offers the best commands for its prefix, of what is kept when it
/// looks: of what this store keeps, where nothing else reaches it.
pub proof fn law_query_offers_best(
    list: Seq<HistoryView>,
    store: Store,
    prefix: Seq<char>,
    cwd: Seq<char>,
    limit: nat,
    successful_first: bool,
)
    requires
        offered_for_prefix(list, store, prefix, cwd, limit, successful_first),
    ensures
        exists|events: Seq<Event>|
            {
                &&& #[trigger] offers_best(list, events, prefix, cwd, limit, successful_first)
                &&& store.is_private() ==> events == store.events()
            },
{
    let e = choose|e: Seq<Event>|
        {
            &&& list == as_candidates(
                #[trigger] ranking::prefix_rows(e, prefix, cwd, limit, successful_first),
            )
            &&& store.is_private() ==> e == store.events()
        };
    let rows = ranking::prefix_rows(e, prefix, cwd, limit, successful_first);
    let group = ranking::grouping(e, cwd);
    ranking::law_prefix_rows(e, prefix, cwd, limit, successful_first);
    assert forall|i: int| 0 <= i < list.len() implies (#[trigger] list[i]).command
        == rows[i].command && rows[i] == group(list[i].command) by {
        assert(rows[i] == group(rows[i].command));
    }
    assert forall|i: int, j: int| 0 <= i < j < list.len() implies (#[trigger] list[i]).command
        != (#[trigger] list[j]).command && ranking::rank_le(
        group(list[i].command),
        group(list[j].command),
        successful_first,
    ) by {
        assert(ranking::rank_order(successful_first)(rows[i], rows[j]));
    }
    assert forall|c: Seq<char>| #[trigger]
        history::answers(prefix, c) && c != prefix && ranking::uses_of(e, c) > 0 && (forall|i: int|
        0 <= i < list.len() ==> (#[trigger] list[i]).command != c) implies list.len() == limit
        && forall|i: int|
        0 <= i < list.len() ==> ranking::rank_le(
            group((#[trigger] list[i]).command),
            group(c),
            successful_first,
        ) by {
        if rows.contains(group(c)) {
            let k = choose|k: int| 0 <= k < rows.len() && rows[k] == group(c);
            assert(list[k].command == c);
        }
        assert forall|i: int| 0 <= i < list.len() implies ranking::rank_le(
            group((#[trigger] list[i]).command),
            group(c),
            successful_first,
        ) by {
            assert(ranking::rank_order(successful_first)(rows[i], group(c)));
        }
    }
    assert(offers_best(list, e, prefix, cwd, limit, successful_first));
}

/// A command that was just recorded is offered first, for each of its prefixes,
/// with one use more than before.
pub proof fn law_recorded_command_comes_first(
    events: Seq<Event>,
    event: Event,
    store: Store,
    list: Seq<HistoryView>,
    prefix: Seq<char>,
    cwd: Seq<char>,
    limit: nat,
    successful_first: bool,
)
    requires
        store.is_private(),
        store.events() == events.push(event),
        offered_for_prefix(list, store, prefix, cwd, limit, successful_first),
        forall|i: int| 0 <= i < events.len() ==> (#[trigger] events[i]).observed_at
            < event.observed_at,
        text::starts_with(event.command, prefix),
        event.command != prefix,
        limit > 0,
    ensures
        list.len() > 0,
        list[0].command == event.command,
        ranking::uses_of(events, event.command) < usize::MAX ==> list[0].uses == ranking::uses_of(
            events,
            event.command,
        ) + 1,
{
    ranking::law_newest_command_comes_first(events, event, prefix, cwd, limit, successful_first);
}

/// A command that is kept is offered for each of its prefixes, unless there are
/// enough others before it.
pub proof fn law_kept_command_is_offered(
    store: Store,
    list: Seq<HistoryView>,
    prefix: Seq<char>,
    cwd: Seq<char>,
    limit: nat,
    successful_first: bool,
    n: int,
)
    requires
        store.is_private(),
        offered_for_prefix(list, store, prefix, cwd, limit, successful_first),
        0 <= n < store.events().len(),
        text::starts_with(store.events()[n].command, prefix),
        store.events()[n].command != prefix,
    ensures
        list.len() == limit || exists|i: int|
            0 <= i < list.len() && (#[trigger] list[i]).command == store.events()[n].command,
{
    let events = store.events();
    let c = events[n].command;
    let rows = ranking::prefix_rows(events, prefix, cwd, limit, successful_first);
    ranking::law_prefix_rows(events, prefix, cwd, limit, successful_first);
    ranking::law_uses_count_events(events, n);
    history::law_start_answers(prefix, c);
    let row = ranking::grouping(events, cwd)(c);
    if rows.contains(row) {
        let k = choose|k: int| 0 <= k < rows.len() && rows[k] == row;
        assert(list[k].command == c);
    }
}

} // verus!
