//! The daemon: which requests it takes, what it answers, and what it asks of
//! the system on the way.
use vstd::prelude::*;
use vstd::utf8::*;
use crate::engine::completion;
use crate::engine::filesystem;
use crate::engine::fuzzy;
use crate::engine::merge;
use crate::number;
use crate::protocol;
use crate::store;
use crate::store::database;
use crate::store::history;
use crate::commands::catalog::{CatalogView, CommandCatalog};
use crate::config::Settings;
use crate::engine::completion::{candidate_limit, complete, MAX_BUFFER_BYTES};
use crate::engine::error::EngineError;
use crate::engine::filesystem::{filesystem_candidates, listed_directory, DirectoryEntry, EntryView};
use crate::engine::fuzzy::{fuzzy_pool, fzf_indexes, FilterStatus};
use crate::engine::merge::merge_filesystem_candidates;
use crate::number::decimal_chars;
use crate::protocol::{
    Candidate, CandidateView, CompletionResponse, CompletionView, Request, Response, ResponseView,
    PROTOCOL_VERSION,
};
use crate::store::error::StoreError;
use crate::store::ranking::Event;
use crate::store::{HistoryView, ImportPlan, ImportResult, Store};
use crate::text::{push_all, push_str};
use crate::VERSION;

verus! {

/// The size of a request, in bytes.
pub const MAX_REQUEST_BYTES: u64 = 1_048_576;

/// The size of an answer, in bytes.
pub const MAX_RESPONSE_BYTES: usize = 1_048_576;

/// How many clients are served at a time.
pub const MAX_CONNECTIONS: usize = 64;

/// The size of a path in a request, in bytes.
pub const MAX_PATH_BYTES: usize = 16_384;

/// The size of a shell's name in a request, in bytes.
pub const MAX_SESSION_ID_BYTES: usize = 1024;

/// How far the clocks of shell and daemon may be apart, in milliseconds.
pub const MAX_CLOCK_DRIFT_MS: u64 = 300_000;

// ---------------------------------------------------------------------------
// Messages
// ---------------------------------------------------------------------------

fn refusal(message: &str) -> (r: Response)
    ensures
        r@ == (ResponseView::Error { message: message@ }),
{
    Response::Error { message: message.to_string() }
}

/// What a client is told that speaks another version of the protocol.
pub open spec fn version_text(version: nat) -> Seq<char> {
    "unsupported protocol version "@ + number::decimal(version) + "; expected "@ + number::decimal(
        PROTOCOL_VERSION as nat,
    )
}

/// The answer to a request in another version of the protocol.
pub fn check_version(version: u32) -> (r: Option<Response>)
    ensures
        match r {
            None => version == PROTOCOL_VERSION,
            Some(answer) => version != PROTOCOL_VERSION && answer@ == (ResponseView::Error {
                message: version_text(version as nat),
            }),
        },
{
    if version == PROTOCOL_VERSION {
        return None;
    }
    let mut message = String::new();
    push_str(&mut message, "unsupported protocol version ");
    push_all(&mut message, decimal_chars(version as u64).as_slice());
    push_str(&mut message, "; expected ");
    push_all(&mut message, decimal_chars(PROTOCOL_VERSION as u64).as_slice());
    assert(message@ =~= version_text(version as nat));
    Some(Response::Error { message })
}

/// A client understands that the daemon speaks another version of the protocol,
/// and replaces it.
pub proof fn law_client_understands_version(version: nat)
    ensures
        crate::client::event_of(ResponseView::Error { message: version_text(version) })
            == crate::client::Event::Unsupported,
{
    let text = version_text(version);
    let needle = "unsupported protocol version"@;
    reveal_strlit("unsupported protocol version");
    reveal_strlit("unsupported protocol version ");
    assert(text.subrange(0, needle.len() as int) =~= needle);
    assert(crate::text::occurs_at(text, needle, 0));
}

/// The answer to a request that is too long to be read.
pub fn check_request_size(length: u64) -> (r: Option<Response>)
    ensures
        match r {
            None => length <= MAX_REQUEST_BYTES,
            Some(answer) => length > MAX_REQUEST_BYTES && answer@ == (ResponseView::Error {
                message: "request exceeds 1 MiB"@,
            }),
        },
{
    if length > MAX_REQUEST_BYTES {
        Some(refusal("request exceeds 1 MiB"))
    } else {
        None
    }
}

/// The answer to a request that cannot be read.
pub fn invalid_request(error: &str) -> (r: Response)
    ensures
        r@ == (ResponseView::Error { message: "invalid request: "@ + error@ }),
{
    let mut message = String::new();
    push_str(&mut message, "invalid request: ");
    push_str(&mut message, error);
    assert(message@ =~= "invalid request: "@ + error@);
    Response::Error { message }
}

/// What is answered in place of an answer that is too long.
pub fn check_response_size(length: usize) -> (r: Option<Response>)
    ensures
        match r {
            None => length <= MAX_RESPONSE_BYTES,
            Some(answer) => length > MAX_RESPONSE_BYTES && answer@ == (ResponseView::Error {
                message: "response exceeds 1 MiB"@,
            }),
        },
{
    if length > MAX_RESPONSE_BYTES {
        Some(refusal("response exceeds 1 MiB"))
    } else {
        None
    }
}

/// The answer to a client that there is no room for.
pub fn check_connections(connections: usize) -> (r: Option<Response>)
    ensures
        match r {
            None => connections < MAX_CONNECTIONS,
            Some(answer) => connections >= MAX_CONNECTIONS && answer@ == (ResponseView::Error {
                message: "daemon is at its connection limit"@,
            }),
        },
{
    if connections >= MAX_CONNECTIONS {
        Some(refusal("daemon is at its connection limit"))
    } else {
        None
    }
}

/// Whether the daemon ends after an answer.
pub fn ends_daemon(response: &Response) -> (b: bool)
    ensures
        b == (response@ == ResponseView::ShuttingDown),
{
    match response {
        Response::ShuttingDown => true,
        _ => false,
    }
}

// ---------------------------------------------------------------------------
// Requests
// ---------------------------------------------------------------------------

/// A distance in time.
pub open spec fn apart(a: int, b: int) -> int {
    if a > b {
        a - b
    } else {
        b - a
    }
}

/// Why a request is refused before anything is done.
pub open spec fn request_problem(request: Request, now: int) -> Option<Seq<char>> {
    match request {
        Request::Ping => None,
        Request::Shutdown => None,
        Request::Record { command, cwd, exit_code, observed_at_ms, session_id } => if encode_utf8(
            cwd@,
        ).len() > MAX_PATH_BYTES {
            Some("working directory is too long"@)
        } else if encode_utf8(session_id@).len() > MAX_SESSION_ID_BYTES {
            Some("session ID is too long"@)
        } else if apart(observed_at_ms as int, now) > MAX_CLOCK_DRIFT_MS {
            Some("command timestamp is outside the allowed five-minute window"@)
        } else {
            None
        },
        Request::Complete { buffer, cursor_byte, cwd, limit } => if encode_utf8(cwd@).len()
            > MAX_PATH_BYTES {
            Some("working directory is too long"@)
        } else {
            None
        },
        Request::Fuzzy { query, cwd, limit } => if encode_utf8(cwd@).len() > MAX_PATH_BYTES {
            Some("working directory is too long"@)
        } else {
            None
        },
        Request::ImportHistory { path } => if encode_utf8(path@).len() > MAX_PATH_BYTES {
            Some("history path is too long"@)
        } else {
            None
        },
    }
}

fn drift(a: i64, b: i64) -> (r: u64)
    ensures
        r == apart(a as int, b as int),
{
    let difference: i128 = if a > b {
        a as i128 - b as i128
    } else {
        b as i128 - a as i128
    };
    difference as u64
}

/// Why a request is refused before anything is done.
pub fn check_request(request: &Request, now_ms: i64) -> (r: Option<&'static str>)
    ensures
        match r {
            Some(problem) => request_problem(*request, now_ms as int) == Some(problem@),
            None => request_problem(*request, now_ms as int) is None,
        },
{
    match request {
        Request::Ping => None,
        Request::Shutdown => None,
        Request::Record { command: _, cwd, exit_code: _, observed_at_ms, session_id } => {
            if cwd.as_str().as_bytes().len() > MAX_PATH_BYTES {
                Some("working directory is too long")
            } else if session_id.as_str().as_bytes().len() > MAX_SESSION_ID_BYTES {
                Some("session ID is too long")
            } else if drift(*observed_at_ms, now_ms) > MAX_CLOCK_DRIFT_MS {
                Some("command timestamp is outside the allowed five-minute window")
            } else {
                None
            }
        },
        Request::Complete { buffer: _, cursor_byte: _, cwd, limit: _ } => {
            if cwd.as_str().as_bytes().len() > MAX_PATH_BYTES {
                Some("working directory is too long")
            } else {
                None
            }
        },
        Request::Fuzzy { query: _, cwd, limit: _ } => {
            if cwd.as_str().as_bytes().len() > MAX_PATH_BYTES {
                Some("working directory is too long")
            } else {
                None
            }
        },
        Request::ImportHistory { path } => {
            if path.as_str().as_bytes().len() > MAX_PATH_BYTES {
                Some("history path is too long")
            } else {
                None
            }
        },
    }
}

/// What is to be done for a request.
#[derive(Debug)]
pub enum Action {
    /// Answer.
    Reply(Response),
    /// List a directory and merge its entries into a completion.
    ListDirectory {
        completion: CompletionResponse,
        buffer: String,
        cursor_byte: usize,
        limit: usize,
        directory: Vec<u8>,
    },
    /// Let the filter search a pool.
    RunFilter { pool: Vec<Candidate>, query: String, limit: usize },
    /// Read a history file.
    ReadHistory { path: String },
}

/// What a shell has done is recorded.
pub open spec fn recorded(
    before: Store,
    after: Store,
    request: Request,
    answer: ResponseView,
    settings: Settings,
) -> bool {
    request matches Request::Record { command, cwd, exit_code, observed_at_ms, session_id } && {
        let kept = history::eligible(command@, settings.history.ignore_leading_space);
        &&& match answer {
            ResponseView::Recorded => true,
            ResponseView::Error { message } => database::failure_text(message, Seq::empty()),
            _ => false,
        }
        &&& after.same_setup(before)
        &&& !kept ==> answer == ResponseView::Recorded && after == before
        &&& after.is_private() == before.is_private()
        &&& before.ready() ==> {
            &&& after.ready()
            &&& before.is_private() ==> after.schema() == before.schema()
            &&& if kept && answer == ResponseView::Recorded {
                &&& after.begins_with_rows_of(before)
                &&& after.imports() == after.imports_before()
                &&& after.events() == after.events_before().push(
                    Event {
                        command: command@,
                        cwd: cwd@,
                        observed_at: observed_at_ms as int,
                        exit_code: Some(exit_code as int),
                        source: store::session_source(session_id@),
                        source_key: None,
                    },
                )
            } else {
                after.same_rows(before)
            }
        }
    }
}

/// How many paths are looked for: one more than are shown, which tells whether
/// there are more.
pub open spec fn path_limit(limit: nat) -> nat {
    if limit < usize::MAX {
        limit + 1
    } else {
        limit
    }
}

/// A completion is answered, or goes on with a directory.
pub open spec fn completing(
    action: Action,
    store: Store,
    before: CatalogView,
    after: CatalogView,
    request: Request,
    settings: Settings,
    home: Option<Seq<u8>>,
) -> bool {
    request matches Request::Complete { buffer, cursor_byte, cwd, limit } && {
        let most = completion::menu_limit(limit, settings);
        let at_end = cursor_byte == encode_utf8(buffer@).len() && buffer@.len() > 0;
        let paths = filesystem::completable(buffer@, cursor_byte as nat, path_limit(most));
        match action {
            Action::Reply(Response::Completion(completion)) => {
                &&& completion::buffer_problem(buffer@, cursor_byte as int) is None
                &&& !paths
                &&& !at_end ==> completion@ == protocol::empty_completion(cursor_byte as nat) && after
                    == before
                &&& at_end ==> completion::completed(
                    completion@,
                    before,
                    after,
                    store,
                    buffer@,
                    cursor_byte as nat,
                    cwd@,
                    most,
                    settings,
                )
            },
            Action::ListDirectory {
                completion,
                buffer: line,
                cursor_byte: cursor,
                limit: n,
                directory,
            } => {
                &&& completion::buffer_problem(buffer@, cursor_byte as int) is None
                &&& paths
                &&& line@ == buffer@
                &&& cursor == cursor_byte
                &&& n == most
                &&& directory@ == filesystem::resolved(
                    filesystem::directory_part(filesystem::path_token(buffer@)->Some_0),
                    cwd@,
                    home,
                )
                &&& completion::completed(
                    completion@,
                    before,
                    after,
                    store,
                    buffer@,
                    cursor_byte as nat,
                    cwd@,
                    most,
                    settings,
                )
            },
            Action::Reply(Response::Error { message }) => {
                &&& after == before
                &&& match completion::buffer_problem(buffer@, cursor_byte as int) {
                    Some(problem) => message@ == crate::engine::error::engine_error_text(problem),
                    None => at_end && store::failed_query_text(
                        message@,
                        store::READING_CANDIDATES@,
                    ),
                }
            },
            _ => false,
        }
    }
}

/// A search goes on with the filter, or is answered without it.
pub open spec fn searching(
    action: Action,
    store: Store,
    catalog: CatalogView,
    request: Request,
    settings: Settings,
) -> bool {
    request matches Request::Fuzzy { query, cwd, limit } && {
        let most = completion::menu_limit(limit, settings);
        let too_long = encode_utf8(query@).len() > MAX_BUFFER_BYTES;
        match action {
            Action::RunFilter { pool, query: text, limit: n } => {
                &&& !too_long
                &&& text@ == query@
                &&& n == most
                &&& n > 0
                &&& pool.deep_view().len() > 0
                &&& fuzzy::searchable(
                    pool.deep_view(),
                    store,
                    catalog,
                    cwd@,
                    settings.history.successful_first,
                )
            },
            Action::Reply(Response::Completion(completion)) => {
                &&& !too_long
                &&& completion@ == protocol::empty_completion(0)
                &&& most == 0 || fuzzy::searchable(
                    Seq::empty(),
                    store,
                    catalog,
                    cwd@,
                    settings.history.successful_first,
                )
            },
            Action::Reply(Response::Error { message }) => if too_long {
                message@ == crate::engine::error::engine_error_text(EngineError::QueryTooLong)
            } else {
                store::failed_query_text(message@, store::READING_INVENTORY@)
            },
            _ => false,
        }
    }
}

/// What is done for a request.
pub open spec fn dispatched(
    request: Request,
    action: Action,
    store: Store,
    store_after: Store,
    catalog: CatalogView,
    catalog_after: CatalogView,
    settings: Settings,
    now: int,
    home: Option<Seq<u8>>,
) -> bool {
    match request_problem(request, now) {
        Some(problem) => {
            &&& action matches Action::Reply(answer) && answer@ == (ResponseView::Error {
                message: problem,
            })
            &&& store_after == store
            &&& catalog_after == catalog
        },
        None => match request {
            Request::Ping => {
                &&& action matches Action::Reply(answer) && answer@ == (ResponseView::Pong {
                    version: VERSION@,
                })
                &&& store_after == store
                &&& catalog_after == catalog
            },
            Request::Shutdown => {
                &&& action matches Action::Reply(answer) && answer@ == ResponseView::ShuttingDown
                &&& store_after == store
                &&& catalog_after == catalog
            },
            Request::Record { command, cwd, exit_code, observed_at_ms, session_id } => {
                &&& action matches Action::Reply(answer) && recorded(
                    store,
                    store_after,
                    request,
                    answer@,
                    settings,
                )
                &&& catalog_after == catalog
            },
            Request::Complete { buffer, cursor_byte, cwd, limit } => {
                &&& store_after == store
                &&& completing(action, store, catalog, catalog_after, request, settings, home)
            },
            Request::Fuzzy { query, cwd, limit } => {
                &&& store_after == store
                &&& catalog_after == catalog
                &&& searching(action, store, catalog, request, settings)
            },
            Request::ImportHistory { path } => {
                &&& store_after == store
                &&& catalog_after == catalog
                &&& action matches Action::ReadHistory { path: p } && p@ == path@
            },
        },
    }
}

fn failed(error: EngineError) -> (r: Action)
    ensures
        r matches Action::Reply(answer) && answer@ == (ResponseView::Error {
            message: crate::engine::error::engine_error_text(error),
        }) && answer is Error,
{
    Action::Reply(Response::Error { message: error.message() })
}

/// Takes a request: answers it, or says what has to be done before it can be
/// answered.
pub fn dispatch(
    request: &Request,
    store: &mut Store,
    commands: &mut CommandCatalog,
    settings: &Settings,
    now_ms: i64,
    home: Option<&Vec<u8>>,
) -> (r: Action)
    ensures
        dispatched(
            *request,
            r,
            *old(store),
            *final(store),
            old(commands)@,
            final(commands)@,
            *settings,
            now_ms as int,
            match home {
                Some(h) => Some(h@),
                None => None,
            },
        ),
{
    if let Some(problem) = check_request(request, now_ms) {
        return Action::Reply(refusal(problem));
    }
    match request {
        Request::Ping => Action::Reply(Response::Pong { version: VERSION.to_string() }),
        Request::Shutdown => Action::Reply(Response::ShuttingDown),
        Request::Record { command, cwd, exit_code, observed_at_ms, session_id } => {
            match store.record(
                command.as_str(),
                cwd.as_str(),
                *exit_code,
                *observed_at_ms,
                session_id.as_str(),
                settings.history.ignore_leading_space,
            ) {
                Ok(_) => Action::Reply(Response::Recorded),
                Err(error) => Action::Reply(Response::Error { message: error.message() }),
            }
        },
        Request::Complete { .. } => begin_completion(store, commands, request, settings, home),
        Request::Fuzzy { .. } => begin_search(store, commands, request, settings),
        Request::ImportHistory { path } => Action::ReadHistory { path: path.clone() },
    }
}

fn begin_completion(
    store: &Store,
    commands: &mut CommandCatalog,
    request: &Request,
    settings: &Settings,
    home: Option<&Vec<u8>>,
) -> (r: Action)
    requires
        request is Complete,
    ensures
        completing(
            r,
            *store,
            old(commands)@,
            final(commands)@,
            *request,
            *settings,
            match home {
                Some(h) => Some(h@),
                None => None,
            },
        ),
{
    let (buffer, cursor_byte, cwd, requested) = match request {
        Request::Complete { buffer, cursor_byte, cwd, limit } => {
            (buffer, *cursor_byte, cwd.as_str(), *limit)
        },
        _ => {
            return Action::Reply(Response::Recorded);
        },
    };
    let completion = match complete(
        store,
        commands,
        buffer.as_str(),
        cursor_byte,
        cwd,
        requested,
        settings,
    ) {
        Ok(completion) => completion,
        Err(error) => {
            return failed(error);
        },
    };
    let limit: usize = candidate_limit(requested, settings);
    let more: usize = if limit < usize::MAX {
        limit + 1
    } else {
        limit
    };
    match listed_directory(buffer.as_str(), cursor_byte, cwd, more, home) {
        Some(directory) => {
            proof {
                lemma_completable_is_nonempty(buffer@, cursor_byte as nat, more as nat);
            }
            Action::ListDirectory {
                completion,
                buffer: buffer.clone(),
                cursor_byte,
                limit,
                directory,
            }
        },
        None => Action::Reply(Response::Completion(completion)),
    }
}

proof fn lemma_completable_is_nonempty(buffer: Seq<char>, cursor: nat, limit: nat)
    requires
        filesystem::completable(buffer, cursor, limit),
    ensures
        buffer.len() > 0,
{
}

fn begin_search(
    store: &Store,
    commands: &CommandCatalog,
    request: &Request,
    settings: &Settings,
) -> (r: Action)
    requires
        request is Fuzzy,
    ensures
        searching(r, *store, commands@, *request, *settings),
{
    let (query, cwd, requested) = match request {
        Request::Fuzzy { query, cwd, limit } => (query, cwd.as_str(), *limit),
        _ => {
            return Action::Reply(Response::Recorded);
        },
    };
    let pool = match fuzzy_pool(store, commands, query.as_str(), cwd, settings) {
        Ok(pool) => pool,
        Err(error) => {
            return failed(error);
        },
    };
    let limit: usize = candidate_limit(requested, settings);
    assert(pool.deep_view().len() == pool@.len());
    if pool.len() == 0 || limit == 0 {
        proof {
            if pool@.len() == 0 {
                assert(pool.deep_view() =~= Seq::<CandidateView>::empty());
            }
        }
        return Action::Reply(Response::Completion(CompletionResponse::empty(0)));
    }
    Action::RunFilter { pool, query: query.clone(), limit }
}

/// Answers a completion once the directory was listed.
pub fn finish_completion(
    completion: CompletionResponse,
    buffer: &str,
    cursor_byte: usize,
    limit: usize,
    listing: Option<&Vec<Option<DirectoryEntry>>>,
) -> (r: Response)
    ensures
        r@ == (ResponseView::Completion {
            completion: CompletionView {
                candidates: merge::merged(
                    completion@.candidates,
                    filesystem::path_candidates(
                        buffer@,
                        cursor_byte as nat,
                        match listing {
                            Some(l) => Some(l.deep_view()),
                            None => None,
                        },
                        path_limit(limit as nat),
                    ),
                    limit as nat,
                ),
                ..completion@
            },
        }),
{
    let more: usize = if limit < usize::MAX {
        limit + 1
    } else {
        limit
    };
    let mut completion = completion;
    if let Ok(paths) = filesystem_candidates(buffer, cursor_byte, listing, more) {
        merge_filesystem_candidates(&mut completion, paths, limit);
    }
    Response::Completion(completion)
}

/// A menu that a shell is answered holds at most `limit` rows, in which no tier
/// outranks a higher one, and replaces nothing.
pub proof fn law_answered_menu(
    completion: CompletionView,
    before: CatalogView,
    after: CatalogView,
    store: Store,
    buffer: Seq<char>,
    cursor: nat,
    cwd: Seq<char>,
    limit: nat,
    settings: Settings,
    listing: Option<Seq<Option<EntryView>>>,
)
    requires
        completion::completed(completion, before, after, store, buffer, cursor, cwd, limit, settings),
    ensures
        ({
            let paths = filesystem::path_candidates(buffer, cursor, listing, path_limit(limit));
            let rows = merge::merged(completion.candidates, paths, limit);
            &&& rows.len() <= limit
            &&& completion::tiers_in_order(rows)
            &&& paths.len() > 0 && limit > 0 ==> merge::distinct_displays(rows)
            &&& completion.replace_start == cursor
            &&& completion.replace_end == cursor
        }),
{
    let accept = settings.completion.accept;
    let history = choose|history: Seq<HistoryView>|
        {
            &&& completion == #[trigger] completion::completion_of(
                before,
                history,
                buffer,
                cursor,
                limit,
                accept,
            )
            &&& history.len() <= limit
        };
    let paths = filesystem::path_candidates(buffer, cursor, listing, path_limit(limit));
    completion::law_completion(before, history, buffer, cursor, limit, accept);
    filesystem::law_path_candidates(buffer, cursor, listing, path_limit(limit));
    completion::law_menu_tiers(completion.candidates, paths, limit);
    if paths.len() > 0 && limit > 0 {
        merge::law_merged_tiers(completion.candidates, paths, limit);
    }
}

/// Answers a search once the filter has ended.
pub fn finish_search(
    commands: &mut CommandCatalog,
    pool: &Vec<Candidate>,
    limit: usize,
    status: &FilterStatus,
    output: &[u8],
) -> (r: Response)
    ensures
        match fuzzy::filter_answer(
            status.code,
            status.text@,
            output@,
            pool@.len(),
            limit as nat,
        ) {
            Ok(numbers) => exists|indexes: Seq<usize>|
                {
                    let shown = #[trigger] fuzzy::shown_entries(
                        old(commands)@,
                        pool.deep_view(),
                        indexes,
                    );
                    &&& fuzzy::as_numbers(indexes) == numbers
                    &&& final(commands)@ == shown.0
                    &&& r@ == (ResponseView::Completion {
                        completion: CompletionView {
                            replace_start: 0,
                            replace_end: 0,
                            candidates: shown.1,
                            enrichment_pending: false,
                        },
                    })
                },
            Err(message) => final(commands)@ == old(commands)@ && r@ == (ResponseView::Error {
                message,
            }),
        },
{
    match fzf_indexes(status, output, pool.len(), limit) {
        Ok(indexes) => Response::Completion(fuzzy(commands, pool, &indexes)),
        Err(error) => Response::Error { message: error.message() },
    }
}

/// Answers an import that ends before its file is read: one that cannot be
/// read, and one that has not changed since it was.
pub fn check_import(plan: Result<ImportPlan, StoreError>) -> (r: Option<Response>)
    ensures
        match plan {
            Ok(ImportPlan::Read) => r is None,
            Ok(ImportPlan::Skip) => r is Some && r->Some_0@ == (ResponseView::Imported {
                imported: 0,
                skipped: true,
            }),
            Err(error) => r is Some && r->Some_0@ == (ResponseView::Error {
                message: crate::store::error::store_error_text(error),
            }),
        },
{
    match plan {
        Ok(ImportPlan::Read) => None,
        Ok(ImportPlan::Skip) => Some(
            finish_import(Ok(ImportResult { imported: 0, skipped: true })),
        ),
        Err(error) => Some(finish_import(Err(error))),
    }
}

/// Answers an import.
pub fn finish_import(result: Result<ImportResult, StoreError>) -> (r: Response)
    ensures
        r@ == match result {
            Ok(done) => ResponseView::Imported {
                imported: done.imported as nat,
                skipped: done.skipped,
            },
            Err(error) => ResponseView::Error { message: crate::store::error::store_error_text(error) },
        },
{
    match result {
        Ok(done) => Response::Imported { imported: done.imported, skipped: done.skipped },
        Err(error) => Response::Error { message: error.message() },
    }
}

// ---------------------------------------------------------------------------
// The socket
// ---------------------------------------------------------------------------

/// What is to be done about the path of the socket.
#[derive(Debug, Clone, Copy, PartialEq, Eq, Structural)]
pub enum SocketPlan {
    /// Nothing is there.
    Bind,
    /// Something else is there, which is kept.
    Refuse,
    /// A socket is there: see whether somebody listens.
    Probe,
}

/// What is to be done about the path of the socket, given whether something is
/// there and whether that is a socket.
pub fn prepare_socket(is_socket: Option<bool>) -> (r: SocketPlan)
    ensures
        r == match is_socket {
            None => SocketPlan::Bind,
            Some(false) => SocketPlan::Refuse,
            Some(true) => SocketPlan::Probe,
        },
{
    match is_socket {
        None => SocketPlan::Bind,
        Some(socket) => {
            if socket {
                SocketPlan::Probe
            } else {
                SocketPlan::Refuse
            }
        },
    }
}

/// Whether a socket is left over: nobody listens on it.
pub fn is_stale(connected: bool) -> (b: bool)
    ensures
        b == !connected,
{
    !connected
}

/// The socket that the daemon made.
#[derive(Debug, Clone, Copy, PartialEq, Eq, Structural)]
pub struct SocketGuard {
    pub device: u64,
    pub inode: u64,
}

/// What is at the path of the socket.
#[derive(Debug, Clone, Copy)]
pub struct SocketFacts {
    pub is_socket: bool,
    pub device: u64,
    pub inode: u64,
}

impl SocketGuard {
    /// Whether what is at the path is still the socket that the daemon made,
    /// which it removes when it ends.
    pub fn owns(&self, there: Option<SocketFacts>) -> (b: bool)
        ensures
            b == (there matches Some(facts) && facts.is_socket && facts.device == self.device
                && facts.inode == self.inode),
    {
        match there {
            Some(facts) => {
                facts.is_socket && facts.device == self.device && facts.inode == self.inode
            },
            None => false,
        }
    }
}

} // verus!
