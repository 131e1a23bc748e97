use aster::commands::CommandCatalog;
use aster::config::Settings;
use aster::daemon::{
    check_connections, check_import, check_request, check_request_size, check_response_size, check_version,
    dispatch, ends_daemon, finish_completion, finish_import, finish_search, invalid_request,
    is_stale, prepare_socket, Action, SocketFacts, SocketGuard, SocketPlan, MAX_CONNECTIONS,
    MAX_REQUEST_BYTES, MAX_RESPONSE_BYTES,
};
use aster::engine::filesystem::{DirectoryEntry, EntryKind};
use aster::engine::fuzzy::FilterStatus;
use aster::protocol::{Request, RequestEnvelope, Response, PROTOCOL_VERSION};
use aster::store::error::StoreError;
use aster::store::{ImportPlan, ImportResult, Store};
use aster::VERSION;

fn act(request: &Request, store: &mut Store) -> Action {
    dispatch(request, store, &mut CommandCatalog::default(), &Settings::default(), 1_000, None)
}

fn answer(request: &Request, store: &mut Store) -> Response {
    match act(request, store) {
        Action::Reply(response) => response,
        other => panic!("no answer: {other:?}"),
    }
}

fn record(command: &str, observed_at_ms: i64) -> Request {
    Request::Record {
        command: command.to_owned(),
        cwd: "/repo".to_owned(),
        exit_code: 0,
        observed_at_ms,
        session_id: "test".to_owned(),
    }
}

fn error(message: &str) -> Response {
    Response::Error { message: message.to_owned() }
}

#[test]
fn refuses_to_remove_a_non_socket_path() {
    assert_eq!(prepare_socket(Some(false)), SocketPlan::Refuse);
    assert_eq!(prepare_socket(Some(true)), SocketPlan::Probe);
    assert_eq!(prepare_socket(None), SocketPlan::Bind);
    assert!(is_stale(false));
    assert!(!is_stale(true));
}

#[test]
fn only_the_daemons_own_socket_is_removed() {
    let guard = SocketGuard { device: 1, inode: 2 };
    assert!(guard.owns(Some(SocketFacts { is_socket: true, device: 1, inode: 2 })));
    assert!(!guard.owns(Some(SocketFacts { is_socket: true, device: 1, inode: 3 })));
    assert!(!guard.owns(Some(SocketFacts { is_socket: false, device: 1, inode: 2 })));
    assert!(!guard.owns(None));
}

#[test]
fn other_versions_are_refused() {
    assert_eq!(check_version(PROTOCOL_VERSION), None);
    match check_version(PROTOCOL_VERSION + 1) {
        Some(Response::Error { message }) => {
            assert!(message.contains("unsupported protocol version"));
        },
        other => panic!("{other:?}"),
    }
    assert_eq!(RequestEnvelope::new(Request::Ping).version, PROTOCOL_VERSION);
}

#[test]
fn sizes_and_connections_are_bounded() {
    assert_eq!(check_request_size(MAX_REQUEST_BYTES), None);
    assert!(matches!(check_request_size(MAX_REQUEST_BYTES + 1), Some(Response::Error { .. })));
    assert_eq!(check_response_size(MAX_RESPONSE_BYTES), None);
    assert!(matches!(
        check_response_size(MAX_RESPONSE_BYTES + 1),
        Some(Response::Error { .. })
    ));
    assert_eq!(check_connections(MAX_CONNECTIONS - 1), None);
    assert!(matches!(check_connections(MAX_CONNECTIONS), Some(Response::Error { .. })));
    match invalid_request("what") {
        Response::Error { message } => assert!(message.contains("what")),
        other => panic!("{other:?}"),
    }
}

#[test]
fn answers_greetings_and_shutdowns() {
    let mut store = Store::in_memory().unwrap();
    assert_eq!(
        answer(&Request::Ping, &mut store),
        Response::Pong { version: VERSION.to_owned() }
    );
    let last = answer(&Request::Shutdown, &mut store);
    assert_eq!(last, Response::ShuttingDown);
    assert!(ends_daemon(&last));
    assert!(!ends_daemon(&Response::Recorded));
}

#[test]
fn records_only_recent_commands() {
    let mut store = Store::in_memory().unwrap();
    assert_eq!(answer(&record("git status", 1_000), &mut store), Response::Recorded);
    assert_eq!(answer(&record("git stash", 301_000), &mut store), Response::Recorded);
    assert_eq!(
        answer(&record("git switch", 301_001), &mut store),
        error("command timestamp is outside the allowed five-minute window")
    );
    assert_eq!(store.history_inventory("/repo", 10, true).unwrap().len(), 2);
    let mut far = record("ls", 1_000);
    if let Request::Record { cwd, .. } = &mut far {
        *cwd = "x".repeat(16_385);
    }
    assert_eq!(check_request(&far, 1_000), Some("working directory is too long"));
    let mut long = record("ls", 1_000);
    if let Request::Record { session_id, .. } = &mut long {
        *session_id = "x".repeat(1_025);
    }
    assert_eq!(check_request(&long, 1_000), Some("session ID is too long"));
    assert_eq!(check_request(&record("ls", i64::MIN), i64::MAX).is_some(), true);
}

#[test]
fn completions_wait_for_the_directory() {
    let mut store = Store::in_memory().unwrap();
    store.record("ls old", "/repo", 0, 10, "test", true).unwrap();
    let request = Request::Complete {
        buffer: "ls ".to_owned(),
        cursor_byte: 3,
        cwd: "/repo".to_owned(),
        limit: None,
    };
    match act(&request, &mut store) {
        Action::ListDirectory { completion, buffer, cursor_byte, limit, directory } => {
            assert_eq!(directory, b"/repo/");
            let listing = vec![Some(DirectoryEntry {
                name: Some("file".to_owned()),
                kind: Some(EntryKind::File),
            })];
            let response =
                finish_completion(completion, &buffer, cursor_byte, limit, Some(&listing));
            match response {
                Response::Completion(completion) => {
                    assert_eq!(completion.candidates[0].display, "ls old");
                    assert_eq!(completion.candidates[1].display, "ls file");
                },
                other => panic!("{other:?}"),
            }
        },
        other => panic!("{other:?}"),
    }
}

#[test]
fn refused_completions_are_answered_with_the_reason() {
    let mut store = Store::in_memory().unwrap();
    let request = Request::Complete {
        buffer: "ls".to_owned(),
        cursor_byte: 9,
        cwd: "/repo".to_owned(),
        limit: None,
    };
    assert_eq!(
        answer(&request, &mut store),
        error("cursor is not a valid UTF-8 byte offset")
    );
    let far = Request::ImportHistory { path: "x".repeat(16_385) };
    assert_eq!(answer(&far, &mut store), error("history path is too long"));
}

#[test]
fn searches_wait_for_the_filter() {
    let mut store = Store::in_memory().unwrap();
    store.record("cargo test", "/repo", 0, 10, "test", true).unwrap();
    let request =
        Request::Fuzzy { query: "cgt".to_owned(), cwd: "/repo".to_owned(), limit: Some(1) };
    match act(&request, &mut store) {
        Action::RunFilter { pool, query, limit } => {
            assert_eq!(query, "cgt");
            let mut commands = CommandCatalog::default();
            let found = FilterStatus { code: Some(0), text: String::new() };
            match finish_search(&mut commands, &pool, limit, &found, b"0\tcargo test\0") {
                Response::Completion(completion) => {
                    assert_eq!(completion.candidates[0].display, "cargo test");
                },
                other => panic!("{other:?}"),
            }
            let failed = FilterStatus { code: Some(2), text: "exit status: 2".to_owned() };
            assert_eq!(
                finish_search(&mut commands, &pool, limit, &failed, b""),
                error("fzf fuzzy filter failed with exit status: 2")
            );
        },
        other => panic!("{other:?}"),
    }
}

#[test]
fn imports_are_answered_with_what_became_of_the_file() {
    let mut store = Store::in_memory().unwrap();
    let request = Request::ImportHistory { path: "/home/me/history".to_owned() };
    match act(&request, &mut store) {
        Action::ReadHistory { path } => assert_eq!(path, "/home/me/history"),
        other => panic!("{other:?}"),
    }
    assert_eq!(
        finish_import(Ok(ImportResult { imported: 3, skipped: false })),
        Response::Imported { imported: 3, skipped: false }
    );
    assert_eq!(
        finish_import(Err(StoreError::NotUtf8 { problem: "no text".to_owned() })),
        error("history file is not valid UTF-8: no text")
    );
    assert_eq!(check_import(Ok(ImportPlan::Read)), None);
    assert_eq!(
        check_import(Ok(ImportPlan::Skip)),
        Some(Response::Imported { imported: 0, skipped: true })
    );
    assert_eq!(
        check_import(Err(StoreError::NotAFile { path: "/x".to_owned() })),
        Some(error("history path is not a regular file: /x"))
    );
}

#[test]
fn a_database_that_fails_is_answered_in_its_words() {
    let directory = tempfile::tempdir().unwrap();
    let path = directory.path().join("history.sqlite3");
    let mut store = Store::open(path.to_str().unwrap()).unwrap();
    let other = rusqlite::Connection::open(&path).unwrap();
    other
        .execute(
            "INSERT INTO command_events
                (command, cwd, observed_at_ms, exit_code, source, source_key)
             VALUES (x'6c73', '/repo', 1, 0, 'other', NULL)",
            [],
        )
        .unwrap();
    let complete = Request::Complete {
        buffer: "l".to_owned(),
        cursor_byte: 1,
        cwd: "/repo".to_owned(),
        limit: None,
    };
    let search =
        Request::Fuzzy { query: "l".to_owned(), cwd: "/repo".to_owned(), limit: None };
    match answer(&complete, &mut store) {
        Response::Error { message } => {
            assert!(message.starts_with("failed to read history candidates: "), "{message}");
        },
        other => panic!("{other:?}"),
    }
    match answer(&search, &mut store) {
        Response::Error { message } => {
            assert!(message.starts_with("failed to read fuzzy history inventory: "), "{message}");
        },
        other => panic!("{other:?}"),
    }
    other.execute_batch("DROP TABLE command_events").unwrap();
    for request in [record("ls", 1_000), complete, search] {
        match answer(&request, &mut store) {
            Response::Error { message } => {
                assert!(message.starts_with("no such table: command_events"), "{message}");
            },
            other => panic!("{other:?}"),
        }
    }
}
