use aster::store::history::{eligible_command, escape_like, parse_zsh_history};
use aster::store::error::StoreError;
use aster::store::{
    check_history_file, check_schema, history_from_rows, plan_from_mark, query_answer,
    read_history_file, HistoryFile, ImportPlan, Store, MAX_HISTORY_BYTES, READING_CANDIDATES,
    READING_INVENTORY,
};
use rusqlite::Connection;

fn history_file(size: u64, modified_ns: u128) -> HistoryFile {
    HistoryFile { path: "/home/me/history".to_owned(), is_file: true, size, modified_ns }
}

#[test]
fn ranks_recent_history_before_directory_success_and_usage() {
    let mut store = Store::in_memory().unwrap();
    for observed_at_ms in 10..20 {
        store.record("git switch main", "/repo", 0, observed_at_ms, "one", true).unwrap();
    }
    store.record("git status", "/other", 0, 300, "one", true).unwrap();
    store.record("git stash", "/repo", 1, 200, "one", true).unwrap();

    let candidates = store.history_candidates("git s", "/repo", 10, true).unwrap();
    assert!(!candidates[0].same_cwd);
    assert!(candidates[1].same_cwd);
    assert_eq!(candidates[2].uses, 10);
    assert_eq!(
        candidates.into_iter().map(|candidate| candidate.command).collect::<Vec<_>>(),
        vec!["git status", "git stash", "git switch main"]
    );
}

#[test]
fn fuzzy_inventory_is_not_prefix_limited() {
    let mut store = Store::in_memory().unwrap();
    store.record("cargo test", "/repo", 0, 100, "one", true).unwrap();
    store.record("git status", "/other", 0, 200, "one", true).unwrap();

    let candidates = store.history_inventory("/repo", 10, true).unwrap();
    assert_eq!(candidates[0].command, "git status");
    assert!(candidates.iter().any(|candidate| candidate.command == "cargo test"));
}

#[test]
fn parses_extended_zsh_history() {
    let entries = parse_zsh_history(": 1700000000:4;git status\nplain command\n", true).unwrap();
    assert_eq!(entries[0].command, "git status");
    assert_eq!(entries[0].observed_at_ms, 1_700_000_000_000);
    assert_eq!(entries[1].command, "plain command");
}

#[test]
fn escapes_like_metacharacters() {
    assert_eq!(escape_like("echo 100%_done"), "echo 100\\%\\_done");
}

#[test]
fn ignores_leading_space_when_configured() {
    assert!(!eligible_command(" secret command", true));
    assert!(eligible_command(" secret command", false));
}

#[test]
fn imports_a_history_file_once_until_it_changes() {
    let content = ": 1700000000:0;cargo test\n: 1700000001:0;cargo check\n";
    let file = history_file(content.len() as u64, 5);
    let mut store = Store::in_memory().unwrap();

    assert_eq!(store.plan_import(&file).unwrap(), ImportPlan::Read);
    let first = store.import_zsh_history(&file, content.as_bytes().to_vec(), true).unwrap();
    assert_eq!(first.imported, 2);
    assert!(!first.skipped);

    assert_eq!(store.plan_import(&file).unwrap(), ImportPlan::Skip);
    assert_eq!(
        store
            .history_candidates("cargo ", "/repo", 10, true)
            .unwrap()
            .into_iter()
            .map(|candidate| candidate.command)
            .collect::<Vec<_>>(),
        vec!["cargo check", "cargo test"]
    );

    let changed = history_file(content.len() as u64, 6);
    assert_eq!(store.plan_import(&changed).unwrap(), ImportPlan::Read);
    let again = store
        .import_zsh_history(&changed, b": 1700000002:0;cargo doc\n".to_vec(), true)
        .unwrap();
    assert_eq!(again.imported, 1);
    let after = store.history_candidates("cargo ", "/repo", 10, true).unwrap();
    assert_eq!(after.len(), 1);
    assert_eq!(after[0].command, "cargo doc");
}

#[test]
fn skips_multiline_history_entries_conservatively() {
    let entries = parse_zsh_history(
        ": 1700000000:0;echo first \\\n+continued\n: 1700000001:0;git status\n",
        true,
    )
    .unwrap();
    assert_eq!(entries.len(), 1);
    assert_eq!(entries[0].command, "git status");
}

#[test]
fn rejects_invalid_utf8_history() {
    let mut store = Store::in_memory().unwrap();
    let file = history_file(2, 1);
    assert_eq!(
        store.import_zsh_history(&file, vec![0xff, 0xfe], true),
        Err(StoreError::NotUtf8 {
            problem: String::from_utf8(vec![0xff, 0xfe]).unwrap_err().to_string()
        })
    );
    assert!(store.history_inventory("/repo", 10, true).unwrap().is_empty());
}

#[test]
fn rejects_newer_database_schema() {
    let connection = Connection::open_in_memory().unwrap();
    connection.pragma_update(None, "user_version", 2).unwrap();
    assert!(matches!(
        Store::from_connection(connection),
        Err(StoreError::SchemaTooNew { version: 2 })
    ));
}

#[test]
fn reads_no_history_that_is_too_large_or_no_file() {
    let mut file = history_file(MAX_HISTORY_BYTES, 1);
    assert_eq!(check_history_file(&file), Ok(()));
    file.size += 1;
    assert_eq!(
        check_history_file(&file),
        Err(StoreError::FileTooLarge { path: "/home/me/history".to_owned() })
    );
    file.is_file = false;
    let store = Store::in_memory().unwrap();
    assert_eq!(
        store.plan_import(&file),
        Err(StoreError::NotAFile { path: "/home/me/history".to_owned() })
    );
    let grown = vec![b'\n'; MAX_HISTORY_BYTES as usize + 1];
    assert_eq!(read_history_file(grown, true), Err(StoreError::FileGrew));
}

#[test]
fn too_many_commands_are_refused() {
    let content = "x\n".repeat(250_001);
    assert_eq!(parse_zsh_history(&content, true), Err(StoreError::TooManyEntries));
    assert_eq!(parse_zsh_history(&content[2..], true).unwrap().len(), 250_000);
}

#[test]
fn errors_say_what_went_wrong() {
    assert_eq!(
        StoreError::SchemaTooNew { version: 7 }.message(),
        "database schema 7 is newer than supported schema 1"
    );
    assert_eq!(
        StoreError::NotUtf8 { problem: "no text".to_owned() }.message(),
        "history file is not valid UTF-8: no text"
    );
    assert_eq!(
        StoreError::NotAFile { path: "/x".to_owned() }.message(),
        "history path is not a regular file: /x"
    );
    assert_eq!(
        StoreError::FileTooLarge { path: "/x".to_owned() }.message(),
        "history file exceeds 32 MiB: /x"
    );
    assert_eq!(StoreError::TooManyEntries.message(), "history file exceeds 250000 entries");
    assert_eq!(
        StoreError::FileGrew.message(),
        "history file grew beyond the import limit while reading"
    );
    assert_eq!(check_schema(0), Ok(true));
    assert_eq!(check_schema(1), Ok(false));
    assert_eq!(check_schema(2), Err(StoreError::SchemaTooNew { version: 2 }));
}

#[test]
fn a_prefix_is_taken_literally_and_its_case_counts() {
    let mut store = Store::in_memory().unwrap();
    store.record("echo 100%_done", "/repo", 0, 100, "one", true).unwrap();
    store.record("echo 100x_done", "/repo", 0, 200, "one", true).unwrap();
    store.record("Echo 100%", "/repo", 0, 300, "one", true).unwrap();
    let found = store.history_candidates("echo 100%", "/repo", 10, true).unwrap();
    assert_eq!(found.len(), 1);
    assert_eq!(found[0].command, "echo 100%_done");
    assert!(store.history_candidates("echo 100%_done", "/repo", 10, true).unwrap().is_empty());
    assert_eq!(store.history_candidates("E", "/repo", 10, true).unwrap().len(), 1);
}

#[test]
fn a_history_outlives_the_store() {
    let directory = tempfile::tempdir().unwrap();
    let path = directory.path().join("history.sqlite3");
    let path = path.to_str().unwrap();
    let mut first = Store::open(path).unwrap();
    assert_eq!(first.record("cargo test", "/repo", 0, 100, "one", true), Ok(true));
    assert_eq!(first.record(" cargo test", "/repo", 0, 100, "one", true), Ok(false));
    let second = Store::open(path).unwrap();
    let found = second.history_inventory("/repo", 10, true).unwrap();
    assert_eq!(found.len(), 1);
    assert_eq!(found[0].command, "cargo test");
    assert_eq!(found[0].uses, 1);
    assert!(found[0].same_cwd);
    let path = directory.path().to_str().unwrap();
    let cause = Connection::open(path).unwrap_err();
    let expected =
        anyhow::Error::new(cause).context(format!("failed to open database {path}"));
    match Store::open(path) {
        Err(StoreError::Database { message }) => {
            assert_eq!(message, format!("{expected:#}"));
            assert!(message.contains("unable to open database file"), "{message}");
        },
        other => panic!("{other:?}"),
    }
}

#[test]
fn a_prefix_is_read_up_to_a_nul() {
    let mut store = Store::in_memory().unwrap();
    for (n, command) in ["ls", "ls -l", "LS", "l", "100%", "100% more"].iter().enumerate() {
        store.record(command, "/repo", 0, n as i64, "one", true).unwrap();
    }
    let found = |prefix: &str| -> Vec<String> {
        let list = store.history_candidates(prefix, "/repo", 10, true).unwrap();
        list.into_iter().map(|candidate| candidate.command).collect()
    };
    assert_eq!(found("ls"), ["ls -l"]);
    assert_eq!(found("ls\0"), ["ls"]);
    assert_eq!(found("ls\0 -l"), ["ls"]);
    assert_eq!(found("ls \0"), Vec::<String>::new());
    assert_eq!(found("100%\0"), ["100%"]);
    assert_eq!(found("\0ls"), Vec::<String>::new());
    assert_eq!(found("l\u{fffd}"), Vec::<String>::new());
}

#[test]
fn others_keep_what_they_recorded() {
    let directory = tempfile::tempdir().unwrap();
    let path = directory.path().join("history.sqlite3");
    let mut first = Store::open(path.to_str().unwrap()).unwrap();
    let mut second = Store::open(path.to_str().unwrap()).unwrap();
    first.record("git status", "/repo", 0, 10, "one", true).unwrap();
    let file = history_file(1, 1);
    first.import_zsh_history(&file, b"cargo test\ncargo doc\n".to_vec(), true).unwrap();
    assert_eq!(second.record("git log", "/repo", 0, 20, "two", true), Ok(true));
    assert_eq!(second.plan_import(&file), Ok(ImportPlan::Skip));
    let changed = history_file(2, 2);
    assert_eq!(second.plan_import(&changed), Ok(ImportPlan::Read));
    second.import_zsh_history(&changed, b"cargo build\n".to_vec(), true).unwrap();
    let mut commands: Vec<String> = first
        .history_inventory("/repo", 10, true)
        .unwrap()
        .into_iter()
        .map(|candidate| candidate.command)
        .collect();
    commands.sort();
    assert_eq!(commands, ["cargo build", "git log", "git status"]);
    assert_eq!(first.plan_import(&changed), Ok(ImportPlan::Skip));
    assert_eq!(first.plan_import(&file), Ok(ImportPlan::Read));
}

#[test]
fn each_failure_has_its_words() {
    let database = |message: &str| StoreError::Database { message: message.to_owned() };
    let none = || rusqlite::Error::QueryReturnedNoRows;
    let rows = vec![("ls".to_owned(), 1, 3)];
    let found = query_answer(Ok(Ok(rows)), READING_CANDIDATES).unwrap();
    assert_eq!(found[0].command, "ls");
    assert!(found[0].same_cwd);
    assert_eq!(found[0].uses, 3);
    assert_eq!(
        query_answer(Ok(Err(none())), READING_CANDIDATES),
        Err(database("failed to read history candidates: Query returned no rows"))
    );
    assert_eq!(
        query_answer(Ok(Err(none())), READING_INVENTORY),
        Err(database("failed to read fuzzy history inventory: Query returned no rows"))
    );
    assert_eq!(
        query_answer(Err(none()), READING_INVENTORY),
        Err(database("Query returned no rows"))
    );
    match Store::from_opened("/x/y", Err(none())) {
        Err(error) => assert_eq!(
            error.message(),
            "failed to open database /x/y: Query returned no rows"
        ),
        other => panic!("{other:?}"),
    }
    let opened = Store::from_opened("/x/y", Connection::open_in_memory()).unwrap();
    assert!(opened.history_inventory("/repo", 10, true).unwrap().is_empty());
}

#[test]
fn an_opened_store_is_set_up() {
    let directory = tempfile::tempdir().unwrap();
    let path = directory.path().join("history.sqlite3");
    let store = Store::open(path.to_str().unwrap()).unwrap();
    let other = Connection::open(&path).unwrap();
    let number = |name: &str| -> i64 {
        other.pragma_query_value(None, name, |row| row.get(0)).unwrap()
    };
    assert_eq!(number("user_version"), 1);
    let journal: String =
        other.pragma_query_value(None, "journal_mode", |row| row.get(0)).unwrap();
    assert_eq!(journal, "wal");
    assert!(store.history_inventory("/repo", 10, true).unwrap().is_empty());
}

#[test]
fn a_failed_import_changes_nothing() {
    let directory = tempfile::tempdir().unwrap();
    let path = directory.path().join("history.sqlite3");
    let mut store = Store::open(path.to_str().unwrap()).unwrap();
    store.record("git status", "/repo", 0, 5, "one", true).unwrap();
    let file = history_file(9, 9);
    store.import_zsh_history(&file, b"cargo test\n".to_vec(), true).unwrap();
    let before = store.history_inventory("/repo", 10, true).unwrap();
    let other = Connection::open(&path).unwrap();
    other
        .execute_batch(
            "CREATE TRIGGER refuse BEFORE INSERT ON command_events
             WHEN NEW.command = 'cargo doc'
             BEGIN SELECT RAISE(ABORT, 'refused'); END",
        )
        .unwrap();
    let content = b"cargo build\ncargo doc\n".to_vec();
    match store.import_zsh_history(&history_file(10, 10), content, true) {
        Err(StoreError::Database { message }) => {
            assert!(message.starts_with("refused"), "{message}");
        },
        other => panic!("{other:?}"),
    }
    assert_eq!(store.history_inventory("/repo", 10, true).unwrap(), before);
    assert_eq!(store.plan_import(&file), Ok(ImportPlan::Skip));
    assert_eq!(store.record("git log", "/repo", 0, 6, "one", true), Ok(true));
}

#[test]
fn limits_hold() {
    let mut store = Store::in_memory().unwrap();
    for n in 0..5 {
        store.record(&format!("git s{n}"), "/repo", 0, n, "one", true).unwrap();
    }
    let found = store.history_candidates("git ", "/repo", 2, true).unwrap();
    let names: Vec<&str> = found.iter().map(|candidate| candidate.command.as_str()).collect();
    assert_eq!(names, ["git s4", "git s3"]);
    assert!(store.history_candidates("git ", "/repo", 0, true).unwrap().is_empty());
    assert_eq!(store.history_inventory("/repo", 3, true).unwrap().len(), 3);
}

#[test]
fn equal_times_are_ranked_by_directory_and_success() {
    let mut store = Store::in_memory().unwrap();
    store.record("git a", "/other", 0, 5, "one", true).unwrap();
    store.record("git b", "/repo", 1, 5, "one", true).unwrap();
    store.record("git c", "/repo", 0, 5, "one", true).unwrap();
    let names = |successful_first: bool| {
        store
            .history_candidates("git ", "/repo", 10, successful_first)
            .unwrap()
            .into_iter()
            .map(|candidate| candidate.command)
            .collect::<Vec<_>>()
    };
    assert_eq!(names(true), ["git c", "git b", "git a"]);
    assert_eq!(names(false)[2], "git a");
}

#[test]
fn rows_become_candidates() {
    let rows = vec![("ls".to_owned(), 1, 3), ("pwd".to_owned(), 0, -1)];
    let list = history_from_rows(&rows);
    assert_eq!(list[0].command, "ls");
    assert_eq!(list[0].uses, 3);
    assert!(list[0].same_cwd);
    assert!(!list[1].same_cwd);
    assert_eq!(list[1].uses, 0);
}

#[test]
fn an_unchanged_mark_is_skipped() {
    assert_eq!(plan_from_mark(Some((3, 4)), 3, 4), ImportPlan::Skip);
    assert_eq!(plan_from_mark(Some((3, 4)), 3, 5), ImportPlan::Read);
    assert_eq!(plan_from_mark(None, 3, 4), ImportPlan::Read);
}

#[test]
fn a_failed_import_keeps_what_was_there() {
    let connection = Connection::open_in_memory().unwrap();
    let mut store = Store::from_connection(connection).unwrap();
    store.record("cargo test", "/repo", 0, 100, "one", true).unwrap();
    let file = history_file(1, 1);
    assert!(store.import_zsh_history(&file, vec![0xc0], true).is_err());
    assert_eq!(store.plan_import(&file), Ok(ImportPlan::Read));
    assert_eq!(store.history_inventory("/repo", 10, true).unwrap().len(), 1);
}

#[test]
fn long_and_nul_commands_are_not_kept() {
    assert!(eligible_command("ls", true));
    assert!(!eligible_command("", false));
    assert!(!eligible_command("a\nb", false));
    assert!(!eligible_command("a\0b", false));
    assert!(eligible_command(&"x".repeat(65_536), true));
    assert!(!eligible_command(&"x".repeat(65_537), true));
}
