use aster::commands::{CommandCatalog, CommandEntry, OptionMatch, SubcommandMatch, ValueMatch};
use aster::config::{AcceptMode, Settings};
use aster::engine::completion::{candidate_limit, complete_with_history};
use aster::engine::context::{option_context, subcommand_context, value_context};
use aster::engine::display::{history_description, sanitize_display};
use aster::engine::error::EngineError;
use aster::engine::filesystem::{
    current_argument_start, escape_path_suffix, listed_directory, unescape_path_token,
    DirectoryEntry, EntryKind,
};
use aster::engine::fuzzy::{
    fuzzy_pool, fzf_arguments, fzf_indexes, fzf_input, search_pool, FilterStatus,
};
use aster::engine::{
    complete, filesystem_candidates, fuzzy, merge_filesystem_candidates, next_segment,
};
use aster::protocol::{Candidate, CandidateKind, CandidateSource, CompletionResponse};
use aster::store::{HistoryCandidate, Store};

fn listed(name: &str, kind: EntryKind) -> Option<DirectoryEntry> {
    Some(DirectoryEntry { name: Some(name.to_owned()), kind: Some(kind) })
}

fn entry(name: &str, description: &str) -> CommandEntry {
    CommandEntry { name: name.to_owned(), description: description.to_owned() }
}

#[test]
fn accepts_one_path_segment() {
    assert_eq!(next_segment("ev/gitrepos/aster"), "ev/");
}

#[test]
fn accepts_one_shell_word() {
    assert_eq!(next_segment(" checkout feature/topic"), " checkout ");
}

#[test]
fn accepts_remaining_text_without_boundary() {
    assert_eq!(next_segment("status"), "status");
}

#[test]
fn accepts_ssh_destinations_in_semantic_segments() {
    assert_eq!(next_segment("lice@example.com"), "lice@");
    assert_eq!(next_segment("example.com:/srv/app/file"), "example.com:/");
    assert_eq!(next_segment("srv/app/file"), "srv/");
}

#[test]
fn accepts_common_structured_values_in_semantic_segments() {
    assert_eq!(next_segment("output=value"), "output=");
    assert_eq!(next_segment("https://example.com/path"), "https://");
    assert_eq!(next_segment("host::module/path"), "host::");
    assert_eq!(next_segment("one,two"), "one,");
}

#[test]
fn preserves_quoted_escaped_and_ipv6_separators() {
    assert_eq!(next_segment("'user@host'/path"), "'user@host'/");
    assert_eq!(next_segment("user\\@host/path"), "user\\@host/");
    assert_eq!(next_segment("user@[2001:db8::1]:/srv/app"), "user@");
    assert_eq!(next_segment("[2001:db8::1]:/srv/app"), "[2001:db8::1]:/");
}

#[test]
fn escapes_control_characters_in_display_text() {
    assert_eq!(sanitize_display("echo\t\u{1b}"), "echo\\t\\u{1b}");
}

#[test]
fn completes_filesystem_entries_at_argument_positions() {
    let listing = vec![
        listed("alpha-dir", EntryKind::Directory),
        listed("alpha-file", EntryKind::File),
        listed("alpha space", EntryKind::File),
        listed(".hidden", EntryKind::File),
        listed("-rf", EntryKind::File),
        listed("=command", EntryKind::File),
        listed("space dir", EntryKind::Directory),
    ];
    let nested_listing = vec![listed("child", EntryKind::File)];

    let buffer = "scp -r alpha";
    assert_eq!(
        listed_directory(buffer, buffer.len(), "/here", 10, None),
        Some(b"/here/".to_vec())
    );
    let candidates = filesystem_candidates(buffer, buffer.len(), Some(&listing), 10).unwrap();
    assert_eq!(candidates[0].display, "scp -r alpha-dir/");
    assert_eq!(candidates[0].kind, CandidateKind::Directory);
    assert!(candidates.iter().any(|candidate| {
        candidate.display == "scp -r alpha-file" && candidate.kind == CandidateKind::File
    }));
    assert!(candidates.iter().any(|candidate| candidate.display == "scp -r alpha\\ space"));
    assert!(!candidates.iter().any(|candidate| candidate.display.contains(".hidden")));

    let nested = "scp -r space\\ dir/ch";
    let directory = listed_directory(nested, nested.len(), "/here", 10, None).unwrap();
    let directory = String::from_utf8(directory).unwrap();
    assert_eq!(directory.trim_end_matches('/'), "/here/space dir");
    let candidates =
        filesystem_candidates(nested, nested.len(), Some(&nested_listing), 10).unwrap();
    assert_eq!(candidates[0].display, "scp -r space\\ dir/child");

    let exact = "scp -r alpha-file";
    let candidates = filesystem_candidates(exact, exact.len(), Some(&listing), 10).unwrap();
    assert_eq!(candidates.len(), 1);
    assert_eq!(candidates[0].display, exact);
    assert_eq!(candidates[0].accept_text, " ");

    let blank = "scp -r ";
    let candidates = filesystem_candidates(blank, blank.len(), Some(&listing), 20).unwrap();
    assert!(candidates.iter().any(|candidate| candidate.display == "scp -r ./-rf"));
    assert!(candidates.iter().any(|candidate| candidate.display == "scp -r \\=command"));
}

#[test]
fn lists_paths_after_an_empty_argument_and_hides_them_in_command_position() {
    let listing = vec![listed("visible", EntryKind::File)];

    let buffer = "command ";
    let candidates = filesystem_candidates(buffer, buffer.len(), Some(&listing), 10).unwrap();
    assert!(candidates.iter().any(|candidate| candidate.display == "command visible"));
    assert!(filesystem_candidates("com", 3, Some(&listing), 10).unwrap().is_empty());
    assert_eq!(listed_directory("com", 3, "/here", 10, None), None);
}

fn chars(text: &str) -> Vec<char> {
    text.chars().collect()
}

#[test]
fn backslashes_keep_names_together() {
    assert_eq!(current_argument_start(&chars("ls a b")), Some(5));
    assert_eq!(current_argument_start(&chars("ls a\\ b")), Some(3));
    assert_eq!(current_argument_start(&chars("ls a\\\\ b")), Some(7));
    assert_eq!(current_argument_start(&chars("ls ")), Some(3));
    assert_eq!(current_argument_start(&chars("ls\\ a")), None);
    assert_eq!(current_argument_start(&chars("ls")), None);

    assert_eq!(unescape_path_token(&chars("a\\ b")), Some(chars("a b")));
    assert_eq!(unescape_path_token(&chars("")), Some(chars("")));
    assert_eq!(unescape_path_token(&chars("a$b")), None);
    assert_eq!(unescape_path_token(&chars("a\\")), None);
    assert_eq!(unescape_path_token(&chars("a\u{7}")), None);

    assert_eq!(escape_path_suffix(&chars("a b")), chars("a\\ b"));
    assert_eq!(escape_path_suffix(&chars("\u{e9}.txt")), chars("\u{e9}.txt"));
    for name in ["space dir", "it's", "a&b", "$x", "plain", "back\\slash"] {
        let typed = escape_path_suffix(&chars(name));
        assert_eq!(unescape_path_token(&typed), Some(chars(name)));
        let mut line = chars("ls ");
        line.extend(typed);
        assert_eq!(current_argument_start(&line), Some(3));
    }
}

#[test]
fn a_home_directory_stands_behind_a_tilde() {
    let buffer = "ls ~/d";
    let home = b"/home/me".to_vec();
    let directory = listed_directory(buffer, buffer.len(), "/here", 10, Some(&home)).unwrap();
    assert_eq!(String::from_utf8(directory).unwrap().trim_end_matches('/'), "/home/me");
    assert_eq!(listed_directory(buffer, 3, "/here", 10, Some(&home)), None);
    assert_eq!(listed_directory(buffer, buffer.len(), "/here", 0, Some(&home)), None);
}

#[test]
fn unreadable_entries_are_passed_over() {
    let listing = vec![
        None,
        Some(DirectoryEntry { name: None, kind: Some(EntryKind::File) }),
        Some(DirectoryEntry { name: Some("no-kind".to_owned()), kind: None }),
        listed("kept", EntryKind::SymlinkToDirectory),
        listed("control\u{7}", EntryKind::File),
    ];
    let found = filesystem_candidates("ls ", 3, Some(&listing), 10).unwrap();
    assert!(found.iter().any(|candidate| candidate.display == "ls kept/"));
    assert!(!found.iter().any(|candidate| candidate.display.contains('\u{7}')));
    assert!(filesystem_candidates("ls ", 3, None, 10).unwrap().is_empty());
}

fn row(display: String, text: String, source: CandidateSource) -> Candidate {
    Candidate {
        display,
        description: if source == CandidateSource::Filesystem {
            "File".to_owned()
        } else {
            String::new()
        },
        description_pending: false,
        kind: if source == CandidateSource::Filesystem {
            CandidateKind::File
        } else {
            CandidateKind::History
        },
        insert_text: text.clone(),
        accept_text: text,
        source,
    }
}

#[test]
fn history_stays_first_while_filesystem_candidates_reserve_capacity() {
    let mut response = CompletionResponse {
        replace_start_byte: 5,
        replace_end_byte: 5,
        candidates: (0..4)
            .map(|index| {
                row(format!("cmd history-{index}"), index.to_string(), CandidateSource::History)
            })
            .collect(),
        enrichment_pending: false,
    };
    let paths = (0..2)
        .map(|index| {
            row(format!("cmd path-{index}"), index.to_string(), CandidateSource::Filesystem)
        })
        .collect();
    merge_filesystem_candidates(&mut response, paths, 4);
    assert_eq!(response.candidates.len(), 4);
    assert_eq!(response.candidates[0].source, CandidateSource::History);
    assert_eq!(
        response
            .candidates
            .iter()
            .filter(|candidate| candidate.source == CandidateSource::Filesystem)
            .count(),
        2
    );

    let mut response = CompletionResponse::empty(0);
    let paths = (0..2)
        .map(|index| {
            row(format!("cmd path-{index}"), index.to_string(), CandidateSource::Filesystem)
        })
        .collect();
    merge_filesystem_candidates(&mut response, paths, 1);
    assert_eq!(response.candidates[0].description, "File (more matches)");
}

#[test]
fn a_menu_of_one_row_belongs_to_history() {
    let past = row("cmd history-0".to_owned(), "0".to_owned(), CandidateSource::History);
    let path = row("cmd path-0".to_owned(), "0".to_owned(), CandidateSource::Filesystem);
    let mut response = CompletionResponse::empty(4);
    response.candidates = vec![past.clone()];
    merge_filesystem_candidates(&mut response, vec![path.clone()], 1);
    assert_eq!(response.candidates, vec![past.clone()]);

    let mut response = CompletionResponse::empty(4);
    merge_filesystem_candidates(&mut response, vec![path.clone()], 1);
    assert_eq!(response.candidates, vec![path.clone()]);

    let lines: Vec<Candidate> = (0..3)
        .map(|n| row(format!("cmd history-{n}"), n.to_string(), CandidateSource::History))
        .collect();
    let other = row("cmd path-1".to_owned(), "1".to_owned(), CandidateSource::Filesystem);
    let mut response = CompletionResponse::empty(4);
    response.candidates = lines.clone();
    merge_filesystem_candidates(&mut response, vec![path, other], 3);
    assert_eq!(response.candidates.len(), 3);
    assert_eq!(response.candidates[..2], lines[..2]);
    assert_eq!(response.candidates[2].source, CandidateSource::Filesystem);
    assert_eq!(response.candidates[2].description, "File (more matches)");
}

#[test]
fn recognizes_only_safe_root_option_contexts() {
    assert_eq!(option_context("git --ver"), Some(("git", "--ver")));
    assert_eq!(option_context("git status --short"), None);
    assert_eq!(option_context("git --quiet --short"), Some(("git", "--short")));
    assert_eq!(option_context("git -- --literal"), None);
    assert_eq!(option_context("git \"--ver"), None);
    assert_eq!(option_context("--ver"), None);
}

#[test]
fn completes_cached_root_command_options() {
    let store = Store::in_memory().unwrap();
    let mut commands = CommandCatalog::from_options(
        "tool",
        vec![
            OptionMatch {
                spelling: "--verbose".to_owned(),
                description: "Show verbose output".to_owned(),
            },
            OptionMatch {
                spelling: "--version".to_owned(),
                description: "Print version".to_owned(),
            },
        ],
    );
    let completion = complete(
        &store,
        &mut commands,
        "tool --ver",
        "tool --ver".len(),
        "/repo",
        None,
        &Settings::default(),
    )
    .unwrap();
    assert_eq!(completion.candidates.len(), 2);
    assert_eq!(completion.candidates[0].display, "tool --verbose");
    assert_eq!(completion.candidates[0].kind, CandidateKind::Option);
    assert_eq!(completion.candidates[0].source, CandidateSource::Help);
    assert_eq!(completion.candidates[1].display, "tool --version");
}

#[test]
fn completes_cached_subcommands_and_documented_values() {
    let store = Store::in_memory().unwrap();
    let mut commands = CommandCatalog::from_structured(
        "tool",
        Vec::new(),
        vec![
            SubcommandMatch {
                name: "build".to_owned(),
                description: "Build the project".to_owned(),
            },
            SubcommandMatch {
                name: "inspect".to_owned(),
                description: "Inspect project state".to_owned(),
            },
        ],
        vec![(
            "--color".to_owned(),
            vec![
                ValueMatch { value: "auto".to_owned(), description: String::new() },
                ValueMatch {
                    value: "always".to_owned(),
                    description: "Always use color".to_owned(),
                },
            ],
        )],
    );

    let completion = complete(
        &store,
        &mut commands,
        "tool bu",
        "tool bu".len(),
        "/repo",
        None,
        &Settings::default(),
    )
    .unwrap();
    assert_eq!(completion.candidates.len(), 1);
    assert_eq!(completion.candidates[0].display, "tool build");
    assert_eq!(completion.candidates[0].insert_text, "ild");
    assert_eq!(completion.candidates[0].kind, CandidateKind::Subcommand);

    let completion = complete(
        &store,
        &mut commands,
        "tool --color=a",
        "tool --color=a".len(),
        "/repo",
        None,
        &Settings::default(),
    )
    .unwrap();
    assert_eq!(completion.candidates.len(), 2);
    assert_eq!(completion.candidates[0].display, "tool --color=auto");
    assert_eq!(completion.candidates[0].description, "Value for --color");
    assert_eq!(completion.candidates[0].kind, CandidateKind::Value);
    assert_eq!(completion.candidates[1].display, "tool --color=always");
    assert_eq!(completion.candidates[1].description, "Always use color");

    let completion = complete(
        &store,
        &mut commands,
        "tool --color auto",
        "tool --color auto".len(),
        "/repo",
        None,
        &Settings::default(),
    )
    .unwrap();
    assert_eq!(completion.candidates[0].display, "tool --color auto");
    assert_eq!(completion.candidates[0].insert_text, " ");
}

#[test]
fn recognizes_only_unambiguous_structured_contexts() {
    assert_eq!(subcommand_context("tool bu"), Some(("tool", "bu")));
    assert_eq!(subcommand_context("tool "), Some(("tool", "")));
    assert_eq!(subcommand_context("tool other bu"), None);
    assert_eq!(subcommand_context("tool --flag "), None);
    assert_eq!(value_context("tool --color=a"), Some(("tool", "--color", "a")));
    assert_eq!(value_context("tool --color a"), Some(("tool", "--color", "a")));
    assert_eq!(value_context("tool other --color a"), None);
}

#[test]
fn describes_history_usage_and_directory() {
    assert_eq!(history_description(1, true), "used here");
    assert_eq!(history_description(3, true), "used 3x, here");
    assert_eq!(history_description(2, false), "used 2x");
}

#[test]
fn completes_history_with_a_single_segment() {
    let mut store = Store::in_memory().unwrap();
    let mut settings = Settings::default();
    settings.completion.accept = AcceptMode::Segment;
    store.record("cd ~/dev/gitrepos/aster", "/repo", 0, 100, "test", true).unwrap();

    let completion = complete(
        &store,
        &mut CommandCatalog::default(),
        "cd ~/d",
        "cd ~/d".len(),
        "/repo",
        None,
        &settings,
    )
    .unwrap();

    assert_eq!(completion.candidates.len(), 1);
    assert_eq!(completion.candidates[0].insert_text, "ev/gitrepos/aster");
    assert_eq!(completion.candidates[0].accept_text, "ev/");
    assert_eq!(completion.candidates[0].description, "used here");

    let completion = complete(
        &store,
        &mut CommandCatalog::default(),
        "cd ~/d",
        "cd ~/d".len(),
        "/repo",
        None,
        &Settings::default(),
    )
    .unwrap();
    assert_eq!(completion.candidates[0].accept_text, "ev/gitrepos/aster");
}

fn ended(code: i32) -> FilterStatus {
    FilterStatus { code: Some(code), text: format!("exit status: {code}") }
}

#[test]
fn fuzzy_searches_history_without_a_prefix() {
    let mut store = Store::in_memory().unwrap();
    store.record("cargo test --all", "/repo", 0, 100, "test", true).unwrap();
    let mut commands = CommandCatalog::default();
    let pool =
        fuzzy_pool(&store, &commands, "cgt", "/repo", &Settings::default()).unwrap();
    assert_eq!(fzf_input(&pool), b"0\tcargo test --all\0");
    assert_eq!(fzf_arguments("cgt").last().unwrap(), "cgt");
    let indexes = fzf_indexes(&ended(0), b"0\tcargo test --all\0", pool.len(), 10).unwrap();
    let completion = fuzzy(&mut commands, &pool, &indexes);
    assert_eq!(completion.candidates[0].display, "cargo test --all");
}

#[test]
fn a_filter_that_finds_nothing_is_no_failure() {
    assert_eq!(fzf_indexes(&ended(1), b"", 3, 10), Ok(vec![]));
    assert_eq!(
        fzf_indexes(&ended(2), b"", 3, 10),
        Err(EngineError::FilterFailed { status: "exit status: 2".to_owned() })
    );
    assert_eq!(fzf_indexes(&ended(0), b"2\tc\x000\ta\0", 3, 10), Ok(vec![2, 0]));
    assert_eq!(fzf_indexes(&ended(0), b"2\tc\x000\ta\0", 3, 1), Ok(vec![2]));
    let problem = "x".parse::<usize>().unwrap_err().to_string();
    assert_eq!(
        fzf_indexes(&ended(0), b"0\ta\0x\tc\0\xff\tb\0", 3, 10),
        Err(EngineError::FilterOutput { problem })
    );
    let problem = String::from_utf8(vec![b'1', 0xff]).unwrap_err().to_string();
    assert_eq!(
        fzf_indexes(&ended(0), b"0\ta\x001\xff\tb\0x\tc\0", 3, 10),
        Err(EngineError::FilterOutput { problem })
    );
    assert_eq!(fzf_indexes(&ended(0), b"0\ta\0x\tc\0", 3, 1), Ok(vec![0]));
}

#[test]
fn the_pool_has_each_line_once() {
    let history = vec![
        HistoryCandidate { command: "ls".to_owned(), uses: 2, same_cwd: true },
        HistoryCandidate { command: "pwd".to_owned(), uses: 1, same_cwd: false },
    ];
    let catalog =
        CommandCatalog::from_entries(vec![entry("ls", "List files"), entry("who", "Who is here")]);
    let pool = search_pool(&history, &catalog.inventory());
    let shown: Vec<&str> = pool.iter().map(|candidate| candidate.display.as_str()).collect();
    assert_eq!(shown, ["ls", "pwd", "who"]);
    assert_eq!(pool[2].source, CandidateSource::Command);
}

#[test]
fn abstains_from_mid_line_completion() {
    let store = Store::in_memory().unwrap();
    let completion = complete(
        &store,
        &mut CommandCatalog::default(),
        "git status",
        3,
        "/repo",
        None,
        &Settings::default(),
    )
    .unwrap();
    assert!(completion.candidates.is_empty());
}

#[test]
fn discovers_commands_when_history_abstains() {
    let store = Store::in_memory().unwrap();
    let mut commands =
        CommandCatalog::from_entries(vec![entry("atlas", "CLI tool to manage MongoDB Atlas")]);

    let completion =
        complete(&store, &mut commands, "atl", 3, "/repo", None, &Settings::default()).unwrap();

    assert_eq!(completion.candidates[0].display, "atlas");
    assert_eq!(completion.candidates[0].accept_text, "as");
    assert_eq!(completion.candidates[0].kind, CandidateKind::Command);
}

#[test]
fn history_precedes_command_inventory() {
    let mut store = Store::in_memory().unwrap();
    store.record("git status", "/repo", 0, 100, "test", true).unwrap();
    let mut commands =
        CommandCatalog::from_entries(vec![entry("git-town", "Git workflow automation")]);

    let completion =
        complete(&store, &mut commands, "git", 3, "/repo", None, &Settings::default()).unwrap();

    assert_eq!(completion.candidates[0].source, CandidateSource::History);
    assert_eq!(completion.candidates[1].source, CandidateSource::Command);
}

#[test]
fn history_deduplicates_command_inventory() {
    let mut store = Store::in_memory().unwrap();
    store.record("atlas", "/repo", 0, 100, "test", true).unwrap();
    let mut commands = CommandCatalog::from_entries(vec![
        entry("atlas", "CLI tool to manage MongoDB Atlas"),
        entry("atlantis", "Terraform pull request automation"),
    ]);

    let completion =
        complete(&store, &mut commands, "atl", 3, "/repo", None, &Settings::default()).unwrap();

    assert_eq!(completion.candidates.len(), 2);
    assert_eq!(completion.candidates[0].display, "atlas");
    assert_eq!(completion.candidates[0].source, CandidateSource::History);
    assert_eq!(completion.candidates[1].display, "atlantis");
}

#[test]
fn refuses_long_buffers_and_cursors_inside_a_character() {
    let store = Store::in_memory().unwrap();
    let mut commands = CommandCatalog::default();
    let settings = Settings::default();
    let long = "x".repeat(65_537);
    assert_eq!(
        complete(&store, &mut commands, &long, 0, "/", None, &settings),
        Err(EngineError::BufferTooLong)
    );
    assert_eq!(
        complete(&store, &mut commands, "\u{e9}", 1, "/", None, &settings),
        Err(EngineError::InvalidCursor)
    );
    assert_eq!(
        complete(&store, &mut commands, "a", 2, "/", None, &settings),
        Err(EngineError::InvalidCursor)
    );
    assert_eq!(
        fuzzy_pool(&store, &commands, &long, "/", &settings),
        Err(EngineError::QueryTooLong)
    );
    assert_eq!(EngineError::InvalidCursor.message(), "cursor is not a valid UTF-8 byte offset");
    assert_eq!(EngineError::BufferTooLong.message(), "completion buffer exceeds 65536 bytes");
    assert_eq!(
        EngineError::FilterOutput { problem: "invalid digit".to_owned() }.message(),
        "invalid digit"
    );
}

#[test]
fn a_buffer_with_a_nul_recalls_nothing() {
    let mut store = Store::in_memory().unwrap();
    store.record("ls", "/repo", 0, 1, "one", true).unwrap();
    store.record("ls -l", "/repo", 0, 2, "one", true).unwrap();
    let mut commands = CommandCatalog::default();
    let settings = Settings::default();
    let buffer = "ls\0";
    let completion =
        complete(&store, &mut commands, buffer, buffer.len(), "/repo", None, &settings).unwrap();
    assert!(completion.candidates.is_empty());
    assert_eq!(completion.clone(), completion);
    assert_eq!(settings.clone(), settings);
}

#[test]
fn the_settings_bound_the_menu() {
    let mut settings = Settings::default();
    settings.completion.max_candidates = 5;
    assert_eq!(candidate_limit(None, &settings), 5);
    assert_eq!(candidate_limit(Some(3), &settings), 3);
    assert_eq!(candidate_limit(Some(9), &settings), 5);
}

#[test]
fn completes_from_a_given_history() {
    let history =
        vec![HistoryCandidate { command: "git status".to_owned(), uses: 2, same_cwd: false }];
    let response = complete_with_history(
        &mut CommandCatalog::default(),
        &history,
        "git s",
        5,
        10,
        AcceptMode::Segment,
    );
    assert_eq!(response.replace_start_byte, 5);
    assert_eq!(response.candidates[0].insert_text, "tatus");
    assert_eq!(response.candidates[0].description, "used 2x");
}
