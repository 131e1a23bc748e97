use aster::commands::cache::{CachedDescription, DescriptionCache, ExecutableFingerprint};
use aster::commands::catalog::{DescriptionJob, JobQueue};
use aster::commands::describe::{parse_help_description, parse_man_description};
use aster::commands::discovery::{FileFacts, FoundFile};
use aster::commands::known::shell_builtins;
use aster::commands::options::parse_options;
use aster::commands::subcommands::parse_subcommands;
use aster::commands::values::parse_option_values;
use aster::commands::{CommandCatalog, CommandEntry, OptionMatch};
use aster::config::{AcceptMode, Settings};
use aster::engine::completion::complete_with_history;
use aster::engine::context::{option_context, subcommand_context};
use aster::engine::display::sanitize_display;
use aster::engine::filesystem::{DirectoryEntry, EntryKind};
use aster::engine::{filesystem_candidates, merge_filesystem_candidates, next_segment};
use aster::number::clamped;
use aster::output::{zsh_stream, ZshFormat};
use aster::preview::ansi::parse_ansi_preview_line;
use aster::protocol::{CandidateSource, CompletionResponse};
use aster::store::{HistoryCandidate, HistoryFile, Store};

fn past(command: &str) -> HistoryCandidate {
    HistoryCandidate { command: command.to_owned(), uses: 1, same_cwd: false }
}

fn option(spelling: &str) -> OptionMatch {
    OptionMatch { spelling: spelling.to_owned(), description: String::new() }
}

fn sources(response: &CompletionResponse) -> Vec<CandidateSource> {
    response.candidates.iter().map(|candidate| candidate.source).collect()
}

#[test]
fn segments_make_up_the_suggestion() {
    for suggestion in ["ev/gitrepos/aster", " checkout feature/topic", "a=b,c::d @e", "'q/r' s"] {
        let mut rest = suggestion.to_owned();
        let mut taken = String::new();
        while !rest.is_empty() {
            let segment = next_segment(&rest);
            assert!(!segment.is_empty());
            assert!(rest.starts_with(&segment));
            rest = rest[segment.len()..].to_owned();
            taken.push_str(&segment);
        }
        assert_eq!(taken, suggestion);
    }
    assert_eq!(next_segment(""), "");
}

#[test]
fn help_gets_half_of_a_menu_that_history_fills() {
    let mut commands =
        CommandCatalog::from_options("tool", vec![option("--aa"), option("--ab"), option("--ac")]);
    let history = vec![
        past("tool --a1"), past("tool --a2"), past("tool --a3"), past("tool --a4"),
    ];
    let response =
        complete_with_history(&mut commands, &history, "tool --a", 8, 4, AcceptMode::Full);
    assert_eq!(
        sources(&response),
        [
            CandidateSource::History,
            CandidateSource::History,
            CandidateSource::Help,
            CandidateSource::Help
        ]
    );
}

#[test]
fn help_leaves_the_only_row_to_history() {
    let mut commands = CommandCatalog::from_options("tool", vec![option("--aa")]);
    let history = vec![past("tool --a1")];
    let response =
        complete_with_history(&mut commands, &history, "tool --a", 8, 1, AcceptMode::Full);
    assert_eq!(sources(&response), [CandidateSource::History]);
    let response = complete_with_history(&mut commands, &vec![], "tool --a", 8, 1, AcceptMode::Full);
    assert_eq!(sources(&response), [CandidateSource::Help]);
}

#[test]
fn tiers_keep_their_order() {
    let mut commands = CommandCatalog::from_options("tool", vec![option("-a")]);
    let history = vec![past("tool -old")];
    let mut response =
        complete_with_history(&mut commands, &history, "tool -", 6, 8, AcceptMode::Full);
    assert_eq!(sources(&response), [CandidateSource::History, CandidateSource::Help]);
    let listing = vec![Some(DirectoryEntry {
        name: Some("file".to_owned()),
        kind: Some(EntryKind::File),
    })];
    let paths = filesystem_candidates("tool ", 5, Some(&listing), 9).unwrap();
    merge_filesystem_candidates(&mut response, paths, 8);
    assert_eq!(
        sources(&response),
        [CandidateSource::History, CandidateSource::Filesystem, CandidateSource::Help]
    );
}

#[test]
fn no_buffer_is_both_an_option_and_a_subcommand() {
    for buffer in ["git --ver", "git st", "git ", "git -", "git -x st", "git"] {
        assert!(option_context(buffer).is_none() || subcommand_context(buffer).is_none());
    }
}

#[test]
fn a_recorded_command_comes_first() {
    let mut store = Store::in_memory().unwrap();
    for n in 0..20 {
        store.record(&format!("git s{n}"), "/repo", 0, n, "one", true).unwrap();
    }
    store.record("git s3", "/other", 1, 100, "one", true).unwrap();
    for prefix in ["g", "git", "git s"] {
        let found = store.history_candidates(prefix, "/repo", 5, true).unwrap();
        assert_eq!(found[0].command, "git s3");
        assert_eq!(found[0].uses, 2);
        assert!(found[0].same_cwd);
        assert_eq!(found.len(), 5);
    }
}

#[test]
fn reading_a_history_file_again_changes_nothing() {
    let mut store = Store::in_memory().unwrap();
    store.record("git status", "/repo", 0, 5, "one", true).unwrap();
    let file = HistoryFile {
        path: "/home/me/history".to_owned(),
        is_file: true,
        size: 9,
        modified_ns: 9,
    };
    let content = b": 1:0;cargo test\n: 2:0;cargo doc\n: 3:0;cargo test\n".to_vec();
    store.import_zsh_history(&file, content.clone(), true).unwrap();
    let once = store.history_inventory("/repo", 10, true).unwrap();
    store.import_zsh_history(&file, content, true).unwrap();
    assert_eq!(store.history_inventory("/repo", 10, true).unwrap(), once);
    assert_eq!(once.len(), 3);
    assert_eq!(once[0].command, "cargo test");
    assert_eq!(once[0].uses, 2);
}

#[test]
fn prose_documents_nothing() {
    let prose = "This tool takes --all and --color=auto.\n  -x  is mentioned\n  build  too\n";
    assert!(parse_options(prose).is_empty());
    assert!(parse_subcommands(prose).is_empty());
    assert!(parse_option_values(prose).is_empty());
}

#[test]
fn what_is_read_is_bounded_and_distinct() {
    let mut text = "Options:\n".to_owned();
    for n in 0..300 {
        text.push_str(&format!("  --option{n}  Option\n  --option{n}  Again\n"));
    }
    let options = parse_options(&text);
    assert_eq!(options.len(), 256);
    for pair in options.windows(2) {
        assert_ne!(pair[0].spelling, pair[1].spelling);
    }
    let mut text = "Commands:\n".to_owned();
    for n in 0..300 {
        text.push_str(&format!("  sub{n}  Subcommand\n"));
    }
    assert_eq!(parse_subcommands(&text).len(), 256);
    let list: Vec<String> = (0..200).map(|n| format!("v{n}")).collect();
    let text = format!("Options:\n  --mode <{}>  Mode\n", list.join("|"));
    assert_eq!(parse_option_values(&text)[0].values.len(), 128);
}

#[test]
fn values_belong_to_listed_options() {
    let text = "Options:\n  -m, --mode <fast|slow>  Mode\n  --when=WHEN  When\n      \
                [possible values: auto, never]\n\nCommands:\n  --late <a|b>  Not an option\n";
    let options = parse_options(text);
    let values = parse_option_values(text);
    let names: Vec<&str> = values.iter().map(|entry| entry.option.as_str()).collect();
    assert_eq!(names, ["-m", "--mode", "--when"]);
    for name in names {
        assert!(options.iter().any(|option| option.spelling == name));
    }
}

#[test]
fn each_command_is_listed_once() {
    let found = |name: &str, directory: &str| FoundFile {
        name: Some(name.to_owned()),
        path: format!("{directory}/{name}").into_bytes(),
        facts: Some(FileFacts { is_file: true, fingerprint: cached(0).fingerprint }),
    };
    let mut plain = found("notes", "/bin");
    plain.facts.as_mut().unwrap().fingerprint.mode = 0o644;
    let files = vec![
        found("cd", "/bin"),
        found("git", "/bin"),
        found("git", "/usr/bin"),
        found("tool", "/bin"),
        plain,
    ];
    let catalog = CommandCatalog::discover(&files, &DescriptionCache::default(), 0);
    let mut expected: Vec<String> =
        shell_builtins().into_iter().map(|entry| entry.name).collect();
    expected.push("git".to_owned());
    expected.push("tool".to_owned());
    expected.sort();
    let names: Vec<String> = catalog.entries.into_iter().map(|entry| entry.name).collect();
    assert_eq!(names, expected);
}

#[test]
fn descriptions_are_clean_and_bounded() {
    let long = format!("NAME\n  tool - {}\n", "word ".repeat(100));
    let description = parse_man_description("tool", &long).unwrap();
    assert_eq!(description.chars().count(), 200);
    assert!(description.ends_with('\u{2026}'));
    let help = parse_help_description("tool", "Look\tat\u{7} things\u{202e} closely\n").unwrap();
    assert_eq!(help, "Look at things closely");
    assert_eq!(sanitize_display("plain text"), "plain text");
}

fn cached(checked_at_secs: u64) -> CachedDescription {
    CachedDescription {
        fingerprint: ExecutableFingerprint {
            path: b"/bin/x".to_vec(),
            size: 0,
            device: 0,
            inode: 0,
            mode: 0o755,
            modified_secs: 0,
            modified_nanos: 0,
            changed_secs: 0,
            changed_nanos: 0,
        },
        checked_at_secs,
        description: None,
        options: Vec::new(),
        subcommands: Vec::new(),
        option_values: Vec::new(),
    }
}

#[test]
fn the_cache_keeps_its_names_in_order() {
    let mut cache = DescriptionCache::default();
    for name in ["b", "c", "a", "b"] {
        cache.insert(name.to_owned(), cached(1));
    }
    cache.insert("b".to_owned(), cached(9));
    let names: Vec<&str> = cache.entries.iter().map(|entry| entry.0.as_str()).collect();
    assert_eq!(names, ["a", "b", "c"]);
    assert_eq!(cache.get("b").unwrap().checked_at_secs, 9);
    assert_eq!(cache.get("a").unwrap().checked_at_secs, 1);
}

#[test]
fn asking_keeps_what_is_known() {
    let mut catalog = CommandCatalog::from_entries(vec![CommandEntry {
        name: "tool".to_owned(),
        description: "System command".to_owned(),
    }]);
    let job = DescriptionJob {
        name: "tool".to_owned(),
        path: b"/bin/tool".to_vec(),
        fingerprint: cached(0).fingerprint,
        authored_description: false,
    };
    catalog.jobs.insert("tool".to_owned(), job);
    catalog.state.set_settled("tool");
    catalog.state.set_description("tool", "Found out");
    catalog.queue = Some(JobQueue::new(4));
    for _ in 0..3 {
        let found = catalog.matching("to", 5);
        assert_eq!(found[0].description, "Found out");
        assert!(!found[0].description_pending);
    }
    assert!(catalog.queue.unwrap().waiting.is_empty());
}

#[test]
fn only_commands_that_are_shown_are_looked_at() {
    let names = ["ta", "tb", "tc"];
    let mut catalog = CommandCatalog::from_entries(
        names
            .iter()
            .map(|name| CommandEntry { name: name.to_string(), description: String::new() })
            .collect(),
    );
    for name in names {
        let job = DescriptionJob {
            name: name.to_owned(),
            path: format!("/bin/{name}").into_bytes(),
            fingerprint: cached(0).fingerprint,
            authored_description: false,
        };
        catalog.jobs.insert(name.to_owned(), job);
    }
    catalog.open_queue(1);
    let history = vec![past("ta"), past("tz 1")];
    let response =
        complete_with_history(&mut catalog, &history, "t", 1, 3, AcceptMode::Full);
    let shown: Vec<&str> =
        response.candidates.iter().map(|candidate| candidate.display.as_str()).collect();
    assert_eq!(shown, ["ta", "tz 1", "tb"]);
    assert!(response.candidates[2].description_pending);
    assert_eq!(catalog.take_job().unwrap().name, "tb");
    assert!(catalog.take_job().is_none());
}

#[test]
fn a_queue_without_workers_settles_what_is_asked() {
    let mut catalog = CommandCatalog::from_entries(vec![CommandEntry {
        name: "tool".to_owned(),
        description: "System command".to_owned(),
    }]);
    let job = DescriptionJob {
        name: "tool".to_owned(),
        path: b"/bin/tool".to_vec(),
        fingerprint: cached(0).fingerprint,
        authored_description: false,
    };
    catalog.jobs.insert("tool".to_owned(), job);
    catalog.close_queue();
    assert!(catalog.queue.is_none());
    catalog.open_queue(2);
    catalog.close_queue();
    assert!(!catalog.matching("to", 5)[0].description_pending);
    assert!(catalog.take_job().is_none());
}

#[test]
fn a_stream_is_read_back_between_its_nuls() {
    let mut commands = CommandCatalog::default();
    let history = vec![past("ls a"), past("ls b")];
    let response =
        complete_with_history(&mut commands, &history, "ls", 2, 8, AcceptMode::Segment);
    let stream = zsh_stream(&response, ZshFormat::WithHeader);
    let fields: Vec<&[u8]> = stream.split(|byte| *byte == 0).collect();
    assert_eq!(fields.len(), 1 + 2 * 6 + 1);
    assert_eq!(fields[0], b"false");
    assert_eq!(fields[2], b"ls a");
    assert_eq!(fields[8], b"ls b");
    assert_eq!(fields[13], b"");
}

#[test]
fn styles_are_spans_of_the_text() {
    let line = parse_ansi_preview_line("\x1b[1ma\x1b[38;5;300mb\x1b[38;5;9mc\x1b[0md");
    assert_eq!(line.text, "abcd");
    assert_eq!(line.styles, "0:2:bold;2:3:fg=9,bold");
}

#[test]
fn times_end_where_the_database_ends() {
    assert_eq!(clamped(5), 5);
    assert_eq!(clamped(i64::MAX as u128), i64::MAX);
    assert_eq!(clamped(u128::MAX), i64::MAX);
}

#[test]
fn the_default_settings_can_be_used() {
    assert_eq!(Settings::default().validate(), Ok(()));
}
