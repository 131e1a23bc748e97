use aster::commands::cache::{
    cache_is_fresh, CachedDescription, DescriptionCache, ExecutableFingerprint, CACHE_VERSION,
    MISS_TTL, SUCCESS_TTL,
};
use aster::commands::catalog::{DescriptionJob, EnrichmentState, JobQueue, QUEUE_CAPACITY};
use aster::commands::describe::{parse_help_description, parse_man_description};
use aster::commands::discovery::{
    help_enrichment, man_enrichment, Enrichment, FileFacts, FoundFile,
};
use aster::commands::help::{option_line_has_unsafe_data, valid_name};
use aster::commands::known::{fallback_description, known_description, shell_builtins};
use aster::commands::options::parse_options;
use aster::commands::subcommands::parse_subcommands;
use aster::commands::values::{parse_option_values, OptionValues};
use aster::commands::{
    CommandCatalog, CommandEntry, OptionMatch, SubcommandMatch, ValueMatch,
};

fn entry(name: &str, description: &str) -> CommandEntry {
    CommandEntry { name: name.to_owned(), description: description.to_owned() }
}

fn option(spelling: &str, description: &str) -> OptionMatch {
    OptionMatch { spelling: spelling.to_owned(), description: description.to_owned() }
}

fn subcommand(name: &str, description: &str) -> SubcommandMatch {
    SubcommandMatch { name: name.to_owned(), description: description.to_owned() }
}

fn fingerprint(path: &str, inode: u64) -> ExecutableFingerprint {
    ExecutableFingerprint {
        path: path.as_bytes().to_vec(),
        size: 1,
        device: 1,
        inode,
        mode: 0o100755,
        modified_secs: 1,
        modified_nanos: 1,
        changed_secs: 1,
        changed_nanos: 1,
    }
}

fn test_job(name: &str, authored_description: bool) -> DescriptionJob {
    DescriptionJob {
        name: name.to_owned(),
        path: format!("/usr/bin/{name}").into_bytes(),
        fingerprint: fingerprint(&format!("/usr/bin/{name}"), 1),
        authored_description,
    }
}

fn values_for<'a>(values: &'a [OptionValues], option: &str) -> Vec<&'a str> {
    values
        .iter()
        .find(|entry| entry.option == option)
        .unwrap()
        .values
        .iter()
        .map(|value| value.value.as_str())
        .collect()
}

#[test]
fn matches_sorted_prefixes() {
    let mut catalog = CommandCatalog::from_entries(vec![
        entry("atlas", "MongoDB Atlas"),
        entry("arch", "Architecture"),
    ]);

    let names: Vec<_> =
        catalog.matching("a", 10).into_iter().map(|entry| entry.name).collect();
    assert_eq!(names, ["arch", "atlas"]);
}

#[test]
fn rejects_shell_metacharacters_in_names() {
    assert!(valid_name("aws-vault"));
    assert!(!valid_name("bad command"));
    assert!(!valid_name("bad;command"));
}

#[test]
fn parses_exact_man_description() {
    let output = "assetutil(1) - process asset catalog.car files\n\
                  other(1) - unrelated\n";
    assert_eq!(
        parse_man_description("assetutil", output).as_deref(),
        Some("process asset catalog.car files")
    );
    assert_eq!(parse_man_description("asset", output), None);
}

#[test]
fn parses_overstruck_man_name_section() {
    let output = "N\u{8}NA\u{8}AM\u{8}ME\u{8}E\n       a\u{8}as\u{8}s - assembler\n";
    assert_eq!(parse_man_description("as", output).as_deref(), Some("assembler"));
}

#[test]
fn parses_man_name_section_without_separator() {
    let output = "NAME\n     assetutil process asset catalog files\n\nSYNOPSIS\n";
    assert_eq!(
        parse_man_description("assetutil", output).as_deref(),
        Some("process asset catalog files")
    );
}

#[test]
fn parses_prose_from_help_output() {
    let output = "Usage: tool [OPTIONS]\n\nInspect a project without changing it.\n\nOptions:\n";
    assert_eq!(
        parse_help_description("tool", output).as_deref(),
        Some("Inspect a project without changing it.")
    );
}

#[test]
fn rejects_help_diagnostics() {
    let output = "tool: error: couldn't create cache file\nUsage: tool [OPTIONS]\n";
    assert_eq!(parse_help_description("tool", output), None);
}

#[test]
fn parses_rendered_man_option_declarations_and_continuations() {
    let output = "NAME\n    tool - inspect things\nThe following options are available:\n\
                  \x20   -a, --all\n\
                  \x20       Include hidden entries.\n\
                  \x20   -o, --output FILE  Write to FILE.\n\
                  \x20       --color=WHEN    Control colored output.\nARGUMENTS\n\
                  \x20   FILE  Input file.\n";

    assert_eq!(
        parse_options(output),
        [
            option("-a", "Include hidden entries."),
            option("--all", "Include hidden entries."),
            option("-o", "Write to FILE."),
            option("--output", "Write to FILE."),
            option("--color", "Control colored output."),
        ]
    );
}

#[test]
fn parses_common_help_option_sections() {
    let clap = "Usage: tool [OPTIONS]\n\nOptions:\n  -q, --quiet       Suppress output\n\
                \x20     --format <FORMAT>  Select a format\n";
    let cobra = "Flags:\n  -h, --help   help for tool\nCommands:\n  child\n";
    let click = "Options:\n  --color / --no-color  Toggle color.\n  --help                  Show this message.\n";
    let argparse = "optional arguments:\n  -v, --verbose    increase verbosity\n  -o OUTPUT, --output OUTPUT  destination\n  --color[=WHEN]  color mode\n";

    assert_eq!(
        parse_options(clap).into_iter().map(|option| option.spelling).collect::<Vec<_>>(),
        ["-q", "--quiet", "--format"]
    );
    assert_eq!(
        parse_options(cobra),
        [option("-h", "help for tool"), option("--help", "help for tool")]
    );
    assert_eq!(parse_options(click).len(), 3);
    assert_eq!(
        parse_options(argparse).into_iter().map(|option| option.spelling).collect::<Vec<_>>(),
        ["-v", "--verbose", "-o", "--output", "--color"]
    );
}

#[test]
fn parses_explicit_subcommand_sections() {
    let output = "Usage: tool [COMMAND]\n\nAvailable Commands:\n\
                  \x20  build, b  Build the project\n\
                  \x20  inspect   Inspect project state\n\
                  \x20    continuation text that is not a command\n\nOptions:\n\
                  \x20  --help    Print help\n\nAdditional Commands:\n\
                  \x20  deploy:   Deploy the project\n";

    assert_eq!(
        parse_subcommands(output),
        [
            subcommand("build", "Build the project"),
            subcommand("b", "Build the project"),
            subcommand("inspect", "Inspect project state"),
            subcommand("deploy", "Deploy the project"),
        ]
    );

    let prose = "Tool for running commands\n\
                 \x20  This paragraph is not a command declaration.\n\nCommands:\n\
                 \x20  valid  A real command\n\
                 \x20  Commands can be abbreviated\n";
    assert_eq!(parse_subcommands(prose), [subcommand("valid", "A real command")]);
}

#[test]
fn parses_documented_option_values_for_every_alias() {
    let output = "Options:\n\
                  \x20  -c, --color <WHEN>  Color output [possible values: auto, always, never]\n\
                  \x20  --format {json,yaml}  Output format\n\
                  \x20  --mode <fast|safe>    Execution mode\n\
                  \x20  --template TEMPLATE  Expand {name,id} placeholders\n\
                  \x20  --target <TARGET>\n\
                  \x20      Possible values:\n\
                  \x20      - local: Run locally\n\
                  \x20      - remote: Run remotely\n";
    let values = parse_option_values(output);

    for option in ["-c", "--color"] {
        assert_eq!(
            values
                .iter()
                .find(|entry| entry.option == option)
                .unwrap()
                .values
                .iter()
                .map(|value| value.value.as_str())
                .collect::<Vec<_>>(),
            ["auto", "always", "never"]
        );
    }
    assert_eq!(values_for(&values, "--format"), ["json", "yaml"]);
    assert_eq!(values_for(&values, "--mode"), ["fast", "safe"]);
    assert!(!values.iter().any(|entry| entry.option == "--template"));
    assert_eq!(values_for(&values, "--target"), ["local", "remote"]);
    assert_eq!(
        values.iter().find(|entry| entry.option == "--target").unwrap().values[0].description,
        "Run locally"
    );
}

#[test]
fn rejects_usage_prose_subcommands_and_malicious_option_spellings() {
    let output = "Usage: tool --usage-only\n\
                  \x20Prose mentions --prose-only but is not an option.\n\
                  \x20Options:\n\
                  \x20  --safe        Safe option.\n\
                  \x20  --bad;touch   Not safe.\n\
                  \x20  --also$(evil) Not safe.\n\
                  \x20  --con\u{7}trol Control data.\n\
                  \x20  -abc          Combined spelling.\n\
                  \x20  \u{2014}lookalike    Unicode dash.\n\
                  \x20Commands:\n\
                  \x20  child\n\
                  \x20Options:\n\
                  \x20  --child-only  Child option.\n";

    assert_eq!(parse_options(output), [option("--safe", "Safe option.")]);
    assert!(!option_line_has_unsafe_data("-\u{8}-, h\u{8}h"));
}

#[test]
fn strips_terminal_controls_from_descriptions() {
    let output = "tool(1) - \u{1b}[31mred\u{1b}[0m\u{202e} text\n";
    assert_eq!(parse_man_description("tool", output).as_deref(), Some("red text"));
}

fn cached_tool() -> CachedDescription {
    CachedDescription {
        fingerprint: ExecutableFingerprint {
            path: b"/usr/bin/tool".to_vec(),
            size: 42,
            device: 1,
            inode: 2,
            mode: 0o100755,
            modified_secs: 3,
            modified_nanos: 4,
            changed_secs: 5,
            changed_nanos: 6,
        },
        checked_at_secs: 7,
        description: Some("Inspect a tool".to_owned()),
        options: vec![option("--verbose", "Show more detail")],
        subcommands: vec![subcommand("inspect", "Inspect a project")],
        option_values: vec![OptionValues {
            option: "--color".to_owned(),
            values: vec![ValueMatch { value: "always".to_owned(), description: String::new() }],
        }],
    }
}

#[test]
fn description_cache_round_trips() {
    let mut cache = DescriptionCache::default();
    cache.insert("tool".to_owned(), cached_tool());

    let loaded = cache.checked();
    let tool = loaded.get("tool").unwrap();
    assert_eq!(tool.description.as_deref(), Some("Inspect a tool"));
    assert_eq!(tool.fingerprint.size, 42);
    assert_eq!(tool.options, [option("--verbose", "Show more detail")]);
    assert_eq!(tool.subcommands[0].name, "inspect");
    assert_eq!(tool.option_values[0].values[0].value, "always");
}

#[test]
fn a_cache_of_another_version_is_forgotten() {
    let mut cache = DescriptionCache::default();
    assert_eq!(cache.version, CACHE_VERSION);
    cache.insert("tool".to_owned(), cached_tool());
    cache.version = CACHE_VERSION - 1;
    let loaded = cache.checked();
    assert_eq!(loaded.version, CACHE_VERSION);
    assert!(loaded.get("tool").is_none());
}

#[test]
fn unfit_cache_entries_are_dropped() {
    let mut cache = DescriptionCache::default();
    let mut cached = cached_tool();
    cached.options.push(option("--bad;touch", "Not safe"));
    cached.subcommands.push(subcommand("bad command", "Not safe"));
    cached.options[0].description = "\u{1b}[31mred\u{1b}[0m".to_owned();
    cache.insert("tool".to_owned(), cached);
    let loaded = cache.checked();
    let tool = loaded.get("tool").unwrap();
    assert_eq!(tool.options, [option("--verbose", "[31mred[0m")]);
    assert_eq!(tool.subcommands, [subcommand("inspect", "Inspect a project")]);
}

#[test]
fn findings_stay_fresh_longer_than_misses() {
    let found = cached_tool();
    assert!(cache_is_fresh(&found, 7 + SUCCESS_TTL));
    assert!(!cache_is_fresh(&found, 7 + SUCCESS_TTL + 1));
    let mut missed = cached_tool();
    missed.description = None;
    missed.options.clear();
    missed.subcommands.clear();
    missed.option_values.clear();
    assert!(cache_is_fresh(&missed, 7 + MISS_TTL));
    assert!(!cache_is_fresh(&missed, 7 + MISS_TTL + 1));
}

#[test]
fn one_finding_is_enough_to_stay_fresh() {
    for part in 0..4 {
        let mut found = cached_tool();
        if part != 0 {
            found.description = None;
        }
        if part != 1 {
            found.options.clear();
        }
        if part != 2 {
            found.subcommands.clear();
        }
        if part != 3 {
            found.option_values.clear();
        }
        found.checked_at_secs = 0;
        assert!(cache_is_fresh(&found, 172_800));
        assert!(cache_is_fresh(&found, SUCCESS_TTL));
        assert!(!cache_is_fresh(&found, SUCCESS_TTL + 1));
    }
}

#[test]
fn an_oversized_cache_drops_its_oldest_entry() {
    let mut cache = DescriptionCache::default();
    let mut older = cached_tool();
    older.checked_at_secs = 3;
    cache.insert("older".to_owned(), older);
    cache.insert("newer".to_owned(), cached_tool());
    assert!(!cache.shrink(10));
    assert!(cache.get("older").is_some());
    assert!(cache.shrink(2 * 1024 * 1024 + 1));
    assert!(cache.get("older").is_none());
    assert!(cache.get("newer").is_some());
}

#[test]
fn authored_descriptions_remain_preferred_during_enrichment() {
    let mut state = EnrichmentState::default();
    state.set_description("cargo", "Parsed description");
    let mut catalog = CommandCatalog::default();
    catalog.entries = vec![entry("cargo", "Rust package manager and build tool")];
    catalog.jobs.insert("cargo".to_owned(), test_job("cargo", true));
    catalog.state = state;

    assert_eq!(
        catalog.matching("cargo", 1)[0].description,
        "Rust package manager and build tool"
    );
}

#[test]
fn matches_cached_options_by_prefix_for_an_exact_command() {
    let mut state = EnrichmentState::default();
    state.set_settled("tool");
    state.set_options(
        "tool",
        vec![
            option("--all", "Include all"),
            option("--color", "Control color"),
            option("-v", "Verbose"),
        ],
    );
    let mut catalog = CommandCatalog::default();
    catalog.jobs.insert("tool".to_owned(), test_job("tool", false));
    catalog.state = state;

    let matches = catalog.matching_options("tool", "--", 1);
    assert_eq!(matches.entries[0].spelling, "--all");
    assert!(!matches.pending);
    assert!(catalog.matching_options("unknown", "-", 10).entries.is_empty());
    assert!(!catalog.matching_options("unknown", "-", 10).pending);
}

#[test]
fn unsettled_options_report_pending_without_blocking_on_a_full_queue() {
    let mut queue = JobQueue::new(1);
    queue.waiting.push(test_job("queued", false));
    let mut catalog = CommandCatalog::default();
    catalog.jobs.insert("tool".to_owned(), test_job("tool", false));
    catalog.queue = Some(queue);
    let started = std::time::Instant::now();

    let matches = catalog.matching_options("tool", "--", 10);

    assert!(matches.entries.is_empty());
    assert!(matches.pending);
    assert!(started.elapsed() < std::time::Duration::from_millis(100));
    assert_eq!(catalog.queue.unwrap().waiting.len(), 1);
}

#[test]
fn a_command_is_looked_at_once() {
    let mut catalog = CommandCatalog::default();
    catalog.entries = vec![entry("tool", "Command-line utility")];
    catalog.jobs.insert("tool".to_owned(), test_job("tool", false));
    catalog.open_queue(2);
    assert_eq!(catalog.queue.as_ref().unwrap().capacity, QUEUE_CAPACITY);

    let first = catalog.matching("to", 10);
    assert!(first[0].description_pending);
    let second = catalog.matching("to", 10);
    assert!(second[0].description_pending);
    assert_eq!(catalog.queue.as_ref().unwrap().waiting.len(), 1);

    let job = catalog.take_job().unwrap();
    assert_eq!(job.name, "tool");
    assert!(catalog.take_job().is_none());
    let found = help_enrichment("tool", "Usage: tool\n\nInspect a project.\n\nOptions:\n  --all  Everything\n");
    catalog.finish_job(&job, &found, true);

    let after = catalog.matching("to", 10);
    assert_eq!(after[0].description, "Inspect a project.");
    assert!(!after[0].description_pending);
    assert_eq!(catalog.matching_options("tool", "--a", 10).entries, [option("--all", "Everything")]);

    let mut cache = DescriptionCache::default();
    cache.remember(job, found, 99);
    let remembered = cache.get("tool").unwrap();
    assert_eq!(remembered.checked_at_secs, 99);
    assert_eq!(remembered.description.as_deref(), Some("Inspect a project."));
}

#[test]
fn a_queue_without_workers_takes_no_jobs() {
    let mut catalog = CommandCatalog::default();
    catalog.jobs.insert("tool".to_owned(), test_job("tool", false));
    catalog.open_queue(0);
    assert!(!catalog.matching_options("tool", "-", 10).pending);
}

#[test]
fn the_manual_comes_before_the_help() {
    let man = man_enrichment("tool", "NAME\n    tool - from the manual\n");
    assert!(man.is_incomplete());
    let help = help_enrichment(
        "tool",
        "From the help.\n\nOptions:\n  --all  Everything\n\nCommands:\n  build  Build it\n",
    );
    let both = man.completed_by(Some(help));
    assert_eq!(both.description.as_deref(), Some("from the manual"));
    assert_eq!(both.options, [option("--all", "Everything")]);
    assert_eq!(both.subcommands, [subcommand("build", "Build it")]);

    let nothing = Enrichment::default();
    assert!(nothing.is_incomplete());
    assert_eq!(nothing.completed_by(None).description, None);
}

fn found(name: &str, directory: &str, mode: u32, inode: u64) -> FoundFile {
    let path = format!("{directory}/{name}");
    let mut facts = FileFacts { is_file: true, fingerprint: fingerprint(&path, inode) };
    facts.fingerprint.mode = mode;
    FoundFile { name: Some(name.to_owned()), path: path.into_bytes(), facts: Some(facts) }
}

#[test]
fn the_first_executable_of_a_name_counts() {
    let files = vec![
        found("tool", "/first", 0o100644, 1),
        found("tool", "/second", 0o100755, 2),
        found("tool", "/third", 0o100755, 3),
        found("bad;name", "/third", 0o100755, 4),
        FoundFile { name: None, path: b"/third/\xff".to_vec(), facts: None },
    ];
    let catalog = CommandCatalog::discover(&files, &DescriptionCache::default(), 0);
    let job = catalog.jobs.get("tool").unwrap();
    assert_eq!(job.path, b"/second/tool");
    assert!(!catalog.entries.iter().any(|entry| entry.name == "bad;name"));
    let names: Vec<&str> = catalog.entries.iter().map(|entry| entry.name.as_str()).collect();
    let mut sorted = names.clone();
    sorted.sort();
    assert_eq!(names, sorted);
}

#[test]
fn discovery_uses_what_is_remembered_of_the_same_file() {
    let files = vec![found("mytool", "/bin", 0o100755, 1)];
    let mut cached = cached_tool();
    cached.fingerprint = fingerprint("/bin/mytool", 1);
    cached.checked_at_secs = 100;
    let mut cache = DescriptionCache::default();
    cache.insert("mytool".to_owned(), cached);

    let mut known = CommandCatalog::discover(&files, &cache, 100);
    assert_eq!(known.matching("mytool", 1)[0].description, "Inspect a tool");
    assert_eq!(known.matching_options("mytool", "--", 9).entries.len(), 1);

    let changed = vec![found("mytool", "/bin", 0o100755, 7)];
    let mut unknown = CommandCatalog::discover(&changed, &cache, 100);
    assert!(unknown.matching_options("mytool", "--", 9).entries.is_empty());
}

#[test]
fn commands_have_a_description_before_anything_is_found_out() {
    assert_eq!(known_description("cargo"), Some("Rust package manager and build tool"));
    assert_eq!(known_description("no-such-tool"), None);
    assert!(!fallback_description(b"/usr/bin/tool").is_empty());
    assert!(shell_builtins().iter().any(|entry| entry.name == "cd"));
}

#[test]
fn matches_subcommands_and_values_by_prefix() {
    let mut catalog = CommandCatalog::from_structured(
        "tool",
        Vec::new(),
        vec![subcommand("build", "Build it"), subcommand("inspect", "Look at it")],
        vec![(
            "--color".to_owned(),
            vec![
                ValueMatch { value: "auto".to_owned(), description: String::new() },
                ValueMatch { value: "never".to_owned(), description: String::new() },
            ],
        )],
    );
    assert_eq!(catalog.matching_subcommands("tool", "in", 9).entries, [subcommand("inspect", "Look at it")]);
    let values = catalog.matching_values("tool", "--color", "a", 9);
    assert_eq!(values.entries[0].value, "auto");
    assert_eq!(values.entries.len(), 1);
    assert!(catalog.matching_values("tool", "--other", "", 9).entries.is_empty());
}
