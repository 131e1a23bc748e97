use aster::config::{
    check_private_dir, completion_key_sequence, private_mode, validate_color, AcceptMode,
    ConfigError, DirectoryFacts, Environment, Paths, Settings, DEFAULT_CONFIG,
};

fn text<'a>(table: &'a toml::Table, section: &str, key: &str) -> &'a str {
    table[section][key].as_str().unwrap()
}

fn number(table: &toml::Table, section: &str, key: &str) -> usize {
    table[section][key].as_integer().unwrap() as usize
}

#[test]
fn default_config_round_trips() {
    let table: toml::Table = toml::from_str(DEFAULT_CONFIG).unwrap();
    let mut parsed = Settings::default();
    parsed.completion.key = text(&table, "completion", "key").to_owned();
    parsed.completion.max_candidates = number(&table, "completion", "max_candidates");
    parsed.completion.accept = match text(&table, "completion", "accept") {
        "segment" => AcceptMode::Segment,
        _ => AcceptMode::Full,
    };
    parsed.history.successful_first =
        table["history"]["successful_first"].as_bool().unwrap();
    parsed.history.ignore_leading_space =
        table["history"]["ignore_leading_space"].as_bool().unwrap();
    parsed.ui.menu_width = number(&table, "ui", "menu_width");
    parsed.ui.max_visible = number(&table, "ui", "max_visible");
    parsed.ui.prompt_offset = number(&table, "ui", "prompt_offset");
    parsed.ui.border = text(&table, "ui", "border").to_owned();
    parsed.ui.accent = text(&table, "ui", "accent").to_owned();
    parsed.ui.text = text(&table, "ui", "text").to_owned();
    parsed.ui.muted = text(&table, "ui", "muted").to_owned();
    parsed.ui.ghost_text = text(&table, "ui", "ghost").to_owned();
    parsed.ui.selected_background = text(&table, "ui", "selected_background").to_owned();
    parsed.ui.selected_text = text(&table, "ui", "selected_text").to_owned();
    parsed.ui.selected_source = text(&table, "ui", "selected_source").to_owned();
    assert_eq!(parsed, Settings::default());
    assert_eq!(parsed.validate(), Ok(()));
}

#[test]
fn rejects_excessive_candidate_limit() {
    let table: toml::Table =
        toml::from_str("[completion]\nmax_candidates = 101\naccept = \"segment\"\n").unwrap();
    let mut settings = Settings::default();
    settings.completion.max_candidates = number(&table, "completion", "max_candidates");
    settings.completion.accept = AcceptMode::Segment;
    assert!(settings.validate().is_err());
}

#[test]
fn validates_completion_key() {
    assert_eq!(completion_key_sequence("ctrl-space").unwrap(), "^@");
    assert_eq!(completion_key_sequence("ctrl-x").unwrap(), "^X");
    assert!(completion_key_sequence("tab").is_err());
    assert!(completion_key_sequence("shift-tab").is_err());
    assert!(completion_key_sequence("ctrl-i").is_err());
    assert!(completion_key_sequence("ctrl-k").is_err());
    assert!(completion_key_sequence("alt-space").is_err());
}

#[test]
fn validates_ui_colors() {
    assert!(validate_color("border", "4").is_ok());
    assert!(validate_color("border", "255").is_ok());
    assert!(validate_color("border", "#5f87af").is_ok());
    assert!(validate_color("border", "256").is_err());
    assert!(validate_color("border", "blue").is_err());
}

#[test]
fn refuses_insecure_existing_state_directory_without_chmod() {
    assert_eq!(private_mode(true), None);
    let open = DirectoryFacts { is_dir: true, owner: 7, mode: 0o755 };
    assert_eq!(check_private_dir(open, 7), Err(ConfigError::DirectoryNotPrivate));
    assert_eq!(private_mode(false), Some(0o700));
    let closed = DirectoryFacts { is_dir: true, owner: 7, mode: 0o700 };
    assert_eq!(check_private_dir(closed, 7), Ok(()));
    assert_eq!(check_private_dir(closed, 8), Err(ConfigError::DirectoryNotOwned));
    let file = DirectoryFacts { is_dir: false, owner: 7, mode: 0o700 };
    assert_eq!(check_private_dir(file, 7), Err(ConfigError::DirectoryNotOwned));
}

#[test]
fn each_setting_has_its_bounds() {
    let mut settings = Settings::default();
    settings.completion.max_candidates = 0;
    assert_eq!(settings.validate(), Err(ConfigError::MaxCandidates));
    let mut settings = Settings::default();
    settings.completion.key = "tab".to_owned();
    assert_eq!(settings.validate(), Err(ConfigError::UnknownKey));
    settings.completion.key = "ctrl-j".to_owned();
    assert_eq!(settings.validate(), Err(ConfigError::ReservedKey));
    let mut settings = Settings::default();
    settings.ui.menu_width = 39;
    assert_eq!(settings.validate(), Err(ConfigError::MenuWidth));
    settings.ui.menu_width = 120;
    assert_eq!(settings.validate(), Ok(()));
    settings.ui.max_visible = 11;
    assert_eq!(settings.validate(), Err(ConfigError::MaxVisible));
    let mut settings = Settings::default();
    settings.ui.prompt_offset = 41;
    assert_eq!(settings.validate(), Err(ConfigError::PromptOffset));
    let mut settings = Settings::default();
    settings.ui.ghost_text = "#12345".to_owned();
    let problem = settings.validate().unwrap_err();
    assert_eq!(
        problem.message(),
        "ui.ghost must be an ANSI color from 0 to 255 or #RRGGBB"
    );
}

fn nowhere() -> Environment {
    Environment {
        home: None,
        aster_config: None,
        xdg_config_home: None,
        aster_state_dir: None,
        xdg_state_home: None,
        aster_socket: None,
        current_dir: None,
    }
}

#[test]
fn files_are_kept_under_the_home_directory() {
    let mut env = nowhere();
    assert_eq!(Paths::discover(&env), Err(ConfigError::HomeUnset));
    env.home = Some(b"/home/me".to_vec());
    let paths = Paths::discover(&env).unwrap();
    assert_eq!(paths.config_file, b"/home/me/.config/aster/config.toml");
    assert!(paths.state_dir.starts_with(b"/home/me/"));
    assert!(paths.database_file.starts_with(&paths.state_dir));
    let directories = paths.ensure_directories();
    assert_eq!(directories[0], paths.state_dir);
}

#[test]
fn relative_places_are_taken_from_the_current_directory() {
    let mut env = nowhere();
    env.home = Some(b"/home/me".to_vec());
    env.aster_config = Some(b"my.toml".to_vec());
    assert_eq!(Paths::discover(&env), Err(ConfigError::NoCurrentDirectory));
    env.current_dir = Some(b"/work".to_vec());
    env.aster_state_dir = Some(b"/state".to_vec());
    env.aster_socket = Some(b"/run/me/aster.sock".to_vec());
    let paths = Paths::discover(&env).unwrap();
    assert_eq!(paths.config_file, b"/work/my.toml");
    assert_eq!(paths.state_dir, b"/state");
    assert_eq!(paths.socket_file, b"/run/me/aster.sock");
    assert_eq!(paths.ensure_directories().len(), 2);
}
