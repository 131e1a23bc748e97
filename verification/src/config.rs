//! Settings, the keys and colours they may name, and where files are kept.
use vstd::prelude::*;
use vstd::utf8::*;
use crate::number;
use crate::paths;
use crate::text;
use crate::number::parse_unsigned;
use crate::paths::{bytes_of, is_absolute, joined, parent_of};
use crate::text::{begins_with_str, chars_of, from_index, is_all, push_str, same_as, Class};

verus! {

// ---------------------------------------------------------------------------
// Settings
// ---------------------------------------------------------------------------

/// What the user can set.
#[derive(Debug, Clone, PartialEq, Eq)]
pub struct Settings {
    pub completion: CompletionSettings,
    pub history: HistorySettings,
    pub ui: UiSettings,
}

#[derive(Debug, Clone, PartialEq, Eq)]
pub struct CompletionSettings {
    /// How many candidates a menu holds.
    pub max_candidates: usize,
    /// What the completion key accepts.
    pub accept: AcceptMode,
    pub key: String,
}

#[derive(Debug, Clone, PartialEq, Eq)]
pub struct HistorySettings {
    /// A command typed behind a blank is not recorded.
    pub ignore_leading_space: bool,
    /// Commands that succeeded come first where recency is tied.
    pub successful_first: bool,
}

#[derive(Debug, Clone, PartialEq, Eq)]
pub struct UiSettings {
    pub menu_width: usize,
    pub max_visible: usize,
    pub prompt_offset: usize,
    pub border: String,
    pub accent: String,
    pub text: String,
    pub muted: String,
    pub ghost_text: String,
    pub selected_background: String,
    pub selected_text: String,
    pub selected_source: String,
}

/// How much of a candidate the completion key accepts.
#[derive(Debug, Clone, Copy, PartialEq, Eq, Structural)]
pub enum AcceptMode {
    Segment,
    Full,
}

impl Default for CompletionSettings {
    fn default() -> (r: Self)
        ensures
            r.max_candidates == 8,
            r.accept == AcceptMode::Full,
            r.key@ == "ctrl-space"@,
    {
        CompletionSettings {
            max_candidates: 8,
            accept: AcceptMode::Full,
            key: "ctrl-space".to_string(),
        }
    }
}

impl Default for HistorySettings {
    fn default() -> (r: Self)
        ensures
            r.ignore_leading_space,
            r.successful_first,
    {
        HistorySettings { ignore_leading_space: true, successful_first: true }
    }
}

/// The colours that nobody has changed.
pub open spec fn default_colors(ui: UiSettings) -> bool {
    &&& ui.border@ == "4"@
    &&& ui.accent@ == "10"@
    &&& ui.text@ == "7"@
    &&& ui.muted@ == "8"@
    &&& ui.ghost_text@ == "8"@
    &&& ui.selected_background@ == "8"@
    &&& ui.selected_text@ == "15"@
    &&& ui.selected_source@ == "0"@
}

impl Default for UiSettings {
    fn default() -> (r: Self)
        ensures
            r.menu_width == 64,
            r.max_visible == 6,
            r.prompt_offset == 2,
            default_colors(r),
    {
        UiSettings {
            menu_width: 64,
            max_visible: 6,
            prompt_offset: 2,
            border: "4".to_string(),
            accent: "10".to_string(),
            text: "7".to_string(),
            muted: "8".to_string(),
            ghost_text: "8".to_string(),
            selected_background: "8".to_string(),
            selected_text: "15".to_string(),
            selected_source: "0".to_string(),
        }
    }
}

/// The settings that nobody has changed.
pub open spec fn default_settings(s: Settings) -> bool {
    &&& s.completion.max_candidates == 8
    &&& s.completion.accept == AcceptMode::Full
    &&& s.completion.key@ == "ctrl-space"@
    &&& s.history.ignore_leading_space
    &&& s.history.successful_first
    &&& s.ui.menu_width == 64
    &&& s.ui.max_visible == 6
    &&& s.ui.prompt_offset == 2
    &&& default_colors(s.ui)
}

impl Default for Settings {
    fn default() -> (r: Self)
        ensures
            default_settings(r),
    {
        Settings {
            completion: CompletionSettings::default(),
            history: HistorySettings::default(),
            ui: UiSettings::default(),
        }
    }
}

/// The text of a configuration file that changes nothing.
pub const DEFAULT_CONFIG: &'static str = r#"[completion]
# Aster abstains instead of filling this list with low-confidence candidates.
max_candidates = 8

# Accept the highlighted completion with Ctrl-Space. Also accepts "ctrl-a"
# through "ctrl-z" (excluding reserved menu controls).
key = "ctrl-space"

# Ctrl-Space accepts the whole suggestion; Tab always advances one segment.
accept = "full"

[history]
# Match common shell history privacy behavior.
ignore_leading_space = true

# Prefer successful commands when recency is tied.
successful_first = true

[ui]
# ANSI palette indexes adapt to the active terminal theme. #RRGGBB is also valid.
menu_width = 64
max_visible = 6
prompt_offset = 2
border = "4"
accent = "10"
text = "7"
muted = "8"
ghost = "8"
selected_background = "8"
selected_text = "15"
selected_source = "0"
"#;

// ---------------------------------------------------------------------------
// What is wrong with settings and paths
// ---------------------------------------------------------------------------

/// What is wrong with settings or with the places of files.
#[derive(Debug, PartialEq, Eq)]
pub enum ConfigError {
    MaxCandidates,
    UnknownKey,
    ReservedKey,
    MenuWidth,
    MaxVisible,
    PromptOffset,
    /// A colour of the menu, by the name of its setting.
    Color { name: String },
    HomeUnset,
    NoCurrentDirectory,
    DirectoryNotOwned,
    DirectoryNotPrivate,
}

/// What an error says.
pub enum Problem {
    MaxCandidates,
    UnknownKey,
    ReservedKey,
    MenuWidth,
    MaxVisible,
    PromptOffset,
    Color(Seq<char>),
    HomeUnset,
    NoCurrentDirectory,
    DirectoryNotOwned,
    DirectoryNotPrivate,
}

impl View for ConfigError {
    type V = Problem;

    open spec fn view(&self) -> Problem {
        match self {
            ConfigError::MaxCandidates => Problem::MaxCandidates,
            ConfigError::UnknownKey => Problem::UnknownKey,
            ConfigError::ReservedKey => Problem::ReservedKey,
            ConfigError::MenuWidth => Problem::MenuWidth,
            ConfigError::MaxVisible => Problem::MaxVisible,
            ConfigError::PromptOffset => Problem::PromptOffset,
            ConfigError::Color { name } => Problem::Color(name@),
            ConfigError::HomeUnset => Problem::HomeUnset,
            ConfigError::NoCurrentDirectory => Problem::NoCurrentDirectory,
            ConfigError::DirectoryNotOwned => Problem::DirectoryNotOwned,
            ConfigError::DirectoryNotPrivate => Problem::DirectoryNotPrivate,
        }
    }
}

/// What the user is told.
pub open spec fn problem_text(p: Problem) -> Seq<char> {
    match p {
        Problem::MaxCandidates => "completion.max_candidates must be between 1 and 100"@,
        Problem::UnknownKey => "completion.key must be ctrl-space or ctrl-a through ctrl-z"@,
        Problem::ReservedKey => "completion.key conflicts with an Aster menu control"@,
        Problem::MenuWidth => "ui.menu_width must be between 40 and 120"@,
        Problem::MaxVisible => "ui.max_visible must be between 1 and 10"@,
        Problem::PromptOffset => "ui.prompt_offset must not exceed 40"@,
        Problem::Color(name) => "ui."@ + name
            + " must be an ANSI color from 0 to 255 or #RRGGBB"@,
        Problem::HomeUnset => "HOME is not set"@,
        Problem::NoCurrentDirectory => "failed to resolve current directory"@,
        Problem::DirectoryNotOwned => "directory is not owned by the current user"@,
        Problem::DirectoryNotPrivate =>
            "directory must not be accessible by group or other users"@,
    }
}

impl ConfigError {
    /// What the user is told.
    pub fn message(&self) -> (r: String)
        ensures
            r@ == problem_text(self@),
    {
        match self {
            ConfigError::MaxCandidates => {
                "completion.max_candidates must be between 1 and 100".to_string()
            },
            ConfigError::UnknownKey => {
                "completion.key must be ctrl-space or ctrl-a through ctrl-z".to_string()
            },
            ConfigError::ReservedKey => {
                "completion.key conflicts with an Aster menu control".to_string()
            },
            ConfigError::MenuWidth => "ui.menu_width must be between 40 and 120".to_string(),
            ConfigError::MaxVisible => "ui.max_visible must be between 1 and 10".to_string(),
            ConfigError::PromptOffset => "ui.prompt_offset must not exceed 40".to_string(),
            ConfigError::Color { name } => {
                let mut out = String::new();
                push_str(&mut out, "ui.");
                push_str(&mut out, name.as_str());
                push_str(&mut out, " must be an ANSI color from 0 to 255 or #RRGGBB");
                assert(out@ =~= problem_text(self@));
                out
            },
            ConfigError::HomeUnset => "HOME is not set".to_string(),
            ConfigError::NoCurrentDirectory => "failed to resolve current directory".to_string(),
            ConfigError::DirectoryNotOwned => {
                "directory is not owned by the current user".to_string()
            },
            ConfigError::DirectoryNotPrivate => {
                "directory must not be accessible by group or other users".to_string()
            },
        }
    }
}

// ---------------------------------------------------------------------------
// Validation
// ---------------------------------------------------------------------------

/// A letter whose control key the menu uses itself.
pub open spec fn menu_key(c: char) -> bool {
    c == 'i' || c == 'j' || c == 'k' || c == 'm' || c == 'n'
}

/// The key sequence of a completion key, as the line editor writes it.
pub open spec fn key_sequence(key: Seq<char>) -> Result<Seq<char>, Problem> {
    let lead = "ctrl-"@;
    let letter = key.skip(lead.len() as int);
    if key == "ctrl-space"@ {
        Ok("^@"@)
    } else if !text::starts_with(key, lead) || letter.len() != 1 || !text::ascii_lower(letter[0]) {
        Err(Problem::UnknownKey)
    } else if menu_key(letter[0]) {
        Err(Problem::ReservedKey)
    } else {
        Ok(seq!['^', text::upper_char(letter[0])])
    }
}

/// The key sequence of a completion key, as the line editor writes it.
pub fn completion_key_sequence(key: &str) -> (r: Result<String, ConfigError>)
    ensures
        match r {
            Ok(s) => key_sequence(key@) == Ok::<Seq<char>, Problem>(s@),
            Err(e) => key_sequence(key@) == Err::<Seq<char>, Problem>(e@),
        },
{
    let all = chars_of(key);
    if same_as(all.as_slice(), "ctrl-space") {
        return Ok("^@".to_string());
    }
    if !begins_with_str(all.as_slice(), "ctrl-") {
        return Err(ConfigError::UnknownKey);
    }
    proof {
        reveal_strlit("ctrl-");
    }
    let letter = from_index(all.as_slice(), 5);
    if letter.len() != 1 || !('a' <= letter[0] && letter[0] <= 'z') {
        return Err(ConfigError::UnknownKey);
    }
    let c = letter[0];
    if c == 'i' || c == 'j' || c == 'k' || c == 'm' || c == 'n' {
        return Err(ConfigError::ReservedKey);
    }
    let capital = crate::text::uppered(letter);
    let mut out = String::new();
    out.push('^');
    out.push(capital[0]);
    assert(out@ =~= seq!['^', text::upper_char(c)]);
    Ok(out)
}

/// A colour: a number of the terminal's palette, or `#RRGGBB`.
pub open spec fn color(s: Seq<char>) -> bool {
    ||| number::unsigned_value(s, 255) is Some
    ||| s.len() == 7 && s[0] == '#' && text::all_in(s.skip(1), Class::HexDigit)
}

/// Whether the setting `ui.name` is a colour.
pub fn validate_color(name: &str, value: &str) -> (r: Result<(), ConfigError>)
    ensures
        match r {
            Ok(_) => color(value@),
            Err(e) => !color(value@) && e@ == Problem::Color(name@),
        },
{
    let all = chars_of(value);
    let s = all.as_slice();
    if parse_unsigned(s, 255).is_some() {
        return Ok(());
    }
    if s.len() == 7 && s[0] == '#' && is_all(from_index(s, 1), Class::HexDigit) {
        return Ok(());
    }
    Err(ConfigError::Color { name: name.to_string() })
}

/// The colours of a menu, by the names of their settings, in order.
pub open spec fn named_colors(ui: UiSettings) -> Seq<(Seq<char>, Seq<char>)> {
    seq![
        ("border"@, ui.border@),
        ("accent"@, ui.accent@),
        ("text"@, ui.text@),
        ("muted"@, ui.muted@),
        ("ghost"@, ui.ghost_text@),
        ("selected_background"@, ui.selected_background@),
        ("selected_text"@, ui.selected_text@),
        ("selected_source"@, ui.selected_source@),
    ]
}

/// The first of some settings that is no colour.
pub open spec fn bad_color(list: Seq<(Seq<char>, Seq<char>)>) -> Option<Problem>
    decreases list.len(),
{
    if list.len() == 0 {
        None
    } else if !color(list[0].1) {
        Some(Problem::Color(list[0].0))
    } else {
        bad_color(list.drop_first())
    }
}

/// The first thing that is wrong with settings.
pub open spec fn first_problem(s: Settings) -> Option<Problem> {
    if !(1 <= s.completion.max_candidates <= 100) {
        Some(Problem::MaxCandidates)
    } else if key_sequence(s.completion.key@) is Err {
        Some(key_sequence(s.completion.key@)->Err_0)
    } else if !(40 <= s.ui.menu_width <= 120) {
        Some(Problem::MenuWidth)
    } else if !(1 <= s.ui.max_visible <= 10) {
        Some(Problem::MaxVisible)
    } else if s.ui.prompt_offset > 40 {
        Some(Problem::PromptOffset)
    } else {
        bad_color(named_colors(s.ui))
    }
}

impl Settings {
    /// Whether the settings can be used; if not, the first thing that is wrong
    /// with them.
    pub fn validate(&self) -> (r: Result<(), ConfigError>)
        ensures
            match r {
                Ok(_) => first_problem(*self) is None,
                Err(e) => first_problem(*self) == Some(e@),
            },
    {
        if self.completion.max_candidates < 1 || self.completion.max_candidates > 100 {
            return Err(ConfigError::MaxCandidates);
        }
        if let Err(error) = completion_key_sequence(self.completion.key.as_str()) {
            return Err(error);
        }
        if self.ui.menu_width < 40 || self.ui.menu_width > 120 {
            return Err(ConfigError::MenuWidth);
        }
        if self.ui.max_visible < 1 || self.ui.max_visible > 10 {
            return Err(ConfigError::MaxVisible);
        }
        if self.ui.prompt_offset > 40 {
            return Err(ConfigError::PromptOffset);
        }
        let ghost list = named_colors(self.ui);
        if let Err(error) = validate_color("border", self.ui.border.as_str()) {
            assert(list.skip(0)[0] == ("border"@, self.ui.border@));
            proof {
                lemma_colors_before(list, 0);
            }
            return Err(error);
        }
        assert(list[0] == ("border"@, self.ui.border@));
        if let Err(error) = validate_color("accent", self.ui.accent.as_str()) {
            assert(list.skip(1)[0] == ("accent"@, self.ui.accent@));
            proof {
                lemma_colors_before(list, 1);
            }
            return Err(error);
        }
        assert(list[1] == ("accent"@, self.ui.accent@));
        if let Err(error) = validate_color("text", self.ui.text.as_str()) {
            assert(list.skip(2)[0] == ("text"@, self.ui.text@));
            proof {
                lemma_colors_before(list, 2);
            }
            return Err(error);
        }
        assert(list[2] == ("text"@, self.ui.text@));
        if let Err(error) = validate_color("muted", self.ui.muted.as_str()) {
            assert(list.skip(3)[0] == ("muted"@, self.ui.muted@));
            proof {
                lemma_colors_before(list, 3);
            }
            return Err(error);
        }
        assert(list[3] == ("muted"@, self.ui.muted@));
        if let Err(error) = validate_color("ghost", self.ui.ghost_text.as_str()) {
            assert(list.skip(4)[0] == ("ghost"@, self.ui.ghost_text@));
            proof {
                lemma_colors_before(list, 4);
            }
            return Err(error);
        }
        assert(list[4] == ("ghost"@, self.ui.ghost_text@));
        if let Err(error) = validate_color("selected_background", self.ui.selected_background.as_str()) {
            assert(list.skip(5)[0] == ("selected_background"@, self.ui.selected_background@));
            proof {
                lemma_colors_before(list, 5);
            }
            return Err(error);
        }
        assert(list[5] == ("selected_background"@, self.ui.selected_background@));
        if let Err(error) = validate_color("selected_text", self.ui.selected_text.as_str()) {
            assert(list.skip(6)[0] == ("selected_text"@, self.ui.selected_text@));
            proof {
                lemma_colors_before(list, 6);
            }
            return Err(error);
        }
        assert(list[6] == ("selected_text"@, self.ui.selected_text@));
        if let Err(error) = validate_color("selected_source", self.ui.selected_source.as_str()) {
            assert(list.skip(7)[0] == ("selected_source"@, self.ui.selected_source@));
            proof {
                lemma_colors_before(list, 7);
            }
            return Err(error);
        }
        assert(list[7] == ("selected_source"@, self.ui.selected_source@));
        proof {
            lemma_colors_before(list, 8);
            assert(list.skip(8).len() == 0);
        }
        Ok(())
    }
}

proof fn lemma_colors_before(list: Seq<(Seq<char>, Seq<char>)>, n: int)
    requires
        0 <= n <= list.len(),
        forall|i: int| 0 <= i < n ==> color((#[trigger] list[i]).1),
    ensures
        bad_color(list) == bad_color(list.skip(n)),
    decreases n,
{
    if n == 0 {
        assert(list.skip(0) =~= list);
    } else {
        lemma_colors_before(list, n - 1);
        assert(list.skip(n - 1)[0] == list[n - 1]);
        assert(list.skip(n - 1).drop_first() =~= list.skip(n));
    }
}

/// The settings that nobody has changed can be used.
pub proof fn law_default_settings_are_valid(s: Settings)
    requires
        default_settings(s),
    ensures
        first_problem(s) is None,
{
    reveal_strlit("4");
    reveal_strlit("10");
    reveal_strlit("7");
    reveal_strlit("8");
    reveal_strlit("15");
    reveal_strlit("0");
    reveal_with_fuel(crate::number::decimal_value, 3);
    let list = named_colors(s.ui);
    assert forall|i: int| 0 <= i < list.len() implies color((#[trigger] list[i]).1) by {
        assert(list[i].1.len() <= 2);
        lemma_palette_number(list[i].1);
    }
    lemma_colors_before(list, list.len() as int);
    assert(list.skip(list.len() as int).len() == 0);
}

/// One or two digits are a number of the palette.
proof fn lemma_palette_number(s: Seq<char>)
    requires
        1 <= s.len() <= 2,
        text::all_in(s, Class::AsciiDigit),
    ensures
        color(s),
{
    reveal_with_fuel(crate::number::decimal_value, 3);
}

/// Valid settings name a key that can be bound and a menu that can be drawn.
pub proof fn law_valid_settings(s: Settings)
    requires
        first_problem(s) is None,
    ensures
        1 <= s.completion.max_candidates <= 100,
        key_sequence(s.completion.key@) is Ok,
        40 <= s.ui.menu_width <= 120,
        1 <= s.ui.max_visible <= 10,
        s.ui.prompt_offset <= 40,
        forall|i: int|
            0 <= i < named_colors(s.ui).len() ==> color((#[trigger] named_colors(s.ui)[i]).1),
{
    lemma_no_bad_color(named_colors(s.ui));
}

proof fn lemma_no_bad_color(list: Seq<(Seq<char>, Seq<char>)>)
    requires
        bad_color(list) is None,
    ensures
        forall|i: int| 0 <= i < list.len() ==> color((#[trigger] list[i]).1),
    decreases list.len(),
{
    if list.len() > 0 {
        lemma_no_bad_color(list.drop_first());
        assert forall|i: int| 0 <= i < list.len() implies color((#[trigger] list[i]).1) by {
            if i > 0 {
                assert(list[i] == list.drop_first()[i - 1]);
            }
        }
    }
}

// ---------------------------------------------------------------------------
// Where files are kept
// ---------------------------------------------------------------------------

/// What the environment says about where files are kept.
#[derive(Debug)]
pub struct Environment {
    pub home: Option<Vec<u8>>,
    pub aster_config: Option<Vec<u8>>,
    pub xdg_config_home: Option<Vec<u8>>,
    pub aster_state_dir: Option<Vec<u8>>,
    pub xdg_state_home: Option<Vec<u8>>,
    pub aster_socket: Option<Vec<u8>>,
    pub current_dir: Option<Vec<u8>>,
}

/// Where files are kept.
#[derive(Debug, Clone, PartialEq, Eq)]
pub struct Paths {
    pub config_file: Vec<u8>,
    pub state_dir: Vec<u8>,
    pub database_file: Vec<u8>,
    pub command_description_cache: Vec<u8>,
    pub daemon_lock_file: Vec<u8>,
    pub socket_file: Vec<u8>,
}

pub open spec fn bytes_view(s: Option<Vec<u8>>) -> Option<Seq<u8>> {
    match s {
        Some(b) => Some(b@),
        None => None,
    }
}

/// The first of two that is there.
pub open spec fn first_of(a: Option<Seq<u8>>, b: Seq<u8>) -> Seq<u8> {
    match a {
        Some(p) => p,
        None => b,
    }
}

/// The configuration file that the environment names.
pub open spec fn config_path(env: Environment) -> Seq<u8> {
    first_of(
        bytes_view(env.aster_config),
        paths::join(
            first_of(
                bytes_view(env.xdg_config_home),
                paths::join(env.home->Some_0@, encode_utf8(".config"@)),
            ),
            encode_utf8("aster/config.toml"@),
        ),
    )
}

/// The directory for state that the environment names.
pub open spec fn state_path(env: Environment) -> Seq<u8> {
    first_of(
        bytes_view(env.aster_state_dir),
        paths::join(
            first_of(
                bytes_view(env.xdg_state_home),
                paths::join(env.home->Some_0@, encode_utf8(".local/state"@)),
            ),
            encode_utf8("aster"@),
        ),
    )
}

/// A path from the root, if it is one or the working directory is known.
pub open spec fn rooted(path: Seq<u8>, current: Option<Seq<u8>>) -> Option<Seq<u8>> {
    if paths::absolute(path) {
        Some(path)
    } else {
        match current {
            Some(dir) => Some(paths::join(dir, path)),
            None => None,
        }
    }
}

/// Where the socket is, given the directory for state.
pub open spec fn socket_path(env: Environment, state_dir: Seq<u8>) -> Seq<u8> {
    first_of(bytes_view(env.aster_socket), paths::join(state_dir, encode_utf8("aster.sock"@)))
}

fn absolute_path(path: Vec<u8>, current: &Option<Vec<u8>>) -> (r: Result<Vec<u8>, ConfigError>)
    ensures
        match r {
            Ok(p) => rooted(path@, bytes_view(*current)) == Some(p@),
            Err(e) => rooted(path@, bytes_view(*current)) is None && e@
                == Problem::NoCurrentDirectory,
        },
{
    if is_absolute(path.as_slice()) {
        return Ok(path);
    }
    match current {
        Some(dir) => Ok(joined(dir.as_slice(), path.as_slice())),
        None => Err(ConfigError::NoCurrentDirectory),
    }
}

fn chosen(explicit: &Option<Vec<u8>>, base: &Option<Vec<u8>>, home: &Vec<u8>, below_home: &str, name: &str) -> (r: Vec<u8>)
    ensures
        r@ == first_of(
            bytes_view(*explicit),
            paths::join(
                first_of(bytes_view(*base), paths::join(home@, encode_utf8(below_home@))),
                encode_utf8(name@),
            ),
        ),
{
    if let Some(path) = explicit {
        return bytes_of(path.as_slice());
    }
    let base = match base {
        Some(path) => bytes_of(path.as_slice()),
        None => joined(home.as_slice(), below_home.as_bytes()),
    };
    joined(base.as_slice(), name.as_bytes())
}

impl Paths {
    /// Where files are kept in an environment.
    pub fn discover(env: &Environment) -> (r: Result<Self, ConfigError>)
        ensures
            match r {
                Ok(p) => {
                    let current = bytes_view(env.current_dir);
                    &&& env.home is Some
                    &&& rooted(config_path(*env), current) == Some(p.config_file@)
                    &&& rooted(state_path(*env), current) == Some(p.state_dir@)
                    &&& rooted(socket_path(*env, p.state_dir@), current) == Some(p.socket_file@)
                    &&& p.command_description_cache@ == paths::join(
                        p.state_dir@,
                        encode_utf8("command-descriptions.json"@),
                    )
                    &&& p.database_file@ == paths::join(p.state_dir@, encode_utf8("history.sqlite3"@))
                    &&& p.daemon_lock_file@ == paths::join(p.state_dir@, encode_utf8("daemon.lock"@))
                },
                Err(e) => if env.home is None {
                    e@ == Problem::HomeUnset
                } else {
                    let current = bytes_view(env.current_dir);
                    &&& e@ == Problem::NoCurrentDirectory
                    &&& rooted(config_path(*env), current) is None || rooted(
                        state_path(*env),
                        current,
                    ) is None || rooted(
                        socket_path(*env, rooted(state_path(*env), current)->Some_0),
                        current,
                    ) is None
                },
            },
    {
        let home = match &env.home {
            Some(home) => home,
            None => {
                return Err(ConfigError::HomeUnset);
            },
        };
        let config_file = match absolute_path(
            chosen(&env.aster_config, &env.xdg_config_home, home, ".config", "aster/config.toml"),
            &env.current_dir,
        ) {
            Ok(path) => path,
            Err(error) => {
                return Err(error);
            },
        };
        let state_dir = match absolute_path(
            chosen(&env.aster_state_dir, &env.xdg_state_home, home, ".local/state", "aster"),
            &env.current_dir,
        ) {
            Ok(path) => path,
            Err(error) => {
                return Err(error);
            },
        };
        let socket = match &env.aster_socket {
            Some(path) => bytes_of(path.as_slice()),
            None => joined(state_dir.as_slice(), "aster.sock".as_bytes()),
        };
        let socket_file = match absolute_path(socket, &env.current_dir) {
            Ok(path) => path,
            Err(error) => {
                return Err(error);
            },
        };
        Ok(
            Paths {
                config_file,
                command_description_cache: joined(
                    state_dir.as_slice(),
                    "command-descriptions.json".as_bytes(),
                ),
                database_file: joined(state_dir.as_slice(), "history.sqlite3".as_bytes()),
                daemon_lock_file: joined(state_dir.as_slice(), "daemon.lock".as_bytes()),
                state_dir,
                socket_file,
            },
        )
    }

    /// The directories that only the user may see: the one for state, and the
    /// one that the socket is in.
    pub fn ensure_directories(&self) -> (r: Vec<Vec<u8>>)
        ensures
            r@.len() == if paths::parent(self.socket_file@) is Some {
                2nat
            } else {
                1nat
            },
            r@[0]@ == self.state_dir@,
            paths::parent(self.socket_file@) is Some ==> r@[1]@ == paths::parent(self.socket_file@)->Some_0,
    {
        let mut list: Vec<Vec<u8>> = Vec::new();
        list.push(bytes_of(self.state_dir.as_slice()));
        if let Some(dir) = parent_of(self.socket_file.as_slice()) {
            list.push(bytes_of(dir));
        }
        list
    }
}

/// With a home and a working directory, both from the root, every place is
/// found, and every place is one from the root.
pub proof fn law_paths_are_absolute(env: Environment)
    requires
        env.home is Some,
        env.current_dir is Some,
        paths::absolute(env.current_dir->Some_0@),
    ensures
        ({
            let current = bytes_view(env.current_dir);
            let state = rooted(state_path(env), current);
            let socket = rooted(socket_path(env, state->Some_0), current);
            &&& rooted(config_path(env), current) is Some
            &&& paths::absolute(rooted(config_path(env), current)->Some_0)
            &&& state is Some
            &&& paths::absolute(state->Some_0)
            &&& socket is Some
            &&& paths::absolute(socket->Some_0)
        }),
{
}

/// What the file system says of a directory.
#[derive(Debug, Clone, Copy)]
pub struct DirectoryFacts {
    pub is_dir: bool,
    pub owner: u32,
    pub mode: u32,
}

/// The permissions that a directory is given: one that was there keeps its own.
pub fn private_mode(existed: bool) -> (r: Option<u32>)
    ensures
        r == if existed {
            None
        } else {
            Some(0o700u32)
        },
{
    if existed {
        None
    } else {
        Some(0o700)
    }
}

/// Why a directory is not the user's alone.
pub open spec fn directory_problem(facts: DirectoryFacts, user: u32) -> Option<Problem> {
    if !facts.is_dir || facts.owner != user {
        Some(Problem::DirectoryNotOwned)
    } else if facts.mode & 0o077 != 0 {
        Some(Problem::DirectoryNotPrivate)
    } else {
        None
    }
}

/// Whether a directory is the user's alone.
pub fn check_private_dir(facts: DirectoryFacts, user: u32) -> (r: Result<(), ConfigError>)
    ensures
        match r {
            Ok(_) => directory_problem(facts, user) is None,
            Err(e) => directory_problem(facts, user) == Some(e@),
        },
{
    if !facts.is_dir || facts.owner != user {
        return Err(ConfigError::DirectoryNotOwned);
    }
    if facts.mode & 0o077 != 0 {
        return Err(ConfigError::DirectoryNotPrivate);
    }
    Ok(())
}

/// A directory made with private permissions passes, whoever made it first.
pub proof fn law_private_mode_passes(owner: u32)
    ensures
        directory_problem(
            DirectoryFacts { is_dir: true, owner, mode: 0o700 },
            owner,
        ) is None,
{
    assert(0o700u32 & 0o077 == 0) by (bit_vector);
}

} // verus!
