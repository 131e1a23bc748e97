use aster::config::{ConfigError, Settings};
use aster::integration::zsh_integration;
use aster::paths::is_env_file;
use aster::preview::ansi::{parse_ansi_preview_line, AnsiStyle};
use aster::preview::command::{
    command_preview_argv, command_preview_lines, command_stream, output_preview,
    preview_environment,
};
use aster::preview::error::PreviewError;
use aster::preview::file::{
    check_target, file_kind, file_preview, preview_from_text, preview_path, show_text, FileKind,
    TargetFacts,
};

#[test]
fn suppresses_env_file_previews() {
    for name in [".env", ".env.local", ".environment"] {
        let path = format!("/tmp/somewhere/{name}");
        assert!(is_env_file(path.as_bytes()));
        assert_eq!(preview_path(path.as_bytes(), b"/tmp"), Err(PreviewError::EnvFile));
        assert_eq!(preview_path(name.as_bytes(), b"/tmp"), Err(PreviewError::EnvFile));
    }
    assert!(!is_env_file(b"/tmp/somewhere/example.env"));
    assert_eq!(preview_path(b"example.env", b"/tmp"), Ok(b"/tmp/example.env".to_vec()));
    assert_eq!(PreviewError::EnvFile.message(), "preview disabled for .env files");
}

#[test]
fn previews_ls_without_a_shell() {
    let (executable, _) = command_preview_argv("ls", true).unwrap();
    assert_eq!(executable, "ls");
    let lines = command_preview_lines(b"alpha.txt\nbeta.txt\n", b"");
    let preview =
        lines.iter().map(|line| line.text.as_str()).collect::<Vec<_>>().join("\n");
    assert!(preview.contains("alpha.txt"));
    assert!(preview.contains("beta.txt"));
}

#[test]
fn command_preview_rejects_shell_syntax_and_other_commands() {
    assert_eq!(command_preview_argv("ls; rm -rf /", true), Err(PreviewError::ShellSyntax));
    assert_eq!(command_preview_argv("echo hello", true), Err(PreviewError::OtherCommand));
    assert_eq!(command_preview_argv("/bin/ls", true), Err(PreviewError::OtherCommand));
    assert_eq!(command_preview_argv("", true), Err(PreviewError::ShellSyntax));
    assert_eq!(command_preview_argv("   ", true), Err(PreviewError::NoCommand));
    assert_eq!(command_preview_argv("ls ~", true), Err(PreviewError::ShellSyntax));
    assert_eq!(command_preview_argv("ls a\\b", true), Err(PreviewError::ShellSyntax));
    assert_eq!(
        command_preview_argv(&format!("ls {}", "x".repeat(16_382)), true),
        Err(PreviewError::ShellSyntax)
    );
    assert!(command_preview_argv(&format!("ls {}", "x".repeat(16_381)), true).is_ok());
    assert_eq!(
        PreviewError::OtherCommand.message(),
        "command preview only supports ls, gls, and eza"
    );
}

#[test]
fn eza_preview_forces_colored_bounded_output() {
    let (executable, arguments) = command_preview_argv(
        "eza -l -G --icons=always --colour=always --hyperlink preview-target",
        true,
    )
    .unwrap();
    assert_eq!(executable, "eza");
    assert!(arguments.contains(&"-l".to_owned()));
    assert!(arguments.contains(&"-G".to_owned()));
    assert!(arguments.contains(&"preview-target".to_owned()));
    assert!(arguments.contains(&"--color=always".to_owned()));
    assert!(arguments.contains(&"--icons=never".to_owned()));
    assert!(arguments.contains(&"--width=80".to_owned()));
    assert!(!arguments.iter().any(|argument| argument == "--hyperlink"));
    assert!(!arguments.iter().any(|argument| argument == "--icons=always"));
    assert!(!arguments.iter().any(|argument| argument == "--colour=always"));
}

#[test]
fn ls_is_asked_for_plain_output_where_it_knows_how() {
    let linux = command_preview_argv("ls -G --dired -a", true).unwrap().1;
    assert_eq!(linux, ["-a", "--color=never", "--hyperlink=never"]);
    let other = command_preview_argv("ls -G -a", false).unwrap().1;
    assert_eq!(other, ["-a"]);
    let gls = command_preview_argv("gls", false).unwrap().1;
    assert_eq!(gls, ["--color=never", "--hyperlink=never"]);
    assert!(preview_environment("eza").contains(&("NO_COLOR", None)));
    assert!(preview_environment("ls").contains(&("NO_COLOR", Some("1"))));
    assert!(preview_environment("ls").contains(&("TERM", Some("dumb"))));
}

#[test]
fn converts_ansi_colors_to_zle_style_spans() {
    let line =
        parse_ansi_preview_line("\x1b[31;1mred\x1b[0m plain \x1b[38;2;1;2;3;4mcolor\x1b[0m");
    assert_eq!(line.text, "red plain color");
    assert_eq!(line.styles, "0:3:fg=1,bold;10:15:fg=#010203,underline");
}

fn style_after(parameters: &str) -> String {
    let mut style = AnsiStyle::default();
    let characters: Vec<char> = parameters.chars().collect();
    style.apply_sgr(&characters);
    style.zle().into_iter().collect()
}

#[test]
fn each_parameter_has_its_style() {
    assert_eq!(style_after("1;4;7"), "bold,underline,standout");
    assert_eq!(style_after("1;4;7;22;24;27"), "");
    assert_eq!(style_after("37;40"), "fg=7,bg=0");
    assert_eq!(style_after("90;107"), "fg=8,bg=15");
    assert_eq!(style_after("31;41;39;49"), "");
    assert_eq!(style_after("38;5;255;48;5;256"), "fg=255");
    assert_eq!(style_after("38;2;300;0;16"), "fg=#ff0010");
    assert_eq!(style_after("31;38;5"), "");
    assert_eq!(style_after("48;2;1;2"), "bold");
    assert_eq!(style_after("1;x"), "");
    assert_eq!(style_after("1;"), "");
    assert_eq!(style_after(""), "");
}

#[test]
fn other_sequences_are_left_out() {
    assert_eq!(parse_ansi_preview_line("a\x1b[2Kb").text, "ab");
    assert_eq!(parse_ansi_preview_line("a\x1b]8;;http://x\x07b").text, "ab");
    assert_eq!(parse_ansi_preview_line("a\x1b]8;;http://x\x1b\\b").text, "ab");
    assert_eq!(parse_ansi_preview_line("a\x1b(Bb").text, "aBb");
    assert_eq!(parse_ansi_preview_line("a\x1b").text, "a");
    assert_eq!(parse_ansi_preview_line("a\x1b[12").text, "a12");
    assert_eq!(parse_ansi_preview_line("\ta\u{e9}\u{7}").text, " a?");
    assert_eq!(parse_ansi_preview_line(&"x".repeat(200)).text.len(), 160);
}

#[test]
fn empty_lines_of_an_output_are_left_out() {
    let lines = output_preview("a\n\n\x1b[0m\nb\r\nc\nd\ne\nf\ng\nh\ni\n");
    let texts: Vec<&str> = lines.iter().map(|line| line.text.as_str()).collect();
    assert_eq!(texts, ["a", "b", "c", "d", "e", "f", "g", "h"]);
    assert_eq!(command_preview_lines(b"", b"failed\n")[0].text, "failed");
    assert_eq!(command_preview_lines(b"a\xffb\n", b"failed\n")[0].text, "a?b");
    let red = output_preview("\x1b[31mred\n");
    assert_eq!(command_stream(&red), b"red\x000:3:fg=1\0");
}

#[test]
fn files_are_known_by_their_first_bytes() {
    assert_eq!(file_kind(b"\x89PNG\r\n\x1a\n..."), FileKind::Png);
    assert_eq!(file_kind(b"\xff\xd8\xff\xe0"), FileKind::Jpeg);
    assert_eq!(file_kind(b"GIF87a"), FileKind::Gif);
    assert_eq!(file_kind(b"GIF89a"), FileKind::Gif);
    assert_eq!(file_kind(b"GIF88a"), FileKind::Text);
    assert_eq!(file_kind(b"%PDF-1.7"), FileKind::Pdf);
    assert_eq!(file_kind(b"a\0b"), FileKind::Binary);
    assert_eq!(file_kind(b""), FileKind::Text);
}

#[test]
fn previews_of_files_are_bounded_and_printable() {
    assert_eq!(
        file_preview(7, b"a\tb\xff\n"),
        ["Type: text file", "Size: 7 bytes", "a b?"]
    );
    assert_eq!(
        file_preview(9, b"%PDF-1.7"),
        [
            "Type: PDF document",
            "Size: 9 bytes",
            "Graphical preview requires the future PTY frontend"
        ]
    );
    assert_eq!(preview_from_text(FileKind::Binary, 3, "abc"), ["Type: binary file", "Size: 3 bytes"]);
    let long = "x".repeat(200) + "\n" + &"y\n".repeat(20);
    let shown = show_text(&long);
    assert_eq!(shown.len(), 8);
    assert_eq!(shown[0].len(), 160);
    let file = TargetFacts { is_symlink: false, is_file: true };
    assert_eq!(check_target(file), Ok(()));
    let link = TargetFacts { is_symlink: true, is_file: true };
    assert_eq!(check_target(link), Err(PreviewError::NotAFile));
    let directory = TargetFacts { is_symlink: false, is_file: false };
    assert_eq!(check_target(directory), Err(PreviewError::NotAFile));
}

#[test]
fn zsh_integration_uses_configured_completion_key() {
    let mut settings = Settings::default();
    let integration = zsh_integration(&settings).unwrap();
    assert!(integration.contains("bindkey '^@' aster-complete"));
    assert!(integration.contains("Ctrl-Space full"));
    assert!(integration.contains("bindkey '^[[Z' aster-shift-tab"));
    assert!(integration.contains("--format zsh-v3"));
    assert!(integration.contains("_ASTER_MENU_REFRESH_TICKS=5"));
    assert!(integration.contains("zle -C aster-native-capture"));
    assert!(integration.contains("descriptions+=(\"Zsh completion\")"));
    assert!(integration.contains("${(@)region_highlight:#*memo=aster*}"));
    assert!(integration.contains("_ASTER_FOREIGN_HIGHLIGHTS"));
    assert!(integration.contains("_ASTER_MENU_RESTORE_INDEX"));
    assert!(!integration.contains("_ASTER_MENU_RESTORE_DISPLAY"));
    assert!(!integration.contains("select-pane"));
    assert!(!integration.contains("ASTER_TMUX_SHELL_TITLE"));
    assert!(!integration.contains("aster-menu-enter"));
    assert!(!integration.contains("bindkey '^M' aster"));
    assert!(integration.contains("bindkey -M aster-fuzzy '^M' aster-fuzzy-execute"));
    assert!(!integration.contains("__ASTER_COMPLETION_KEY__"));
    assert!(!integration.contains("__ASTER_UI_"));

    settings.completion.key = "ctrl-x".to_owned();
    settings.ui.selected_background = "#3a3228".to_owned();
    let integration = zsh_integration(&settings).unwrap();
    assert!(integration.contains("bindkey '^X' aster-complete"));
    assert!(integration.contains("bg=#3a3228"));
    assert!(integration.contains("Ctrl-X full"));

    settings.completion.key = "ctrl-m".to_owned();
    assert_eq!(zsh_integration(&settings), Err(ConfigError::ReservedKey));
}
