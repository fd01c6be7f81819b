use agent_terminal::cli::{
    options_from, parse_ambiguous_width, parse_cli_options, parse_cli_options_from, parse_theme,
    AmbiguousWidth, CliOptions, FoundOptions, Theme,
};

fn parse(args: &[&str]) -> CliOptions {
    parse_cli_options_from(args.iter().map(|arg| arg.to_string()).collect()).expect("options")
}

#[test]
fn ambiguous_width_defaults_to_single() {
    let cli = parse(&[]);
    assert_eq!(cli.ambiguous_width, AmbiguousWidth::Single);
}

#[test]
fn ambiguous_width_accepts_double() {
    let cli = parse(&["--ambiguous-width", "double"]);
    assert_eq!(cli.ambiguous_width, AmbiguousWidth::Double);
}

#[test]
fn theme_defaults_to_default() {
    let cli = parse(&[]);
    assert_eq!(cli.theme, Theme::Default);
}

#[test]
fn theme_accepts_eye_care() {
    let cli = parse(&["--theme", "eye-care"]);
    assert_eq!(cli.theme, Theme::EyeCare);
}

#[test]
fn input_log_file_argument_parses() {
    let cli = parse(&["--input-log-file", "/tmp/agent-input.jsonl"]);
    assert_eq!(cli.input_log_file.as_deref(), Some("/tmp/agent-input.jsonl"));
}

#[test]
fn cursor_slide_enabled_by_default() {
    let cli = parse(&[]);
    assert!(!cli.no_cursor_slide);
}

#[test]
fn cursor_slide_can_be_disabled() {
    let cli = parse(&["--no-cursor-slide"]);
    assert!(cli.no_cursor_slide);
}

#[test]
fn force_vertical_cursor_defaults_to_disabled() {
    let cli = parse(&[]);
    assert!(!cli.force_vertical_cursor);
}

#[test]
fn force_vertical_cursor_flag_parses() {
    let cli = parse(&["--force-vertical-cursor"]);
    assert!(cli.force_vertical_cursor);
}

#[test]
fn cursor_trail_defaults_to_disabled() {
    let cli = parse(&[]);
    assert!(!cli.cursor_trail);
}

#[test]
fn cursor_trail_flag_parses() {
    let cli = parse(&["--cursor-trail"]);
    assert!(cli.cursor_trail);
}

#[test]
fn font_fallback_accepts_repeated_and_comma_separated_values() {
    let cli = parse(&[
        "--font-fallback",
        "Symbols Nerd Font Mono,Apple Symbols",
        "--font-fallback",
        "Noto Sans Symbols",
    ]);
    assert_eq!(
        cli.font_fallbacks,
        vec![
            "Symbols Nerd Font Mono".to_string(),
            "Apple Symbols".to_string(),
            "Noto Sans Symbols".to_string()
        ]
    );
}

#[test]
fn double_width_char_accepts_repeated_and_comma_separated_values() {
    let cli = parse(&["--double-width-char", "↑,↓", "--double-width-char", "↕"]);
    assert_eq!(
        cli.double_width_chars,
        vec!["↑".to_string(), "↓".to_string(), "↕".to_string()]
    );
}

#[test]
fn other_options_and_their_defaults() {
    let none = parse(&[]);
    assert_eq!(none.font_family, "Menlo");
    assert!(none.font_fallbacks.is_empty());
    assert!(none.double_width_chars.is_empty());
    assert!(!none.self_check && !none.show_status_bar && !none.input_log_raw);
    assert!(!none.no_option_as_meta && !none.debug_http && !none.debug_http_allow_remote);
    assert_eq!(none.debug_http_token, None);
    assert_eq!(none.input_log_file, None);

    let all = parse(&[
        "--font-family",
        "JetBrains Mono, Regular",
        "--self-check",
        "--show-status-bar",
        "--input-log-raw",
        "--no-option-as-meta",
        "--debug-http",
        "--debug-http-token",
        "t",
        "--debug-http-allow-remote",
    ]);
    assert_eq!(all.font_family, "JetBrains Mono, Regular");
    assert!(all.self_check && all.show_status_bar && all.input_log_raw);
    assert!(all.no_option_as_meta && all.debug_http && all.debug_http_allow_remote);
    assert_eq!(all.debug_http_token.as_deref(), Some("t"));
}

#[test]
fn the_program_is_called_by_its_name() {
    let args = vec!["--cursor-trail".to_string()];
    assert!(parse_cli_options("terminal", args).expect("options").cursor_trail);
    let help = parse_cli_options("terminal", vec!["--help".to_string()]).unwrap_err();
    assert!(help.message.contains("Usage: terminal [OPTIONS]"));
}

#[test]
fn mistakes_on_the_command_line_are_told() {
    let unknown = parse_cli_options_from(vec!["--no-such-option".to_string()]).unwrap_err();
    assert_eq!(unknown.exit_code, 2);
    assert!(unknown.message.contains("--no-such-option"));

    let missing = parse_cli_options_from(vec!["--theme".to_string()]).unwrap_err();
    assert_eq!(missing.exit_code, 2);

    let help = parse_cli_options_from(vec!["--help".to_string()]).unwrap_err();
    assert_eq!(help.exit_code, 0);

    let theme =
        parse_cli_options_from(vec!["--theme".to_string(), "loud".to_string()]).unwrap_err();
    assert_eq!(theme.exit_code, 2);
    assert_eq!(
        theme.message,
        "error: invalid value 'loud' for '--theme <THEME>'\n  [possible values: default, eye-care]\n\nFor more information, try '--help'.\n"
    );

    let width =
        parse_cli_options_from(vec!["--ambiguous-width=triple".to_string()]).unwrap_err();
    assert!(width.message.contains("[possible values: single, double]"));
}

fn found(theme: &str, ambiguous_width: &str) -> FoundOptions {
    FoundOptions {
        self_check: false,
        show_status_bar: true,
        font_family: "Hack".to_string(),
        font_fallbacks: vec!["A".to_string()],
        double_width_chars: vec![],
        ambiguous_width: ambiguous_width.to_string(),
        theme: theme.to_string(),
        input_log_file: None,
        input_log_raw: false,
        no_cursor_slide: true,
        force_vertical_cursor: false,
        cursor_trail: true,
        no_option_as_meta: false,
        debug_http: true,
        debug_http_token: Some("secret".to_string()),
        debug_http_allow_remote: false,
    }
}

#[test]
fn what_was_found_becomes_options() {
    let options = options_from(found("eye-care", "double")).expect("options");
    assert!(options.show_status_bar && options.no_cursor_slide && options.cursor_trail);
    assert!(!options.self_check && !options.input_log_raw);
    assert_eq!(options.font_family, "Hack");
    assert_eq!(options.font_fallbacks, vec!["A".to_string()]);
    assert_eq!(options.ambiguous_width, AmbiguousWidth::Double);
    assert_eq!(options.theme, Theme::EyeCare);
    assert_eq!(options.debug_http_token.as_deref(), Some("secret"));
    assert!(options_from(found("loud", "double")).is_none());
    assert!(options_from(found("default", "triple")).is_none());

    assert_eq!(parse_theme("default"), Some(Theme::Default));
    assert_eq!(parse_theme("Default"), None);
    assert_eq!(parse_ambiguous_width("single"), Some(AmbiguousWidth::Single));
}

#[test]
fn values_are_checked() {
    let empty = parse_cli_options_from(vec!["--input-log-file".to_string(), String::new()])
        .unwrap_err();
    assert!(empty.message.contains("--input-log-file <INPUT_LOG_FILE>"));
    let twice = parse_cli_options_from(vec![
        "--theme=default".to_string(),
        "--theme=default".to_string(),
    ])
    .unwrap_err();
    assert!(twice.message.contains("cannot be used multiple times"));
    let help = parse_cli_options_from(vec!["--help".to_string()]).unwrap_err();
    assert!(help.message.contains("Usage: agent_terminal [OPTIONS]"));
    assert!(help.message.contains("--font-family <FONT_FAMILY>"));
    assert!(help.message.contains("[default: Menlo]"));
    assert!(help.message.contains("Disable smooth cursor slide animation"));
    assert!(help.message.contains("[possible values: default, eye-care]"));
}
