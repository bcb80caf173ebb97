//! The command line.

use marqi::cli::{help, printable, Action, Cli, CliError};

fn args(list: &[&str]) -> Vec<String> {
    list.iter().map(|s| s.to_string()).collect()
}

fn parse(list: &[&str]) -> Cli {
    match Cli::parse(args(list)) {
        Ok(cli) => cli,
        Err(_) => panic!("the command line is refused"),
    }
}

#[test]
fn parses_render_alias_and_config_path() {
    let cli = parse(&["-c", "cfg", "-r", "doc.md"]);
    assert_eq!(cli.config_path.as_deref(), Some("cfg"));
    match cli.action {
        Action::Render(options) => assert_eq!(options.path, "doc.md"),
        _ => panic!("expected render action"),
    }
}

#[test]
fn parses_render_file_after_later_options() {
    let cli = parse(&["-r", "-c", "cfg", "doc.md"]);
    assert_eq!(cli.config_path.as_deref(), Some("cfg"));
    match cli.action {
        Action::Render(options) => assert_eq!(options.path, "doc.md"),
        _ => panic!("expected render action"),
    }
}

#[test]
fn parses_edit_file_with_config_path() {
    let cli = parse(&["--config", "cfg", "doc.md"]);
    assert_eq!(cli.config_path.as_deref(), Some("cfg"));
    match cli.action {
        Action::Edit(path) => assert_eq!(path.as_deref(), Some("doc.md")),
        _ => panic!("expected edit action"),
    }
}

#[test]
fn missing_render_file_is_an_error() {
    assert!(Cli::parse(args(&["-r"])).is_err());
}

#[test]
fn config_value_must_not_look_like_a_flag() {
    assert!(Cli::parse(args(&["-c", "-r", "doc.md"])).is_err());
}

#[test]
fn extra_render_file_is_an_error() {
    assert!(Cli::parse(args(&["-r", "a.md", "b.md"])).is_err());
}

#[test]
fn parses_render_stdin_width_and_html() {
    let cli = parse(&["--render", "-", "--width", "42", "--html"]);
    match cli.action {
        Action::Render(options) => {
            assert_eq!(options.path, "-");
            assert_eq!(options.width, Some(42));
            assert!(options.html);
        }
        _ => panic!("expected render action"),
    }
}

#[test]
fn render_output_strips_control_characters() {
    assert_eq!(printable("a\x1b]0;x\x07b\tc"), "a\u{fffd}]0;x\u{fffd}b\tc");
}

#[test]
fn parses_inline_option_values() {
    let cli = parse(&["--render", "-", "--width=42", "--config=cfg.toml"]);
    assert_eq!(cli.config_path.as_deref(), Some("cfg.toml"));
    match cli.action {
        Action::Render(options) => assert_eq!(options.width, Some(42)),
        _ => panic!("expected render action"),
    }
}

#[test]
fn render_options_require_render_mode_and_valid_width() {
    assert!(Cli::parse(args(&["--width", "0", "doc.md"])).is_err());
    assert!(Cli::parse(args(&["-r", "doc.md", "--width", "20000"])).is_err());
    assert!(Cli::parse(args(&["--html", "doc.md"])).is_err());
}

#[test]
fn double_dash_allows_dash_prefixed_filenames() {
    let cli = parse(&["--", "-r"]);
    match cli.action {
        Action::Edit(path) => assert_eq!(path.as_deref(), Some("-r")),
        _ => panic!("expected edit action"),
    }
}

#[test]
fn every_refusal_has_its_reason() {
    assert!(matches!(
        Cli::parse(args(&["a.md", "b.md"])),
        Err(CliError::ExtraArgument)
    ));
    assert!(matches!(
        Cli::parse(args(&["-r", "a.md", "--width"])),
        Err(CliError::MissingWidth)
    ));
    assert!(matches!(
        Cli::parse(args(&["-r", "a.md", "--width", "wide"])),
        Err(CliError::InvalidWidth)
    ));
    assert!(matches!(
        Cli::parse(args(&["--config"])),
        Err(CliError::MissingConfig)
    ));
    match Cli::parse(args(&["--loud"])) {
        Err(CliError::UnknownOption(name)) => assert_eq!(name, "--loud"),
        _ => panic!("expected an unknown option"),
    }
    assert!(matches!(
        Cli::parse(args(&["-r"])),
        Err(CliError::MissingRenderFile)
    ));
    assert!(matches!(
        Cli::parse(args(&["--html", "a.md"])),
        Err(CliError::RenderOptionWithoutRender)
    ));
    assert!(matches!(
        Cli::parse(args(&["-"])),
        Err(CliError::StdinWithoutRender)
    ));
    assert_eq!(
        CliError::InvalidWidth.message("help"),
        "render width must be between 1 and 10000"
    );
}

#[test]
fn help_and_version_are_recognised() {
    assert!(matches!(parse(&["--help"]).action, Action::Help));
    assert!(matches!(parse(&["--version"]).action, Action::Version));
    assert!(help(Some("/home/me/config.toml")).contains("/home/me/config.toml"));
}

#[test]
fn a_dash_after_the_dashes_is_a_filename() {
    let cli = parse(&["--", "-"]);
    assert_eq!(cli.config_path, None);
    assert!(matches!(cli.action, Action::Edit(Some(path)) if path == "-"));
    assert!(matches!(Cli::parse(args(&["-"])), Err(CliError::StdinWithoutRender)));
    for (list, stdin) in [(["-r", "--", "-"].as_slice(), false), (["-r", "-"].as_slice(), true)] {
        match parse(list).action {
            Action::Render(options) => assert_eq!((options.path.as_str(), options.stdin), ("-", stdin)),
            _ => panic!("expected render action"),
        }
    }
}
