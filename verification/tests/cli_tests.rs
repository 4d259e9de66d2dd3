use playlist_formatter::cli::{Args, CliConfig, FormattingStyle, Level, LevelFilter};
use playlist_formatter::types::OutputFormat;

fn args() -> Args {
    Args {
        file: "playlist.txt".into(),
        output: None,
        default: false,
        force: false,
        log: None,
        basic: false,
        numbered: false,
        quiet: false,
        save: None,
        output_format: None,
    }
}

#[test]
fn cli_config_basic() {
    // Simulating "--basic"
    let args = Args {
        file: "playlist.txt".into(),
        output: None,
        default: false,
        force: false,
        log: None,
        basic: true,
        numbered: false,
        quiet: false,
        save: None,
        output_format: None,
    };
    let config = CliConfig::from_args(args);
    assert_eq!(config.style, FormattingStyle::Basic);
    assert_eq!(config.output_path, None);
}

#[test]
fn cli_config_with_output_and_force() {
    // Simulating "--output some/path --force"
    let args = Args {
        file: "playlist.txt".into(),
        output: Some("some/path/playlist-2024".into()),
        default: false,
        force: true,
        log: None,
        basic: false,
        numbered: false,
        quiet: false,
        save: None,
        output_format: None,
    };

    let config = CliConfig::from_args(args);

    assert!(config.force);
    assert!(config.save);
    assert_eq!(config.output_path, Some("some/path/playlist-2024".into()));
}

#[test]
fn cli_config_with_save() {
    // Simulating "--save"
    let args = Args {
        file: "playlist.txt".into(),
        output: None,
        default: false,
        force: false,
        log: None,
        basic: false,
        numbered: false,
        quiet: false,
        save: Some(None),
        output_format: None,
    };

    let config = CliConfig::from_args(args);

    assert!(config.save);
    assert_eq!(config.output_path, None);
}

#[test]
fn cli_config_with_save_with_path() {
    // Simulating "--save playlist1.csv"
    let args = Args {
        file: "playlist.txt".into(),
        output: None,
        default: false,
        force: false,
        log: None,
        basic: false,
        numbered: false,
        quiet: false,
        save: Some(Some("playlist1.csv".to_string())),
        output_format: None,
    };

    let config = CliConfig::from_args(args);

    assert!(config.save);
    assert_eq!(config.output_path, Some("playlist1.csv".to_string()));
}

#[test]
fn cli_config_without_flags_is_the_default() {
    let config = CliConfig::from_args(args());
    assert_eq!(config.style, FormattingStyle::Pretty);
    assert!(!config.save);
    assert!(!config.force);
    assert!(!config.default);
    assert!(!config.quiet);
    assert_eq!(config.output_path, None);
    assert_eq!(config.output_format, OutputFormat::Xlsx);

    let default = CliConfig::default();
    assert_eq!(default.style, FormattingStyle::Pretty);
    assert_eq!(default.output_format, OutputFormat::Xlsx);
    assert!(!default.save);
}

#[test]
fn cli_config_numbered_and_basic_before_numbered() {
    let mut numbered = args();
    numbered.numbered = true;
    assert_eq!(CliConfig::from_args(numbered).style, FormattingStyle::Numbered);

    let mut both = args();
    both.basic = true;
    both.numbered = true;
    assert_eq!(CliConfig::from_args(both).style, FormattingStyle::Basic);
}

#[test]
fn cli_config_save_wins_over_output() {
    let mut both = args();
    both.save = Some(Some("saved.txt".to_string()));
    both.output = Some("output.csv".to_string());
    both.output_format = Some(OutputFormat::Txt);
    both.quiet = true;
    both.default = true;
    let config = CliConfig::from_args(both);
    assert!(config.save);
    assert!(config.quiet);
    assert!(config.default);
    assert_eq!(config.output_path, Some("saved.txt".to_string()));
    assert_eq!(config.output_format, OutputFormat::Txt);
}

#[test]
fn names_of_levels_and_styles() {
    assert_eq!(Level::Trace.name(), "Trace");
    assert_eq!(Level::Debug.name(), "Debug");
    assert_eq!(Level::Info.name(), "Info");
    assert_eq!(Level::Warn.name(), "Warn");
    assert_eq!(Level::Error.name(), "Error");
    assert_eq!(FormattingStyle::Basic.name(), "Basic");
    assert_eq!(FormattingStyle::Numbered.name(), "Numbered");
    assert_eq!(FormattingStyle::Pretty.name(), "Pretty");
    assert_eq!(FormattingStyle::default(), FormattingStyle::Pretty);
}

#[test]
fn level_to_log_filter() {
    assert_eq!(Level::Trace.to_log_filter(), LevelFilter::Trace);
    assert_eq!(Level::Debug.to_log_filter(), LevelFilter::Debug);
    assert_eq!(Level::Info.to_log_filter(), LevelFilter::Info);
    assert_eq!(Level::Warn.to_log_filter(), LevelFilter::Warn);
    assert_eq!(Level::Error.to_log_filter(), LevelFilter::Error);
}
