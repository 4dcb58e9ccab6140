use edepot::cli::{parse_args, parse_log_level, CliOutcome, LogLevel};

fn args(a: &[&str]) -> Vec<String> {
    a.iter().map(|s| s.to_string()).collect()
}

fn run_of(o: CliOutcome) -> (String, String) {
    match o {
        CliOutcome::Run(a) => (a.command, a.config_path),
        other => panic!("expected a command to run, got {:?}", other),
    }
}

#[test]
fn test_parse_args_no_args() {
    assert!(matches!(parse_args(&args(&[])), CliOutcome::MissingCommand));
    assert!(matches!(parse_args(&args(&["edepot"])), CliOutcome::MissingCommand));
}

#[test]
fn parse_args_help() {
    assert!(matches!(parse_args(&args(&["edepot", "-h"])), CliOutcome::Help));
    assert!(matches!(parse_args(&args(&["edepot", "--help", "start"])), CliOutcome::Help));
}

#[test]
fn parse_args_commands_and_default_path() {
    assert_eq!(
        run_of(parse_args(&args(&["edepot", "start"]))),
        ("start".to_string(), "config.toml".to_string())
    );
    assert_eq!(
        run_of(parse_args(&args(&["edepot", "check"]))),
        ("check".to_string(), "config.toml".to_string())
    );
}

#[test]
fn parse_args_config_options() {
    assert_eq!(
        run_of(parse_args(&args(&["edepot", "check", "-c", "/etc/edepot.toml"]))),
        ("check".to_string(), "/etc/edepot.toml".to_string())
    );
    assert_eq!(
        run_of(parse_args(&args(&["edepot", "start", "--config", "a.toml", "-c", "b.toml"]))),
        ("start".to_string(), "b.toml".to_string())
    );
}

#[test]
fn parse_args_refusals() {
    match parse_args(&args(&["edepot", "stop"])) {
        CliOutcome::UnknownCommand(c) => assert_eq!(c, "stop"),
        other => panic!("unexpected {:?}", other),
    }
    match parse_args(&args(&["edepot", "start", "-c"])) {
        CliOutcome::MissingValue(o) => assert_eq!(o, "-c"),
        other => panic!("unexpected {:?}", other),
    }
    match parse_args(&args(&["edepot", "check", "--verbose"])) {
        CliOutcome::UnknownOption(o) => assert_eq!(o, "--verbose"),
        other => panic!("unexpected {:?}", other),
    }
    match parse_args(&args(&["edepot", "check", "-c", "x", "--config"])) {
        CliOutcome::MissingValue(o) => assert_eq!(o, "--config"),
        other => panic!("unexpected {:?}", other),
    }
}

#[test]
fn log_levels_in_any_case() {
    assert_eq!(parse_log_level("trace"), Some(LogLevel::Trace));
    assert_eq!(parse_log_level("DEBUG"), Some(LogLevel::Debug));
    assert_eq!(parse_log_level("Info"), Some(LogLevel::Info));
    assert_eq!(parse_log_level("warn"), Some(LogLevel::Warn));
    assert_eq!(parse_log_level("ERROR"), Some(LogLevel::Error));
    assert_eq!(parse_log_level("verbose"), None);
    assert_eq!(parse_log_level(""), None);
}
