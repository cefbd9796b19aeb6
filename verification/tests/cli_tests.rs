use devil::cli::{cli_error_message, parse_args, usage_lines, CliError, Command};
use devil::order::{str_eq, str_le};

fn strings(v: &[&str]) -> Vec<String> {
    v.iter().map(|s| s.to_string()).collect()
}

#[test]
fn no_arguments_asks_for_the_usage_summary() {
    let r = parse_args(&Vec::new());
    assert_eq!(r, Ok(Command::ShowUsage));
}

#[test]
fn project_command_parses_name_and_language() {
    let r = parse_args(&strings(&["project", "foo", "rust"]));
    assert_eq!(
        r,
        Ok(Command::Project { name: "foo".to_string(), language: "rust".to_string() })
    );
}

#[test]
fn project_with_wrong_arity_is_refused() {
    assert_eq!(parse_args(&strings(&["project", "foo"])), Err(CliError::ProjectUsage));
    assert_eq!(
        parse_args(&strings(&["project", "foo", "rust", "extra"])),
        Err(CliError::ProjectUsage)
    );
}

#[test]
fn status_without_path_is_refused() {
    assert_eq!(parse_args(&strings(&["status"])), Err(CliError::StatusUsage));
}

#[test]
fn status_parses_path_and_empty_ignore() {
    let r = parse_args(&strings(&["status", "."]));
    assert_eq!(
        r,
        Ok(Command::Status { path: ".".to_string(), ignore: Vec::new() })
    );
}

#[test]
fn status_collects_ignore_names() {
    let r = parse_args(&strings(&["status", "src", "--ignore", "target", "node_modules"]));
    assert_eq!(
        r,
        Ok(Command::Status {
            path: "src".to_string(),
            ignore: strings(&["target", "node_modules"]),
        })
    );
}

#[test]
fn status_collects_several_ignore_groups() {
    let r = parse_args(&strings(&["status", ".", "--ignore", "a", "--ignore", "b"]));
    assert_eq!(
        r,
        Ok(Command::Status { path: ".".to_string(), ignore: strings(&["a", "b"]) })
    );
}

#[test]
fn trailing_ignore_flag_collects_nothing() {
    let r = parse_args(&strings(&["status", ".", "--ignore"]));
    assert_eq!(
        r,
        Ok(Command::Status { path: ".".to_string(), ignore: Vec::new() })
    );
}

#[test]
fn stray_argument_after_status_is_refused() {
    let r = parse_args(&strings(&["status", ".", "stray"]));
    assert_eq!(r, Err(CliError::InvalidArgument { argument: "stray".to_string() }));
}

#[test]
fn unknown_flag_after_status_is_refused() {
    let r = parse_args(&strings(&["status", ".", "--bogus", "x"]));
    assert_eq!(r, Err(CliError::InvalidArgument { argument: "--bogus".to_string() }));
}

#[test]
fn help_and_version_parse() {
    assert_eq!(parse_args(&strings(&["help"])), Ok(Command::Help));
    assert_eq!(parse_args(&strings(&["version"])), Ok(Command::Version));
}

#[test]
fn unknown_command_is_refused() {
    let r = parse_args(&strings(&["frobnicate"]));
    assert_eq!(r, Err(CliError::InvalidCommand { command: "frobnicate".to_string() }));
}

#[test]
fn usage_summary_lines() {
    let lines = usage_lines();
    assert_eq!(
        lines,
        strings(&[
            "Usage: devil <command> [options]",
            "Commands:",
            "  project <project_name> <project_language>",
            "  status <path> [--ignore <folder1> <folder2> ...]",
            "  help",
        ])
    );
}

#[test]
fn cli_error_messages() {
    assert_eq!(
        cli_error_message(&CliError::ProjectUsage),
        "Usage: devil project <project_name> <project_language>"
    );
    assert_eq!(
        cli_error_message(&CliError::StatusUsage),
        "Usage: devil status <path> [--ignore <folder1> <folder2> ...]"
    );
    assert_eq!(
        cli_error_message(&CliError::InvalidArgument { argument: "x".to_string() }),
        "Invalid argument: x"
    );
    assert_eq!(
        cli_error_message(&CliError::InvalidCommand { command: "x".to_string() }),
        "Invalid command: x"
    );
}

#[test]
fn lexicographic_comparison_orders_names() {
    assert!(str_le("", "a"));
    assert!(str_le("a", "a"));
    assert!(str_le("a", "b"));
    assert!(!str_le("b", "a"));
    assert!(str_le("abc", "abd"));
    assert!(str_le("ab", "abc"));
    assert!(!str_le("abc", "ab"));
    assert!(str_le("A", "a"));
}

#[test]
fn string_equality_helper() {
    assert!(str_eq("abc", "abc"));
    assert!(!str_eq("abc", "abd"));
    assert!(!str_eq("abc", "ab"));
}
