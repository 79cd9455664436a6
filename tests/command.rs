use rinko::command::{CommandType, ParsedCommand};
use rinko::facade::parse_command;

#[test]
fn test_query_command() {
    let cmd = ParsedCommand::parse("\\q iss status");
    assert_eq!(cmd.command_type, CommandType::Query);
    assert_eq!(cmd.arguments, "iss status");
    assert!(cmd.is_command());
}

#[test]
fn test_image_command() {
    let cmd = ParsedCommand::parse("/img cat");
    assert_eq!(cmd.command_type, CommandType::Image);
    assert_eq!(cmd.arguments, "cat");
}

#[test]
fn test_no_command() {
    let cmd = ParsedCommand::parse("Hello world");
    assert_eq!(cmd.command_type, CommandType::Unknown);
    assert!(!cmd.is_command());
}

#[test]
fn test_command_no_args() {
    let cmd = ParsedCommand::parse("\\help");
    assert_eq!(cmd.command_type, CommandType::Help);
    assert_eq!(cmd.arguments, "");
}

#[test]
fn command_metadata() {
    let cmd = ParsedCommand::parse("  /EXEC  a  b c ");
    assert_eq!(cmd.command_type, CommandType::Execute);
    assert_eq!(cmd.raw_text, "/EXEC  a  b c");
    assert_eq!(cmd.metadata[0], ("command_prefix".to_string(), "/EXEC".to_string()));
    assert_eq!(cmd.metadata[1], ("command_type".to_string(), "execute".to_string()));
    assert_eq!(cmd.metadata[2], ("arg_count".to_string(), "3".to_string()));
    assert_eq!(CommandType::from_prefix("/unknown"), CommandType::Unknown);
    assert_eq!(CommandType::Help.as_str(), "help");
}

#[test]
fn handler_test_parse_command() {
    assert_eq!(parse_command("/q AO-91"), Some(("q".to_string(), "AO-91".to_string())));
    assert_eq!(parse_command("/query ISS"), Some(("query".to_string(), "ISS".to_string())));
    assert_eq!(parse_command("  /sat   FO-29  "), Some(("sat".to_string(), "FO-29  ".to_string())));
    assert_eq!(parse_command("no command here"), None);
}

#[test]
fn command_grammar_edges() {
    assert_eq!(parse_command("/"), None);
    assert_eq!(parse_command("/lotw"), Some(("lotw".to_string(), "".to_string())));
    assert_eq!(parse_command("/q a\nb"), None);
    assert_eq!(parse_command("\n /q\n iss"), Some(("q".to_string(), "iss".to_string())));
}
