//! Command lines.

use wand_render::args::{parse, parse_structured, Command, HELP};

fn args(list: &[&str]) -> Vec<String> {
    list.iter().map(|value| value.to_string()).collect()
}

#[test]
fn parses_short_and_long_config() {
    assert_eq!(
        parse(&args(&["-c", "/tmp/x/config.json"])),
        Ok(Command::Run { config_path: "/tmp/x/config.json".to_string() })
    );
    assert_eq!(
        parse(&args(&["--config", "/tmp/x/config.json"])),
        Ok(Command::Run { config_path: "/tmp/x/config.json".to_string() })
    );
    assert_eq!(
        parse(&args(&["--config=/tmp/x/config.json"])),
        Ok(Command::Run { config_path: "/tmp/x/config.json".to_string() })
    );
}

#[test]
fn parses_version_and_help() {
    assert_eq!(parse(&args(&["--version"])), Ok(Command::Version));
    assert_eq!(parse(&args(&["-V"])), Ok(Command::Version));
    assert_eq!(parse(&args(&["--help"])), Ok(Command::Help));
}

#[test]
fn rejects_missing_and_unknown_arguments() {
    assert!(parse(&args(&[])).is_err());
    assert!(parse(&args(&["-c"])).is_err());
    assert!(parse(&args(&["--nope"])).is_err());
}

#[test]
fn wrong_arguments_are_named() {
    assert_eq!(parse(&args(&[])), Err("missing -c <configPath>".to_string()));
    assert_eq!(parse(&args(&["-c"])), Err("-c requires a config path".to_string()));
    assert_eq!(parse(&args(&["--config"])), Err("--config requires a config path".to_string()));
    assert_eq!(parse(&args(&["--nope"])), Err("unrecognized argument --nope".to_string()));
}

#[test]
fn the_last_config_counts_and_the_first_question_is_answered() {
    assert_eq!(
        parse(&args(&["-c", "a", "--config=b"])),
        Ok(Command::Run { config_path: "b".to_string() })
    );
    assert_eq!(
        parse(&args(&["-c", "--help"])),
        Ok(Command::Run { config_path: "--help".to_string() })
    );
    assert_eq!(parse(&args(&["-c", "a", "-v", "--nope"])), Ok(Command::Version));
    assert_eq!(parse(&args(&["-h", "-v"])), Ok(Command::Help));
    assert_eq!(
        parse(&args(&["--config="])),
        Ok(Command::Run { config_path: String::new() })
    );
}

#[test]
fn structured_command_lines_have_two_forms() {
    assert_eq!(parse_structured(&args(&["--version"])), Ok(None));
    assert_eq!(parse_structured(&args(&["--config", "c"])), Ok(Some("c".to_string())));
    let usage = Err("usage: wand-structured-render --config <config-path> | --version".to_string());
    assert_eq!(parse_structured(&args(&[])), usage);
    assert_eq!(parse_structured(&args(&["--config"])), usage);
    assert_eq!(parse_structured(&args(&["--version", "x"])), usage);
    assert_eq!(parse_structured(&args(&["--config", "c", "d"])), usage);
}

#[test]
fn help_names_every_option() {
    for option in ["-c <configPath>", "--config <path>", "--version", "--help"] {
        assert!(HELP.contains(option), "{option}");
    }
    assert!(HELP.ends_with('\n'));
}
