use ring_cli::errors::RingError;
use ring_cli::models::{validate_configurations, CmdType, Command, Configuration, Flag};

fn run_cmd(line: &str) -> Option<CmdType> {
    Some(CmdType::Run { run: vec![line.to_string()] })
}

#[test]
fn test_validate_rejects_both_cmd_and_subcommands() {
    let cmd = Command {
        description: "bad".to_string(),
        flags: vec![],
        cmd: run_cmd("echo hi"),
        subcommands: Some(vec![(
            "sub".to_string(),
            Command {
                description: "sub".to_string(),
                flags: vec![],
                cmd: run_cmd("echo sub"),
                subcommands: None,
            },
        )]),
    };
    let err = cmd.validate("mycli > bad").expect_err("should fail");
    let text = err.describe();
    assert!(text.contains("not both"), "error was: {text}");
}

#[test]
fn test_validate_rejects_neither_cmd_nor_subcommands() {
    let cmd = Command { description: "bad".to_string(), flags: vec![], cmd: None, subcommands: None };
    let err = cmd.validate("mycli > bad").expect_err("should fail");
    let text = err.describe();
    assert!(text.contains("must be present"), "error was: {text}");
}

#[test]
fn test_validate_accepts_cmd_only() {
    let cmd = Command {
        description: "ok".to_string(),
        flags: vec![],
        cmd: run_cmd("echo ok"),
        subcommands: None,
    };
    assert!(cmd.validate("mycli > ok").is_ok());
}

#[test]
fn test_validate_accepts_subcommands_only() {
    let inner = Command {
        description: "inner".to_string(),
        flags: vec![],
        cmd: run_cmd("echo inner"),
        subcommands: None,
    };
    let cmd = Command {
        description: "parent".to_string(),
        flags: vec![],
        cmd: None,
        subcommands: Some(vec![("inner".to_string(), inner)]),
    };
    assert!(cmd.validate("mycli > parent").is_ok());
}

#[test]
fn test_validate_error_includes_context_path() {
    let broken = Command { description: "broken".to_string(), flags: vec![], cmd: None, subcommands: None };
    let deploy = Command {
        description: "deploy".to_string(),
        flags: vec![],
        cmd: None,
        subcommands: Some(vec![("broken".to_string(), broken)]),
    };
    let err = deploy.validate("mycli > deploy").expect_err("should fail");
    let msg = err.describe();
    assert!(msg.contains("mycli > deploy > broken"), "path not in error: {msg}");
}

#[test]
fn validation_error_carries_exact_context_and_message() {
    let broken = Command { description: "b".to_string(), flags: vec![], cmd: None, subcommands: None };
    let ok = Command { description: "o".to_string(), flags: vec![], cmd: run_cmd("true"), subcommands: None };
    let parent = Command {
        description: "p".to_string(),
        flags: vec![Flag { name: "x".to_string(), short: None, description: "x".to_string() }],
        cmd: None,
        subcommands: Some(vec![("fine".to_string(), ok), ("gone".to_string(), broken)]),
    };
    match parent.validate("root") {
        Err(RingError::Validation { context, message }) => {
            assert_eq!(context, "root > gone");
            assert_eq!(message, "Either 'cmd' or 'subcommands' must be present.");
        }
        _ => panic!("expected a validation error"),
    }
}

#[test]
fn validation_reports_first_defect_in_order() {
    let neither = Command { description: "n".to_string(), flags: vec![], cmd: None, subcommands: None };
    let both = Command {
        description: "b".to_string(),
        flags: vec![],
        cmd: run_cmd("true"),
        subcommands: Some(vec![]),
    };
    let parent = Command {
        description: "p".to_string(),
        flags: vec![],
        cmd: None,
        subcommands: Some(vec![("first".to_string(), both), ("second".to_string(), neither)]),
    };
    let err = parent.validate("cli").expect_err("should fail");
    assert_eq!(err.describe(), "cli > first: Only 'cmd' or 'subcommands' should be present, not both.");
}

#[test]
fn validate_configurations_checks_every_command() {
    let good = Configuration {
        version: "2.0".to_string(),
        name: "good".to_string(),
        description: "Good".to_string(),
        base_dir: None,
        banner: None,
        commands: vec![(
            "run".to_string(),
            Command { description: "r".to_string(), flags: vec![], cmd: run_cmd("echo"), subcommands: None },
        )],
    };
    let bad = Configuration {
        version: "2.0".to_string(),
        name: "bad".to_string(),
        description: "Bad".to_string(),
        base_dir: None,
        banner: None,
        commands: vec![(
            "bad".to_string(),
            Command { description: "neither".to_string(), flags: vec![], cmd: None, subcommands: None },
        )],
    };
    assert!(validate_configurations(&vec![]).is_ok());
    let first = vec![good];
    assert!(validate_configurations(&first).is_ok());
    let mut both = first;
    both.push(bad);
    let err = validate_configurations(&both).expect_err("should fail validation");
    assert_eq!(err.describe(), "bad: Either 'cmd' or 'subcommands' must be present.");
}

#[test]
fn empty_configuration_is_valid() {
    let config = Configuration {
        version: "2.0".to_string(),
        name: "empty".to_string(),
        description: "Empty".to_string(),
        base_dir: None,
        banner: None,
        commands: vec![],
    };
    assert!(config.commands.is_empty());
    assert!(validate_configurations(&vec![config]).is_ok());
}

fn config(version: &str, name: &str, commands: Vec<(String, Command)>) -> Configuration {
    Configuration {
        version: version.to_string(),
        name: name.to_string(),
        description: "d".to_string(),
        base_dir: None,
        banner: None,
        commands,
    }
}

fn leaf() -> Command {
    Command { description: "l".to_string(), flags: vec![], cmd: run_cmd("true"), subcommands: None }
}

#[test]
fn validation_requires_version_two() {
    let err = validate_configurations(&vec![config("1.0", "old", vec![])]).expect_err("version 1.0 accepted");
    assert_eq!(err.describe(), "Config error: Configuration version must be \"2.0\", found '1.0'");
    assert!(validate_configurations(&vec![config("2.0", "new", vec![])]).is_ok());
}

#[test]
fn validation_requires_a_name() {
    let err = validate_configurations(&vec![config("2.0", "", vec![])]).expect_err("empty name accepted");
    assert_eq!(err.describe(), "Config error: Configuration name must be present and non-empty");
}

#[test]
fn validation_requires_distinct_command_names() {
    let dup = vec![("a".to_string(), leaf()), ("a".to_string(), leaf())];
    let err = validate_configurations(&vec![config("2.0", "c", dup)]).expect_err("duplicate names accepted");
    assert_eq!(err.describe(), "Config error: Command names must be distinct at every level");
    let nested = Command {
        description: "p".to_string(),
        flags: vec![],
        cmd: None,
        subcommands: Some(vec![("x".to_string(), leaf()), ("x".to_string(), leaf())]),
    };
    let err = validate_configurations(&vec![config("2.0", "c", vec![("p".to_string(), nested)])])
        .expect_err("nested duplicates accepted");
    assert_eq!(err.describe(), "Config error: Command names must be distinct at every level");
    let fine = vec![("a".to_string(), leaf()), ("b".to_string(), leaf())];
    assert!(validate_configurations(&vec![config("2.0", "c", fine)]).is_ok());
}

#[test]
fn validation_stops_at_the_first_rejected_configuration() {
    let configs = vec![config("2.0", "ok", vec![]), config("2.0", "", vec![]), config("3.0", "x", vec![])];
    let err = validate_configurations(&configs).expect_err("should fail");
    assert_eq!(err.describe(), "Config error: Configuration name must be present and non-empty");
}
