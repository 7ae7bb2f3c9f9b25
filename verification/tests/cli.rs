use ring_cli::bindings::Bindings;
use ring_cli::cli::{
    build_arg, build_cli, build_ring_cli, command_spec, extract_flag_values, parse_method,
    prepare_http_request, record_shell_outcome, ArgAction, ArgSpec, CommandSpec, HttpMethod,
    ShellOutcome, ShellRun,
};
use ring_cli::errors::RingError;
use ring_cli::models::{CmdType, Command as RingCommand, Configuration, Flag, Http};

/// The argument parser described by `spec`.
fn to_clap(spec: &CommandSpec) -> clap::Command {
    let mut cmd = clap::Command::new(spec.name.clone());
    if let Some(about) = &spec.about {
        cmd = cmd.about(about.clone());
    }
    if spec.version {
        cmd = cmd.version("0.1.0");
    }
    for a in &spec.args {
        cmd = cmd.arg(arg_to_clap(a));
    }
    for s in &spec.subcommands {
        cmd = cmd.subcommand(to_clap(s));
    }
    cmd
}

fn arg_to_clap(a: &ArgSpec) -> clap::Arg {
    let mut arg = clap::Arg::new(a.id.clone());
    if let Some(l) = &a.long {
        arg = arg.long(l.clone());
    }
    if let Some(c) = a.short {
        arg = arg.short(c);
    }
    if let Some(h) = &a.help {
        arg = arg.help(h.clone());
    }
    if let Some(v) = &a.value_name {
        arg = arg.value_name(v.clone());
    }
    arg = match a.action {
        ArgAction::Value => arg.action(clap::ArgAction::Set),
        ArgAction::Switch => arg.action(clap::ArgAction::SetTrue),
        ArgAction::Append => arg.action(clap::ArgAction::Append),
    };
    if a.required {
        arg = arg.required(true);
    }
    if !a.choices.is_empty() {
        arg = arg.value_parser(clap::builder::PossibleValuesParser::new(a.choices.clone()));
    }
    if let Some(d) = &a.default_value {
        arg = arg.default_value(d.clone());
    }
    arg
}

fn make_test_config() -> Configuration {
    Configuration {
        version: "1.0".to_string(),
        name: "test".to_string(),
        description: "Test CLI".to_string(),
        base_dir: None,
        banner: None,
        commands: vec![(
            "greet".to_string(),
            RingCommand {
                description: "Greet a user".to_string(),
                flags: vec![Flag {
                    name: "name".to_string(),
                    short: Some("n".to_string()),
                    description: "Name of the user".to_string(),
                }],
                cmd: Some(CmdType::Run { run: vec!["echo Hello, ${{name}}!".to_string()] }),
                subcommands: None,
            },
        )],
    }
}

fn bindings(pairs: &[(&str, &str)]) -> Bindings {
    let mut b = Bindings::new();
    for (k, v) in pairs {
        b.insert(k.to_string(), v.to_string());
    }
    b
}

#[test]
fn test_build_cli_has_config_subcommand() {
    let config = make_test_config();
    let app = to_clap(&build_cli(&vec![config], "ring-cli", None));
    let matches = app
        .try_get_matches_from(["ring-cli", "test", "greet", "--name", "Alice"])
        .expect("should parse");
    let test_matches = matches.subcommand_matches("test").expect("test subcommand");
    let greet_matches = test_matches.subcommand_matches("greet").expect("greet subcommand");
    let name = greet_matches.get_one::<String>("name").expect("name flag");
    assert_eq!(name, "Alice");
}

#[test]
fn test_build_cli_quiet_and_verbose_flags() {
    let empty_config = Configuration {
        version: "2.0".to_string(),
        name: "empty".to_string(),
        description: "Empty".to_string(),
        base_dir: None,
        banner: None,
        commands: vec![],
    };
    let app = to_clap(&build_cli(&vec![empty_config], "ring-cli", None));
    let matches = app.try_get_matches_from(["ring-cli", "-q", "-v"]).expect("should parse");
    assert!(matches.get_flag("quiet"));
    assert!(matches.get_flag("verbose"));
}

#[test]
fn test_build_cli_nested_subcommands() {
    let migrate_subs = vec![(
        "migrate".to_string(),
        RingCommand {
            description: "Run migrations".to_string(),
            flags: vec![],
            cmd: Some(CmdType::Run { run: vec!["echo migrating".to_string()] }),
            subcommands: None,
        },
    )];
    let commands = vec![(
        "db".to_string(),
        RingCommand {
            description: "Database operations".to_string(),
            flags: vec![],
            cmd: None,
            subcommands: Some(migrate_subs),
        },
    )];
    let config = Configuration {
        version: "1.0".to_string(),
        name: "nested".to_string(),
        description: "Nested CLI".to_string(),
        base_dir: None,
        banner: None,
        commands,
    };
    let app = to_clap(&build_cli(&vec![config], "ring-cli", None));
    let matches = app
        .try_get_matches_from(["ring-cli", "nested", "db", "migrate"])
        .expect("should parse nested subcommands");
    let nested_matches = matches.subcommand_matches("nested").expect("nested subcommand");
    let db_matches = nested_matches.subcommand_matches("db").expect("db subcommand");
    assert!(db_matches.subcommand_matches("migrate").is_some());
}

#[test]
fn test_extract_flag_values() {
    let flags = vec![Flag {
        name: "name".to_string(),
        short: Some("n".to_string()),
        description: "Name".to_string(),
    }];
    let app = clap::Command::new("test-app").arg(clap::Arg::new("name").long("name").short('n'));
    let matches = app.try_get_matches_from(["test-app", "--name", "Bob"]).expect("should parse");
    let provided: Vec<Option<String>> =
        flags.iter().map(|f| matches.get_one::<String>(&f.name).cloned()).collect();
    let flag_values = extract_flag_values(&flags, &provided);
    assert_eq!(flag_values.get("name").as_deref(), Some("Bob"));
}

#[test]
fn test_build_ring_cli_has_init() {
    let app = to_clap(&build_ring_cli());
    let matches =
        app.try_get_matches_from(["ring-cli", "init", "--alias", "my-tool"]).expect("should parse");
    let init_matches = matches.subcommand_matches("init").expect("init subcommand");
    let alias = init_matches.get_one::<String>("alias").expect("alias flag");
    assert_eq!(alias, "my-tool");
}

#[test]
fn test_build_ring_cli_init_accepts_multiple_config_paths() {
    let app = to_clap(&build_ring_cli());
    let matches = app
        .try_get_matches_from([
            "ring-cli",
            "init",
            "--alias",
            "my-tool",
            "--config-path",
            "/a.yml",
            "--config-path",
            "/b.yml",
        ])
        .expect("should parse multiple config paths");
    let init_matches = matches.subcommand_matches("init").expect("init subcommand");
    let paths: Vec<&String> =
        init_matches.get_many::<String>("config-path").expect("config paths").collect();
    assert_eq!(paths.len(), 2);
}

#[test]
fn test_build_cli_has_refresh_configuration() {
    let config = make_test_config();
    let app = to_clap(&build_cli(&vec![config], "ring-cli", None));
    let matches = app.try_get_matches_from(["ring-cli", "refresh-configuration"]).expect("should parse");
    assert!(matches.subcommand_matches("refresh-configuration").is_some());
}

#[test]
fn test_build_cli_color_flag() {
    let config = make_test_config();
    let app = to_clap(&build_cli(&vec![config], "ring-cli", None));
    let matches = app.try_get_matches_from(["ring-cli", "--color=never"]).expect("should parse");
    let color = matches.get_one::<String>("color").expect("color flag");
    assert_eq!(color, "never");
}

#[test]
fn init_requires_an_alias() {
    let app = to_clap(&build_ring_cli());
    assert!(app.try_get_matches_from(["ring-cli", "init", "--config-path", "/a.yml"]).is_err());
}

#[test]
fn color_flag_rejects_unknown_values_and_defaults_to_auto() {
    let app = to_clap(&build_cli(&vec![make_test_config()], "ring-cli", None));
    assert!(app.clone().try_get_matches_from(["ring-cli", "--color=sometimes"]).is_err());
    let matches = app.try_get_matches_from(["ring-cli"]).expect("should parse");
    assert_eq!(matches.get_one::<String>("color").map(String::as_str), Some("auto"));
}

#[test]
fn build_cli_keeps_name_about_and_order() {
    let spec = build_cli(
        &vec![make_test_config(), make_test_config()],
        "my-tool",
        Some("About".to_string()),
    );
    assert_eq!(spec.name, "my-tool");
    assert_eq!(spec.about.as_deref(), Some("About"));
    assert_eq!(spec.subcommands.len(), 3);
    assert_eq!(spec.subcommands[0].name, "test");
    assert_eq!(spec.subcommands[0].about.as_deref(), Some("Test CLI"));
    assert_eq!(spec.subcommands[2].name, "refresh-configuration");
    assert_eq!(spec.subcommands[2].args[0].short, Some('y'));
}

#[test]
fn flags_become_value_arguments() {
    let flag = Flag { name: "env".to_string(), short: Some("eu".to_string()), description: "Env".to_string() };
    let a = build_arg(&flag);
    assert_eq!(a.id, "env");
    assert_eq!(a.long.as_deref(), Some("env"));
    assert_eq!(a.short, Some('e'));
    assert!(a.action == ArgAction::Value);
    let no_short = build_arg(&Flag { name: "x".to_string(), short: Some(String::new()), description: String::new() });
    assert_eq!(no_short.short, None);
}

#[test]
fn command_spec_mirrors_nested_commands() {
    let config = make_test_config();
    let spec = command_spec("greet", &config.commands[0].1);
    assert_eq!(spec.name, "greet");
    assert_eq!(spec.about.as_deref(), Some("Greet a user"));
    assert_eq!(spec.args.len(), 1);
    assert!(spec.subcommands.is_empty());
}

#[test]
fn later_flags_of_the_same_name_win() {
    let flags = vec![
        Flag { name: "a".to_string(), short: None, description: String::new() },
        Flag { name: "b".to_string(), short: None, description: String::new() },
        Flag { name: "a".to_string(), short: None, description: String::new() },
    ];
    let out = extract_flag_values(&flags, &vec![Some("1".to_string()), None, Some("3".to_string())]);
    assert_eq!(out.get("a").as_deref(), Some("3"));
    assert_eq!(out.get("b"), None);
}

#[test]
fn shell_runs_render_commands_in_order() {
    let flags = bindings(&[("name", "World")]);
    let env = bindings(&[("GREETING", "Howdy")]);
    let templates = vec!["echo ${{env.GREETING}}, ${{name}}!".to_string(), "echo two".to_string()];
    let mut run = ShellRun::new();
    assert_eq!(run.next_command(&templates, &flags, &env).as_deref(), Some("echo Howdy, World!"));
    run.record(
        "echo Howdy, World!",
        ShellOutcome::Exited { success: true, code: Some(0), stdout: "Howdy, World!\n".to_string(), stderr: String::new() },
    );
    assert_eq!(run.next_command(&templates, &flags, &env).as_deref(), Some("echo two"));
    run.record(
        "echo two",
        ShellOutcome::Exited { success: true, code: Some(0), stdout: "two\n".to_string(), stderr: String::new() },
    );
    assert_eq!(run.next_command(&templates, &flags, &env), None);
    assert_eq!(run.finish().unwrap(), "Howdy, World!\ntwo\n");
}

#[test]
fn shell_runs_stop_at_the_first_failure() {
    let flags = Bindings::new();
    let env = Bindings::new();
    let templates = vec!["echo step1".to_string(), "false".to_string(), "echo step3".to_string()];
    let mut run = ShellRun::new();
    let first = run.next_command(&templates, &flags, &env).unwrap();
    run.record(&first, ShellOutcome::Exited { success: true, code: Some(0), stdout: "step1\n".to_string(), stderr: String::new() });
    let second = run.next_command(&templates, &flags, &env).unwrap();
    run.record(&second, ShellOutcome::Exited { success: false, code: Some(1), stdout: String::new(), stderr: "bad".to_string() });
    assert_eq!(run.next_command(&templates, &flags, &env), None);
    assert_eq!(run.started, 2);
    match run.finish() {
        Err(RingError::ShellCommand { command, code, stderr }) => {
            assert_eq!(command, "false");
            assert_eq!(code, 1);
            assert_eq!(stderr, "bad");
        }
        _ => panic!("expected the failure of the second step"),
    }
}

#[test]
fn shell_runs_stop_on_missing_variables() {
    let templates = vec!["echo ${{env.MISSING}}".to_string(), "echo never".to_string()];
    let mut run = ShellRun::new();
    assert_eq!(run.next_command(&templates, &Bindings::new(), &Bindings::new()), None);
    assert_eq!(run.next_command(&templates, &Bindings::new(), &Bindings::new()), None);
    assert!(matches!(run.finish(), Err(RingError::EnvVar { .. })));
}

#[test]
fn methods_are_parsed_exactly() {
    assert_eq!(parse_method("GET"), Some(HttpMethod::Get));
    assert_eq!(parse_method("PATCH"), Some(HttpMethod::Patch));
    assert_eq!(parse_method("HEAD"), Some(HttpMethod::Head));
    assert_eq!(parse_method("get"), None);
    assert_eq!(parse_method("TRACE"), None);
}

#[test]
fn http_requests_are_prepared() {
    let http = Http {
        method: "POST".to_string(),
        url: "https://example.com/${{id}}".to_string(),
        headers: Some(vec![("Authorization".to_string(), "Bearer ${{env.TOKEN}}".to_string())]),
        body: None,
    };
    let flags = bindings(&[("id", "7")]);
    let env = bindings(&[("TOKEN", "abc")]);
    let plan = prepare_http_request(&http, &flags, &env).expect("should prepare");
    assert_eq!(plan.method, HttpMethod::Post);
    assert_eq!(plan.url, "https://example.com/7");
    assert_eq!(plan.body.as_deref(), Some(""));
    assert_eq!(plan.headers, vec![("Authorization".to_string(), "Bearer abc".to_string())]);

    let get = Http {
        method: "GET".to_string(),
        url: "https://example.com".to_string(),
        headers: None,
        body: Some("ignored".to_string()),
    };
    assert_eq!(prepare_http_request(&get, &flags, &env).unwrap().body, None);
}

#[test]
fn http_request_errors() {
    let flags = Bindings::new();
    let env = Bindings::new();
    let bad_method = Http { method: "TRACE".to_string(), url: "u".to_string(), headers: None, body: None };
    match prepare_http_request(&bad_method, &flags, &env) {
        Err(RingError::UnsupportedMethod(m)) => assert_eq!(m, "TRACE"),
        _ => panic!("expected an unsupported method"),
    }
    let missing = Http {
        method: "GET".to_string(),
        url: "u".to_string(),
        headers: Some(vec![("X".to_string(), "${{env.NOPE}}".to_string())]),
        body: None,
    };
    match prepare_http_request(&missing, &flags, &env) {
        Err(RingError::EnvVar { name }) => assert_eq!(name, "NOPE"),
        _ => panic!("expected a missing variable"),
    }
}

#[test]
fn shell_outcomes_are_recorded() {
    let mut out = String::from("a\n");
    let ok = ShellOutcome::Exited {
        success: true,
        code: Some(0),
        stdout: "b\n".to_string(),
        stderr: String::new(),
    };
    assert!(record_shell_outcome(&mut out, "echo b", ok).is_ok());
    assert_eq!(out, "a\nb\n");
    let failed = ShellOutcome::Exited {
        success: false,
        code: Some(3),
        stdout: "ignored".to_string(),
        stderr: "boom".to_string(),
    };
    match record_shell_outcome(&mut out, "exit 3", failed) {
        Err(RingError::ShellCommand { command, code, stderr }) => {
            assert_eq!(command, "exit 3");
            assert_eq!(code, 3);
            assert_eq!(stderr, "boom");
        }
        _ => panic!("expected a failure"),
    }
    assert_eq!(out, "a\nb\n");
    let killed = ShellOutcome::Exited { success: false, code: None, stdout: String::new(), stderr: String::new() };
    assert!(matches!(record_shell_outcome(&mut out, "x", killed), Err(RingError::ShellCommand { code: -1, .. })));
    match record_shell_outcome(&mut out, "x", ShellOutcome::NotStarted("no sh".to_string())) {
        Err(RingError::ShellCommand { code, stderr, .. }) => {
            assert_eq!(code, -1);
            assert_eq!(stderr, "no sh");
        }
        _ => panic!("expected a failure"),
    }
}
