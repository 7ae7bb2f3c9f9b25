use ring_cli::args::{
    alias_mode_args, arg_at, invocation, legacy_config_path, legacy_mode_args, position_of, value_after,
    Invocation,
};

fn args(list: &[&str]) -> Vec<String> {
    list.iter().map(|s| s.to_string()).collect()
}

#[test]
fn position_and_value_after_use_first_occurrence() {
    let a = args(&["ring-cli", "--alias-mode", "one", "--alias-mode", "two"]);
    assert_eq!(position_of(&a, "--alias-mode"), Some(1));
    assert_eq!(position_of(&a, "--nothing"), None);
    assert_eq!(value_after(&a, "--alias-mode"), Some("one".to_string()));
    assert_eq!(value_after(&args(&["x", "--check-updates"]), "--check-updates"), None);
    assert_eq!(arg_at(&a, 2), Some("one".to_string()));
    assert_eq!(arg_at(&a, 9), None);
}

#[test]
fn legacy_config_path_forms() {
    assert_eq!(
        legacy_config_path(&args(&["ring-cli", "--config=/a.yml", "test"])),
        Some("/a.yml".to_string())
    );
    assert_eq!(
        legacy_config_path(&args(&["ring-cli", "--config=/a.yml=extra"])),
        Some("/a.yml".to_string())
    );
    assert_eq!(
        legacy_config_path(&args(&["ring-cli", "-c", "/b.yml", "--config", "/c.yml"])),
        Some("/b.yml".to_string())
    );
    assert_eq!(
        legacy_config_path(&args(&["ring-cli", "--config", "/c.yml", "-c", "/b.yml"])),
        Some("/c.yml".to_string())
    );
    assert_eq!(
        legacy_config_path(&args(&["ring-cli", "-c", "/b.yml", "--config=/a.yml"])),
        Some("/a.yml".to_string())
    );
    assert_eq!(legacy_config_path(&args(&["ring-cli", "-c"])), None);
    assert_eq!(legacy_config_path(&args(&["ring-cli", "test"])), None);
}

#[test]
fn legacy_mode_args_drop_config_flags() {
    assert_eq!(
        legacy_mode_args(&args(&["ring-cli", "-c", "/b.yml", "test", "--config=/a.yml", "greet", "--config", "/x.yml"])),
        args(&["ring-cli", "test", "greet"])
    );
}

#[test]
fn alias_mode_args_rename_program_and_drop_marker() {
    assert_eq!(
        alias_mode_args(&args(&["ring-cli", "--alias-mode", "my-tool", "test", "greet"]), "my-tool"),
        args(&["my-tool", "test", "greet"])
    );
    assert!(alias_mode_args(&args(&[]), "my-tool").is_empty());
    assert_eq!(alias_mode_args(&args(&["ring-cli"]), "t"), args(&["t"]));
}

#[test]
fn invocation_reads_the_requested_mode() {
    match invocation(&args(&["ring-cli", "--generate-completions", "zsh", "comp-zsh"])) {
        Ok(Invocation::GenerateCompletions { shell, alias }) => {
            assert_eq!(shell, "zsh");
            assert_eq!(alias, "comp-zsh");
        }
        _ => panic!("expected completions"),
    }
    match invocation(&args(&["ring-cli", "--generate-completions", "zsh"])) {
        Err(m) => assert_eq!(m, "Missing alias name after --generate-completions"),
        _ => panic!("expected an error"),
    }
    match invocation(&args(&["ring-cli", "--generate-completions"])) {
        Err(m) => assert_eq!(m, "Missing shell name after --generate-completions"),
        _ => panic!("expected an error"),
    }
    match invocation(&args(&["ring-cli", "--check-updates", "my-tool", "--alias-mode", "x"])) {
        Ok(Invocation::CheckUpdates { alias }) => assert_eq!(alias, "my-tool"),
        _ => panic!("expected an update check"),
    }
    match invocation(&args(&["ring-cli", "--check-updates"])) {
        Err(m) => assert_eq!(m, "Missing alias name after --check-updates"),
        _ => panic!("expected an error"),
    }
    match invocation(&args(&["ring-cli", "--alias-mode", "my-tool", "-c", "/a.yml"])) {
        Ok(Invocation::Alias { name }) => assert_eq!(name, "my-tool"),
        _ => panic!("expected alias mode"),
    }
    match invocation(&args(&["ring-cli", "-c", "/a.yml", "test"])) {
        Ok(Invocation::Legacy { config_path }) => assert_eq!(config_path, "/a.yml"),
        _ => panic!("expected legacy mode"),
    }
    assert!(matches!(invocation(&args(&["ring-cli", "init", "--alias", "t"])), Ok(Invocation::Installer)));
    assert!(matches!(invocation(&args(&["ring-cli", "--alias-mode"])), Ok(Invocation::Installer)));
}
