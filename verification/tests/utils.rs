use ring_cli::bindings::Bindings;
use ring_cli::errors::RingError;
use ring_cli::utils::{
    config_source_kind, default_config_dir, default_config_dir_under, render, replace_env_vars, replace_placeholders,
    ConfigSourceKind,
};

fn bindings(pairs: &[(&str, &str)]) -> Bindings {
    let mut b = Bindings::new();
    for (k, v) in pairs {
        b.insert(k.to_string(), v.to_string());
    }
    b
}

#[test]
fn test_replace_single_placeholder() {
    let flags = bindings(&[("name", "Alice")]);
    let result = replace_placeholders("Hello, ${{name}}!", &flags);
    assert_eq!(result, "Hello, Alice!");
}

#[test]
fn test_replace_multiple_placeholders() {
    let flags = bindings(&[("first", "Hello"), ("second", "World")]);
    let result = replace_placeholders("${{first}}, ${{second}}!", &flags);
    assert_eq!(result, "Hello, World!");
}

#[test]
fn test_replace_missing_placeholder_left_as_is() {
    let flags = Bindings::new();
    let result = replace_placeholders("Hello, ${{name}}!", &flags);
    assert_eq!(result, "Hello, ${{name}}!");
}

#[test]
fn replace_placeholders_replaces_every_occurrence() {
    let flags = bindings(&[("x", "1")]);
    assert_eq!(replace_placeholders("${{x}}${{x}}-${{x}}", &flags), "11-1");
    assert_eq!(replace_placeholders("${{y}} ${{x}}", &flags), "${{y}} 1");
    assert_eq!(replace_placeholders("", &flags), "");
}

#[test]
fn replace_placeholders_applies_flags_in_order() {
    let flags = bindings(&[("a", "${{b}}"), ("b", "B")]);
    assert_eq!(replace_placeholders("${{a}}", &flags), "B");
    let reversed = bindings(&[("b", "B"), ("a", "${{b}}")]);
    assert_eq!(replace_placeholders("${{a}}", &reversed), "${{b}}");
}

#[test]
fn replace_placeholders_handles_non_ascii() {
    let flags = bindings(&[("név", "Ünïcødé")]);
    assert_eq!(replace_placeholders("→ ${{név}} ←", &flags), "→ Ünïcødé ←");
}

#[test]
fn test_replace_env_var() {
    let env = bindings(&[("RING_TEST_VAR", "test_value")]);
    let result = replace_env_vars("Value: ${{env.RING_TEST_VAR}}", &env).expect("should succeed");
    assert_eq!(result, "Value: test_value");
}

#[test]
fn test_replace_env_var_not_set() {
    let env = Bindings::new();
    let err = replace_env_vars("Value: ${{env.RING_TEST_MISSING_VAR}}", &env).expect_err("should fail");
    let text = err.describe();
    assert!(text.contains("RING_TEST_MISSING_VAR"), "error was: {text}");
}

#[test]
fn replace_env_vars_does_not_rescan_values() {
    let env = bindings(&[("A", "${{env.B}}"), ("B", "b")]);
    assert_eq!(replace_env_vars("${{env.A}}/${{env.B}}", &env).unwrap(), "${{env.B}}/b");
}

#[test]
fn replace_env_vars_without_placeholder_is_identity() {
    let env = Bindings::new();
    assert_eq!(replace_env_vars("plain ${{flag}} text", &env).unwrap(), "plain ${{flag}} text");
}

#[test]
fn replace_env_vars_reports_unclosed_placeholder_byte_offset() {
    let env = Bindings::new();
    match replace_env_vars("ab ${{env.X", &env) {
        Err(RingError::Config(m)) => assert_eq!(m, "Unclosed placeholder starting at position 3"),
        _ => panic!("expected a config error"),
    }
    match replace_env_vars("é ${{env.X", &env) {
        Err(RingError::Config(m)) => assert_eq!(m, "Unclosed placeholder starting at position 3"),
        _ => panic!("expected a config error"),
    }
    let env = bindings(&[("LONG", "0123456789")]);
    match replace_env_vars("${{env.LONG}} ${{env.Y", &env) {
        Err(RingError::Config(m)) => assert_eq!(m, "Unclosed placeholder starting at position 11"),
        _ => panic!("expected a config error"),
    }
}

#[test]
fn replace_env_vars_names_missing_variable() {
    let env = bindings(&[("SET", "1")]);
    match replace_env_vars("${{env.SET}} ${{env.UNSET}}", &env) {
        Err(RingError::EnvVar { name }) => assert_eq!(name, "UNSET"),
        _ => panic!("expected an env var error"),
    }
    match replace_env_vars("${{env.}}", &env) {
        Err(RingError::EnvVar { name }) => assert_eq!(name, ""),
        _ => panic!("expected an env var error"),
    }
}

#[test]
fn render_substitutes_flags_then_environment() {
    let flags = bindings(&[("target", "prod"), ("var", "env.TOKEN")]);
    let env = bindings(&[("TOKEN", "s3cret")]);
    assert_eq!(
        render("deploy ${{target}} with ${{env.TOKEN}}", &flags, &env).unwrap(),
        "deploy prod with s3cret"
    );
    assert_eq!(render("${{${{var}}}}", &flags, &env).unwrap(), "s3cret");
}

#[test]
fn config_source_kind_follows_path_kind() {
    assert_eq!(config_source_kind("/d", true, false, false, false).unwrap(), ConfigSourceKind::Nothing);
    assert_eq!(config_source_kind("/f", false, true, true, false).unwrap(), ConfigSourceKind::File);
    assert_eq!(config_source_kind("/d", true, true, false, true).unwrap(), ConfigSourceKind::Directory);
    match config_source_kind("/nonexistent/path/config.yml", false, false, false, false) {
        Err(e) => assert_eq!(
            e.describe(),
            "Config error: Config path '/nonexistent/path/config.yml' is neither a file nor a directory"
        ),
        Ok(_) => panic!("expected an error"),
    }
}

#[test]
fn default_config_dir_is_under_home() {
    assert_eq!(default_config_dir_under("/home/u"), "/home/u/.ring-cli/configurations");
    assert_eq!(default_config_dir_under("/home/u/"), "/home/u/.ring-cli/configurations");
}

#[test]
fn default_config_dir_ends_in_configurations() {
    let d = default_config_dir().expect("home directory");
    assert!(d.ends_with("/.ring-cli/configurations"));
}

#[test]
fn test_load_nonexistent_path_errors() {
    let path = "/nonexistent/path/config.yml";
    let p = std::path::Path::new(path);
    let result = config_source_kind(path, false, p.exists(), p.is_file(), p.is_dir());
    assert!(result.is_err());
}
