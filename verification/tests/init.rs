use ring_cli::bindings::Bindings;
use ring_cli::init::{
    banners_to_show, default_config_template, effective_description, missing_reference_message,
    reference_target, register_config_name, relative_base_dir_target, resolve_banner,
    resolve_base_dir, resolve_reference_list, validate_alias_name, AliasNameError, InitPlan, NameCheck,
    ReferenceTarget,
};
use ring_cli::models::{Command, Configuration};

fn config_with_base_dir(base_dir: Option<&str>) -> Configuration {
    Configuration {
        version: "2.0".to_string(),
        name: "tools".to_string(),
        description: "Tools".to_string(),
        base_dir: base_dir.map(|d| d.to_string()),
        banner: None,
        commands: vec![],
    }
}

#[test]
fn test_validate_alias_name_valid() {
    assert!(validate_alias_name("my-tool").is_ok());
    assert!(validate_alias_name("my_tool").is_ok());
    assert!(validate_alias_name("mytool123").is_ok());
}

#[test]
fn test_validate_alias_name_invalid() {
    assert!(validate_alias_name("").is_err());
    assert!(validate_alias_name("my tool").is_err());
    assert!(validate_alias_name("my;tool").is_err());
    assert!(validate_alias_name("my'tool").is_err());
}

#[test]
fn alias_name_errors_are_described() {
    match validate_alias_name("") {
        Err(e) => {
            assert!(matches!(e, AliasNameError::Empty));
            assert_eq!(e.describe(), "Alias name cannot be empty");
        }
        Ok(()) => panic!("empty name accepted"),
    }
    match validate_alias_name("my tool") {
        Err(e) => assert_eq!(
            e.describe(),
            "Alias name 'my tool' contains invalid characters. Only alphanumeric, '-', and '_' are allowed."
        ),
        Ok(()) => panic!("name with a space accepted"),
    }
}

#[test]
fn alias_names_may_use_unicode_letters() {
    assert!(validate_alias_name("outil-é").is_ok());
    assert!(validate_alias_name("tool/x").is_err());
}

#[test]
fn relative_base_dir_resolves_against_config_directory() {
    let config = config_with_base_dir(Some("scripts"));
    assert_eq!(
        relative_base_dir_target(&config, "/home/u/cfg/tools.yml"),
        Some("/home/u/cfg/scripts".to_string())
    );
    let bare = config_with_base_dir(Some("scripts"));
    assert_eq!(relative_base_dir_target(&bare, "tools.yml"), Some("scripts".to_string()));
    let absolute = config_with_base_dir(Some("/opt/scripts"));
    assert_eq!(relative_base_dir_target(&absolute, "/home/u/tools.yml"), None);
    let none = config_with_base_dir(None);
    assert_eq!(relative_base_dir_target(&none, "/home/u/tools.yml"), None);
}

#[test]
fn resolve_base_dir_prefers_canonical_path() {
    let mut config = config_with_base_dir(Some("scripts"));
    resolve_base_dir(&mut config, "/home/u/cfg/tools.yml", Some("/real/scripts".to_string()), "/work");
    assert_eq!(config.base_dir, Some("/real/scripts".to_string()));

    let mut config = config_with_base_dir(Some("../scripts"));
    resolve_base_dir(&mut config, "/home/u/cfg/tools.yml", None, "/work");
    assert_eq!(config.base_dir, Some("/home/u/cfg/../scripts".to_string()));
    assert_eq!(config.name, "tools");

    let mut absolute = config_with_base_dir(Some("/opt/scripts"));
    resolve_base_dir(&mut absolute, "/home/u/cfg/tools.yml", Some("/elsewhere".to_string()), "/work");
    assert_eq!(absolute.base_dir, Some("/opt/scripts".to_string()));

    let mut relative = config_with_base_dir(Some("sub"));
    resolve_base_dir(&mut relative, "c.yml", None, "/work");
    assert_eq!(relative.base_dir, Some("/work/sub".to_string()));

    let mut nested = config_with_base_dir(Some("sub"));
    resolve_base_dir(&mut nested, "cfg/c.yml", None, "/work/");
    assert_eq!(nested.base_dir, Some("/work/cfg/sub".to_string()));
}

#[test]
fn register_config_name_detects_conflicts() {
    let mut seen = Bindings::new();
    assert!(matches!(register_config_name(&mut seen, "alpha", "/a.yml", false), NameCheck::Fresh));
    assert_eq!(seen.get("alpha"), Some("/a.yml".to_string()));
    match register_config_name(&mut seen, "alpha", "/b.yml", false) {
        NameCheck::Conflict(m) => {
            assert_eq!(m, "Config name 'alpha' is used by both '/a.yml' and '/b.yml'")
        }
        _ => panic!("expected a conflict"),
    }
    assert_eq!(seen.get("alpha"), Some("/a.yml".to_string()));
}

#[test]
fn register_config_name_warns_and_rebinds() {
    let mut seen = Bindings::new();
    register_config_name(&mut seen, "alpha", "/a.yml", true);
    register_config_name(&mut seen, "beta", "/c.yml", true);
    match register_config_name(&mut seen, "alpha", "/b.yml", true) {
        NameCheck::Warned(m) => {
            assert_eq!(m, "Config name 'alpha' is used by both '/a.yml' and '/b.yml'")
        }
        _ => panic!("expected a warning"),
    }
    assert_eq!(seen.get("alpha"), Some("/b.yml".to_string()));
    assert_eq!(seen.get("beta"), Some("/c.yml".to_string()));
}

#[test]
fn resolve_banner_prefers_top_level() {
    let per_config = vec![Some("one".to_string()), None, Some("two".to_string())];
    assert_eq!(resolve_banner(Some("top".to_string()), &per_config), Some("top".to_string()));
    assert_eq!(resolve_banner(None, &per_config), Some("one\ntwo".to_string()));
    assert_eq!(resolve_banner(None, &vec![None, None]), None);
    assert_eq!(resolve_banner(None, &vec![]), None);
}

#[test]
fn description_from_command_line_wins() {
    assert_eq!(
        effective_description(Some("given".to_string()), Some("refs".to_string())),
        Some("given".to_string())
    );
    assert_eq!(effective_description(None, Some("refs".to_string())), Some("refs".to_string()));
    assert_eq!(effective_description(None, None), None);
}

#[test]
fn reference_targets_keep_openapi_sources() {
    match reference_target("/refs/references.yml", "openapi:https://x/spec.json") {
        ReferenceTarget::OpenApi(p) => assert_eq!(p, "openapi:https://x/spec.json"),
        _ => panic!("expected an openapi source"),
    }
    match reference_target("/refs/references.yml", "alpha.yml") {
        ReferenceTarget::File(p) => assert_eq!(p, "/refs/alpha.yml"),
        _ => panic!("expected a file"),
    }
    match reference_target("/refs/references.yml", "/abs/beta.yml") {
        ReferenceTarget::File(p) => assert_eq!(p, "/abs/beta.yml"),
        _ => panic!("expected a file"),
    }
    match reference_target("references.yml", "gamma.yml") {
        ReferenceTarget::File(p) => assert_eq!(p, "gamma.yml"),
        _ => panic!("expected a file"),
    }
}

#[test]
fn missing_reference_message_names_everything() {
    let m = missing_reference_message("nonexistent.yml", "/t/references.yml", "/t/nonexistent.yml");
    assert_eq!(
        m,
        "Config 'nonexistent.yml' referenced in '/t/references.yml' does not exist (resolved to '/t/nonexistent.yml')"
    );
    assert!(m.contains("does not exist"));
}

#[test]
fn banners_follow_quiet_and_alias_banner() {
    let configs = vec![Some("a".to_string()), None, Some("b".to_string())];
    assert!(banners_to_show(true, &Some("alias".to_string()), &configs).is_empty());
    assert_eq!(banners_to_show(false, &Some("alias".to_string()), &configs), vec!["alias".to_string()]);
    assert_eq!(banners_to_show(false, &None, &configs), vec!["a".to_string(), "b".to_string()]);
}

#[test]
fn default_template_has_version_and_commands() {
    let t = default_config_template();
    assert!(t.contains("version:"));
    assert!(t.contains("commands:"));
    assert!(t.contains("echo Hello, ${{name}}!"));
}

fn named(name: &str, banner: Option<&str>) -> Configuration {
    Configuration {
        version: "2.0".to_string(),
        name: name.to_string(),
        description: "d".to_string(),
        base_dir: None,
        banner: banner.map(|b| b.to_string()),
        commands: vec![],
    }
}

#[test]
fn init_plan_keeps_configurations_aligned() {
    let mut plan = InitPlan::new();
    let r = plan.add(&named("alpha", Some("hi")), "/a.yml", "a".to_string(), "a-raw".to_string(), false).unwrap();
    assert!(matches!(r, NameCheck::Fresh));
    let r = plan.add(&named("alpha", None), "/b.yml", "b".to_string(), "b".to_string(), false).unwrap();
    match r {
        NameCheck::Conflict(m) => assert_eq!(m, "Config name 'alpha' is used by both '/a.yml' and '/b.yml'"),
        _ => panic!("expected a conflict"),
    }
    assert_eq!(plan.configs.len(), 1);
    let r = plan.add(&named("alpha", None), "/c.yml", "c".to_string(), "c".to_string(), true).unwrap();
    assert!(matches!(r, NameCheck::Warned(_)));
    assert_eq!(
        plan.configs,
        vec![
            ("alpha".to_string(), "/a.yml".to_string(), "a".to_string()),
            ("alpha".to_string(), "/c.yml".to_string(), "c".to_string()),
        ]
    );
    assert_eq!(plan.raws, vec!["a-raw".to_string(), "c".to_string()]);
    assert_eq!(plan.banners, vec![Some("hi".to_string()), None]);
    assert_eq!(plan.seen.get("alpha"), Some("/c.yml".to_string()));
}

#[test]
fn init_refuses_invalid_configurations() {
    let mut plan = InitPlan::new();
    let mut old = named("old", None);
    old.version = "1.0".to_string();
    match plan.add(&old, "/o.yml", "o".to_string(), "o".to_string(), false) {
        Err(e) => assert_eq!(e.describe(), "Config error: Configuration version must be \"2.0\", found '1.0'"),
        Ok(_) => panic!("version 1.0 accepted"),
    }
    let mut broken = named("broken", None);
    broken.commands = vec![(
        "bad".to_string(),
        Command { description: "neither".to_string(), flags: vec![], cmd: None, subcommands: None },
    )];
    match plan.add(&broken, "/b.yml", "b".to_string(), "b".to_string(), false) {
        Err(e) => assert_eq!(e.describe(), "bad: Either 'cmd' or 'subcommands' must be present."),
        Ok(_) => panic!("invalid command accepted"),
    }
    assert!(plan.configs.is_empty() && plan.raws.is_empty() && plan.banners.is_empty());
    assert_eq!(plan.seen.get("broken"), None);
}

#[test]
fn reference_lists_resolve_or_name_the_first_missing_file() {
    let configs = vec!["alpha.yml".to_string(), "openapi:spec.json".to_string(), "/abs/beta.yml".to_string()];
    assert_eq!(
        resolve_reference_list("/t/references.yml", &configs, &vec![true, false, true]).unwrap(),
        vec!["/t/alpha.yml".to_string(), "openapi:spec.json".to_string(), "/abs/beta.yml".to_string()]
    );
    let missing = vec!["nonexistent.yml".to_string(), "other.yml".to_string()];
    assert_eq!(
        resolve_reference_list("/t/references.yml", &missing, &vec![false, false]).unwrap_err(),
        "Config 'nonexistent.yml' referenced in '/t/references.yml' does not exist (resolved to '/t/nonexistent.yml')"
    );
}
