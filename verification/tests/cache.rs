use ring_cli::cache::{
    alias_dir, alias_dir_under, aliases_dir, aliases_dir_under, apply_hash_overrides, chrono_free_timestamp, compute_hash,
    config_file_name, is_openapi_source, needs_update, openapi_source, patch_openapi_hashes,
    timestamp_text, to_hex_lower, trusted_entries, trusted_entry, trusted_metadata, AliasMetadata,
    ConfigEntry,
};

fn entry(name: &str, source: &str, content: &str) -> ConfigEntry {
    ConfigEntry {
        name: name.to_string(),
        source_path: source.to_string(),
        hash: compute_hash(content),
        trusted_at: "12345".to_string(),
    }
}

fn metadata(configs: Vec<ConfigEntry>) -> AliasMetadata {
    AliasMetadata { configs, description: Some("d".to_string()), banner: None, http_tool: None }
}

#[test]
fn test_compute_hash_deterministic() {
    let h1 = compute_hash("hello world");
    let h2 = compute_hash("hello world");
    assert_eq!(h1, h2);
}

#[test]
fn test_compute_hash_changes_with_input() {
    let h1 = compute_hash("hello");
    let h2 = compute_hash("world");
    assert_ne!(h1, h2);
}

#[test]
fn compute_hash_is_lowercase_hex_sha256() {
    assert_eq!(
        compute_hash("hello"),
        "2cf24dba5fb0a30e26e83b2ac5b9e29e1b161e5c1fa7425e73043362938b9824"
    );
    assert_eq!(
        compute_hash(""),
        "e3b0c44298fc1c149afbf4c8996fb92427ae41e4649b934ca495991b7852b855"
    );
    assert_eq!(compute_hash("any text at all").len(), 64);
}

#[test]
fn hex_encoding_puts_high_nibble_first() {
    assert_eq!(to_hex_lower(&vec![0x00, 0x0f, 0xa5, 0xff]), "000fa5ff");
    assert_eq!(to_hex_lower(&vec![]), "");
}

#[test]
fn needs_update_compares_hashes() {
    let e = entry("alpha", "/tmp/alpha.yml", "version: \"2.0\"");
    assert!(!needs_update(&e, "version: \"2.0\""));
    assert!(needs_update(&e, "version: \"2.1\""));
}

#[test]
fn cache_paths_are_under_home() {
    assert_eq!(aliases_dir_under("/home/u"), "/home/u/.ring-cli/aliases");
    assert_eq!(aliases_dir_under("/"), "/.ring-cli/aliases");
    assert_eq!(alias_dir_under("/home/u", "my-tool"), "/home/u/.ring-cli/aliases/my-tool");
    assert_eq!(config_file_name("alpha"), "alpha.yml");
}

#[test]
fn timestamp_is_decimal_seconds() {
    let t = chrono_free_timestamp();
    assert!(!t.is_empty());
    assert!(t.chars().all(|c| c.is_ascii_digit()));
    assert!(t.parse::<u64>().unwrap() > 1_600_000_000);
}

#[test]
fn trusted_entries_hash_each_content() {
    let configs = vec![
        ("alpha".to_string(), "/tmp/alpha.yml".to_string(), "a".to_string()),
        ("beta".to_string(), "/tmp/beta.yml".to_string(), "b".to_string()),
    ];
    let es = trusted_entries(&configs);
    assert_eq!(es.len(), 2);
    assert_eq!(es[0].name, "alpha");
    assert_eq!(es[0].source_path, "/tmp/alpha.yml");
    assert_eq!(es[0].hash, compute_hash("a"));
    assert_eq!(es[1].name, "beta");
    assert_eq!(es[1].hash, compute_hash("b"));
    let single = trusted_entry("gamma", "/g.yml", "g");
    assert_eq!(single.hash, compute_hash("g"));
    assert!(single.trusted_at.parse::<u64>().is_ok());
}

#[test]
fn openapi_sources_are_recognised() {
    assert!(is_openapi_source("openapi:https://x/spec.json"));
    assert!(!is_openapi_source("/tmp/openapi.yml"));
    assert_eq!(openapi_source("openapi:https://x/spec.json"), Some("https://x/spec.json".to_string()));
    assert_eq!(openapi_source("/tmp/a.yml"), None);
}

#[test]
fn patch_openapi_hashes_uses_raw_specification() {
    let mut meta = metadata(vec![
        entry("api", "openapi:spec.json", "generated"),
        entry("file", "/tmp/file.yml", "file content"),
    ]);
    let raws = vec!["raw spec".to_string(), "raw file".to_string()];
    patch_openapi_hashes(&mut meta, &raws);
    assert_eq!(meta.configs[0].hash, compute_hash("raw spec"));
    assert_eq!(meta.configs[1].hash, compute_hash("file content"));
    assert_eq!(meta.configs[0].name, "api");
    assert_eq!(meta.description, Some("d".to_string()));
}

#[test]
fn patch_openapi_hashes_skips_missing_raw_text() {
    let mut meta = metadata(vec![
        entry("file", "/tmp/file.yml", "file content"),
        entry("api", "openapi:spec.json", "generated"),
    ]);
    patch_openapi_hashes(&mut meta, &vec!["only one".to_string()]);
    assert_eq!(meta.configs[0].hash, compute_hash("file content"));
    assert_eq!(meta.configs[1].hash, compute_hash("generated"));
}

#[test]
fn hash_overrides_last_one_wins() {
    let mut meta = metadata(vec![entry("a", "/a.yml", "a"), entry("b", "/b.yml", "b")]);
    let overrides = vec![(1, "first".to_string()), (7, "ignored".to_string()), (1, "second".to_string())];
    apply_hash_overrides(&mut meta, &overrides);
    assert_eq!(meta.configs.len(), 2);
    assert_eq!(meta.configs[0].hash, compute_hash("a"));
    assert_eq!(meta.configs[1].hash, compute_hash("second"));
    assert_eq!(meta.configs[1].trusted_at, "12345");
}

#[test]
fn cache_directories_follow_the_home_directory() {
    let dir = aliases_dir().expect("home directory");
    assert!(dir.ends_with(".ring-cli/aliases"));
    let one = alias_dir("my-tool").expect("home directory");
    assert!(one.ends_with("my-tool"));
    assert_eq!(one, format!("{}/my-tool", dir));
}

#[test]
fn trusted_metadata_hashes_contents_and_overrides() {
    let configs = vec![
        ("a".to_string(), "/a.yml".to_string(), "a".to_string()),
        ("api".to_string(), "openapi:spec.json".to_string(), "generated".to_string()),
    ];
    let m = trusted_metadata(&configs, &vec![(1, "raw spec".to_string())], Some("d".to_string()), None, Some("curl".to_string()));
    assert_eq!(m.configs.len(), 2);
    assert_eq!(m.configs[0].hash, compute_hash("a"));
    assert_eq!(m.configs[1].hash, compute_hash("raw spec"));
    assert_eq!(m.configs[1].name, "api");
    assert_eq!(m.description, Some("d".to_string()));
    assert_eq!(m.http_tool, Some("curl".to_string()));
}

#[test]
fn timestamp_text_is_seconds_or_zero() {
    assert_eq!(timestamp_text(Some(1_700_000_000)), "1700000000");
    assert_eq!(timestamp_text(Some(0)), "0");
    assert_eq!(timestamp_text(None), "0");
    assert_eq!(timestamp_text(Some(u64::MAX)), u64::MAX.to_string());
}
