use ring_cli::paths::{anchor_dir_of, has_yaml_extension, join, path_is_absolute};

#[test]
fn join_follows_path_rules() {
    assert_eq!(join("/home/u", "a.yml"), "/home/u/a.yml");
    assert_eq!(join("/home/u/", "a.yml"), "/home/u/a.yml");
    assert_eq!(join("", "a.yml"), "a.yml");
    assert_eq!(join("/home/u", "/etc/a.yml"), "/etc/a.yml");
    assert!(path_is_absolute("/x"));
    assert!(!path_is_absolute("x/y"));
    assert!(!path_is_absolute(""));
}

#[test]
fn parent_and_anchor_directory() {
    assert_eq!(anchor_dir_of("/home/u/a.yml"), "/home/u");
    assert_eq!(anchor_dir_of("a.yml"), "");
    assert_eq!(anchor_dir_of("/"), ".");
}

#[test]
fn yaml_extensions() {
    assert!(has_yaml_extension("a.yml"));
    assert!(has_yaml_extension("b.yaml"));
    assert!(has_yaml_extension("c.d.yml"));
    assert!(!has_yaml_extension("c.txt"));
    assert!(!has_yaml_extension(".yml"));
    assert!(!has_yaml_extension("yml"));
    assert!(!has_yaml_extension("a.YML"));
}
