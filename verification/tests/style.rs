use ring_cli::style::{
    bold, color_mode_from_name, dim, error, init, is_color_enabled, mode_in_effect, success, warn,
    ColorMode,
};

#[test]
fn test_error_no_color() {
    assert_eq!(error("something broke", false), "Error: something broke");
}

#[test]
fn test_error_with_ansi() {
    let result = error("something broke", true);
    assert!(result.contains("\x1b[1;31m"));
    assert!(result.contains("something broke"));
}

#[test]
fn test_warn_format() {
    assert_eq!(warn("watch out", false), "Warning: watch out");
}

#[test]
fn test_success_plain() {
    assert_eq!(success("Done!", false), "Done!");
}

#[test]
fn test_color_mode_never_disables() {
    let _ = ColorMode::Never;
    let _ = ColorMode::Always;
    let _ = ColorMode::Auto;
    assert!(!is_color_enabled(ColorMode::Never, false, true));
}

#[test]
fn color_mode_decides_color() {
    assert!(is_color_enabled(ColorMode::Always, true, false));
    assert!(!is_color_enabled(ColorMode::Never, false, true));
    assert!(is_color_enabled(ColorMode::Auto, false, true));
    assert!(!is_color_enabled(ColorMode::Auto, true, true));
    assert!(!is_color_enabled(ColorMode::Auto, false, false));
}

#[test]
fn color_mode_is_parsed_from_flag_value() {
    assert_eq!(color_mode_from_name("always"), ColorMode::Always);
    assert_eq!(color_mode_from_name("never"), ColorMode::Never);
    assert_eq!(color_mode_from_name("auto"), ColorMode::Auto);
    assert_eq!(color_mode_from_name("ALWAYS"), ColorMode::Auto);
}

#[test]
fn colored_messages_use_ansi_sequences() {
    assert_eq!(error("x", true), "\x1b[1;31mError:\x1b[0m x");
    assert_eq!(warn("x", true), "\x1b[33mWarning:\x1b[0m x");
    assert_eq!(success("x", true), "\x1b[32mx\x1b[0m");
    assert_eq!(bold("x", true), "\x1b[1mx\x1b[0m");
    assert_eq!(dim("x", true), "\x1b[2mx\x1b[0m");
    assert_eq!(bold("x", false), "x");
    assert_eq!(dim("x", false), "x");
}

#[test]
fn plain_messages_hold_no_escape() {
    for text in [error("e", false), warn("w", false), success("s", false), bold("b", false), dim("d", false)] {
        assert!(!text.contains('\x1b'), "escape found in {text:?}");
    }
}

#[test]
fn first_color_setting_wins() {
    let mut setting: Option<ColorMode> = None;
    assert_eq!(mode_in_effect(setting), ColorMode::Auto);
    init(&mut setting, ColorMode::Never);
    assert_eq!(setting, Some(ColorMode::Never));
    init(&mut setting, ColorMode::Always);
    assert_eq!(setting, Some(ColorMode::Never));
    assert_eq!(mode_in_effect(setting), ColorMode::Never);
}
