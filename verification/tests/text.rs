use ring_cli::text::{is_blank, trim};

#[test]
fn trim_removes_unicode_whitespace_like_str_trim() {
    for s in ["  y \n", "\u{3000}x\u{2028}", "\u{85}a b\u{a0}", "\t\r\n", "", "no-space"] {
        assert_eq!(trim(s), s.trim());
        assert_eq!(is_blank(s), s.trim().is_empty());
    }
    assert_eq!(trim("\u{200b}x"), "\u{200b}x");
}
