use digg::idn::{to_ascii, to_unicode_lossy};

#[test]
fn ascii_names_pass_through_unchanged() {
    assert_eq!(to_ascii("example.com").unwrap(), "example.com");
    assert_eq!(to_ascii("example.com.").unwrap(), "example.com.");
    assert_eq!(to_ascii(".").unwrap(), ".");
    assert_eq!(to_ascii("xn--mnchen-3ya.de").unwrap(), "xn--mnchen-3ya.de");
}

#[test]
fn unicode_names_convert_to_a_labels() {
    assert_eq!(to_ascii("münchen.de").unwrap(), "xn--mnchen-3ya.de");
    assert_eq!(to_ascii("日本.jp").unwrap(), "xn--wgv71a.jp");
    assert_eq!(to_ascii("münchen.de.").unwrap(), "xn--mnchen-3ya.de.");
}

#[test]
fn uts46_mapping_normalizes_case_and_width() {
    // Uppercase Unicode maps down; full-width ASCII maps to ASCII.
    assert_eq!(to_ascii("MÜNCHEN.de").unwrap(), "xn--mnchen-3ya.de");
    assert_eq!(to_ascii("ｅｘａｍｐｌｅ.com").unwrap(), "example.com");
}

#[test]
fn disallowed_code_points_are_usage_errors() {
    assert!(to_ascii("exa\u{2028}mple.com").is_err());
}

#[test]
fn a_labels_round_trip_back_to_unicode() {
    assert_eq!(to_unicode_lossy("xn--mnchen-3ya.de"), "münchen.de");
    assert_eq!(to_unicode_lossy("xn--mnchen-3ya.de."), "münchen.de.");
    assert_eq!(to_unicode_lossy("xn--wgv71a.jp"), "日本.jp");
    // Non-IDN names skip conversion entirely.
    assert_eq!(to_unicode_lossy("example.com."), "example.com.");
}
