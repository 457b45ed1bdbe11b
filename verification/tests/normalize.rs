use annotate_snippets::normalize_untrusted_str;
use annotate_snippets::renderer::normalize::normalize_whitespace;

#[test]
fn tabs_become_four_spaces() {
    assert_eq!(normalize_untrusted_str("a\tb"), "a    b");
    assert_eq!(normalize_untrusted_str("\t\t"), "        ");
}

#[test]
fn direction_controls_are_dropped() {
    let s = "x\u{200D}y\u{202A}\u{202B}\u{202C}\u{202D}\u{202E}\u{2066}\u{2067}\u{2068}\u{2069}z";
    assert_eq!(normalize_untrusted_str(s), "xyz");
}

#[test]
fn other_text_is_kept() {
    assert_eq!(normalize_untrusted_str(""), "");
    assert_eq!(normalize_untrusted_str("héllo wörld ✓"), "héllo wörld ✓");
    assert_eq!(normalize_untrusted_str("\u{200B}"), "\u{200B}");
}

#[test]
fn normalizing_twice_is_normalizing_once() {
    let s = "\ta\u{2066}b\t";
    let once = normalize_whitespace(s);
    let twice = normalize_whitespace(&once);
    assert_eq!(once, twice);
    assert_eq!(once, "    ab    ");
}

#[test]
fn control_characters_are_removed() {
    assert_eq!(annotate_snippets::normalize_untrusted_str("\x1b[31mred\x07"), "[31mred");
    assert_eq!(annotate_snippets::normalize_untrusted_str("a\tb"), "a    b");
    assert_eq!(annotate_snippets::normalize_untrusted_str("a\r\nb\u{85}c"), "a\nbc");
}
