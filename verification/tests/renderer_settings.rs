use annotate_snippets::renderer::decor::DecorStyle;
use annotate_snippets::renderer::stylesheet::StyleCodes;
use annotate_snippets::renderer::{Renderer, DEFAULT_TERM_WIDTH};

fn on_off(c: &StyleCodes) -> (&str, &str) {
    (c.on.as_str(), c.off.as_str())
}

#[test]
fn plain_renderer_has_default_settings_and_no_codes() {
    let r = Renderer::plain();
    assert!(!r.anonymized_line_numbers);
    assert_eq!(r.term_width, DEFAULT_TERM_WIDTH);
    assert_eq!(r.term_width, 140);
    assert_eq!(r.decor_style, DecorStyle::Ascii);
    assert!(!r.short_message);
    for c in [
        &r.stylesheet.error,
        &r.stylesheet.warning,
        &r.stylesheet.info,
        &r.stylesheet.note,
        &r.stylesheet.help,
        &r.stylesheet.line_no,
        &r.stylesheet.emphasis,
        &r.stylesheet.none,
        &r.stylesheet.context,
        &r.stylesheet.addition,
        &r.stylesheet.removal,
    ] {
        assert_eq!(on_off(c), ("", ""));
    }
}

#[test]
fn styled_renderer_codes() {
    let r = Renderer::styled();
    assert_eq!(r.term_width, 140);
    assert_eq!(r.decor_style, DecorStyle::Ascii);
    let s = &r.stylesheet;
    assert_eq!(on_off(&s.error), ("\x1b[1m\x1b[91m", "\x1b[0m"));
    assert_eq!(on_off(&s.warning), ("\x1b[1m\x1b[33m", "\x1b[0m"));
    assert_eq!(on_off(&s.info), ("\x1b[1m\x1b[94m", "\x1b[0m"));
    assert_eq!(on_off(&s.note), ("\x1b[1m\x1b[92m", "\x1b[0m"));
    assert_eq!(on_off(&s.help), ("\x1b[1m\x1b[96m", "\x1b[0m"));
    assert_eq!(on_off(&s.line_no), ("\x1b[1m\x1b[94m", "\x1b[0m"));
    assert_eq!(on_off(&s.emphasis), ("\x1b[1m", "\x1b[0m"));
    assert_eq!(on_off(&s.none), ("", ""));
    assert_eq!(on_off(&s.context), ("\x1b[1m\x1b[94m", "\x1b[0m"));
    assert_eq!(on_off(&s.addition), ("\x1b[92m", "\x1b[0m"));
    assert_eq!(on_off(&s.removal), ("\x1b[91m", "\x1b[0m"));
}

#[test]
fn renderer_setters_change_one_setting() {
    let r = Renderer::plain()
        .short_message(true)
        .term_width(80)
        .decor_style(DecorStyle::Unicode)
        .anonymized_line_numbers(true);
    assert!(r.short_message);
    assert_eq!(r.term_width, 80);
    assert_eq!(r.decor_style, DecorStyle::Unicode);
    assert!(r.anonymized_line_numbers);
    assert_eq!(on_off(&r.stylesheet.error), ("", ""));
}

#[test]
fn renderer_style_overrides() {
    let mark = |s: &str| StyleCodes { on: format!("<{s}>"), off: format!("</{s}>") };
    let r = Renderer::styled()
        .error(mark("e"))
        .warning(mark("w"))
        .info(mark("i"))
        .note(mark("n"))
        .help(mark("h"))
        .line_num(mark("l"))
        .emphasis(mark("em"))
        .none(mark("x"))
        .context(mark("c"))
        .addition(mark("a"))
        .removal(mark("r"));
    let s = &r.stylesheet;
    assert_eq!(on_off(&s.error), ("<e>", "</e>"));
    assert_eq!(on_off(&s.warning), ("<w>", "</w>"));
    assert_eq!(on_off(&s.info), ("<i>", "</i>"));
    assert_eq!(on_off(&s.note), ("<n>", "</n>"));
    assert_eq!(on_off(&s.help), ("<h>", "</h>"));
    assert_eq!(on_off(&s.line_no), ("<l>", "</l>"));
    assert_eq!(on_off(&s.emphasis), ("<em>", "</em>"));
    assert_eq!(on_off(&s.none), ("<x>", "</x>"));
    assert_eq!(on_off(&s.context), ("<c>", "</c>"));
    assert_eq!(on_off(&s.addition), ("<a>", "</a>"));
    assert_eq!(on_off(&s.removal), ("<r>", "</r>"));
    assert_eq!(r.term_width, 140);
}

#[test]
fn one_override_keeps_the_other_styles() {
    let r = Renderer::styled().warning(StyleCodes { on: String::new(), off: String::new() });
    assert_eq!(on_off(&r.stylesheet.warning), ("", ""));
    assert_eq!(on_off(&r.stylesheet.error), ("\x1b[1m\x1b[91m", "\x1b[0m"));
}
