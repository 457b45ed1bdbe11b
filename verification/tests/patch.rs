use annotate_snippets::renderer::line_filter::{is_blank, trim_str};
use annotate_snippets::renderer::no_graphics::render_path;
use annotate_snippets::renderer::preprocess::DisplaySuggestion;
use annotate_snippets::renderer::source_map::SourceMap;
use annotate_snippets::snippet::{as_substr, Patch};
use annotate_snippets::text::{split_at_chars, str_eq};

#[test]
fn as_substr_finds_the_sandwiched_text() {
    assert_eq!(as_substr("AACC", "AABBCC"), Some((2, "BB", 2)));
    assert_eq!(as_substr("abc", "abcde"), Some((3, "de", 0)));
    assert_eq!(as_substr("abc", "abx"), None);
    assert_eq!(as_substr("", "new"), Some((0, "new", 0)));
    assert_eq!(as_substr("é", "éa"), Some((2, "a", 0)));
    assert_eq!(as_substr("ab", "ab"), Some((2, "", 0)));
}

#[test]
fn span_to_snippet_checks_bounds_and_characters() {
    let sm = SourceMap::new("let é = 1;", 1);
    assert_eq!(sm.span_to_snippet(0..3), Some("let"));
    assert_eq!(sm.span_to_snippet(4..6), Some("é"));
    assert_eq!(sm.span_to_snippet(4..5), None);
    assert_eq!(sm.span_to_snippet(3..2), None);
    assert_eq!(sm.span_to_snippet(0..100), None);
}

#[test]
fn patch_kinds() {
    let sm = SourceMap::new("let x = 1;", 1);
    let add = Patch::new(3..3, " mut");
    assert!(add.is_addition(&sm));
    assert!(!add.is_replacement(&sm));
    assert!(!add.is_deletion(&sm));
    let del = Patch::new(4..5, "");
    assert!(del.is_deletion(&sm));
    assert!(!del.is_addition(&sm));
    let rep = Patch::new(4..5, "y");
    assert!(rep.is_replacement(&sm));
    assert!(rep.is_destructive_replacement(&sm));
    let grow = Patch::new(4..5, "xy");
    assert!(grow.is_replacement(&sm));
    assert!(!grow.is_destructive_replacement(&sm));
    let ws = Patch::new(3..4, "  ");
    assert!(!ws.is_deletion(&sm));
    assert!(ws.is_addition(&sm));
    let outside = Patch::new(50..60, "z");
    assert!(outside.is_replacement(&sm));
}

#[test]
fn trivial_replacements_become_additions() {
    let sm = SourceMap::new("abc", 1);
    let mut p = Patch::new(0..3, "abXYc");
    p.trim_trivial_replacements(&sm);
    assert_eq!(p.span, 2..2);
    assert_eq!(p.replacement, "XY");
    let mut q = Patch::new(0..3, "zzz");
    q.trim_trivial_replacements(&sm);
    assert_eq!(q.span, 0..3);
    assert_eq!(q.replacement, "zzz");
    let mut e = Patch::new(0..3, "");
    e.trim_trivial_replacements(&sm);
    assert_eq!(e.span, 0..3);
}

#[test]
fn display_suggestions() {
    let sm = SourceMap::new("let x = 1;\n", 1);
    assert_eq!(DisplaySuggestion::new("let  = 1;", &[Patch::new(4..5, "")], &sm), DisplaySuggestion::Diff);
    assert_eq!(
        DisplaySuggestion::new("let y = 1;", &[Patch::new(4..5, "y")], &sm),
        DisplaySuggestion::Diff
    );
    assert_eq!(
        DisplaySuggestion::new("let xy = 1;", &[Patch::new(4..5, "xy")], &sm),
        DisplaySuggestion::Underline
    );
    assert_eq!(
        DisplaySuggestion::new("use a;\n", &[Patch::new(0..0, "use a;\n")], &sm),
        DisplaySuggestion::Add
    );
    assert_eq!(
        DisplaySuggestion::new("a\nb", &[Patch::new(0..0, "x")], &sm),
        DisplaySuggestion::Nothing
    );
}

#[test]
fn paths_in_words() {
    let mut out = String::new();
    render_path(&mut out, Some("a.rs"), Some(3), Some(7));
    assert_eq!(out, "at a.rs:3:7");
    let cases: Vec<(Option<&str>, Option<usize>, Option<usize>, &str)> = vec![
        (Some("a.rs"), Some(3), None, "at a.rs:3"),
        (Some("a.rs"), None, None, "at a.rs"),
        (None, Some(3), Some(7), "on line 3, column 7"),
        (None, Some(3), None, "on line 3"),
        (None, None, Some(7), "on column 7"),
        (Some("a.rs"), None, Some(7), "at a.rs"),
        (None, None, None, ""),
    ];
    for (p, l, c, expected) in cases {
        let mut out = String::new();
        render_path(&mut out, p, l, c);
        assert_eq!(out, expected);
    }
}

#[test]
fn text_helpers() {
    assert_eq!(trim_str("  a b \t"), "a b");
    assert_eq!(trim_str("   "), "");
    assert!(is_blank(" \n\t"));
    assert!(!is_blank(" x "));
    assert_eq!(split_at_chars("héllo", 2), ("hé", "llo"));
    assert!(str_eq("ab", "ab"));
    assert!(!str_eq("ab", "abc"));
}
