use annotate_snippets::ascii_styles::{color, color2, plain, Style, StyleType};
use annotate_snippets::styles::{get_stylesheet, StyleClass, Stylesheet, StylesheetColor, StylesheetPlain};

#[test]
fn plain_stylesheet_writes_text_as_is() {
    let mut out = String::new();
    StylesheetPlain {}.format(&mut out, "error", &[StyleClass::TitleLine, StyleClass::AnnotationTypeError]);
    assert_eq!(out, "error");
    get_stylesheet().format(&mut out, "!", &[]);
    assert_eq!(out, "error!");
}

#[test]
fn color_stylesheet_paints_with_ansi_codes() {
    let mut out = String::new();
    StylesheetColor {}.format(&mut out, "x", &[]);
    assert_eq!(out, "x");
    let mut out = String::new();
    StylesheetColor {}.format(&mut out, "x", &[StyleClass::TitleLine]);
    assert_eq!(out, "\x1B[1mx\x1B[0m");
    let mut out = String::new();
    StylesheetColor {}.format(&mut out, "x", &[StyleClass::AnnotationTypeError]);
    assert_eq!(out, "\x1B[31mx\x1B[0m");
    let mut out = String::new();
    StylesheetColor {}.format(&mut out, "err", &[StyleClass::TitleLineAnnotationType, StyleClass::AnnotationTypeError]);
    assert_eq!(out, "\x1B[1;31merr\x1B[0m");
}

#[test]
fn ansi_term_style() {
    let mut out = String::new();
    <color::Style as Style>::fmt(&mut out, "x", &[StyleType::Emphasis, StyleType::Error]);
    assert_eq!(out, "\x1B[1;38;5;9mx\x1B[0m");
    let mut out = String::new();
    <color::Style as Style>::fmt(&mut out, "7", &[StyleType::LineNo]);
    assert_eq!(out, "\x1B[38;5;12m7\x1B[0m");
    let mut out = String::new();
    <color::Style as Style>::fmt(&mut out, "n", &[StyleType::Note, StyleType::NoStyle]);
    assert_eq!(out, "n");
    let mut out = String::new();
    <color::Style as Style>::fmt(&mut out, "w", &[StyleType::Error, StyleType::Warning]);
    assert_eq!(out, "\x1B[38;5;11mw\x1B[0m");
}

#[test]
fn termcolor_style() {
    let mut out = String::new();
    <color2::Style as Style>::fmt(&mut out, "x", &[]);
    assert_eq!(out, "\x1B[0mx\x1B[0m");
    let mut out = String::new();
    <color2::Style as Style>::fmt(&mut out, "x", &[StyleType::Emphasis, StyleType::Warning]);
    assert_eq!(out, "\x1B[0m\x1B[1m\x1B[33mx\x1B[0m");
    let mut out = String::new();
    <color2::Style as Style>::fmt(&mut out, "1", &[StyleType::LineNo]);
    assert_eq!(out, "\x1B[0m\x1B[38;5;12m1\x1B[0m");
    let mut out = String::new();
    <color2::Style as Style>::fmt(&mut out, "e", &[StyleType::Error, StyleType::Info]);
    assert_eq!(out, "\x1B[0m\x1B[31me\x1B[0m");
}

#[test]
fn plain_style() {
    let mut out = String::new();
    <plain::Style as Style>::fmt(&mut out, "x", &[StyleType::Error]);
    assert_eq!(out, "x");
}
