use annotate_snippets::level::{Level, LevelInner};
use annotate_snippets::snippet::{
    Annotation, AnnotationKind, Element, Group, Origin, OptionCow, Padding, Patch, Snippet, Title,
};

#[test]
fn group_with_title_takes_level_and_title() {
    let title = Level::error().title("mismatched types").id("E0308");
    let group = Group::with_title(title);
    assert_eq!(group.primary_level.level, LevelInner::Error);
    assert_eq!(group.elements.len(), 1);
    match &group.elements[0] {
        Element::Title(t) => {
            assert_eq!(t.text, "mismatched types");
            assert_eq!(t.id.unwrap().id, Some("E0308"));
            assert_eq!(t.id.unwrap().url, None);
        }
        _ => panic!("expected a title"),
    }
}

#[test]
fn group_with_level_is_empty_until_elements_are_added() {
    let group = Group::with_level(Level::warning());
    assert!(group.is_empty());
    let group = group
        .element(Element::Padding(Padding))
        .elements(vec![Element::Origin(Origin::path("a.rs")), Element::Message(Level::note().message("m"))]);
    assert!(!group.is_empty());
    assert_eq!(group.elements.len(), 3);
    assert!(matches!(group.elements[0], Element::Padding(_)));
    assert!(matches!(group.elements[1], Element::Origin(_)));
    assert!(matches!(group.elements[2], Element::Message(_)));
}

#[test]
fn element_from_each_kind() {
    let t: Element = Level::help().title("t").into();
    assert!(matches!(t, Element::Title(_)));
    let m: Element = Level::info().message("m").into();
    assert!(matches!(m, Element::Message(_)));
    let c: Element = Snippet::<Annotation>::source("x").into();
    assert!(matches!(c, Element::Cause(_)));
    let s: Element = Snippet::<Patch>::source("x").into();
    assert!(matches!(s, Element::Suggestion(_)));
    let o: Element = Origin::path("p").into();
    assert!(matches!(o, Element::Origin(_)));
    let p: Element = Padding.into();
    assert!(matches!(p, Element::Padding(_)));
}

#[test]
fn title_id_and_url_are_kept_together() {
    let t: Title = Level::error().title("x").id_url("https://example.com").id("E1");
    let id = t.id.unwrap();
    assert_eq!(id.id, Some("E1"));
    assert_eq!(id.url, Some("https://example.com"));
    let t2 = Level::error().title("x").id("E1").id_url("u");
    assert_eq!(t2.id.unwrap().id, Some("E1"));
    assert_eq!(t2.id.unwrap().url, Some("u"));
}

#[test]
fn snippet_builders_set_each_field() {
    let s = Snippet::<Annotation>::source("fn main() {}")
        .line_start(7)
        .path("src/main.rs".into())
        .fold(false)
        .annotation(AnnotationKind::Primary.span(3..7).label("here".into()))
        .annotations(vec![AnnotationKind::Context.span(0..2)]);
    assert_eq!(s.source, "fn main() {}");
    assert_eq!(s.line_start, 7);
    assert_eq!(s.path, Some("src/main.rs"));
    assert!(!s.fold);
    assert_eq!(s.markers.len(), 2);
    assert_eq!(s.markers[0].span, 3..7);
    assert_eq!(s.markers[0].label, Some("here"));
    assert_eq!(s.markers[0].kind, AnnotationKind::Primary);
    assert_eq!(s.markers[1].kind, AnnotationKind::Context);
    assert_eq!(s.markers[1].label, None);
}

#[test]
fn snippet_source_defaults() {
    let s = Snippet::<Annotation>::source("abc");
    assert_eq!(s.line_start, 1);
    assert_eq!(s.path, None);
    assert!(s.fold);
    assert!(s.markers.is_empty());
    let s = s.path(OptionCow::from(None));
    assert_eq!(s.path, None);
}

#[test]
fn snippet_patches_are_appended_in_order() {
    let s = Snippet::<Patch>::source("let x = 1;")
        .patch(Patch::new(4..5, "y"))
        .patches(vec![Patch::new(8..9, "2"), Patch::new(9..9, ";")]);
    assert_eq!(s.markers.len(), 3);
    assert_eq!(s.markers[0].replacement, "y");
    assert_eq!(s.markers[1].span, 8..9);
    assert_eq!(s.markers[2].replacement, ";");
}

#[test]
fn annotation_kind_span_and_label() {
    let a = AnnotationKind::Context.span(1..4);
    assert_eq!(a.span, 1..4);
    assert_eq!(a.label, None);
    assert!(!a.highlight_source);
    assert!(!AnnotationKind::Context.is_primary());
    assert!(AnnotationKind::Primary.is_primary());
    let a = a.label("label".into()).highlight_source(true);
    assert_eq!(a.label, Some("label"));
    assert!(a.highlight_source);
    let a = a.label(OptionCow::from(None));
    assert_eq!(a.label, None);
}

#[test]
fn origin_builders() {
    let o = Origin::path("$DIR/mismatched-types.rs");
    assert_eq!(o.path, "$DIR/mismatched-types.rs");
    assert_eq!(o.line, None);
    assert_eq!(o.char_column, None);
    assert!(!o.primary);
    let o = o.line(3).char_column(14).primary(true);
    assert_eq!(o.line, Some(3));
    assert_eq!(o.char_column, Some(14));
    assert!(o.primary);
    let o2: Origin = "p.rs".into();
    assert_eq!(o2.path, "p.rs");
}

#[test]
fn level_names() {
    assert_eq!(Level::error().as_str(), "error");
    assert_eq!(Level::warning().as_str(), "warning");
    assert_eq!(Level::info().as_str(), "info");
    assert_eq!(Level::note().as_str(), "note");
    assert_eq!(Level::help().as_str(), "help");
    assert_eq!(Level::error().text(Some("custom")).as_str(), "custom");
    assert_eq!(Level::error().text(None).as_str(), "");
    assert_eq!(Level::error().text(None).level, LevelInner::Error);
}

#[test]
fn level_message_and_title() {
    let m = Level::note().message("a note");
    assert_eq!(m.text, "a note");
    assert_eq!(m.level.level, LevelInner::Note);
    let t = Level::help().title("a title");
    assert_eq!(t.text, "a title");
    assert!(t.id.is_none());
}
