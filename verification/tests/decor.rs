use annotate_snippets::renderer::decor::{DecorStyle, ElementStyle};
use annotate_snippets::marks::MarkKind as AsciiMark;
use annotate_snippets::html::{digits, get_renderer, MarkKind as BoxMark};

#[test]
fn ascii_decor() {
    let d = DecorStyle::Ascii;
    assert_eq!(d.col_separator(), '|');
    assert_eq!(d.note_separator(true), "= ");
    assert_eq!(d.note_separator(false), "= ");
    assert_eq!(d.multi_suggestion_separator(), "|");
    assert_eq!(d.file_start(true), "--> ");
    assert_eq!(d.file_start(false), "--> ");
    assert_eq!(d.secondary_file_start(), "::: ");
    assert_eq!(d.diff(), '~');
    assert_eq!(d.margin(), "...");
}

#[test]
fn unicode_decor() {
    let d = DecorStyle::Unicode;
    assert_eq!(d.col_separator(), '│');
    assert_eq!(d.note_separator(true), "├ ");
    assert_eq!(d.note_separator(false), "╰ ");
    assert_eq!(d.multi_suggestion_separator(), "├╴");
    assert_eq!(d.file_start(true), " ╭▸ ");
    assert_eq!(d.file_start(false), " ├▸ ");
    assert_eq!(d.secondary_file_start(), " ⸬  ");
    assert_eq!(d.diff(), '±');
    assert_eq!(d.margin(), "…");
}

#[test]
fn underline_parts() {
    let p = DecorStyle::Ascii.underline(true);
    assert_eq!(p.style, ElementStyle::UnderlinePrimary);
    assert_eq!(p.underline, '^');
    assert_eq!(p.multiline_whole_line, '/');
    assert_eq!(p.top_left, ' ');
    let s = DecorStyle::Ascii.underline(false);
    assert_eq!(s.style, ElementStyle::UnderlineSecondary);
    assert_eq!(s.underline, '-');
    assert_eq!(s.multiline_horizontal, '_');
    let u = DecorStyle::Unicode.underline(true);
    assert_eq!(u.underline, '━');
    assert_eq!(u.label_start, '┯');
    assert_eq!(u.multiline_bottom_right_with_text, '┥');
    let v = DecorStyle::Unicode.underline(false);
    assert_eq!(v.label_start, '┬');
    assert_eq!(v.bottom_left, '└');
}

#[test]
fn mark_characters() {
    assert_eq!(AsciiMark::get(AsciiMark::Vertical), '|');
    assert_eq!(AsciiMark::get(AsciiMark::Horizontal), '-');
    assert_eq!(AsciiMark::get(AsciiMark::DownRight), '/');
    assert_eq!(AsciiMark::get(AsciiMark::UpRight), '|');
    assert_eq!(AsciiMark::get(AsciiMark::UpLeft), '^');
    assert_eq!(BoxMark::get(BoxMark::Vertical), '│');
    assert_eq!(BoxMark::get(BoxMark::Horizontal), '─');
    assert_eq!(BoxMark::get(BoxMark::DownRight), '┌');
    assert_eq!(BoxMark::get(BoxMark::UpRight), '└');
    assert_eq!(BoxMark::get(BoxMark::UpLeft), '┘');
    let _r = get_renderer();
}

#[test]
fn digit_counts() {
    assert_eq!(digits(0), 0);
    assert_eq!(digits(7), 1);
    assert_eq!(digits(10), 2);
    assert_eq!(digits(999), 3);
    assert_eq!(digits(usize::MAX), 20);
}
