//! Styled text output of a `ds_struct::DisplayList`: the line numbers,
//! marks and labels are painted in the style of their class.
use vstd::prelude::*;
use vstd::string::StringExecFns;

use crate::cursor_line::{collect_lines, EndLine};
use crate::display_list::ds_struct::{
    DisplayAnnotationPart, DisplayAnnotationType, DisplayHeaderType, DisplayLine, DisplayList, DisplayMark,
    DisplayMarkType, DisplayTextFragment,
};
use crate::format::{gutter, lemma_lines_view, lines_block, piece_texts, push_lines_block, text_lines};
use crate::output::{decimal, pad_left, push_char, push_decimal, push_decimal_padded, push_spaces, repeat_char};
use crate::text::{decimal_digits, lemma_encode_concat};

verus! {

/// The classes of text that a stylesheet paints.
#[derive(Debug, Clone, Copy, PartialEq, Eq, Structural)]
pub enum StyleClass {
    Error,
    Warning,
    Info,
    Note,
    Help,
    LineNo,
}

/// How a class of text is painted: the codes around it, plainly and in
/// bold.
pub struct ClassStyle {
    pub on: String,
    pub off: String,
    pub bold_on: String,
    pub bold_off: String,
}

/// The codes of a class style.
pub struct ClassView {
    pub on: Seq<char>,
    pub off: Seq<char>,
    pub bold_on: Seq<char>,
    pub bold_off: Seq<char>,
}

impl View for ClassStyle {
    type V = ClassView;

    open spec fn view(&self) -> ClassView {
        ClassView { on: self.on@, off: self.off@, bold_on: self.bold_on@, bold_off: self.bold_off@ }
    }
}

/// A class style without codes.
pub open spec fn no_color_class() -> ClassView {
    ClassView { on: Seq::empty(), off: Seq::empty(), bold_on: Seq::empty(), bold_off: Seq::empty() }
}

impl ClassStyle {
    /// A style that writes text as it is, bold or not.
    pub fn no_color() -> (s: ClassStyle)
        ensures
            s@ == no_color_class(),
    {
        ClassStyle { on: String::new(), off: String::new(), bold_on: String::new(), bold_off: String::new() }
    }
}

/// The style of each class of text.
pub struct Stylesheet {
    pub error: ClassStyle,
    pub warning: ClassStyle,
    pub info: ClassStyle,
    pub note: ClassStyle,
    pub help: ClassStyle,
    pub line_no: ClassStyle,
}

/// The codes of each class of a stylesheet.
pub struct SheetView {
    pub error: ClassView,
    pub warning: ClassView,
    pub info: ClassView,
    pub note: ClassView,
    pub help: ClassView,
    pub line_no: ClassView,
}

impl View for Stylesheet {
    type V = SheetView;

    open spec fn view(&self) -> SheetView {
        SheetView {
            error: self.error@,
            warning: self.warning@,
            info: self.info@,
            note: self.note@,
            help: self.help@,
            line_no: self.line_no@,
        }
    }
}

/// The stylesheet that paints nothing.
pub open spec fn no_color_sheet() -> SheetView {
    SheetView {
        error: no_color_class(),
        warning: no_color_class(),
        info: no_color_class(),
        note: no_color_class(),
        help: no_color_class(),
        line_no: no_color_class(),
    }
}

/// The style a stylesheet gives a class.
pub open spec fn style_of(ss: SheetView, class: StyleClass) -> ClassView {
    match class {
        StyleClass::Error => ss.error,
        StyleClass::Warning => ss.warning,
        StyleClass::Info => ss.info,
        StyleClass::Note => ss.note,
        StyleClass::Help => ss.help,
        StyleClass::LineNo => ss.line_no,
    }
}

impl Stylesheet {
    /// The stylesheet that paints nothing.
    pub fn no_color() -> (s: Stylesheet)
        ensures
            s@ == no_color_sheet(),
    {
        Stylesheet {
            error: ClassStyle::no_color(),
            warning: ClassStyle::no_color(),
            info: ClassStyle::no_color(),
            note: ClassStyle::no_color(),
            help: ClassStyle::no_color(),
            line_no: ClassStyle::no_color(),
        }
    }

    /// The style of a class.
    pub fn get_style(&self, class: StyleClass) -> (res: &ClassStyle)
        ensures
            res@ == style_of(self@, class),
    {
        match class {
            StyleClass::Error => &self.error,
            StyleClass::Warning => &self.warning,
            StyleClass::Info => &self.info,
            StyleClass::Note => &self.note,
            StyleClass::Help => &self.help,
            StyleClass::LineNo => &self.line_no,
        }
    }
}

/// Text painted in a style.
pub open spec fn paint(s: ClassView, t: Seq<char>) -> Seq<char> {
    s.on + t + s.off
}

/// Text painted in the bold form of a style.
pub open spec fn paint_bold(s: ClassView, t: Seq<char>) -> Seq<char> {
    s.bold_on + t + s.bold_off
}

/// The class an annotation type is painted in.
pub open spec fn class_of(t: DisplayAnnotationType) -> StyleClass {
    match t {
        DisplayAnnotationType::Error => StyleClass::Error,
        DisplayAnnotationType::Warning => StyleClass::Warning,
        DisplayAnnotationType::Info => StyleClass::Info,
        DisplayAnnotationType::Note => StyleClass::Note,
        DisplayAnnotationType::Help => StyleClass::Help,
    }
}

/// The name written for an annotation type.
pub open spec fn type_text(t: DisplayAnnotationType) -> Seq<char> {
    match t {
        DisplayAnnotationType::Error => seq!['e', 'r', 'r', 'o', 'r'],
        DisplayAnnotationType::Warning => seq!['w', 'a', 'r', 'n', 'i', 'n', 'g'],
        DisplayAnnotationType::Info => seq!['i', 'n', 'f', 'o'],
        DisplayAnnotationType::Note => seq!['n', 'o', 't', 'e'],
        DisplayAnnotationType::Help => seq!['h', 'e', 'l', 'p'],
    }
}

/// The text of a label: its fragments one after another.
pub open spec fn label_chars(label: Seq<DisplayTextFragment>) -> Seq<char>
    decreases label.len(),
{
    if label.len() == 0 {
        Seq::empty()
    } else {
        label_chars(label.drop_last()) + label.last().content@
    }
}

/// Inline marks, each painted in the class of its annotation.
pub open spec fn painted_marks(ss: SheetView, marks: Seq<DisplayMark>) -> Seq<char>
    decreases marks.len(),
{
    if marks.len() == 0 {
        Seq::empty()
    } else {
        let m = marks.last();
        painted_marks(ss, marks.drop_last()) + paint(
            style_of(ss, class_of(m.annotation_type)),
            seq![
                match m.mark_type {
                    DisplayMarkType::AnnotationThrough => '|',
                    DisplayMarkType::AnnotationStart => '/',
                },
            ],
        )
    }
}

/// The inline marks, right-aligned in a column `width` wide.
pub open spec fn marks_text(ss: SheetView, marks: Seq<DisplayMark>, width: nat) -> Seq<char> {
    repeat_char(' ', (width - marks.len()) as nat) + painted_marks(ss, marks)
}

/// The underline of `range` with the line number column and the marks in
/// front of it.
pub open spec fn underline_head(
    ss: SheetView,
    lineno_width: nat,
    marks: Seq<char>,
    range: (usize, usize),
    t: DisplayAnnotationType,
    part: DisplayAnnotationPart,
) -> Seq<char> {
    let color = style_of(ss, class_of(t));
    let mark = match t {
        DisplayAnnotationType::Error => '^',
        _ => '-',
    };
    paint(ss.line_no, gutter(lineno_width)) + marks + lead_in_text(part, color, range.0 as nat) + paint(
        color,
        repeat_char(mark, (range.1 - range.0) as nat),
    )
}

/// What follows the underline: the first label line painted beside it and
/// each further one below it, indented to the end of the underline.
pub open spec fn underline_tail(
    ss: SheetView,
    lineno_width: nat,
    marks: Seq<char>,
    range: (usize, usize),
    label: Seq<DisplayTextFragment>,
    t: DisplayAnnotationType,
) -> Seq<char> {
    let color = style_of(ss, class_of(t));
    let ls = text_lines(label_chars(label));
    if ls.len() == 0 {
        seq!['\n']
    } else {
        seq![' '] + paint(color, ls[0]) + seq!['\n'] + painted_block(
            paint(ss.line_no, gutter(lineno_width)) + marks + repeat_char(' ', range.1 as nat) + seq![' '],
            color,
            ls.skip(1),
        )
    }
}

/// The lines drawn under a source line: the painted underline of `range`
/// with the first painted label line beside it, and each further label line
/// below it, indented to the end of the underline.
pub open spec fn underline_text(
    ss: SheetView,
    lineno_width: nat,
    marks: Seq<char>,
    range: (usize, usize),
    label: Seq<DisplayTextFragment>,
    t: DisplayAnnotationType,
    part: DisplayAnnotationPart,
) -> Seq<char> {
    underline_head(ss, lineno_width, marks, range, t, part) + underline_tail(ss, lineno_width, marks, range, label, t)
}

/// Each line painted, behind `prefix`, each ended by a newline.
pub open spec fn painted_block(prefix: Seq<char>, color: ClassView, ls: Seq<Seq<char>>) -> Seq<char>
    decreases ls.len(),
{
    if ls.len() == 0 {
        Seq::empty()
    } else {
        painted_block(prefix, color, ls.drop_last()) + prefix + paint(color, ls.last()) + seq!['\n']
    }
}

/// The name of an annotation: its type and its id in brackets.
pub open spec fn name_text(t: DisplayAnnotationType, id: Option<Seq<char>>) -> Seq<char> {
    match id {
        Some(i) => type_text(t) + seq!['['] + i + seq![']'],
        None => type_text(t),
    }
}

/// A message line: the alignment and the name in bold, `: ` and the first
/// label line; each further label line indented by the byte length of what
/// precedes the first. A label without lines writes nothing.
pub open spec fn message_text(
    ss: SheetView,
    lineno_width: nat,
    t: DisplayAnnotationType,
    id: Option<Seq<char>>,
    aligned: bool,
    label: Seq<DisplayTextFragment>,
) -> Seq<char> {
    let ls = text_lines(label_chars(label));
    let lead = message_lead(ss, lineno_width, t, id, aligned);
    if ls.len() == 0 {
        Seq::empty()
    } else {
        lead.0 + ls[0] + seq!['\n'] + lines_block(repeat_char(' ', lead.1), ls.skip(1))
    }
}

/// The view of an optional owned text.
pub open spec fn opt_chars(id: Option<String>) -> Option<Seq<char>> {
    match id {
        Some(s) => Some(s@),
        None => None,
    }
}

/// What the code writes for one line of the list: each of its output lines
/// ended by a newline.
pub open spec fn styled_line_block(ss: SheetView, dl: DisplayLine, lineno_width: nat, inline_marks_width: nat) -> Seq<
    char,
> {
    match dl {
        DisplayLine::Annotation { label, id, aligned, annotation_type } => message_text(
            ss,
            lineno_width,
            annotation_type,
            opt_chars(id),
            aligned,
            label@,
        ),
        DisplayLine::Origin { path, pos, header_type } => repeat_char(' ', lineno_width) + paint(
            ss.line_no,
            match header_type {
                DisplayHeaderType::Initial => seq!['-', '-', '>'],
                DisplayHeaderType::Continuation => seq![':', ':', ':'],
            },
        ) + seq![' '] + path@ + match pos {
            Some((row, col)) => seq![':'] + decimal(row as nat) + seq![':'] + decimal(col as nat),
            None => Seq::empty(),
        } + seq!['\n'],
        DisplayLine::EmptySource => paint(ss.line_no, gutter(lineno_width)) + seq!['\n'],
        DisplayLine::Source { lineno, inline_marks, content, .. } => paint(
            ss.line_no,
            pad_left(decimal(lineno as nat), lineno_width) + seq![' ', '|'],
        ) + marks_text(ss, inline_marks@, inline_marks_width) + seq![' '] + content@ + seq!['\n'],
        DisplayLine::SourceAnnotation { inline_marks, range, label, annotation_type, annotation_part } =>
            underline_text(
            ss,
            lineno_width,
            marks_text(ss, inline_marks@, inline_marks_width),
            range,
            label@,
            annotation_type,
            annotation_part,
        ),
        DisplayLine::Fold { inline_marks } => seq!['.', '.', '.', ' '] + marks_text(
            ss,
            inline_marks@,
            inline_marks_width,
        ) + seq!['\n'],
    }
}

/// What a line needs to be written without a panic: an id short enough to
/// add up its indent, an underline that does not end before it starts, and
/// no more marks than the column holds.
pub open spec fn styled_line_writable(dl: DisplayLine, lineno_width: nat, inline_marks_width: nat) -> bool {
    match dl {
        DisplayLine::Annotation { id, .. } => match id {
            Some(i) => lineno_width + vstd::utf8::encode_utf8(i@).len() + 32 <= usize::MAX,
            None => lineno_width + 32 <= usize::MAX,
        },
        DisplayLine::Source { inline_marks, .. } => inline_marks@.len() <= inline_marks_width,
        DisplayLine::SourceAnnotation { inline_marks, range, .. } => range.0 <= range.1 && inline_marks@.len()
            <= inline_marks_width,
        DisplayLine::Fold { inline_marks } => inline_marks@.len() <= inline_marks_width,
        _ => true,
    }
}

/// Formats a `DisplayList` with a stylesheet.
pub struct DisplayListFormatter {
    pub stylesheet: Stylesheet,
}

fn paint_str(out: &mut String, style: &ClassStyle, text: &str)
    ensures
        final(out)@ == old(out)@ + paint(style@, text@),
{
    out.append(style.on.as_str());
    out.append(text);
    out.append(style.off.as_str());
}

fn paint_bold_str(out: &mut String, style: &ClassStyle, text: &str)
    ensures
        final(out)@ == old(out)@ + paint_bold(style@, text@),
{
    out.append(style.bold_on.as_str());
    out.append(text);
    out.append(style.bold_off.as_str());
}

fn class_for(t: &DisplayAnnotationType) -> (c: StyleClass)
    ensures
        c == class_of(*t),
{
    match t {
        DisplayAnnotationType::Error => StyleClass::Error,
        DisplayAnnotationType::Warning => StyleClass::Warning,
        DisplayAnnotationType::Info => StyleClass::Info,
        DisplayAnnotationType::Note => StyleClass::Note,
        DisplayAnnotationType::Help => StyleClass::Help,
    }
}

impl DisplayListFormatter {
    /// A formatter; colours come from a coloured stylesheet where the
    /// library has one, and there is none here, so both choices paint
    /// nothing.
    pub fn new(color: bool) -> (res: Self)
        ensures
            res.stylesheet@ == no_color_sheet(),
    {
        if color {
            Self { stylesheet: Stylesheet::no_color() }
        } else {
            Self { stylesheet: Stylesheet::no_color() }
        }
    }

    /// The name of an annotation type.
    pub fn format_annotation_type(&self, annotation_type: &DisplayAnnotationType) -> (res: String)
        ensures
            res@ == type_text(*annotation_type),
    {
        proof {
            reveal_strlit("error");
            reveal_strlit("warning");
            reveal_strlit("info");
            reveal_strlit("note");
            reveal_strlit("help");
        }
        match annotation_type {
            DisplayAnnotationType::Error => "error".to_owned(),
            DisplayAnnotationType::Warning => "warning".to_owned(),
            DisplayAnnotationType::Info => "info".to_owned(),
            DisplayAnnotationType::Note => "note".to_owned(),
            DisplayAnnotationType::Help => "help".to_owned(),
        }
    }

    /// The text of a label, its fragments joined (emphasis is not shown).
    pub fn format_label(&self, label: &[DisplayTextFragment]) -> (res: String)
        ensures
            res@ == label_chars(label@),
    {
        let mut s = String::new();
        let mut i: usize = 0;
        while i < label.len()
            invariant
                i <= label@.len(),
                s@ == label_chars(label@.take(i as int)),
            decreases label.len() - i,
        {
            assert(label@.take(i + 1).drop_last() =~= label@.take(i as int));
            s.append(label[i].content.as_str());
            i += 1;
        }
        assert(label@.take(i as int) =~= label@);
        s
    }

    /// The inline marks right-aligned in a column `inline_marks_width` wide,
    /// each painted in the class of its annotation.
    pub fn format_inline_marks(&self, inline_marks: &[DisplayMark], inline_marks_width: usize) -> (res: String)
        requires
            inline_marks@.len() <= inline_marks_width,
        ensures
            res@ == marks_text(self.stylesheet@, inline_marks@, inline_marks_width as nat),
    {
        let mut s = String::new();
        push_spaces(&mut s, inline_marks_width - inline_marks.len());
        let ghost pad = s@;
        let mut i: usize = 0;
        while i < inline_marks.len()
            invariant
                i <= inline_marks@.len(),
                s@ == pad + painted_marks(self.stylesheet@, inline_marks@.take(i as int)),
            decreases inline_marks.len() - i,
        {
            let mark = inline_marks[i];
            let color = self.stylesheet.get_style(class_for(&mark.annotation_type));
            s.append(color.on.as_str());
            push_char(
                &mut s,
                match mark.mark_type {
                    DisplayMarkType::AnnotationThrough => '|',
                    DisplayMarkType::AnnotationStart => '/',
                },
            );
            s.append(color.off.as_str());
            assert(inline_marks@.take(i + 1).drop_last() =~= inline_marks@.take(i as int));
            i += 1;
        }
        assert(inline_marks@.take(i as int) =~= inline_marks@);
        s
    }
}

fn push_painted_block<'a>(out: &mut String, prefix: &str, color: &ClassStyle, lines: &Vec<(&'a str, EndLine)>, from: usize)
    requires
        from <= lines@.len(),
    ensures
        final(out)@ == old(out)@ + painted_block(prefix@, color@, piece_texts(lines@).skip(from as int)),
{
    let ghost start = out@;
    let ghost all = piece_texts(lines@);
    let mut i: usize = from;
    proof {
        assert(all.subrange(from as int, from as int) =~= Seq::<Seq<char>>::empty());
    }
    while i < lines.len()
        invariant
            from <= i <= lines@.len(),
            all == piece_texts(lines@),
            out@ == start + painted_block(prefix@, color@, all.subrange(from as int, i as int)),
        decreases lines.len() - i,
    {
        out.append(prefix);
        paint_str(out, color, lines[i].0);
        push_char(out, '\n');
        assert(all.subrange(from as int, i + 1).drop_last() =~= all.subrange(from as int, i as int));
        i += 1;
    }
    assert(all.subrange(from as int, i as int) =~= all.skip(from as int));
}

impl DisplayListFormatter {
    /// Writes the painted underline of `range` under a source line, with the
    /// label's first line beside it and its further lines below.
    pub fn format_source_annotation_lines(
        &self,
        out: &mut String,
        lineno_width: usize,
        inline_marks: String,
        range: &(usize, usize),
        label: &[DisplayTextFragment],
        annotation_type: &DisplayAnnotationType,
        annotation_part: &DisplayAnnotationPart,
    )
        requires
            range.0 <= range.1,
        ensures
            final(out)@ == old(out)@ + underline_text(
                self.stylesheet@,
                lineno_width as nat,
                inline_marks@,
                *range,
                label@,
                *annotation_type,
                *annotation_part,
            ),
    {
        self.write_underline_head(out, lineno_width, inline_marks.as_str(), range, annotation_type, annotation_part);
        self.write_underline_tail(out, lineno_width, inline_marks.as_str(), range, label, annotation_type);
    }

    fn write_underline_head(
        &self,
        out: &mut String,
        lineno_width: usize,
        inline_marks: &str,
        range: &(usize, usize),
        annotation_type: &DisplayAnnotationType,
        annotation_part: &DisplayAnnotationPart,
    )
        requires
            range.0 <= range.1,
        ensures
            final(out)@ == old(out)@ + underline_head(
                self.stylesheet@,
                lineno_width as nat,
                inline_marks@,
                *range,
                *annotation_type,
                *annotation_part,
            ),
    {
        let lineno = gutter_string(lineno_width);
        let color = self.stylesheet.get_style(class_for(annotation_type));
        let mark = match annotation_type {
            DisplayAnnotationType::Error => '^',
            _ => '-',
        };
        let indent = lead_in(annotation_part, color, range.0);
        let marks = repeated(mark, range.1 - range.0);
        let ghost start = out@;
        paint_str(out, &self.stylesheet.line_no, lineno.as_str());
        out.append(inline_marks);
        out.append(indent.as_str());
        paint_str(out, color, marks.as_str());
        assert(out@ =~= start + (paint(self.stylesheet.line_no@, lineno@) + inline_marks@ + indent@ + paint(
            color@,
            marks@,
        )));
    }

    fn write_underline_tail(
        &self,
        out: &mut String,
        lineno_width: usize,
        inline_marks: &str,
        range: &(usize, usize),
        label: &[DisplayTextFragment],
        annotation_type: &DisplayAnnotationType,
    )
        ensures
            final(out)@ == old(out)@ + underline_tail(
                self.stylesheet@,
                lineno_width as nat,
                inline_marks@,
                *range,
                label@,
                *annotation_type,
            ),
    {
        let lineno = gutter_string(lineno_width);
        let color = self.stylesheet.get_style(class_for(annotation_type));
        let text = self.format_label(label);
        let text_str = text.as_str();
        let lines = collect_lines(text_str);
        proof {
            lemma_lines_view(text_str, lines@);
        }
        let ghost ls = text_lines(label_chars(label@));
        assert(piece_texts(lines@) == ls);
        assert(color@ == style_of(self.stylesheet@, class_of(*annotation_type)));
        let ghost start = out@;
        if lines.len() > 0 {
            push_char(out, ' ');
            paint_str(out, color, lines[0].0);
            push_char(out, '\n');
            let ghost mid = out@;
            let mut prefix = String::new();
            paint_str(&mut prefix, &self.stylesheet.line_no, lineno.as_str());
            prefix.append(inline_marks);
            push_spaces(&mut prefix, range.1);
            push_char(&mut prefix, ' ');
            assert(prefix@ =~= paint(self.stylesheet.line_no@, gutter(lineno_width as nat)) + inline_marks@ + repeat_char(
                ' ',
                range.1 as nat,
            ) + seq![' ']);
            push_painted_block(out, prefix.as_str(), color, &lines, 1);
            assert(out@ =~= start + (seq![' '] + paint(color@, ls[0]) + seq!['\n'] + painted_block(
                prefix@,
                color@,
                ls.skip(1),
            )));
        } else {
            push_char(out, '\n');
            assert(out@ =~= start + seq!['\n']);
        }
    }
}

/// What leads up to an underline: spaces for a single-line annotation, a
/// painted run of `_` for the ends of a multiline one.
pub open spec fn lead_in_text(part: DisplayAnnotationPart, color: ClassView, n: nat) -> Seq<char> {
    match part {
        DisplayAnnotationPart::Singleline => repeat_char(' ', n),
        _ => paint(color, repeat_char('_', n)),
    }
}

fn repeated(c: char, n: usize) -> (res: String)
    ensures
        res@ == repeat_char(c, n as nat),
{
    let mut s = String::new();
    let mut k: usize = 0;
    while k < n
        invariant
            k <= n,
            s@ == repeat_char(c, k as nat),
        decreases n - k,
    {
        push_char(&mut s, c);
        assert(repeat_char(c, (k + 1) as nat) =~= repeat_char(c, k as nat).push(c));
        k += 1;
    }
    s
}

fn lead_in(part: &DisplayAnnotationPart, color: &ClassStyle, n: usize) -> (res: String)
    ensures
        res@ == lead_in_text(*part, color@, n as nat),
{
    match part {
        DisplayAnnotationPart::Singleline => repeated(' ', n),
        _ => {
            let mut s = String::new();
            let run = repeated('_', n);
            paint_str(&mut s, color, run.as_str());
            assert(s@ =~= lead_in_text(*part, color@, n as nat));
            s
        },
    }
}

fn gutter_string(lineno_width: usize) -> (res: String)
    ensures
        res@ == gutter(lineno_width as nat),
{
    let mut lineno = String::new();
    push_spaces(&mut lineno, lineno_width);
    push_char(&mut lineno, ' ');
    push_char(&mut lineno, '|');
    assert(lineno@ =~= gutter(lineno_width as nat));
    lineno
}

pub(crate) proof fn lemma_name_text_bytes(t: DisplayAnnotationType, id: Option<Seq<char>>)
    ensures
        vstd::utf8::encode_utf8(name_text(t, id)).len() == type_text(t).len() + match id {
            Some(i) => vstd::utf8::encode_utf8(i).len() + 2,
            None => 0,
        },
{
    let n = type_text(t);
    assert(vstd::utf8::is_ascii_chars(n));
    vstd::utf8::is_ascii_chars_encode_utf8(n);
    match id {
        Some(i) => {
            let open = seq!['['];
            let close = seq![']'];
            assert(vstd::utf8::is_ascii_chars(open));
            assert(vstd::utf8::is_ascii_chars(close));
            vstd::utf8::is_ascii_chars_encode_utf8(open);
            vstd::utf8::is_ascii_chars_encode_utf8(close);
            lemma_encode_concat(n, open);
            lemma_encode_concat(n + open, i);
            lemma_encode_concat(n + open + i, close);
        },
        None => {},
    }
}

/// The bold alignment and name of a message line with its colon, and the
/// byte length of the alignment and the name, plus two.
pub open spec fn message_lead(ss: SheetView, lineno_width: nat, t: DisplayAnnotationType, id: Option<Seq<char>>, aligned: bool) -> (
    Seq<char>,
    nat,
) {
    let name = name_text(t, id);
    let prefix = if aligned {
        repeat_char(' ', lineno_width) + seq![' ', '=', ' ']
    } else {
        Seq::empty()
    };
    (
        paint_bold(ss.line_no, prefix) + paint_bold(style_of(ss, class_of(t)), name) + seq![':', ' '],
        vstd::utf8::encode_utf8(prefix).len() + vstd::utf8::encode_utf8(name).len() + 2,
    )
}

impl DisplayListFormatter {
    fn write_message_lead(
        &self,
        lineno_width: usize,
        annotation_type: &DisplayAnnotationType,
        id: &Option<String>,
        aligned: bool,
    ) -> (res: (String, usize))
        requires
            match id {
                Some(i) => lineno_width + vstd::utf8::encode_utf8(i@).len() + 32 <= usize::MAX,
                None => lineno_width + 32 <= usize::MAX,
            },
        ensures
            res.0@ == message_lead(self.stylesheet@, lineno_width as nat, *annotation_type, opt_chars(*id), aligned).0,
            res.1 == message_lead(self.stylesheet@, lineno_width as nat, *annotation_type, opt_chars(*id), aligned).1,
    {
        let mut prefix = String::new();
        if aligned {
            push_spaces(&mut prefix, lineno_width);
            push_char(&mut prefix, ' ');
            push_char(&mut prefix, '=');
            push_char(&mut prefix, ' ');
        }
        let mut name = self.format_annotation_type(annotation_type);
        match id {
            Some(i) => {
                push_char(&mut name, '[');
                name.append(i.as_str());
                push_char(&mut name, ']');
            },
            None => {},
        }
        let ghost pfx = if aligned {
            repeat_char(' ', lineno_width as nat) + seq![' ', '=', ' ']
        } else {
            Seq::<char>::empty()
        };
        assert(prefix@ =~= pfx);
        assert(name@ =~= name_text(*annotation_type, opt_chars(*id)));
        proof {
            assert(vstd::utf8::is_ascii_chars(pfx));
            vstd::utf8::is_ascii_chars_encode_utf8(pfx);
            lemma_name_text_bytes(*annotation_type, opt_chars(*id));
        }
        let indent = prefix.as_str().len() + name.as_str().len() + 2;
        let color = self.stylesheet.get_style(class_for(annotation_type));
        let lineno_color = self.stylesheet.get_style(StyleClass::LineNo);
        let mut lead = String::new();
        paint_bold_str(&mut lead, lineno_color, prefix.as_str());
        paint_bold_str(&mut lead, color, name.as_str());
        push_char(&mut lead, ':');
        push_char(&mut lead, ' ');
        assert(lead@ =~= message_lead(self.stylesheet@, lineno_width as nat, *annotation_type, opt_chars(*id), aligned).0);
        (lead, indent)
    }

    #[verifier::spinoff_prover]
    #[verifier::rlimit(40)]
    fn write_message(
        &self,
        out: &mut String,
        lineno_width: usize,
        annotation_type: &DisplayAnnotationType,
        id: &Option<String>,
        aligned: bool,
        label: &[DisplayTextFragment],
    )
        requires
            match id {
                Some(i) => lineno_width + vstd::utf8::encode_utf8(i@).len() + 32 <= usize::MAX,
                None => lineno_width + 32 <= usize::MAX,
            },
        ensures
            final(out)@ == old(out)@ + message_text(
                self.stylesheet@,
                lineno_width as nat,
                *annotation_type,
                opt_chars(*id),
                aligned,
                label@,
            ),
    {
        let text = self.format_label(label);
        let text_str = text.as_str();
        let lines = collect_lines(text_str);
        proof {
            lemma_lines_view(text_str, lines@);
        }
        let ghost ls = text_lines(label_chars(label@));
        assert(piece_texts(lines@) == ls);
        let ghost start = out@;
        if lines.len() > 0 {
            let (lead, indent) = self.write_message_lead(lineno_width, annotation_type, id, aligned);
            out.append(lead.as_str());
            out.append(lines[0].0);
            push_char(out, '\n');
            let mut pad = String::new();
            push_spaces(&mut pad, indent);
            let ghost mid = out@;
            push_lines_block(out, pad.as_str(), &lines, 1);
            let ghost lead_v = message_lead(self.stylesheet@, lineno_width as nat, *annotation_type, opt_chars(*id), aligned);
            assert(mid == start + lead_v.0 + ls[0] + seq!['\n']);
            assert(out@ == mid + lines_block(repeat_char(' ', lead_v.1), ls.skip(1)));
            assert(out@ =~= start + message_text(
                self.stylesheet@,
                lineno_width as nat,
                *annotation_type,
                opt_chars(*id),
                aligned,
                label@,
            ));
        }
    }
}

impl DisplayListFormatter {
    /// Writes one line of the list with columns `lineno_width` and
    /// `inline_marks_width` wide, each of its output lines ended by a newline.
    fn write_line_block(&self, out: &mut String, dl: &DisplayLine, lineno_width: usize, inline_marks_width: usize)
        requires
            styled_line_writable(*dl, lineno_width as nat, inline_marks_width as nat),
        ensures
            final(out)@ == old(out)@ + styled_line_block(
                self.stylesheet@,
                *dl,
                lineno_width as nat,
                inline_marks_width as nat,
            ),
    {
        proof {
            reveal_strlit("-->");
            reveal_strlit(":::");
            reveal_strlit("... ");
        }
        let ghost start = out@;
        let lineno_color = self.stylesheet.get_style(StyleClass::LineNo);
        match dl {
            DisplayLine::Annotation { annotation_type, id, aligned, label } => {
                self.write_message(out, lineno_width, annotation_type, id, *aligned, label.as_slice());
            },
            DisplayLine::Origin { path, pos, header_type } => {
                let header_sigil: &str = match header_type {
                    DisplayHeaderType::Initial => "-->",
                    DisplayHeaderType::Continuation => ":::",
                };
                push_spaces(out, lineno_width);
                paint_str(out, lineno_color, header_sigil);
                push_char(out, ' ');
                out.append(path.as_str());
                match pos {
                    Some((row, col)) => {
                        push_char(out, ':');
                        push_decimal(out, *row);
                        push_char(out, ':');
                        push_decimal(out, *col);
                    },
                    None => {},
                }
                push_char(out, '\n');
                assert(out@ =~= start + styled_line_block(
                    self.stylesheet@,
                    *dl,
                    lineno_width as nat,
                    inline_marks_width as nat,
                ));
            },
            DisplayLine::EmptySource => {
                let prefix = gutter_string(lineno_width);
                paint_str(out, lineno_color, prefix.as_str());
                push_char(out, '\n');
                assert(out@ =~= start + styled_line_block(
                    self.stylesheet@,
                    *dl,
                    lineno_width as nat,
                    inline_marks_width as nat,
                ));
            },
            DisplayLine::Source { lineno, inline_marks, content, .. } => {
                let mut prefix = String::new();
                push_decimal_padded(&mut prefix, *lineno, lineno_width);
                push_char(&mut prefix, ' ');
                push_char(&mut prefix, '|');
                paint_str(out, lineno_color, prefix.as_str());
                let marks = self.format_inline_marks(inline_marks.as_slice(), inline_marks_width);
                out.append(marks.as_str());
                push_char(out, ' ');
                out.append(content.as_str());
                push_char(out, '\n');
                assert(out@ =~= start + styled_line_block(
                    self.stylesheet@,
                    *dl,
                    lineno_width as nat,
                    inline_marks_width as nat,
                ));
            },
            DisplayLine::SourceAnnotation { inline_marks, range, label, annotation_type, annotation_part } => {
                let marks = self.format_inline_marks(inline_marks.as_slice(), inline_marks_width);
                self.format_source_annotation_lines(
                    out,
                    lineno_width,
                    marks,
                    range,
                    label.as_slice(),
                    annotation_type,
                    annotation_part,
                );
            },
            DisplayLine::Fold { inline_marks } => {
                out.append("... ");
                let marks = self.format_inline_marks(inline_marks.as_slice(), inline_marks_width);
                out.append(marks.as_str());
                push_char(out, '\n');
                assert(out@ =~= start + styled_line_block(
                    self.stylesheet@,
                    *dl,
                    lineno_width as nat,
                    inline_marks_width as nat,
                ));
            },
        }
    }
}

impl DisplayListFormatter {
    /// Writes one line of the list with columns `lineno_width` and
    /// `inline_marks_width` wide; a line that takes several output lines
    /// separates them by newlines, and no newline follows the last.
    pub fn format_line(&self, out: &mut String, dl: &DisplayLine, lineno_width: usize, inline_marks_width: usize)
        requires
            styled_line_writable(*dl, lineno_width as nat, inline_marks_width as nat),
        ensures
            final(out)@ == old(out)@ + styled_line_text(
                self.stylesheet@,
                *dl,
                lineno_width as nat,
                inline_marks_width as nat,
            ),
    {
        let mut block = String::new();
        self.write_line_block(&mut block, dl, lineno_width, inline_marks_width);
        assert(block@ =~= Seq::<char>::empty() + styled_line_block(
            self.stylesheet@,
            *dl,
            lineno_width as nat,
            inline_marks_width as nat,
        ));
        push_without_final_newline(out, &block);
    }
}

/// The most digits of a source line's number.
pub open spec fn number_width(body: Seq<DisplayLine>) -> nat
    decreases body.len(),
{
    if body.len() == 0 {
        0
    } else {
        let m = number_width(body.drop_last());
        match body.last() {
            DisplayLine::Source { lineno, .. } => if decimal(lineno as nat).len() > m {
                decimal(lineno as nat).len()
            } else {
                m
            },
            _ => m,
        }
    }
}

/// The width of the marks column: each source line with more marks than
/// the lines before it widens it to one more than its number of marks.
pub open spec fn marks_width(body: Seq<DisplayLine>) -> nat
    decreases body.len(),
{
    if body.len() == 0 {
        0
    } else {
        let m = marks_width(body.drop_last());
        match body.last() {
            DisplayLine::Source { inline_marks, .. } => if inline_marks@.len() > m {
                inline_marks@.len() + 1
            } else {
                m
            },
            _ => m,
        }
    }
}

/// A text without its final newline, when it ends with one.
pub open spec fn without_final_newline(t: Seq<char>) -> Seq<char> {
    if t.len() > 0 && t.last() == '\n' {
        t.drop_last()
    } else {
        t
    }
}

/// The text of one line of the list: its output lines separated by
/// newlines, with no newline after the last.
pub open spec fn styled_line_text(ss: SheetView, dl: DisplayLine, lineno_width: nat, inline_marks_width: nat) -> Seq<
    char,
> {
    without_final_newline(styled_line_block(ss, dl, lineno_width, inline_marks_width))
}

/// The text of a list: its lines separated by newlines, with no newline
/// after the last.
pub open spec fn styled_list_text(ss: SheetView, body: Seq<DisplayLine>, lw: nat, mw: nat) -> Seq<char> {
    without_final_newline(styled_lines_text(ss, body, lw, mw))
}

/// Appends `t` without its final newline.
fn push_without_final_newline(out: &mut String, t: &String)
    ensures
        final(out)@ == old(out)@ + without_final_newline(t@),
{
    let n = t.as_str().unicode_len();
    if n > 0 && t.as_str().get_char(n - 1) == '\n' {
        let head = t.as_str().substring_char(0, n - 1);
        assert(head@ =~= t@.drop_last());
        out.append(head);
    } else {
        out.append(t.as_str());
    }
}

/// The text of the lines of a list, each written as the code writes it.
pub open spec fn styled_lines_text(ss: SheetView, body: Seq<DisplayLine>, lw: nat, mw: nat) -> Seq<char>
    decreases body.len(),
{
    if body.len() == 0 {
        Seq::empty()
    } else {
        styled_lines_text(ss, body.drop_last(), lw, mw) + styled_line_block(ss, body.last(), lw, mw)
    }
}

/// What the lines need to be written together: long ids and underlines as
/// for one line, fewer marks on a source line than the largest length, and
/// on the other lines no more marks than the column is wide.
pub open spec fn styled_list_writable(body: Seq<DisplayLine>) -> bool {
    forall|i: int|
        0 <= i < body.len() ==> match #[trigger] body[i] {
            DisplayLine::Annotation { id, .. } => match id {
                Some(t) => vstd::utf8::encode_utf8(t@).len() + 64 <= usize::MAX,
                None => true,
            },
            DisplayLine::SourceAnnotation { range, inline_marks, .. } => range.0 <= range.1 && inline_marks@.len()
                <= marks_width(body),
            DisplayLine::Source { inline_marks, .. } => inline_marks@.len() < usize::MAX,
            DisplayLine::Fold { inline_marks } => inline_marks@.len() <= marks_width(body),
            _ => true,
        }
}

pub(crate) proof fn lemma_marks_width_covers(body: Seq<DisplayLine>, i: int)
    requires
        0 <= i < body.len(),
    ensures
        body[i] matches DisplayLine::Source { inline_marks, .. } ==> inline_marks@.len() <= marks_width(body),
    decreases body.len(),
{
    if i < body.len() - 1 {
        lemma_marks_width_covers(body.drop_last(), i);
        assert(body.drop_last()[i] == body[i]);
    }
}

proof fn lemma_decimal_len_matches(n: nat)
    ensures
        decimal(n).len() == crate::text::decimal_len(n),
    decreases n,
{
    if n >= 10 {
        lemma_decimal_len_matches(n / 10);
    }
}

impl DisplayList {
    /// The list as text, formatted with the formatter that `new(true)`
    /// gives: lines separated by newlines, with none after the last.
    pub fn format(&self) -> (res: String)
        requires
            styled_list_writable(self.body@),
        ensures
            res@ == styled_list_text(
                no_color_sheet(),
                self.body@,
                number_width(self.body@),
                marks_width(self.body@),
            ),
    {
        let body = &self.body;
        let (lineno_width, inline_marks_width) = list_widths(body);
        let dlf = DisplayListFormatter::new(true);
        let mut out = String::new();
        let mut j: usize = 0;
        while j < body.len()
            invariant
                j <= body@.len(),
                styled_list_writable(body@),
                lineno_width == number_width(body@),
                inline_marks_width == marks_width(body@),
                lineno_width <= 20,
                dlf.stylesheet@ == no_color_sheet(),
                out@ == styled_lines_text(dlf.stylesheet@, body@.take(j as int), lineno_width as nat, inline_marks_width as nat),
            decreases body.len() - j,
        {
            assert(body@.take(j + 1).drop_last() =~= body@.take(j as int));
            assert(body@.take(j + 1).last() == body@[j as int]);
            proof {
                lemma_marks_width_covers(body@, j as int);
            }
            dlf.write_line_block(&mut out, &body[j], lineno_width, inline_marks_width);
            j += 1;
        }
        assert(body@.take(j as int) =~= body@);
        let mut res = String::new();
        push_without_final_newline(&mut res, &out);
        assert(res@ =~= without_final_newline(out@));
        res
    }
}


/// The widths of the line number and marks columns of a list.
pub(crate) fn list_widths(body: &Vec<DisplayLine>) -> (res: (usize, usize))
    requires
        styled_list_writable(body@),
    ensures
        res.0 == number_width(body@),
        res.1 == marks_width(body@),
        res.0 <= 20,
{
    let mut lineno_width: usize = 0;
    let mut inline_marks_width: usize = 0;
    let mut i: usize = 0;
    while i < body.len()
        invariant
            i <= body@.len(),
            styled_list_writable(body@),
            lineno_width == number_width(body@.take(i as int)),
            inline_marks_width == marks_width(body@.take(i as int)),
            lineno_width <= 20,
        decreases body.len() - i,
    {
        assert(body@.take(i + 1).drop_last() =~= body@.take(i as int));
        assert(body@.take(i + 1).last() == body@[i as int]);
        match &body[i] {
            DisplayLine::Source { lineno, inline_marks, .. } => {
                let width = decimal_digits(*lineno);
                proof {
                    lemma_decimal_len_matches(*lineno as nat);
                }
                if width > lineno_width {
                    lineno_width = width;
                }
                let count = inline_marks.len();
                if count > inline_marks_width {
                    inline_marks_width = count + 1;
                }
            },
            _ => {},
        }
        i += 1;
    }
    assert(body@.take(i as int) =~= body@);
    (lineno_width, inline_marks_width)
}

} // verus!
