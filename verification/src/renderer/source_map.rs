//! The lines of a source text, with their positions, and the placing of
//! annotations on them.
use vstd::prelude::*;
use std::ops::Range;

use crate::cursor_line::{
    collect_lines, cursor_lines, law_cursor_lines_rejoin, lemma_cursor_line_at, lemma_cursor_lines_total, lemma_line_offset_mono,
    line_offset, EndLine,
};
use crate::input::Level;
use crate::text::{
    bytes_of, chars_of, chars_width, is_boundary, lemma_boundary_ends, lemma_boundary_in_slice, lemma_prefix_chars_len,
    prefix_chars, width_sum,
};

verus! {

/// A source code location.
#[derive(Clone, Copy, Debug, PartialEq, Eq, Structural)]
pub struct Loc {
    /// The (1-based) line number.
    pub line: usize,
    /// The (0-based) column, counted in characters.
    pub char: usize,
    /// The (0-based) column, counted in display width.
    pub display: usize,
    /// The (0-based) byte offset.
    pub byte: usize,
}

/// The location of line 0, column 0.
pub open spec fn loc_zero() -> Loc {
    Loc { line: 0, char: 0, display: 0, byte: 0 }
}

/// How an annotation sits on a line.
#[derive(Clone, Copy, Debug, PartialEq, Eq, Structural)]
pub enum LineAnnotationType {
    /// It starts and ends on the line.
    Singleline,
    /// A multiline annotation starts on the line, drawn at the given depth.
    MultilineStart(usize),
    /// A multiline annotation ends on the line.
    MultilineEnd(usize),
    /// A multiline annotation passes the line.
    MultilineLine(usize),
}

/// An annotation as drawn on one line.
#[derive(Clone, Copy, Debug)]
pub struct LineAnnotation<'a> {
    pub start: Loc,
    pub end: Loc,
    pub level: Level,
    pub label: Option<&'a str>,
    pub annotation_type: LineAnnotationType,
}

/// An annotation that spans several lines.
#[derive(Clone, Copy, Debug)]
pub struct MultilineAnnotation<'a> {
    pub depth: usize,
    pub start: Loc,
    pub end: Loc,
    pub level: Level,
    pub label: Option<&'a str>,
    pub overlaps_exactly: bool,
}

/// A line of the source with its place in it.
#[derive(Clone, Copy, Debug)]
pub struct LineInfo<'a> {
    pub line: &'a str,
    pub line_index: usize,
    pub start_byte: usize,
    pub end_byte: usize,
    pub end_line_size: usize,
}

/// A line of the source with the annotations drawn on it.
#[derive(Debug)]
pub struct AnnotatedLineInfo<'a> {
    pub line: &'a str,
    pub line_index: usize,
    pub annotations: Vec<LineAnnotation<'a>>,
}

/// What an annotated line holds.
pub struct AnnotatedLineView<'a> {
    pub line: &'a str,
    pub line_index: usize,
    pub annotations: Seq<LineAnnotation<'a>>,
}

impl<'a> View for AnnotatedLineInfo<'a> {
    type V = AnnotatedLineView<'a>;

    open spec fn view(&self) -> AnnotatedLineView<'a> {
        AnnotatedLineView { line: self.line, line_index: self.line_index, annotations: self.annotations@ }
    }
}

/// The lines of a source text.
#[derive(Debug)]
pub struct SourceMap<'a> {
    pub lines: Vec<LineInfo<'a>>,
    pub source: &'a str,
}

/// `info` describes line `i` of the split `cl`, lines being numbered from `first`.
pub open spec fn describes_line<'a>(info: LineInfo<'a>, cl: Seq<(Seq<u8>, EndLine)>, i: int, first: int) -> bool {
    &&& bytes_of(info.line) == cl[i].0
    &&& info.line_index == first + i
    &&& info.start_byte == line_offset(cl, i)
    &&& info.end_byte == line_offset(cl, i + 1)
    &&& info.end_line_size == cl[i].1.spec_len()
}

impl<'a> SourceMap<'a> {
    /// The number of the first line.
    pub open spec fn first_line(self) -> int {
        if self.lines@.len() > 0 {
            self.lines@[0].line_index as int
        } else {
            0
        }
    }

    /// The lines are those of the source, in order, numbered consecutively.
    pub open spec fn wf(self) -> bool {
        let cl = cursor_lines(bytes_of(self.source));
        &&& self.lines@.len() == cl.len()
        &&& forall|i: int|
            0 <= i < cl.len() ==> #[trigger] describes_line(self.lines@[i], cl, i, self.first_line())
        &&& bytes_of(self.source).len() <= usize::MAX
    }

    /// The lines of `source`, the first numbered `line_start`.
    pub fn new(source: &'a str, line_start: usize) -> (res: SourceMap<'a>)
        requires
            bytes_of(source).len() <= usize::MAX,
            line_start + cursor_lines(bytes_of(source)).len() <= usize::MAX + 1,
        ensures
            res.wf(),
            res.source == source,
            res.lines@.len() > 0 ==> res.first_line() == line_start,
    {
        let ghost b = bytes_of(source);
        let ghost cl = cursor_lines(b);
        let lines = collect_lines(source);
        proof {
            lemma_cursor_lines_total(b);
        }
        let mut mapping: Vec<LineInfo<'a>> = Vec::new();
        let mut current_index: usize = 0;
        let mut idx: usize = 0;
        while idx < lines.len()
            invariant
                idx <= lines@.len(),
                lines@.len() == cl.len(),
                cl == cursor_lines(bytes_of(source)),
                b == bytes_of(source),
                forall|j: int|
                    0 <= j < lines@.len() ==> bytes_of(#[trigger] lines@[j].0) == cl[j].0
                        && lines@[j].1 == cl[j].1,
                line_offset(cl, cl.len() as int) == b.len(),
                b.len() <= usize::MAX,
                line_start + cl.len() <= usize::MAX + 1,
                mapping@.len() == idx,
                current_index == line_offset(cl, idx as int),
                forall|j: int| 0 <= j < idx ==> #[trigger] describes_line(mapping@[j], cl, j, line_start as int),
            decreases lines.len() - idx,
        {
            let (line, end_line) = lines[idx];
            proof {
                lemma_line_offset_mono(cl, idx + 1, cl.len() as int);
            }
            let line_length = line.len();
            let end_line_size = end_line.len();
            let info = LineInfo {
                line,
                line_index: line_start + idx,
                start_byte: current_index,
                end_byte: current_index + line_length + end_line_size,
                end_line_size,
            };
            mapping.push(info);
            current_index = current_index + line_length + end_line_size;
            idx += 1;
        }
        let res = SourceMap { lines: mapping, source };
        if res.lines.len() > 0 {
            assert(describes_line(res.lines@[0], cl, 0, line_start as int));
        }
        assert forall|i: int| 0 <= i < cl.len() implies #[trigger] describes_line(res.lines@[i], cl, i, res.first_line()) by {
            assert(describes_line(res.lines@[0], cl, 0, line_start as int));
        }
        res
    }

    /// The line numbered `idx`, if the source has it.
    pub fn get_line(&self, idx: usize) -> (res: Option<&'a str>)
        requires
            self.wf(),
        ensures
            res == (if self.first_line() <= idx < self.first_line() + self.lines@.len() {
                Some(self.lines@[idx - self.first_line()].line)
            } else {
                None
            }),
    {
        let ghost cl = cursor_lines(bytes_of(self.source));
        let mut i: usize = 0;
        while i < self.lines.len()
            invariant
                self.wf(),
                cl == cursor_lines(bytes_of(self.source)),
                i <= self.lines@.len(),
                forall|j: int| 0 <= j < i ==> (#[trigger] self.lines@[j]).line_index != idx,
            decreases self.lines.len() - i,
        {
            assert(describes_line(self.lines@[i as int], cl, i as int, self.first_line()));
            if self.lines[i].line_index == idx {
                return Some(self.lines[i].line);
            }
            i += 1;
        }
        proof {
            if self.first_line() <= idx < self.first_line() + self.lines@.len() {
                let j = idx - self.first_line();
                assert(describes_line(self.lines@[j], cl, j, self.first_line()));
            }
        }
        None
    }
}

/// The index of the first line whose bytes, terminator included, hold byte
/// `pos`; the last line when none does.
pub open spec fn line_holding<'a>(lines: Seq<LineInfo<'a>>, pos: int, i: int) -> int
    decreases lines.len() - i,
{
    if i >= lines.len() {
        lines.len() - 1
    } else if lines[i].start_byte <= pos < lines[i].end_byte {
        i
    } else {
        line_holding(lines, pos, i + 1)
    }
}

/// The index of the first line that ends after byte `pos`; the last line
/// when none does.
pub open spec fn line_ending_after<'a>(lines: Seq<LineInfo<'a>>, pos: int, i: int) -> int
    decreases lines.len() - i,
{
    if i >= lines.len() {
        lines.len() - 1
    } else if lines[i].end_byte > pos {
        i
    } else {
        line_ending_after(lines, pos, i + 1)
    }
}

/// The columns of byte `pos` on the line of `info`, in characters and in
/// display width (a control character counting as one): those of the line's
/// text before it, and one character more when `pos` lies past the text.
pub open spec fn column_of<'a>(info: LineInfo<'a>, pos: int) -> (int, int) {
    let len = bytes_of(info.line).len() as int;
    let off = pos - info.start_byte;
    let k = if off < len {
        off
    } else {
        len
    };
    let cs = chars_of(bytes_of(info.line).take(k));
    (cs.len() + if off > len {
        1int
    } else {
        0int
    }, width_sum(cs, 1) as int)
}

/// The locations where a span starts and ends.
pub open spec fn span_locations<'a>(sm: SourceMap<'a>, start: int, end: int) -> (Loc, Loc) {
    let lines = sm.lines@;
    let si = lines[line_holding(lines, start, 0)];
    let sc = column_of(si, start);
    let s = Loc { line: si.line_index, char: sc.0 as usize, display: sc.1 as usize, byte: start as usize };
    if start == end {
        (s, s)
    } else {
        let ei = lines[line_ending_after(lines, if end > 0 { end - 1 } else { 0 }, 0)];
        let ec = column_of(ei, end);
        let bump: int = if s.line != ei.line_index && end > ei.end_byte - ei.end_line_size {
            1
        } else {
            0
        };
        (s, Loc { line: ei.line_index, char: (ec.0 + bump) as usize, display: (ec.1 + bump) as usize, byte: end as usize })
    }
}

/// What a span over the source needs: a non-empty source of bounded size (a
/// column's display width can reach three times the byte length, and is
/// added to byte offsets), and ends that do not cut a character.
pub open spec fn span_requires<'a>(sm: SourceMap<'a>, start: int, end: int) -> bool {
    let len = bytes_of(sm.source).len();
    &&& sm.wf()
    &&& sm.lines@.len() > 0
    &&& len <= usize::MAX / 4
    &&& (start <= len ==> is_boundary(sm.source, start))
    &&& (end <= len ==> is_boundary(sm.source, end))
}

impl<'a> SourceMap<'a> {
    /// The columns of byte `pos` on the line of `info`.
    fn line_column(&self, info: LineInfo<'a>, pos: usize) -> (res: (usize, usize))
        requires
            self.wf(),
            bytes_of(self.source).len() <= usize::MAX / 4,
            exists|i: int| 0 <= i < self.lines@.len() && self.lines@[i] == info,
            info.start_byte <= pos,
            pos <= bytes_of(self.source).len() ==> is_boundary(self.source, pos as int),
        ensures
            res.0 == column_of(info, pos as int).0,
            res.1 == column_of(info, pos as int).1,
            res.0 <= bytes_of(self.source).len() + 1,
            res.1 <= 3 * bytes_of(self.source).len(),
    {
        let ghost b = bytes_of(self.source);
        let ghost cl = cursor_lines(b);
        let ghost i = choose|i: int| 0 <= i < self.lines@.len() && self.lines@[i] == info;
        proof {
            assert(describes_line(self.lines@[i], cl, i, self.first_line()));
            lemma_cursor_line_at(b, i);
            lemma_boundary_ends(info.line);
        }
        let off = pos - info.start_byte;
        let len = info.line.len();
        let k = if off < len {
            off
        } else {
            len
        };
        proof {
            if off < len {
                lemma_boundary_in_slice(self.source, info.line, info.start_byte as int, off as int);
            }
            lemma_prefix_chars_len(info.line, k as int);
        }
        let cs = prefix_chars(info.line, k);
        let w = chars_width(&cs, 1);
        let mut c = cs.len();
        if off > len {
            c = c + 1;
        }
        (c, w)
    }

    /// The locations where `span` starts and ends. An empty span starts and
    /// ends at the same location; an end past the terminator of a line other
    /// than the start's counts one column more.
    pub fn span_to_locations(&self, span: Range<usize>) -> (res: (Loc, Loc))
        requires
            span_requires(*self, span.start as int, span.end as int),
        ensures
            res == span_locations(*self, span.start as int, span.end as int),
            res.0.char <= bytes_of(self.source).len() + 1,
            res.0.display <= 3 * bytes_of(self.source).len(),
            res.1.char <= bytes_of(self.source).len() + 2,
            res.1.display <= 3 * bytes_of(self.source).len() + 1,
    {
        let ghost b = bytes_of(self.source);
        let ghost cl = cursor_lines(b);
        let ghost lines = self.lines@;
        proof {
            lemma_cursor_lines_total(b);
        }
        let n = self.lines.len();
        let mut i: usize = 0;
        let mut si: Option<usize> = None;
        while i < n
            invariant_except_break
                si is None,
            invariant
                self.wf(),
                cl == cursor_lines(b),
                b == bytes_of(self.source),
                lines == self.lines@,
                n == lines.len(),
                n > 0,
                line_offset(cl, n as int) == b.len(),
                i <= n,
                span.start >= line_offset(cl, i as int),
                line_holding(lines, span.start as int, 0) == line_holding(lines, span.start as int, i as int),
            ensures
                si matches Some(k) ==> k < n && k == line_holding(lines, span.start as int, 0)
                    && lines[k as int].start_byte <= span.start,
                si is None ==> i == n && span.start >= line_offset(cl, n as int),
            decreases n - i,
        {
            assert(describes_line(lines[i as int], cl, i as int, self.first_line()));
            if self.lines[i].start_byte <= span.start && span.start < self.lines[i].end_byte {
                si = Some(i);
                break;
            }
            i += 1;
        }
        let si = match si {
            Some(k) => k,
            None => n - 1,
        };
        let start_info = self.lines[si];
        proof {
            assert(describes_line(lines[si as int], cl, si as int, self.first_line()));
            lemma_line_offset_mono(cl, si as int, n as int);
        }
        let (sc, sd) = self.line_column(start_info, span.start);
        let start = Loc { line: start_info.line_index, char: sc, display: sd, byte: span.start };
        if span.start == span.end {
            return (start, start);
        }
        let e1 = span.end.saturating_sub(1);
        let mut j: usize = 0;
        let mut ei: Option<usize> = None;
        while j < n
            invariant_except_break
                ei is None,
            invariant
                self.wf(),
                cl == cursor_lines(b),
                b == bytes_of(self.source),
                lines == self.lines@,
                n == lines.len(),
                n > 0,
                j <= n,
                e1 >= line_offset(cl, j as int),
                line_ending_after(lines, e1 as int, 0) == line_ending_after(lines, e1 as int, j as int),
            ensures
                ei matches Some(k) ==> k < n && k == line_ending_after(lines, e1 as int, 0) && line_offset(cl, k as int) <= e1,
                ei is None ==> j == n,
            decreases n - j,
        {
            assert(describes_line(lines[j as int], cl, j as int, self.first_line()));
            if self.lines[j].end_byte > e1 {
                ei = Some(j);
                break;
            }
            j += 1;
        }
        let ei = match ei {
            Some(k) => k,
            None => n - 1,
        };
        let end_info = self.lines[ei];
        proof {
            assert(describes_line(lines[ei as int], cl, ei as int, self.first_line()));
            lemma_line_offset_mono(cl, ei as int, n as int);
            lemma_line_offset_mono(cl, (n - 1) as int, n as int);
        }
        let (mut ec, mut ed) = self.line_column(end_info, span.end);
        if start.line != end_info.line_index && span.end > end_info.end_byte - end_info.end_line_size {
            ec = ec + 1;
            ed = ed + 1;
        }
        let end = Loc { line: end_info.line_index, char: ec, display: ed, byte: span.end };
        (start, end)
    }
}

/// The characters of bytes `start..end` of the source, when that range lies
/// in it and does not cut a character.
pub open spec fn span_chars<'a>(sm: SourceMap<'a>, start: int, end: int) -> Option<Seq<char>> {
    if start <= end <= bytes_of(sm.source).len() && is_boundary(sm.source, start) && is_boundary(
        sm.source,
        end,
    ) {
        Some(chars_of(bytes_of(sm.source).subrange(start, end)))
    } else {
        None
    }
}

impl<'a> SourceMap<'a> {
    /// The piece of the source at `span`, if the span lies in it and does
    /// not cut a character.
    pub fn span_to_snippet(&self, span: std::ops::Range<usize>) -> (res: Option<&'a str>)
        requires
            bytes_of(self.source).len() <= usize::MAX,
        ensures
            match res {
                Some(t) => span_chars(*self, span.start as int, span.end as int) == Some(t@) && bytes_of(t)
                    == bytes_of(self.source).subrange(span.start as int, span.end as int),
                None => span_chars(*self, span.start as int, span.end as int) is None,
            },
    {
        let src = self.source;
        if span.start <= span.end && span.end <= src.len() && src.is_char_boundary(span.start)
            && src.is_char_boundary(span.end) {
            proof {
                crate::text::lemma_chars_of_str(src);
            }
            let (_, rest) = src.split_at(span.start);
            proof {
                lemma_boundary_ends(rest);
                lemma_boundary_in_slice(src, rest, span.start as int, (span.end - span.start) as int);
            }
            let (mid, _) = rest.split_at(span.end - span.start);
            proof {
                crate::text::lemma_chars_of_str(mid);
                assert(bytes_of(mid) =~= bytes_of(src).subrange(span.start as int, span.end as int));
            }
            Some(mid)
        } else {
            None
        }
    }
}

impl<'a> MultilineAnnotation<'a> {
    /// Draws the annotation one level further right.
    pub fn increase_depth(&mut self)
        requires
            old(self).depth < usize::MAX,
        ensures
            final(self).depth == old(self).depth + 1,
            final(self).start == old(self).start,
            final(self).end == old(self).end,
            final(self).level == old(self).level,
            final(self).label == old(self).label,
            final(self).overlaps_exactly == old(self).overlaps_exactly,
    {
        self.depth = self.depth + 1;
    }

    /// Whether the two annotations cover the same span.
    pub fn same_span(&self, other: &MultilineAnnotation<'_>) -> (b: bool)
        ensures
            b == (self.start == other.start && self.end == other.end),
    {
        self.start == other.start && self.end == other.end
    }

    /// The mark drawn where the annotation starts: one column wide, no label.
    pub fn as_start(&self) -> (res: LineAnnotation<'a>)
        requires
            self.start.char < usize::MAX,
            self.start.display < usize::MAX,
            self.start.byte < usize::MAX,
        ensures
            res == (LineAnnotation {
                start: self.start,
                end: Loc {
                    line: self.start.line,
                    char: (self.start.char + 1) as usize,
                    display: (self.start.display + 1) as usize,
                    byte: (self.start.byte + 1) as usize,
                },
                level: self.level,
                label: None,
                annotation_type: LineAnnotationType::MultilineStart(self.depth),
            }),
    {
        LineAnnotation {
            start: self.start,
            end: Loc {
                line: self.start.line,
                char: self.start.char + 1,
                display: self.start.display + 1,
                byte: self.start.byte + 1,
            },
            level: self.level,
            label: None,
            annotation_type: LineAnnotationType::MultilineStart(self.depth),
        }
    }

    /// The mark drawn where the annotation ends, one column wide, with its label.
    pub fn as_end(&self) -> (res: LineAnnotation<'a>)
        ensures
            res == (LineAnnotation {
                start: Loc {
                    line: self.end.line,
                    char: if self.end.char > 0 { (self.end.char - 1) as usize } else { 0 },
                    display: if self.end.display > 0 { (self.end.display - 1) as usize } else { 0 },
                    byte: if self.end.byte > 0 { (self.end.byte - 1) as usize } else { 0 },
                },
                end: self.end,
                level: self.level,
                label: self.label,
                annotation_type: LineAnnotationType::MultilineEnd(self.depth),
            }),
    {
        LineAnnotation {
            start: Loc {
                line: self.end.line,
                char: self.end.char.saturating_sub(1),
                display: self.end.display.saturating_sub(1),
                byte: self.end.byte.saturating_sub(1),
            },
            end: self.end,
            level: self.level,
            label: self.label,
            annotation_type: LineAnnotationType::MultilineEnd(self.depth),
        }
    }

    /// The mark drawn on the lines the annotation passes.
    pub fn as_line(&self) -> (res: LineAnnotation<'a>)
        ensures
            res == (LineAnnotation {
                start: loc_zero(),
                end: loc_zero(),
                level: self.level,
                label: None,
                annotation_type: LineAnnotationType::MultilineLine(self.depth),
            }),
    {
        LineAnnotation {
            start: Loc { line: 0, char: 0, display: 0, byte: 0 },
            end: Loc { line: 0, char: 0, display: 0, byte: 0 },
            level: self.level,
            label: None,
            annotation_type: LineAnnotationType::MultilineLine(self.depth),
        }
    }
}


/// The lines of a well-formed source map lay the source out whole: there are
/// as many as the text splits into, numbered consecutively; the first starts
/// at byte 0, each starts where the one before it ended, and the last ends
/// at the end of the source; each spans its text and a line ending of at
/// most two bytes, and its text is found at its start byte.
pub proof fn law_source_map_layout<'a>(sm: SourceMap<'a>)
    requires
        sm.wf(),
    ensures
        sm.lines@.len() == cursor_lines(bytes_of(sm.source)).len(),
        forall|i: int| 0 <= i < sm.lines@.len() ==> (#[trigger] sm.lines@[i]).line_index == sm.first_line() + i,
        sm.lines@.len() > 0 ==> sm.lines@[0].start_byte == 0,
        forall|i: int|
            0 <= i < sm.lines@.len() - 1 ==> (#[trigger] sm.lines@[i + 1]).start_byte == sm.lines@[i].end_byte,
        forall|i: int|
            0 <= i < sm.lines@.len() ==> (#[trigger] sm.lines@[i]).end_byte - sm.lines@[i].start_byte
                == bytes_of(sm.lines@[i].line).len() + sm.lines@[i].end_line_size && sm.lines@[i].end_line_size <= 2,
        forall|i: int|
            0 <= i < sm.lines@.len() ==> bytes_of(sm.source).subrange(
                (#[trigger] sm.lines@[i]).start_byte as int,
                sm.lines@[i].start_byte + bytes_of(sm.lines@[i].line).len(),
            ) == bytes_of(sm.lines@[i].line),
        sm.lines@.len() > 0 ==> sm.lines@.last().end_byte == bytes_of(sm.source).len(),
        sm.lines@.len() == 0 ==> bytes_of(sm.source).len() == 0,
{
    let b = bytes_of(sm.source);
    let cl = cursor_lines(b);
    let first = sm.first_line();
    lemma_cursor_lines_total(b);
    law_cursor_lines_rejoin(b);
    assert forall|i: int| 0 <= i < sm.lines@.len() implies (#[trigger] sm.lines@[i]).line_index == first + i by {
        assert(describes_line(sm.lines@[i], cl, i, first));
    }
    assert forall|i: int| 0 <= i < sm.lines@.len() - 1 implies (#[trigger] sm.lines@[i + 1]).start_byte
        == sm.lines@[i].end_byte by {
        assert(describes_line(sm.lines@[i], cl, i, first));
        assert(describes_line(sm.lines@[i + 1], cl, i + 1, first));
    }
    assert forall|i: int| 0 <= i < sm.lines@.len() implies (#[trigger] sm.lines@[i]).end_byte
        - sm.lines@[i].start_byte == bytes_of(sm.lines@[i].line).len() + sm.lines@[i].end_line_size
        && sm.lines@[i].end_line_size <= 2 by {
        assert(describes_line(sm.lines@[i], cl, i, first));
    }
    assert forall|i: int| 0 <= i < sm.lines@.len() implies b.subrange(
        (#[trigger] sm.lines@[i]).start_byte as int,
        sm.lines@[i].start_byte + bytes_of(sm.lines@[i].line).len(),
    ) == bytes_of(sm.lines@[i].line) by {
        assert(describes_line(sm.lines@[i], cl, i, first));
        lemma_cursor_line_at(b, i);
    }
    if sm.lines@.len() > 0 {
        assert(describes_line(sm.lines@[0], cl, 0, first));
        let n = sm.lines@.len() - 1;
        assert(describes_line(sm.lines@[n], cl, n, first));
    }
}

} // verus!
