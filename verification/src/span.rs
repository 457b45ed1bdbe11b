//! Spans of source text, and how they are split into numbered lines.
use vstd::prelude::*;
use vstd::string::StringExecFns;
use std::ops::Range;

use crate::cursor_line::newlines;
use crate::text::{
    bytes_of, chars_of, find_byte, first_index_of, is_boundary, last_index_of, lemma_boundary_ends,
    lemma_boundary_in_slice, lemma_chars_of_str, rfind_byte, str_chars,
};

verus! {

/// Something with a start and an end position.
pub trait Span {
    /// Where the span starts.
    spec fn start_at(&self) -> usize;

    /// Where the span ends.
    spec fn end_at(&self) -> usize;

    /// The range that `range` of the span stands for.
    spec fn slice_at(&self, range: Range<usize>) -> Range<usize>;

    fn start(&self) -> (p: usize)
        ensures
            p == self.start_at(),
    ;

    fn end(&self) -> (p: usize)
        ensures
            p == self.end_at(),
    ;

    fn slice(&self, range: Range<usize>) -> (r: Range<usize>)
        ensures
            r == self.slice_at(range),
    ;
}

/// Splits a span into numbered lines and measures them.
pub trait SpanFormatter<S> {
    /// The span's first line can be found.
    spec fn first_line_defined(&self, span: &S) -> bool;

    /// The line after `subspan` can be looked for.
    spec fn next_line_defined(&self, span: &S, subspan: &WithLineNumber<Range<usize>>) -> bool;

    /// `subspan` is a piece of the span that can be measured.
    spec fn piece_defined(&self, span: &S, subspan: &Range<usize>) -> bool;

    fn first_line(&self, span: &S) -> WithLineNumber<Range<usize>>
        requires
            self.first_line_defined(span),
    ;

    fn next_line(&self, span: &S, subspan: &WithLineNumber<Range<usize>>) -> Option<WithLineNumber<Range<usize>>>
        requires
            self.next_line_defined(span, subspan),
    ;

    fn count_columns(&self, span: &S, subspan: &Range<usize>) -> usize
        requires
            self.piece_defined(span, subspan),
    ;
}

/// Writes a piece of a span.
pub trait SpanWriter<S> {
    /// `subspan` is a piece of the span that can be written.
    spec fn writable(&self, span: &S, subspan: &Range<usize>) -> bool;

    fn write(&self, out: &mut String, span: &S, subspan: &Range<usize>)
        requires
            self.writable(span, subspan),
    ;
}

/// `from..to` is a piece of the text that does not cut a character.
pub open spec fn is_piece(s: &str, from: int, to: int) -> bool {
    from <= to <= bytes_of(s).len() && is_boundary(s, from) && is_boundary(s, to)
}

/// A value with the number of its line.
#[derive(Debug)]
pub struct WithLineNumber<T> {
    pub line_num: usize,
    pub data: T,
}

/// The position of the first line feed at or after `from`, or `dflt`.
pub open spec fn line_end_from(b: Seq<u8>, from: int, dflt: int) -> int {
    match first_index_of(b.subrange(from, b.len() as int), 10u8) {
        Some(i) => from + i,
        None => dflt,
    }
}

/// The first line of a text, numbered 1.
pub open spec fn text_first_line(b: Seq<u8>) -> (int, int, int) {
    (0, line_end_from(b, 0, b.len() as int), 1)
}

/// The line after the one ending at `prev_end`, if the text goes on there.
pub open spec fn text_next_line(b: Seq<u8>, s: &str, prev_end: int, prev_num: int) -> Option<(int, int, int)> {
    let start = prev_end + 1;
    if start > b.len() || !is_boundary(s, start) {
        None
    } else {
        Some((start, line_end_from(b, start, b.len() as int), prev_num + 1))
    }
}

/// The line of `b` that holds byte `from` of the range `range_start..range_end`,
/// numbered by the line feeds before it.
pub open spec fn range_first_line(b: Seq<u8>, range_start: int, range_end: int) -> (int, int, int) {
    let start = match last_index_of(b.take(range_start), 10u8) {
        Some(i) => i + 1,
        None => 0,
    };
    let len = if range_end > range_start {
        range_end - range_start
    } else {
        0
    };
    (start, line_end_from(b, start, len), newlines(b.take(start)) as int)
}

/// The line after the one ending at `prev_end`, while it starts within the range.
pub open spec fn range_next_line(b: Seq<u8>, s: &str, range_end: int, prev_end: int, prev_num: int) -> Option<
    (int, int, int),
> {
    let start = prev_end + 1;
    if start > b.len() || !is_boundary(s, start) {
        None
    } else if start <= range_end {
        Some((start, line_end_from(b, start, range_end), prev_num + 1))
    } else {
        None
    }
}

/// The model of a numbered range.
pub open spec fn wln_model(w: WithLineNumber<Range<usize>>) -> (int, int, int) {
    (w.data.start as int, w.data.end as int, w.line_num as int)
}

/// The first line feed at or after `from`, or `dflt`.
fn find_line_end(s: &str, from: usize, dflt: usize) -> (res: usize)
    requires
        from <= bytes_of(s).len(),
    ensures
        res == line_end_from(bytes_of(s), from as int, dflt as int),
{
    let bytes = s.as_bytes();
    let rest = vstd::slice::slice_subrange(bytes, from, bytes.len());
    match find_byte(rest, 10u8) {
        Some(i) => {
            proof {
                crate::text::lemma_first_index_of(rest@, 10u8);
            }
            from + i
        },
        None => dflt,
    }
}

/// The number of line feeds in the first `k` bytes.
fn count_newlines(s: &str, k: usize) -> (n: usize)
    requires
        k <= bytes_of(s).len(),
    ensures
        n == newlines(bytes_of(s).take(k as int)),
{
    let bytes = s.as_bytes();
    let mut n: usize = 0;
    let mut i: usize = 0;
    while i < k
        invariant
            i <= k,
            k <= bytes@.len(),
            bytes@ == bytes_of(s),
            n == newlines(bytes@.take(i as int)),
            n <= i,
        decreases k - i,
    {
        assert(bytes@.take(i + 1).drop_last() =~= bytes@.take(i as int));
        if bytes[i] == 10u8 {
            n = n + 1;
        }
        i += 1;
    }
    n
}

/// The characters of bytes `from..to` of a text.
fn columns(s: &str, from: usize, to: usize) -> (n: usize)
    requires
        from <= to <= bytes_of(s).len(),
        is_boundary(s, from as int),
        is_boundary(s, to as int),
    ensures
        n == chars_of(bytes_of(s).subrange(from as int, to as int)).len(),
{
    let (_, rest) = s.split_at(from);
    proof {
        lemma_boundary_ends(rest);
        lemma_boundary_in_slice(s, rest, from as int, (to - from) as int);
    }
    let (mid, _) = rest.split_at(to - from);
    proof {
        lemma_chars_of_str(mid);
        assert(bytes_of(mid) =~= bytes_of(s).subrange(from as int, to as int));
    }
    str_chars(mid).len()
}

/// Appends bytes `from..to` of a text.
fn push_piece(out: &mut String, s: &str, from: usize, to: usize)
    requires
        from <= to <= bytes_of(s).len(),
        is_boundary(s, from as int),
        is_boundary(s, to as int),
    ensures
        final(out)@ == old(out)@ + chars_of(bytes_of(s).subrange(from as int, to as int)),
{
    let (_, rest) = s.split_at(from);
    proof {
        lemma_boundary_ends(rest);
        lemma_boundary_in_slice(s, rest, from as int, (to - from) as int);
    }
    let (mid, _) = rest.split_at(to - from);
    proof {
        lemma_chars_of_str(mid);
        assert(bytes_of(mid) =~= bytes_of(s).subrange(from as int, to as int));
    }
    out.append(mid);
}

impl<'a> Span for &'a str {
    open spec fn start_at(&self) -> usize {
        0
    }

    open spec fn end_at(&self) -> usize {
        bytes_of(*self).len() as usize
    }

    open spec fn slice_at(&self, range: Range<usize>) -> Range<usize> {
        range
    }

    /// A text starts at byte 0.
    fn start(&self) -> (p: usize)
        ensures
            p == 0,
    {
        0
    }

    /// A text ends at its length in bytes.
    fn end(&self) -> (p: usize)
        ensures
            p == bytes_of(*self).len() as usize,
    {
        self.len()
    }

    /// A range of a text is that byte range.
    fn slice(&self, range: Range<usize>) -> (r: Range<usize>)
        ensures
            r == range,
    {
        range
    }
}

impl Span for Range<usize> {
    open spec fn start_at(&self) -> usize {
        self.start
    }

    open spec fn end_at(&self) -> usize {
        self.end
    }

    open spec fn slice_at(&self, range: Range<usize>) -> Range<usize> {
        range
    }

    /// Where the range starts.
    fn start(&self) -> (p: usize)
        ensures
            p == self.start,
    {
        self.start
    }

    /// Where the range ends.
    fn end(&self) -> (p: usize)
        ensures
            p == self.end,
    {
        self.end
    }

    /// A range within the same source is that range.
    fn slice(&self, range: Range<usize>) -> (r: Range<usize>)
        ensures
            r == range,
    {
        range
    }
}

impl<S: Span> Span for WithLineNumber<S> {
    open spec fn start_at(&self) -> usize {
        self.data.start_at()
    }

    open spec fn end_at(&self) -> usize {
        self.data.end_at()
    }

    open spec fn slice_at(&self, range: Range<usize>) -> Range<usize> {
        self.data.slice_at(range)
    }

    /// Where the numbered span starts.
    fn start(&self) -> (p: usize)
        ensures
            p == self.data.start_at(),
    {
        self.data.start()
    }

    /// Where the numbered span ends.
    fn end(&self) -> (p: usize)
        ensures
            p == self.data.end_at(),
    {
        self.data.end()
    }

    /// A range of the numbered span, as the span gives it.
    fn slice(&self, range: Range<usize>) -> (r: Range<usize>)
        ensures
            r == self.data.slice_at(range),
    {
        self.data.slice(range)
    }
}

impl<'a> SpanFormatter<&'a str> for () {
    open spec fn first_line_defined(&self, span: &&'a str) -> bool {
        bytes_of(*span).len() <= usize::MAX
    }

    open spec fn next_line_defined(&self, span: &&'a str, subspan: &WithLineNumber<Range<usize>>) -> bool {
        bytes_of(*span).len() <= usize::MAX && subspan.data.end < usize::MAX && subspan.line_num < usize::MAX
    }

    open spec fn piece_defined(&self, span: &&'a str, subspan: &Range<usize>) -> bool {
        is_piece(*span, subspan.start as int, subspan.end as int)
    }

    /// The text's first line, numbered 1.
    fn first_line(&self, span: &&'a str) -> (res: WithLineNumber<Range<usize>>)
        ensures
            wln_model(res) == text_first_line(bytes_of(*span)),
    {
        let end = find_line_end(*span, 0, span.len());
        WithLineNumber { data: 0..end, line_num: 1 }
    }

    /// The line after `subspan`, if the text goes on.
    fn next_line(&self, span: &&'a str, subspan: &WithLineNumber<Range<usize>>) -> (res: Option<
        WithLineNumber<Range<usize>>,
    >)
        ensures
            match res {
                Some(w) => text_next_line(bytes_of(*span), *span, subspan.data.end as int, subspan.line_num as int)
                    == Some(wln_model(w)),
                None => text_next_line(bytes_of(*span), *span, subspan.data.end as int, subspan.line_num as int) is None,
            },
    {
        let start = subspan.data.end + 1;
        if start > span.len() || !span.is_char_boundary(start) {
            return None;
        }
        let end = find_line_end(*span, start, span.len());
        Some(WithLineNumber { data: start..end, line_num: subspan.line_num + 1 })
    }

    /// The number of characters of `subspan`.
    fn count_columns(&self, span: &&'a str, subspan: &Range<usize>) -> (n: usize)
        ensures
            n == chars_of(bytes_of(*span).subrange(subspan.start as int, subspan.end as int)).len(),
    {
        columns(*span, subspan.start, subspan.end)
    }
}

impl<'a> SpanWriter<&'a str> for () {
    open spec fn writable(&self, span: &&'a str, subspan: &Range<usize>) -> bool {
        is_piece(*span, subspan.start as int, subspan.end as int)
    }

    /// Writes the characters of `subspan`.
    fn write(&self, out: &mut String, span: &&'a str, subspan: &Range<usize>)
        ensures
            final(out)@ == old(out)@ + chars_of(bytes_of(*span).subrange(subspan.start as int, subspan.end as int)),
    {
        push_piece(out, *span, subspan.start, subspan.end);
    }
}

impl<'a> SpanFormatter<Range<usize>> for &'a str {
    open spec fn first_line_defined(&self, span: &Range<usize>) -> bool {
        span.start <= bytes_of(*self).len() && is_boundary(*self, span.start as int)
    }

    open spec fn next_line_defined(&self, span: &Range<usize>, subspan: &WithLineNumber<Range<usize>>) -> bool {
        bytes_of(*self).len() <= usize::MAX && subspan.data.end < usize::MAX && subspan.line_num < usize::MAX
    }

    open spec fn piece_defined(&self, span: &Range<usize>, subspan: &Range<usize>) -> bool {
        is_piece(*self, subspan.start as int, subspan.end as int)
    }

    /// The line that holds the start of `span`, numbered by the line feeds
    /// before it (so from 0).
    fn first_line(&self, span: &Range<usize>) -> (res: WithLineNumber<Range<usize>>)
        ensures
            wln_model(res) == range_first_line(bytes_of(*self), span.start as int, span.end as int),
    {
        let bytes = self.as_bytes();
        let head = vstd::slice::slice_subrange(bytes, 0, span.start);
        assert(head@ =~= bytes_of(*self).take(span.start as int));
        let start = match rfind_byte(head, 10u8) {
            Some(i) => {
                proof {
                    crate::text::lemma_last_index_of(head@, 10u8);
                }
                i + 1
            },
            None => 0,
        };
        let len = if span.end > span.start {
            span.end - span.start
        } else {
            0
        };
        let end = find_line_end(*self, start, len);
        let line_num = count_newlines(*self, start);
        WithLineNumber { data: start..end, line_num }
    }

    /// The line after `subspan`, while it starts within `span`.
    fn next_line(&self, span: &Range<usize>, subspan: &WithLineNumber<Range<usize>>) -> (res: Option<
        WithLineNumber<Range<usize>>,
    >)
        ensures
            match res {
                Some(w) => range_next_line(
                    bytes_of(*self),
                    *self,
                    span.end as int,
                    subspan.data.end as int,
                    subspan.line_num as int,
                ) == Some(wln_model(w)),
                None => range_next_line(
                    bytes_of(*self),
                    *self,
                    span.end as int,
                    subspan.data.end as int,
                    subspan.line_num as int,
                ) is None,
            },
    {
        let start = subspan.data.end + 1;
        if start > self.len() || !self.is_char_boundary(start) {
            return None;
        }
        let end = find_line_end(*self, start, span.end);
        if start <= span.end {
            Some(WithLineNumber { data: start..end, line_num: subspan.line_num + 1 })
        } else {
            None
        }
    }

    /// The number of characters of `subspan`.
    fn count_columns(&self, span: &Range<usize>, subspan: &Range<usize>) -> (n: usize)
        ensures
            n == chars_of(bytes_of(*self).subrange(subspan.start as int, subspan.end as int)).len(),
    {
        columns(*self, subspan.start, subspan.end)
    }
}

impl<'a> SpanWriter<Range<usize>> for &'a str {
    open spec fn writable(&self, span: &Range<usize>, subspan: &Range<usize>) -> bool {
        is_piece(*self, subspan.start as int, subspan.end as int)
    }

    /// Writes the characters of `subspan` of the text.
    fn write(&self, out: &mut String, span: &Range<usize>, subspan: &Range<usize>)
        ensures
            final(out)@ == old(out)@ + chars_of(bytes_of(*self).subrange(subspan.start as int, subspan.end as int)),
    {
        push_piece(out, *self, subspan.start, subspan.end);
    }
}

} // verus!
