//! Building the input of a report: groups of titles, messages, annotated
//! source snippets, suggested patches and origins.
use vstd::prelude::*;
use std::ops::Range;

use crate::level::Level;
use crate::renderer::line_filter::{is_blank, trim_chars, trim_str};
use crate::renderer::source_map::{span_chars, SourceMap};
use crate::text::{bytes_of, lemma_empty_str, split_at_chars, str_chars};

verus! {

/// The id of a title, and the address it links to.
#[derive(Clone, Copy, Debug)]
pub struct Id<'a> {
    pub id: Option<&'a str>,
    pub url: Option<&'a str>,
}

/// A container of elements that share a primary level.
#[derive(Clone, Debug)]
pub struct Group<'a> {
    pub primary_level: Level<'a>,
    pub elements: Vec<Element<'a>>,
}

/// A section of content within a group.
#[derive(Clone, Debug)]
pub enum Element<'a> {
    Title(Title<'a>),
    Message(Message<'a>),
    Cause(Snippet<'a, Annotation<'a>>),
    Suggestion(Snippet<'a, Patch<'a>>),
    Origin(Origin<'a>),
    Padding(Padding),
}

/// A whitespace element of a group.
#[derive(Clone, Copy, Debug)]
pub struct Padding;

/// A text that starts a group.
#[derive(Clone, Copy, Debug)]
pub struct Title<'a> {
    pub level: Level<'a>,
    pub id: Option<Id<'a>>,
    pub text: &'a str,
}

/// A text element of a group.
#[derive(Clone, Copy, Debug)]
pub struct Message<'a> {
    pub level: Level<'a>,
    pub text: &'a str,
}

/// A view of source text, with markers (annotations or patches) on it.
#[derive(Clone, Debug)]
pub struct Snippet<'a, T> {
    pub path: Option<&'a str>,
    pub line_start: usize,
    pub source: &'a str,
    pub markers: Vec<T>,
    pub fold: bool,
}

/// A highlighted span of a snippet's source, with an optional label.
#[derive(Debug)]
pub struct Annotation<'a> {
    pub span: Range<usize>,
    pub label: Option<&'a str>,
    pub kind: AnnotationKind,
    pub highlight_source: bool,
}

/// Whether an annotation marks what the title speaks of, or context for it.
#[derive(Clone, Copy, Debug, PartialEq, Eq, Structural)]
pub enum AnnotationKind {
    Primary,
    Context,
}

/// A suggested edit: `replacement` in place of the source at `span`.
#[derive(Debug)]
pub struct Patch<'a> {
    pub span: Range<usize>,
    pub replacement: &'a str,
}

impl<'a> Clone for Annotation<'a> {
    fn clone(&self) -> (res: Self)
        ensures
            res == *self,
    {
        Annotation {
            span: self.span.start..self.span.end,
            label: self.label,
            kind: self.kind,
            highlight_source: self.highlight_source,
        }
    }
}

impl<'a> Clone for Patch<'a> {
    fn clone(&self) -> (res: Self)
        ensures
            res == *self,
    {
        Patch { span: self.span.start..self.span.end, replacement: self.replacement }
    }
}

/// A source location, for when the source itself is not at hand.
#[derive(Clone, Copy, Debug)]
pub struct Origin<'a> {
    pub path: &'a str,
    pub line: Option<usize>,
    pub char_column: Option<usize>,
    pub primary: bool,
}

/// An optional text, as taken by `Snippet::path` and `Annotation::label`.
#[derive(Clone, Copy, Debug)]
pub struct OptionCow<'a>(pub Option<&'a str>);

impl<'a> From<&'a str> for OptionCow<'a> {
    fn from(value: &'a str) -> (res: Self) {
        OptionCow(Some(value))
    }
}

impl<'a> vstd::std_specs::convert::FromSpecImpl<&'a str> for OptionCow<'a> {
    open spec fn obeys_from_spec() -> bool {
        true
    }

    open spec fn from_spec(value: &'a str) -> Self {
        OptionCow(Some(value))
    }
}

impl<'a> From<Option<&'a str>> for OptionCow<'a> {
    fn from(value: Option<&'a str>) -> (res: Self) {
        OptionCow(value)
    }
}

impl<'a> vstd::std_specs::convert::FromSpecImpl<Option<&'a str>> for OptionCow<'a> {
    open spec fn obeys_from_spec() -> bool {
        true
    }

    open spec fn from_spec(value: Option<&'a str>) -> Self {
        OptionCow(value)
    }
}

impl<'a> From<Title<'a>> for Element<'a> {
    fn from(value: Title<'a>) -> (res: Self) {
        Element::Title(value)
    }
}

impl<'a> vstd::std_specs::convert::FromSpecImpl<Title<'a>> for Element<'a> {
    open spec fn obeys_from_spec() -> bool {
        true
    }

    open spec fn from_spec(value: Title<'a>) -> Self {
        Element::Title(value)
    }
}

impl<'a> From<Message<'a>> for Element<'a> {
    fn from(value: Message<'a>) -> (res: Self) {
        Element::Message(value)
    }
}

impl<'a> vstd::std_specs::convert::FromSpecImpl<Message<'a>> for Element<'a> {
    open spec fn obeys_from_spec() -> bool {
        true
    }

    open spec fn from_spec(value: Message<'a>) -> Self {
        Element::Message(value)
    }
}

impl<'a> From<Snippet<'a, Annotation<'a>>> for Element<'a> {
    fn from(value: Snippet<'a, Annotation<'a>>) -> (res: Self) {
        Element::Cause(value)
    }
}

impl<'a> vstd::std_specs::convert::FromSpecImpl<Snippet<'a, Annotation<'a>>> for Element<'a> {
    open spec fn obeys_from_spec() -> bool {
        true
    }

    open spec fn from_spec(value: Snippet<'a, Annotation<'a>>) -> Self {
        Element::Cause(value)
    }
}

impl<'a> From<Snippet<'a, Patch<'a>>> for Element<'a> {
    fn from(value: Snippet<'a, Patch<'a>>) -> (res: Self) {
        Element::Suggestion(value)
    }
}

impl<'a> vstd::std_specs::convert::FromSpecImpl<Snippet<'a, Patch<'a>>> for Element<'a> {
    open spec fn obeys_from_spec() -> bool {
        true
    }

    open spec fn from_spec(value: Snippet<'a, Patch<'a>>) -> Self {
        Element::Suggestion(value)
    }
}

impl<'a> From<Origin<'a>> for Element<'a> {
    fn from(value: Origin<'a>) -> (res: Self) {
        Element::Origin(value)
    }
}

impl<'a> vstd::std_specs::convert::FromSpecImpl<Origin<'a>> for Element<'a> {
    open spec fn obeys_from_spec() -> bool {
        true
    }

    open spec fn from_spec(value: Origin<'a>) -> Self {
        Element::Origin(value)
    }
}

impl<'a> From<Padding> for Element<'a> {
    fn from(value: Padding) -> (res: Self) {
        Element::Padding(value)
    }
}

impl<'a> vstd::std_specs::convert::FromSpecImpl<Padding> for Element<'a> {
    open spec fn obeys_from_spec() -> bool {
        true
    }

    open spec fn from_spec(value: Padding) -> Self {
        Element::Padding(value)
    }
}

impl<'a> Group<'a> {
    /// A group that starts with `title` and takes its level as the primary one.
    pub fn with_title(title: Title<'a>) -> (res: Group<'a>)
        ensures
            res.primary_level == title.level,
            res.elements@ == seq![Element::Title(title)],
    {
        let level = title.level;
        Group::with_level(level).element(Element::Title(title))
    }

    /// A group with no title and the given primary level.
    pub fn with_level(level: Level<'a>) -> (res: Group<'a>)
        ensures
            res.primary_level == level,
            res.elements@ == Seq::<Element<'a>>::empty(),
    {
        Group { primary_level: level, elements: Vec::new() }
    }

    /// The group with `section` added at its end.
    pub fn element(self, section: Element<'a>) -> (res: Group<'a>)
        ensures
            res.primary_level == self.primary_level,
            res.elements@ == self.elements@.push(section),
    {
        let mut g = self;
        g.elements.push(section);
        g
    }

    /// The group with `sections` added at its end, in order.
    pub fn elements(self, sections: Vec<Element<'a>>) -> (res: Group<'a>)
        ensures
            res.primary_level == self.primary_level,
            res.elements@ == self.elements@ + sections@,
    {
        let mut g = self;
        let mut s = sections;
        g.elements.append(&mut s);
        g
    }

    /// Whether the group has no element.
    pub fn is_empty(&self) -> (b: bool)
        ensures
            b == (self.elements@.len() == 0),
    {
        self.elements.len() == 0
    }
}

impl<'a> Title<'a> {
    /// The title with its id set to `id`; its link, if any, is kept.
    pub fn id(self, id: &'a str) -> (res: Title<'a>)
        ensures
            res.level == self.level,
            res.text == self.text,
            res.id == Some(
                Id {
                    id: Some(id),
                    url: match self.id {
                        Some(i) => i.url,
                        None => None,
                    },
                },
            ),
    {
        let url = match self.id {
            Some(i) => i.url,
            None => None,
        };
        Title { level: self.level, id: Some(Id { id: Some(id), url }), text: self.text }
    }

    /// The title with the link of its id set to `url`; its id, if any, is kept.
    pub fn id_url(self, url: &'a str) -> (res: Title<'a>)
        ensures
            res.level == self.level,
            res.text == self.text,
            res.id == Some(
                Id {
                    id: match self.id {
                        Some(i) => i.id,
                        None => None,
                    },
                    url: Some(url),
                },
            ),
    {
        let id = match self.id {
            Some(i) => i.id,
            None => None,
        };
        Title { level: self.level, id: Some(Id { id, url: Some(url) }), text: self.text }
    }
}

impl<'a, T: Clone> Snippet<'a, T> {
    /// A snippet of `source`, starting at line 1, with no path and no
    /// markers, folded.
    pub fn source(source: &'a str) -> (res: Snippet<'a, T>)
        ensures
            res.path is None,
            res.line_start == 1,
            res.source == source,
            res.markers@.len() == 0,
            res.fold,
    {
        Snippet { path: None, line_start: 1, source, markers: Vec::new(), fold: true }
    }

    /// The snippet with its first line numbered `line_start`.
    pub fn line_start(self, line_start: usize) -> (res: Snippet<'a, T>)
        ensures
            res.path == self.path,
            res.line_start == line_start,
            res.source == self.source,
            res.markers@ == self.markers@,
            res.fold == self.fold,
    {
        let mut s = self;
        s.line_start = line_start;
        s
    }

    /// The snippet with its location set to `path`.
    pub fn path(self, path: OptionCow<'a>) -> (res: Snippet<'a, T>)
        ensures
            res.path == path.0,
            res.line_start == self.line_start,
            res.source == self.source,
            res.markers@ == self.markers@,
            res.fold == self.fold,
    {
        let mut s = self;
        s.path = path.0;
        s
    }

    /// The snippet, hiding lines without markers or not.
    pub fn fold(self, fold: bool) -> (res: Snippet<'a, T>)
        ensures
            res.path == self.path,
            res.line_start == self.line_start,
            res.source == self.source,
            res.markers@ == self.markers@,
            res.fold == fold,
    {
        let mut s = self;
        s.fold = fold;
        s
    }
}

impl<'a> Snippet<'a, Annotation<'a>> {
    /// The snippet with `annotation` added after its annotations.
    pub fn annotation(self, annotation: Annotation<'a>) -> (res: Snippet<'a, Annotation<'a>>)
        ensures
            res.path == self.path,
            res.line_start == self.line_start,
            res.source == self.source,
            res.markers@ == self.markers@.push(annotation),
            res.fold == self.fold,
    {
        let mut s = self;
        s.markers.push(annotation);
        s
    }

    /// The snippet with `annotations` added after its annotations, in order.
    pub fn annotations(self, annotations: Vec<Annotation<'a>>) -> (res: Snippet<'a, Annotation<'a>>)
        ensures
            res.path == self.path,
            res.line_start == self.line_start,
            res.source == self.source,
            res.markers@ == self.markers@ + annotations@,
            res.fold == self.fold,
    {
        let mut s = self;
        let mut a = annotations;
        s.markers.append(&mut a);
        s
    }
}

impl<'a> Snippet<'a, Patch<'a>> {
    /// The snippet with `patch` added after its patches.
    pub fn patch(self, patch: Patch<'a>) -> (res: Snippet<'a, Patch<'a>>)
        ensures
            res.path == self.path,
            res.line_start == self.line_start,
            res.source == self.source,
            res.markers@ == self.markers@.push(patch),
            res.fold == self.fold,
    {
        let mut s = self;
        s.markers.push(patch);
        s
    }

    /// The snippet with `patches` added after its patches, in order.
    pub fn patches(self, patches: Vec<Patch<'a>>) -> (res: Snippet<'a, Patch<'a>>)
        ensures
            res.path == self.path,
            res.line_start == self.line_start,
            res.source == self.source,
            res.markers@ == self.markers@ + patches@,
            res.fold == self.fold,
    {
        let mut s = self;
        let mut p = patches;
        s.markers.append(&mut p);
        s
    }
}

impl<'a> Annotation<'a> {
    /// The annotation with its label set to `label`.
    pub fn label(self, label: OptionCow<'a>) -> (res: Annotation<'a>)
        ensures
            res.span == self.span,
            res.label == label.0,
            res.kind == self.kind,
            res.highlight_source == self.highlight_source,
    {
        Annotation { span: self.span, label: label.0, kind: self.kind, highlight_source: self.highlight_source }
    }

    /// The annotation, styling the source it spans or not.
    pub fn highlight_source(self, highlight_source: bool) -> (res: Annotation<'a>)
        ensures
            res.span == self.span,
            res.label == self.label,
            res.kind == self.kind,
            res.highlight_source == highlight_source,
    {
        Annotation { span: self.span, label: self.label, kind: self.kind, highlight_source }
    }
}

impl AnnotationKind {
    /// An annotation of this kind over `span`, with no label and the source
    /// not highlighted.
    pub fn span<'a>(self, span: Range<usize>) -> (res: Annotation<'a>)
        ensures
            res.span == span,
            res.label is None,
            res.kind == self,
            !res.highlight_source,
    {
        Annotation { span, label: None, kind: self, highlight_source: false }
    }

    /// Whether this is the primary kind.
    pub fn is_primary(&self) -> (b: bool)
        ensures
            b == (*self == AnnotationKind::Primary),
    {
        match self {
            AnnotationKind::Primary => true,
            AnnotationKind::Context => false,
        }
    }
}

impl<'a> Patch<'a> {
    /// A patch that puts `replacement` in place of the source at `span`.
    pub fn new(span: Range<usize>, replacement: &'a str) -> (res: Patch<'a>)
        ensures
            res.span == span,
            res.replacement == replacement,
    {
        Patch { span, replacement }
    }
}

impl<'a> Origin<'a> {
    /// An origin at `path`, with no line or column, not primary.
    pub fn path(path: &'a str) -> (res: Origin<'a>)
        ensures
            res.path == path,
            res.line is None,
            res.char_column is None,
            !res.primary,
    {
        Origin { path, line: None, char_column: None, primary: false }
    }

    /// The origin with its line set to `line`.
    pub fn line(self, line: usize) -> (res: Origin<'a>)
        ensures
            res.path == self.path,
            res.line == Some(line),
            res.char_column == self.char_column,
            res.primary == self.primary,
    {
        Origin { path: self.path, line: Some(line), char_column: self.char_column, primary: self.primary }
    }

    /// The origin with its column set to `char_column`.
    pub fn char_column(self, char_column: usize) -> (res: Origin<'a>)
        ensures
            res.path == self.path,
            res.line == self.line,
            res.char_column == Some(char_column),
            res.primary == self.primary,
    {
        Origin { path: self.path, line: self.line, char_column: Some(char_column), primary: self.primary }
    }

    /// The origin, marked as what the group's title speaks of or not.
    pub fn primary(self, primary: bool) -> (res: Origin<'a>)
        ensures
            res.path == self.path,
            res.line == self.line,
            res.char_column == self.char_column,
            res.primary == primary,
    {
        Origin { path: self.path, line: self.line, char_column: self.char_column, primary }
    }
}

impl<'a> From<&'a str> for Origin<'a> {
    fn from(origin: &'a str) -> (res: Self) {
        Origin::path(origin)
    }
}

impl<'a> vstd::std_specs::convert::FromSpecImpl<&'a str> for Origin<'a> {
    open spec fn obeys_from_spec() -> bool {
        true
    }

    open spec fn from_spec(origin: &'a str) -> Self {
        Origin { path: origin, line: None, char_column: None, primary: false }
    }
}

/// The number of leading characters, from `i` on, that two texts share.
pub open spec fn common_prefix_from(a: Seq<char>, b: Seq<char>, i: int) -> int
    decreases a.len() - i,
{
    if 0 <= i < a.len() && i < b.len() && a[i] == b[i] {
        common_prefix_from(a, b, i + 1)
    } else {
        i
    }
}

/// The number of bytes UTF-8 gives the characters.
pub open spec fn utf8_len(cs: Seq<char>) -> int {
    vstd::utf8::encode_utf8(cs).len() as int
}

/// Where a suggestion holds the original with text "sandwiched" in it: once
/// their common leading characters are taken off, the rest of the suggestion
/// ends with the rest of the original. Gives the byte length of the common
/// part, the sandwiched characters, and the byte length of the common end.
pub open spec fn spec_as_substr(original: Seq<char>, suggestion: Seq<char>) -> Option<(int, Seq<char>, int)> {
    let k = common_prefix_from(original, suggestion, 0);
    let o2 = original.skip(k);
    let s2 = suggestion.skip(k);
    if o2.len() <= s2.len() && s2.skip(s2.len() - o2.len()) == o2 {
        Some((utf8_len(original.take(k)), s2.take(s2.len() - o2.len()), utf8_len(o2)))
    } else {
        None
    }
}

/// Finds the text sandwiched in `suggestion` between the common start and
/// end it shares with `original`; see `spec_as_substr`.
pub fn as_substr<'a>(original: &'a str, suggestion: &'a str) -> (res: Option<(usize, &'a str, usize)>)
    requires
        bytes_of(original).len() <= usize::MAX,
        bytes_of(suggestion).len() <= usize::MAX,
    ensures
        match res {
            Some((p, t, q)) => spec_as_substr(original@, suggestion@) == Some((p as int, t@, q as int)) && p + q
                == bytes_of(original).len(),
            None => spec_as_substr(original@, suggestion@) is None,
        },
{
    let oc = str_chars(original);
    let sc = str_chars(suggestion);
    let mut k: usize = 0;
    while k < oc.len() && k < sc.len() && oc[k] == sc[k]
        invariant
            k <= oc@.len(),
            k <= sc@.len(),
            common_prefix_from(oc@, sc@, k as int) == common_prefix_from(oc@, sc@, 0),
        decreases oc.len() - k,
    {
        k += 1;
    }
    let (head, o2) = split_at_chars(original, k);
    let (_, s2) = split_at_chars(suggestion, k);
    let n_o = oc.len() - k;
    let n_s = sc.len() - k;
    proof {
        lemma_empty_str(s2);
        assert(o2@ =~= original@.skip(k as int));
        assert(s2@ =~= suggestion@.skip(k as int));
    }
    if n_o > n_s {
        return None;
    }
    let off = k + (n_s - n_o);
    let ghost so = s2@.skip(s2@.len() - o2@.len());
    let mut t: usize = 0;
    while t < n_o
        invariant
            t <= n_o,
            n_o <= n_s,
            off == k + (n_s - n_o),
            n_o == oc@.len() - k,
            n_s == sc@.len() - k,
            oc@ == original@,
            sc@ == suggestion@,
            k <= oc@.len(),
            k <= sc@.len(),
            sc@.len() <= usize::MAX,
            k as int == common_prefix_from(original@, suggestion@, 0),
            o2@ == original@.skip(k as int),
            s2@ == suggestion@.skip(k as int),
            so == s2@.skip(s2@.len() - o2@.len()),
            forall|u: int| 0 <= u < t ==> #[trigger] so[u] == o2@[u],
        decreases n_o - t,
    {
        assert(so[t as int] == sc@[off + t]);
        assert(o2@[t as int] == oc@[k + t]);
        if sc[off + t] != oc[k + t] {
            assert(so != o2@);
            return None;
        }
        t += 1;
    }
    let (stripped, _) = split_at_chars(s2, n_s - n_o);
    proof {
        assert(so =~= o2@);
        crate::text::lemma_chars_of_str(head);
        crate::text::lemma_chars_of_str(o2);
    }
    Some((head.len(), stripped, o2.len()))
}

/// The characters of the source the patch replaces, if its span lies in the
/// source and does not cut a character.
pub open spec fn patch_snippet<'a>(p: Patch<'a>, sm: SourceMap<'a>) -> Option<Seq<char>> {
    span_chars(sm, p.span.start as int, p.span.end as int)
}

/// Whether the patch replaces something other than whitespace: the source
/// at its span is not blank, or, when that source is not at hand, the span
/// is not empty.
pub open spec fn replaces_meaningful<'a>(p: Patch<'a>, sm: SourceMap<'a>) -> bool {
    match patch_snippet(p, sm) {
        Some(t) => trim_chars(t).len() != 0,
        None => p.span.start < p.span.end,
    }
}

/// The patch only removes text: its replacement is blank and it replaces
/// something meaningful.
pub open spec fn patch_is_deletion<'a>(p: Patch<'a>, sm: SourceMap<'a>) -> bool {
    trim_chars(p.replacement@).len() == 0 && replaces_meaningful(p, sm)
}

/// The patch replaces text and loses some of it.
pub open spec fn patch_is_destructive<'a>(p: Patch<'a>, sm: SourceMap<'a>) -> bool {
    p.replacement@.len() > 0 && replaces_meaningful(p, sm) && !(match patch_snippet(p, sm) {
        Some(t) => spec_as_substr(trim_chars(t), trim_chars(p.replacement@)) is Some,
        None => false,
    })
}

impl<'a> Patch<'a> {
    /// Whether the patch only adds text.
    pub fn is_addition(&self, sm: &SourceMap<'_>) -> (b: bool)
        requires
            bytes_of(sm.source).len() <= usize::MAX,
        ensures
            b == (self.replacement@.len() > 0 && !replaces_meaningful(*self, *sm)),
    {
        !self.replacement.is_empty() && !self.replaces_meaningful_content(sm)
    }

    /// Whether the patch only removes text.
    pub fn is_deletion(&self, sm: &SourceMap<'_>) -> (b: bool)
        requires
            bytes_of(sm.source).len() <= usize::MAX,
        ensures
            b == patch_is_deletion(*self, *sm),
    {
        is_blank(self.replacement) && self.replaces_meaningful_content(sm)
    }

    /// Whether the patch puts text in place of other text.
    pub fn is_replacement(&self, sm: &SourceMap<'_>) -> (b: bool)
        requires
            bytes_of(sm.source).len() <= usize::MAX,
        ensures
            b == (self.replacement@.len() > 0 && replaces_meaningful(*self, *sm)),
    {
        !self.replacement.is_empty() && self.replaces_meaningful_content(sm)
    }

    /// Whether the patch replaces text in a way that loses some of it: the
    /// trimmed source does not sit, around a sandwiched piece, in the trimmed
    /// replacement.
    pub fn is_destructive_replacement(&self, sm: &SourceMap<'_>) -> (b: bool)
        requires
            bytes_of(sm.source).len() <= usize::MAX,
            bytes_of(self.replacement).len() <= usize::MAX,
        ensures
            b == patch_is_destructive(*self, *sm),
    {
        if !self.is_replacement(sm) {
            return false;
        }
        let kept = match sm.span_to_snippet(self.span.start..self.span.end) {
            Some(s) => {
                proof {
                    crate::text::lemma_chars_of_str(s);
                }
                let a = trim_str(s);
                let b = trim_str(self.replacement);
                as_substr(a, b).is_some()
            },
            None => false,
        };
        !kept
    }

    fn replaces_meaningful_content(&self, sm: &SourceMap<'_>) -> (b: bool)
        requires
            bytes_of(sm.source).len() <= usize::MAX,
        ensures
            b == replaces_meaningful(*self, *sm),
    {
        match sm.span_to_snippet(self.span.start..self.span.end) {
            Some(snippet) => !is_blank(snippet),
            None => self.span.start < self.span.end,
        }
    }

    /// Turns a replacement into an addition where the replaced source is a
    /// common start and end of the replacement: the span shrinks to the
    /// sandwiched part and the replacement becomes that part.
    pub fn trim_trivial_replacements(&mut self, sm: &'a SourceMap<'a>)
        requires
            bytes_of(sm.source).len() <= usize::MAX,
            bytes_of(old(self).replacement).len() <= usize::MAX,
        ensures
            ({
                let p = *old(self);
                match patch_snippet(p, *sm) {
                    Some(t) if p.replacement@.len() > 0 => match spec_as_substr(t, p.replacement@) {
                        Some((prefix, mid, suffix)) => {
                            &&& final(self).replacement@ == mid
                            &&& final(self).span.start == p.span.start + prefix
                            &&& final(self).span.end == (if p.span.end >= suffix {
                                p.span.end - suffix
                            } else {
                                0
                            })
                        },
                        None => *final(self) == p,
                    },
                    _ => *final(self) == p,
                }
            }),
    {
        if self.replacement.is_empty() {
            return;
        }
        let snippet = match sm.span_to_snippet(self.span.start..self.span.end) {
            Some(s) => s,
            None => return,
        };
        proof {
            crate::text::lemma_chars_of_str(snippet);
            crate::text::lemma_empty_str(snippet);
        }
        if let Some((prefix, substr, suffix)) = as_substr(snippet, self.replacement) {
            self.span = (self.span.start + prefix)..self.span.end.saturating_sub(suffix);
            self.replacement = substr;
        }
    }
}

} // verus!
