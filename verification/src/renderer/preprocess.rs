//! Measures taken of the input before it is rendered.
use vstd::prelude::*;

use crate::cursor_line::{collect_lines, cursor_lines, lemma_line_count, newlines};
use crate::renderer::line_filter::{trim_chars, trim_str};
use crate::renderer::source_map::SourceMap;
use crate::renderer::no_graphics::{find_group_primary, find_report_primary, group_primary, maps_source, report_primary};
use crate::snippet::{
    patch_is_deletion, patch_is_destructive, Annotation, Element, Group, Message, Origin, Padding, Patch, Snippet, Title,
};
use crate::text::{bytes_of, is_boundary, str_eq};

verus! {

/// The line feeds of a text that are followed by more of it: a trailing
/// line feed does not start a new line.
pub open spec fn inner_newlines(b: Seq<u8>) -> nat {
    if b.len() > 0 && b.last() == 10u8 {
        (newlines(b) - 1) as nat
    } else {
        newlines(b)
    }
}

/// The number of lines of `body` after its first one.
pub fn newline_count(body: &str) -> (n: usize)
    ensures
        n == inner_newlines(bytes_of(body)),
        n == (if cursor_lines(bytes_of(body)).len() == 0 {
            0
        } else {
            cursor_lines(bytes_of(body)).len() - 1
        }),
{
    proof {
        lemma_line_count(bytes_of(body));
    }
    newline_count_bytes(body.as_bytes())
}

/// The number of line feeds of `bytes`, a trailing one aside.
fn newline_count_bytes(bytes: &[u8]) -> (n: usize)
    ensures
        n == inner_newlines(bytes@),
{
    let count = count_byte(bytes, 10u8);
    proof {
        lemma_occurrences_are_newlines(bytes@);
    }
    let trailing_newline = bytes.len() > 0 && bytes[bytes.len() - 1] == 10u8;
    if trailing_newline {
        proof {
            let b = bytes@;
            assert(newlines(b) == newlines(b.drop_last()) + 1);
        }
        count - 1
    } else {
        count
    }
}

/// The number of times `x` occurs in `b`.
pub open spec fn occurrences(b: Seq<u8>, x: u8) -> nat
    decreases b.len(),
{
    if b.len() == 0 {
        0
    } else {
        occurrences(b.drop_last(), x) + if b.last() == x {
            1nat
        } else {
            0nat
        }
    }
}

proof fn lemma_occurrences_are_newlines(b: Seq<u8>)
    ensures
        occurrences(b, 10u8) == newlines(b),
    decreases b.len(),
{
    if b.len() > 0 {
        lemma_occurrences_are_newlines(b.drop_last());
    }
}

/// `memchr::memchr_iter(needle, haystack).count()`: the iterator yields the
/// position of each occurrence of `needle` in `haystack`, so the count is the
/// number of occurrences.
#[verifier::external_body]
pub(crate) fn count_byte(haystack: &[u8], needle: u8) -> (n: usize)
    ensures
        n == occurrences(haystack@, needle),
{
    memchr::memchr_iter(needle, haystack).count()
}

/// How a suggestion is shown.
#[derive(Clone, Copy, Debug, PartialEq, Eq, Structural)]
pub enum DisplaySuggestion {
    Underline,
    Diff,
    Nothing,
    Add,
}

/// Some patch deletes text or replaces it destructively.
pub open spec fn has_deletion<'a>(patches: Seq<Patch<'a>>, sm: SourceMap<'a>) -> bool {
    exists|i: int|
        0 <= i < patches.len() && (patch_is_deletion(#[trigger] patches[i], sm) || patch_is_destructive(
            patches[i],
            sm,
        ))
}

/// How a suggestion whose patched text is `complete` is shown: as a diff
/// when it deletes text on one line; as an addition when its one patch adds
/// whole lines that make up the text; underlined when it is on one line and
/// is not just its one patch; otherwise not at all.
pub open spec fn spec_display_suggestion<'a>(complete: Seq<char>, lines: nat, patches: Seq<Patch<'a>>, sm: SourceMap<'a>) -> DisplaySuggestion {
    let is_multiline = lines > 1;
    let one = patches.len() == 1;
    if has_deletion(patches, sm) && !is_multiline {
        DisplaySuggestion::Diff
    } else if one && patches[0].replacement@.len() > 0 && patches[0].replacement@.last() == '\n' && trim_chars(
        patches[0].replacement@,
    ) == trim_chars(complete) {
        DisplaySuggestion::Add
    } else if (!one || trim_chars(patches[0].replacement@) != trim_chars(complete)) && !is_multiline {
        DisplaySuggestion::Underline
    } else {
        DisplaySuggestion::Nothing
    }
}

impl DisplaySuggestion {
    /// How a suggestion is shown; see `spec_display_suggestion`.
    pub fn new(complete: &str, patches: &[Patch<'_>], sm: &SourceMap<'_>) -> (res: DisplaySuggestion)
        requires
            bytes_of(sm.source).len() <= usize::MAX,
            bytes_of(complete).len() <= usize::MAX,
            forall|i: int| 0 <= i < patches@.len() ==> bytes_of(#[trigger] patches@[i].replacement).len() <= usize::MAX,
        ensures
            res == spec_display_suggestion(complete@, cursor_lines(bytes_of(complete)).len(), patches@, *sm),
    {
        let mut has_del = false;
        let mut i: usize = 0;
        while i < patches.len()
            invariant
                i <= patches@.len(),
                bytes_of(sm.source).len() <= usize::MAX,
                forall|k: int| 0 <= k < patches@.len() ==> bytes_of(#[trigger] patches@[k].replacement).len() <= usize::MAX,
                has_del == exists|k: int|
                    0 <= k < i && (patch_is_deletion(#[trigger] patches@[k], *sm) || patch_is_destructive(
                        patches@[k],
                        *sm,
                    )),
            decreases patches.len() - i,
        {
            let p = &patches[i];
            if p.is_deletion(sm) || p.is_destructive_replacement(sm) {
                has_del = true;
            }
            i += 1;
        }
        let is_multiline = collect_lines(complete).len() > 1;
        if has_del && !is_multiline {
            return DisplaySuggestion::Diff;
        }
        let tc = trim_str(complete);
        if patches.len() == 1 {
            let r = patches[0].replacement;
            let tr = trim_str(r);
            let same = str_eq(tr, tc);
            let rc = crate::text::str_chars(r);
            let ends_lf = rc.len() > 0 && rc[rc.len() - 1] == '\n';
            if ends_lf && same {
                DisplaySuggestion::Add
            } else if !same && !is_multiline {
                DisplaySuggestion::Underline
            } else {
                DisplaySuggestion::Nothing
            }
        } else if !is_multiline {
            DisplaySuggestion::Underline
        } else {
            DisplaySuggestion::Nothing
        }
    }
}

/// An element of a group, with the source map of its snippet where it has
/// one.
pub enum PreprocessedElement<'a> {
    Title(&'a Title<'a>),
    Message(&'a Message<'a>),
    Cause(&'a Snippet<'a, Annotation<'a>>, SourceMap<'a>),
    Suggestion(&'a Snippet<'a, Patch<'a>>, SourceMap<'a>),
    Origin(&'a Origin<'a>),
    Padding(Padding),
}

/// A group with its elements prepared and its primary path found.
pub struct PreprocessedGroup<'a> {
    pub group: &'a Group<'a>,
    pub elements: Vec<PreprocessedElement<'a>>,
    pub primary_path: Option<&'a str>,
}

/// A report prepared for rendering: the largest line number that its
/// sources show, the primary path of its first group that has one, and its
/// groups in order.
pub struct Preprocessed<'a> {
    pub max_line_num: Option<usize>,
    pub report_primary_path: Option<&'a str>,
    pub groups: Vec<PreprocessedGroup<'a>>,
}

/// `pe` is the element `e`, with a source map of its snippet where it has
/// one.
pub open spec fn element_prepared<'a>(pe: PreprocessedElement<'a>, e: Element<'a>) -> bool {
    match pe {
        PreprocessedElement::Title(t) => e == Element::Title(*t),
        PreprocessedElement::Message(m) => e == Element::Message(*m),
        PreprocessedElement::Cause(c, sm) => e == Element::Cause(*c) && maps_source(sm, c.source, c.line_start),
        PreprocessedElement::Suggestion(s, sm) => e == Element::Suggestion(*s) && maps_source(
            sm,
            s.source,
            s.line_start,
        ),
        PreprocessedElement::Origin(o) => e == Element::Origin(*o),
        PreprocessedElement::Padding(p) => e == Element::Padding(p),
    }
}

/// `pg` is the group `g`: its elements one for one and in order, and the
/// path of its first cause or origin.
pub open spec fn group_prepared<'a>(pg: PreprocessedGroup<'a>, g: Group<'a>) -> bool {
    &&& *pg.group == g
    &&& pg.elements@.len() == g.elements@.len()
    &&& forall|e: int| 0 <= e < g.elements@.len() ==> element_prepared(#[trigger] pg.elements@[e], g.elements@[e])
    &&& pg.primary_path == group_primary(g.elements@, 0)
}

/// The largest end of the annotations' spans, if there is one.
pub open spec fn markers_end<'a>(ms: Seq<Annotation<'a>>) -> Option<int>
    decreases ms.len(),
{
    if ms.len() == 0 {
        None
    } else {
        let e = ms.last().span.end as int;
        match markers_end(ms.drop_last()) {
            Some(x) => Some(if x < e { e } else { x }),
            None => Some(e),
        }
    }
}

/// How much of a cause's source is shown: all of it, or when folded, up to
/// the end of its last-ending annotation (the whole source when it has
/// none).
pub open spec fn cause_end<'a>(c: Snippet<'a, Annotation<'a>>) -> int {
    let len = bytes_of(c.source).len() as int;
    if c.fold {
        match markers_end(c.markers@) {
            Some(x) => if x < len { x } else { len },
            None => len,
        }
    } else {
        len
    }
}

/// The number of the last line of a cause that is shown.
pub open spec fn cause_last_line<'a>(c: Snippet<'a, Annotation<'a>>) -> int {
    c.line_start + inner_newlines(bytes_of(c.source).take(cause_end(c)))
}

/// `acc` raised to `n`, counting a missing `acc` as 0.
pub open spec fn with_line(acc: Option<int>, n: int) -> Option<int> {
    let m = match acc {
        Some(m) => m,
        None => 0,
    };
    Some(if n < m { m } else { n })
}

/// `acc` raised to the last shown line of each cause of `els`.
pub open spec fn elements_max_line<'a>(els: Seq<Element<'a>>, acc: Option<int>) -> Option<int>
    decreases els.len(),
{
    if els.len() == 0 {
        acc
    } else {
        let a = elements_max_line(els.drop_last(), acc);
        match els.last() {
            Element::Cause(c) => with_line(a, cause_last_line(c)),
            _ => a,
        }
    }
}

/// The largest line number that the causes of the groups show; none when
/// they have no cause.
pub open spec fn spec_max_line_num<'a>(groups: Seq<Group<'a>>) -> Option<int>
    decreases groups.len(),
{
    if groups.len() == 0 {
        None
    } else {
        elements_max_line(groups.last().elements@, spec_max_line_num(groups.drop_last()))
    }
}

/// An optional `usize` as an optional integer.
pub open spec fn opt_int(o: Option<usize>) -> Option<int> {
    match o {
        Some(n) => Some(n as int),
        None => None,
    }
}

/// A source whose lines can be numbered from `line_start` in a `usize`.
pub open spec fn source_fits(source: &str, line_start: usize) -> bool {
    &&& bytes_of(source).len() <= usize::MAX
    &&& line_start + cursor_lines(bytes_of(source)).len() <= usize::MAX + 1
}

/// What preparing a report needs: each snippet's lines can be numbered, a
/// folded cause is cut on a character boundary, and the last line number a
/// cause shows fits in `usize`.
pub open spec fn preprocess_fits<'a>(groups: Seq<Group<'a>>) -> bool {
    forall|g: int, e: int|
        0 <= g < groups.len() && 0 <= e < groups[g].elements@.len() ==> match #[trigger] groups[g].elements@[e] {
            Element::Cause(c) => {
                &&& source_fits(c.source, c.line_start)
                &&& (c.fold ==> is_boundary(c.source, cause_end(c)))
                &&& cause_last_line(c) <= usize::MAX
            },
            Element::Suggestion(s) => source_fits(s.source, s.line_start),
            _ => true,
        }
}

fn markers_max_end(ms: &Vec<Annotation>) -> (res: Option<usize>)
    ensures
        opt_int(res) == markers_end(ms@),
{
    let mut res: Option<usize> = None;
    let mut i: usize = 0;
    while i < ms.len()
        invariant
            i <= ms@.len(),
            opt_int(res) == markers_end(ms@.take(i as int)),
        decreases ms.len() - i,
    {
        assert(ms@.take(i + 1).drop_last() =~= ms@.take(i as int));
        let e = ms[i].span.end;
        res = match res {
            Some(x) => Some(if x < e { e } else { x }),
            None => Some(e),
        };
        i += 1;
    }
    assert(ms@.take(i as int) =~= ms@);
    res
}

/// The number of lines a cause shows after its first one.
fn cause_newlines(c: &Snippet<Annotation>) -> (n: usize)
    ensures
        n == inner_newlines(bytes_of(c.source).take(cause_end(*c))),
{
    let bytes = c.source.as_bytes();
    let len = bytes.len();
    let end = if c.fold {
        match markers_max_end(&c.markers) {
            Some(x) => if x < len { x } else { len },
            None => len,
        }
    } else {
        len
    };
    let head = vstd::slice::slice_subrange(bytes, 0, end);
    newline_count_bytes(head)
}

/// Prepares a report for rendering: each group's elements in order, with a
/// source map of each snippet; the primary path of each group (that of its
/// first cause or origin) and of the report (that of its first group that
/// has one); and the largest line number its causes show.
pub fn preprocess<'a>(groups: &'a [Group<'a>]) -> (res: Preprocessed<'a>)
    requires
        preprocess_fits(groups@),
    ensures
        res.groups@.len() == groups@.len(),
        forall|g: int| 0 <= g < groups@.len() ==> group_prepared(#[trigger] res.groups@[g], groups@[g]),
        res.report_primary_path == report_primary(groups@, 0),
        opt_int(res.max_line_num) == spec_max_line_num(groups@),
{
    let mut max_line_num: Option<usize> = None;
    let mut out: Vec<PreprocessedGroup<'a>> = Vec::new();
    let mut g: usize = 0;
    while g < groups.len()
        invariant
            g <= groups@.len(),
            preprocess_fits(groups@),
            out@.len() == g,
            forall|h: int| 0 <= h < g ==> group_prepared(#[trigger] out@[h], groups@[h]),
            opt_int(max_line_num) == spec_max_line_num(groups@.take(g as int)),
        decreases groups.len() - g,
    {
        let group = &groups[g];
        let els = &group.elements;
        let ghost before = opt_int(max_line_num);
        let mut elements: Vec<PreprocessedElement<'a>> = Vec::new();
        let mut e: usize = 0;
        assert(els@.take(0) =~= Seq::<Element>::empty());
        while e < els.len()
            invariant
                g < groups@.len(),
                *group == groups@[g as int],
                els@ == groups@[g as int].elements@,
                e <= els@.len(),
                preprocess_fits(groups@),
                elements@.len() == e,
                forall|f: int| 0 <= f < e ==> element_prepared(#[trigger] elements@[f], els@[f]),
                opt_int(max_line_num) == elements_max_line(els@.take(e as int), before),
            decreases els.len() - e,
        {
            assert(els@.take(e + 1).drop_last() =~= els@.take(e as int));
            assert(els@.take(e + 1).last() == els@[e as int]);
            assert(match groups@[g as int].elements@[e as int] {
                Element::Cause(c) => {
                    &&& source_fits(c.source, c.line_start)
                    &&& (c.fold ==> is_boundary(c.source, cause_end(c)))
                    &&& cause_last_line(c) <= usize::MAX
                },
                Element::Suggestion(s) => source_fits(s.source, s.line_start),
                _ => true,
            });
            let pe = match &els[e] {
                Element::Title(t) => PreprocessedElement::Title(t),
                Element::Message(m) => PreprocessedElement::Message(m),
                Element::Cause(c) => {
                    let n = cause_newlines(c);
                    let last = c.line_start + n;
                    let prev = match max_line_num {
                        Some(m) => m,
                        None => 0,
                    };
                    max_line_num = Some(if last < prev { prev } else { last });
                    PreprocessedElement::Cause(c, SourceMap::new(c.source, c.line_start))
                },
                Element::Suggestion(s) => PreprocessedElement::Suggestion(s, SourceMap::new(s.source, s.line_start)),
                Element::Origin(o) => PreprocessedElement::Origin(o),
                Element::Padding(p) => PreprocessedElement::Padding(*p),
            };
            elements.push(pe);
            e += 1;
        }
        assert(els@.take(e as int) =~= els@);
        assert(groups@.take(g + 1).drop_last() =~= groups@.take(g as int));
        assert(groups@.take(g + 1).last() == groups@[g as int]);
        let primary_path = find_group_primary(els);
        out.push(PreprocessedGroup { group, elements, primary_path });
        g += 1;
    }
    assert(groups@.take(g as int) =~= groups@);
    let report_primary_path = find_report_primary(groups);
    Preprocessed { max_line_num, report_primary_path, groups: out }
}


/// A suggestion whose patched text is a single line, with more than one
/// patch and none that deletes or destructively replaces text, is shown
/// underlined.
pub proof fn law_several_patches_underlined<'a>(
    complete: Seq<char>,
    lines: nat,
    patches: Seq<Patch<'a>>,
    sm: SourceMap<'a>,
)
    requires
        lines <= 1,
        patches.len() > 1,
        forall|i: int|
            0 <= i < patches.len() ==> !patch_is_deletion(#[trigger] patches[i], sm) && !patch_is_destructive(
                patches[i],
                sm,
            ),
    ensures
        spec_display_suggestion(complete, lines, patches, sm) == DisplaySuggestion::Underline,
{
    assert(!has_deletion(patches, sm));
}


/// A suggestion whose patched text is a single line and that has a patch
/// deleting or destructively replacing text is shown as a diff.
pub proof fn law_deletion_on_one_line_is_diff<'a>(
    complete: Seq<char>,
    lines: nat,
    patches: Seq<Patch<'a>>,
    sm: SourceMap<'a>,
    i: int,
)
    requires
        lines <= 1,
        0 <= i < patches.len(),
        patch_is_deletion(patches[i], sm) || patch_is_destructive(patches[i], sm),
    ensures
        spec_display_suggestion(complete, lines, patches, sm) == DisplaySuggestion::Diff,
{
    assert(has_deletion(patches, sm));
}

} // verus!
