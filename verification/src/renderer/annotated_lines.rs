//! The annotated lines of a source: which annotations are drawn on which line.
use vstd::prelude::*;

use crate::message::Annotation;
use crate::renderer::line_annotations::{
    ann_sort, assign_depths, invert_depth_order, invert_depths, ml_sort, sort_by_start, sort_multiline,
    spread_depths,
};
use crate::renderer::line_filter::{keeps_line, line_is_kept};
use crate::renderer::source_map::{
    describes_line, span_locations, span_requires, AnnotatedLineInfo, AnnotatedLineView, LineAnnotation,
    LineAnnotationType, Loc, MultilineAnnotation, SourceMap,
};
use crate::cursor_line::cursor_lines;
use crate::text::bytes_of;

verus! {

/// Per line of the source, the annotations drawn on it.
pub open spec fn no_annotations<'a>(n: int) -> Seq<Seq<LineAnnotation<'a>>> {
    Seq::new(n as nat, |i: int| Seq::<LineAnnotation<'a>>::empty())
}

/// `ann` drawn last on line `line`, lines being numbered from `first`.
pub open spec fn add_at<'a>(
    ls: Seq<Seq<LineAnnotation<'a>>>,
    first: int,
    line: int,
    ann: LineAnnotation<'a>,
) -> Seq<Seq<LineAnnotation<'a>>> {
    ls.update(line - first, ls[line - first].push(ann))
}

/// An empty span on one line is drawn one column wide.
pub open spec fn widen_empty(lo: Loc, hi: Loc) -> Loc {
    if lo.display == hi.display && lo.line == hi.line {
        Loc { line: hi.line, char: hi.char, display: (hi.display + 1) as usize, byte: hi.byte }
    } else {
        hi
    }
}

/// The annotations, in order, placed: those on one line drawn on it, the
/// others set aside, in order, as multiline annotations at depth 1.
pub open spec fn place_annotations<'a>(sm: SourceMap<'a>, anns: Seq<Annotation<'a>>) -> (
    Seq<Seq<LineAnnotation<'a>>>,
    Seq<MultilineAnnotation<'a>>,
)
    decreases anns.len(),
{
    if anns.len() == 0 {
        (no_annotations(sm.lines@.len() as int), Seq::empty())
    } else {
        let (ls, ms) = place_annotations(sm, anns.drop_last());
        let a = anns.last();
        let (lo, hi0) = span_locations(sm, a.range.start as int, a.range.end as int);
        let hi = widen_empty(lo, hi0);
        if lo.line == hi.line {
            (
                add_at(
                    ls,
                    sm.first_line(),
                    lo.line as int,
                    LineAnnotation {
                        start: lo,
                        end: hi,
                        level: a.level,
                        label: a.label,
                        annotation_type: LineAnnotationType::Singleline,
                    },
                ),
                ms,
            )
        } else {
            (
                ls,
                ms.push(
                    MultilineAnnotation {
                        depth: 1,
                        start: lo,
                        end: hi,
                        level: a.level,
                        label: a.label,
                        overlaps_exactly: false,
                    },
                ),
            )
        }
    }
}

/// The text of line `l`, if the source has it.
pub open spec fn line_text<'a>(sm: SourceMap<'a>, l: int) -> Option<&'a str> {
    if sm.first_line() <= l < sm.first_line() + sm.lines@.len() {
        Some(sm.lines@[l - sm.first_line()].line)
    } else {
        None
    }
}

/// One past the last line below `hi`, and not before `start`, that carries
/// code worth showing; `start` when there is none.
pub open spec fn until_search<'a>(sm: SourceMap<'a>, start: int, hi: int) -> int
    decreases hi - start,
{
    if hi <= start {
        start
    } else {
        match line_text(sm, hi - 1) {
            Some(s) => if keeps_line(s@) {
                hi
            } else {
                until_search(sm, start, hi - 1)
            },
            None => until_search(sm, start, hi - 1),
        }
    }
}

/// `ann` drawn on each line from `from` up to, not including, `to`.
pub open spec fn add_lines<'a>(
    ls: Seq<Seq<LineAnnotation<'a>>>,
    first: int,
    from: int,
    to: int,
    ann: LineAnnotation<'a>,
) -> Seq<Seq<LineAnnotation<'a>>>
    decreases to - from,
{
    if from >= to {
        ls
    } else {
        add_lines(add_at(ls, first, from, ann), first, from + 1, to, ann)
    }
}

/// What `MultilineAnnotation::as_start` gives.
pub open spec fn ml_as_start<'a>(a: MultilineAnnotation<'a>) -> LineAnnotation<'a> {
    LineAnnotation {
        start: a.start,
        end: Loc {
            line: a.start.line,
            char: (a.start.char + 1) as usize,
            display: (a.start.display + 1) as usize,
            byte: (a.start.byte + 1) as usize,
        },
        level: a.level,
        label: None,
        annotation_type: LineAnnotationType::MultilineStart(a.depth),
    }
}

/// What `MultilineAnnotation::as_end` gives.
pub open spec fn ml_as_end<'a>(a: MultilineAnnotation<'a>) -> LineAnnotation<'a> {
    LineAnnotation {
        start: Loc {
            line: a.end.line,
            char: if a.end.char > 0 { (a.end.char - 1) as usize } else { 0 },
            display: if a.end.display > 0 { (a.end.display - 1) as usize } else { 0 },
            byte: if a.end.byte > 0 { (a.end.byte - 1) as usize } else { 0 },
        },
        end: a.end,
        level: a.level,
        label: a.label,
        annotation_type: LineAnnotationType::MultilineEnd(a.depth),
    }
}

/// What `MultilineAnnotation::as_line` gives.
pub open spec fn ml_as_line<'a>(a: MultilineAnnotation<'a>) -> LineAnnotation<'a> {
    LineAnnotation {
        start: Loc { line: 0, char: 0, display: 0, byte: 0 },
        end: Loc { line: 0, char: 0, display: 0, byte: 0 },
        level: a.level,
        label: None,
        annotation_type: LineAnnotationType::MultilineLine(a.depth),
    }
}

/// The end mark drawn as a single-line annotation.
pub open spec fn as_singleline<'a>(a: LineAnnotation<'a>) -> LineAnnotation<'a> {
    LineAnnotation {
        start: a.start,
        end: a.end,
        level: a.level,
        label: a.label,
        annotation_type: LineAnnotationType::Singleline,
    }
}

/// A multiline annotation drawn: when it covers exactly the span of another,
/// only its end, as a single-line mark; otherwise its start, a joining mark
/// on each of the (up to four) following lines that lead to code worth
/// showing, one on the line before its end when that line is further down
/// and not empty, and its end.
pub open spec fn place_multiline<'a>(
    sm: SourceMap<'a>,
    ls: Seq<Seq<LineAnnotation<'a>>>,
    ann: MultilineAnnotation<'a>,
) -> Seq<Seq<LineAnnotation<'a>>> {
    let first = sm.first_line();
    let end_ann = ml_as_end(ann);
    if ann.overlaps_exactly {
        add_at(ls, first, ann.end.line as int, as_singleline(end_ann))
    } else {
        let ls1 = add_at(ls, first, ann.start.line as int, ml_as_start(ann));
        let middle: int = if ann.start.line + 4 < ann.end.line {
            ann.start.line + 4
        } else {
            ann.end.line as int
        };
        let until = until_search(sm, ann.start.line as int, middle);
        let ls2 = add_lines(ls1, first, ann.start.line + 1, until, ml_as_line(ann));
        let line_end = ann.end.line - 1;
        let end_is_empty = match line_text(sm, line_end) {
            Some(s) => !keeps_line(s@),
            None => false,
        };
        let ls3 = if middle < line_end && !end_is_empty {
            add_at(ls2, first, line_end, ml_as_line(ann))
        } else {
            ls2
        };
        add_at(ls3, first, ann.end.line as int, end_ann)
    }
}

/// The multiline annotations drawn in turn.
pub open spec fn place_multilines<'a>(
    sm: SourceMap<'a>,
    ls: Seq<Seq<LineAnnotation<'a>>>,
    ms: Seq<MultilineAnnotation<'a>>,
) -> Seq<Seq<LineAnnotation<'a>>>
    decreases ms.len(),
{
    if ms.len() == 0 {
        ls
    } else {
        place_multiline(sm, place_multilines(sm, ls, ms.drop_last()), ms.last())
    }
}

/// The lines that have annotations.
pub open spec fn keep_annotated<'a>(s: Seq<AnnotatedLineView<'a>>) -> Seq<AnnotatedLineView<'a>>
    decreases s.len(),
{
    if s.len() == 0 {
        s
    } else if s.last().annotations.len() > 0 {
        keep_annotated(s.drop_last()).push(s.last())
    } else {
        keep_annotated(s.drop_last())
    }
}

/// The annotated lines of a source: every line (only those with annotations
/// when folding), each with the annotations drawn on it sorted by where they
/// start. Multiline annotations are laid out by start line, longest first,
/// overlapping ones moved to different depths, and the depths turned around
/// so the outermost is drawn first.
pub open spec fn spec_annotated_lines<'a>(sm: SourceMap<'a>, anns: Seq<Annotation<'a>>, fold: bool) -> Seq<
    AnnotatedLineView<'a>,
> {
    let (ls, ms) = place_annotations(sm, anns);
    let sorted = ml_sort(ms);
    let ms2 = invert_depths(assign_depths(sorted, sorted, 0));
    let ls2 = place_multilines(sm, ls, ms2);
    let all = Seq::new(
        sm.lines@.len(),
        |i: int|
            AnnotatedLineView {
                line: sm.lines@[i].line,
                line_index: sm.lines@[i].line_index,
                annotations: ann_sort(ls2[i]),
            },
    );
    if fold {
        keep_annotated(all)
    } else {
        all
    }
}

/// The infos are those of every line of the source, in order, with the
/// annotations of `ls`.
pub open spec fn infos_hold<'a>(
    sm: SourceMap<'a>,
    infos: Seq<AnnotatedLineInfo<'a>>,
    ls: Seq<Seq<LineAnnotation<'a>>>,
) -> bool {
    &&& infos.len() == sm.lines@.len()
    &&& ls.len() == sm.lines@.len()
    &&& forall|i: int|
        0 <= i < infos.len() ==> (#[trigger] infos[i])@ == (AnnotatedLineView {
            line: sm.lines@[i].line,
            line_index: sm.lines@[i].line_index,
            annotations: ls[i],
        })
}

/// The infos are sorted by line, no line twice.
pub open spec fn infos_sorted<'a>(infos: Seq<AnnotatedLineInfo<'a>>) -> bool {
    forall|i: int, j: int| 0 <= i < j < infos.len() ==> infos[i].line_index < infos[j].line_index
}

/// What the infos hold.
pub open spec fn infos_view<'a>(infos: Seq<AnnotatedLineInfo<'a>>) -> Seq<AnnotatedLineView<'a>> {
    infos.map_values(|x: AnnotatedLineInfo<'a>| x@)
}

/// `x` put at position `p` of `v`.
pub open spec fn inserted_at<A>(v: Seq<A>, p: int, x: A) -> Seq<A> {
    v.take(p).push(x) + v.skip(p)
}

impl<'a> SourceMap<'a> {
    /// Draws `line_ann` on line `line_index`: last among the annotations of
    /// that line's info, or in a new info put in its place by line.
    pub fn add_annotation_to_file(
        &self,
        annotated_line_infos: &mut Vec<AnnotatedLineInfo<'a>>,
        line_index: usize,
        line_ann: LineAnnotation<'a>,
    )
        requires
            self.wf(),
            infos_sorted(old(annotated_line_infos)@),
            (exists|i: int|
                0 <= i < old(annotated_line_infos)@.len() && #[trigger] old(annotated_line_infos)@[i].line_index
                    == line_index) || (self.first_line() <= line_index < self.first_line()
                + self.lines@.len()),
        ensures
            infos_sorted(final(annotated_line_infos)@),
            forall|i: int|
                0 <= i < old(annotated_line_infos)@.len() && #[trigger] old(annotated_line_infos)@[i].line_index
                    == line_index ==> {
                    &&& final(annotated_line_infos)@.len() == old(annotated_line_infos)@.len()
                    &&& final(annotated_line_infos)@[i]@ == (AnnotatedLineView {
                        annotations: old(annotated_line_infos)@[i]@.annotations.push(line_ann),
                        ..old(annotated_line_infos)@[i]@
                    })
                    &&& forall|j: int|
                        0 <= j < old(annotated_line_infos)@.len() && j != i
                            ==> #[trigger] final(annotated_line_infos)@[j]@ == old(annotated_line_infos)@[j]@
                },
            (forall|i: int|
                0 <= i < old(annotated_line_infos)@.len() ==> #[trigger] old(annotated_line_infos)@[i].line_index
                    != line_index) ==> exists|p: int|
                0 <= p <= old(annotated_line_infos)@.len() && #[trigger] inserted_at(
                    infos_view(old(annotated_line_infos)@),
                    p,
                    AnnotatedLineView {
                        line: self.lines@[line_index - self.first_line()].line,
                        line_index,
                        annotations: seq![line_ann],
                    },
                ) == infos_view(final(annotated_line_infos)@),
    {
        let ghost old_infos = annotated_line_infos@;
        let mut i: usize = 0;
        while i < annotated_line_infos.len()
            invariant
                annotated_line_infos@ == old_infos,
                old_infos == old(annotated_line_infos)@,
                infos_sorted(old_infos),
                i <= old_infos.len(),
                forall|j: int| 0 <= j < i ==> (#[trigger] old_infos[j]).line_index != line_index,
            decreases annotated_line_infos.len() - i,
        {
            if annotated_line_infos[i].line_index == line_index {
                let mut info = annotated_line_infos.remove(i);
                info.annotations.push(line_ann);
                annotated_line_infos.insert(i, info);
                proof {
                    assert(old_infos[i as int].line_index == line_index);
                    assert(annotated_line_infos@.len() == old_infos.len());
                    assert(annotated_line_infos@[i as int]@ == (AnnotatedLineView {
                        annotations: old_infos[i as int]@.annotations.push(line_ann),
                        ..old_infos[i as int]@
                    }));
                    assert forall|j: int| 0 <= j < old_infos.len() && j != i implies
                        #[trigger] annotated_line_infos@[j]@ == old_infos[j]@ by {
                        if j < i {
                            assert(annotated_line_infos@[j] == old_infos[j]);
                        } else {
                            assert(annotated_line_infos@[j] == old_infos[j]);
                        }
                    }
                    assert forall|k: int|
                        0 <= k < old_infos.len() && #[trigger] old_infos[k].line_index == line_index implies k
                            == i by {
                        if k < i {
                        } else if k > i {
                            assert(old_infos[i as int].line_index < old_infos[k].line_index);
                        }
                    }
                    assert forall|a: int, b: int| 0 <= a < b < annotated_line_infos@.len() implies annotated_line_infos@[a].line_index
                        < annotated_line_infos@[b].line_index by {
                        assert(annotated_line_infos@[a].line_index == old_infos[a].line_index);
                        assert(annotated_line_infos@[b].line_index == old_infos[b].line_index);
                    }
                }
                return;
            }
            i += 1;
        }
        let ghost cl = cursor_lines(bytes_of(self.source));
        proof {
            let j = line_index - self.first_line();
            assert(describes_line(self.lines@[j], cl, j, self.first_line()));
        }
        let mut k: usize = 0;
        while k < self.lines.len()
            invariant
                self.wf(),
                k <= self.lines@.len(),
                self.first_line() <= line_index < self.first_line() + self.lines@.len(),
                self.lines@[line_index - self.first_line()].line_index == line_index,
                forall|j: int| 0 <= j < k ==> (#[trigger] self.lines@[j]).line_index != line_index,
            ensures
                k < self.lines@.len(),
                self.lines@[k as int].line_index == line_index,
            decreases self.lines.len() - k,
        {
            if self.lines[k].line_index == line_index {
                break;
            }
            k += 1;
        }
        proof {
            let j = line_index - self.first_line();
            assert(describes_line(self.lines@[k as int], cl, k as int, self.first_line()));
            assert(k == j);
        }
        let info = self.lines[k];
        let mut anns: Vec<LineAnnotation<'a>> = Vec::new();
        anns.push(line_ann);
        let new_info = AnnotatedLineInfo { line: info.line, line_index, annotations: anns };
        let mut p: usize = 0;
        while p < annotated_line_infos.len() && annotated_line_infos[p].line_index < line_index
            invariant
                annotated_line_infos@ == old_infos,
                p <= old_infos.len(),
                forall|j: int| 0 <= j < p ==> (#[trigger] old_infos[j]).line_index < line_index,
            decreases annotated_line_infos.len() - p,
        {
            p += 1;
        }
        annotated_line_infos.insert(p, new_info);
        proof {
            let vs = infos_view(old_infos);
            assert(new_info@ == AnnotatedLineView {
                line: self.lines@[line_index - self.first_line()].line,
                line_index,
                annotations: seq![line_ann],
            }) by {
                assert(new_info.annotations@ =~= seq![line_ann]);
            }
            assert(infos_view(annotated_line_infos@) =~= inserted_at(vs, p as int, new_info@));
            assert forall|a: int, b: int| 0 <= a < b < annotated_line_infos@.len() implies annotated_line_infos@[a].line_index
                < annotated_line_infos@[b].line_index by {
                if b < p {
                } else if a < p && b == p {
                } else if a < p {
                    assert(annotated_line_infos@[b] == old_infos[b - 1]);
                } else if a == p {
                    assert(annotated_line_infos@[b] == old_infos[b - 1]);
                    if p < old_infos.len() {
                        assert(old_infos[p as int].line_index >= line_index);
                        assert(old_infos[p as int].line_index != line_index);
                        if b - 1 > p {
                            assert(old_infos[p as int].line_index < old_infos[b - 1].line_index);
                        }
                    }
                } else {
                    assert(annotated_line_infos@[a] == old_infos[a - 1]);
                    assert(annotated_line_infos@[b] == old_infos[b - 1]);
                }
            }
        }
    }
}

/// What placing annotations on a source needs: lines that are numbered
/// and measured without overflow (a multiline span is drawn by counting up
/// to 4 lines on from its start line), and annotations that stay within one byte
/// past the source, do not cut a character, and do not end a multiline span
/// on line 0 (placing them panics on each of these).
pub open spec fn annotated_requires<'a>(sm: SourceMap<'a>, anns: Seq<Annotation<'a>>) -> bool {
    &&& sm.wf()
    &&& bytes_of(sm.source).len() <= usize::MAX / 4
    &&& sm.first_line() + sm.lines@.len() + 4 <= usize::MAX
    &&& anns.len() + 2 < usize::MAX
    &&& forall|i: int| 0 <= i < anns.len() ==> #[trigger] annotation_fits(sm, anns[i])
}

/// One annotation fits the source; see `annotated_requires`.
pub open spec fn annotation_fits<'a>(sm: SourceMap<'a>, a: Annotation<'a>) -> bool {
    let (lo, hi) = span_locations(sm, a.range.start as int, a.range.end as int);
    &&& a.range.end <= bytes_of(sm.source).len() + 1
    &&& a.range.start < usize::MAX
    &&& span_requires(sm, a.range.start as int, a.range.end as int)
    &&& (lo.line != hi.line ==> hi.line > 0)
}

/// A multiline annotation that can be drawn: both its lines are lines of the
/// source, its end line is not 0, and its start can be widened by a column.
pub open spec fn ml_fits<'a>(sm: SourceMap<'a>, a: MultilineAnnotation<'a>) -> bool {
    &&& sm.first_line() <= a.start.line < sm.first_line() + sm.lines@.len()
    &&& sm.first_line() <= a.end.line < sm.first_line() + sm.lines@.len()
    &&& a.end.line > 0
    &&& a.start.char < usize::MAX
    &&& a.start.display < usize::MAX
    &&& a.start.byte < usize::MAX
}

impl<'a> SourceMap<'a> {
    fn add_to_line(
        &self,
        infos: &mut Vec<AnnotatedLineInfo<'a>>,
        Ghost(ls): Ghost<Seq<Seq<LineAnnotation<'a>>>>,
        line: usize,
        ann: LineAnnotation<'a>,
    )
        requires
            self.wf(),
            infos_hold(*self, old(infos)@, ls),
            self.first_line() <= line < self.first_line() + self.lines@.len(),
        ensures
            infos_hold(*self, final(infos)@, add_at(ls, self.first_line(), line as int, ann)),
    {
        let ghost cl = cursor_lines(bytes_of(self.source));
        let ghost first = self.first_line();
        let ghost old_infos = infos@;
        let ghost j = line - first;
        proof {
            assert forall|a: int, b: int| 0 <= a < b < old_infos.len() implies old_infos[a].line_index
                < old_infos[b].line_index by {
                assert(old_infos[a]@.line_index == self.lines@[a].line_index);
                assert(old_infos[b]@.line_index == self.lines@[b].line_index);
                assert(describes_line(self.lines@[a], cl, a, first));
                assert(describes_line(self.lines@[b], cl, b, first));
            }
            assert(old_infos[j]@.line_index == self.lines@[j].line_index);
            assert(describes_line(self.lines@[j], cl, j, first));
            assert(old_infos[j].line_index == line);
        }
        self.add_annotation_to_file(infos, line, ann);
        proof {
            let nl = add_at(ls, first, line as int, ann);
            assert forall|i: int| 0 <= i < infos@.len() implies (#[trigger] infos@[i])@ == (AnnotatedLineView {
                line: self.lines@[i].line,
                line_index: self.lines@[i].line_index,
                annotations: nl[i],
            }) by {
                if i != j {
                    assert(infos@[i]@ == old_infos[i]@);
                }
            }
        }
    }

    /// The lines of the source with the annotations drawn on each; see
    /// `spec_annotated_lines`. When `fold` is set, only the lines that have
    /// annotations are given.
    pub fn annotated_lines(&self, annotations: Vec<Annotation<'a>>, fold: bool) -> (res: Vec<AnnotatedLineInfo<'a>>)
        requires
            annotated_requires(*self, annotations@),
        ensures
            infos_view(res@) == spec_annotated_lines(*self, annotations@, fold),
    {
        let ghost sm = *self;
        let ghost anns = annotations@;
        let ghost first = self.first_line();
        let ghost cl = cursor_lines(bytes_of(self.source));
        let n = self.lines.len();
        // every line of the source, with no annotation yet
        let mut infos: Vec<AnnotatedLineInfo<'a>> = Vec::new();
        let mut i: usize = 0;
        while i < n
            invariant
                n == self.lines@.len(),
                i <= n,
                infos@.len() == i,
                forall|j: int|
                    0 <= j < i ==> (#[trigger] infos@[j])@ == (AnnotatedLineView {
                        line: self.lines@[j].line,
                        line_index: self.lines@[j].line_index,
                        annotations: Seq::empty(),
                    }),
            decreases n - i,
        {
            let info = AnnotatedLineInfo {
                line: self.lines[i].line,
                line_index: self.lines[i].line_index,
                annotations: Vec::new(),
            };
            infos.push(info);
            i += 1;
        }
        proof {
            assert(place_annotations(sm, anns.take(0)).0 =~= no_annotations(n as int));
            assert(infos_hold(sm, infos@, no_annotations(n as int)));
        }
        // single-line annotations on their line, the others set aside
        let mut ms: Vec<MultilineAnnotation<'a>> = Vec::new();
        let mut k: usize = 0;
        while k < annotations.len()
            invariant
                sm == *self,
                annotated_requires(sm, anns),
                anns == annotations@,
                cl == cursor_lines(bytes_of(self.source)),
                first == self.first_line(),
                k <= anns.len(),
                ms@.len() <= k,
                infos_hold(sm, infos@, place_annotations(sm, anns.take(k as int)).0),
                ms@ == place_annotations(sm, anns.take(k as int)).1,
                forall|t: int| 0 <= t < ms@.len() ==> (#[trigger] ms@[t]).depth == 1 && ml_fits(sm, ms@[t])
                    && ms@[t].start.line != ms@[t].end.line,
            decreases annotations.len() - k,
        {
            let a = &annotations[k];
            assert(annotation_fits(sm, anns[k as int]));
            let ghost prev = place_annotations(sm, anns.take(k as int));
            assert(anns.take(k + 1).drop_last() =~= anns.take(k as int));
            assert(anns.take(k + 1).last() == anns[k as int]);
            let (lo, hi0) = self.span_to_locations(a.range.start..a.range.end);
            proof {
                let li = crate::renderer::source_map::line_holding(self.lines@, a.range.start as int, 0);
                let le = crate::renderer::source_map::line_ending_after(
                    self.lines@,
                    if a.range.end > 0 { a.range.end - 1 } else { 0 },
                    0,
                );
                lemma_line_index_in_range(self.lines@, a.range.start as int, 0);
                lemma_line_end_in_range(self.lines@, if a.range.end > 0 { a.range.end - 1 } else { 0 }, 0);
                assert(describes_line(self.lines@[li], cl, li, first));
                assert(describes_line(self.lines@[le], cl, le, first));
            }
            let mut hi = hi0;
            if lo.display == hi.display && lo.line == hi.line {
                hi.display = hi.display + 1;
            }
            assert(hi == widen_empty(lo, hi0));
            if lo.line == hi.line {
                let la = LineAnnotation {
                    start: lo,
                    end: hi,
                    level: a.level,
                    label: a.label,
                    annotation_type: LineAnnotationType::Singleline,
                };
                self.add_to_line(&mut infos, Ghost(prev.0), lo.line, la);
            } else {
                let m = MultilineAnnotation {
                    depth: 1,
                    start: lo,
                    end: hi,
                    level: a.level,
                    label: a.label,
                    overlaps_exactly: false,
                };
                ms.push(m);
            }
            k += 1;
        }
        assert(anns.take(k as int) =~= anns);
        let ghost placed = place_annotations(sm, anns);
        // multiline annotations laid out at their depths
        let ghost p = |x: MultilineAnnotation<'a>| x.depth <= 1 && ml_fits(sm, x) && x.start.line != x.end.line;
        proof {
            crate::renderer::line_annotations::lemma_ml_sort_all(ms@, p);
        }
        let mut ms = sort_multiline(ms);
        let ghost sorted = ms@;
        assert(forall|t: int| 0 <= t < sorted.len() ==> #[trigger] p(sorted[t]));
        spread_depths(&mut ms);
        invert_depth_order(&mut ms);
        let ghost ms2 = ms@;
        assert(ms2 == invert_depths(assign_depths(sorted, sorted, 0)));
        assert forall|t: int| 0 <= t < ms2.len() implies #[trigger] ml_fits(sm, ms2[t]) by {
            assert(p(sorted[t]));
        }
        // each multiline annotation drawn on its lines
        let nm = ms.len();
        let mut q: usize = 0;
        while q < nm
            invariant
                sm == *self,
                self.wf(),
                first == self.first_line(),
                self.first_line() + self.lines@.len() + 4 <= usize::MAX,
                nm == ms2.len(),
                ms@ == ms2,
                q <= nm,
                forall|t: int| 0 <= t < nm ==> #[trigger] ml_fits(sm, ms2[t]),
                infos_hold(sm, infos@, place_multilines(sm, placed.0, ms2.take(q as int))),
            decreases nm - q,
        {
            let ann = ms[q];
            assert(ml_fits(sm, ann));
            let ghost before = place_multilines(sm, placed.0, ms2.take(q as int));
            assert(ms2.take(q + 1).drop_last() =~= ms2.take(q as int));
            assert(ms2.take(q + 1).last() == ann);
            let end_ann = ann.as_end();
            if ann.overlaps_exactly {
                let mut e = end_ann;
                e.annotation_type = LineAnnotationType::Singleline;
                assert(e == as_singleline(ml_as_end(ann)));
                self.add_to_line(&mut infos, Ghost(before), ann.end.line, e);
            } else {
                let s0 = ann.as_start();
                self.add_to_line(&mut infos, Ghost(before), ann.start.line, s0);
                let ghost ls1 = add_at(before, first, ann.start.line as int, ml_as_start(ann));
                let middle = if ann.start.line + 4 < ann.end.line {
                    ann.start.line + 4
                } else {
                    ann.end.line
                };
                let mut until = ann.start.line;
                let mut l = middle;
                while l > ann.start.line
                    invariant_except_break
                        until == ann.start.line,
                    invariant
                        sm == *self,
                        self.wf(),
                        l <= middle,
                        until_search(sm, ann.start.line as int, l as int) == until_search(
                            sm,
                            ann.start.line as int,
                            middle as int,
                        ),
                    ensures
                        until == until_search(sm, ann.start.line as int, middle as int),
                    decreases l,
                {
                    match self.get_line(l - 1) {
                        Some(s) => {
                            if line_is_kept(s) {
                                until = l;
                                break;
                            }
                        },
                        None => {},
                    }
                    l -= 1;
                }
                proof {
                    lemma_until_range(sm, ann.start.line as int, middle as int);
                }
                let la = ann.as_line();
                let mut line = ann.start.line + 1;
                let ghost target = add_lines(ls1, first, ann.start.line + 1, until as int, la);
                while line < until
                    invariant
                        sm == *self,
                        self.wf(),
                        first == self.first_line(),
                        ann.start.line < line,
                        until <= middle || until == ann.start.line,
                        middle <= ann.end.line,
                        ml_fits(sm, ann),
                        exists|cur: Seq<Seq<LineAnnotation<'a>>>|
                            infos_hold(sm, infos@, cur) && #[trigger] add_lines(cur, first, line as int, until as int, la)
                                == target,
                    decreases until - line,
                {
                    let ghost cur = choose|cur: Seq<Seq<LineAnnotation<'a>>>|
                        infos_hold(sm, infos@, cur) && #[trigger] add_lines(cur, first, line as int, until as int, la)
                            == target;
                    self.add_to_line(&mut infos, Ghost(cur), line, la);
                    assert(add_lines(add_at(cur, first, line as int, la), first, line + 1, until as int, la) == target);
                    line += 1;
                }
                let ghost ls2 = target;
                assert(infos_hold(sm, infos@, ls2)) by {
                    if line < until {
                    } else {
                        let cur = choose|cur: Seq<Seq<LineAnnotation<'a>>>|
                            infos_hold(sm, infos@, cur) && #[trigger] add_lines(cur, first, line as int, until as int, la)
                                == target;
                        assert(add_lines(cur, first, line as int, until as int, la) == cur);
                    }
                }
                let line_end = ann.end.line - 1;
                let end_is_empty = match self.get_line(line_end) {
                    Some(s) => !line_is_kept(s),
                    None => false,
                };
                if middle < line_end && !end_is_empty {
                    self.add_to_line(&mut infos, Ghost(ls2), line_end, la);
                }
                let ghost ls3 = if middle < line_end && !end_is_empty {
                    add_at(ls2, first, line_end as int, la)
                } else {
                    ls2
                };
                self.add_to_line(&mut infos, Ghost(ls3), ann.end.line, end_ann);
            }
            q += 1;
        }
        assert(ms2.take(nm as int) =~= ms2);
        let ghost ls_final = place_multilines(sm, placed.0, ms2);
        // each line's annotations sorted by start; empty lines left out when folding
        let ghost all = Seq::new(
            n as nat,
            |i: int|
                AnnotatedLineView {
                    line: self.lines@[i].line,
                    line_index: self.lines@[i].line_index,
                    annotations: ann_sort(ls_final[i]),
                },
        );
        let mut res: Vec<AnnotatedLineInfo<'a>> = Vec::new();
        let mut r: usize = 0;
        while r < n
            invariant
                n == self.lines@.len(),
                r <= n,
                infos_hold(sm, infos@, ls_final),
                sm == *self,
                all.len() == n,
                forall|i: int| 0 <= i < n ==> #[trigger] all[i] == (AnnotatedLineView {
                    line: self.lines@[i].line,
                    line_index: self.lines@[i].line_index,
                    annotations: ann_sort(ls_final[i]),
                }),
                infos_view(res@) == (if fold {
                    keep_annotated(all.take(r as int))
                } else {
                    all.take(r as int)
                }),
            decreases n - r,
        {
            let mut copy: Vec<LineAnnotation<'a>> = Vec::new();
            let src = &infos[r].annotations;
            assert(src@ == ls_final[r as int]) by {
                assert(infos@[r as int]@.annotations == ls_final[r as int]);
            }
            let mut t: usize = 0;
            while t < src.len()
                invariant
                    t <= src@.len(),
                    copy@ == src@.take(t as int),
                decreases src.len() - t,
            {
                copy.push(src[t]);
                assert(src@.take(t + 1) =~= src@.take(t as int).push(src@[t as int]));
                t += 1;
            }
            assert(src@.take(t as int) =~= src@);
            sort_by_start(&mut copy);
            proof {
                crate::renderer::line_annotations::lemma_ann_sort_len(ls_final[r as int]);
            }
            let keep = !fold || copy.len() > 0;
            let ghost rv = infos_view(res@);
            if keep {
                let info = AnnotatedLineInfo { line: infos[r].line, line_index: infos[r].line_index, annotations: copy };
                res.push(info);
                assert(infos_view(res@) =~= rv.push(info@));
            }
            proof {
                assert(infos@[r as int]@.line == self.lines@[r as int].line);
                assert(all.take(r + 1).drop_last() =~= all.take(r as int));
                assert(all.take(r + 1).last() == all[r as int]);
                if !fold {
                    assert(all.take(r + 1) =~= all.take(r as int).push(all[r as int]));
                }
            }
            r += 1;
        }
        assert(all.take(n as int) =~= all);
        res
    }
}

proof fn lemma_until_range<'a>(sm: SourceMap<'a>, start: int, hi: int)
    ensures
        until_search(sm, start, hi) == start || (start < until_search(sm, start, hi) <= hi),
    decreases hi - start,
{
    if hi > start {
        lemma_until_range(sm, start, hi - 1);
    }
}

proof fn lemma_line_index_in_range<'a>(lines: Seq<crate::renderer::source_map::LineInfo<'a>>, pos: int, i: int)
    requires
        lines.len() > 0,
        0 <= i,
    ensures
        0 <= crate::renderer::source_map::line_holding(lines, pos, i) < lines.len(),
    decreases lines.len() - i,
{
    if i < lines.len() {
        lemma_line_index_in_range(lines, pos, i + 1);
    }
}

proof fn lemma_line_end_in_range<'a>(lines: Seq<crate::renderer::source_map::LineInfo<'a>>, pos: int, i: int)
    requires
        lines.len() > 0,
        0 <= i,
    ensures
        0 <= crate::renderer::source_map::line_ending_after(lines, pos, i) < lines.len(),
    decreases lines.len() - i,
{
    if i < lines.len() {
        lemma_line_end_in_range(lines, pos, i + 1);
    }
}


proof fn lemma_add_lines_len<'a>(ls: Seq<Seq<LineAnnotation<'a>>>, first: int, from: int, to: int, ann: LineAnnotation<'a>)
    requires
        first <= from,
        to <= first + ls.len(),
    ensures
        add_lines(ls, first, from, to, ann).len() == ls.len(),
    decreases to - from,
{
    if from < to {
        lemma_add_lines_len(add_at(ls, first, from, ann), first, from + 1, to, ann);
    }
}

/// A multiline annotation that ends more than five lines below its start
/// line keeps a joining mark of its depth on the line just before its end
/// line, when that line carries code; so that line has an annotation and
/// folding keeps it.
pub proof fn law_line_before_end_joins<'a>(
    sm: SourceMap<'a>,
    ls: Seq<Seq<LineAnnotation<'a>>>,
    ann: MultilineAnnotation<'a>,
)
    requires
        ls.len() == sm.lines@.len(),
        ml_fits(sm, ann),
        !ann.overlaps_exactly,
        ann.start.line + 5 < ann.end.line,
        line_text(sm, ann.end.line - 1) matches Some(t) && keeps_line(t@),
    ensures
        ({
            let placed = place_multiline(sm, ls, ann);
            let row = placed[ann.end.line - 1 - sm.first_line()];
            &&& placed.len() == ls.len()
            &&& exists|k: int|
                0 <= k < row.len() && (#[trigger] row[k]).annotation_type == LineAnnotationType::MultilineLine(
                    ann.depth,
                )
        }),
{
    let first = sm.first_line();
    let ls1 = add_at(ls, first, ann.start.line as int, ml_as_start(ann));
    let middle: int = ann.start.line + 4;
    let until = until_search(sm, ann.start.line as int, middle);
    lemma_until_range(sm, ann.start.line as int, middle);
    lemma_add_lines_len(ls1, first, ann.start.line + 1, until, ml_as_line(ann));
    let ls2 = add_lines(ls1, first, ann.start.line + 1, until, ml_as_line(ann));
    let line_end = ann.end.line - 1;
    let ls3 = add_at(ls2, first, line_end, ml_as_line(ann));
    assert(place_multiline(sm, ls, ann) == add_at(ls3, first, ann.end.line as int, ml_as_end(ann)));
    let placed = place_multiline(sm, ls, ann);
    let row = placed[line_end - first];
    assert(row == ls3[line_end - first]);
    assert(row.last() == ml_as_line(ann));
    assert(row[row.len() - 1].annotation_type == LineAnnotationType::MultilineLine(ann.depth));
}

} // verus!
