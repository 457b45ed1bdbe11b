//! Placing annotations on the lines of a source: single-line annotations on
//! their line, multiline annotations at their start, their end and the lines
//! between, each at a depth that keeps overlapping ones apart.
use vstd::prelude::*;

use crate::renderer::line_filter::spec_num_overlap;
use crate::renderer::source_map::{Loc, LineAnnotation, MultilineAnnotation};

verus! {

/// `a` comes before `b` in the order multiline annotations are laid out in:
/// by start line, then the longest first, then by start byte.
pub open spec fn ml_key_lt<'a>(a: MultilineAnnotation<'a>, b: MultilineAnnotation<'a>) -> bool {
    a.start.line < b.start.line || (a.start.line == b.start.line && (a.end.line > b.end.line || (
    a.end.line == b.end.line && a.start.byte < b.start.byte)))
}

/// `x` inserted into `s` after every element it does not come before.
pub open spec fn ml_insert<'a>(s: Seq<MultilineAnnotation<'a>>, x: MultilineAnnotation<'a>) -> Seq<
    MultilineAnnotation<'a>,
>
    decreases s.len(),
{
    if s.len() == 0 || !ml_key_lt(x, s.last()) {
        s.push(x)
    } else {
        ml_insert(s.drop_last(), x).push(s.last())
    }
}

/// The annotations sorted by `ml_key_lt`, those with equal keys kept in
/// their order.
pub open spec fn ml_sort<'a>(s: Seq<MultilineAnnotation<'a>>) -> Seq<MultilineAnnotation<'a>>
    decreases s.len(),
{
    if s.len() == 0 {
        s
    } else {
        ml_insert(ml_sort(s.drop_last()), s.last())
    }
}

/// `a` starts before `b`: by line, then character, then display column,
/// then byte.
pub open spec fn loc_lt(a: Loc, b: Loc) -> bool {
    a.line < b.line || (a.line == b.line && (a.char < b.char || (a.char == b.char && (a.display
        < b.display || (a.display == b.display && a.byte < b.byte)))))
}

/// `x` inserted into `s` after every annotation it does not start before.
pub open spec fn ann_insert<'a>(s: Seq<LineAnnotation<'a>>, x: LineAnnotation<'a>) -> Seq<LineAnnotation<'a>>
    decreases s.len(),
{
    if s.len() == 0 || !loc_lt(x.start, s.last().start) {
        s.push(x)
    } else {
        ann_insert(s.drop_last(), x).push(s.last())
    }
}

/// The annotations sorted by where they start, those starting at the same
/// location kept in their order.
pub open spec fn ann_sort<'a>(s: Seq<LineAnnotation<'a>>) -> Seq<LineAnnotation<'a>>
    decreases s.len(),
{
    if s.len() == 0 {
        s
    } else {
        ann_insert(ann_sort(s.drop_last()), s.last())
    }
}

proof fn lemma_ml_insert<'a>(s: Seq<MultilineAnnotation<'a>>, x: MultilineAnnotation<'a>, j: int)
    requires
        0 <= j <= s.len(),
        forall|t: int| j <= t < s.len() ==> ml_key_lt(x, #[trigger] s[t]),
        j == 0 || !ml_key_lt(x, s[j - 1]),
    ensures
        ml_insert(s, x) == s.take(j).push(x) + s.skip(j),
    decreases s.len(),
{
    if s.len() == j {
        assert(s.take(j) =~= s);
        assert(s.skip(j) =~= Seq::<MultilineAnnotation<'a>>::empty());
        assert(s.take(j).push(x) + s.skip(j) =~= s.push(x));
    } else {
        let d = s.drop_last();
        assert forall|t: int| j <= t < d.len() implies ml_key_lt(x, #[trigger] d[t]) by {
            assert(d[t] == s[t]);
        }
        if j > 0 {
            assert(d[j - 1] == s[j - 1]);
        }
        lemma_ml_insert(d, x, j);
        assert(d.take(j) =~= s.take(j));
        assert((d.take(j).push(x) + d.skip(j)).push(s.last()) =~= s.take(j).push(x) + s.skip(j));
    }
}

proof fn lemma_ann_insert<'a>(s: Seq<LineAnnotation<'a>>, x: LineAnnotation<'a>, j: int)
    requires
        0 <= j <= s.len(),
        forall|t: int| j <= t < s.len() ==> loc_lt(x.start, #[trigger] s[t].start),
        j == 0 || !loc_lt(x.start, s[j - 1].start),
    ensures
        ann_insert(s, x) == s.take(j).push(x) + s.skip(j),
    decreases s.len(),
{
    if s.len() == j {
        assert(s.take(j) =~= s);
        assert(s.skip(j) =~= Seq::<LineAnnotation<'a>>::empty());
        assert(s.take(j).push(x) + s.skip(j) =~= s.push(x));
    } else {
        let d = s.drop_last();
        assert forall|t: int| j <= t < d.len() implies loc_lt(x.start, #[trigger] d[t].start) by {
            assert(d[t] == s[t]);
        }
        if j > 0 {
            assert(d[j - 1] == s[j - 1]);
        }
        lemma_ann_insert(d, x, j);
        assert(d.take(j) =~= s.take(j));
        assert((d.take(j).push(x) + d.skip(j)).push(s.last()) =~= s.take(j).push(x) + s.skip(j));
    }
}

/// Sorting keeps the number of annotations and every property they all have.
pub proof fn lemma_ml_sort_all<'a>(s: Seq<MultilineAnnotation<'a>>, p: spec_fn(MultilineAnnotation<'a>) -> bool)
    requires
        forall|i: int| 0 <= i < s.len() ==> p(#[trigger] s[i]),
    ensures
        ml_sort(s).len() == s.len(),
        forall|i: int| 0 <= i < s.len() ==> p(#[trigger] ml_sort(s)[i]),
    decreases s.len(),
{
    if s.len() > 0 {
        let d = s.drop_last();
        assert forall|i: int| 0 <= i < d.len() implies p(#[trigger] d[i]) by {
            assert(d[i] == s[i]);
        }
        lemma_ml_sort_all(d, p);
        lemma_ml_insert_all(ml_sort(d), s.last(), p);
    }
}

proof fn lemma_ml_insert_all<'a>(
    s: Seq<MultilineAnnotation<'a>>,
    x: MultilineAnnotation<'a>,
    p: spec_fn(MultilineAnnotation<'a>) -> bool,
)
    requires
        forall|i: int| 0 <= i < s.len() ==> p(#[trigger] s[i]),
        p(x),
    ensures
        ml_insert(s, x).len() == s.len() + 1,
        forall|i: int| 0 <= i < s.len() + 1 ==> p(#[trigger] ml_insert(s, x)[i]),
    decreases s.len(),
{
    if s.len() > 0 && ml_key_lt(x, s.last()) {
        let d = s.drop_last();
        assert forall|i: int| 0 <= i < d.len() implies p(#[trigger] d[i]) by {
            assert(d[i] == s[i]);
        }
        lemma_ml_insert_all(d, x, p);
        let r = ml_insert(d, x);
        assert forall|i: int| 0 <= i < s.len() + 1 implies p(#[trigger] ml_insert(s, x)[i]) by {
            if i < r.len() {
                assert(ml_insert(s, x)[i] == r[i]);
            }
        }
    }
}

/// Sorting keeps the number of annotations.
pub proof fn lemma_ann_sort_len<'a>(s: Seq<LineAnnotation<'a>>)
    ensures
        ann_sort(s).len() == s.len(),
    decreases s.len(),
{
    if s.len() > 0 {
        lemma_ann_sort_len(s.drop_last());
        lemma_ann_insert_len(ann_sort(s.drop_last()), s.last());
    }
}

proof fn lemma_ann_insert_len<'a>(s: Seq<LineAnnotation<'a>>, x: LineAnnotation<'a>)
    ensures
        ann_insert(s, x).len() == s.len() + 1,
    decreases s.len(),
{
    if s.len() > 0 && loc_lt(x.start, s.last().start) {
        lemma_ann_insert_len(s.drop_last(), x);
    }
}

fn ml_lt(a: &MultilineAnnotation<'_>, b: &MultilineAnnotation<'_>) -> (r: bool)
    ensures
        r == ml_key_lt(*a, *b),
{
    a.start.line < b.start.line || (a.start.line == b.start.line && (a.end.line > b.end.line || (
    a.end.line == b.end.line && a.start.byte < b.start.byte)))
}

fn start_lt(a: &LineAnnotation<'_>, b: &LineAnnotation<'_>) -> (r: bool)
    ensures
        r == loc_lt(a.start, b.start),
{
    let (x, y) = (a.start, b.start);
    x.line < y.line || (x.line == y.line && (x.char < y.char || (x.char == y.char && (x.display
        < y.display || (x.display == y.display && x.byte < y.byte)))))
}

/// Sorts multiline annotations by `ml_key_lt`, keeping the order of equals.
pub fn sort_multiline<'a>(ms: Vec<MultilineAnnotation<'a>>) -> (res: Vec<MultilineAnnotation<'a>>)
    ensures
        res@ == ml_sort(ms@),
{
    let mut out: Vec<MultilineAnnotation<'a>> = Vec::new();
    let mut k: usize = 0;
    while k < ms.len()
        invariant
            k <= ms@.len(),
            out@ == ml_sort(ms@.take(k as int)),
        decreases ms.len() - k,
    {
        let x = ms[k];
        let ghost prev = out@;
        out.push(x);
        let mut j: usize = out.len() - 1;
        while j > 0 && ml_lt(&out[j], &out[j - 1])
            invariant
                j < out@.len(),
                out@.len() == prev.len() + 1,
                out@ == prev.take(j as int).push(x) + prev.skip(j as int),
                forall|t: int| j <= t < prev.len() ==> ml_key_lt(x, #[trigger] prev[t]),
            decreases j,
        {
            let y = out[j - 1];
            assert(y == prev[j - 1]);
            out.set(j, y);
            out.set(j - 1, x);
            assert(out@ =~= prev.take(j - 1).push(x) + prev.skip(j - 1));
            j -= 1;
        }
        proof {
            if j > 0 {
                assert(out@[j as int] == x);
                assert(out@[j - 1] == prev[j - 1]);
            }
            lemma_ml_insert(prev, x, j as int);
            assert(ms@.take(k + 1).drop_last() =~= ms@.take(k as int));
        }
        k += 1;
    }
    assert(ms@.take(k as int) =~= ms@);
    out
}

/// Sorts line annotations by where they start, keeping the order of equals.
pub fn sort_by_start<'a>(anns: &mut Vec<LineAnnotation<'a>>)
    ensures
        final(anns)@ == ann_sort(old(anns)@),
{
    let ghost orig = anns@;
    let mut out: Vec<LineAnnotation<'a>> = Vec::new();
    let mut k: usize = 0;
    while k < anns.len()
        invariant
            anns@ == orig,
            k <= orig.len(),
            out@ == ann_sort(orig.take(k as int)),
        decreases anns.len() - k,
    {
        let x = anns[k];
        let ghost prev = out@;
        out.push(x);
        let mut j: usize = out.len() - 1;
        while j > 0 && start_lt(&out[j], &out[j - 1])
            invariant
                j < out@.len(),
                out@.len() == prev.len() + 1,
                out@ == prev.take(j as int).push(x) + prev.skip(j as int),
                forall|t: int| j <= t < prev.len() ==> loc_lt(x.start, #[trigger] prev[t].start),
            decreases j,
        {
            let y = out[j - 1];
            assert(y == prev[j - 1]);
            out.set(j, y);
            out.set(j - 1, x);
            assert(out@ =~= prev.take(j - 1).push(x) + prev.skip(j - 1));
            j -= 1;
        }
        proof {
            if j > 0 {
                assert(out@[j as int] == x);
                assert(out@[j - 1] == prev[j - 1]);
            }
            lemma_ann_insert(prev, x, j as int);
            assert(orig.take(k + 1).drop_last() =~= orig.take(k as int));
        }
        k += 1;
    }
    assert(orig.take(k as int) =~= orig);
    *anns = out;
}

/// The annotation drawn at depth `d`.
pub open spec fn with_depth<'a>(a: MultilineAnnotation<'a>, d: int) -> MultilineAnnotation<'a> {
    MultilineAnnotation {
        depth: d as usize,
        start: a.start,
        end: a.end,
        level: a.level,
        label: a.label,
        overlaps_exactly: a.overlaps_exactly,
    }
}

/// The annotation marked as covering exactly the span of another.
pub open spec fn with_exact_overlap<'a>(a: MultilineAnnotation<'a>) -> MultilineAnnotation<'a> {
    MultilineAnnotation {
        depth: a.depth,
        start: a.start,
        end: a.end,
        level: a.level,
        label: a.label,
        overlaps_exactly: true,
    }
}

/// The characters of an optional text.
pub open spec fn opt_chars(o: Option<&str>) -> Option<Seq<char>> {
    match o {
        Some(s) => Some(s@),
        None => None,
    }
}

/// The two annotations are equal in every field, labels compared by text.
pub open spec fn same_annotation<'a>(a: MultilineAnnotation<'a>, b: MultilineAnnotation<'a>) -> bool {
    &&& a.depth == b.depth
    &&& a.start == b.start
    &&& a.end == b.end
    &&& a.level == b.level
    &&& opt_chars(a.label) == opt_chars(b.label)
    &&& a.overlaps_exactly == b.overlaps_exactly
}

/// One pass of `ann` over the annotations from `j` on: each one whose lines
/// overlap those of `ann` (but not with the same span) moves one level
/// right, each other one with the same span is marked as an exact overlap,
/// and the pass stops at the first annotation that is neither.
pub open spec fn push_right<'a>(ann: MultilineAnnotation<'a>, ms: Seq<MultilineAnnotation<'a>>, j: int) -> Seq<
    MultilineAnnotation<'a>,
>
    decreases ms.len() - j,
{
    if j < 0 || j >= ms.len() {
        ms
    } else {
        let a = ms[j];
        let same = ann.start == a.start && ann.end == a.end;
        if !same && spec_num_overlap(
            ann.start.line as int,
            ann.end.line as int,
            a.start.line as int,
            a.end.line as int,
            true,
        ) {
            push_right(ann, ms.update(j, with_depth(a, a.depth + 1)), j + 1)
        } else if same && !same_annotation(ann, a) {
            push_right(ann, ms.update(j, with_exact_overlap(a)), j + 1)
        } else {
            ms
        }
    }
}

/// The passes of the annotations of `snap`, from the `k`-th on, in turn.
pub open spec fn assign_depths<'a>(snap: Seq<MultilineAnnotation<'a>>, ms: Seq<MultilineAnnotation<'a>>, k: int) -> Seq<
    MultilineAnnotation<'a>,
>
    decreases snap.len() - k,
{
    if k < 0 || k >= snap.len() {
        ms
    } else {
        assign_depths(snap, push_right(snap[k], ms, 0), k + 1)
    }
}

/// The greatest depth, or 0 when there is no annotation.
pub open spec fn max_depth<'a>(ms: Seq<MultilineAnnotation<'a>>) -> int
    decreases ms.len(),
{
    if ms.len() == 0 {
        0
    } else {
        let m = max_depth(ms.drop_last());
        if ms.last().depth > m {
            ms.last().depth as int
        } else {
            m
        }
    }
}

/// The depths turned around, so that the deepest is drawn first.
pub open spec fn invert_depths<'a>(ms: Seq<MultilineAnnotation<'a>>) -> Seq<MultilineAnnotation<'a>> {
    Seq::new(ms.len(), |i: int| with_depth(ms[i], max_depth(ms) - ms[i].depth + 1))
}

proof fn lemma_max_depth<'a>(ms: Seq<MultilineAnnotation<'a>>, b: int)
    requires
        forall|i: int| 0 <= i < ms.len() ==> (#[trigger] ms[i]).depth <= b,
        0 <= b,
    ensures
        forall|i: int| 0 <= i < ms.len() ==> (#[trigger] ms[i]).depth <= max_depth(ms),
        0 <= max_depth(ms) <= b,
    decreases ms.len(),
{
    if ms.len() > 0 {
        let d = ms.drop_last();
        assert forall|i: int| 0 <= i < d.len() implies (#[trigger] d[i]).depth <= b by {
            assert(d[i] == ms[i]);
        }
        lemma_max_depth(d, b);
        assert forall|i: int| 0 <= i < ms.len() implies (#[trigger] ms[i]).depth <= max_depth(ms) by {
            if i < d.len() {
                assert(d[i] == ms[i]);
            }
        }
    }
}

fn same_annotation_exec(a: &MultilineAnnotation<'_>, b: &MultilineAnnotation<'_>) -> (r: bool)
    ensures
        r == same_annotation(*a, *b),
{
    let labels = match (a.label, b.label) {
        (Some(x), Some(y)) => crate::text::str_eq(x, y),
        (None, None) => true,
        _ => false,
    };
    a.depth == b.depth && a.start == b.start && a.end == b.end && a.level == b.level && labels
        && a.overlaps_exactly == b.overlaps_exactly
}

/// Puts overlapping multiline annotations at different depths, and marks
/// those that cover the same span as another.
pub fn spread_depths<'a>(ms: &mut Vec<MultilineAnnotation<'a>>)
    requires
        old(ms)@.len() + 2 < usize::MAX,
        forall|i: int| 0 <= i < old(ms)@.len() ==> (#[trigger] old(ms)@[i]).depth <= 1,
        forall|i: int|
            0 <= i < old(ms)@.len() ==> (#[trigger] old(ms)@[i]).start.line < usize::MAX
                && old(ms)@[i].end.line < usize::MAX,
    ensures
        final(ms)@ == assign_depths(old(ms)@, old(ms)@, 0),
        final(ms)@.len() == old(ms)@.len(),
        forall|i: int| 0 <= i < final(ms)@.len() ==> (#[trigger] final(ms)@[i]).depth <= old(ms)@.len() + 1,
        forall|i: int|
            0 <= i < final(ms)@.len() ==> (#[trigger] final(ms)@[i]).start == old(ms)@[i].start
                && final(ms)@[i].end == old(ms)@[i].end,
{
    let ghost snap0 = ms@;
    let mut snap: Vec<MultilineAnnotation<'a>> = Vec::new();
    let mut i: usize = 0;
    while i < ms.len()
        invariant
            ms@ == snap0,
            i <= snap0.len(),
            snap@ == snap0.take(i as int),
        decreases ms.len() - i,
    {
        snap.push(ms[i]);
        assert(snap0.take(i + 1) =~= snap0.take(i as int).push(snap0[i as int]));
        i += 1;
    }
    assert(snap0.take(i as int) =~= snap0);
    let n = snap.len();
    let mut k: usize = 0;
    while k < n
        invariant
            n == snap0.len(),
            snap@ == snap0,
            n + 2 < usize::MAX,
            k <= n,
            ms@.len() == n,
            assign_depths(snap0, ms@, k as int) == assign_depths(snap0, snap0, 0),
            forall|t: int| 0 <= t < n ==> (#[trigger] ms@[t]).depth <= k + 1,
            forall|t: int|
                0 <= t < n ==> (#[trigger] ms@[t]).start == snap0[t].start && ms@[t].end == snap0[t].end,
            forall|t: int|
                0 <= t < n ==> (#[trigger] snap0[t]).start.line < usize::MAX && snap0[t].end.line < usize::MAX,
        decreases n - k,
    {
        let ann = snap[k];
        let ghost before = ms@;
        let mut j: usize = 0;
        while j < ms.len()
            invariant
                n == snap0.len(),
                n + 2 < usize::MAX,
                k < n,
                ann == snap0[k as int],
                ms@.len() == n,
                j <= n,
                push_right(ann, ms@, j as int) == push_right(ann, before, 0),
                forall|t: int| 0 <= t < n ==> (#[trigger] ms@[t]).depth <= k + 1 + if t < j { 1int } else { 0int },
                forall|t: int|
                    0 <= t < n ==> (#[trigger] ms@[t]).start == snap0[t].start && ms@[t].end == snap0[t].end,
                forall|t: int|
                    0 <= t < n ==> (#[trigger] snap0[t]).start.line < usize::MAX && snap0[t].end.line < usize::MAX,
            ensures
                ms@ == push_right(ann, before, 0),
                forall|t: int| 0 <= t < n ==> (#[trigger] ms@[t]).depth <= k + 2,
                forall|t: int|
                    0 <= t < n ==> (#[trigger] ms@[t]).start == snap0[t].start && ms@[t].end == snap0[t].end,
            decreases n - j,
        {
            let a = ms[j];
            assert(a.start.line < usize::MAX && a.end.line < usize::MAX) by {
                assert(ms@[j as int] == a);
            }
            let same = ann.same_span(&a);
            if !same && crate::renderer::line_filter::num_overlap(
                ann.start.line,
                ann.end.line,
                a.start.line,
                a.end.line,
                true,
            ) {
                let mut b = a;
                b.increase_depth();
                ms.set(j, b);
                assert(b == with_depth(a, a.depth + 1));
            } else if same && !same_annotation_exec(&ann, &a) {
                let mut b = a;
                b.overlaps_exactly = true;
                ms.set(j, b);
                assert(b == with_exact_overlap(a));
            } else {
                break;
            }
            j += 1;
        }
        k += 1;
    }
}

/// Turns the depths around: the deepest annotation is drawn at depth 1.
pub fn invert_depth_order<'a>(ms: &mut Vec<MultilineAnnotation<'a>>)
    requires
        forall|i: int| 0 <= i < old(ms)@.len() ==> (#[trigger] old(ms)@[i]).depth < usize::MAX,
    ensures
        final(ms)@ == invert_depths(old(ms)@),
        final(ms)@.len() == old(ms)@.len(),
{
    let ghost orig = ms@;
    let mut max: usize = 0;
    let mut i: usize = 0;
    while i < ms.len()
        invariant
            ms@ == orig,
            i <= orig.len(),
            max == max_depth(orig.take(i as int)),
            forall|t: int| 0 <= t < orig.len() ==> (#[trigger] orig[t]).depth < usize::MAX,
        decreases ms.len() - i,
    {
        assert(orig.take(i + 1).drop_last() =~= orig.take(i as int));
        if ms[i].depth > max {
            max = ms[i].depth;
        }
        i += 1;
    }
    assert(orig.take(i as int) =~= orig);
    proof {
        lemma_max_depth(orig, (usize::MAX - 1) as int);
    }
    let mut j: usize = 0;
    while j < ms.len()
        invariant
            ms@.len() == orig.len(),
            j <= orig.len(),
            max == max_depth(orig),
            max < usize::MAX,
            forall|t: int| 0 <= t < orig.len() ==> (#[trigger] orig[t]).depth <= max,
            forall|t: int| 0 <= t < j ==> #[trigger] ms@[t] == invert_depths(orig)[t],
            forall|t: int| j <= t < orig.len() ==> #[trigger] ms@[t] == orig[t],
        decreases ms.len() - j,
    {
        let mut a = ms[j];
        assert(a == orig[j as int]);
        a.depth = max - a.depth + 1;
        ms.set(j, a);
        j += 1;
    }
    assert(ms@ =~= invert_depths(orig));
}

} // verus!
