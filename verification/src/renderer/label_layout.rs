//! Where the labels of a source line's annotations go: the annotations are
//! taken from the one that starts last to the one that starts first, and
//! each label moves a line down when it would collide with a label or a
//! multiline span drawn after it.
use vstd::prelude::*;

use crate::renderer::display_list::{DisplayAnnotationPart, DisplaySourceAnnotation};
use crate::text::bytes_of;

verus! {

/// Some fragment of the annotation's label has text.
pub open spec fn labelled(a: DisplaySourceAnnotation) -> bool {
    exists|i: int| 0 <= i < a.annotation.label@.len() && (#[trigger] a.annotation.label@[i]).content@.len() > 0
}

/// The annotation starts or ends a multiline span.
pub open spec fn spans_lines(a: DisplaySourceAnnotation) -> bool {
    a.annotation_part == DisplayAnnotationPart::MultilineStart || a.annotation_part
        == DisplayAnnotationPart::MultilineEnd
}

/// `a2` starts within `a1` widened by `pad`, or `a1` starts within `a2`.
pub open spec fn overlap(a1: DisplaySourceAnnotation, a2: DisplaySourceAnnotation, pad: int) -> bool {
    (a2.range.0 <= a1.range.0 && a1.range.0 < a2.range.1) || (a1.range.0 <= a2.range.0 && a2.range.0 < a1.range.1
        + pad)
}

/// The byte length of the first `n` fragments of a label.
pub open spec fn label_len_upto(a: DisplaySourceAnnotation, n: int) -> nat
    decreases n,
{
    if n <= 0 {
        0
    } else {
        label_len_upto(a, n - 1) + bytes_of(a.annotation.label@[n - 1].content).len()
    }
}

/// The byte length of the label's text.
pub open spec fn label_len(a: DisplaySourceAnnotation) -> nat {
    label_len_upto(a, a.annotation.label@.len() as int)
}

/// `a` is taken before `b`: it starts later.
pub open spec fn starts_later(a: DisplaySourceAnnotation, b: DisplaySourceAnnotation) -> bool {
    a.range.0 > b.range.0
}

/// Index `x` inserted into the ordered indices `s` after every index whose
/// annotation starts no earlier.
pub open spec fn later_insert<'a>(ms: Seq<DisplaySourceAnnotation<'a>>, s: Seq<int>, x: int) -> Seq<int>
    decreases s.len(),
{
    if s.len() == 0 || !starts_later(ms[x], ms[s.last()]) {
        s.push(x)
    } else {
        later_insert(ms, s.drop_last(), x).push(s.last())
    }
}

/// The indices of the first `n` annotations, from the one that starts last
/// to the one that starts first; those that start together keep their
/// order.
pub open spec fn later_order<'a>(ms: Seq<DisplaySourceAnnotation<'a>>, n: int) -> Seq<int>
    decreases n,
{
    if n <= 0 {
        Seq::empty()
    } else {
        later_insert(ms, later_order(ms, n - 1), n - 1)
    }
}

/// The label of `s[i]` has to leave the underline's line because of `s[j]`:
/// they overlap, `s[i]` is labelled, no label has left it yet, and `s[j]`
/// is not an unlabelled annotation of the same range (drawn as one).
pub open spec fn leaves_underline(s: Seq<DisplaySourceAnnotation>, i: int, j: int, p: int) -> bool {
    &&& overlap(s[j], s[i], 0)
    &&& labelled(s[i])
    &&& p == 0
    &&& !(s[j].range.0 == s[i].range.0 && s[j].range.1 == s[i].range.1 && !labelled(s[j]))
}

/// The next label after `s[i]` has to go a line further down because of
/// `s[j]`: their labels would collide (padding included), or one of them is
/// a multiline span and the other is labelled or is one too, or `s[j]` ends
/// within `s[i]` and no label has left the underline yet.
pub open spec fn pushes_down(s: Seq<DisplaySourceAnnotation>, i: int, j: int, p: int) -> bool {
    let l = label_len(s[j]) as int + 2;
    ||| overlap(s[j], s[i], l) && labelled(s[i]) && labelled(s[j])
    ||| spans_lines(s[i]) && labelled(s[j])
    ||| labelled(s[i]) && spans_lines(s[j])
    ||| spans_lines(s[i]) && spans_lines(s[j])
    ||| overlap(s[j], s[i], l) && s[j].range.1 <= s[i].range.1 && labelled(s[j]) && p == 0
}

/// The line of the label of `s[i]`, when the labels before it reached `p`.
pub open spec fn label_line(s: Seq<DisplaySourceAnnotation>, i: int, p: int) -> int {
    if exists|j: int| i < j < s.len() && #[trigger] leaves_underline(s, i, j, p) {
        p + 1
    } else {
        p
    }
}

/// The line the label after `s[i]` starts from, when that of `s[i]` is `p1`.
pub open spec fn next_line(s: Seq<DisplaySourceAnnotation>, i: int, p1: int) -> int {
    if exists|j: int| i < j < s.len() && #[trigger] pushes_down(s, i, j, p1) {
        p1 + 1
    } else {
        p1
    }
}

/// The line of each of the first `n` labels of `s` (taken in order), and the
/// line the next one would start from.
pub open spec fn label_lines(s: Seq<DisplaySourceAnnotation>, n: int) -> (Seq<int>, int)
    decreases n,
{
    if n <= 0 {
        (Seq::empty(), 0)
    } else {
        let prev = label_lines(s, n - 1);
        let p1 = label_line(s, n - 1, prev.1);
        (prev.0.push(p1), next_line(s, n - 1, p1))
    }
}

/// The largest of the first `n` numbers.
pub open spec fn max_upto(ps: Seq<int>, n: int) -> int
    decreases n,
{
    if n <= 0 {
        0
    } else {
        let m = max_upto(ps, n - 1);
        if ps[n - 1] > m {
            ps[n - 1]
        } else {
            m
        }
    }
}

/// Where the labels of a source line go: for each annotation, from the one
/// that starts last to the one that starts first, the line of its label
/// (0 beside the underline) and its index; and the number of lines that the
/// labels take below the underline. When every annotation starts a multiline
/// span, the lines are turned upside down, so that the spans cross less,
/// and one line less is taken.
pub open spec fn label_layout<'a>(ms: Seq<DisplaySourceAnnotation<'a>>) -> (Seq<(int, int)>, int) {
    let order = later_order(ms, ms.len() as int);
    let s = Seq::new(ms.len(), |k: int| ms[order[k]]);
    let (ps, p) = label_lines(s, ms.len() as int);
    let line_len = if p != 0 {
        p + 1
    } else {
        p
    };
    let all_start = forall|k: int| 0 <= k < s.len() ==> (#[trigger] s[k]).annotation_part == DisplayAnnotationPart::MultilineStart;
    if ms.len() > 0 && all_start {
        let m = max_upto(ps, ps.len() as int);
        (
            Seq::new(ms.len(), |k: int| (m - ps[k], order[k])),
            if line_len > 0 {
                line_len - 1
            } else {
                0
            },
        )
    } else {
        (Seq::new(ms.len(), |k: int| (ps[k], order[k])), line_len)
    }
}

proof fn lemma_later_insert<'a>(ms: Seq<DisplaySourceAnnotation<'a>>, s: Seq<int>, x: int, j: int)
    requires
        0 <= j <= s.len(),
        forall|t: int| j <= t < s.len() ==> starts_later(ms[x], ms[#[trigger] s[t]]),
        j == 0 || !starts_later(ms[x], ms[s[j - 1]]),
    ensures
        later_insert(ms, s, x) == s.take(j).push(x) + s.skip(j),
    decreases s.len(),
{
    if s.len() == j {
        assert(s.take(j) =~= s);
        assert(s.skip(j) =~= Seq::<int>::empty());
        assert(s.take(j).push(x) + s.skip(j) =~= s.push(x));
    } else {
        let d = s.drop_last();
        assert forall|t: int| j <= t < d.len() implies starts_later(ms[x], ms[#[trigger] d[t]]) by {
            assert(d[t] == s[t]);
        }
        if j > 0 {
            assert(d[j - 1] == s[j - 1]);
        }
        lemma_later_insert(ms, d, x, j);
        assert(d.take(j) =~= s.take(j));
        assert((d.take(j).push(x) + d.skip(j)).push(s.last()) =~= s.take(j).push(x) + s.skip(j));
    }
}

/// The indices of the annotations from the one that starts last to the one
/// that starts first, those that start together in their order.
fn order_later(ms: &[DisplaySourceAnnotation]) -> (res: Vec<usize>)
    ensures
        res@.len() == ms@.len(),
        forall|t: int| 0 <= t < res@.len() ==> res@[t] as int == later_order(ms@, ms@.len() as int)[t],
        forall|t: int| 0 <= t < res@.len() ==> #[trigger] res@[t] < ms@.len(),
{
    let mut out: Vec<usize> = Vec::new();
    let mut k: usize = 0;
    while k < ms.len()
        invariant
            k <= ms@.len(),
            out@.len() == k,
            out@.map_values(|u: usize| u as int) == later_order(ms@, k as int),
            forall|t: int| 0 <= t < k ==> #[trigger] out@[t] < k,
        decreases ms.len() - k,
    {
        let ghost prev = out@.map_values(|u: usize| u as int);
        let ghost prev_raw = out@;
        out.push(k);
        let mut j: usize = out.len() - 1;
        while j > 0 && ms[out[j]].range.0 > ms[out[j - 1]].range.0
            invariant
                j < out@.len(),
                out@.len() == prev.len() + 1,
                k < ms@.len(),
                prev.len() == k,
                prev == prev_raw.map_values(|u: usize| u as int),
                forall|t: int| 0 <= t < k ==> #[trigger] prev_raw[t] < k,
                out@ == prev_raw.take(j as int).push(k) + prev_raw.skip(j as int),
                forall|t: int| j <= t < prev.len() ==> starts_later(ms@[k as int], ms@[#[trigger] prev[t]]),
            decreases j,
        {
            let y = out[j - 1];
            assert(y == prev_raw[j - 1]);
            assert(out@[j as int] == k);
            out.set(j, y);
            out.set(j - 1, k);
            assert(out@ =~= prev_raw.take(j - 1).push(k) + prev_raw.skip(j - 1));
            j -= 1;
        }
        proof {
            if j > 0 {
                assert(out@[j as int] == k);
                assert(out@[j - 1] == prev_raw[j - 1]);
                assert(prev[j - 1] == prev_raw[j - 1] as int);
            }
            lemma_later_insert(ms@, prev, k as int, j as int);
            assert(out@.map_values(|u: usize| u as int) =~= prev.take(j as int).push(k as int) + prev.skip(j as int));
            assert forall|t: int| 0 <= t < k + 1 implies #[trigger] out@[t] < k + 1 by {
                if t < j {
                    assert(out@[t] == prev_raw[t]);
                } else if t > j {
                    assert(out@[t] == prev_raw[t - 1]);
                }
            }
        }
        k += 1;
    }
    assert forall|t: int| 0 <= t < out@.len() implies out@[t] as int == later_order(ms@, ms@.len() as int)[t] by {
        assert(out@.map_values(|u: usize| u as int)[t] == out@[t] as int);
    }
    out
}

/// The annotations in the order `order` gives.
pub open spec fn in_order<'a>(ms: Seq<DisplaySourceAnnotation<'a>>, order: Seq<usize>) -> Seq<DisplaySourceAnnotation<'a>> {
    Seq::new(order.len(), |k: int| ms[order[k] as int])
}

/// What laying out the labels needs: the end of each range, with the label's
/// length and two columns of padding added, fits in `usize`.
pub open spec fn layout_fits<'a>(ms: Seq<DisplaySourceAnnotation<'a>>) -> bool {
    &&& ms.len() < usize::MAX / 2
    &&& forall|k: int| 0 <= k < ms.len() ==> #[trigger] ms[k].range.1 + label_len(ms[k]) + 2 <= usize::MAX
}

proof fn lemma_label_len_mono(a: DisplaySourceAnnotation, i: int, n: int)
    requires
        0 <= i <= n,
    ensures
        label_len_upto(a, i) <= label_len_upto(a, n),
    decreases n - i,
{
    if i < n {
        lemma_label_len_mono(a, i, n - 1);
    }
}

proof fn lemma_max_upto(ps: Seq<int>, n: int, k: int)
    requires
        0 <= k < n <= ps.len(),
    ensures
        ps[k] <= max_upto(ps, n),
    decreases n,
{
    if k < n - 1 {
        lemma_max_upto(ps, n - 1, k);
    }
}

/// The byte length of an annotation's label.
fn label_bytes(a: &DisplaySourceAnnotation) -> (n: usize)
    requires
        label_len(*a) <= usize::MAX,
    ensures
        n == label_len(*a),
{
    let mut n: usize = 0;
    let mut i: usize = 0;
    while i < a.annotation.label.len()
        invariant
            i <= a.annotation.label@.len(),
            label_len(*a) <= usize::MAX,
            n == label_len_upto(*a, i as int),
        decreases a.annotation.label.len() - i,
    {
        proof {
            lemma_label_len_mono(*a, i + 1, a.annotation.label@.len() as int);
        }
        n = n + a.annotation.label[i].content.as_bytes().len();
        i += 1;
    }
    n
}

/// Whether some annotation after the `i`th makes its label leave the
/// underline's line.
fn any_leaves(ms: &[DisplaySourceAnnotation], order: &Vec<usize>, i: usize, p: usize) -> (b: bool)
    requires
        order@.len() == ms@.len(),
        forall|t: int| 0 <= t < order@.len() ==> #[trigger] order@[t] < ms@.len(),
        i < order@.len(),
    ensures
        b == exists|j: int| i < j < ms@.len() && #[trigger] leaves_underline(in_order(ms@, order@), i as int, j, p as int),
{
    let ghost s = in_order(ms@, order@);
    let a = &ms[order[i]];
    let mut j: usize = i + 1;
    while j < order.len()
        invariant
            order@.len() == ms@.len(),
            forall|t: int| 0 <= t < order@.len() ==> #[trigger] order@[t] < ms@.len(),
            i < j <= order@.len(),
            s == in_order(ms@, order@),
            *a == s[i as int],
            forall|t: int| i < t < j ==> !#[trigger] leaves_underline(s, i as int, t, p as int),
        decreases order.len() - j,
    {
        let next = &ms[order[j]];
        assert(*next == s[j as int]);
        if crate::renderer::display_list::overlaps(next, a, 0) && a.has_label() && p == 0 {
            let same = next.range.0 == a.range.0 && next.range.1 == a.range.1;
            if !(same && !next.has_label()) {
                assert(leaves_underline(s, i as int, j as int, p as int));
                return true;
            }
        }
        j += 1;
    }
    false
}

/// Whether some annotation after the `i`th pushes the next label a line down.
fn any_pushes(ms: &[DisplaySourceAnnotation], order: &Vec<usize>, i: usize, p: usize) -> (b: bool)
    requires
        layout_fits(ms@),
        order@.len() == ms@.len(),
        forall|t: int| 0 <= t < order@.len() ==> #[trigger] order@[t] < ms@.len(),
        i < order@.len(),
    ensures
        b == exists|j: int| i < j < ms@.len() && #[trigger] pushes_down(in_order(ms@, order@), i as int, j, p as int),
{
    let ghost s = in_order(ms@, order@);
    let a = &ms[order[i]];
    let mut j: usize = i + 1;
    while j < order.len()
        invariant
            layout_fits(ms@),
            order@.len() == ms@.len(),
            forall|t: int| 0 <= t < order@.len() ==> #[trigger] order@[t] < ms@.len(),
            i < j <= order@.len(),
            s == in_order(ms@, order@),
            *a == s[i as int],
            forall|t: int| i < t < j ==> !#[trigger] pushes_down(s, i as int, t, p as int),
        decreases order.len() - j,
    {
        let next = &ms[order[j]];
        assert(*next == s[j as int]);
        assert(ms@[order@[j as int] as int].range.1 + label_len(ms@[order@[j as int] as int]) + 2 <= usize::MAX);
        let l = label_bytes(next) + 2;
        let ov = crate::renderer::display_list::overlaps(next, a, l);
        let al = a.has_label();
        let nl = next.has_label();
        let asp = a.takes_space();
        let nsp = next.takes_space();
        if (ov && al && nl) || (asp && nl) || (al && nsp) || (asp && nsp) || (ov && next.range.1 <= a.range.1 && nl
            && p == 0) {
            assert(pushes_down(s, i as int, j as int, p as int));
            return true;
        }
        j += 1;
    }
    false
}

/// Where the labels of a source line go; see `label_layout`. Each entry is
/// the line of a label (0 beside the underline) and the index of its
/// annotation; the second result is the number of lines below the underline
/// that the labels take.
pub fn label_positions(annotations: &[DisplaySourceAnnotation]) -> (res: (Vec<(usize, usize)>, usize))
    requires
        layout_fits(annotations@),
    ensures
        res.0@.len() == annotations@.len(),
        forall|k: int|
            0 <= k < res.0@.len() ==> ((#[trigger] res.0@[k]).0 as int, res.0@[k].1 as int) == label_layout(
                annotations@,
            ).0[k],
        res.1 as int == label_layout(annotations@).1,
{
    let order = order_later(annotations);
    let n = annotations.len();
    let ghost order_i = later_order(annotations@, n as int);
    let ghost s = in_order(annotations@, order@);
    assert(s =~= Seq::new(n as nat, |k: int| annotations@[order_i[k]]));
    let mut ps: Vec<usize> = Vec::new();
    let mut p: usize = 0;
    let mut i: usize = 0;
    while i < n
        invariant
            n == annotations@.len(),
            layout_fits(annotations@),
            order@.len() == n,
            forall|t: int| 0 <= t < order@.len() ==> #[trigger] order@[t] < n,
            s == in_order(annotations@, order@),
            i <= n,
            p <= 2 * i,
            ps@.len() == i,
            ps@.map_values(|u: usize| u as int) == label_lines(s, i as int).0,
            p as int == label_lines(s, i as int).1,
        decreases n - i,
    {
        let ghost p0 = p as int;
        let b1 = any_leaves(annotations, &order, i, p);
        let p1 = if b1 {
            p + 1
        } else {
            p
        };
        let b2 = any_pushes(annotations, &order, i, p1);
        let ghost prev = ps@.map_values(|u: usize| u as int);
        ps.push(p1);
        assert(ps@.map_values(|u: usize| u as int) =~= prev.push(p1 as int));
        p = if b2 {
            p1 + 1
        } else {
            p1
        };
        proof {
            assert(s.len() == n);
            assert(label_line(s, i as int, p0) == p1 as int);
            assert(next_line(s, i as int, p1 as int) == p as int);
        }
        i += 1;
    }
    let ghost psi = label_lines(s, n as int).0;
    assert(psi == ps@.map_values(|u: usize| u as int));
    let mut line_len = if p != 0 {
        p + 1
    } else {
        p
    };
    let mut all_start = true;
    let mut k: usize = 0;
    while k < n
        invariant
            n == annotations@.len(),
            order@.len() == n,
            forall|t: int| 0 <= t < order@.len() ==> #[trigger] order@[t] < n,
            s == in_order(annotations@, order@),
            k <= n,
            all_start == forall|t: int| 0 <= t < k ==> (#[trigger] s[t]).annotation_part == DisplayAnnotationPart::MultilineStart,
        decreases n - k,
    {
        assert(annotations@[order@[k as int] as int] == s[k as int]);
        if annotations[order[k]].annotation_part != DisplayAnnotationPart::MultilineStart {
            all_start = false;
        }
        k += 1;
    }
    let mut res: Vec<(usize, usize)> = Vec::new();
    if n > 0 && all_start {
        let mut m: usize = 0;
        let mut t: usize = 0;
        while t < n
            invariant
                ps@.len() == n,
                psi == ps@.map_values(|u: usize| u as int),
                t <= n,
                m as int == max_upto(psi, t as int),
            decreases n - t,
        {
            assert(psi[t as int] == ps@[t as int] as int);
            if ps[t] > m {
                m = ps[t];
            }
            t += 1;
        }
        let mut q: usize = 0;
        while q < n
            invariant
                ps@.len() == n,
                order@.len() == n,
                psi == ps@.map_values(|u: usize| u as int),
                psi.len() == n,
                m as int == max_upto(psi, n as int),
                q <= n,
                res@.len() == q,
                forall|r: int| 0 <= r < q ==> (#[trigger] res@[r]).0 as int == m - psi[r] && res@[r].1 == order@[r],
            decreases n - q,
        {
            proof {
                lemma_max_upto(psi, n as int, q as int);
            }
            assert(psi[q as int] == ps@[q as int] as int);
            res.push((m - ps[q], order[q]));
            q += 1;
        }
        line_len = if line_len > 0 {
            line_len - 1
        } else {
            0
        };
    } else {
        let mut q: usize = 0;
        while q < n
            invariant
                ps@.len() == n,
                order@.len() == n,
                psi == ps@.map_values(|u: usize| u as int),
                q <= n,
                res@.len() == q,
                forall|r: int| 0 <= r < q ==> (#[trigger] res@[r]).0 as int == psi[r] && res@[r].1 == order@[r],
            decreases n - q,
        {
            assert(psi[q as int] == ps@[q as int] as int);
            res.push((ps[q], order[q]));
            q += 1;
        }
    }
    (res, line_len)
}

} // verus!
