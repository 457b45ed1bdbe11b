//! Properties that hold of the library as a whole.
use vstd::prelude::*;

use crate::renderer::annotated_lines::keep_annotated;
use crate::renderer::display_body::{fold_scan, is_highlighted, spec_fold_body};
use crate::renderer::display_list::LineView;
use crate::renderer::line_annotations::{ann_insert, ann_sort, loc_lt};
use crate::renderer::normalize::{is_dropped_char, normalized, replacement_of};
use crate::renderer::source_map::{AnnotatedLineView, LineAnnotation, Loc};
use crate::snippet::{common_prefix_from, spec_as_substr, utf8_len};
use crate::message::MessageModel;
use crate::renderer::display_message::{
    message_head_sets, message_snippet_sets, message_title_lines, spec_format_message, title_line_view,
};

verus! {

/// The highlighted lines of a body, in order.
pub open spec fn highlighted_lines(s: Seq<LineView>) -> Seq<LineView>
    decreases s.len(),
{
    if s.len() == 0 {
        s
    } else if is_highlighted(s.last()) {
        highlighted_lines(s.drop_last()).push(s.last())
    } else {
        highlighted_lines(s.drop_last())
    }
}

proof fn lemma_highlighted_concat(a: Seq<LineView>, b: Seq<LineView>)
    ensures
        highlighted_lines(a + b) == highlighted_lines(a) + highlighted_lines(b),
    decreases b.len(),
{
    if b.len() == 0 {
        assert(a + b =~= a);
        assert(highlighted_lines(a) + highlighted_lines(b) =~= highlighted_lines(a));
    } else {
        lemma_highlighted_concat(a, b.drop_last());
        assert((a + b).drop_last() =~= a + b.drop_last());
        assert((a + b).last() == b.last());
        if is_highlighted(b.last()) {
            assert(highlighted_lines(a) + highlighted_lines(b.drop_last()).push(b.last()) =~= (
            highlighted_lines(a) + highlighted_lines(b.drop_last())).push(b.last()));
        }
    }
}

proof fn lemma_none_highlighted(s: Seq<LineView>)
    requires
        forall|i: int| 0 <= i < s.len() ==> !is_highlighted(#[trigger] s[i]),
    ensures
        highlighted_lines(s) == Seq::<LineView>::empty(),
    decreases s.len(),
{
    if s.len() > 0 {
        let d = s.drop_last();
        assert forall|i: int| 0 <= i < d.len() implies !is_highlighted(#[trigger] d[i]) by {
            assert(d[i] == s[i]);
        }
        lemma_none_highlighted(d);
    }
}

proof fn lemma_fold_scan_highlighted(body: Seq<LineView>)
    ensures
        highlighted_lines(fold_scan(body).0) == highlighted_lines(body),
        forall|i: int| 0 <= i < fold_scan(body).1.len() ==> !is_highlighted(#[trigger] fold_scan(body).1[i]),
    decreases body.len(),
{
    if body.len() > 0 {
        let d = body.drop_last();
        let l = body.last();
        lemma_fold_scan_highlighted(d);
        let (lines, pending) = fold_scan(d);
        lemma_none_highlighted(pending);
        if is_highlighted(l) {
            let p = if lines.len() == 0 {
                Seq::<LineView>::empty()
            } else {
                pending
            };
            lemma_none_highlighted(p);
            let n = p.len();
            if n <= 3 {
                lemma_highlighted_concat(lines + p, seq![l]);
                lemma_highlighted_concat(lines, p);
                assert(highlighted_lines(seq![l]) =~= seq![l]) by {
                    reveal_with_fuel(highlighted_lines, 2);
                    assert(seq![l].drop_last() =~= Seq::<LineView>::empty());
                    assert(seq![l].last() == l);
                }
            } else {
                let tail = seq![p[0], LineView::Fold { inline_marks: crate::renderer::display_body::fold_marks(p[0]) }, p[n - 1], l];
                lemma_highlighted_concat(lines, tail);
                assert(!is_highlighted(p[0]));
                assert(!is_highlighted(p[n - 1]));
                assert(tail.drop_last() =~= seq![p[0], LineView::Fold { inline_marks: crate::renderer::display_body::fold_marks(p[0]) }, p[n - 1]]);
                assert(highlighted_lines(tail) =~= seq![l]) by {
                    reveal_with_fuel(highlighted_lines, 5);
                    let t3 = tail.drop_last();
                    let t2 = t3.drop_last();
                    let t1 = t2.drop_last();
                    assert(t1 =~= seq![p[0]]);
                    assert(t1.drop_last() =~= Seq::<LineView>::empty());
                    assert(t2.last() == LineView::Fold { inline_marks: crate::renderer::display_body::fold_marks(p[0]) });
                    assert(!is_highlighted(t2.last()));
                    assert(t3.last() == p[n - 1]);
                    assert(tail.last() == l);
                    assert(highlighted_lines(t1) =~= Seq::<LineView>::empty());
                    assert(highlighted_lines(t2) =~= Seq::<LineView>::empty());
                    assert(highlighted_lines(t3) =~= Seq::<LineView>::empty());
                }
            }
            assert(highlighted_lines(body) == highlighted_lines(d).push(l));
            assert(highlighted_lines(d) + seq![l] =~= highlighted_lines(d).push(l));
        } else {
            assert(highlighted_lines(body) == highlighted_lines(d));
            let np = pending.push(l);
            assert forall|i: int| 0 <= i < np.len() implies !is_highlighted(#[trigger] np[i]) by {
                if i < pending.len() {
                    assert(np[i] == pending[i]);
                }
            }
        }
    }
}

/// Folding a snippet's body never hides a line that carries an annotation
/// or starts a multiline one: the highlighted lines after folding are
/// exactly those before, in the same order.
pub proof fn law_fold_keeps_highlighted_lines(body: Seq<LineView>)
    ensures
        highlighted_lines(spec_fold_body(body)) == highlighted_lines(body),
{
    lemma_fold_scan_highlighted(body);
}

proof fn lemma_normalized_concat(a: Seq<char>, b: Seq<char>)
    ensures
        normalized(a + b) == normalized(a) + normalized(b),
    decreases b.len(),
{
    if b.len() == 0 {
        assert(a + b =~= a);
        assert(normalized(b) =~= Seq::<char>::empty());
        assert(normalized(a) + normalized(b) =~= normalized(a));
    } else {
        lemma_normalized_concat(a, b.drop_last());
        assert((a + b).drop_last() =~= a + b.drop_last());
        assert((a + b).last() == b.last());
        assert(normalized(a) + (normalized(b.drop_last()) + replacement_of(b.last())) =~= (normalized(a)
            + normalized(b.drop_last())) + replacement_of(b.last()));
    }
}

proof fn lemma_normalized_single(c: char)
    ensures
        normalized(seq![c]) == replacement_of(c),
{
    assert(seq![c].drop_last() =~= Seq::<char>::empty());
    assert(normalized(seq![c].drop_last()) =~= Seq::<char>::empty());
    assert(Seq::<char>::empty() + replacement_of(c) =~= replacement_of(c));
}

proof fn lemma_replacement_fixed(c: char)
    ensures
        normalized(replacement_of(c)) == replacement_of(c),
{
    if c == '\t' {
        let sp = seq![' ', ' ', ' ', ' '];
        lemma_normalized_single(' ');
        assert(sp =~= seq![' ', ' ', ' '] + seq![' ']);
        assert(seq![' ', ' ', ' '] =~= seq![' ', ' '] + seq![' ']);
        assert(seq![' ', ' '] =~= seq![' '] + seq![' ']);
        lemma_normalized_concat(seq![' '], seq![' ']);
        lemma_normalized_concat(seq![' ', ' '], seq![' ']);
        lemma_normalized_concat(seq![' ', ' ', ' '], seq![' ']);
        assert(seq![' '] + seq![' '] =~= seq![' ', ' ']);
        assert(seq![' ', ' '] + seq![' '] =~= seq![' ', ' ', ' ']);
        assert(seq![' ', ' ', ' '] + seq![' '] =~= sp);
    } else if is_dropped_char(c) {
        assert(normalized(Seq::<char>::empty()) =~= Seq::<char>::empty());
    } else {
        lemma_normalized_single(c);
    }
}

/// Normalizing an already normalized text changes nothing.
pub proof fn law_normalize_idempotent(s: Seq<char>)
    ensures
        normalized(normalized(s)) == normalized(s),
    decreases s.len(),
{
    if s.len() > 0 {
        law_normalize_idempotent(s.drop_last());
        lemma_normalized_concat(normalized(s.drop_last()), replacement_of(s.last()));
        lemma_replacement_fixed(s.last());
    }
}

/// A control character: Unicode category Cc.
pub open spec fn is_control_char(c: char) -> bool {
    (c as int) < 0x20 || (0x7F <= (c as int) && (c as int) <= 0x9F)
}

/// A normalized text holds no tab and none of the dropped characters: the
/// only control character left in it is the newline.
pub proof fn law_normalized_is_clean(s: Seq<char>)
    ensures
        forall|i: int|
            0 <= i < normalized(s).len() ==> #[trigger] normalized(s)[i] != '\t' && !is_dropped_char(
                normalized(s)[i],
            ) && (is_control_char(normalized(s)[i]) ==> normalized(s)[i] == '\n'),
    decreases s.len(),
{
    if s.len() > 0 {
        law_normalized_is_clean(s.drop_last());
        let a = normalized(s.drop_last());
        let r = replacement_of(s.last());
        assert forall|i: int| 0 <= i < normalized(s).len() implies #[trigger] normalized(s)[i] != '\t'
            && !is_dropped_char(normalized(s)[i]) by {
            if i < a.len() {
                assert(normalized(s)[i] == a[i]);
            } else {
                assert(normalized(s)[i] == r[i - a.len()]);
            }
        }
    }
}

/// When lines are folded, every line given has at least one annotation.
pub proof fn law_folded_lines_are_annotated<'a>(s: Seq<AnnotatedLineView<'a>>)
    ensures
        forall|i: int| 0 <= i < keep_annotated(s).len() ==> (#[trigger] keep_annotated(s)[i]).annotations.len() > 0,
    decreases s.len(),
{
    if s.len() > 0 {
        law_folded_lines_are_annotated(s.drop_last());
        let k = keep_annotated(s.drop_last());
        assert forall|i: int| 0 <= i < keep_annotated(s).len() implies (#[trigger] keep_annotated(s)[i]).annotations.len()
            > 0 by {
            if i < k.len() {
                assert(keep_annotated(s)[i] == k[i]);
            }
        }
    }
}

/// `a` does not start after `b`.
pub open spec fn loc_le(a: Loc, b: Loc) -> bool {
    !loc_lt(b, a)
}

/// The annotations are in order of where they start.
pub open spec fn sorted_by_start<'a>(s: Seq<LineAnnotation<'a>>) -> bool {
    forall|i: int, j: int| 0 <= i < j < s.len() ==> loc_le(s[i].start, s[j].start)
}

proof fn lemma_ann_insert_sorted<'a>(s: Seq<LineAnnotation<'a>>, x: LineAnnotation<'a>)
    requires
        sorted_by_start(s),
    ensures
        sorted_by_start(ann_insert(s, x)),
        ann_insert(s, x).len() == s.len() + 1,
        forall|i: int|
            0 <= i < ann_insert(s, x).len() ==> (#[trigger] ann_insert(s, x)[i] == x || s.contains(
                ann_insert(s, x)[i],
            )),
    decreases s.len(),
{
    if s.len() == 0 || !loc_lt(x.start, s.last().start) {
        let r = s.push(x);
        assert forall|i: int, j: int| 0 <= i < j < r.len() implies loc_le(r[i].start, r[j].start) by {
            if j == r.len() - 1 {
                assert(r[j] == x);
                if i < s.len() - 1 {
                    assert(loc_le(s[i].start, s[s.len() - 1].start));
                }
            } else {
                assert(r[i] == s[i]);
                assert(r[j] == s[j]);
            }
        }
        assert forall|i: int| 0 <= i < r.len() implies (#[trigger] r[i] == x || s.contains(r[i])) by {
            if i < s.len() {
                assert(r[i] == s[i]);
            }
        }
    } else {
        let d = s.drop_last();
        assert(sorted_by_start(d));
        lemma_ann_insert_sorted(d, x);
        let r0 = ann_insert(d, x);
        let r = r0.push(s.last());
        assert forall|i: int, j: int| 0 <= i < j < r.len() implies loc_le(r[i].start, r[j].start) by {
            if j == r.len() - 1 {
                if r0[i] == x {
                } else {
                    let k = choose|k: int| 0 <= k < d.len() && d[k] == r0[i];
                    assert(s[k] == d[k]);
                }
            }
        }
        assert forall|i: int| 0 <= i < r.len() implies (#[trigger] r[i] == x || s.contains(r[i])) by {
            if i < r0.len() {
                assert(r[i] == r0[i]);
                if r0[i] != x {
                    let k = choose|k: int| 0 <= k < d.len() && d[k] == r0[i];
                    assert(s[k] == d[k]);
                }
            } else {
                assert(s[s.len() - 1] == s.last());
            }
        }
    }
}

/// The annotations drawn on a line are sorted by where they start.
pub proof fn law_line_annotations_sorted<'a>(s: Seq<LineAnnotation<'a>>)
    ensures
        sorted_by_start(ann_sort(s)),
    decreases s.len(),
{
    if s.len() > 0 {
        law_line_annotations_sorted(s.drop_last());
        lemma_ann_insert_sorted(ann_sort(s.drop_last()), s.last());
    }
}

proof fn lemma_common_prefix_from(a: Seq<char>, b: Seq<char>, i: int)
    requires
        0 <= i <= a.len(),
        i <= b.len(),
        forall|t: int| 0 <= t < i ==> a[t] == b[t],
    ensures
        i <= common_prefix_from(a, b, i) <= a.len(),
        common_prefix_from(a, b, i) <= b.len(),
        forall|t: int| 0 <= t < common_prefix_from(a, b, i) ==> a[t] == b[t],
    decreases a.len() - i,
{
    if i < a.len() && i < b.len() && a[i] == b[i] {
        lemma_common_prefix_from(a, b, i + 1);
    }
}

/// When a suggestion holds the original with text sandwiched in it, the
/// suggestion is the original's common start, then the sandwiched text, then
/// the rest of the original; the byte lengths given are those of the two
/// parts of the original.
pub proof fn law_as_substr_sandwich(original: Seq<char>, suggestion: Seq<char>)
    ensures
        spec_as_substr(original, suggestion) matches Some((p, mid, q)) ==> exists|k: int|
            0 <= k <= original.len() && suggestion == original.take(k) + mid + original.skip(k) && p == utf8_len(
                original.take(k),
            ) && q == utf8_len(#[trigger] original.skip(k)),
{
    lemma_common_prefix_from(original, suggestion, 0);
    let k = common_prefix_from(original, suggestion, 0);
    if let Some((p, mid, q)) = spec_as_substr(original, suggestion) {
        let o2 = original.skip(k);
        let s2 = suggestion.skip(k);
        assert(suggestion.take(k) =~= original.take(k));
        assert(s2 =~= mid + s2.skip(s2.len() - o2.len()));
        assert(suggestion =~= suggestion.take(k) + s2);
        assert(suggestion =~= original.take(k) + mid + original.skip(k));
    }
}

/// A message with snippets, or the primary message, is shown starting with
/// its title line.
pub proof fn law_title_comes_first(m: MessageModel, term_width: usize, anonymized: bool, primary: bool)
    requires
        m.snippets.len() > 0 || primary,
    ensures
        spec_format_message(m, term_width, anonymized, primary).len() > 0,
        spec_format_message(m, term_width, anonymized, primary)[0].0.len() > 0,
        spec_format_message(m, term_width, anonymized, primary)[0].0[0] == title_line_view(m.level, m.id, m.title),
{
    let body = message_title_lines(m, primary);
    assert(body == seq![title_line_view(m.level, m.id, m.title)]);
    assert(body.reverse() =~= body);
    let head = message_head_sets(m, term_width, anonymized, primary);
    let sets = message_snippet_sets(m, term_width, anonymized);
    assert(head.len() > 0);
    assert(head[0].0[0] == title_line_view(m.level, m.id, m.title));
    let all = spec_format_message(m, term_width, anonymized, primary);
    assert(all[0] == head[0]);
}

} // verus!
