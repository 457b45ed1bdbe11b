//! Text-only output: positions written as words.
use vstd::prelude::*;
use vstd::string::StringExecFns;

use crate::output::{decimal, push_char, push_decimal, push_spaces, repeat_char};
use crate::renderer::source_map::{span_chars, span_locations, span_requires, Loc, SourceMap};
use crate::snippet::{Annotation, AnnotationKind, Element, Group, Id, Origin, Patch, Snippet};
use crate::level::{level_text, Level};
use crate::cursor_line::collect_lines;
use crate::format::{lemma_lines_view, text_lines};
use crate::cursor_line::{cursor_lines, lemma_cursor_line_at};
use crate::text::{bytes_of, char_is_whitespace, chars_of, is_boundary, is_whitespace, lemma_chars_of_str, str_chars};

verus! {

/// A file position in words: `at PATH:LL:CC` when the path is known (which
/// terminals and editors recognise), otherwise `on line LL, column CC`, with
/// the parts that are known. A column is shown only together with a line,
/// so a path and a column without a line give just the path.
pub open spec fn path_text(path: Option<&str>, line: Option<usize>, col: Option<usize>) -> Seq<char> {
    match (path, line, col) {
        (Some(p), Some(l), Some(c)) => "at "@ + p@ + ":"@ + decimal(l as nat) + ":"@ + decimal(c as nat),
        (Some(p), Some(l), None) => "at "@ + p@ + ":"@ + decimal(l as nat),
        (Some(p), None, None) => "at "@ + p@,
        (None, Some(l), Some(c)) => "on line "@ + decimal(l as nat) + ", column "@ + decimal(c as nat),
        (None, Some(l), None) => "on line "@ + decimal(l as nat),
        (None, None, Some(c)) => "on column "@ + decimal(c as nat),
        (Some(p), None, Some(_)) => "at "@ + p@,
        (None, None, None) => Seq::empty(),
    }
}

/// Writes a file position in words; see `path_text`.
pub fn render_path(output: &mut String, path: Option<&str>, line: Option<usize>, col: Option<usize>)
    ensures
        final(output)@ == old(output)@ + path_text(path, line, col),
{
    let ghost start = output@;
    match (path, line, col) {
        (Some(p), Some(l), Some(c)) => {
            output.append("at ");
            output.append(p);
            output.append(":");
            push_decimal(output, l);
            output.append(":");
            push_decimal(output, c);
        },
        (Some(p), Some(l), None) => {
            output.append("at ");
            output.append(p);
            output.append(":");
            push_decimal(output, l);
        },
        (Some(p), None, None) => {
            output.append("at ");
            output.append(p);
        },
        (None, Some(l), Some(c)) => {
            output.append("on line ");
            push_decimal(output, l);
            output.append(", column ");
            push_decimal(output, c);
        },
        (None, Some(l), None) => {
            output.append("on line ");
            push_decimal(output, l);
        },
        (None, None, Some(c)) => {
            output.append("on column ");
            push_decimal(output, c);
        },
        (Some(p), None, Some(_)) => {
            output.append("at ");
            output.append(p);
        },
        (None, None, None) => {},
    }
    assert(output@ =~= start + path_text(path, line, col));
}

/// `a` is listed before `b` in a cause: primary annotations first, then by
/// where they start.
pub open spec fn cause_before(a: Annotation, b: Annotation) -> bool {
    (a.kind == AnnotationKind::Primary && b.kind == AnnotationKind::Context) || (a.kind == b.kind && a.span.start
        < b.span.start)
}

/// Index `x` inserted into the ordered indices `s` after every index whose
/// annotation it does not come before.
pub open spec fn order_insert<'a>(ms: Seq<Annotation<'a>>, s: Seq<int>, x: int) -> Seq<int>
    decreases s.len(),
{
    if s.len() == 0 || !cause_before(ms[x], ms[s.last()]) {
        s.push(x)
    } else {
        order_insert(ms, s.drop_last(), x).push(s.last())
    }
}

/// The indices of the first `n` annotations in the order a cause lists
/// them; annotations that neither comes before keep their order.
pub open spec fn cause_order<'a>(ms: Seq<Annotation<'a>>, n: int) -> Seq<int>
    decreases n,
{
    if n <= 0 {
        Seq::empty()
    } else {
        order_insert(ms, cause_order(ms, n - 1), n - 1)
    }
}

proof fn lemma_order_insert<'a>(ms: Seq<Annotation<'a>>, s: Seq<int>, x: int, j: int)
    requires
        0 <= j <= s.len(),
        forall|t: int| j <= t < s.len() ==> cause_before(ms[x], ms[#[trigger] s[t]]),
        j == 0 || !cause_before(ms[x], ms[s[j - 1]]),
    ensures
        order_insert(ms, s, x) == s.take(j).push(x) + s.skip(j),
    decreases s.len(),
{
    if s.len() == j {
        assert(s.take(j) =~= s);
        assert(s.skip(j) =~= Seq::<int>::empty());
        assert(s.take(j).push(x) + s.skip(j) =~= s.push(x));
    } else {
        let d = s.drop_last();
        assert forall|t: int| j <= t < d.len() implies cause_before(ms[x], ms[#[trigger] d[t]]) by {
            assert(d[t] == s[t]);
        }
        if j > 0 {
            assert(d[j - 1] == s[j - 1]);
        }
        lemma_order_insert(ms, d, x, j);
        assert(d.take(j) =~= s.take(j));
        assert((d.take(j).push(x) + d.skip(j)).push(s.last()) =~= s.take(j).push(x) + s.skip(j));
    }
}

proof fn lemma_order_in_range<'a>(ms: Seq<Annotation<'a>>, n: int)
    requires
        0 <= n,
    ensures
        cause_order(ms, n).len() == n,
        forall|t: int| 0 <= t < n ==> 0 <= #[trigger] cause_order(ms, n)[t] < n,
    decreases n,
{
    if n > 0 {
        lemma_order_in_range(ms, n - 1);
        lemma_insert_in_range(ms, cause_order(ms, n - 1), n - 1, n);
    }
}

proof fn lemma_insert_in_range<'a>(ms: Seq<Annotation<'a>>, s: Seq<int>, x: int, bound: int)
    requires
        0 <= x < bound,
        forall|t: int| 0 <= t < s.len() ==> 0 <= #[trigger] s[t] < bound,
    ensures
        order_insert(ms, s, x).len() == s.len() + 1,
        forall|t: int| 0 <= t < s.len() + 1 ==> 0 <= #[trigger] order_insert(ms, s, x)[t] < bound,
    decreases s.len(),
{
    if s.len() > 0 && cause_before(ms[x], ms[s.last()]) {
        let d = s.drop_last();
        assert forall|t: int| 0 <= t < d.len() implies 0 <= #[trigger] d[t] < bound by {
            assert(d[t] == s[t]);
        }
        lemma_insert_in_range(ms, d, x, bound);
        let r = order_insert(ms, d, x);
        assert forall|t: int| 0 <= t < s.len() + 1 implies 0 <= #[trigger] order_insert(ms, s, x)[t] < bound by {
            if t < s.len() {
                assert(order_insert(ms, s, x)[t] == r[t]);
            } else {
                assert(order_insert(ms, s, x)[t] == s.last());
            }
        }
    }
}

fn comes_before(a: &Annotation, b: &Annotation) -> (r: bool)
    ensures
        r == cause_before(*a, *b),
{
    let pa = a.kind.is_primary();
    let pb = b.kind.is_primary();
    (pa && !pb) || (pa == pb && a.span.start < b.span.start)
}

/// The indices of a cause's annotations in the order it lists them.
fn order_cause(ms: &Vec<Annotation>) -> (res: Vec<usize>)
    ensures
        res@.len() == ms@.len(),
        forall|t: int| 0 <= t < res@.len() ==> res@[t] as int == cause_order(ms@, ms@.len() as int)[t],
        forall|t: int| 0 <= t < res@.len() ==> #[trigger] res@[t] < ms@.len(),
{
    let mut out: Vec<usize> = Vec::new();
    let mut k: usize = 0;
    while k < ms.len()
        invariant
            k <= ms@.len(),
            out@.len() == k,
            out@.map_values(|u: usize| u as int) == cause_order(ms@, k as int),
            forall|t: int| 0 <= t < k ==> #[trigger] out@[t] < k,
        decreases ms.len() - k,
    {
        let ghost prev = out@.map_values(|u: usize| u as int);
        let ghost prev_raw = out@;
        out.push(k);
        let mut j: usize = out.len() - 1;
        while j > 0 && comes_before(&ms[out[j]], &ms[out[j - 1]])
            invariant
                j < out@.len(),
                out@.len() == prev.len() + 1,
                k < ms@.len(),
                prev.len() == k,
                prev == prev_raw.map_values(|u: usize| u as int),
                forall|t: int| 0 <= t < k ==> #[trigger] prev_raw[t] < k,
                out@ == prev_raw.take(j as int).push(k) + prev_raw.skip(j as int),
                forall|t: int| j <= t < prev.len() ==> cause_before(ms@[k as int], ms@[#[trigger] prev[t]]),
            decreases j,
        {
            let y = out[j - 1];
            assert(y == prev_raw[j - 1]);
            assert(out@[j as int] == k);
            out.set(j, y);
            out.set(j - 1, k);
            assert(out@ =~= prev_raw.take(j - 1).push(k) + prev_raw.skip(j - 1));
            j -= 1;
        }
        proof {
            if j > 0 {
                assert(out@[j as int] == k);
                assert(out@[j - 1] == prev_raw[j - 1]);
                assert(prev[j - 1] == prev_raw[j - 1] as int);
            }
            lemma_order_insert(ms@, prev, k as int, j as int);
            assert(out@.map_values(|u: usize| u as int) =~= prev.take(j as int).push(k as int) + prev.skip(j as int));
            assert forall|t: int| 0 <= t < k + 1 implies #[trigger] out@[t] < k + 1 by {
                if t < j {
                    assert(out@[t] == prev_raw[t]);
                } else if t > j {
                    assert(out@[t] == prev_raw[t - 1]);
                }
            }
        }
        k += 1;
    }
    assert forall|t: int| 0 <= t < out@.len() implies out@[t] as int == cause_order(ms@, ms@.len() as int)[t] by {
        assert(out@.map_values(|u: usize| u as int)[t] == out@[t] as int);
    }
    out
}

/// Every character of the text is whitespace.
pub open spec fn all_whitespace(t: Seq<char>) -> bool {
    forall|i: int| 0 <= i < t.len() ==> char_is_whitespace(#[trigger] t[i])
}

/// An annotation's label, when it has one that is not empty.
pub open spec fn shown_label<'a>(a: Annotation<'a>) -> Option<&'a str> {
    match a.label {
        Some(l) => if l@.len() > 0 {
            Some(l)
        } else {
            None
        },
        None => None,
    }
}

/// The characters of the first `k` bytes of a line, when `k` is within it
/// and on a character boundary (`str::get(..k)`).
pub open spec fn text_before(line: &str, k: int) -> Option<Seq<char>> {
    if 0 <= k <= bytes_of(line).len() && is_boundary(line, k) {
        Some(chars_of(bytes_of(line).take(k)))
    } else {
        None
    }
}

/// The characters after the first `k` bytes of a line, when `k` is within
/// it and on a character boundary (`str::get(k..)`).
pub open spec fn text_after(line: &str, k: int) -> Option<Seq<char>> {
    if 0 <= k <= bytes_of(line).len() && is_boundary(line, k) {
        Some(chars_of(bytes_of(line).skip(k)))
    } else {
        None
    }
}

/// The source line numbered `idx`, if there is one.
pub open spec fn line_numbered<'a>(sm: SourceMap<'a>, idx: int) -> Option<&'a str> {
    if sm.first_line() <= idx < sm.first_line() + sm.lines@.len() {
        Some(sm.lines@[idx - sm.first_line()].line)
    } else {
        None
    }
}

/// The column written for a later annotation: none when only whitespace
/// precedes it on its line.
pub open spec fn later_column(sm: SourceMap, lo: Loc) -> Option<usize> {
    match line_numbered(sm, lo.line as int) {
        Some(line) => match text_before(line, lo.char as int) {
            Some(pre) => if all_whitespace(pre) {
                None
            } else {
                Some((lo.char + 1) as usize)
            },
            None => Some((lo.char + 1) as usize),
        },
        None => Some((lo.char + 1) as usize),
    }
}

/// The end column of a later multiline annotation: left out when only
/// whitespace follows the end on its line.
pub open spec fn end_column_text(sm: SourceMap, hi: Loc) -> Seq<char> {
    let ws_after = match line_numbered(sm, hi.line as int) {
        Some(line) => match text_after(line, hi.char as int) {
            Some(post) => all_whitespace(post),
            None => false,
        },
        None => false,
    };
    if ws_after {
        Seq::empty()
    } else {
        ", column "@ + decimal((hi.char + 1) as nat)
    }
}

/// Where an annotation is: for the first one of a snippet with a path,
/// `at PATH:LL:CC` (and ` to LL:CC` when it ends on another line); for the
/// others, indented, `on line LL, column CC` (and ` to line LL, column CC`),
/// leaving out columns that only whitespace stands beside.
pub open spec fn position_text(sm: SourceMap, path: Option<&str>, first: bool, a: Annotation) -> Seq<char> {
    let (lo, hi) = span_locations(sm, a.span.start as int, a.span.end as int);
    if first && path is Some {
        " "@ + path_text(path, Some(lo.line), Some((lo.char + 1) as usize)) + if lo.line != hi.line {
            " to "@ + decimal(hi.line as nat) + ":"@ + decimal((hi.char + 1) as nat)
        } else {
            Seq::empty()
        }
    } else {
        "  "@ + path_text(None, Some(lo.line), later_column(sm, lo)) + if lo.line != hi.line {
            " to line "@ + decimal(hi.line as nat) + end_column_text(sm, hi)
        } else {
            Seq::empty()
        }
    }
}

/// The entry of the annotation listed at `i`: later annotations without a
/// label are left out; the others give their position and label, ended by
/// a newline when an element follows (and, when none does, a later one
/// starts on a new line).
pub open spec fn entry_text(sm: SourceMap, path: Option<&str>, i: int, a: Annotation, has_next: bool) -> Seq<char> {
    if i > 0 && shown_label(a) is None {
        Seq::empty()
    } else {
        (if i > 0 && !has_next {
            seq!['\n']
        } else {
            Seq::empty()
        }) + position_text(sm, path, i == 0, a) + match shown_label(a) {
            Some(l) => ": "@ + l@,
            None => Seq::empty(),
        } + if has_next {
            seq!['\n']
        } else {
            Seq::empty()
        }
    }
}

/// The entries of the annotations listed in `order`.
pub open spec fn entries_text<'a>(
    sm: SourceMap,
    path: Option<&str>,
    ms: Seq<Annotation<'a>>,
    order: Seq<int>,
    has_next: bool,
) -> Seq<char>
    decreases order.len(),
{
    if order.len() == 0 {
        Seq::empty()
    } else {
        entries_text(sm, path, ms, order.drop_last(), has_next) + entry_text(
            sm,
            path,
            order.len() - 1,
            ms[order.last()],
            has_next,
        )
    }
}

/// A cause in words: its annotations in the order `cause_order` gives; one
/// without annotations names its path and first line.
pub open spec fn cause_text<'a>(sm: SourceMap, snippet: Snippet<'a, Annotation<'a>>, has_next: bool) -> Seq<char> {
    if snippet.markers@.len() == 0 {
        " "@ + path_text(snippet.path, Some(snippet.line_start), None) + if has_next {
            seq!['\n']
        } else {
            Seq::empty()
        }
    } else {
        entries_text(
            sm,
            snippet.path,
            snippet.markers@,
            cause_order(snippet.markers@, snippet.markers@.len() as int),
            has_next,
        )
    }
}

/// `line.get(..k)`.
fn get_before(line: &str, k: usize) -> (res: Option<&str>)
    requires
        bytes_of(line).len() <= usize::MAX,
    ensures
        match res {
            Some(p) => text_before(line, k as int) == Some(p@),
            None => text_before(line, k as int) is None,
        },
{
    if k <= line.len() && line.is_char_boundary(k) {
        let (pre, _) = line.split_at(k);
        proof {
            lemma_chars_of_str(pre);
            assert(bytes_of(pre) =~= bytes_of(line).take(k as int));
            assert(chars_of(bytes_of(line).take(k as int)) == pre@);
            assert(text_before(line, k as int) == Some(pre@));
        }
        Some(pre)
    } else {
        None
    }
}

/// `line.get(k..)`.
fn get_after(line: &str, k: usize) -> (res: Option<&str>)
    requires
        bytes_of(line).len() <= usize::MAX,
    ensures
        match res {
            Some(p) => text_after(line, k as int) == Some(p@),
            None => text_after(line, k as int) is None,
        },
{
    if k <= line.len() && line.is_char_boundary(k) {
        let (_, post) = line.split_at(k);
        proof {
            lemma_chars_of_str(post);
            assert(bytes_of(post) =~= bytes_of(line).skip(k as int));
            assert(chars_of(bytes_of(line).skip(k as int)) == post@);
            assert(text_after(line, k as int) == Some(post@));
        }
        Some(post)
    } else {
        None
    }
}

/// Whether every character is whitespace.
fn is_all_whitespace(s: &str) -> (b: bool)
    ensures
        b == all_whitespace(s@),
{
    let cs = str_chars(s);
    let mut i: usize = 0;
    while i < cs.len()
        invariant
            i <= cs@.len(),
            cs@ == s@,
            forall|j: int| 0 <= j < i ==> char_is_whitespace(#[trigger] cs@[j]),
        decreases cs.len() - i,
    {
        if !is_whitespace(cs[i]) {
            return false;
        }
        i += 1;
    }
    true
}

proof fn lemma_line_fits<'a>(sm: SourceMap<'a>, j: int)
    requires
        sm.wf(),
        0 <= j < sm.lines@.len(),
    ensures
        bytes_of(sm.lines@[j].line).len() <= usize::MAX,
{
    let cl = cursor_lines(bytes_of(sm.source));
    assert(crate::renderer::source_map::describes_line(sm.lines@[j], cl, j, sm.first_line()));
    lemma_cursor_line_at(bytes_of(sm.source), j);
}

fn later_col(sm: &SourceMap, lo: Loc) -> (res: Option<usize>)
    requires
        sm.wf(),
        lo.char < usize::MAX,
    ensures
        res == later_column(*sm, lo),
{
    match sm.get_line(lo.line) {
        Some(line) => {
            proof {
                lemma_line_fits(*sm, lo.line - sm.first_line());
            }
            match get_before(line, lo.char) {
                Some(pre) => if is_all_whitespace(pre) {
                    None
                } else {
                    Some(lo.char + 1)
                },
                None => Some(lo.char + 1),
            }
        },
        None => Some(lo.char + 1),
    }
}

fn write_end_col(output: &mut String, sm: &SourceMap, hi: Loc)
    requires
        sm.wf(),
        hi.char < usize::MAX,
    ensures
        final(output)@ == old(output)@ + end_column_text(*sm, hi),
{
    let ws_after = match sm.get_line(hi.line) {
        Some(line) => {
            proof {
                lemma_line_fits(*sm, hi.line - sm.first_line());
            }
            match get_after(line, hi.char) {
                Some(post) => is_all_whitespace(post),
                None => false,
            }
        },
        None => false,
    };
    if !ws_after {
        output.append(", column ");
        push_decimal(output, hi.char + 1);
    }
}

#[verifier::spinoff_prover]
#[verifier::rlimit(40)]
fn write_position(output: &mut String, sm: &SourceMap, path: Option<&str>, first: bool, a: &Annotation)
    requires
        span_requires(*sm, a.span.start as int, a.span.end as int),
    ensures
        final(output)@ == old(output)@ + position_text(*sm, path, first, *a),
{
    let ghost start = output@;
    let (lo, hi) = sm.span_to_locations(a.span.start..a.span.end);
    if first && path.is_some() {
        output.append(" ");
        render_path(output, path, Some(lo.line), Some(lo.char + 1));
        if lo.line != hi.line {
            output.append(" to ");
            push_decimal(output, hi.line);
            output.append(":");
            push_decimal(output, hi.char + 1);
        }
    } else {
        output.append("  ");
        let col = later_col(sm, lo);
        render_path(output, None, Some(lo.line), col);
        if lo.line != hi.line {
            output.append(" to line ");
            push_decimal(output, hi.line);
            write_end_col(output, sm, hi);
        }
    }
    assert(output@ =~= start + position_text(*sm, path, first, *a));
}

fn write_entry(output: &mut String, sm: &SourceMap, path: Option<&str>, i: usize, a: &Annotation, has_next: bool)
    requires
        span_requires(*sm, a.span.start as int, a.span.end as int),
    ensures
        final(output)@ == old(output)@ + entry_text(*sm, path, i as int, *a, has_next),
{
    let ghost start = output@;
    let label = match a.label {
        Some(l) => if l.is_empty() {
            None
        } else {
            Some(l)
        },
        None => None,
    };
    assert(label == shown_label(*a));
    if i > 0 {
        if label.is_none() {
            return ;
        } else if !has_next {
            push_char(output, '\n');
        }
    }
    write_position(output, sm, path, i == 0, a);
    match label {
        Some(l) => {
            output.append(": ");
            output.append(l);
        },
        None => {},
    }
    if has_next {
        push_char(output, '\n');
    }
    assert(output@ =~= start + entry_text(*sm, path, i as int, *a, has_next));
}

/// The spans of a snippet's annotations fit the source map.
pub open spec fn spans_fit<'a>(sm: SourceMap<'a>, ms: Seq<Annotation<'a>>) -> bool {
    forall|t: int| 0 <= t < ms.len() ==> span_requires(sm, (#[trigger] ms[t]).span.start as int, ms[t].span.end as int)
}

/// Writes a cause in words, as `cause_text` describes it, over the source
/// map `sm` of the snippet.
pub fn render_cause_with(output: &mut String, snippet: &Snippet<'_, Annotation<'_>>, sm: &SourceMap, has_next: bool)
    requires
        sm.wf(),
        spans_fit(*sm, snippet.markers@),
    ensures
        final(output)@ == old(output)@ + cause_text(*sm, *snippet, has_next),
{
    let ghost start = output@;
    if snippet.markers.len() == 0 {
        output.append(" ");
        render_path(output, snippet.path, Some(snippet.line_start), None);
        if has_next {
            push_char(output, '\n');
        }
        assert(output@ =~= start + cause_text(*sm, *snippet, has_next));
        return ;
    }
    let order = order_cause(&snippet.markers);
    let ghost ord = cause_order(snippet.markers@, snippet.markers@.len() as int);
    proof {
        lemma_order_in_range(snippet.markers@, snippet.markers@.len() as int);
    }
    let mut i: usize = 0;
    assert(ord.take(0) =~= Seq::<int>::empty());
    while i < order.len()
        invariant
            i <= order@.len(),
            order@.len() == snippet.markers@.len(),
            ord == cause_order(snippet.markers@, snippet.markers@.len() as int),
            ord.len() == order@.len(),
            forall|t: int| 0 <= t < order@.len() ==> order@[t] as int == ord[t],
            forall|t: int| 0 <= t < order@.len() ==> #[trigger] order@[t] < snippet.markers@.len(),
            spans_fit(*sm, snippet.markers@),
            output@ == start + entries_text(*sm, snippet.path, snippet.markers@, ord.take(i as int), has_next),
        decreases order.len() - i,
    {
        let k = order[i];
        assert(ord.take(i + 1).drop_last() =~= ord.take(i as int));
        assert(ord.take(i + 1).last() == k as int);
        assert(span_requires(*sm, snippet.markers@[k as int].span.start as int, snippet.markers@[k as int].span.end as int));
        write_entry(output, sm, snippet.path, i, &snippet.markers[k], has_next);
        i += 1;
    }
    assert(ord.take(i as int) =~= ord);
}

/// Writes an origin in words: ` at PATH:LL:CC`, ended by a newline when an
/// element follows.
pub fn render_origin(output: &mut String, origin: &Origin, has_next: bool)
    ensures
        final(output)@ == old(output)@ + " "@ + path_text(Some(origin.path), origin.line, origin.char_column) + if has_next {
            seq!['\n']
        } else {
            Seq::empty()
        },
{
    let ghost start = output@;
    output.append(" ");
    render_path(output, Some(origin.path), origin.line, origin.char_column);
    if has_next {
        push_char(output, '\n');
    }
    assert(output@ =~= start + " "@ + path_text(Some(origin.path), origin.line, origin.char_column) + if has_next {
        seq!['\n']
    } else {
        Seq::empty()
    });
}

/// What writing a cause needs: a source of bounded size whose line numbers
/// fit, not empty when it has annotations (the source map then has a line
/// to point into), and annotation ends on character boundaries.
pub open spec fn cause_fits<'a>(snippet: Snippet<'a, Annotation<'a>>) -> bool {
    let b = bytes_of(snippet.source);
    &&& b.len() <= usize::MAX / 4
    &&& snippet.line_start + cursor_lines(b).len() <= usize::MAX + 1
    &&& snippet.markers@.len() > 0 ==> b.len() > 0
    &&& forall|t: int|
        0 <= t < snippet.markers@.len() ==> {
            let a = #[trigger] snippet.markers@[t];
            &&& (a.span.start <= b.len() ==> is_boundary(snippet.source, a.span.start as int))
            &&& (a.span.end <= b.len() ==> is_boundary(snippet.source, a.span.end as int))
        }
}

/// Writes a cause in words: over the source map of its snippet, as
/// `cause_text` describes it.
pub fn render_cause(output: &mut String, snippet: &Snippet<'_, Annotation<'_>>, has_next: bool)
    requires
        cause_fits(*snippet),
    ensures
        exists|sm: SourceMap|
            sm.wf() && sm.source == snippet.source && (sm.lines@.len() > 0 ==> sm.first_line() == snippet.line_start)
                && final(output)@ == old(output)@ + cause_text(sm, *snippet, has_next),
{
    let sm = SourceMap::new(snippet.source, snippet.line_start);
    proof {
        let b = bytes_of(snippet.source);
        if b.len() > 0 {
            assert(cursor_lines(b).len() > 0);
        }
        assert forall|t: int| 0 <= t < snippet.markers@.len() implies span_requires(
            sm,
            (#[trigger] snippet.markers@[t]).span.start as int,
            snippet.markers@[t].span.end as int,
        ) by {
            assert(cursor_lines(b).len() > 0);
        }
    }
    render_cause_with(output, snippet, &sm, has_next);
}


/// A text without its trailing line feeds (`str::trim_end_matches('\n')`).
pub open spec fn trim_end_newlines(t: Seq<char>) -> Seq<char>
    decreases t.len(),
{
    if t.len() > 0 && t.last() == '\n' {
        trim_end_newlines(t.drop_last())
    } else {
        t
    }
}

/// The path of a suggestion when it differs from the report's primary path.
pub open spec fn suggestion_path<'a>(path: Option<&'a str>, primary: Option<&'a str>) -> Option<&'a str> {
    match (path, primary) {
        (Some(p), Some(q)) => if p@ != q@ {
            Some(p)
        } else {
            None
        },
        _ => None,
    }
}

/// The column of a suggestion's position: none when the patch replaces a
/// whole line (only whitespace before it, and after it unless the
/// replacement spans several lines), else the start column but at least 1.
pub open spec fn suggestion_column<'a>(sm: SourceMap<'a>, lo: Loc, hi: Loc, rep: Seq<char>) -> Option<usize> {
    let whole = lo.line == hi.line && match line_numbered(sm, lo.line as int) {
        Some(line) => match (text_before(line, lo.char as int), text_after(line, hi.char as int)) {
            (Some(pre), Some(post)) => all_whitespace(pre) && (text_lines(rep).len() > 1 || all_whitespace(post)),
            _ => false,
        },
        None => false,
    };
    if whole {
        None
    } else if lo.char > 1 {
        Some(lo.char)
    } else {
        Some(1)
    }
}

/// The verb of a suggestion: `add` when the patched text is whitespace,
/// else `replace with`.
pub open spec fn suggestion_verb<'a>(sm: SourceMap<'a>, span: std::ops::Range<usize>) -> Seq<char> {
    match span_chars(sm, span.start as int, span.end as int) {
        Some(t) => if all_whitespace(t) {
            "add"@
        } else {
            "replace with"@
        },
        None => "replace with"@,
    }
}

/// A suggestion in words, over the source map `sm` of its snippet, when it
/// has a patch: unless it follows another suggestion, its position and verb
/// (`add one of` and a line break when more suggestions follow, nothing for
/// a removal); then its replacement, on a line of its own among several
/// suggestions, else between backticks unless it is blank.
pub open spec fn suggestion_text<'a>(
    sm: SourceMap<'a>,
    s: Snippet<'a, Patch<'a>>,
    next_is_suggestion: bool,
    after_suggestion: bool,
    primary: Option<&'a str>,
) -> Seq<char> {
    let p = s.markers@[0];
    let rep = trim_end_newlines(p.replacement@);
    let blank = all_whitespace(rep);
    let head = if after_suggestion {
        Seq::empty()
    } else {
        let (lo, hi) = span_locations(sm, p.span.start as int, p.span.end as int);
        let verb = suggestion_verb(sm, p.span);
        " "@ + path_text(suggestion_path(s.path, primary), Some(lo.line), suggestion_column(sm, lo, hi, rep)) + if next_is_suggestion {
            ", "@ + verb + " one of\n"@
        } else if !blank {
            ", "@ + verb + " "@
        } else {
            Seq::empty()
        }
    };
    head + if next_is_suggestion || after_suggestion {
        "  "@ + rep + "\n"@
    } else if !blank {
        "`"@ + rep + "`"@
    } else {
        Seq::empty()
    }
}

/// A text without its trailing line feeds.
fn trim_newlines_end(t: &str) -> (res: String)
    ensures
        res@ == trim_end_newlines(t@),
{
    let cs = str_chars(t);
    let mut k: usize = cs.len();
    assert(cs@.take(k as int) =~= t@);
    while k > 0 && cs[k - 1] == '\n'
        invariant
            k <= cs@.len(),
            cs@ == t@,
            trim_end_newlines(cs@.take(k as int)) == trim_end_newlines(t@),
        decreases k,
    {
        assert(cs@.take(k as int).drop_last() =~= cs@.take(k - 1));
        k -= 1;
    }
    assert(trim_end_newlines(cs@.take(k as int)) == cs@.take(k as int));
    let mut out = String::new();
    let mut i: usize = 0;
    while i < k
        invariant
            i <= k <= cs@.len(),
            out@ == cs@.take(i as int),
        decreases k - i,
    {
        push_char(&mut out, cs[i]);
        assert(cs@.take(i + 1) =~= cs@.take(i as int).push(cs@[i as int]));
        i += 1;
    }
    proof {
        assert(cs@.take(t@.len() as int) =~= t@);
    }
    out
}

/// What writing a suggestion needs: a source of bounded size whose line
/// numbers fit, not empty when it has patches, and the first patch's ends on
/// character boundaries.
pub open spec fn suggestion_fits<'a>(s: Snippet<'a, Patch<'a>>) -> bool {
    let b = bytes_of(s.source);
    &&& b.len() <= usize::MAX / 4
    &&& s.line_start + cursor_lines(b).len() <= usize::MAX + 1
    &&& s.markers@.len() > 0 ==> {
        let p = s.markers@[0];
        &&& b.len() > 0
        &&& (p.span.start <= b.len() ==> is_boundary(s.source, p.span.start as int))
        &&& (p.span.end <= b.len() ==> is_boundary(s.source, p.span.end as int))
    }
}

fn suggestion_col(sm: &SourceMap, lo: Loc, hi: Loc, rep: &str) -> (res: Option<usize>)
    requires
        sm.wf(),
    ensures
        res == suggestion_column(*sm, lo, hi, rep@),
{
    let mut whole = false;
    if lo.line == hi.line {
        match sm.get_line(lo.line) {
            Some(line) => {
                proof {
                    lemma_line_fits(*sm, lo.line - sm.first_line());
                }
                match (get_before(line, lo.char), get_after(line, hi.char)) {
                    (Some(pre), Some(post)) => {
                        if is_all_whitespace(pre) {
                            let lines = collect_lines(rep);
                            proof {
                                lemma_lines_view(rep, lines@);
                            }
                            whole = lines.len() > 1 || is_all_whitespace(post);
                        }
                    },
                    _ => {},
                }
            },
            None => {},
        }
    }
    if whole {
        None
    } else if lo.char > 1 {
        Some(lo.char)
    } else {
        Some(1)
    }
}

/// Writes a suggestion that has a patch, as `suggestion_text` describes it.
#[verifier::spinoff_prover]
#[verifier::rlimit(40)]
pub fn render_suggestion_with<'a>(
    output: &mut String,
    s: &Snippet<'a, Patch<'a>>,
    sm: &SourceMap<'a>,
    next_is_suggestion: bool,
    after_suggestion: bool,
    primary: Option<&'a str>,
)
    requires
        s.markers@.len() > 0,
        span_requires(*sm, s.markers@[0].span.start as int, s.markers@[0].span.end as int),
    ensures
        final(output)@ == old(output)@ + suggestion_text(*sm, *s, next_is_suggestion, after_suggestion, primary),
{
    proof {
        reveal_strlit(" ");
        reveal_strlit(", ");
        reveal_strlit("add");
        reveal_strlit("replace with");
        reveal_strlit(" one of\n");
        reveal_strlit("  ");
        reveal_strlit("\n");
        reveal_strlit("`");
    }
    let ghost start = output@;
    let p = &s.markers[0];
    let rep = trim_newlines_end(p.replacement);
    let blank = is_all_whitespace(rep.as_str());
    if !after_suggestion {
        let (lo, hi) = sm.span_to_locations(p.span.start..p.span.end);
        let col = suggestion_col(sm, lo, hi, rep.as_str());
        let path: Option<&str> = match (s.path, primary) {
            (Some(a), Some(b)) => if crate::text::str_eq(a, b) {
                None
            } else {
                Some(a)
            },
            _ => None,
        };
        output.append(" ");
        render_path(output, path, Some(lo.line), col);
        let verb: &str = match sm.span_to_snippet(p.span.start..p.span.end) {
            Some(t) => {
                proof {
                    lemma_chars_of_str(t);
                }
                if is_all_whitespace(t) {
                    "add"
                } else {
                    "replace with"
                }
            },
            None => "replace with",
        };
        if next_is_suggestion {
            output.append(", ");
            output.append(verb);
            output.append(" one of\n");
        } else if !blank {
            output.append(", ");
            output.append(verb);
            output.append(" ");
        }
    }
    let ghost mid = output@;
    if next_is_suggestion || after_suggestion {
        output.append("  ");
        output.append(rep.as_str());
        output.append("\n");
    } else if !blank {
        output.append("`");
        output.append(rep.as_str());
        output.append("`");
    }
    assert(output@ =~= start + suggestion_text(*sm, *s, next_is_suggestion, after_suggestion, primary));
}


/// A text with `pad` after each of its line feeds, so that its later lines
/// line up under its first.
pub open spec fn pad_newlines(t: Seq<char>, pad: Seq<char>) -> Seq<char>
    decreases t.len(),
{
    if t.len() == 0 {
        Seq::empty()
    } else {
        pad_newlines(t.drop_last(), pad) + if t.last() == '\n' {
            seq!['\n'] + pad
        } else {
            seq![t.last()]
        }
    }
}

/// The id shown for a title.
pub open spec fn id_of<'a>(id: Option<Id<'a>>) -> Option<&'a str> {
    match id {
        Some(i) => i.id,
        None => None,
    }
}

/// The width of a title's lead in bytes: its level name, a space and its
/// id, and `: `.
pub open spec fn lead_width<'a>(level: Level<'a>, id: Option<&'a str>) -> int {
    (vstd::utf8::encode_utf8(level_text(level)).len() + match id {
        Some(i) => 1 + bytes_of(i).len(),
        None => 0,
    } + 2) as int
}

/// A title or message line: `LEVEL ID: text`, or just the text for a level
/// shown without a name; the text's later lines are indented under its
/// first.
pub open spec fn title_text<'a>(level: Level<'a>, id: Option<&'a str>, text: Seq<char>) -> Seq<char> {
    if level.name == Some(None::<&'a str>) {
        pad_newlines(text, Seq::empty())
    } else {
        level_text(level) + match id {
            Some(i) => " "@ + i@,
            None => Seq::empty(),
        } + ": "@ + pad_newlines(text, repeat_char(' ', lead_width(level, id) as nat))
    }
}

/// The lead of a title fits in `usize`.
pub open spec fn title_fits<'a>(level: Level<'a>, id: Option<&'a str>) -> bool {
    lead_width(level, id) <= usize::MAX
}

/// Writes a title or message line, as `title_text` describes it.
fn render_title_line<'a>(output: &mut String, level: &Level<'a>, id: Option<&'a str>, text: &str)
    requires
        title_fits(*level, id),
    ensures
        final(output)@ == old(output)@ + title_text(*level, id, text@),
{
    proof {
        reveal_strlit(" ");
        reveal_strlit(": ");
    }
    let ghost start = output@;
    let mut label_width: usize = 0;
    let named = match level.name {
        Some(None) => false,
        _ => true,
    };
    if named {
        let name = level.as_str();
        proof {
            lemma_chars_of_str(name);
            vstd::utf8::decode_utf8_encode_utf8(bytes_of(name));
        }
        output.append(name);
        label_width = name.len();
        match id {
            Some(i) => {
                output.append(" ");
                output.append(i);
                label_width = label_width + 1 + i.len();
            },
            None => {},
        }
        output.append(": ");
        label_width = label_width + 2;
        assert(label_width == lead_width(*level, id));
    }
    let ghost mid = output@;
    let ghost pad = repeat_char(' ', label_width as nat);
    let cs = str_chars(text);
    let mut k: usize = 0;
    assert(cs@.take(0) =~= Seq::<char>::empty());
    while k < cs.len()
        invariant
            k <= cs@.len(),
            cs@ == text@,
            pad == repeat_char(' ', label_width as nat),
            output@ == mid + pad_newlines(cs@.take(k as int), pad),
        decreases cs.len() - k,
    {
        assert(cs@.take(k + 1).drop_last() =~= cs@.take(k as int));
        let c = cs[k];
        if c == '\n' {
            push_char(output, '\n');
            push_spaces(output, label_width);
        } else {
            push_char(output, c);
        }
        k += 1;
    }
    assert(cs@.take(k as int) =~= text@);
    if !named {
        assert(label_width == 0);
        assert(pad =~= Seq::<char>::empty());
    }
    assert(output@ =~= start + title_text(*level, id, text@));
}

/// A line break when something follows.
pub open spec fn break_if(has_next: bool) -> Seq<char> {
    if has_next {
        seq!['\n']
    } else {
        Seq::empty()
    }
}

/// The next element is a suggestion.
pub open spec fn next_is_suggestion<'a>(els: Seq<Element<'a>>, e: int) -> bool {
    e + 1 < els.len() && els[e + 1] is Suggestion
}

/// One element of a group in words, over its source map `sm`, given
/// whether another element follows, whether that is a suggestion, and
/// whether this one follows a suggestion; with whether the next element
/// follows a suggestion. Titles after a group's first element are written
/// as messages with their ids; a suggestion without a patch and padding
/// write nothing.
pub open spec fn element_text<'a>(
    el: Element<'a>,
    sm: SourceMap<'a>,
    has_next: bool,
    next_sugg: bool,
    after: bool,
    primary: Option<&'a str>,
) -> (Seq<char>, bool) {
    match el {
        Element::Title(t) => (title_text(t.level, id_of(t.id), t.text@) + break_if(has_next), false),
        Element::Message(m) => (title_text(m.level, None, m.text@) + break_if(has_next), false),
        Element::Cause(c) => (cause_text(sm, c, has_next), false),
        Element::Suggestion(sg) => if sg.markers@.len() == 0 {
            (Seq::empty(), after)
        } else {
            (suggestion_text(sm, sg, next_sugg, after, primary), true)
        },
        Element::Origin(o) => (" "@ + path_text(Some(o.path), o.line, o.char_column) + break_if(has_next), false),
        Element::Padding(_) => (Seq::empty(), after),
    }
}

/// Elements `from .. n` of a group in words, starting after a suggestion or
/// not; with whether the element after them follows a suggestion.
pub open spec fn elements_upto<'a>(
    els: Seq<Element<'a>>,
    from: int,
    n: int,
    maps: Seq<SourceMap<'a>>,
    primary: Option<&'a str>,
) -> (Seq<char>, bool)
    decreases n - from,
{
    if n <= from {
        (Seq::empty(), false)
    } else {
        let (t, a) = elements_upto(els, from, n - 1, maps, primary);
        let (u, a2) = element_text(els[n - 1], maps[n - 1], n < els.len(), next_is_suggestion(els, n - 1), a, primary);
        (t + u, a2)
    }
}

/// Some element from `from` on is not padding.
pub open spec fn has_content<'a>(els: Seq<Element<'a>>, from: int) -> bool {
    exists|e: int| from <= e < els.len() && !(#[trigger] els[e] is Padding)
}

/// A group in words: its title line when its first element is a title
/// (ended by a line break when more follows in the group or the report),
/// then its other elements.
pub open spec fn group_text<'a>(
    g: Group<'a>,
    has_next_group: bool,
    maps: Seq<SourceMap<'a>>,
    primary: Option<&'a str>,
) -> Seq<char> {
    let els = g.elements@;
    if els.len() > 0 && els[0] is Title {
        let t = els[0]->Title_0;
        title_text(t.level, id_of(t.id), t.text@) + break_if(has_next_group || has_content(els, 1)) + elements_upto(
            els,
            1,
            els.len() as int,
            maps,
            primary,
        ).0
    } else {
        elements_upto(els, 0, els.len() as int, maps, primary).0
    }
}

/// The first `n` groups of a report in words, a line break between groups
/// when the text does not already end in one.
pub open spec fn report_text<'a>(
    groups: Seq<Group<'a>>,
    n: int,
    maps: Seq<Seq<SourceMap<'a>>>,
    primary: Option<&'a str>,
) -> Seq<char>
    decreases n,
{
    if n <= 0 {
        Seq::empty()
    } else {
        let o = report_text(groups, n - 1, maps, primary) + group_text(groups[n - 1], n < groups.len(), maps[n - 1], primary);
        if n < groups.len() && o.len() > 0 && o.last() != '\n' {
            o.push('\n')
        } else {
            o
        }
    }
}

/// The primary path of a group: that of its first cause, or of its first
/// origin, whichever comes first.
pub open spec fn group_primary<'a>(els: Seq<Element<'a>>, from: int) -> Option<&'a str>
    decreases els.len() - from,
{
    if from < 0 || from >= els.len() {
        None
    } else {
        match els[from] {
            Element::Cause(c) => c.path,
            Element::Origin(o) => Some(o.path),
            _ => group_primary(els, from + 1),
        }
    }
}

/// The primary path of a report: that of its first group that has one.
pub open spec fn report_primary<'a>(groups: Seq<Group<'a>>, from: int) -> Option<&'a str>
    decreases groups.len() - from,
{
    if from < 0 || from >= groups.len() {
        None
    } else {
        match group_primary(groups[from].elements@, 0) {
            Some(p) => Some(p),
            None => report_primary(groups, from + 1),
        }
    }
}

/// `sm` is a source map of `source` with lines numbered from `line_start`.
pub open spec fn maps_source<'a>(sm: SourceMap<'a>, source: &'a str, line_start: usize) -> bool {
    sm.wf() && sm.source == source && (sm.lines@.len() > 0 ==> sm.first_line() == line_start)
}

/// `maps` holds, for each cause and suggestion of the report, a source map
/// of its snippet.
pub open spec fn maps_fit<'a>(groups: Seq<Group<'a>>, maps: Seq<Seq<SourceMap<'a>>>) -> bool {
    &&& maps.len() == groups.len()
    &&& forall|g: int| 0 <= g < groups.len() ==> (#[trigger] maps[g]).len() == groups[g].elements@.len()
    &&& forall|g: int, e: int|
        0 <= g < groups.len() && 0 <= e < groups[g].elements@.len() ==> match #[trigger] groups[g].elements@[e] {
            Element::Cause(c) => maps_source(maps[g][e], c.source, c.line_start),
            Element::Suggestion(s) => maps_source(maps[g][e], s.source, s.line_start),
            _ => true,
        }
}

/// What a report needs to be written in words: every cause and suggestion
/// fits its source, and every title and message lead fits in `usize`.
pub open spec fn report_fits<'a>(groups: Seq<Group<'a>>) -> bool {
    forall|g: int, e: int|
        0 <= g < groups.len() && 0 <= e < groups[g].elements@.len() ==> match #[trigger] groups[g].elements@[e] {
            Element::Title(t) => title_fits(t.level, id_of(t.id)),
            Element::Message(m) => title_fits(m.level, None),
            Element::Cause(c) => cause_fits(c),
            Element::Suggestion(s) => suggestion_fits(s),
            _ => true,
        }
}


/// The source maps as sequences.
pub open spec fn maps_view<'a>(v: Seq<Vec<SourceMap<'a>>>) -> Seq<Seq<SourceMap<'a>>> {
    v.map_values(|r: Vec<SourceMap<'a>>| r@)
}

proof fn lemma_cause_spans<'a>(c: Snippet<'a, Annotation<'a>>, sm: SourceMap<'a>)
    requires
        cause_fits(c),
        maps_source(sm, c.source, c.line_start),
    ensures
        spans_fit(sm, c.markers@),
{
    let b = bytes_of(c.source);
    if c.markers@.len() > 0 {
        assert(cursor_lines(b).len() > 0);
    }
}

proof fn lemma_suggestion_span<'a>(s: Snippet<'a, Patch<'a>>, sm: SourceMap<'a>)
    requires
        suggestion_fits(s),
        maps_source(sm, s.source, s.line_start),
        s.markers@.len() > 0,
    ensures
        span_requires(sm, s.markers@[0].span.start as int, s.markers@[0].span.end as int),
{
    assert(cursor_lines(bytes_of(s.source)).len() > 0);
}

/// The source map of each cause and suggestion of the report, and of an
/// empty source for the other elements, all made before anything is
/// written.
fn source_maps<'a>(groups: &[Group<'a>]) -> (res: Vec<Vec<SourceMap<'a>>>)
    requires
        report_fits(groups@),
    ensures
        maps_fit(groups@, maps_view(res@)),
{
    let mut res: Vec<Vec<SourceMap<'a>>> = Vec::new();
    let mut g: usize = 0;
    while g < groups.len()
        invariant
            g <= groups@.len(),
            report_fits(groups@),
            res@.len() == g,
            forall|h: int| 0 <= h < g ==> (#[trigger] res@[h])@.len() == groups@[h].elements@.len(),
            forall|h: int, e: int|
                0 <= h < g && 0 <= e < groups@[h].elements@.len() ==> match #[trigger] groups@[h].elements@[e] {
                    Element::Cause(c) => maps_source(res@[h]@[e], c.source, c.line_start),
                    Element::Suggestion(s) => maps_source(res@[h]@[e], s.source, s.line_start),
                    _ => true,
                },
        decreases groups.len() - g,
    {
        let els = &groups[g].elements;
        let mut row: Vec<SourceMap<'a>> = Vec::new();
        let mut e: usize = 0;
        while e < els.len()
            invariant
                e <= els@.len(),
                els@ == groups@[g as int].elements@,
                g < groups@.len(),
                report_fits(groups@),
                row@.len() == e,
                forall|f: int| 0 <= f < e ==> match #[trigger] els@[f] {
                    Element::Cause(c) => maps_source(row@[f], c.source, c.line_start),
                    Element::Suggestion(s) => maps_source(row@[f], s.source, s.line_start),
                    _ => true,
                },
            decreases els.len() - e,
        {
            assert(match groups@[g as int].elements@[e as int] {
                Element::Title(t) => title_fits(t.level, id_of(t.id)),
                Element::Message(m) => title_fits(m.level, None),
                Element::Cause(c) => cause_fits(c),
                Element::Suggestion(s) => suggestion_fits(s),
                _ => true,
            });
            let sm = match &els[e] {
                Element::Cause(c) => SourceMap::new(c.source, c.line_start),
                Element::Suggestion(s) => SourceMap::new(s.source, s.line_start),
                _ => {
                    proof {
                        reveal_strlit("");
                        crate::text::lemma_empty_str("");
                    }
                    SourceMap::new("", 0)
                },
            };
            row.push(sm);
            e += 1;
        }
        res.push(row);
        g += 1;
    }
    res
}

pub(crate) fn find_group_primary<'a>(els: &Vec<Element<'a>>) -> (res: Option<&'a str>)
    ensures
        res == group_primary(els@, 0),
{
    let mut i: usize = 0;
    while i < els.len()
        invariant
            i <= els@.len(),
            group_primary(els@, i as int) == group_primary(els@, 0),
        decreases els.len() - i,
    {
        match &els[i] {
            Element::Cause(c) => {
                return c.path;
            },
            Element::Origin(o) => {
                return Some(o.path);
            },
            _ => {},
        }
        i += 1;
    }
    None
}

pub(crate) fn find_report_primary<'a>(groups: &[Group<'a>]) -> (res: Option<&'a str>)
    ensures
        res == report_primary(groups@, 0),
{
    let mut i: usize = 0;
    while i < groups.len()
        invariant
            i <= groups@.len(),
            report_primary(groups@, i as int) == report_primary(groups@, 0),
        decreases groups.len() - i,
    {
        match find_group_primary(&groups[i].elements) {
            Some(p) => {
                return Some(p);
            },
            None => {},
        }
        i += 1;
    }
    None
}

fn title_id<'a>(id: Option<Id<'a>>) -> (res: Option<&'a str>)
    ensures
        res == id_of(id),
{
    match id {
        Some(i) => i.id,
        None => None,
    }
}


/// Writes the elements of a group from `from` on, as `elements_upto`
/// describes them.
#[verifier::spinoff_prover]
#[verifier::rlimit(60)]
fn render_elements<'a>(
    output: &mut String,
    els: &Vec<Element<'a>>,
    from: usize,
    maps: &Vec<SourceMap<'a>>,
    primary: Option<&'a str>,
)
    requires
        from <= els@.len(),
        maps@.len() == els@.len(),
        forall|e: int| 0 <= e < els@.len() ==> match #[trigger] els@[e] {
            Element::Title(t) => title_fits(t.level, id_of(t.id)),
            Element::Message(m) => title_fits(m.level, None),
            Element::Cause(c) => cause_fits(c),
            Element::Suggestion(s) => suggestion_fits(s),
            _ => true,
        },
        forall|e: int| 0 <= e < els@.len() ==> match #[trigger] els@[e] {
            Element::Cause(c) => maps_source(maps@[e], c.source, c.line_start),
            Element::Suggestion(s) => maps_source(maps@[e], s.source, s.line_start),
            _ => true,
        },
    ensures
        final(output)@ == old(output)@ + elements_upto(els@, from as int, els@.len() as int, maps@, primary).0,
{
    proof {
        reveal_strlit(" ");
    }
    let ghost start = output@;
    let mut after = false;
    let mut e: usize = from;
    while e < els.len()
        invariant
            from <= e <= els@.len(),
            maps@.len() == els@.len(),
            forall|f: int| 0 <= f < els@.len() ==> match #[trigger] els@[f] {
                Element::Title(t) => title_fits(t.level, id_of(t.id)),
                Element::Message(m) => title_fits(m.level, None),
                Element::Cause(c) => cause_fits(c),
                Element::Suggestion(s) => suggestion_fits(s),
                _ => true,
            },
            forall|f: int| 0 <= f < els@.len() ==> match #[trigger] els@[f] {
                Element::Cause(c) => maps_source(maps@[f], c.source, c.line_start),
                Element::Suggestion(s) => maps_source(maps@[f], s.source, s.line_start),
                _ => true,
            },
            output@ == start + elements_upto(els@, from as int, e as int, maps@, primary).0,
            after == elements_upto(els@, from as int, e as int, maps@, primary).1,
        decreases els.len() - e,
    {
        let ghost prev = output@;
        let has_next = e + 1 < els.len();
        let next_sugg = has_next && matches!(els[e + 1], Element::Suggestion(_));
        assert(next_sugg == next_is_suggestion(els@, e as int));
        let ghost el = els@[e as int];
        assert(match el {
            Element::Title(t) => title_fits(t.level, id_of(t.id)),
            Element::Message(m) => title_fits(m.level, None),
            Element::Cause(c) => cause_fits(c),
            Element::Suggestion(s) => suggestion_fits(s),
            _ => true,
        });
        assert(match el {
            Element::Cause(c) => maps_source(maps@[e as int], c.source, c.line_start),
            Element::Suggestion(s) => maps_source(maps@[e as int], s.source, s.line_start),
            _ => true,
        });
        let ghost step = element_text(el, maps@[e as int], has_next, next_sugg, after, primary);
        match &els[e] {
            Element::Title(t) => {
                render_title_line(output, &t.level, title_id(t.id), t.text);
                if has_next {
                    push_char(output, '\n');
                }
                after = false;
            },
            Element::Message(m) => {
                render_title_line(output, &m.level, None, m.text);
                if has_next {
                    push_char(output, '\n');
                }
                after = false;
            },
            Element::Cause(c) => {
                proof {
                    lemma_cause_spans(*c, maps@[e as int]);
                }
                render_cause_with(output, c, &maps[e], has_next);
                after = false;
            },
            Element::Suggestion(sg) => {
                if sg.markers.len() > 0 {
                    proof {
                        lemma_suggestion_span(*sg, maps@[e as int]);
                    }
                    render_suggestion_with(output, sg, &maps[e], next_sugg, after, primary);
                    after = true;
                }
            },
            Element::Origin(o) => {
                render_origin(output, o, has_next);
                after = false;
            },
            Element::Padding(_) => {},
        }
        assert(output@ =~= prev + step.0);
        assert(after == step.1);
        e += 1;
    }
}

/// Whether an element from `from` on is not padding.
fn content_from<'a>(els: &Vec<Element<'a>>, from: usize) -> (res: bool)
    ensures
        res == has_content(els@, from as int),
{
    let mut i: usize = from;
    while i < els.len()
        invariant
            from <= i,
            forall|f: int| from <= f < i && f < els@.len() ==> (#[trigger] els@[f]) is Padding,
        decreases els.len() - i,
    {
        let padding = match &els[i] {
            Element::Padding(_) => true,
            _ => false,
        };
        if !padding {
            assert(!(els@[i as int] is Padding));
            return true;
        }
        i += 1;
    }
    assert(!has_content(els@, from as int));
    false
}

/// Renders a report as text only, one line per title, message, cause
/// position, origin and suggestion:
///
/// ```text
/// error EXXXX: main message
///  at $DIR/file.ext:LL:CC: span label
///   on line LL, column KK: span label
/// note: note message
///  at $DIR/file.ext:LL:CC
/// help: suggestion message
///   on line LL, add `suggestion`
/// ```
///
/// as `report_text` describes it, over a source map of each cause and
/// suggestion, with the path of a suggestion shown only where it differs
/// from the report's primary path.
pub fn render_no_graphics<'a>(groups: &[Group<'a>]) -> (res: String)
    requires
        report_fits(groups@),
    ensures
        exists|maps: Seq<Seq<SourceMap<'a>>>|
            maps_fit(groups@, maps) && res@ == report_text(
                groups@,
                groups@.len() as int,
                maps,
                report_primary(groups@, 0),
            ),
{
    let maps = source_maps(groups);
    let ghost mv = maps_view(maps@);
    let primary = find_report_primary(groups);
    let mut output = String::new();
    let mut gi: usize = 0;
    while gi < groups.len()
        invariant
            gi <= groups@.len(),
            report_fits(groups@),
            maps_fit(groups@, mv),
            mv == maps_view(maps@),
            maps@.len() == groups@.len(),
            primary == report_primary(groups@, 0),
            output@ == report_text(groups@, gi as int, mv, primary),
        decreases groups.len() - gi,
    {
        let ghost prev = output@;
        let els = &groups[gi].elements;
        assert(mv[gi as int] == maps@[gi as int]@);
        assert(maps@[gi as int]@.len() == els@.len());
        assert forall|e: int| 0 <= e < els@.len() implies match #[trigger] els@[e] {
            Element::Title(t) => title_fits(t.level, id_of(t.id)),
            Element::Message(m) => title_fits(m.level, None),
            Element::Cause(c) => cause_fits(c),
            Element::Suggestion(s) => suggestion_fits(s),
            _ => true,
        } by {
            assert(groups@[gi as int].elements@[e] == els@[e]);
        }
        assert forall|e: int| 0 <= e < els@.len() implies match #[trigger] els@[e] {
            Element::Cause(c) => maps_source(maps@[gi as int]@[e], c.source, c.line_start),
            Element::Suggestion(s) => maps_source(maps@[gi as int]@[e], s.source, s.line_start),
            _ => true,
        } by {
            assert(groups@[gi as int].elements@[e] == els@[e]);
        }
        let has_next_group = gi + 1 < groups.len();
        let mut from: usize = 0;
        if els.len() > 0 {
            match &els[0] {
                Element::Title(t) => {
                    assert(title_fits(t.level, id_of(t.id)));
                    render_title_line(&mut output, &t.level, title_id(t.id), t.text);
                    let content = content_from(els, 1);
                    if has_next_group || content {
                        push_char(&mut output, '\n');
                    }
                    from = 1;
                },
                _ => {},
            }
        }
        render_elements(&mut output, els, from, &maps[gi], primary);
        let ghost o = output@;
        assert(o =~= prev + group_text(groups@[gi as int], has_next_group, mv[gi as int], primary));
        if has_next_group {
            let n = output.as_str().unicode_len();
            if n > 0 && output.as_str().get_char(n - 1) != '\n' {
                push_char(&mut output, '\n');
            }
        }
        gi += 1;
    }
    output
}


/// A suggestion whose first patch covers no text or only whitespace (an
/// insertion) is worded with the verb `add`: unless it is blank, its text
/// ends with ``, add `R` `` (`R` its replacement), or, when more
/// suggestions follow, with `, add one of`, a line end and `R` on a line of
/// its own.
pub proof fn law_insertion_is_added<'a>(
    sm: SourceMap<'a>,
    s: Snippet<'a, Patch<'a>>,
    next_is_suggestion: bool,
    primary: Option<&'a str>,
    covered: Seq<char>,
)
    requires
        s.markers@.len() > 0,
        span_chars(sm, s.markers@[0].span.start as int, s.markers@[0].span.end as int) == Some(covered),
        all_whitespace(covered),
    ensures
        ({
            let rep = trim_end_newlines(s.markers@[0].replacement@);
            let text = suggestion_text(sm, s, next_is_suggestion, false, primary);
            let tail = if next_is_suggestion {
                seq![',', ' ', 'a', 'd', 'd', ' ', 'o', 'n', 'e', ' ', 'o', 'f', '\n', ' ', ' '] + rep + seq!['\n']
            } else {
                seq![',', ' ', 'a', 'd', 'd', ' ', '`'] + rep + seq!['`']
            };
            (next_is_suggestion || !all_whitespace(rep)) ==> {
                &&& text.len() >= tail.len()
                &&& text.subrange(text.len() - tail.len(), text.len() as int) == tail
            }
        }),
{
    reveal_strlit(", ");
    reveal_strlit("add");
    reveal_strlit(" one of\n");
    reveal_strlit("  ");
    reveal_strlit("\n");
    reveal_strlit("`");
    reveal_strlit(" ");
    let p = s.markers@[0];
    let rep = trim_end_newlines(p.replacement@);
    let text = suggestion_text(sm, s, next_is_suggestion, false, primary);
    assert(suggestion_verb(sm, p.span) == "add"@);
    let (lo, hi) = span_locations(sm, p.span.start as int, p.span.end as int);
    let pos = " "@ + path_text(suggestion_path(s.path, primary), Some(lo.line), suggestion_column(sm, lo, hi, rep));
    if next_is_suggestion {
        let tail = seq![',', ' ', 'a', 'd', 'd', ' ', 'o', 'n', 'e', ' ', 'o', 'f', '\n', ' ', ' '] + rep + seq!['\n'];
        assert(", "@ + "add"@ + " one of\n"@ + "  "@ + rep + "\n"@ =~= tail);
        assert(text =~= pos + tail);
        assert(text.subrange(text.len() - tail.len(), text.len() as int) =~= tail);
    } else if !all_whitespace(rep) {
        let tail = seq![',', ' ', 'a', 'd', 'd', ' ', '`'] + rep + seq!['`'];
        assert(", "@ + "add"@ + " "@ + "`"@ + rep + "`"@ =~= tail);
        assert(text =~= pos + tail);
        assert(text.subrange(text.len() - tail.len(), text.len() as int) =~= tail);
    }
}


/// A suggestion whose first patch covers text that is not all whitespace is
/// worded with the verb `replace with`: unless its replacement `R` is blank,
/// its text ends with ``, replace with `R` `` (or, when more suggestions
/// follow, `, replace with one of`, a line end and `R` on a line of its own).
pub proof fn law_replacement_is_replaced<'a>(
    sm: SourceMap<'a>,
    s: Snippet<'a, Patch<'a>>,
    next_is_suggestion: bool,
    primary: Option<&'a str>,
    covered: Seq<char>,
)
    requires
        s.markers@.len() > 0,
        span_chars(sm, s.markers@[0].span.start as int, s.markers@[0].span.end as int) == Some(covered),
        !all_whitespace(covered),
    ensures
        ({
            let rep = trim_end_newlines(s.markers@[0].replacement@);
            let text = suggestion_text(sm, s, next_is_suggestion, false, primary);
            let verb = seq!['r', 'e', 'p', 'l', 'a', 'c', 'e', ' ', 'w', 'i', 't', 'h'];
            let tail = if next_is_suggestion {
                seq![',', ' '] + verb + seq![' ', 'o', 'n', 'e', ' ', 'o', 'f', '\n', ' ', ' '] + rep + seq!['\n']
            } else {
                seq![',', ' '] + verb + seq![' ', '`'] + rep + seq!['`']
            };
            (next_is_suggestion || !all_whitespace(rep)) ==> {
                &&& text.len() >= tail.len()
                &&& text.subrange(text.len() - tail.len(), text.len() as int) == tail
            }
        }),
{
    reveal_strlit(", ");
    reveal_strlit("replace with");
    reveal_strlit(" one of\n");
    reveal_strlit("  ");
    reveal_strlit("\n");
    reveal_strlit("`");
    reveal_strlit(" ");
    let p = s.markers@[0];
    let rep = trim_end_newlines(p.replacement@);
    let text = suggestion_text(sm, s, next_is_suggestion, false, primary);
    let verb = seq!['r', 'e', 'p', 'l', 'a', 'c', 'e', ' ', 'w', 'i', 't', 'h'];
    assert(suggestion_verb(sm, p.span) == "replace with"@);
    assert("replace with"@ =~= verb);
    let (lo, hi) = span_locations(sm, p.span.start as int, p.span.end as int);
    let pos = " "@ + path_text(suggestion_path(s.path, primary), Some(lo.line), suggestion_column(sm, lo, hi, rep));
    if next_is_suggestion {
        let tail = seq![',', ' '] + verb + seq![' ', 'o', 'n', 'e', ' ', 'o', 'f', '\n', ' ', ' '] + rep + seq!['\n'];
        assert(", "@ + "replace with"@ + " one of\n"@ + "  "@ + rep + "\n"@ =~= tail);
        assert(text =~= pos + tail);
        assert(text.subrange(text.len() - tail.len(), text.len() as int) =~= tail);
    } else if !all_whitespace(rep) {
        let tail = seq![',', ' '] + verb + seq![' ', '`'] + rep + seq!['`'];
        assert(", "@ + "replace with"@ + " "@ + "`"@ + rep + "`"@ =~= tail);
        assert(text =~= pos + tail);
        assert(text.subrange(text.len() - tail.len(), text.len() as int) =~= tail);
    }
}

} // verus!
