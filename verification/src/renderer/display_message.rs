//! Laying out a whole message: its title, its snippets and its footers.
use vstd::prelude::*;

use crate::cursor_line::cursor_lines;
use crate::input::Level;
use crate::message::{lemma_message_footer_view, Message, MessageModel, SnippetModel};
use crate::renderer::display_body::{
    body_requires, fold_prefix_suffix, fold_requires, format_snippet, spec_body_lines, spec_body_margin,
    spec_fold_prefix_suffix, spec_format_header,
};
use crate::renderer::display_list::{
    annotation_type_of, format_footer, format_title, lines_view, AnnotationView, DisplayLine, DisplayList, DisplaySet,
    DisplayTextStyle, FragmentView, LineView, Margin, RawLineView,
};

verus! {

/// What `format_snippet` needs of a snippet once it has been folded.
pub open spec fn snippet_requires(s: SnippetModel) -> bool {
    &&& s.fold ==> fold_requires(s)
    &&& body_requires(spec_fold_prefix_suffix(s))
}

/// What `format_message` needs: every snippet, in the message and in its
/// footer messages, can be folded and formatted.
pub open spec fn message_requires(m: MessageModel) -> bool
    decreases m,
{
    &&& forall|i: int| 0 <= i < m.snippets.len() ==> snippet_requires(#[trigger] m.snippets[i])
    &&& forall|i: int|
        0 <= i < m.footer.len() ==> {
            proof {
                assert(decreases_to!(m => m.footer));
            }
            message_requires(#[trigger] m.footer[i])
        }
}

pub open spec fn title_line_view(level: Level, id: Option<Seq<u8>>, title: Seq<u8>) -> LineView {
    LineView::Raw(
        RawLineView::Annotation {
            annotation: AnnotationView {
                annotation_type: annotation_type_of(level),
                id,
                label: seq![FragmentView { content: title, style: DisplayTextStyle::Emphasis }],
            },
            source_aligned: false,
            continuation: false,
        },
    )
}

pub open spec fn footer_line_views(level: Level, id: Option<Seq<u8>>, text: Seq<u8>) -> Seq<LineView> {
    Seq::new(
        cursor_lines(text).len(),
        |i: int|
            LineView::Raw(
                RawLineView::Annotation {
                    annotation: AnnotationView {
                        annotation_type: annotation_type_of(level),
                        id,
                        label: seq![FragmentView { content: cursor_lines(text)[i].0, style: DisplayTextStyle::Regular }],
                    },
                    source_aligned: true,
                    continuation: i != 0,
                },
            ),
    )
}

/// The lines and margin of one snippet of a message.
pub open spec fn snippet_set(
    s: SnippetModel,
    is_first: bool,
    has_footer: bool,
    term_width: usize,
    anonymized: bool,
) -> (Seq<LineView>, Margin) {
    let f = spec_fold_prefix_suffix(s);
    let main = if f.annotations.len() > 0 {
        Some(f.annotations[0].start)
    } else {
        None
    };
    let body = spec_body_lines(f, f.origin is Some || is_first, has_footer);
    (
        match spec_format_header(f.origin, main, body, is_first) {
            Some(h) => seq![h] + body,
            None => body,
        },
        spec_body_margin(f, term_width, anonymized),
    )
}

pub open spec fn default_margin() -> Margin {
    Margin {
        whitespace_left: 0,
        span_left: 0,
        span_right: 0,
        label_right: 0,
        column_width: 140,
        max_line_len: 0,
    }
}

/// The lines that head a message: its title when it has snippets or is the
/// primary message, else its text laid out as footer lines.
pub open spec fn message_title_lines(m: MessageModel, primary: bool) -> Seq<LineView> {
    if m.snippets.len() > 0 || primary {
        seq![title_line_view(m.level, m.id, m.title)]
    } else {
        footer_line_views(m.level, m.id, m.title)
    }
}

/// One display set per snippet of the message.
pub open spec fn message_snippet_sets(m: MessageModel, term_width: usize, anonymized: bool) -> Seq<
    (Seq<LineView>, Margin),
> {
    Seq::new(
        m.snippets.len(),
        |i: int| snippet_set(m.snippets[i], i == 0, m.footer.len() > 0, term_width, anonymized),
    )
}

/// The sets of the message itself: the title lines go in front of the first
/// snippet's lines (each put at the front in turn, so they come out in
/// reverse order), or form a set of their own when there is no snippet.
pub open spec fn message_head_sets(
    m: MessageModel,
    term_width: usize,
    anonymized: bool,
    primary: bool,
) -> Seq<(Seq<LineView>, Margin)> {
    let body = message_title_lines(m, primary);
    let sets = message_snippet_sets(m, term_width, anonymized);
    if sets.len() > 0 {
        sets.update(0, (body.reverse() + sets[0].0, sets[0].1))
    } else {
        seq![(body, default_margin())]
    }
}

/// The sets of each footer message, laid out as footers.
pub open spec fn footer_sets(m: MessageModel, term_width: usize, anonymized: bool) -> Seq<
    Seq<(Seq<LineView>, Margin)>,
>
    decreases m, 0int,
{
    Seq::new(
        m.footer.len(),
        |i: int|
            if 0 <= i < m.footer.len() {
                proof {
                    assert(decreases_to!(m => m.footer));
                }
                spec_format_message(m.footer[i], term_width, anonymized, false)
            } else {
                Seq::empty()
            },
    )
}

/// The display sets of a message: its own sets, then those of each footer
/// message in turn.
pub open spec fn spec_format_message(
    m: MessageModel,
    term_width: usize,
    anonymized: bool,
    primary: bool,
) -> Seq<(Seq<LineView>, Margin)>
    decreases m, 1int,
{
    message_head_sets(m, term_width, anonymized, primary) + footer_sets(m, term_width, anonymized).flatten()
}

pub open spec fn sets_view<'a>(sets: Seq<DisplaySet<'a>>) -> Seq<(Seq<LineView>, Margin)> {
    sets.map_values(|s: DisplaySet<'a>| (lines_view(s.display_lines@), s.margin))
}

} // verus!

verus! {

fn reversed<T>(v: Vec<T>) -> (r: Vec<T>)
    ensures
        r@ == v@.reverse(),
{
    let ghost v0 = v@;
    let mut v = v;
    let mut r: Vec<T> = Vec::new();
    while v.len() > 0
        invariant
            v@ + r@.reverse() == v0,
        decreases v.len(),
    {
        let ghost b0 = v@;
        let ghost r0 = r@;
        let x = v.pop().unwrap();
        r.push(x);
        assert(r@.reverse() =~= seq![x] + r0.reverse());
        assert(b0 =~= v@.push(x));
        assert(v@ + r@.reverse() =~= b0 + r0.reverse());
    }
    assert(r@.reverse() =~= v0);
    assert(r@ =~= r@.reverse().reverse());
    r
}

/// The display sets of a message and of its footer messages.
pub fn format_message<'a>(
    message: Message<'a>,
    term_width: usize,
    anonymized_line_numbers: bool,
    primary: bool,
) -> (res: Vec<DisplaySet<'a>>)
    requires
        message_requires(message@),
    ensures
        sets_view(res@) == spec_format_message(message@, term_width, anonymized_line_numbers, primary),
    decreases message,
{
    let ghost m = message@;
    let ghost msg = message;
    proof {
        lemma_message_footer_view(message);
    }
    let Message { level, id, title, snippets, footer } = message;
    let ghost body_v = message_title_lines(m, primary);
    let body = if snippets.len() > 0 || primary {
        let t = format_title(level, id, title);
        let mut v: Vec<DisplayLine<'a>> = Vec::new();
        v.push(t);
        assert(t@ == title_line_view(m.level, m.id, m.title)) by {
            assert(t@->Raw_0->Annotation_annotation.label =~= seq![
                FragmentView { content: m.title, style: DisplayTextStyle::Emphasis },
            ]);
        }
        assert(lines_view(v@) =~= body_v);
        v
    } else {
        let v = format_footer(level, id, title);
        assert forall|i: int| 0 <= i < v@.len() implies #[trigger] lines_view(v@)[i] == body_v[i] by {
            let l = v@[i];
            assert(l@->Raw_0->Annotation_annotation.label =~= seq![
                FragmentView { content: cursor_lines(m.title)[i].0, style: DisplayTextStyle::Regular },
            ]);
        }
        assert(lines_view(v@) =~= body_v);
        v
    };
    let has_footer = footer.len() > 0;
    let ghost sets_spec = message_snippet_sets(m, term_width, anonymized_line_numbers);
    let mut sets: Vec<DisplaySet<'a>> = Vec::new();
    let mut rev = reversed(snippets);
    let ghost n = m.snippets.len();
    let mut idx: usize = 0;
    let mut body_opt = Some(body);
    while rev.len() > 0
        invariant
            idx <= n,
            n == m.snippets.len(),
            n <= usize::MAX,
            has_footer == (m.footer.len() > 0),
            sets_spec == message_snippet_sets(m, term_width, anonymized_line_numbers),
            forall|i: int| 0 <= i < n ==> snippet_requires(#[trigger] m.snippets[i]),
            rev@.len() == n - idx,
            forall|j: int| 0 <= j < rev@.len() ==> (#[trigger] rev@[j])@ == m.snippets[n - 1 - j],
            sets@.len() == idx,
            idx == 0 <==> body_opt is Some,
            body_opt matches Some(b) ==> lines_view(b@) == body_v,
            forall|j: int|
                0 <= j < idx ==> #[trigger] sets_view(sets@)[j] == (if j == 0 {
                    (body_v.reverse() + sets_spec[0].0, sets_spec[0].1)
                } else {
                    sets_spec[j]
                }),
        decreases rev.len(),
    {
        let ghost r0 = rev@;
        let s = rev.pop().unwrap();
        assert(s@ == m.snippets[idx as int]) by {
            assert(r0[r0.len() - 1] == s);
        }
        assert(snippet_requires(m.snippets[idx as int]));
        let f = fold_prefix_suffix(s);
        let mut set = format_snippet(f, idx == 0, has_footer, term_width, anonymized_line_numbers);
        assert((lines_view(set.display_lines@), set.margin) == sets_spec[idx as int]);
        if let Some(b) = body_opt {
            let mut b = b;
            let ghost first = lines_view(set.display_lines@);
            let ghost bv = lines_view(b@);
            let mut k: usize = 0;
            let blen = b.len();
            let mut brev = reversed(b);
            while brev.len() > 0
                invariant
                    k <= blen,
                    bv.len() == blen,
                    brev@.len() == blen - k,
                    forall|j: int| 0 <= j < brev@.len() ==> (#[trigger] brev@[j])@ == bv[blen - 1 - j],
                    lines_view(set.display_lines@) == bv.take(k as int).reverse() + first,
                    set.margin == sets_spec[0].1,
                decreases brev.len(),
            {
                let ghost r1 = brev@;
                let line = brev.pop().unwrap();
                assert(line@ == bv[k as int]) by {
                    assert(r1[r1.len() - 1] == line);
                }
                let ghost before = lines_view(set.display_lines@);
                set.display_lines.insert(0, line);
                assert(lines_view(set.display_lines@) =~= seq![line@] + before);
                assert(bv.take(k + 1).reverse() =~= seq![bv[k as int]] + bv.take(k as int).reverse());
                k += 1;
            }
            assert(bv.take(k as int) =~= bv);
            body_opt = None;
        }
        let ghost sv = sets_view(sets@);
        sets.push(set);
        assert(sets_view(sets@) =~= sv.push((lines_view(set.display_lines@), set.margin)));
        idx += 1;
    }
    if let Some(b) = body_opt {
        let set = DisplaySet { display_lines: b, margin: Margin::new(0, 0, 0, 0, 140, 0) };
        sets.push(set);
    }
    let ghost head = message_head_sets(m, term_width, anonymized_line_numbers, primary);
    assert(sets_view(sets@) =~= head);
    let ghost footers = footer_sets(m, term_width, anonymized_line_numbers);
    assert(spec_format_message(m, term_width, anonymized_line_numbers, primary) == head + footers.flatten());
    let nf = footer.len();
    let mut frev = reversed(footer);
    let mut fi: usize = 0;
    assert(footers.take(0).flatten() =~= Seq::<(Seq<LineView>, Margin)>::empty());
    while frev.len() > 0
        invariant
            fi <= nf,
            nf == m.footer.len(),
            nf == msg.footer@.len(),
            msg == message,
            footers == footer_sets(m, term_width, anonymized_line_numbers),
            frev@.len() == nf - fi,
            forall|j: int| 0 <= j < frev@.len() ==> (#[trigger] frev@[j]) == msg.footer@[nf - 1 - j],
            forall|i: int| 0 <= i < nf ==> message_requires(#[trigger] m.footer[i]),
            forall|i: int| 0 <= i < nf ==> #[trigger] m.footer[i] == msg.footer@[i]@,
            sets_view(sets@) == head + footers.take(fi as int).flatten(),
        decreases frev.len(),
    {
        let ghost r1 = frev@;
        let f = frev.pop().unwrap();
        assert(f == msg.footer@[fi as int]) by {
            assert(r1[r1.len() - 1] == f);
        }
        assert(message_requires(m.footer[fi as int]));
        assert(decreases_to!(msg => f)) by {
            assert(decreases_to!(msg => msg.footer));
            assert(decreases_to!(msg.footer => msg.footer@));
            assert(decreases_to!(msg.footer@ => msg.footer@[fi as int]));
        }
        let mut sub = format_message(f, term_width, anonymized_line_numbers, false);
        let ghost before = sets_view(sets@);
        let ghost subv = sets_view(sub@);
        sets.append(&mut sub);
        assert(sets_view(sets@) =~= before + subv);
        assert(footers[fi as int] == spec_format_message(m.footer[fi as int], term_width, anonymized_line_numbers, false));
        assert(footers.take(fi + 1) =~= footers.take(fi as int).push(footers[fi as int]));
        proof {
            lemma_flatten_push(footers.take(fi as int), footers[fi as int]);
        }
        fi += 1;
    }
    assert(footers.take(fi as int) =~= footers);
    sets
}

proof fn lemma_flatten_push<A>(s: Seq<Seq<A>>, x: Seq<A>)
    ensures
        s.push(x).flatten() == s.flatten() + x,
{
    s.lemma_flatten_push(x);
}

impl<'a> DisplayList<'a> {
    /// The display list of a message: its sets as `format_message` lays them
    /// out for the primary message.
    pub fn new(message: Message<'a>, anonymized_line_numbers: bool, term_width: usize) -> (res: DisplayList<'a>)
        requires
            message_requires(message@),
        ensures
            sets_view(res.body@) == spec_format_message(message@, term_width, anonymized_line_numbers, true),
            res.anonymized_line_numbers == anonymized_line_numbers,
    {
        let body = format_message(message, term_width, anonymized_line_numbers, true);
        DisplayList { body, anonymized_line_numbers }
    }
}

} // verus!
