//! Properties of labels: how they are split into fragments and written.
use vstd::prelude::*;

use crate::display_list::{split_dunder, split_dunder_from};
use crate::renderer::display_list::DisplayTextFragment;
use crate::renderer::display_output::label_out;
use crate::renderer::stylesheet::Stylesheet;

verus! {

/// Pieces joined back together with `__` between each two.
pub open spec fn join_with_dunder(ps: Seq<Seq<char>>) -> Seq<char>
    decreases ps.len(),
{
    if ps.len() == 0 {
        Seq::empty()
    } else if ps.len() == 1 {
        ps[0]
    } else {
        ps[0] + seq!['_', '_'] + join_with_dunder(ps.drop_first())
    }
}

proof fn lemma_split_from_rejoins(cur: Seq<char>, rest: Seq<char>)
    ensures
        split_dunder_from(cur, rest).len() >= 1,
        join_with_dunder(split_dunder_from(cur, rest)) == cur + rest,
    decreases rest.len(),
{
    if rest.len() == 0 {
        assert(cur + rest =~= cur);
    } else if rest.len() >= 2 && rest[0] == '_' && rest[1] == '_' {
        let tail = split_dunder_from(Seq::empty(), rest.skip(2));
        lemma_split_from_rejoins(Seq::empty(), rest.skip(2));
        let all = seq![cur] + tail;
        assert(all.drop_first() =~= tail);
        assert(Seq::<char>::empty() + rest.skip(2) =~= rest.skip(2));
        assert(cur + seq!['_', '_'] + rest.skip(2) =~= cur + rest);
    } else {
        lemma_split_from_rejoins(cur.push(rest[0]), rest.skip(1));
        assert(cur.push(rest[0]) + rest.skip(1) =~= cur + rest);
    }
}

/// A label split at `__` loses no text: its pieces joined with `__` give it
/// back (`display_list::format_label` makes one fragment of each piece).
pub proof fn law_label_pieces_rejoin(text: Seq<char>)
    ensures
        join_with_dunder(split_dunder(text)) == text,
{
    lemma_split_from_rejoins(Seq::empty(), text);
    assert(Seq::<char>::empty() + text =~= text);
}

/// The text of a label's fragments, one after another.
pub open spec fn fragments_text<'a>(label: Seq<DisplayTextFragment<'a>>) -> Seq<char>
    decreases label.len(),
{
    if label.len() == 0 {
        Seq::empty()
    } else {
        fragments_text(label.drop_last()) + label.last().content@
    }
}

/// A plain stylesheet writes a label as the bare text of its fragments,
/// emphasis included.
pub proof fn law_plain_label_is_bare_text<'a>(label: Seq<DisplayTextFragment<'a>>, ss: &Stylesheet)
    requires
        ss.is_plain(),
    ensures
        label_out(label, ss) == fragments_text(label),
    decreases label.len(),
{
    if label.len() > 0 {
        law_plain_label_is_bare_text(label.drop_last(), ss);
        let f = label.last();
        assert(ss.emphasis.on@ + f.content@ + ss.emphasis.off@ =~= f.content@);
    }
}

} // verus!
