//! Which source lines carry code worth showing, and how lines overlap.
use vstd::prelude::*;

use crate::text::{char_is_whitespace, is_whitespace, str_chars};

verus! {

/// Whether the line ranges `a_start..a_end` and `b_start..b_end` (one line
/// longer each when `inclusive`) overlap: one starts inside the other.
pub open spec fn spec_num_overlap(a_start: int, a_end: int, b_start: int, b_end: int, inclusive: bool) -> bool {
    let extra: int = if inclusive {
        1
    } else {
        0
    };
    (b_start <= a_start && a_start < b_end + extra) || (a_start <= b_start && b_start < a_end + extra)
}

/// Whether two line ranges overlap; see `spec_num_overlap`.
pub fn num_overlap(a_start: usize, a_end: usize, b_start: usize, b_end: usize, inclusive: bool) -> (b: bool)
    requires
        a_end < usize::MAX,
        b_end < usize::MAX,
    ensures
        b == spec_num_overlap(a_start as int, a_end as int, b_start as int, b_end as int, inclusive),
{
    let extra: usize = if inclusive {
        1
    } else {
        0
    };
    (b_start <= a_start && a_start < b_end + extra) || (a_start <= b_start && b_start < a_end + extra)
}

/// The characters without the leading whitespace.
pub open spec fn trim_start_chars(cs: Seq<char>) -> Seq<char>
    decreases cs.len(),
{
    if cs.len() > 0 && char_is_whitespace(cs[0]) {
        trim_start_chars(cs.drop_first())
    } else {
        cs
    }
}

/// The characters without the trailing whitespace.
pub open spec fn trim_end_chars(cs: Seq<char>) -> Seq<char>
    decreases cs.len(),
{
    if cs.len() > 0 && char_is_whitespace(cs.last()) {
        trim_end_chars(cs.drop_last())
    } else {
        cs
    }
}

/// The characters without leading and trailing whitespace.
pub open spec fn trim_chars(cs: Seq<char>) -> Seq<char> {
    trim_end_chars(trim_start_chars(cs))
}

/// Whether `p` is a prefix of `cs`.
pub open spec fn has_prefix(cs: Seq<char>, p: Seq<char>) -> bool {
    p.len() <= cs.len() && cs.take(p.len() as int) == p
}

/// Whether a line carries code worth showing: once trimmed, it is not a
/// plain comment (doc comments count as code), nor empty, nor a single
/// bracket or brace.
pub open spec fn keeps_line(line: Seq<char>) -> bool {
    let t = trim_chars(line);
    &&& !(has_prefix(t, seq!['/', '/']) && !(has_prefix(t, seq!['/', '/', '/']) || has_prefix(
        t,
        seq!['/', '/', '!'],
    )))
    &&& !(t.len() == 0 || t == seq!['{'] || t == seq!['}'] || t == seq!['('] || t == seq![')']
        || t == seq!['['] || t == seq![']'])
}

proof fn lemma_trim_start(cs: Seq<char>, i: int)
    requires
        0 <= i <= cs.len(),
        forall|k: int| 0 <= k < i ==> char_is_whitespace(#[trigger] cs[k]),
    ensures
        trim_start_chars(cs) == trim_start_chars(cs.skip(i)),
    decreases i,
{
    if i > 0 {
        lemma_trim_start(cs.drop_first(), i - 1);
        assert(cs.drop_first().skip(i - 1) =~= cs.skip(i));
    } else {
        assert(cs.skip(0) =~= cs);
    }
}

proof fn lemma_trim_end(cs: Seq<char>, j: int)
    requires
        0 <= j <= cs.len(),
        forall|k: int| j <= k < cs.len() ==> char_is_whitespace(#[trigger] cs[k]),
    ensures
        trim_end_chars(cs) == trim_end_chars(cs.take(j)),
    decreases cs.len() - j,
{
    if j < cs.len() {
        lemma_trim_end(cs.drop_last(), j);
        assert(cs.drop_last().take(j) =~= cs.take(j));
    } else {
        assert(cs.take(j) =~= cs);
    }
}

fn chars_eq(a: &Vec<char>, lo: usize, hi: usize, p: &[char]) -> (b: bool)
    requires
        lo <= hi <= a@.len(),
    ensures
        b == (a@.subrange(lo as int, hi as int) == p@),
{
    if hi - lo != p.len() {
        assert(a@.subrange(lo as int, hi as int).len() != p@.len());
        return false;
    }
    let mut k: usize = 0;
    while k < p.len()
        invariant
            k <= p@.len(),
            hi - lo == p@.len(),
            lo <= hi <= a@.len(),
            forall|t: int| 0 <= t < k ==> a@[lo + t] == p@[t],
        decreases p.len() - k,
    {
        if a[lo + k] != p[k] {
            assert(a@.subrange(lo as int, hi as int)[k as int] != p@[k as int]);
            return false;
        }
        k += 1;
    }
    assert(a@.subrange(lo as int, hi as int) =~= p@);
    true
}

/// Where the text of `cs` starts and ends once trimmed.
pub fn trim_bounds(cs: &Vec<char>) -> (res: (usize, usize))
    ensures
        res.0 <= res.1 <= cs@.len(),
        cs@.subrange(res.0 as int, res.1 as int) == trim_chars(cs@),
{
    let n = cs.len();
    let mut i: usize = 0;
    while i < n && is_whitespace(cs[i])
        invariant
            i <= n,
            n == cs@.len(),
            forall|k: int| 0 <= k < i ==> char_is_whitespace(#[trigger] cs@[k]),
        decreases n - i,
    {
        i += 1;
    }
    let mut j: usize = n;
    while j > i && is_whitespace(cs[j - 1])
        invariant
            i <= j <= n,
            n == cs@.len(),
            forall|k: int| j <= k < n ==> char_is_whitespace(#[trigger] cs@[k]),
        decreases j - i,
    {
        j -= 1;
    }
    let ghost t = cs@.subrange(i as int, j as int);
    proof {
        lemma_trim_start(cs@, i as int);
        let rest = cs@.skip(i as int);
        if i < n {
            assert(rest[0] == cs@[i as int]);
        }
        assert(trim_start_chars(rest) == rest);
        lemma_trim_end(rest, (j - i) as int);
        assert forall|k: int| (j - i) <= k < rest.len() implies char_is_whitespace(#[trigger] rest[k]) by {
            assert(rest[k] == cs@[i + k]);
        }
        assert(rest.take((j - i) as int) =~= t);
        if j > i {
            assert(t.last() == cs@[j - 1]);
        }
        assert(trim_end_chars(t) == t);
    }
    (i, j)
}

proof fn lemma_single_char(c: char, d: char)
    ensures
        (seq![c] == seq![d]) == (c == d),
{
    if seq![c] == seq![d] {
        assert(seq![c][0] == seq![d][0]);
    }
}

/// The text without leading and trailing whitespace.
pub fn trim_str(s: &str) -> (t: &str)
    requires
        crate::text::bytes_of(s).len() <= usize::MAX,
    ensures
        t@ == trim_chars(s@),
        crate::text::bytes_of(t).len() <= crate::text::bytes_of(s).len(),
{
    let cs = str_chars(s);
    let (i, j) = trim_bounds(&cs);
    let (_, rest) = crate::text::split_at_chars(s, i);
    let (t, _) = crate::text::split_at_chars(rest, j - i);
    proof {
        crate::text::lemma_empty_str(s);
        crate::text::lemma_empty_str(rest);
        assert(t@ =~= cs@.subrange(i as int, j as int));
    }
    t
}

/// Whether the text is empty once trimmed.
pub fn is_blank(s: &str) -> (b: bool)
    ensures
        b == (trim_chars(s@).len() == 0),
{
    let cs = str_chars(s);
    let (i, j) = trim_bounds(&cs);
    i == j
}

/// Whether a line carries code worth showing; see `keeps_line`.
pub fn line_is_kept(line: &str) -> (b: bool)
    ensures
        b == keeps_line(line@),
{
    let cs = str_chars(line);
    let (i, j) = trim_bounds(&cs);
    let ghost t = cs@.subrange(i as int, j as int);
    assert(trim_chars(line@) == t);
    let slash2 = j - i >= 2 && chars_eq(&cs, i, i + 2, &['/', '/']);
    let slash3 = j - i >= 3 && chars_eq(&cs, i, i + 3, &['/', '/', '/']);
    let bang = j - i >= 3 && chars_eq(&cs, i, i + 3, &['/', '/', '!']);
    proof {
        if j - i >= 3 {
            assert(t.take(3) =~= cs@.subrange(i as int, i + 3));
        }
        if j - i >= 2 {
            assert(t.take(2) =~= cs@.subrange(i as int, i + 2));
        }
    }
    assert(slash2 == has_prefix(t, seq!['/', '/']));
    assert(slash3 == has_prefix(t, seq!['/', '/', '/']));
    assert(bang == has_prefix(t, seq!['/', '/', '!']));
    let comment = slash2 && !(slash3 || bang);
    let bare = j == i || (j - i == 1 && (cs[i] == '{' || cs[i] == '}' || cs[i] == '(' || cs[i] == ')'
        || cs[i] == '[' || cs[i] == ']'));
    proof {
        if j - i == 1 {
            assert(t =~= seq![cs@[i as int]]);
            let c = cs@[i as int];
            lemma_single_char(c, '{');
            lemma_single_char(c, '}');
            lemma_single_char(c, '(');
            lemma_single_char(c, ')');
            lemma_single_char(c, '[');
            lemma_single_char(c, ']');
        }
        assert(t.len() == j - i);
        if j - i != 1 {
            assert(seq!['{'].len() == 1);
            assert(t != seq!['{']);
            assert(t != seq!['}']);
            assert(t != seq!['(']);
            assert(t != seq![')']);
            assert(t != seq!['[']);
            assert(t != seq![']']);
        }
    }
    !comment && !bare
}

} // verus!
