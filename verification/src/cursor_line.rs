use vstd::prelude::*;
use vstd::string::StringSliceAdditionalSpecFns;

use crate::text::{bytes_of, find_byte, first_index_of, lemma_first_index_of, split_after_ascii, split_at_ascii};

verus! {

/// How a line of source text ends.
#[derive(Copy, Clone, Debug, PartialEq, Eq, Structural)]
pub enum EndLine {
    Eof,
    Lf,
    Crlf,
}

impl EndLine {
    pub open spec fn spec_len(self) -> nat {
        match self {
            EndLine::Eof => 0,
            EndLine::Lf => 1,
            EndLine::Crlf => 2,
        }
    }

    /// The number of bytes this line ending occupies.
    pub fn len(self) -> (n: usize)
        ensures
            n == self.spec_len(),
    {
        match self {
            EndLine::Eof => 0,
            EndLine::Lf => 1,
            EndLine::Crlf => 2,
        }
    }
}

/// One step of line splitting on a non-empty byte sequence: the line's content
/// (without its terminator), its terminator, and what follows it.
pub open spec fn cursor_step(b: Seq<u8>) -> (Seq<u8>, EndLine, Seq<u8>) {
    match first_index_of(b, 10u8) {
        Some(x) => if 0 < x && b[x - 1] == 13u8 {
            (b.take(x - 1), EndLine::Crlf, b.skip(x + 1))
        } else {
            (b.take(x), EndLine::Lf, b.skip(x + 1))
        },
        None => (b, EndLine::Eof, Seq::empty()),
    }
}

/// The lines of a byte sequence, split on `\n` with a preceding `\r` removed,
/// each paired with the way it ends. An empty text has no lines, and a final
/// line ending does not start a new line.
pub open spec fn cursor_lines(b: Seq<u8>) -> Seq<(Seq<u8>, EndLine)>
    decreases b.len(),
{
    if b.len() == 0 {
        Seq::empty()
    } else {
        let (l, e, r) = cursor_step(b);
        proof { lemma_cursor_step(b); }
        seq![(l, e)] + cursor_lines(r)
    }
}

/// A step consumes the line and its terminator, and nothing else.
pub proof fn lemma_cursor_step(b: Seq<u8>)
    requires
        b.len() > 0,
    ensures
        ({
            let (l, e, r) = cursor_step(b);
            &&& l.len() + e.spec_len() + r.len() == b.len()
            &&& l == b.take(l.len() as int)
            &&& r == b.skip(b.len() - r.len())
            &&& r.len() < b.len()
            &&& forall|i: int| 0 <= i < l.len() ==> l[i] != 10u8
            &&& (e is Eof ==> r.len() == 0 && l == b)
            &&& (e is Lf ==> b[l.len() as int] == 10u8)
            &&& (e is Crlf ==> b[l.len() as int] == 13u8 && b[l.len() + 1int] == 10u8)
        }),
{
    lemma_first_index_of(b, 10u8);
    match first_index_of(b, 10u8) {
        Some(x) => {
            if 0 < x && b[x - 1] == 13u8 {
                assert(b.take(x - 1) == b.take(x - 1));
            }
        },
        None => {
            assert(b.take(b.len() as int) =~= b);
        },
    }
}


/// The bytes of a line ending.
pub open spec fn end_bytes(e: EndLine) -> Seq<u8> {
    match e {
        EndLine::Eof => Seq::empty(),
        EndLine::Lf => seq![10u8],
        EndLine::Crlf => seq![13u8, 10u8],
    }
}

/// The lines put back together, each followed by its ending.
pub open spec fn rejoin(ls: Seq<(Seq<u8>, EndLine)>) -> Seq<u8>
    decreases ls.len(),
{
    if ls.len() == 0 {
        Seq::empty()
    } else {
        ls[0].0 + end_bytes(ls[0].1) + rejoin(ls.skip(1))
    }
}

/// Splitting a text into lines loses nothing: each line followed by its
/// ending gives the text back; no line holds a line feed; only the last line
/// can end without one; and a text has no lines exactly when it is empty.
pub proof fn law_cursor_lines_rejoin(b: Seq<u8>)
    ensures
        rejoin(cursor_lines(b)) == b,
        forall|i: int|
            0 <= i < cursor_lines(b).len() ==> !(#[trigger] cursor_lines(b)[i]).0.contains(10u8),
        forall|i: int| 0 <= i < cursor_lines(b).len() - 1 ==> !((#[trigger] cursor_lines(b)[i]).1 is Eof),
        (cursor_lines(b).len() == 0) == (b.len() == 0),
    decreases b.len(),
{
    if b.len() > 0 {
        lemma_cursor_step(b);
        let (l, e, r) = cursor_step(b);
        law_cursor_lines_rejoin(r);
        let ls = cursor_lines(b);
        assert(ls == seq![(l, e)] + cursor_lines(r));
        assert(ls.skip(1) =~= cursor_lines(r));
        assert(ls[0] == (l, e));
        assert(b =~= l + end_bytes(e) + r) by {
            assert forall|k: int| 0 <= k < b.len() implies #[trigger] b[k] == (l + end_bytes(e) + r)[k] by {
                if k < l.len() {
                    assert(l[k] == b.take(l.len() as int)[k]);
                } else if k < l.len() + e.spec_len() {
                } else {
                    assert(r[k - l.len() - e.spec_len()] == b.skip(b.len() - r.len())[k - l.len() - e.spec_len()]);
                }
            }
        }
        assert forall|i: int| 0 <= i < ls.len() implies !(#[trigger] ls[i]).0.contains(10u8) by {
            if i == 0 {
                if l.contains(10u8) {
                    let k = choose|k: int| 0 <= k < l.len() && l[k] == 10u8;
                    assert(false);
                }
            } else {
                assert(ls[i] == cursor_lines(r)[i - 1]);
            }
        }
        assert forall|i: int| 0 <= i < ls.len() - 1 implies !((#[trigger] ls[i]).1 is Eof) by {
            if i == 0 {
                if e is Eof {
                    assert(r.len() == 0);
                    assert(cursor_lines(r).len() == 0);
                }
            } else {
                assert(ls[i] == cursor_lines(r)[i - 1]);
            }
        }
    }
}

/// The byte offset at which line `i` starts.
pub open spec fn line_offset(ls: Seq<(Seq<u8>, EndLine)>, i: int) -> int
    decreases i,
{
    if i <= 0 {
        0
    } else {
        line_offset(ls, i - 1) + ls[i - 1].0.len() + ls[i - 1].1.spec_len()
    }
}

proof fn lemma_line_offset_cons(head: (Seq<u8>, EndLine), rest: Seq<(Seq<u8>, EndLine)>, i: int)
    requires
        0 <= i <= rest.len(),
    ensures
        line_offset(seq![head] + rest, i + 1) == head.0.len() + head.1.spec_len() + line_offset(
            rest,
            i,
        ),
    decreases i,
{
    let s = seq![head] + rest;
    if i > 0 {
        lemma_line_offset_cons(head, rest, i - 1);
        assert(s[i] == rest[i - 1]);
        assert(line_offset(s, i + 1) == line_offset(s, i) + s[i].0.len() + s[i].1.spec_len());
        assert(line_offset(rest, i) == line_offset(rest, i - 1) + rest[i - 1].0.len()
            + rest[i - 1].1.spec_len());
    } else {
        assert(s[0] == head);
        assert(line_offset(s, 1) == line_offset(s, 0) + s[0].0.len() + s[0].1.spec_len());
    }
}

/// Line `i` sits at its offset in the text, followed by its terminator.
pub proof fn lemma_cursor_line_at(b: Seq<u8>, i: int)
    requires
        0 <= i < cursor_lines(b).len(),
    ensures
        ({
            let off = line_offset(cursor_lines(b), i);
            let (l, e) = cursor_lines(b)[i];
            &&& 0 <= off
            &&& off + l.len() + e.spec_len() <= b.len()
            &&& l == b.subrange(off, off + l.len())
            &&& (forall|t: int| 0 <= t < l.len() ==> l[t] != 10u8)
            &&& (e is Eof ==> off + l.len() == b.len())
            &&& (e is Lf ==> b[off + l.len()] == 10u8)
            &&& (e is Crlf ==> b[off + l.len()] == 13u8 && b[off + l.len() + 1] == 10u8)
        }),
    decreases b.len(),
{
    let ls = cursor_lines(b);
    let (l, e, r) = cursor_step(b);
    lemma_cursor_step(b);
    let rest = cursor_lines(r);
    assert(ls == seq![(l, e)] + rest);
    let k: int = (l.len() + e.spec_len()) as int;
    if i == 0 {
        assert(ls[0] == (l, e));
        assert(l =~= b.subrange(0, l.len() as int));
    } else {
        lemma_cursor_line_at(r, i - 1);
        lemma_line_offset_cons((l, e), rest, i - 1);
        assert(ls[i] == rest[i - 1]);
        let off_r = line_offset(rest, i - 1);
        let (li, ei) = rest[i - 1];
        assert(r == b.skip(k));
        assert(li =~= b.subrange(k + off_r, k + off_r + li.len()));
    }
}

/// The lines with their terminators cover the whole text.
pub proof fn lemma_cursor_lines_total(b: Seq<u8>)
    ensures
        line_offset(cursor_lines(b), cursor_lines(b).len() as int) == b.len(),
    decreases b.len(),
{
    if b.len() > 0 {
        let (l, e, r) = cursor_step(b);
        lemma_cursor_step(b);
        lemma_cursor_lines_total(r);
        let rest = cursor_lines(r);
        assert(cursor_lines(b) == seq![(l, e)] + rest);
        lemma_line_offset_cons((l, e), rest, rest.len() as int);
    }
}

/// Offsets grow with the line index.
pub proof fn lemma_line_offset_mono(ls: Seq<(Seq<u8>, EndLine)>, i: int, j: int)
    requires
        0 <= i <= j <= ls.len(),
    ensures
        line_offset(ls, i) <= line_offset(ls, j),
    decreases j - i,
{
    if i < j {
        lemma_line_offset_mono(ls, i, j - 1);
    }
}

/// The number of line feeds in a byte sequence.
pub open spec fn newlines(b: Seq<u8>) -> nat
    decreases b.len(),
{
    if b.len() == 0 {
        0
    } else {
        newlines(b.drop_last()) + if b.last() == 10u8 {
            1nat
        } else {
            0nat
        }
    }
}

/// One when the text ends in an unterminated line.
pub open spec fn open_tail(b: Seq<u8>) -> nat {
    if b.len() > 0 && b.last() != 10u8 {
        1
    } else {
        0
    }
}

pub proof fn lemma_newlines_concat(a: Seq<u8>, b: Seq<u8>)
    ensures
        newlines(a + b) == newlines(a) + newlines(b),
    decreases b.len(),
{
    if b.len() == 0 {
        assert(a + b =~= a);
    } else {
        lemma_newlines_concat(a, b.drop_last());
        assert((a + b).drop_last() =~= a + b.drop_last());
    }
}

proof fn lemma_newlines_none(b: Seq<u8>)
    requires
        forall|i: int| 0 <= i < b.len() ==> b[i] != 10u8,
    ensures
        newlines(b) == 0,
    decreases b.len(),
{
    if b.len() > 0 {
        lemma_newlines_none(b.drop_last());
    }
}

/// A text has as many lines as line feeds, plus one for an unterminated last line.
pub proof fn lemma_line_count(b: Seq<u8>)
    ensures
        cursor_lines(b).len() == newlines(b) + open_tail(b),
    decreases b.len(),
{
    if b.len() > 0 {
        let (l, e, r) = cursor_step(b);
        lemma_cursor_step(b);
        lemma_line_count(r);
        lemma_newlines_none(l);
        let eb = b.subrange(l.len() as int, (l.len() + e.spec_len()) as int);
        assert(b =~= l + eb + r);
        lemma_newlines_concat(l + eb, r);
        lemma_newlines_concat(l, eb);
        match e {
            EndLine::Eof => {
                assert(eb.len() == 0);
                assert(newlines(eb) == 0);
                assert(b.last() == l.last());
            },
            EndLine::Lf => {
                assert(eb =~= seq![10u8]);
                assert(newlines(eb) == 1) by {
                    reveal_with_fuel(newlines, 2);
                    assert(eb.drop_last() =~= Seq::<u8>::empty());
                    assert(eb.last() == 10u8);
                }
                if r.len() > 0 {
                    assert(b.last() == r.last());
                } else {
                    assert(b.last() == 10u8);
                }
            },
            EndLine::Crlf => {
                assert(eb =~= seq![13u8, 10u8]);
                assert(newlines(eb) == 1) by {
                    reveal_with_fuel(newlines, 3);
                    assert(eb.drop_last() =~= seq![13u8]);
                    assert(eb.drop_last().drop_last() =~= Seq::<u8>::empty());
                    assert(eb.last() == 10u8);
                    assert(eb.drop_last().last() == 13u8);
                }
                if r.len() > 0 {
                    assert(b.last() == r.last());
                } else {
                    assert(b.last() == 10u8);
                }
            },
        }
    }
}

/// Iterates over the lines of a string, with their line endings.
pub struct CursorLines<'a>(pub &'a str);

impl<'a> CursorLines<'a> {
    pub fn new(src: &'a str) -> (res: CursorLines<'a>)
        ensures
            res.0 == src,
    {
        CursorLines(src)
    }

    /// The next line and its ending, or `None` once the text is used up.
    pub fn next(&mut self) -> (res: Option<(&'a str, EndLine)>)
        ensures
            bytes_of(old(self).0).len() == 0 ==> res is None && final(self).0 == old(self).0,
            bytes_of(old(self).0).len() > 0 ==> ({
                let (l, e, r) = cursor_step(bytes_of(old(self).0));
                &&& res matches Some((line, end)) && bytes_of(line) == l && end == e
                &&& bytes_of(final(self).0) == r
            }),
    {
        let s = self.0;
        let bytes = s.as_bytes();
        if bytes.len() == 0 {
            return None;
        }
        match find_byte(bytes, 10u8) {
            Some(x) => {
                proof { lemma_first_index_of(bytes@, 10u8); }
                let (head, tail) = split_at_ascii(s, x);
                let (_, rest) = split_after_ascii(tail, 1);
                assert(bytes_of(rest) =~= bytes@.skip(x + 1));
                if 0 < x && bytes[x - 1] == 13u8 {
                    let (line, _) = split_at_ascii(head, x - 1);
                    assert(bytes_of(line) =~= bytes@.take(x - 1));
                    self.0 = rest;
                    Some((line, EndLine::Crlf))
                } else {
                    assert(bytes_of(head) =~= bytes@.take(x as int));
                    self.0 = rest;
                    Some((head, EndLine::Lf))
                }
            },
            None => {
                let (empty, _) = split_at_ascii(s, 0);
                assert(bytes_of(empty) =~= Seq::<u8>::empty());
                let (_, all) = split_at_ascii(s, 0);
                assert(bytes_of(all) =~= bytes@);
                self.0 = empty;
                Some((all, EndLine::Eof))
            },
        }
    }
}

/// All lines of a string with their endings.
pub fn collect_lines<'a>(src: &'a str) -> (res: Vec<(&'a str, EndLine)>)
    ensures
        res@.len() == cursor_lines(bytes_of(src)).len(),
        forall|i: int|
            0 <= i < res@.len() ==> bytes_of(#[trigger] res@[i].0) == cursor_lines(bytes_of(src))[i].0
                && res@[i].1 == cursor_lines(bytes_of(src))[i].1,
{
    let mut cursor = CursorLines::new(src);
    let mut res: Vec<(&'a str, EndLine)> = Vec::new();
    loop
        invariant
            cursor_lines(bytes_of(src)) == ({
                let done = res@.map_values(|p: (&'a str, EndLine)| (bytes_of(p.0), p.1));
                done + cursor_lines(bytes_of(cursor.0))
            }),
        ensures
            bytes_of(cursor.0).len() == 0,
            cursor_lines(bytes_of(src)) == ({
                let done = res@.map_values(|p: (&'a str, EndLine)| (bytes_of(p.0), p.1));
                done + cursor_lines(bytes_of(cursor.0))
            }),
        decreases bytes_of(cursor.0).len(),
    {
        let ghost before = bytes_of(cursor.0);
        match cursor.next() {
            Some(item) => {
                proof {
                    lemma_cursor_step(before);
                }
                let ghost old_res = res@;
                res.push(item);
                assert(res@.map_values(|p: (&'a str, EndLine)| (bytes_of(p.0), p.1)) =~= old_res.map_values(
                    |p: (&'a str, EndLine)| (bytes_of(p.0), p.1),
                ).push((bytes_of(item.0), item.1)));
                assert(cursor_lines(before) == seq![(bytes_of(item.0), item.1)] + cursor_lines(bytes_of(cursor.0)));
            },
            None => {
                break;
            },
        }
    }
    assert(cursor_lines(bytes_of(cursor.0)) =~= Seq::<(Seq<u8>, EndLine)>::empty());
    assert forall|i: int| 0 <= i < res@.len() implies bytes_of(#[trigger] res@[i].0) == cursor_lines(bytes_of(src))[i].0
        && res@[i].1 == cursor_lines(bytes_of(src))[i].1 by {
        let done = res@.map_values(|p: (&'a str, EndLine)| (bytes_of(p.0), p.1));
        assert(done[i] == (bytes_of(res@[i].0), res@[i].1));
    }
    res
}

} // verus!
