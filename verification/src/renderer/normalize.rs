//! Replacing characters that terminals show inconsistently.
use vstd::prelude::*;
use vstd::string::StringExecFns;

use crate::text::{lemma_empty_str, split_first_char, str_chars};

verus! {

/// A control character (Unicode category Cc) other than the newline, which
/// separates lines, and the tab, which becomes spaces.
pub open spec fn is_stray_control(c: char) -> bool {
    ((c as int) < 0x20 && c != '\n' && c != '\t') || (0x7F <= (c as int) && (c as int) <= 0x9F)
}

/// Characters dropped from output: stray control characters, the zero-width
/// joiner, and the text direction controls that make what is shown differ
/// from what is stored.
pub open spec fn is_dropped_char(c: char) -> bool {
    is_stray_control(c) || c == '\u{200D}' || c == '\u{202A}' || c == '\u{202B}' || c == '\u{202D}' || c == '\u{202E}'
        || c == '\u{2066}' || c == '\u{2067}' || c == '\u{2068}' || c == '\u{202C}'
        || c == '\u{2069}'
}

/// What one character becomes: a tab four spaces, a dropped character
/// nothing, any other character itself.
pub open spec fn replacement_of(c: char) -> Seq<char> {
    if c == '\t' {
        seq![' ', ' ', ' ', ' ']
    } else if is_dropped_char(c) {
        Seq::empty()
    } else {
        seq![c]
    }
}

/// A text with each character replaced by what it becomes.
pub open spec fn normalized(cs: Seq<char>) -> Seq<char>
    decreases cs.len(),
{
    if cs.len() == 0 {
        Seq::empty()
    } else {
        normalized(cs.drop_last()) + replacement_of(cs.last())
    }
}

fn is_dropped(c: char) -> (b: bool)
    ensures
        b == is_dropped_char(c),
{
    let code = c as u32;
    let stray = (code < 0x20 && c != '\n' && c != '\t') || (0x7F <= code && code <= 0x9F);
    stray || c == '\u{200D}' || c == '\u{202A}' || c == '\u{202B}' || c == '\u{202D}' || c == '\u{202E}'
        || c == '\u{2066}' || c == '\u{2067}' || c == '\u{2068}' || c == '\u{202C}'
        || c == '\u{2069}'
}

/// The text with tabs turned into four spaces and the characters of
/// `is_dropped_char` removed: no control character but the newline is left.
pub fn normalize_whitespace(s: &str) -> (res: String)
    ensures
        res@ == normalized(s@),
{
    let mut out = String::new();
    let mut rest = s;
    let ghost n = s@.len();
    let ghost mut k: int = 0;
    proof {
        lemma_empty_str(s);
        assert(s@.take(0) =~= Seq::<char>::empty());
        assert(s@.skip(0) =~= s@);
        reveal_strlit("    ");
    }
    while !rest.is_empty()
        invariant
            0 <= k <= n,
            n == s@.len(),
            rest@ == s@.skip(k),
            out@ == normalized(s@.take(k)),
            "    "@ == seq![' ', ' ', ' ', ' '],
        decreases rest@.len(),
    {
        proof {
            lemma_empty_str(rest);
        }
        let (head, tail) = split_first_char(rest);
        let cs = str_chars(head);
        let c = cs[0];
        assert(c == s@[k]);
        if c == '\t' {
            out.append("    ");
        } else if is_dropped(c) {
        } else {
            out.append(head);
        }
        proof {
            let t = s@.take(k + 1);
            assert(t.drop_last() =~= s@.take(k));
            assert(t.last() == c);
            assert(tail@ =~= s@.skip(k + 1));
        }
        rest = tail;
        proof {
            k = k + 1;
        }
    }
    proof {
        assert(s@.skip(k).len() == n - k);
        assert(s@.take(k) =~= s@);
    }
    out
}

} // verus!
