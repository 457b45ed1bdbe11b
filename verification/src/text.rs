use vstd::prelude::*;
use vstd::string::StringSliceAdditionalSpecFns;

verus! {

broadcast use vstd::utf8::group_utf8_lib;

/// The UTF-8 bytes of a string slice.
pub open spec fn bytes_of(s: &str) -> Seq<u8> {
    s.spec_bytes()
}

/// The index of the first byte `b` in `bytes`, if any.
pub open spec fn first_index_of(bytes: Seq<u8>, b: u8) -> Option<int>
    decreases bytes.len(),
{
    if bytes.len() == 0 {
        None
    } else if bytes[0] == b {
        Some(0)
    } else {
        match first_index_of(bytes.drop_first(), b) {
            Some(i) => Some(i + 1),
            None => None,
        }
    }
}

pub proof fn lemma_first_index_of(bytes: Seq<u8>, b: u8)
    ensures
        first_index_of(bytes, b) matches Some(i) ==> 0 <= i < bytes.len() && bytes[i] == b
            && forall|j: int| 0 <= j < i ==> bytes[j] != b,
        first_index_of(bytes, b) is None ==> forall|j: int| 0 <= j < bytes.len() ==> bytes[j] != b,
    decreases bytes.len(),
{
    if bytes.len() > 0 {
        lemma_first_index_of(bytes.drop_first(), b);
        assert(forall|j: int| 0 <= j < bytes.len() - 1 ==> bytes.drop_first()[j] == bytes[j + 1]);
        if bytes[0] != b {
            assert forall|j: int| 0 <= j < bytes.len() && first_index_of(bytes, b) is None implies bytes[j] != b by {
                if j > 0 {
                    assert(bytes.drop_first()[j - 1] == bytes[j]);
                }
            }
            if let Some(i) = first_index_of(bytes, b) {
                assert forall|j: int| 0 <= j < i implies bytes[j] != b by {
                    if j > 0 {
                        assert(bytes.drop_first()[j - 1] == bytes[j]);
                    }
                }
            }
        }
    }
}

/// Finds the first occurrence of byte `b`.
pub fn find_byte(bytes: &[u8], b: u8) -> (res: Option<usize>)
    ensures
        match res {
            Some(i) => first_index_of(bytes@, b) == Some(i as int),
            None => first_index_of(bytes@, b) is None,
        },
{
    let mut i: usize = 0;
    while i < bytes.len()
        invariant
            i <= bytes@.len(),
            forall|j: int| 0 <= j < i ==> bytes@[j] != b,
        decreases bytes.len() - i,
    {
        if bytes[i] == b {
            proof { lemma_first_index_unique(bytes@, b, i as int); }
            return Some(i);
        }
        i += 1;
    }
    proof { lemma_first_index_none(bytes@, b); }
    None
}

proof fn lemma_first_index_unique(bytes: Seq<u8>, b: u8, i: int)
    requires
        0 <= i < bytes.len(),
        bytes[i] == b,
        forall|j: int| 0 <= j < i ==> bytes[j] != b,
    ensures
        first_index_of(bytes, b) == Some(i),
    decreases i,
{
    if i > 0 {
        lemma_first_index_unique(bytes.drop_first(), b, i - 1);
    }
}

proof fn lemma_first_index_none(bytes: Seq<u8>, b: u8)
    requires
        forall|j: int| 0 <= j < bytes.len() ==> bytes[j] != b,
    ensures
        first_index_of(bytes, b) is None,
    decreases bytes.len(),
{
    if bytes.len() > 0 {
        assert(bytes[0] != b);
        lemma_first_index_none(bytes.drop_first(), b);
    }
}

/// The index of the last byte `b` in `bytes`, if any.
pub open spec fn last_index_of(bytes: Seq<u8>, b: u8) -> Option<int>
    decreases bytes.len(),
{
    if bytes.len() == 0 {
        None
    } else if bytes.last() == b {
        Some(bytes.len() - 1)
    } else {
        last_index_of(bytes.drop_last(), b)
    }
}

pub proof fn lemma_last_index_of(bytes: Seq<u8>, b: u8)
    ensures
        last_index_of(bytes, b) matches Some(i) ==> 0 <= i < bytes.len() && bytes[i] == b,
    decreases bytes.len(),
{
    if bytes.len() > 0 && bytes.last() != b {
        lemma_last_index_of(bytes.drop_last(), b);
    }
}

/// Finds the last occurrence of byte `b`.
pub fn rfind_byte(bytes: &[u8], b: u8) -> (res: Option<usize>)
    ensures
        match res {
            Some(i) => last_index_of(bytes@, b) == Some(i as int),
            None => last_index_of(bytes@, b) is None,
        },
{
    let mut i: usize = bytes.len();
    assert(bytes@.take(i as int) =~= bytes@);
    while i > 0
        invariant
            i <= bytes@.len(),
            last_index_of(bytes@, b) == last_index_of(bytes@.take(i as int), b),
        decreases i,
    {
        assert(bytes@.take(i as int).last() == bytes@[i - 1]);
        if bytes[i - 1] == b {
            return Some(i - 1);
        }
        assert(bytes@.take(i as int).drop_last() =~= bytes@.take(i - 1));
        i -= 1;
    }
    assert(bytes@.take(0) =~= Seq::<u8>::empty());
    None
}

/// Splits a string slice at an ASCII byte position.
pub fn split_at_ascii(s: &str, mid: usize) -> (res: (&str, &str))
    requires
        mid <= bytes_of(s).len(),
        0 < mid < bytes_of(s).len() ==> bytes_of(s)[mid as int] < 0x80,
    ensures
        bytes_of(res.0) == bytes_of(s).subrange(0, mid as int),
        bytes_of(res.1) == bytes_of(s).subrange(mid as int, bytes_of(s).len() as int),
{
    proof {
        let b = bytes_of(s);
        assert(vstd::utf8::valid_utf8(vstd::utf8::encode_utf8(s@)));
        if mid == 0 {
        } else if mid < b.len() {
            assert(!vstd::utf8::is_continuation_byte(b[mid as int]));
            assert(vstd::utf8::is_char_boundary(b, mid as int));
        } else {
            assert(vstd::utf8::is_char_boundary(b, b.len() as int));
        }
    }
    s.split_at(mid)
}

/// In valid UTF-8, the position right after an ASCII byte that starts a
/// character is again a character boundary.
proof fn lemma_boundary_after_ascii(b: Seq<u8>, i: int)
    requires
        vstd::utf8::valid_utf8(b),
        vstd::utf8::is_char_boundary(b, i),
        0 <= i < b.len(),
        b[i] < 0x80,
    ensures
        vstd::utf8::is_char_boundary(b, i + 1),
    decreases b.len(),
{
    reveal_with_fuel(vstd::utf8::is_char_boundary, 2);
    let l = vstd::utf8::length_of_first_scalar(b);
    let p = vstd::utf8::pop_first_scalar(b);
    if i == 0 {
        assert(l == 1);
        assert(vstd::utf8::is_char_boundary(p, 0));
    } else {
        assert(vstd::utf8::valid_utf8(p));
        assert(vstd::utf8::is_char_boundary(p, i - l));
        assert(p[i - l] == b[i]);
        lemma_boundary_after_ascii(p, i - l);
    }
}

/// Splits a string slice right after an ASCII byte.
pub fn split_after_ascii(s: &str, mid: usize) -> (res: (&str, &str))
    requires
        0 < mid <= bytes_of(s).len(),
        bytes_of(s)[mid - 1] < 0x80,
    ensures
        bytes_of(res.0) == bytes_of(s).subrange(0, mid as int),
        bytes_of(res.1) == bytes_of(s).subrange(mid as int, bytes_of(s).len() as int),
{
    proof {
        let b = bytes_of(s);
        assert(vstd::utf8::valid_utf8(vstd::utf8::encode_utf8(s@)));
        if mid == 1 {
            assert(vstd::utf8::is_char_boundary(b, 0));
        } else {
            assert(!vstd::utf8::is_continuation_byte(b[mid - 1]));
        }
        assert(vstd::utf8::is_char_boundary(b, mid - 1));
        lemma_boundary_after_ascii(b, mid - 1);
    }
    s.split_at(mid)
}

/// A split position of a text that falls inside one of its slices is a split
/// position of that slice.
pub proof fn lemma_boundary_in_slice(src: &str, part: &str, off: int, t: int)
    requires
        0 <= off,
        off + bytes_of(part).len() <= bytes_of(src).len(),
        bytes_of(part) == bytes_of(src).subrange(off, off + bytes_of(part).len()),
        0 <= t <= bytes_of(part).len(),
        is_boundary(src, off + t),
    ensures
        is_boundary(part, t),
{
    lemma_chars_of_str(src);
    lemma_chars_of_str(part);
    let p = bytes_of(part);
    let b = bytes_of(src);
    if t == p.len() {
        assert(vstd::utf8::is_char_boundary(p, p.len() as int));
    } else {
        assert(vstd::utf8::is_char_boundary(b, off + t) <==> !vstd::utf8::is_continuation_byte(b[off + t]));
        assert(p[t] == b[off + t]);
        assert(vstd::utf8::is_char_boundary(p, t) <==> !vstd::utf8::is_continuation_byte(p[t]));
    }
}

/// A string can be split at its start and at its end.
pub proof fn lemma_boundary_ends(s: &str)
    ensures
        is_boundary(s, 0),
        is_boundary(s, bytes_of(s).len() as int),
        chars_of(bytes_of(s)) == s@,
        s@.len() <= bytes_of(s).len(),
{
    lemma_chars_of_str(s);
    assert(vstd::utf8::is_char_boundary(bytes_of(s), 0));
    assert(vstd::utf8::is_char_boundary(bytes_of(s), bytes_of(s).len() as int));
    lemma_decode_len(bytes_of(s));
}

/// The characters encoded by a byte sequence.
pub open spec fn chars_of(b: Seq<u8>) -> Seq<char> {
    vstd::utf8::decode_utf8(b)
}

/// True when `k` is a position at which `s` may be split.
pub open spec fn is_boundary(s: &str, k: int) -> bool {
    vstd::utf8::is_char_boundary(bytes_of(s), k)
}

pub proof fn lemma_chars_of_str(s: &str)
    ensures
        chars_of(bytes_of(s)) == s@,
        vstd::utf8::valid_utf8(bytes_of(s)),
{
    assert(vstd::utf8::decode_utf8(vstd::utf8::encode_utf8(s@)) == s@);
    assert(vstd::utf8::valid_utf8(vstd::utf8::encode_utf8(s@)));
}

/// A string slice is empty exactly when it has no bytes, and it has no more
/// characters than bytes.
pub proof fn lemma_empty_str(s: &str)
    ensures
        (bytes_of(s).len() == 0) == (s@.len() == 0),
        s@.len() <= bytes_of(s).len(),
{
    lemma_chars_of_str(s);
    lemma_decode_len(bytes_of(s));
    let b = bytes_of(s);
    if b.len() == 0 {
        assert(vstd::utf8::decode_utf8(b) =~= Seq::<char>::empty());
    } else {
        assert(vstd::utf8::decode_utf8(b).len() > 0);
    }
}

/// Splits a non-empty string slice after its first character.
pub fn split_first_char(s: &str) -> (res: (&str, &str))
    requires
        s@.len() > 0,
    ensures
        res.0@ == seq![s@[0]],
        res.1@ == s@.drop_first(),
        bytes_of(s) == bytes_of(res.0) + bytes_of(res.1),
{
    proof {
        lemma_empty_str(s);
        lemma_chars_of_str(s);
    }
    let bytes = s.as_bytes();
    let b0 = bytes[0];
    let l: usize = if b0 < 0x80 {
        1
    } else if b0 < 0xe0 {
        2
    } else if b0 < 0xf0 {
        3
    } else {
        4
    };
    let ghost bs = bytes_of(s);
    proof {
        assert(vstd::utf8::valid_first_scalar(bs));
        assert(l == vstd::utf8::length_of_first_scalar(bs));
        reveal_with_fuel(vstd::utf8::is_char_boundary, 2);
        assert(vstd::utf8::is_char_boundary(vstd::utf8::pop_first_scalar(bs), 0));
        assert(vstd::utf8::is_char_boundary(bs, l as int));
        vstd::utf8::decode_utf8_split(bs, l as int);
        assert(vstd::utf8::pop_first_scalar(bs) =~= bs.subrange(l as int, bs.len() as int));
    }
    let res = s.split_at(l);
    proof {
        lemma_chars_of_str(res.0);
        lemma_chars_of_str(res.1);
        let d = vstd::utf8::decode_utf8(bs);
        let d0 = vstd::utf8::decode_utf8(bs.subrange(0, l as int));
        let d1 = vstd::utf8::decode_utf8(bs.subrange(l as int, bs.len() as int));
        assert(d == seq![vstd::utf8::decode_first_scalar(bs) as char] + d1);
        assert(d == d0 + d1);
        assert(d0.len() == 1);
        assert(d0 =~= seq![d[0]]);
        assert(d1 =~= d.drop_first());
        assert(bs =~= bytes_of(res.0) + bytes_of(res.1));
    }
    res
}

/// Two valid UTF-8 texts put together can be split where they meet, and
/// decode to the characters of one then of the other.
pub proof fn lemma_concat_boundary(a: Seq<u8>, b: Seq<u8>)
    requires
        vstd::utf8::valid_utf8(a),
        vstd::utf8::valid_utf8(b),
    ensures
        vstd::utf8::valid_utf8(a + b),
        vstd::utf8::is_char_boundary(a + b, a.len() as int),
        chars_of(a + b) == chars_of(a) + chars_of(b),
    decreases a.len(),
{
    vstd::utf8::valid_utf8_concat(a, b);
    if a.len() == 0 {
        assert(a + b =~= b);
        assert(chars_of(a) =~= Seq::<char>::empty());
        assert(chars_of(a) + chars_of(b) =~= chars_of(b));
    } else {
        let l = vstd::utf8::length_of_first_scalar(a);
        let rest = vstd::utf8::pop_first_scalar(a);
        assert(vstd::utf8::valid_utf8(rest));
        lemma_concat_boundary(rest, b);
        assert(vstd::utf8::length_of_first_scalar(a + b) == l) by {
            assert((a + b)[0] == a[0]);
        }
        assert(vstd::utf8::pop_first_scalar(a + b) =~= rest + b);
        assert(vstd::utf8::decode_first_scalar(a + b) == vstd::utf8::decode_first_scalar(a)) by {
            assert((a + b)[0] == a[0]);
            if l >= 2 {
                assert((a + b)[1] == a[1]);
            }
            if l >= 3 {
                assert((a + b)[2] == a[2]);
            }
            if l >= 4 {
                assert((a + b)[3] == a[3]);
            }
        }
        reveal_with_fuel(vstd::utf8::is_char_boundary, 2);
        assert(chars_of(a + b) == seq![vstd::utf8::decode_first_scalar(a + b) as char] + chars_of(rest + b));
        assert(chars_of(a) == seq![vstd::utf8::decode_first_scalar(a) as char] + chars_of(rest));
        assert(chars_of(a + b) =~= chars_of(a) + chars_of(b));
    }
}

/// Splits a text after its first `n` characters.
pub fn split_at_chars(s: &str, n: usize) -> (res: (&str, &str))
    requires
        n <= s@.len(),
        bytes_of(s).len() <= usize::MAX,
    ensures
        res.0@ == s@.take(n as int),
        res.1@ == s@.skip(n as int),
        bytes_of(s) == bytes_of(res.0) + bytes_of(res.1),
{
    proof {
        lemma_chars_of_str(s);
    }
    let mut rest = s;
    let mut pos: usize = 0;
    let ghost mut pre: Seq<u8> = Seq::empty();
    let mut k: usize = 0;
    proof {
        assert(s@.take(0) =~= Seq::<char>::empty());
        assert(s@.skip(0) =~= s@);
        assert(pre + bytes_of(s) =~= bytes_of(s));
        assert(chars_of(pre) =~= Seq::<char>::empty());
    }
    while k < n
        invariant
            k <= n,
            n <= s@.len(),
            bytes_of(s).len() <= usize::MAX,
            rest@ == s@.skip(k as int),
            bytes_of(s) == pre + bytes_of(rest),
            pos == pre.len(),
            vstd::utf8::valid_utf8(pre),
            chars_of(pre) == s@.take(k as int),
        decreases n - k,
    {
        let (head, tail) = split_first_char(rest);
        proof {
            lemma_chars_of_str(head);
            lemma_chars_of_str(tail);
            lemma_concat_boundary(pre, bytes_of(head));
        }
        pos = pos + head.len();
        proof {
            assert(chars_of(pre + bytes_of(head)) == s@.take(k + 1)) by {
                assert(head@ == seq![s@[k as int]]);
                assert(s@.take(k + 1) =~= s@.take(k as int) + seq![s@[k as int]]);
            }
            assert(bytes_of(s) =~= (pre + bytes_of(head)) + bytes_of(tail));
            pre = pre + bytes_of(head);
            assert(tail@ =~= s@.skip(k + 1));
        }
        rest = tail;
        k += 1;
    }
    proof {
        lemma_chars_of_str(rest);
        lemma_concat_boundary(pre, bytes_of(rest));
    }
    let res = s.split_at(pos);
    proof {
        assert(bytes_of(res.0) =~= pre);
        assert(bytes_of(res.1) =~= bytes_of(rest));
        lemma_chars_of_str(res.0);
        lemma_chars_of_str(res.1);
    }
    res
}

/// Whether two texts are equal.
pub fn str_eq(a: &str, b: &str) -> (r: bool)
    ensures
        r == (a@ == b@),
{
    proof {
        lemma_chars_of_str(a);
        lemma_chars_of_str(b);
    }
    let x = a.as_bytes();
    let y = b.as_bytes();
    if x.len() != y.len() {
        return false;
    }
    let mut i: usize = 0;
    while i < x.len()
        invariant
            i <= x@.len(),
            x@.len() == y@.len(),
            x@ == bytes_of(a),
            y@ == bytes_of(b),
            forall|t: int| 0 <= t < i ==> x@[t] == y@[t],
        decreases x.len() - i,
    {
        if x[i] != y[i] {
            assert(x@ != y@);
            return false;
        }
        i += 1;
    }
    assert(x@ =~= y@);
    true
}

/// The characters of a string slice.
pub fn str_chars(s: &str) -> (res: Vec<char>)
    ensures
        res@ == s@,
{
    let mut res: Vec<char> = Vec::new();
    for c in it: s.chars()
        invariant
            res@ == it.seq().take(it.index() as int),
    {
        res.push(c);
    }
    res
}

/// The characters of the first `k` bytes of `s`.
pub fn prefix_chars(s: &str, k: usize) -> (res: Vec<char>)
    requires
        is_boundary(s, k as int),
    ensures
        res@ == chars_of(bytes_of(s).take(k as int)),
{
    proof {
        lemma_chars_of_str(s);
    }
    let (head, _) = s.split_at(k);
    proof {
        lemma_chars_of_str(head);
        assert(bytes_of(head) =~= bytes_of(s).take(k as int));
    }
    str_chars(head)
}

/// The display width that `unicode-width` gives a character (`None` for
/// control characters).
pub uninterp spec fn unicode_char_width(c: char) -> Option<usize>;

/// Calls `unicode_width::UnicodeWidthChar::width`. Its source returns `None`
/// for the control characters (below U+0020 and U+007F..U+009F), `Some(1)` for
/// the other ASCII characters, and otherwise a table entry, which is at most 3.
#[verifier::external_body]
pub(crate) fn char_width(c: char) -> (w: Option<usize>)
    ensures
        w == unicode_char_width(c),
        (c as u32) < 0x20 || (0x7f <= (c as u32) && (c as u32) < 0xa0) ==> w is None,
        0x20 <= (c as u32) && (c as u32) < 0x7f ==> w == Some(1usize),
        w matches Some(n) ==> n <= 3,
{
    unicode_width::UnicodeWidthChar::width(c)
}

/// Width of a character, with `dflt` standing for control characters.
pub open spec fn width_or(c: char, dflt: usize) -> nat {
    match unicode_char_width(c) {
        Some(n) => n as nat,
        None => dflt as nat,
    }
}

/// Total display width of a character sequence.
pub open spec fn width_sum(cs: Seq<char>, dflt: usize) -> nat
    decreases cs.len(),
{
    if cs.len() == 0 {
        0
    } else {
        width_sum(cs.drop_last(), dflt) + width_or(cs.last(), dflt)
    }
}

/// Sum of the display widths of `cs`.
pub fn chars_width(cs: &Vec<char>, dflt: usize) -> (w: usize)
    requires
        dflt <= 3,
        cs@.len() <= usize::MAX / 3,
    ensures
        w == width_sum(cs@, dflt),
        w <= 3 * cs@.len(),
{
    let mut w: usize = 0;
    let mut i: usize = 0;
    while i < cs.len()
        invariant
            i <= cs@.len(),
            cs@.len() <= usize::MAX / 3,
            dflt <= 3,
            w == width_sum(cs@.take(i as int), dflt),
            w <= 3 * i,
        decreases cs.len() - i,
    {
        let c = cs[i];
        let cw = match char_width(c) {
            Some(n) => n,
            None => dflt,
        };
        assert(cs@.take(i + 1).drop_last() =~= cs@.take(i as int));
        w = w + cw;
        i += 1;
    }
    assert(cs@.take(i as int) =~= cs@);
    w
}

/// A prefix never decodes to more characters than it has bytes.
pub proof fn lemma_prefix_chars_len(s: &str, k: int)
    requires
        is_boundary(s, k),
    ensures
        chars_of(bytes_of(s).take(k)).len() <= k,
        0 <= k <= bytes_of(s).len(),
{
    lemma_chars_of_str(s);
    let b = bytes_of(s);
    reveal_with_fuel(vstd::utf8::is_char_boundary, 1);
    assert(0 <= k <= b.len());
    assert(vstd::utf8::valid_utf8(b.subrange(0, k)));
    assert(b.take(k) == b.subrange(0, k));
    lemma_decode_len(b.subrange(0, k));
}

proof fn lemma_decode_len(b: Seq<u8>)
    requires
        vstd::utf8::valid_utf8(b),
    ensures
        vstd::utf8::decode_utf8(b).len() <= b.len(),
    decreases b.len(),
{
    if b.len() > 0 {
        let p = vstd::utf8::pop_first_scalar(b);
        assert(vstd::utf8::valid_utf8(p));
        lemma_decode_len(p);
    }
}

/// Whether a character has the Unicode `White_Space` property: the 25 code
/// points U+0009 to U+000D, U+0020, U+0085, U+00A0, U+1680, U+2000 to
/// U+200A, U+2028, U+2029, U+202F, U+205F and U+3000.
pub open spec fn char_is_whitespace(c: char) -> bool {
    let n = c as int;
    ||| 0x09 <= n <= 0x0D
    ||| n == 0x20
    ||| n == 0x85
    ||| n == 0xA0
    ||| n == 0x1680
    ||| 0x2000 <= n <= 0x200A
    ||| n == 0x2028
    ||| n == 0x2029
    ||| n == 0x202F
    ||| n == 0x205F
    ||| n == 0x3000
}

/// Whether a character has the Unicode `White_Space` property, as
/// `char::is_whitespace` tests it.
pub(crate) fn is_whitespace(c: char) -> (b: bool)
    ensures
        b == char_is_whitespace(c),
{
    let n = c as u32;
    (0x09 <= n && n <= 0x0D) || n == 0x20 || n == 0x85 || n == 0xA0 || n == 0x1680 || (0x2000 <= n && n <= 0x200A)
        || n == 0x2028 || n == 0x2029 || n == 0x202F || n == 0x205F || n == 0x3000
}

/// The number of decimal digits of `n`.
pub open spec fn decimal_len(n: nat) -> nat
    decreases n,
{
    if n < 10 {
        1
    } else {
        1 + decimal_len(n / 10)
    }
}

pub open spec fn pow10(k: nat) -> nat
    decreases k,
{
    if k == 0 {
        1
    } else {
        10 * pow10((k - 1) as nat)
    }
}

proof fn lemma_decimal_len_bound(n: nat, k: nat)
    requires
        k >= 1,
        n < pow10(k),
    ensures
        decimal_len(n) <= k,
    decreases k,
{
    if n >= 10 {
        let p = pow10((k - 1) as nat);
        if k == 1 {
            assert(pow10(1) == 10) by {
                reveal_with_fuel(pow10, 2);
            }
        } else {
            assert(n / 10 < p) by (nonlinear_arith)
                requires
                    n < 10 * p,
            ;
            lemma_decimal_len_bound(n / 10, (k - 1) as nat);
        }
    }
}

/// The number of decimal digits of `n`, i.e. the length of `n.to_string()`.
pub fn decimal_digits(n: usize) -> (d: usize)
    ensures
        d == decimal_len(n as nat),
        1 <= d <= 20,
{
    proof {
        assert(pow10(20) == 100000000000000000000) by {
            reveal_with_fuel(pow10, 21);
        }
        lemma_decimal_len_bound(n as nat, 20);
    }
    let mut m = n;
    let mut d: usize = 1;
    while m >= 10
        invariant
            d + decimal_len(m as nat) == 1 + decimal_len(n as nat),
            1 <= d,
            d + decimal_len(m as nat) <= 21,
        decreases m,
    {
        m = m / 10;
        d = d + 1;
    }
    d
}

/// Encoding a concatenation concatenates the encodings.
pub proof fn lemma_encode_concat(a: Seq<char>, b: Seq<char>)
    ensures
        vstd::utf8::encode_utf8(a + b) == vstd::utf8::encode_utf8(a) + vstd::utf8::encode_utf8(b),
    decreases a.len(),
{
    if a.len() == 0 {
        assert(a + b =~= b);
        assert(vstd::utf8::encode_utf8(a) =~= Seq::<u8>::empty());
        assert(vstd::utf8::encode_utf8(a) + vstd::utf8::encode_utf8(b) =~= vstd::utf8::encode_utf8(b));
    } else {
        lemma_encode_concat(a.drop_first(), b);
        assert((a + b).drop_first() =~= a.drop_first() + b);
        assert((a + b)[0] == a[0]);
        assert(vstd::utf8::encode_utf8(a + b) =~= vstd::utf8::encode_scalar(a[0] as u32)
            + vstd::utf8::encode_utf8(a.drop_first() + b));
    }
}

} // verus!
