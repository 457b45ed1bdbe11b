//! Writing text: numbers in decimal, padding and repeated characters.
use vstd::prelude::*;
use vstd::string::StringExecFns;

verus! {

/// The character of a decimal digit.
pub open spec fn digit_char(d: nat) -> char {
    if d == 0 {
        '0'
    } else if d == 1 {
        '1'
    } else if d == 2 {
        '2'
    } else if d == 3 {
        '3'
    } else if d == 4 {
        '4'
    } else if d == 5 {
        '5'
    } else if d == 6 {
        '6'
    } else if d == 7 {
        '7'
    } else if d == 8 {
        '8'
    } else {
        '9'
    }
}

/// A number written in decimal.
pub open spec fn decimal(n: nat) -> Seq<char>
    decreases n,
{
    if n < 10 {
        seq![digit_char(n)]
    } else {
        decimal(n / 10).push(digit_char(n % 10))
    }
}

/// `n` copies of `c`.
pub open spec fn repeat_char(c: char, n: nat) -> Seq<char> {
    Seq::new(n, |i: int| c)
}

/// `s` right-aligned in a field `width` characters wide.
pub open spec fn pad_left(s: Seq<char>, width: nat) -> Seq<char> {
    if s.len() < width {
        repeat_char(' ', (width - s.len()) as nat) + s
    } else {
        s
    }
}

fn digit_str(d: usize) -> (s: &'static str)
    requires
        d < 10,
    ensures
        s@ == seq![digit_char(d as nat)],
{
    proof {
        reveal_strlit("0");
        reveal_strlit("1");
        reveal_strlit("2");
        reveal_strlit("3");
        reveal_strlit("4");
        reveal_strlit("5");
        reveal_strlit("6");
        reveal_strlit("7");
        reveal_strlit("8");
        reveal_strlit("9");
    }
    if d == 0 {
        "0"
    } else if d == 1 {
        "1"
    } else if d == 2 {
        "2"
    } else if d == 3 {
        "3"
    } else if d == 4 {
        "4"
    } else if d == 5 {
        "5"
    } else if d == 6 {
        "6"
    } else if d == 7 {
        "7"
    } else if d == 8 {
        "8"
    } else {
        "9"
    }
}

/// The decimal digits of `n`, most significant first.
fn digits_of(n: usize) -> (ds: Vec<usize>)
    ensures
        ds@.len() == decimal(n as nat).len(),
        forall|i: int| 0 <= i < ds@.len() ==> #[trigger] ds@[i] < 10 && digit_char(ds@[i] as nat) == decimal(n as nat)[i],
    decreases n,
{
    if n < 10 {
        let mut ds: Vec<usize> = Vec::new();
        ds.push(n);
        ds
    } else {
        let mut ds = digits_of(n / 10);
        ds.push(n % 10);
        proof {
            let d = decimal(n as nat);
            assert(d == decimal((n / 10) as nat).push(digit_char((n % 10) as nat)));
        }
        ds
    }
}

/// Appends `n` in decimal.
pub fn push_decimal(out: &mut String, n: usize)
    ensures
        final(out)@ == old(out)@ + decimal(n as nat),
{
    let ds = digits_of(n);
    let ghost start = out@;
    let mut i: usize = 0;
    while i < ds.len()
        invariant
            i <= ds@.len(),
            ds@.len() == decimal(n as nat).len(),
            forall|k: int| 0 <= k < ds@.len() ==> #[trigger] ds@[k] < 10 && digit_char(ds@[k] as nat) == decimal(n as nat)[k],
            out@ == start + decimal(n as nat).take(i as int),
        decreases ds.len() - i,
    {
        let s = digit_str(ds[i]);
        out.append(s);
        assert(decimal(n as nat).take(i + 1) =~= decimal(n as nat).take(i as int).push(decimal(n as nat)[i as int]));
        i += 1;
    }
    assert(decimal(n as nat).take(i as int) =~= decimal(n as nat));
}

/// The number of decimal digits `n` is written with.
pub fn decimal_width(n: usize) -> (w: usize)
    ensures
        w == decimal(n as nat).len(),
{
    let ds = digits_of(n);
    ds.len()
}

/// Appends `n` copies of the one-character text `c`.
pub fn push_repeat(out: &mut String, c: &str, n: usize)
    requires
        c@.len() == 1,
    ensures
        final(out)@ == old(out)@ + repeat_char(c@[0], n as nat),
{
    let ghost start = out@;
    let mut i: usize = 0;
    while i < n
        invariant
            i <= n,
            c@.len() == 1,
            out@ == start + repeat_char(c@[0], i as nat),
        decreases n - i,
    {
        out.append(c);
        assert(repeat_char(c@[0], (i + 1) as nat) =~= repeat_char(c@[0], i as nat) + c@);
        i += 1;
    }
}

/// Appends `n` spaces.
pub fn push_spaces(out: &mut String, n: usize)
    ensures
        final(out)@ == old(out)@ + repeat_char(' ', n as nat),
{
    proof {
        reveal_strlit(" ");
    }
    push_repeat(out, " ", n);
}

/// Appends `n` right-aligned in a field `width` characters wide.
pub fn push_decimal_padded(out: &mut String, n: usize, width: usize)
    ensures
        final(out)@ == old(out)@ + pad_left(decimal(n as nat), width as nat),
{
    let w = decimal_width(n);
    if w < width {
        push_spaces(out, width - w);
    }
    push_decimal(out, n);
    proof {
        if w < width {
        }
    }
}

/// Calls `String::push`, which the standard library documents as appending
/// the given character to the end of the string.
#[verifier::external_body]
pub(crate) fn push_char(out: &mut String, c: char)
    ensures
        final(out)@ == old(out)@.push(c),
{
    out.push(c);
}

} // verus!
