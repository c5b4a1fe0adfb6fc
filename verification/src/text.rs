//! Text helpers over character sequences: literals, truncation with an
//! ellipsis, padding, decimal numbers.
use vstd::prelude::*;

verus! {

broadcast use vstd::string::axiom_spec_iter;

/// The characters of a string.
pub fn chars_of(s: &str) -> (r: Vec<char>)
    ensures
        r@ == s@,
{
    let mut r: Vec<char> = Vec::new();
    for c in it: s.chars()
        invariant
            r@ == it.seq().take(it.index() as int),
            it.seq() == s@,
    {
        r.push(c);
    }
    r
}

/// `s` truncated to at most `max` characters, ending in `…` when cut.
pub open spec fn fit_spec(s: Seq<char>, max: int) -> Seq<char> {
    if s.len() <= max {
        s
    } else if max <= 0 {
        Seq::empty()
    } else {
        s.take(max - 1).push('…')
    }
}

/// `n` spaces.
pub open spec fn spaces(n: int) -> Seq<char> {
    Seq::new(if n < 0 { 0 } else { n as nat }, |i: int| ' ')
}

/// `s` fitted to `width` characters, padded with spaces on the right to
/// exactly `width`.
pub open spec fn fitpad_spec(s: Seq<char>, width: int) -> Seq<char> {
    let t = fit_spec(s, width);
    if t.len() < width {
        t + spaces(width - t.len())
    } else {
        t
    }
}

pub fn append(out: &mut Vec<char>, s: &Vec<char>)
    ensures
        final(out)@ == old(out)@ + s@,
{
    let ghost o = out@;
    let mut i: usize = 0;
    while i < s.len()
        invariant
            i <= s.len(),
            out@ == o + s@.take(i as int),
        decreases s.len() - i,
    {
        out.push(s[i]);
        i = i + 1;
        assert(out@ =~= o + s@.take(i as int));
    }
    assert(s@.take(s@.len() as int) =~= s@);
}

pub fn copy_chars(s: &Vec<char>) -> (r: Vec<char>)
    ensures
        r@ == s@,
{
    let mut r: Vec<char> = Vec::new();
    append(&mut r, s);
    assert(r@ =~= s@);
    r
}

/// Truncate `s` to at most `max` Unicode code points, appending `…` if cut.
pub fn fit(s: &Vec<char>, max: usize) -> (r: Vec<char>)
    ensures
        r@ == fit_spec(s@, max as int),
{
    if s.len() <= max {
        copy_chars(s)
    } else if max == 0 {
        Vec::new()
    } else {
        let mut out: Vec<char> = Vec::new();
        let mut i: usize = 0;
        while i < max - 1
            invariant
                i <= max - 1,
                max - 1 < s@.len(),
                out@ == s@.take(i as int),
            decreases max - 1 - i,
        {
            out.push(s[i]);
            i = i + 1;
            assert(out@ =~= s@.take(i as int));
        }
        out.push('…');
        out
    }
}

/// Like `fit`, and also pads with spaces on the right to exactly `width`
/// characters.
pub fn fitpad(s: &Vec<char>, width: usize) -> (r: Vec<char>)
    ensures
        r@ == fitpad_spec(s@, width as int),
{
    let mut t = fit(s, width);
    let n = t.len();
    if n < width {
        let ghost t0 = t@;
        let mut i: usize = n;
        while i < width
            invariant
                n <= i <= width,
                t@ == t0 + spaces(i - n),
            decreases width - i,
        {
            t.push(' ');
            i = i + 1;
            assert(t@ =~= t0 + spaces(i - n));
        }
    }
    t
}

pub open spec fn digit_char(d: int) -> char {
    (48 + d) as char
}

/// Decimal digits of `n`.
pub open spec fn decimal_spec(n: nat) -> Seq<char>
    decreases n,
{
    if n < 10 {
        seq![digit_char(n as int)]
    } else {
        decimal_spec(n / 10).push(digit_char((n % 10) as int))
    }
}

fn digit(d: usize) -> (c: char)
    requires
        d < 10,
    ensures
        c == digit_char(d as int),
{
    if d == 0 {
        '0'
    } else if d == 1 {
        '1'
    } else if d == 2 {
        '2'
    } else if d == 3 {
        '3'
    } else if d == 4 {
        '4'
    } else if d == 5 {
        '5'
    } else if d == 6 {
        '6'
    } else if d == 7 {
        '7'
    } else if d == 8 {
        '8'
    } else {
        '9'
    }
}

/// `n` written in decimal.
pub fn decimal(n: usize) -> (r: Vec<char>)
    ensures
        r@ == decimal_spec(n as nat),
    decreases n,
{
    if n < 10 {
        let mut v: Vec<char> = Vec::new();
        v.push(digit(n));
        assert(v@ =~= seq![digit_char(n as int)]);
        v
    } else {
        let mut v = decimal(n / 10);
        v.push(digit(n % 10));
        v
    }
}

} // verus!
