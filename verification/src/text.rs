//! Characters, decimal numbers and byte classes shared by the other modules.
use vstd::prelude::*;

verus! {

/// `String::push` appends one character and leaves the rest of the string as it was.
pub assume_specification[ std::string::String::push ](s: &mut std::string::String, ch: char)
    ensures
        final(s)@ == old(s)@.push(ch),
;

/// `String::pop` takes the last character off and returns it; on an empty string it
/// returns `None` and changes nothing.
pub assume_specification[ std::string::String::pop ](s: &mut std::string::String) -> (r: Option<
    char,
>)
    ensures
        old(s)@.len() == 0 ==> r is None && final(s)@ == old(s)@,
        old(s)@.len() > 0 ==> r == Some(old(s)@.last()) && final(s)@ == old(s)@.drop_last(),
;

/// The bytes that ASCII counts as whitespace: space, tab, line feed, form feed and carriage return.
pub open spec fn ascii_space(b: u8) -> bool {
    b == 0x20 || b == 0x09 || b == 0x0a || b == 0x0c || b == 0x0d
}

/// Tells whether `b` is ASCII whitespace.
pub fn is_ascii_space(b: u8) -> (r: bool)
    ensures
        r == ascii_space(b),
{
    b == 0x20 || b == 0x09 || b == 0x0a || b == 0x0c || b == 0x0d
}

/// A count that stops at `usize::MAX`.
pub open spec fn saturated(n: nat) -> usize {
    if n <= usize::MAX {
        n as usize
    } else {
        usize::MAX
    }
}

/// The product of two counts, or `usize::MAX` where it does not fit.
pub fn saturating_product(a: usize, b: usize) -> (r: usize)
    ensures
        r == saturated((a * b) as nat),
{
    proof {
        assert(a * b >= 0) by (nonlinear_arith);
    }
    match a.checked_mul(b) {
        Some(p) => p,
        None => usize::MAX,
    }
}

/// Two spaces for each level.
pub open spec fn indent(depth: nat) -> Seq<u8> {
    Seq::new(saturated(2 * depth) as nat, |i: int| 0x20u8)
}

/// Appends the indentation of a line that stands `depth` levels deep.
pub fn push_indent(out: &mut Vec<u8>, depth: usize)
    ensures
        final(out)@ == old(out)@ + indent(depth as nat),
{
    let width: usize = saturating_product(depth, 2);
    let mut i: usize = 0;
    proof {
        assert(out@ =~= old(out)@ + indent(depth as nat).take(0));
    }
    while i < width
        invariant
            i <= width,
            width == saturated(2 * depth as nat),
            out@ == old(out)@ + indent(depth as nat).take(i as int),
        decreases width - i,
    {
        out.push(0x20);
        i = i + 1;
        proof {
            assert(out@ =~= old(out)@ + indent(depth as nat).take(i as int));
        }
    }
    proof {
        assert(indent(depth as nat).take(i as int) =~= indent(depth as nat));
    }
}

/// The lesser of two numbers.
pub open spec fn lesser(a: int, b: int) -> int {
    if a <= b {
        a
    } else {
        b
    }
}

/// The character that writes the digit `d`, for `d` below ten.
pub open spec fn digit_char(d: nat) -> char {
    (48 + d) as char
}

/// `n` in decimal, without leading zeros.
pub open spec fn decimal(n: nat) -> Seq<char>
    decreases n,
{
    if n < 10 {
        seq![digit_char(n)]
    } else {
        decimal(n / 10).push(digit_char(n % 10))
    }
}

/// Appends `n` in decimal to `out`.
pub fn push_decimal(out: &mut String, n: usize)
    ensures
        final(out)@ == old(out)@ + decimal(n as nat),
    decreases n,
{
    if n >= 10 {
        push_decimal(out, n / 10);
    }
    let d: u8 = 48u8 + (n % 10) as u8;
    out.push(d as char);
    proof {
        assert(final(out)@ =~= old(out)@ + decimal(n as nat));
    }
}

/// The first `max_width` characters of `s`, or all of them where there are fewer.
pub fn clip_to_width(s: &str, max_width: usize) -> (r: String)
    ensures
        r@ == s@.take(lesser(max_width as int, s@.len() as int)),
{
    let mut out = String::new();
    let mut taken: usize = 0;
    for c in it: s.chars()
        invariant
            it.seq() == s@,
            taken <= max_width,
            taken == lesser(it.index() as int, max_width as int),
            out@ == s@.take(taken as int),
            it.index() <= s@.len(),
    {
        if taken < max_width {
            out.push(c);
            taken = taken + 1;
            assert(out@ =~= s@.take(taken as int));
        }
    }
    out
}

} // verus!
