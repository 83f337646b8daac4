//! Small text utilities shared by the lexer and the interpreter: decimal
//! rendering of integers, trimming of an input line, and the two standard
//! library functions whose behaviour is taken on trust.
use vstd::prelude::*;

verus! {

/// `String::push` of the standard library: the string afterwards is the
/// string before with `ch` appended as its last character.
pub assume_specification[ String::push ](s: &mut String, ch: char)
    ensures
        final(s)@ == old(s)@.push(ch),
;

/// `char::from_u32` of the standard library: a number is turned into the
/// character with that code point exactly when it is a Unicode scalar value,
/// that is at most `0x10FFFF` and outside the surrogate range
/// `0xD800..=0xDFFF`; any other number gives `None`.
pub assume_specification[ char::from_u32 ](i: u32) -> (r: Option<char>)
    ensures
        is_scalar_value(i as int) ==> r == Some(i as char),
        !is_scalar_value(i as int) ==> r is None,
;

/// Whether `v` is the code point of some `char`.
pub open spec fn is_scalar_value(v: int) -> bool {
    0 <= v <= 0xD7FF || 0xE000 <= v <= 0x10FFFF
}

/// The character of the decimal digit `d`, for `0 <= d <= 9`.
pub open spec fn digit(d: int) -> char {
    (48 + d) as char
}

/// The decimal digits of `n`, most significant first, without leading zeros.
pub open spec fn digits(n: nat) -> Seq<char>
    decreases n,
{
    if n < 10 {
        seq![digit(n as int)]
    } else {
        digits(n / 10).push(digit((n % 10) as int))
    }
}

/// The decimal form of `n`: a minus sign for a negative number, then the
/// digits of its magnitude.
pub open spec fn decimal(n: int) -> Seq<char> {
    if n < 0 {
        seq!['-'] + digits((-n) as nat)
    } else {
        digits(n as nat)
    }
}

/// Appends the decimal digits of `n` to `out`.
pub fn push_digits(out: &mut String, n: u32)
    ensures
        final(out)@ == old(out)@ + digits(n as nat),
    decreases n,
{
    if n >= 10 {
        push_digits(out, n / 10);
    }
    let d: u8 = (n % 10) as u8;
    out.push((48u8 + d) as char);
}

/// Appends the decimal form of `n` to `out`.
pub fn push_decimal(out: &mut String, n: i32)
    ensures
        final(out)@ == old(out)@ + decimal(n as int),
{
    if n < 0 {
        out.push('-');
        let magnitude: i64 = -(n as i64);
        push_digits(out, magnitude as u32);
    } else {
        push_digits(out, n as u32);
    }
}

/// Appends the text `s` to `out`.
pub fn push_text(out: &mut String, s: &str)
    ensures
        final(out)@ == old(out)@ + s@,
{
    let it = s.chars();
    for c in iter: it
        invariant
            iter.seq() == s@,
            out@ == old(out)@ + iter.seq().take(iter.index()),
    {
        out.push(c);
    }
}

/// Whether `c` is white space: the characters of Unicode's `White_Space`
/// property.
pub open spec fn is_blank(c: char) -> bool {
    let v = c as int;
    ||| 0x09 <= v <= 0x0D
    ||| v == 0x20
    ||| v == 0x85
    ||| v == 0xA0
    ||| v == 0x1680
    ||| 0x2000 <= v <= 0x200A
    ||| v == 0x2028
    ||| v == 0x2029
    ||| v == 0x202F
    ||| v == 0x205F
    ||| v == 0x3000
}

/// `s` without its leading and trailing white space.
pub open spec fn trimmed(s: Seq<char>) -> Seq<char>
    decreases s.len(),
{
    if s.len() > 0 && is_blank(s.first()) {
        trimmed(s.drop_first())
    } else if s.len() > 0 && is_blank(s.last()) {
        trimmed(s.drop_last())
    } else {
        s
    }
}

/// The character that a line stands for: the one character left after
/// trimming, if exactly one is left.
pub open spec fn single_char(line: Seq<char>) -> Option<char> {
    let t = trimmed(line);
    if t.len() == 1 {
        Some(t[0])
    } else {
        None
    }
}

/// Tells whether `c` is white space.
pub fn blank(c: char) -> (b: bool)
    ensures
        b == is_blank(c),
{
    let v: u32 = c as u32;
    (0x09 <= v && v <= 0x0D) || v == 0x20 || v == 0x85 || v == 0xA0 || v == 0x1680 || (0x2000 <= v
        && v <= 0x200A) || v == 0x2028 || v == 0x2029 || v == 0x202F || v == 0x205F || v == 0x3000
}

/// Reads a line as one character: white space around it is ignored, and
/// anything but exactly one character in between is refused.
pub fn parse_char(line: &str) -> (r: Option<char>)
    ensures
        r == single_char(line@),
{
    let mut chars: Vec<char> = Vec::new();
    let it = line.chars();
    for c in iter: it
        invariant
            iter.seq() == line@,
            chars@ == iter.seq().take(iter.index()),
    {
        chars.push(c);
    }
    assert(chars@ == line@);
    let mut lo: usize = 0;
    let mut hi: usize = chars.len();
    assert(chars@.subrange(0, hi as int) == chars@);
    while lo < hi && blank(chars[lo])
        invariant
            lo <= hi == chars.len(),
            trimmed(chars@) == trimmed(chars@.subrange(lo as int, hi as int)),
        decreases hi - lo,
    {
        assert(chars@.subrange(lo as int, hi as int).drop_first() == chars@.subrange(
            lo as int + 1,
            hi as int,
        ));
        lo = lo + 1;
    }
    while lo < hi && blank(chars[hi - 1])
        invariant
            lo <= hi <= chars.len(),
            lo < hi ==> !is_blank(chars@[lo as int]),
            trimmed(chars@) == trimmed(chars@.subrange(lo as int, hi as int)),
        ensures
            lo < hi ==> !is_blank(chars@[hi - 1]),
        decreases hi - lo,
    {
        assert(chars@.subrange(lo as int, hi as int).drop_last() == chars@.subrange(
            lo as int,
            hi as int - 1,
        ));
        hi = hi - 1;
    }
    assert(trimmed(chars@) == chars@.subrange(lo as int, hi as int));
    if hi - lo == 1 {
        Some(chars[lo])
    } else {
        None
    }
}

} // verus!
