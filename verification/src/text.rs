//! Building strings: characters, decimal numerals.

use vstd::prelude::*;

verus! {

/// The character that writes the decimal digit `d`.
pub open spec fn digit_char(d: int) -> char {
    if d == 0 {
        '0'
    } else if d == 1 {
        '1'
    } else if d == 2 {
        '2'
    } else if d == 3 {
        '3'
    } else if d == 4 {
        '4'
    } else if d == 5 {
        '5'
    } else if d == 6 {
        '6'
    } else if d == 7 {
        '7'
    } else if d == 8 {
        '8'
    } else {
        '9'
    }
}

/// The decimal numeral of a natural number, most significant digit first,
/// without leading zeros.
pub open spec fn digits(n: nat) -> Seq<char>
    decreases n,
{
    if n < 10 {
        seq![digit_char(n as int)]
    } else {
        digits(n / 10).push(digit_char((n % 10) as int))
    }
}

/// The decimal numeral of an integer: a minus sign before the digits of a
/// negative number.
pub open spec fn decimal(n: int) -> Seq<char> {
    if n < 0 {
        seq!['-'] + digits((-n) as nat)
    } else {
        digits(n as nat)
    }
}

/// `String::push` of the standard library: the character is appended to the
/// end of the string and nothing else changes.
#[verifier::external_body]
pub(crate) fn push_char(s: &mut String, c: char)
    ensures
        final(s)@ == old(s)@.push(c),
{
    s.push(c);
}

/// The string made of the given characters, in order.
pub fn string_of_chars(cs: &Vec<char>) -> (out: String)
    ensures
        out@ == cs@,
{
    let mut out = String::new();
    let mut i: usize = 0;
    while i < cs.len()
        invariant
            i <= cs.len(),
            out@ == cs@.take(i as int),
        decreases cs.len() - i,
    {
        push_char(&mut out, cs[i]);
        assert(cs@.take(i + 1) =~= cs@.take(i as int).push(cs@[i as int]));
        i += 1;
    }
    assert(cs@.take(cs.len() as int) =~= cs@);
    out
}

fn digit_of(d: u64) -> (c: char)
    requires
        d < 10,
    ensures
        c == digit_char(d as int),
{
    if d == 0 {
        '0'
    } else if d == 1 {
        '1'
    } else if d == 2 {
        '2'
    } else if d == 3 {
        '3'
    } else if d == 4 {
        '4'
    } else if d == 5 {
        '5'
    } else if d == 6 {
        '6'
    } else if d == 7 {
        '7'
    } else if d == 8 {
        '8'
    } else {
        '9'
    }
}

fn digit_vec(n: u64) -> (buf: Vec<char>)
    ensures
        buf@ == digits(n as nat),
{
    let mut buf: Vec<char> = Vec::new();
    let mut rest: u64 = n;
    while rest >= 10
        invariant
            digits(n as nat) == digits(rest as nat) + buf@,
        decreases rest,
    {
        let c = digit_of(rest % 10);
        let ghost before = buf@;
        buf.insert(0, c);
        assert(buf@ =~= seq![c] + before);
        assert(digits(rest as nat) == digits((rest / 10) as nat).push(c));
        assert(digits((rest / 10) as nat).push(c) + before =~= digits((rest / 10) as nat) + buf@);
        rest = rest / 10;
    }
    let c = digit_of(rest);
    let ghost before = buf@;
    buf.insert(0, c);
    assert(buf@ =~= digits(rest as nat) + before);
    buf
}

/// Writes an unsigned number in decimal.
pub fn unsigned_decimal(n: u64) -> (out: String)
    ensures
        out@ == decimal(n as int),
{
    let buf = digit_vec(n);
    string_of_chars(&buf)
}

/// Writes a signed number in decimal.
pub fn signed_decimal(n: i64) -> (out: String)
    ensures
        out@ == decimal(n as int),
{
    if n < 0 {
        let magnitude: u64 = ((-(n + 1)) as u64) + 1;
        let mut buf = digit_vec(magnitude);
        let ghost body = buf@;
        buf.insert(0, '-');
        assert(buf@ =~= seq!['-'] + body);
        string_of_chars(&buf)
    } else {
        let buf = digit_vec(n as u64);
        string_of_chars(&buf)
    }
}

/// The texts of a string sequence, in order.
pub open spec fn string_views(ss: Seq<String>) -> Seq<Seq<char>> {
    Seq::new(ss.len(), |i: int| ss[i]@)
}

/// The string that holds the text of `s`.
pub fn owned(s: &str) -> (out: String)
    ensures
        out@ == s@,
{
    s.to_owned()
}

/// `a` followed by `b`.
pub fn joined(a: String, b: &str) -> (out: String)
    ensures
        out@ == a@ + b@,
{
    let mut out = a;
    out.append(b);
    out
}

} // verus!
