//! Segment names as text.
use vstd::prelude::*;
use crate::bytes::u32_bytes;

verus! {

/// The characters a byte stands for (Latin-1).
pub open spec fn byte_char(b: u8) -> char {
    b as char
}

/// The four characters of a segment name stored as a 32-bit number, one
/// per byte in file order.
pub open spec fn header_chars(h: u32) -> Seq<char> {
    u32_bytes(h).map_values(|b: u8| byte_char(b))
}

/// Collects characters into a `String` (std's `FromIterator<char>`), which
/// holds exactly those characters.
#[verifier::external_body]
pub(crate) fn string_from_chars(cs: &Vec<char>) -> (r: String)
    ensures
        r@ == cs@,
{
    cs.iter().collect()
}

fn char_of(b: u8) -> (r: char)
    ensures
        r == byte_char(b),
{
    b as char
}

/// The text of a segment name.
pub fn header_to_string(h: u32) -> (r: String)
    ensures
        r@ == header_chars(h),
{
    let mut cs: Vec<char> = Vec::new();
    cs.push(char_of((h % 256) as u8));
    cs.push(char_of(((h / 256) % 256) as u8));
    cs.push(char_of(((h / 65536) % 256) as u8));
    cs.push(char_of((h / 16777216) as u8));
    assert(cs@ =~= header_chars(h));
    string_from_chars(&cs)
}

} // verus!

verus! {

/// The upper-case hexadecimal digit of a value below 16.
pub open spec fn hex_digit(d: nat) -> char {
    if d < 10 {
        (48 + d) as char
    } else {
        (55 + d) as char
    }
}

/// The upper-case hexadecimal digits of `n`, without leading zeros
/// (zero is "0").
pub open spec fn hex_digits(n: nat) -> Seq<char>
    decreases n,
{
    if n < 16 {
        seq![hex_digit(n)]
    } else {
        hex_digits(n / 16).push(hex_digit(n % 16))
    }
}

/// The digits of `n` padded with zeros in front to at least `width`.
pub open spec fn hex_padded(n: nat, width: nat) -> Seq<char> {
    let d = hex_digits(n);
    if d.len() >= width {
        d
    } else {
        Seq::new((width - d.len()) as nat, |i: int| '0') + d
    }
}

fn hex_digit_char(d: u64) -> (r: char)
    requires
        d < 16,
    ensures
        r == hex_digit(d as nat),
{
    let v: u8 = if d < 10 {
        48 + d as u8
    } else {
        55 + d as u8
    };
    v as char
}

fn push_hex(out: &mut Vec<char>, n: u64)
    ensures
        final(out)@ == old(out)@ + hex_digits(n as nat),
    decreases n,
{
    if n >= 16 {
        push_hex(out, n / 16);
    }
    let c = hex_digit_char(n % 16);
    out.push(c);
    proof {
        if n >= 16 {
            assert(old(out)@ + hex_digits(n as nat) =~= old(out)@ + hex_digits((n / 16) as nat) + seq![c]);
        } else {
            assert(old(out)@ + hex_digits(n as nat) =~= old(out)@ + seq![c]);
        }
    }
}

/// `n` in upper-case hexadecimal, padded with zeros to at least `width`
/// digits.
pub fn hex_string(n: u64, width: usize) -> (r: String)
    requires
        width <= 64,
    ensures
        r@ == hex_padded(n as nat, width as nat),
{
    let mut digits: Vec<char> = Vec::new();
    push_hex(&mut digits, n);
    assert(digits@ =~= hex_digits(n as nat));
    let mut out: Vec<char> = Vec::new();
    if digits.len() < width {
        let pad = width - digits.len();
        let mut i: usize = 0;
        while i < pad
            invariant
                i <= pad,
                out@ == Seq::new(i as nat, |k: int| '0'),
            decreases pad - i,
        {
            out.push('0');
            i += 1;
            assert(out@ =~= Seq::new(i as nat, |k: int| '0'));
        }
    }
    let mut j: usize = 0;
    let ghost head = out@;
    while j < digits.len()
        invariant
            j <= digits@.len(),
            out@ == head + digits@.take(j as int),
        decreases digits@.len() - j,
    {
        out.push(digits[j]);
        j += 1;
        assert(out@ =~= head + digits@.take(j as int));
    }
    assert(digits@.take(j as int) =~= digits@);
    proof {
        if digits@.len() >= width {
            assert(head =~= Seq::<char>::empty());
            assert(out@ =~= digits@);
        }
    }
    string_from_chars(&out)
}

} // verus!

verus! {

/// The characters of bytes taken one by one (Latin-1).
pub open spec fn latin1(bytes: Seq<u8>) -> Seq<char> {
    bytes.map_values(|b: u8| byte_char(b))
}

/// Bytes as text, one character per byte.
pub fn latin1_string(bytes: &[u8]) -> (r: String)
    ensures
        r@ == latin1(bytes@),
{
    let mut cs: Vec<char> = Vec::new();
    let mut i: usize = 0;
    while i < bytes.len()
        invariant
            i <= bytes@.len(),
            cs@ == latin1(bytes@.take(i as int)),
        decreases bytes@.len() - i,
    {
        cs.push(char_of(bytes[i]));
        i += 1;
        assert(cs@ =~= latin1(bytes@.take(i as int)));
    }
    assert(bytes@.take(i as int) =~= bytes@);
    string_from_chars(&cs)
}

} // verus!
