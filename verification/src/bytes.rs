//! Little-endian integer encoding and decoding over byte sequences.
use vstd::prelude::*;

verus! {

/// The unsigned 16-bit value stored little-endian at `p`.
pub open spec fn le16(s: Seq<u8>, p: int) -> u16 {
    (s[p] as int + 256 * (s[p + 1] as int)) as u16
}

/// The unsigned 32-bit value stored little-endian at `p`.
pub open spec fn le32(s: Seq<u8>, p: int) -> u32 {
    (s[p] as int + 256 * (s[p + 1] as int) + 65536 * (s[p + 2] as int) + 16777216 * (
    s[p + 3] as int)) as u32
}

/// Two's complement reading of a 16-bit pattern.
pub open spec fn signed16(u: u16) -> i16 {
    if u >= 0x8000 {
        (u - 0x10000) as i16
    } else {
        u as i16
    }
}

/// Two's complement reading of a 32-bit pattern.
pub open spec fn signed32(u: u32) -> i32 {
    if u >= 0x8000_0000 {
        (u - 0x1_0000_0000) as i32
    } else {
        u as i32
    }
}

/// The 16-bit pattern of a signed value.
pub open spec fn pattern16(v: i16) -> u16 {
    if v < 0 {
        (v + 0x10000) as u16
    } else {
        v as u16
    }
}

/// The 32-bit pattern of a signed value.
pub open spec fn pattern32(v: i32) -> u32 {
    if v < 0 {
        (v + 0x1_0000_0000) as u32
    } else {
        v as u32
    }
}

pub open spec fn le_i16(s: Seq<u8>, p: int) -> i16 {
    signed16(le16(s, p))
}

pub open spec fn le_i32(s: Seq<u8>, p: int) -> i32 {
    signed32(le32(s, p))
}

/// Little-endian bytes of a 16-bit value.
pub open spec fn u16_bytes(v: u16) -> Seq<u8> {
    seq![(v % 256) as u8, (v / 256) as u8]
}

/// Little-endian bytes of a 32-bit value.
pub open spec fn u32_bytes(v: u32) -> Seq<u8> {
    seq![(v % 256) as u8, ((v / 256) % 256) as u8, ((v / 65536) % 256) as u8, (v / 16777216) as u8]
}

pub open spec fn i16_bytes(v: i16) -> Seq<u8> {
    u16_bytes(pattern16(v))
}

pub open spec fn i32_bytes(v: i32) -> Seq<u8> {
    u32_bytes(pattern32(v))
}

/// `n` zero bytes.
pub open spec fn zeros(n: nat) -> Seq<u8> {
    Seq::new(n, |i: int| 0u8)
}

/// Number of zero bytes that bring a length up to a multiple of four.
pub open spec fn pad_len4(n: nat) -> nat {
    ((4 - (n % 4)) % 4) as nat
}

/// A byte sequence followed by zero bytes up to a multiple of four.
pub open spec fn pad4(s: Seq<u8>) -> Seq<u8> {
    s + zeros(pad_len4(s.len()))
}

pub proof fn lemma_u16_roundtrip(v: u16)
    ensures
        le16(u16_bytes(v), 0) == v,
        u16_bytes(v).len() == 2,
{
}

pub proof fn lemma_u32_roundtrip(v: u32)
    ensures
        le32(u32_bytes(v), 0) == v,
        u32_bytes(v).len() == 4,
{
    let b = u32_bytes(v);
    assert(b[0] == (v % 256) as u8 && b[1] == ((v / 256) % 256) as u8 && b[2] == ((v / 65536)
        % 256) as u8 && b[3] == (v / 16777216) as u8);
    assert((v % 256) + 256 * ((v / 256) % 256) + 65536 * ((v / 65536) % 256) + 16777216 * (v
        / 16777216) == v) by (bit_vector);
}

pub proof fn lemma_i16_roundtrip(v: i16)
    ensures
        le_i16(i16_bytes(v), 0) == v,
        i16_bytes(v).len() == 2,
{
    lemma_u16_roundtrip(pattern16(v));
}

pub proof fn lemma_i32_roundtrip(v: i32)
    ensures
        le_i32(i32_bytes(v), 0) == v,
        i32_bytes(v).len() == 4,
{
    lemma_u32_roundtrip(pattern32(v));
}

/// Reading at an offset inside a concatenation reads the right-hand part.
pub proof fn lemma_le16_shift(a: Seq<u8>, b: Seq<u8>, p: int)
    requires
        0 <= p,
        p + 2 <= b.len(),
    ensures
        le16(a + b, a.len() + p) == le16(b, p),
{
    assert((a + b)[a.len() + p] == b[p]);
    assert((a + b)[a.len() + p + 1] == b[p + 1]);
}

pub proof fn lemma_le32_shift(a: Seq<u8>, b: Seq<u8>, p: int)
    requires
        0 <= p,
        p + 4 <= b.len(),
    ensures
        le32(a + b, a.len() + p) == le32(b, p),
{
    assert((a + b)[a.len() + p] == b[p]);
    assert((a + b)[a.len() + p + 1] == b[p + 1]);
    assert((a + b)[a.len() + p + 2] == b[p + 2]);
    assert((a + b)[a.len() + p + 3] == b[p + 3]);
}

/// Reads a little-endian `u16` at `pos`.
pub fn read_u16(data: &[u8], pos: usize) -> (r: u16)
    requires
        pos + 2 <= data@.len(),
    ensures
        r == le16(data@, pos as int),
{
    data[pos] as u16 + (data[pos + 1] as u16) * 256
}

/// Reads a little-endian `u32` at `pos`.
pub fn read_u32(data: &[u8], pos: usize) -> (r: u32)
    requires
        pos + 4 <= data@.len(),
    ensures
        r == le32(data@, pos as int),
{
    data[pos] as u32 + (data[pos + 1] as u32) * 256 + (data[pos + 2] as u32) * 65536 + (data[pos
        + 3] as u32) * 16777216
}

/// Reads a little-endian `i16` at `pos`.
pub fn read_i16(data: &[u8], pos: usize) -> (r: i16)
    requires
        pos + 2 <= data@.len(),
    ensures
        r == le_i16(data@, pos as int),
{
    let u = read_u16(data, pos);
    if u >= 0x8000 {
        (u as i32 - 0x10000) as i16
    } else {
        u as i16
    }
}

/// Reads a little-endian `i32` at `pos`.
pub fn read_i32(data: &[u8], pos: usize) -> (r: i32)
    requires
        pos + 4 <= data@.len(),
    ensures
        r == le_i32(data@, pos as int),
{
    let u = read_u32(data, pos);
    if u >= 0x8000_0000 {
        (u as i64 - 0x1_0000_0000) as i32
    } else {
        u as i32
    }
}

/// Appends a little-endian `u16`.
pub fn push_u16(out: &mut Vec<u8>, v: u16)
    ensures
        final(out)@ == old(out)@ + u16_bytes(v),
{
    out.push((v % 256) as u8);
    out.push((v / 256) as u8);
    assert(final(out)@ =~= old(out)@ + u16_bytes(v));
}

/// Appends a little-endian `u32`.
pub fn push_u32(out: &mut Vec<u8>, v: u32)
    ensures
        final(out)@ == old(out)@ + u32_bytes(v),
{
    out.push((v % 256) as u8);
    out.push(((v / 256) % 256) as u8);
    out.push(((v / 65536) % 256) as u8);
    out.push((v / 16777216) as u8);
    assert(final(out)@ =~= old(out)@ + u32_bytes(v));
}

/// Appends a little-endian `i16`.
pub fn push_i16(out: &mut Vec<u8>, v: i16)
    ensures
        final(out)@ == old(out)@ + i16_bytes(v),
{
    let u: u16 = if v < 0 {
        (v as i32 + 0x10000) as u16
    } else {
        v as u16
    };
    push_u16(out, u);
}

/// Appends a little-endian `i32`.
pub fn push_i32(out: &mut Vec<u8>, v: i32)
    ensures
        final(out)@ == old(out)@ + i32_bytes(v),
{
    let u: u32 = if v < 0 {
        (v as i64 + 0x1_0000_0000) as u32
    } else {
        v as u32
    };
    push_u32(out, u);
}

/// Appends a byte.
pub fn push_byte(out: &mut Vec<u8>, b: u8)
    ensures
        final(out)@ == old(out)@.push(b),
{
    out.push(b);
}

/// Appends all bytes of `src`.
pub fn push_all(out: &mut Vec<u8>, src: &[u8])
    ensures
        final(out)@ == old(out)@ + src@,
{
    let mut i: usize = 0;
    while i < src.len()
        invariant
            i <= src@.len(),
            out@ == old(out)@ + src@.subrange(0, i as int),
        decreases src@.len() - i,
    {
        out.push(src[i]);
        i += 1;
        assert(out@ =~= old(out)@ + src@.subrange(0, i as int));
    }
    assert(src@.subrange(0, i as int) =~= src@);
}

/// Appends zero bytes until the length is a multiple of four.
pub fn pad_to_4(out: &mut Vec<u8>)
    ensures
        final(out)@ == pad4(old(out)@),
{
    let ghost start = out@;
    while out.len() % 4 != 0
        invariant
            start.len() <= out@.len() <= start.len() + 3,
            out@ == start + zeros((out@.len() - start.len()) as nat),
            (out@.len() - start.len()) <= pad_len4(start.len()),
        decreases pad_len4(start.len()) - (out@.len() - start.len()),
    {
        out.push(0);
        assert(out@ =~= start + zeros((out@.len() - start.len()) as nat));
    }
    assert(out@ =~= pad4(start));
}

} // verus!

verus! {

/// Little-endian bytes of a sequence of 16-bit values.
pub open spec fn u16s_bytes(s: Seq<u16>) -> Seq<u8>
    decreases s.len(),
{
    if s.len() == 0 {
        Seq::empty()
    } else {
        u16s_bytes(s.drop_last()) + u16_bytes(s.last())
    }
}

pub proof fn lemma_u16s_bytes_push(s: Seq<u16>, v: u16)
    ensures
        u16s_bytes(s.push(v)) == u16s_bytes(s) + u16_bytes(v),
{
    assert(s.push(v).drop_last() =~= s);
}

pub proof fn lemma_u16s_bytes_len(s: Seq<u16>)
    ensures
        u16s_bytes(s).len() == 2 * s.len(),
    decreases s.len(),
{
    if s.len() > 0 {
        lemma_u16s_bytes_len(s.drop_last());
    }
}

/// Reading the `i`-th value back from the encoding of a sequence.
pub proof fn lemma_u16s_bytes_index(s: Seq<u16>, i: int)
    requires
        0 <= i < s.len(),
    ensures
        le16(u16s_bytes(s), 2 * i) == s[i],
    decreases s.len(),
{
    lemma_u16s_bytes_len(s.drop_last());
    if i == s.len() - 1 {
        lemma_le16_shift(u16s_bytes(s.drop_last()), u16_bytes(s.last()), 0);
        lemma_u16_roundtrip(s.last());
    } else {
        lemma_u16s_bytes_index(s.drop_last(), i);
        let a = u16s_bytes(s.drop_last());
        let b = u16_bytes(s.last());
        assert((a + b)[2 * i] == a[2 * i]);
        assert((a + b)[2 * i + 1] == a[2 * i + 1]);
    }
}

} // verus!

verus! {

/// Index of the first zero byte at or after `p`, or the end of `s`.
pub open spec fn c_str_end(s: Seq<u8>, p: int) -> int
    decreases s.len() - p,
{
    if p >= s.len() || p < 0 || s[p] == 0 {
        p
    } else {
        c_str_end(s, p + 1)
    }
}

/// Position after a zero-terminated string starting at `p` (past the
/// terminator when there is one).
pub open spec fn c_str_next(s: Seq<u8>, p: int) -> int {
    if c_str_end(s, p) < s.len() {
        c_str_end(s, p) + 1
    } else {
        c_str_end(s, p)
    }
}

pub proof fn lemma_c_str_end_bounds(s: Seq<u8>, p: int)
    requires
        0 <= p <= s.len(),
    ensures
        p <= c_str_end(s, p) <= s.len(),
        forall|i: int| p <= i < c_str_end(s, p) ==> s[i] != 0,
        c_str_end(s, p) < s.len() ==> s[c_str_end(s, p)] == 0,
    decreases s.len() - p,
{
    if p < s.len() && s[p] != 0 {
        lemma_c_str_end_bounds(s, p + 1);
    }
}

/// The end found from a position is the first zero after it.
pub proof fn lemma_c_str_end_unique(s: Seq<u8>, p: int, q: int)
    requires
        0 <= p <= q <= s.len(),
        forall|i: int| p <= i < q ==> s[i] != 0,
        q == s.len() || s[q] == 0,
    ensures
        c_str_end(s, p) == q,
    decreases q - p,
{
    if p < q {
        lemma_c_str_end_unique(s, p + 1, q);
    }
}

/// Reads a zero-terminated string at `pos`: the bytes before the terminator
/// and the position after it.
pub fn read_c_string(data: &[u8], pos: usize) -> (r: (Vec<u8>, usize))
    requires
        pos <= data@.len(),
    ensures
        r.0@ == data@.subrange(pos as int, c_str_end(data@, pos as int)),
        r.1 == c_str_next(data@, pos as int),
{
    let mut out: Vec<u8> = Vec::new();
    let mut i = pos;
    proof {
        lemma_c_str_end_bounds(data@, pos as int);
    }
    while i < data.len() && data[i] != 0
        invariant
            pos <= i <= c_str_end(data@, pos as int) <= data@.len(),
            forall|k: int| pos <= k < c_str_end(data@, pos as int) ==> data@[k] != 0,
            c_str_end(data@, pos as int) < data@.len() ==> data@[c_str_end(data@, pos as int)] == 0,
            out@ == data@.subrange(pos as int, i as int),
        decreases data@.len() - i,
    {
        out.push(data[i]);
        i += 1;
        assert(out@ =~= data@.subrange(pos as int, i as int));
    }
    assert(i == c_str_end(data@, pos as int));
    if i < data.len() {
        (out, i + 1)
    } else {
        (out, i)
    }
}

} // verus!

verus! {

/// Compares two byte sequences.
pub fn bytes_eq(a: &[u8], b: &[u8]) -> (r: bool)
    ensures
        r == (a@ == b@),
{
    if a.len() != b.len() {
        return false;
    }
    let mut i: usize = 0;
    while i < a.len()
        invariant
            i <= a@.len(),
            a@.len() == b@.len(),
            a@.subrange(0, i as int) == b@.subrange(0, i as int),
        decreases a@.len() - i,
    {
        if a[i] != b[i] {
            assert(a@[i as int] != b@[i as int]);
            return false;
        }
        assert(a@.subrange(0, i + 1) =~= a@.subrange(0, i as int).push(a@[i as int]));
        assert(b@.subrange(0, i + 1) =~= b@.subrange(0, i as int).push(b@[i as int]));
        i += 1;
    }
    assert(a@ =~= a@.subrange(0, i as int));
    assert(b@ =~= b@.subrange(0, i as int));
    true
}

} // verus!
