//! LZ10 compression of whole files and the segment container layout.
use vstd::prelude::*;
use vstd::utf8::encode_utf8;
use crate::bytes::{pad4, pad_len4, pad_to_4, push_all, push_byte, push_u32, u32_bytes, zeros};

verus! {

/// What Nintendo LZ10 decompression yields for a compressed stream.
pub uninterp spec fn lz10_decompressed(data: Seq<u8>) -> Seq<u8>;

/// The flag/literal/match stream that the LZ10 compressor emits for `data`
/// (without the four-byte header).
pub uninterp spec fn lz10_stream(data: Seq<u8>) -> Seq<u8>;

/// Runs `lamezip77`'s Nintendo LZ decompressor over `data` into a growable
/// buffer (limit `u32::MAX`). The contract claims only that the output is a
/// function of the input bytes, named `lz10_decompressed`.
#[verifier::external_body]
fn lz10_decompress_bytes(data: &[u8]) -> (r: Vec<u8>)
    ensures
        r@ == lz10_decompressed(data@),
{
    let mut out = lamezip77::VecBuf::new(0, u32::MAX as usize);
    {
        let state = lamezip77::StreamingDecompressInnerState::<4>::new();
        let mut fut = Box::pin(lamezip77::nintendo_lz::decompress_impl(&mut out, state.get_peeker::<1>(), state.get_peeker::<2>(), state.get_peeker::<4>()));
        let mut decompressor = lamezip77::nintendo_lz::Decompress::new(&state, fut.as_mut());
        let _ = decompressor.add_inp(data);
    }
    out.into()
}

/// Runs `lamezip77::nintendo_lz::Compress::compress` (VRAM-safe mode, end of
/// stream) over `data`, collecting every emitted byte. The contract claims
/// that the output is a function of the input, named `lz10_stream`, and
/// that the crate's decompressor, given the stream behind the four-byte
/// header (`0x10` and the 24-bit length), gives `data` back; the crate's
/// own round-trip test checks exactly this pairing. It also gives `data`
/// back when zero bytes follow the stream up to a multiple of four: the
/// decompressor stops once it has produced the length from the header and
/// reads no further input. Data of 2^24 bytes or more does not fit the
/// header and is left out of both claims.
#[verifier::external_body]
fn lz10_compress_bytes(data: &[u8]) -> (r: Vec<u8>)
    ensures
        r@ == lz10_stream(data@),
        data@.len() < 0x1000000 ==> lz10_decompressed(lz10_header(data@.len()) + r@) == data@,
        data@.len() < 0x1000000 ==> lz10_decompressed(pad4(lz10_header(data@.len()) + r@)) == data@,
{
    let mut out: Vec<u8> = Vec::new();
    lamezip77::nintendo_lz::Compress::new().compress(true, data, true, |b| push_byte(&mut out, b));
    out
}

/// Decompresses an LZ10 stream (magic byte, 24-bit length, body).
pub fn lamezip77_lz10_decomp(data: &[u8]) -> (r: Vec<u8>)
    ensures
        r@ == lz10_decompressed(data@),
{
    lz10_decompress_bytes(data)
}

/// Decompressing the stored LZ10 stream of `data`, padded with zeros to a
/// multiple of four bytes, gives `data` back.
pub open spec fn lz10_recoverable(data: Seq<u8>) -> bool {
    lz10_decompressed(pad4(lz10_compressed(data))) == data
}

/// The LZ10 header: magic `0x10` and the low 24 bits of the length.
pub open spec fn lz10_header(n: nat) -> Seq<u8> {
    seq![0x10u8, (n % 0x100) as u8, ((n / 0x100) % 0x100) as u8, ((n / 0x10000) % 0x100) as u8]
}

/// Compresses `data`, prefixed with the `0x10` magic number and the
/// uncompressed length.
pub fn lamezip77_lz10_recomp(data: &Vec<u8>) -> (r: Vec<u8>)
    ensures
        r@ == lz10_header(data@.len()) + lz10_stream(data@),
        data@.len() < 0x1000000 ==> lz10_decompressed(r@) == data@,
        data@.len() < 0x1000000 ==> lz10_decompressed(pad4(r@)) == data@,
{
    let n = data.len();
    let mut output: Vec<u8> = Vec::new();
    output.push(0x10);
    output.push((n % 0x100) as u8);
    output.push(((n / 0x100) % 0x100) as u8);
    output.push(((n / 0x10000) % 0x100) as u8);
    let body = lz10_compress_bytes(data.as_slice());
    push_all(&mut output, body.as_slice());
    assert(output@ =~= lz10_header(data@.len()) + lz10_stream(data@));
    output
}

/// A segment: four magic bytes, the little-endian length of the padded
/// body, then the body padded with zeros to a multiple of four bytes.
/// A magic that is not four bytes long yields nothing.
pub open spec fn wrapped_segment(data: Seq<u8>, magic: Seq<u8>) -> Seq<u8> {
    if magic.len() != 4 {
        Seq::empty()
    } else {
        magic + u32_bytes(pad4(data).len() as u32) + pad4(data)
    }
}

/// A segment whose magic is given as a 32-bit number.
pub open spec fn wrapped_segment_u32(data: Seq<u8>, magic: u32) -> Seq<u8> {
    u32_bytes(magic) + u32_bytes(pad4(data).len() as u32) + pad4(data)
}

pub proof fn lemma_pad4_len(s: Seq<u8>)
    ensures
        pad4(s).len() % 4 == 0,
        pad4(s).len() == s.len() + pad_len4(s.len()),
        pad_len4(s.len()) < 4,
        pad4(s).subrange(0, s.len() as int) == s,
{
    assert(pad4(s).subrange(0, s.len() as int) =~= s);
}

pub proof fn lemma_pad4_noop(s: Seq<u8>)
    requires
        s.len() % 4 == 0,
    ensures
        pad4(s) == s,
{
    assert(pad4(s) =~= s);
}

/// Wraps `data` in a segment with the given four-character magic.
pub fn segment_wrap(data: &Vec<u8>, magic: String) -> (r: Vec<u8>)
    ensures
        r@ == wrapped_segment(data@, encode_utf8(magic@)),
        r@.len() % 4 == 0,
{
    let magic_bytes = magic.as_str().as_bytes();
    let mut ret: Vec<u8> = Vec::new();
    if magic_bytes.len() != 4 {
        assert(ret@ =~= wrapped_segment(data@, encode_utf8(magic@)));
        return ret;
    }
    let mut internal_data = data.clone();
    assert(internal_data@ =~= data@);
    pad_to_4(&mut internal_data);
    let internal_len = internal_data.len() as u32;
    push_all(&mut ret, magic_bytes);
    push_u32(&mut ret, internal_len);
    push_all(&mut ret, internal_data.as_slice());
    proof {
        lemma_pad4_len(data@);
        assert(ret@.len() % 4 == 0);
        lemma_pad4_noop(ret@);
    }
    pad_to_4(&mut ret);
    ret
}

/// Wraps `data` in a segment whose magic is a 32-bit number.
pub fn segment_wrap_u32(data: &Vec<u8>, magic: u32) -> (r: Vec<u8>)
    ensures
        r@ == wrapped_segment_u32(data@, magic),
        r@.len() % 4 == 0,
{
    let mut ret: Vec<u8> = Vec::new();
    let mut internal_data = data.clone();
    assert(internal_data@ =~= data@);
    pad_to_4(&mut internal_data);
    let internal_len = internal_data.len() as u32;
    push_u32(&mut ret, magic);
    push_u32(&mut ret, internal_len);
    push_all(&mut ret, internal_data.as_slice());
    proof {
        lemma_pad4_len(data@);
    }
    assert(ret@ =~= wrapped_segment_u32(data@, magic));
    ret
}

} // verus!

verus! {

/// What `lamezip77_lz10_recomp` produces for `data`.
pub open spec fn lz10_compressed(data: Seq<u8>) -> Seq<u8> {
    lz10_header(data.len()) + lz10_stream(data)
}

} // verus!
