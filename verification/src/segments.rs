//! Top-level segments of a level file and the raw segment container.
use vstd::prelude::*;
use vstd::utf8::encode_utf8;
use crate::bytes::le32;
use crate::compression::{segment_wrap, wrapped_segment};

verus! {

/// Behaviour shared by the top-level segments of a map file, so that a
/// file can be compiled by one loop over its segments.
pub trait TopLevelSegment {
    /// The segment body, without compression.
    spec fn spec_compile(&self) -> Seq<u8>;

    /// The complete segment: container and possible compression.
    spec fn spec_wrap(&self) -> Seq<u8>;

    /// The four-character segment name.
    spec fn spec_header(&self) -> Seq<char>;

    /// The values that can be compiled.
    spec fn can_compile(&self) -> bool;

    /// Creates the segment body, without compression.
    fn compile(&self) -> (r: Vec<u8>)
        requires
            self.can_compile(),
        ensures
            r@ == self.spec_compile(),
    ;

    /// Creates the complete segment, with header and possibly compression.
    fn wrap(&self) -> (r: Vec<u8>)
        requires
            self.can_compile(),
        ensures
            r@ == self.spec_wrap(),
    ;

    /// The segment name.
    fn header(&self) -> (r: String)
        ensures
            r@ == self.spec_header(),
    ;
}

/// A segment kept as it was read, so that saving loses nothing.
#[derive(Clone, Debug, PartialEq)]
pub struct GenericTopLevelSegment {
    pub raw_bytes: Vec<u8>,
    pub header: String,
}

impl GenericTopLevelSegment {
    pub fn new(data: Vec<u8>, header: String) -> (r: Self)
        ensures
            r.raw_bytes@ == data@,
            r.header@ == header@,
    {
        GenericTopLevelSegment { raw_bytes: data, header }
    }
}

impl TopLevelSegment for GenericTopLevelSegment {
    open spec fn spec_compile(&self) -> Seq<u8> {
        self.raw_bytes@
    }

    open spec fn spec_wrap(&self) -> Seq<u8> {
        wrapped_segment(self.raw_bytes@, encode_utf8(self.header@))
    }

    open spec fn spec_header(&self) -> Seq<char> {
        self.header@
    }

    open spec fn can_compile(&self) -> bool {
        true
    }

    fn compile(&self) -> (r: Vec<u8>) {
        let r = self.raw_bytes.clone();
        assert(r@ =~= self.raw_bytes@);
        r
    }

    fn wrap(&self) -> (r: Vec<u8>) {
        let body = self.compile();
        segment_wrap(&body, self.header.clone())
    }

    fn header(&self) -> (r: String) {
        self.header.clone()
    }
}

/// Stored data: a four-byte name, a four-byte size, then the body.
#[derive(Clone, Debug)]
pub struct DataSegment {
    pub header: u32,
    pub internal_data: Vec<u8>,
}

impl Default for DataSegment {
    fn default() -> (r: Self)
        ensures
            r.header == 0xdeadbeef,
            r.internal_data@.len() == 0,
    {
        DataSegment { header: 0xdeadbeef, internal_data: Vec::new() }
    }
}

/// The number a segment name stands for: its first four bytes read
/// little-endian, missing bytes taken as zero.
pub open spec fn header_value(name: Seq<u8>) -> u32 {
    let b = |i: int| if i < name.len() {
        name[i] as u32
    } else {
        0u32
    };
    (b(0) + b(1) * 0x100 + b(2) * 0x10000 + b(3) * 0x1000000) as u32
}

impl DataSegment {
    /// Reads a segment from its container bytes: the name from the first
    /// four bytes and everything after the size field as the body.
    pub fn _new_from_bytes(input: &Vec<u8>) -> (r: Self)
        requires
            input@.len() >= 8,
        ensures
            r.header == le32(input@, 0),
            r.internal_data@ == input@.subrange(8, input@.len() as int),
    {
        let header = crate::bytes::read_u32(input.as_slice(), 0);
        let mut inner: Vec<u8> = Vec::new();
        let mut i: usize = 8;
        while i < input.len()
            invariant
                8 <= i <= input@.len(),
                inner@ == input@.subrange(8, i as int),
            decreases input@.len() - i,
        {
            inner.push(input[i]);
            i += 1;
            assert(inner@ =~= input@.subrange(8, i as int));
        }
        DataSegment { header, internal_data: inner }
    }

    /// A segment with the given body and name.
    pub fn new(input: &Vec<u8>, header: String) -> (r: Self)
        ensures
            r.header == header_value(encode_utf8(header@)),
            r.internal_data@ == input@,
    {
        let name = header.as_str().as_bytes();
        let b0: u32 = if name.len() > 0 {
            name[0] as u32
        } else {
            0
        };
        let b1: u32 = if name.len() > 1 {
            name[1] as u32
        } else {
            0
        };
        let b2: u32 = if name.len() > 2 {
            name[2] as u32
        } else {
            0
        };
        let b3: u32 = if name.len() > 3 {
            name[3] as u32
        } else {
            0
        };
        let value = b0 + b1 * 0x100 + b2 * 0x10000 + b3 * 0x1000000;
        let data = input.clone();
        assert(data@ =~= input@);
        DataSegment { header: value, internal_data: data }
    }
}

} // verus!
