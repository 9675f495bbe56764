//! BRAK: a segment kept byte for byte.
use vstd::prelude::*;
use vstd::string::*;
use vstd::utf8::encode_utf8;
use crate::compression::{segment_wrap, wrapped_segment};
use crate::segments::TopLevelSegment;

verus! {

#[derive(Debug, Clone, PartialEq)]
pub struct BrakData {
    pub raw_bytes: Vec<u8>,
}

impl Default for BrakData {
    fn default() -> (r: Self)
        ensures
            r.raw_bytes@.len() == 0,
    {
        BrakData { raw_bytes: Vec::new() }
    }
}

impl BrakData {
    pub fn new(byte_data: &Vec<u8>) -> (r: Self)
        ensures
            r.raw_bytes@ == byte_data@,
    {
        let raw = byte_data.clone();
        assert(raw@ =~= byte_data@);
        BrakData { raw_bytes: raw }
    }
}

impl TopLevelSegment for BrakData {
    open spec fn spec_compile(&self) -> Seq<u8> {
        self.raw_bytes@
    }

    open spec fn spec_wrap(&self) -> Seq<u8> {
        wrapped_segment(self.raw_bytes@, encode_utf8("BRAK"@))
    }

    open spec fn spec_header(&self) -> Seq<char> {
        "BRAK"@
    }

    open spec fn can_compile(&self) -> bool {
        true
    }

    fn compile(&self) -> (r: Vec<u8>) {
        let r = self.raw_bytes.clone();
        assert(r@ =~= self.raw_bytes@);
        r
    }

    fn wrap(&self) -> (r: Vec<u8>) {
        let comp = self.compile();
        segment_wrap(&comp, self.header())
    }

    fn header(&self) -> (r: String) {
        String::from_str("BRAK")
    }
}

} // verus!
