//! ALPH: the blending settings (BLDCNT and BLDALPHA) of a map, usually to
//! make a background layer transparent.
use vstd::prelude::*;
use vstd::string::*;
use vstd::utf8::encode_utf8;
use crate::bytes::{le16, push_u16, read_u16, u16_bytes, lemma_u16_roundtrip, lemma_le16_shift};
use crate::compression::{segment_wrap, wrapped_segment};
use crate::segments::TopLevelSegment;

verus! {

#[derive(Debug, Clone, Copy, PartialEq, Eq)]
pub struct AlphaData {
    pub bldcnt: u16,
    pub bldalpha: u16,
}

impl Default for AlphaData {
    fn default() -> (r: Self)
        ensures
            r.bldcnt == 0xffff,
            r.bldalpha == 0xffff,
    {
        AlphaData { bldcnt: 0xffff, bldalpha: 0xffff }
    }
}

impl AlphaData {
    /// Reads the two registers; `None` when the data is shorter than four
    /// bytes.
    pub fn new(byte_data: &[u8]) -> (r: Option<Self>)
        ensures
            byte_data@.len() < 4 <==> r is None,
            r matches Some(a) ==> a.bldcnt == le16(byte_data@, 0) && a.bldalpha == le16(byte_data@, 2),
    {
        if byte_data.len() < 4 {
            return None;
        }
        Some(AlphaData { bldcnt: read_u16(byte_data, 0), bldalpha: read_u16(byte_data, 2) })
    }
}

impl TopLevelSegment for AlphaData {
    open spec fn spec_compile(&self) -> Seq<u8> {
        u16_bytes(self.bldcnt) + u16_bytes(self.bldalpha)
    }

    open spec fn spec_wrap(&self) -> Seq<u8> {
        wrapped_segment(self.spec_compile(), encode_utf8("ALPH"@))
    }

    open spec fn spec_header(&self) -> Seq<char> {
        "ALPH"@
    }

    open spec fn can_compile(&self) -> bool {
        true
    }

    fn compile(&self) -> (r: Vec<u8>) {
        let mut comp: Vec<u8> = Vec::new();
        push_u16(&mut comp, self.bldcnt);
        push_u16(&mut comp, self.bldalpha);
        assert(comp@ =~= u16_bytes(self.bldcnt) + u16_bytes(self.bldalpha));
        comp
    }

    fn wrap(&self) -> (r: Vec<u8>) {
        let comp = self.compile();
        segment_wrap(&comp, String::from_str("ALPH"))
    }

    fn header(&self) -> (r: String) {
        String::from_str("ALPH")
    }
}

/// Reading back what `compile` wrote gives the same settings.
pub proof fn law_alpha_roundtrip(a: AlphaData)
    ensures
        a.spec_compile().len() == 4,
        le16(a.spec_compile(), 0) == a.bldcnt,
        le16(a.spec_compile(), 2) == a.bldalpha,
{
    lemma_u16_roundtrip(a.bldcnt);
    lemma_u16_roundtrip(a.bldalpha);
    lemma_le16_shift(u16_bytes(a.bldcnt), u16_bytes(a.bldalpha), 0);
}

} // verus!
