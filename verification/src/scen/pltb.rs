//! PLTB: the palettes of a background layer.
use vstd::prelude::*;
use vstd::string::*;
use vstd::utf8::encode_utf8;
use crate::bytes::push_all;
use crate::compression::{segment_wrap, wrapped_segment};
use crate::types::{Compilable, Palette};
use super::info::ScenInfoData;
use super::ScenSegment;

verus! {

#[derive(Clone, Debug, PartialEq, Eq)]
pub struct PltbData {
    pub palettes: Vec<Palette>,
}

/// The compiled palettes, one after the other.
pub open spec fn palettes_bytes(ps: Seq<Palette>) -> Seq<u8>
    decreases ps.len(),
{
    if ps.len() == 0 {
        Seq::empty()
    } else {
        palettes_bytes(ps.drop_last()) + ps.last().spec_compile()
    }
}

impl PltbData {
    pub fn from_pal_vec(input: Vec<Palette>) -> (r: Self)
        ensures
            r.palettes@ == input@,
    {
        PltbData { palettes: input }
    }
}

impl ScenSegment for PltbData {
    open spec fn spec_header(&self) -> Seq<char> {
        "PLTB"@
    }

    open spec fn spec_compile(&self, info: Option<&ScenInfoData>) -> Seq<u8> {
        palettes_bytes(self.palettes@)
    }

    open spec fn spec_wrap(&self, info: Option<&ScenInfoData>) -> Seq<u8> {
        wrapped_segment(palettes_bytes(self.palettes@), encode_utf8("PLTB"@))
    }

    open spec fn can_compile(&self) -> bool {
        forall|i: int| 0 <= i < self.palettes@.len() ==> #[trigger] self.palettes@[i].can_compile()
    }

    fn compile(&self, _info: Option<&ScenInfoData>) -> (r: Vec<u8>) {
        let mut ret: Vec<u8> = Vec::new();
        let mut i: usize = 0;
        while i < self.palettes.len()
            invariant
                i <= self.palettes@.len(),
                self.can_compile(),
                ret@ == palettes_bytes(self.palettes@.take(i as int)),
            decreases self.palettes@.len() - i,
        {
            assert(self.palettes@[i as int].can_compile());
            let pbytes = self.palettes[i].compile();
            push_all(&mut ret, pbytes.as_slice());
            assert(self.palettes@.take(i + 1).drop_last() =~= self.palettes@.take(i as int));
            i += 1;
        }
        assert(self.palettes@.take(i as int) =~= self.palettes@);
        ret
    }

    fn wrap(&self, _info: Option<&ScenInfoData>) -> (r: Vec<u8>) {
        segment_wrap(&self.compile(None), self.header())
    }

    fn header(&self) -> (r: String) {
        String::from_str("PLTB")
    }
}

} // verus!
