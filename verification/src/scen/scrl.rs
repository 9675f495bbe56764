//! SCRL: constant scrolling of a background layer.
use vstd::prelude::*;
use vstd::string::*;
use vstd::utf8::encode_utf8;
use crate::bytes::{i32_bytes, le_i32, push_i32, read_i32, lemma_i32_roundtrip, lemma_le32_shift};
use crate::compression::{segment_wrap, wrapped_segment};
use super::info::ScenInfoData;
use super::ScenSegment;

verus! {

#[derive(Debug, Clone, Copy, PartialEq, Eq, Default)]
pub struct ScrollData {
    pub left_velocity: i32,
    pub up_velocity: i32,
}

/// Reading the second velocity is possible whenever the first one is.
pub open spec fn scrl_readable(s: Seq<u8>, p: int) -> bool {
    0 <= p <= s.len() && (p + 4 <= s.len() ==> p + 8 <= s.len())
}

pub open spec fn scrl_bytes(v: ScrollData) -> Seq<u8> {
    i32_bytes(v.left_velocity) + i32_bytes(v.up_velocity)
}

impl ScrollData {
    /// Reads two velocities at `pos`; when not even the first one is there,
    /// both are zero and reading moves to the end of the data.
    pub fn new(data: &[u8], pos: usize) -> (r: (ScrollData, usize))
        requires
            scrl_readable(data@, pos as int),
        ensures
            pos + 4 <= data@.len() ==> r.0.left_velocity == le_i32(data@, pos as int)
                && r.0.up_velocity == le_i32(data@, pos + 4) && r.1 == pos + 8,
            pos + 4 > data@.len() ==> r.0 == (ScrollData { left_velocity: 0, up_velocity: 0 })
                && r.1 == data@.len(),
    {
        if data.len() < 4 || pos > data.len() - 4 {
            return (ScrollData { left_velocity: 0, up_velocity: 0 }, data.len());
        }
        let left_vel = read_i32(data, pos);
        let up_vel = read_i32(data, pos + 4);
        (ScrollData { left_velocity: left_vel, up_velocity: up_vel }, pos + 8)
    }
}

/// Reading the compiled bytes gives the velocities back.
pub proof fn law_scrl_roundtrip(v: ScrollData)
    ensures
        scrl_bytes(v).len() == 8,
        le_i32(scrl_bytes(v), 0) == v.left_velocity,
        le_i32(scrl_bytes(v), 4) == v.up_velocity,
{
    lemma_i32_roundtrip(v.left_velocity);
    lemma_i32_roundtrip(v.up_velocity);
    let a = i32_bytes(v.left_velocity);
    let b = i32_bytes(v.up_velocity);
    assert((a + b)[0] == a[0] && (a + b)[1] == a[1] && (a + b)[2] == a[2] && (a + b)[3] == a[3]);
    lemma_le32_shift(a, b, 0);
}

impl ScenSegment for ScrollData {
    open spec fn spec_header(&self) -> Seq<char> {
        "SCRL"@
    }

    open spec fn spec_compile(&self, info: Option<&ScenInfoData>) -> Seq<u8> {
        scrl_bytes(*self)
    }

    open spec fn spec_wrap(&self, info: Option<&ScenInfoData>) -> Seq<u8> {
        wrapped_segment(scrl_bytes(*self), encode_utf8("SCRL"@))
    }

    open spec fn can_compile(&self) -> bool {
        true
    }

    fn compile(&self, _info: Option<&ScenInfoData>) -> (r: Vec<u8>) {
        let mut comp: Vec<u8> = Vec::new();
        push_i32(&mut comp, self.left_velocity);
        push_i32(&mut comp, self.up_velocity);
        assert(comp@ =~= scrl_bytes(*self));
        comp
    }

    fn wrap(&self, info: Option<&ScenInfoData>) -> (r: Vec<u8>) {
        segment_wrap(&self.compile(info), self.header())
    }

    fn header(&self) -> (r: String) {
        String::from_str("SCRL")
    }
}

} // verus!
