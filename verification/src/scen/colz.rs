//! COLZ: the collision map, one byte per 2x2 block of tiles.
use vstd::prelude::*;
use vstd::string::*;
use vstd::utf8::encode_utf8;
use crate::compression::{lamezip77_lz10_decomp, lamezip77_lz10_recomp, lz10_compressed, lz10_decompressed, lz10_recoverable, segment_wrap, wrapped_segment};
use crate::grid::{narrow_rows, narrowed, resize_to, resized, widen_rows, widened};
use super::info::ScenInfoData;
use super::ScenSegment;

verus! {

#[derive(Debug, Clone, PartialEq, Eq, Default)]
pub struct CollisionData {
    /// One collision type per block, row-major.
    pub col_tiles: Vec<u8>,
}

impl CollisionData {
    /// The collision map held (compressed) in a COLZ body.
    pub fn new(compressed_buffer: &[u8]) -> (r: Self)
        ensures
            r.col_tiles@ == lz10_decompressed(compressed_buffer@),
    {
        let decomp = lamezip77_lz10_decomp(compressed_buffer);
        CollisionData { col_tiles: decomp }
    }

    /// Widens the map of a layer `old_width` tiles wide by `increase_by`
    /// tiles. Both must be even (a block is 2x2 tiles); otherwise nothing
    /// changes.
    pub fn increase_width(&mut self, old_width: u16, increase_by: usize)
        requires
            increase_by % 2 == 0 && old_width % 2 == 0 ==> old_width >= 2 && old(self).col_tiles@.len()
                + (increase_by / 2) * (old(self).col_tiles@.len() / (old_width / 2) as nat)
                <= usize::MAX,
        ensures
            final(self).col_tiles@ == if increase_by % 2 == 0 && old_width % 2 == 0 {
                widened(old(self).col_tiles@, (old_width / 2) as nat, (increase_by / 2) as nat, 0u8)
            } else {
                old(self).col_tiles@
            },
    {
        if increase_by % 2 != 0 {
            return;
        }
        if old_width % 2 != 0 {
            return;
        }
        let k = increase_by / 2;
        let w = (old_width / 2) as usize;
        self.col_tiles = widen_rows(&self.col_tiles, w, k, 0u8);
    }

    /// Narrows the map of a layer `old_width` tiles wide by `decrease_by`
    /// tiles. Both must be even; otherwise, or when `decrease_by` is not
    /// positive, nothing changes.
    pub fn decrease_width(&mut self, old_width: i32, decrease_by: i32)
        requires
            old(self).col_tiles@.len() <= i32::MAX,
            decrease_by % 2 == 0 && old_width % 2 == 0 ==> old_width / 2 >= 1 && (decrease_by / 2
                <= old_width / 2 || old(self).col_tiles@.len() < old_width / 2),
        ensures
            final(self).col_tiles@ == if decrease_by % 2 == 0 && old_width % 2 == 0 && decrease_by
                > 0 {
                narrowed(old(self).col_tiles@, (old_width / 2) as nat, (decrease_by / 2) as nat)
            } else {
                old(self).col_tiles@
            },
    {
        if decrease_by % 2 != 0 {
            return;
        }
        if old_width % 2 != 0 {
            return;
        }
        if decrease_by <= 0 {
            return;
        }
        let d = (decrease_by / 2) as usize;
        let w = (old_width / 2) as usize;
        if self.col_tiles.len() < w {
            return;
        }
        self.col_tiles = narrow_rows(&self.col_tiles, w, d);
    }

    /// Sets the number of block rows for a layer `new_height` tiles high
    /// and `current_width` tiles wide, dropping or adding empty blocks.
    pub fn change_height(&mut self, new_height: u16, current_width: u16)
        ensures
            final(self).col_tiles@ == resized(
                old(self).col_tiles@,
                ((new_height / 2) * (current_width / 2)) as nat,
                0u8,
            ),
    {
        let a = new_height as u32 / 2;
        let b = current_width as u32 / 2;
        assert(a * b <= 0x4000_0000) by (nonlinear_arith)
            requires
                a <= 0x8000,
                b <= 0x8000,
        ;
        let new_len = a * b;
        resize_to(&mut self.col_tiles, new_len as usize, 0u8);
    }
}

impl ScenSegment for CollisionData {
    open spec fn spec_header(&self) -> Seq<char> {
        "COLZ"@
    }

    open spec fn spec_compile(&self, info: Option<&ScenInfoData>) -> Seq<u8> {
        self.col_tiles@
    }

    open spec fn spec_wrap(&self, info: Option<&ScenInfoData>) -> Seq<u8> {
        wrapped_segment(lz10_compressed(self.col_tiles@), encode_utf8("COLZ"@))
    }

    open spec fn can_compile(&self) -> bool {
        true
    }

    fn compile(&self, _info: Option<&ScenInfoData>) -> (r: Vec<u8>) {
        self.col_tiles.clone()
    }

    fn wrap(&self, info: Option<&ScenInfoData>) -> (r: Vec<u8>)
        ensures
            self.col_tiles@.len() < 0x1000000 ==> lz10_recoverable(self.col_tiles@),
    {
        let compiled = self.compile(info);
        let compressed = lamezip77_lz10_recomp(&compiled);
        segment_wrap(&compressed, self.header())
    }

    fn header(&self) -> (r: String) {
        String::from_str("COLZ")
    }
}

} // verus!
