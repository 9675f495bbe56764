//! BLKZ: the soft-rock backdrop, a compressed grid of screen-map entries.
use vstd::prelude::*;
use vstd::string::*;
use vstd::utf8::encode_utf8;
use crate::bytes::{le16, u16_bytes, push_u16, read_u16, lemma_u16_roundtrip, lemma_le16_shift};
use crate::compression::{
    lamezip77_lz10_decomp, lamezip77_lz10_recomp, lz10_compressed, lz10_decompressed, segment_wrap,
    wrapped_segment,
};
use crate::segments::TopLevelSegment;
use crate::types::{law_tile_record_roundtrip, tile_record_fits, tile_record_of, tile_short_of, MapTileRecordData};

verus! {

#[derive(Debug, Clone, PartialEq)]
pub struct SoftRockBackdrop {
    pub x_offset: u16,
    pub y_offset: u16,
    pub width: u16,
    pub height: u16,
    pub tiles: Vec<MapTileRecordData>,
}

impl Default for SoftRockBackdrop {
    fn default() -> (r: Self)
        ensures
            r@ == blkz_default(),
    {
        SoftRockBackdrop { x_offset: 0, y_offset: 0, width: 0, height: 0, tiles: Vec::new() }
    }
}

/// The abstract value of a backdrop.
pub ghost struct BlkzView {
    pub x_offset: u16,
    pub y_offset: u16,
    pub width: u16,
    pub height: u16,
    pub tiles: Seq<MapTileRecordData>,
}

impl View for SoftRockBackdrop {
    type V = BlkzView;

    open spec fn view(&self) -> BlkzView {
        BlkzView {
            x_offset: self.x_offset,
            y_offset: self.y_offset,
            width: self.width,
            height: self.height,
            tiles: self.tiles@,
        }
    }
}

pub open spec fn blkz_default() -> BlkzView {
    BlkzView { x_offset: 0, y_offset: 0, width: 0, height: 0, tiles: Seq::empty() }
}

/// Decompressed bodies that the reader cannot take: a header cut short,
/// or a half entry at the end.
pub open spec fn blkz_truncated(d: Seq<u8>) -> bool {
    d.len() >= 2 && (d.len() < 8 || (d.len() - 8) % 2 != 0)
}

/// The backdrop a decompressed body holds: four 16-bit fields, then
/// entries to the end. A body too short for the first field gives the
/// empty backdrop.
pub open spec fn blkz_of(d: Seq<u8>) -> BlkzView {
    if d.len() < 2 {
        blkz_default()
    } else {
        BlkzView {
            x_offset: le16(d, 0),
            y_offset: le16(d, 2),
            width: le16(d, 4),
            height: le16(d, 6),
            tiles: Seq::new(((d.len() - 8) / 2) as nat, |i: int| tile_record_of(le16(d, 8 + 2 * i))),
        }
    }
}

/// The bytes `compile` writes.
pub open spec fn blkz_bytes(b: BlkzView) -> Seq<u8> {
    u16_bytes(b.x_offset) + u16_bytes(b.y_offset) + u16_bytes(b.width) + u16_bytes(b.height)
        + tiles_bytes(b.tiles)
}

/// The 16-bit entries of a sequence of tiles.
pub open spec fn tiles_bytes(t: Seq<MapTileRecordData>) -> Seq<u8>
    decreases t.len(),
{
    if t.len() == 0 {
        Seq::empty()
    } else {
        tiles_bytes(t.drop_last()) + u16_bytes(tile_short_of(t.last()))
    }
}

pub proof fn lemma_tiles_bytes(t: Seq<MapTileRecordData>)
    ensures
        tiles_bytes(t).len() == 2 * t.len(),
        forall|i: int| 0 <= i < t.len() ==> le16(tiles_bytes(t), 2 * i) == tile_short_of(#[trigger] t[i]),
    decreases t.len(),
{
    if t.len() > 0 {
        let p = t.drop_last();
        lemma_tiles_bytes(p);
        let a = tiles_bytes(p);
        let b = u16_bytes(tile_short_of(t.last()));
        lemma_u16_roundtrip(tile_short_of(t.last()));
        assert forall|i: int| 0 <= i < t.len() implies le16(tiles_bytes(t), 2 * i) == tile_short_of(#[trigger] t[i]) by {
            if i == t.len() - 1 {
                lemma_le16_shift(a, b, 0);
            } else {
                assert(p[i] == t[i]);
                assert((a + b)[2 * i] == a[2 * i]);
                assert((a + b)[2 * i + 1] == a[2 * i + 1]);
            }
        }
    }
}

impl SoftRockBackdrop {
    /// Reads a decompressed BLKZ body.
    pub fn from_decomp(d: &[u8]) -> (r: Self)
        requires
            !blkz_truncated(d@),
        ensures
            r@ == blkz_of(d@),
    {
        if d.len() < 2 {
            return SoftRockBackdrop::default();
        }
        let x_offset = read_u16(d, 0);
        let y_offset = read_u16(d, 2);
        let width = read_u16(d, 4);
        let height = read_u16(d, 6);
        let mut tiles: Vec<MapTileRecordData> = Vec::new();
        let mut pos: usize = 8;
        while pos < d.len()
            invariant
                8 <= pos <= d@.len(),
                (d@.len() - 8) % 2 == 0,
                (pos - 8) % 2 == 0,
                tiles@ == Seq::new(((pos - 8) / 2) as nat, |i: int| tile_record_of(le16(d@, 8 + 2 * i))),
            decreases d@.len() - pos,
        {
            let short = read_u16(d, pos);
            tiles.push(MapTileRecordData::new(short));
            pos += 2;
            assert(tiles@ =~= Seq::new(((pos - 8) / 2) as nat, |i: int| tile_record_of(le16(d@, 8 + 2 * i))));
        }
        SoftRockBackdrop { x_offset, y_offset, width, height, tiles }
    }

    /// Reads a compressed BLKZ body.
    pub fn new(byte_data: &Vec<u8>) -> (r: Self)
        requires
            !blkz_truncated(lz10_decompressed(byte_data@)),
        ensures
            r@ == blkz_of(lz10_decompressed(byte_data@)),
    {
        let d = lamezip77_lz10_decomp(byte_data.as_slice());
        Self::from_decomp(d.as_slice())
    }

    /// Reads a compressed BLKZ body, or gives `None` for bodies that `new`
    /// does not accept.
    pub fn load(byte_data: &Vec<u8>) -> (r: Option<Self>)
        ensures
            r is None <==> blkz_truncated(lz10_decompressed(byte_data@)),
            r matches Some(b) ==> b@ == blkz_of(lz10_decompressed(byte_data@)),
    {
        let d = lamezip77_lz10_decomp(byte_data.as_slice());
        if d.len() >= 2 && (d.len() < 8 || (d.len() - 8) % 2 != 0) {
            return None;
        }
        Some(Self::from_decomp(d.as_slice()))
    }
}

impl TopLevelSegment for SoftRockBackdrop {
    open spec fn spec_compile(&self) -> Seq<u8> {
        blkz_bytes(self@)
    }

    open spec fn spec_wrap(&self) -> Seq<u8> {
        wrapped_segment(lz10_compressed(blkz_bytes(self@)), encode_utf8("BLKZ"@))
    }

    open spec fn spec_header(&self) -> Seq<char> {
        "BLKZ"@
    }

    open spec fn can_compile(&self) -> bool {
        true
    }

    fn compile(&self) -> (r: Vec<u8>) {
        let mut comp: Vec<u8> = Vec::new();
        push_u16(&mut comp, self.x_offset);
        push_u16(&mut comp, self.y_offset);
        push_u16(&mut comp, self.width);
        push_u16(&mut comp, self.height);
        let ghost head = comp@;
        let mut i: usize = 0;
        while i < self.tiles.len()
            invariant
                i <= self.tiles@.len(),
                head == u16_bytes(self.x_offset) + u16_bytes(self.y_offset) + u16_bytes(self.width)
                    + u16_bytes(self.height),
                comp@ == head + tiles_bytes(self.tiles@.take(i as int)),
            decreases self.tiles@.len() - i,
        {
            let short = self.tiles[i].to_short();
            assert(self.tiles@.take(i + 1).drop_last() =~= self.tiles@.take(i as int));
            push_u16(&mut comp, short);
            assert(comp@ =~= head + tiles_bytes(self.tiles@.take(i + 1)));
            i += 1;
        }
        assert(self.tiles@.take(i as int) =~= self.tiles@);
        comp
    }

    fn wrap(&self) -> (r: Vec<u8>) {
        let comp = self.compile();
        let comp = lamezip77_lz10_recomp(&comp);
        segment_wrap(&comp, self.header())
    }

    fn header(&self) -> (r: String) {
        String::from_str("BLKZ")
    }
}

/// Reading back what `compile` wrote gives the same backdrop, when every
/// tile fits its 16-bit entry.
pub proof fn law_blkz_roundtrip(b: BlkzView)
    requires
        forall|i: int| 0 <= i < b.tiles.len() ==> tile_record_fits(#[trigger] b.tiles[i]),
    ensures
        !blkz_truncated(blkz_bytes(b)),
        blkz_of(blkz_bytes(b)) == b,
{
    let h = u16_bytes(b.x_offset) + u16_bytes(b.y_offset) + u16_bytes(b.width) + u16_bytes(b.height);
    let t = tiles_bytes(b.tiles);
    let c = blkz_bytes(b);
    lemma_tiles_bytes(b.tiles);
    assert(c == h + t);
    assert(h.len() == 8);
    lemma_u16_roundtrip(b.x_offset);
    lemma_u16_roundtrip(b.y_offset);
    lemma_u16_roundtrip(b.width);
    lemma_u16_roundtrip(b.height);
    assert(c.subrange(0, 2) =~= u16_bytes(b.x_offset));
    assert(c.subrange(2, 4) =~= u16_bytes(b.y_offset));
    assert(c.subrange(4, 6) =~= u16_bytes(b.width));
    assert(c.subrange(6, 8) =~= u16_bytes(b.height));
    assert(le16(c, 0) == le16(u16_bytes(b.x_offset), 0));
    assert(le16(c, 2) == le16(u16_bytes(b.y_offset), 0));
    assert(le16(c, 4) == le16(u16_bytes(b.width), 0));
    assert(le16(c, 6) == le16(u16_bytes(b.height), 0));
    assert forall|i: int| 0 <= i < b.tiles.len() implies tile_record_of(le16(c, 8 + 2 * i)) == b.tiles[i] by {
        lemma_le16_shift(h, t, 2 * i);
        law_tile_record_roundtrip(b.tiles[i]);
    }
    assert(blkz_of(c).tiles =~= b.tiles);
}

} // verus!
