//! MPBZ: the screen map of a background layer, one record per tile.
use vstd::prelude::*;
use vstd::string::*;
use vstd::utf8::encode_utf8;
use crate::bytes::{
    le16, push_u16, read_u16, u16_bytes, u16s_bytes, lemma_le16_shift, lemma_u16_roundtrip, lemma_u16s_bytes_index,
    lemma_u16s_bytes_len, lemma_u16s_bytes_push,
};
use crate::compression::{lamezip77_lz10_recomp, lz10_compressed, lz10_recoverable, segment_wrap, wrapped_segment};
use crate::grid::{blanks, narrow_rows, narrowed, resize_to, resized, widen_rows, widened};
use crate::types::{law_tile_record_roundtrip, tile_record_fits, tile_record_of, tile_short_of, MapTileRecordData};
use super::info::ScenInfoData;
use super::ScenSegment;

verus! {

#[derive(Clone, Debug, PartialEq, Eq)]
pub struct MapTileDataSegment {
    /// Row-major tiles, including the blank rows left out of the file.
    pub tiles: Vec<MapTileRecordData>,
    /// Number of blank rows at the top that the file leaves out.
    pub tile_offset: u16,
    pub bottom_trim: u16,
}

/// The abstract value of a map segment.
pub ghost struct MpbzView {
    pub tiles: Seq<MapTileRecordData>,
    pub tile_offset: u16,
    pub bottom_trim: u16,
}

impl View for MapTileDataSegment {
    type V = MpbzView;

    open spec fn view(&self) -> MpbzView {
        MpbzView { tiles: self.tiles@, tile_offset: self.tile_offset, bottom_trim: self.bottom_trim }
    }
}

/// The map segment read from a decompressed body.
pub open spec fn mpbz_view_of(s: Seq<u8>, layer_width: u16) -> MpbzView {
    if mpbz_has_offsets(s) {
        MpbzView {
            tiles: blanks((layer_width * le16(s, 2)) as nat, blank_tile()) + records_at(
                s,
                6,
                (s.len() / 2 - 3) as nat,
            ),
            tile_offset: le16(s, 2),
            bottom_trim: le16(s, 4),
        }
    } else {
        MpbzView { tiles: records_at(s, 0, s.len() / 2), tile_offset: 0, bottom_trim: 0 }
    }
}

/// The empty tile.
pub open spec fn blank_tile() -> MapTileRecordData {
    tile_record_of(0)
}

/// `n` records decoded from the 16-bit entries at `p`.
pub open spec fn records_at(s: Seq<u8>, p: int, n: nat) -> Seq<MapTileRecordData> {
    Seq::new(n, |i: int| tile_record_of(le16(s, p + 2 * i)))
}

/// A map body that starts with `0xFFFF` carries a top offset and a bottom
/// trim.
pub open spec fn mpbz_has_offsets(s: Seq<u8>) -> bool {
    le16(s, 0) == 0xffff
}

/// The inputs a map body can be read from.
pub open spec fn mpbz_readable(s: Seq<u8>, layer_width: u16) -> bool {
    &&& 2 <= s.len() <= u32::MAX
    &&& mpbz_has_offsets(s) ==> s.len() >= 6 && layer_width * le16(s, 2) <= u16::MAX
}

/// The 16-bit entries of the tiles from index `start` on.
pub open spec fn shorts_from(tiles: Seq<MapTileRecordData>, start: int) -> Seq<u16> {
    Seq::new(
        (if start < tiles.len() {
            tiles.len() - start
        } else {
            0
        }) as nat,
        |i: int| tile_short_of(tiles[start + i]),
    )
}

/// The map body of a segment for a layer `layer_width` tiles wide: with
/// an offset or trim, a `0xFFFF` marker, both values, and the tiles after
/// the blank rows; otherwise all tiles.
pub open spec fn mpbz_bytes(m: MapTileDataSegment, layer_width: u16) -> Seq<u8> {
    if m.bottom_trim > 0 || m.tile_offset > 0 {
        seq![0xffu8, 0xffu8] + u16_bytes(m.tile_offset) + u16_bytes(m.bottom_trim) + u16s_bytes(
            shorts_from(m.tiles@, m.tile_offset * layer_width),
        )
    } else {
        u16s_bytes(shorts_from(m.tiles@, 0))
    }
}

impl MapTileDataSegment {
    /// Reads a decompressed map body for a layer `layer_width` tiles wide.
    pub fn from_decomped_vec(mp_decomp: &Vec<u8>, layer_width: u16) -> (r: Self)
        requires
            mpbz_readable(mp_decomp@, layer_width),
        ensures
            r@ == mpbz_view_of(mp_decomp@, layer_width),
            mpbz_has_offsets(mp_decomp@) ==> {
                &&& r.tile_offset == le16(mp_decomp@, 2)
                &&& r.bottom_trim == le16(mp_decomp@, 4)
                &&& r.tiles@ == blanks((layer_width * r.tile_offset) as nat, blank_tile())
                    + records_at(mp_decomp@, 6, (mp_decomp@.len() / 2 - 3) as nat)
            },
            !mpbz_has_offsets(mp_decomp@) ==> {
                &&& r.tile_offset == 0
                &&& r.bottom_trim == 0
                &&& r.tiles@ == records_at(mp_decomp@, 0, mp_decomp@.len() / 2)
            },
    {
        let mut mpbz_vec: Vec<MapTileRecordData> = Vec::new();
        let mut count_tiles: u32 = mp_decomp.len() as u32 / 2;
        let tile_offset: u16;
        let bottom_trim: u16;
        let mut pos: usize;
        let first = read_u16(mp_decomp.as_slice(), 0);
        if first == 0xffff {
            tile_offset = read_u16(mp_decomp.as_slice(), 2);
            bottom_trim = read_u16(mp_decomp.as_slice(), 4);
            let offset: u32 = (layer_width * tile_offset) as u32;
            let blank = MapTileRecordData::new(0x0000);
            let mut i: u32 = 0;
            while i < offset
                invariant
                    i <= offset,
                    mpbz_vec@ == blanks(i as nat, blank_tile()),
                    blank == blank_tile(),
                decreases offset - i,
            {
                mpbz_vec.push(blank);
                i += 1;
                assert(mpbz_vec@ =~= blanks(i as nat, blank_tile()));
            }
            count_tiles -= 3;
            pos = 6;
        } else {
            tile_offset = 0;
            bottom_trim = 0;
            pos = 0;
        }
        let ghost prefix = mpbz_vec@;
        let ghost start: int = pos as int;
        let mut tile_index: u32 = 0;
        while tile_index < count_tiles
            invariant
                tile_index <= count_tiles,
                start == pos - 2 * tile_index,
                start + 2 * count_tiles <= mp_decomp@.len(),
                mp_decomp@.len() == mp_decomp.len(),
                mpbz_vec@ == prefix + records_at(mp_decomp@, start, tile_index as nat),
            decreases count_tiles - tile_index,
        {
            let short = read_u16(mp_decomp.as_slice(), pos);
            let tile = MapTileRecordData::new(short);
            mpbz_vec.push(tile);
            pos += 2;
            tile_index += 1;
            assert(mpbz_vec@ =~= prefix + records_at(mp_decomp@, start, tile_index as nat));
        }
        MapTileDataSegment { tiles: mpbz_vec, bottom_trim, tile_offset }
    }

    /// Widens the layer from `old_width` tiles by `increase_by` blank
    /// tiles per row.
    pub fn increase_width(&mut self, old_width: u16, increase_by: usize)
        requires
            old_width > 0,
            old(self).tiles@.len() + increase_by * (old(self).tiles@.len() / old_width as nat)
                <= usize::MAX,
        ensures
            final(self).tiles@ == widened(
                old(self).tiles@,
                old_width as nat,
                increase_by as nat,
                blank_tile(),
            ),
            final(self).tile_offset == old(self).tile_offset,
            final(self).bottom_trim == old(self).bottom_trim,
    {
        let blank = MapTileRecordData::new(0x0000);
        self.tiles = widen_rows(&self.tiles, old_width as usize, increase_by, blank);
    }

    /// Narrows the layer from `old_width` tiles by removing the last
    /// `decrease_by` tiles of each row.
    pub fn decrease_width(&mut self, old_width: u16, decrease_by: usize)
        requires
            old_width > 0,
            decrease_by <= old_width || old(self).tiles@.len() < old_width,
        ensures
            final(self).tiles@ == narrowed(old(self).tiles@, old_width as nat, decrease_by as nat),
            final(self).tile_offset == old(self).tile_offset,
            final(self).bottom_trim == old(self).bottom_trim,
    {
        if self.tiles.len() < old_width as usize {
            return;
        }
        self.tiles = narrow_rows(&self.tiles, old_width as usize, decrease_by);
    }

    /// Sets the number of tiles to `new_height` rows of `width`, dropping
    /// tiles at the end or adding blank ones.
    pub fn change_height(&mut self, new_height: u16, width: u16)
        ensures
            final(self).tiles@ == resized(old(self).tiles@, (new_height * width) as nat, blank_tile()),
            final(self).tile_offset == old(self).tile_offset,
            final(self).bottom_trim == old(self).bottom_trim,
    {
        let h = new_height as u32;
        let w = width as u32;
        assert(h * w <= 0xffff * 0xffff) by (nonlinear_arith)
            requires
                h <= 0xffff,
                w <= 0xffff,
        ;
        let new_len = h * w;
        resize_to(&mut self.tiles, new_len as usize, MapTileRecordData::new(0x0000));
    }

    /// Recompiles the map and compares it with the decompressed body it
    /// was read from: whether the two agree byte for byte.
    pub fn test_against_raw_decomp(&self, info: Option<&ScenInfoData>, raw_decomp: &Vec<u8>) -> (r: bool)
        ensures
            r == (self.spec_compile(info) == raw_decomp@),
    {
        let comp = self.compile(info);
        crate::bytes::bytes_eq(comp.as_slice(), raw_decomp.as_slice())
    }

    fn compile_body(&self, layer_width: u16) -> (r: Vec<u8>)
        ensures
            r@ == mpbz_bytes(*self, layer_width),
    {
        let mut comp: Vec<u8> = Vec::new();
        let mut index: usize = 0;
        if self.bottom_trim > 0 || self.tile_offset > 0 {
            comp.push(0xff);
            comp.push(0xff);
            push_u16(&mut comp, self.tile_offset);
            push_u16(&mut comp, self.bottom_trim);
            let a = self.tile_offset as usize;
            let b = layer_width as usize;
            assert(a * b <= 0xffff * 0xffff) by (nonlinear_arith)
                requires
                    a <= 0xffff,
                    b <= 0xffff,
            ;
            index = a * b;
        }
        let ghost header = comp@;
        let ghost start = index as int;
        let tiles_len: usize = self.tiles.len();
        if index < tiles_len {
            while index < tiles_len
                invariant
                    start <= index <= tiles_len,
                    tiles_len == self.tiles@.len(),
                    comp@ == header + u16s_bytes(
                        Seq::new((index - start) as nat, |i: int| tile_short_of(self.tiles@[start + i])),
                    ),
                decreases tiles_len - index,
            {
                let tile_compiled = self.tiles[index].to_short();
                push_u16(&mut comp, tile_compiled);
                proof {
                    let prev = Seq::new(
                        (index - start) as nat,
                        |i: int| tile_short_of(self.tiles@[start + i]),
                    );
                    lemma_u16s_bytes_push(prev, tile_compiled);
                    assert(prev.push(tile_compiled) =~= Seq::new(
                        (index + 1 - start) as nat,
                        |i: int| tile_short_of(self.tiles@[start + i]),
                    ));
                }
                index += 1;
            }
            assert(Seq::new((index - start) as nat, |i: int| tile_short_of(self.tiles@[start + i]))
                =~= shorts_from(self.tiles@, start));
        } else {
            assert(shorts_from(self.tiles@, start) =~= Seq::<u16>::empty());
            assert(u16s_bytes(Seq::<u16>::empty()) =~= Seq::<u8>::empty());
        }
        assert(comp@ =~= mpbz_bytes(*self, layer_width));
        comp
    }
}

impl ScenSegment for MapTileDataSegment {
    open spec fn spec_header(&self) -> Seq<char> {
        "MPBZ"@
    }

    open spec fn spec_compile(&self, info: Option<&ScenInfoData>) -> Seq<u8> {
        match info {
            None => Seq::empty(),
            Some(i) => mpbz_bytes(*self, i.layer_width),
        }
    }

    open spec fn spec_wrap(&self, info: Option<&ScenInfoData>) -> Seq<u8> {
        match info {
            None => Seq::empty(),
            Some(i) => wrapped_segment(lz10_compressed(mpbz_bytes(*self, i.layer_width)), encode_utf8("MPBZ"@)),
        }
    }

    open spec fn can_compile(&self) -> bool {
        true
    }

    /// Needs the layer's INFO for its width; without it the result is empty.
    fn compile(&self, info: Option<&ScenInfoData>) -> (r: Vec<u8>) {
        match info {
            None => Vec::new(),
            Some(i) => self.compile_body(i.layer_width),
        }
    }

    fn wrap(&self, info: Option<&ScenInfoData>) -> (r: Vec<u8>)
        ensures
            info matches Some(i) ==> (mpbz_bytes(*self, i.layer_width).len() < 0x1000000 ==> lz10_recoverable(
                mpbz_bytes(*self, i.layer_width),
            )),
    {
        if info.is_none() {
            return Vec::new();
        }
        let comped = self.compile(info);
        let mpbz_compressed = lamezip77_lz10_recomp(&comped);
        segment_wrap(&mpbz_compressed, self.header())
    }

    fn header(&self) -> (r: String) {
        String::from_str("MPBZ")
    }
}

} // verus!

verus! {

proof fn lemma_le16_bytes(a: u8, b: u8)
    ensures
        u16_bytes((a as int + 256 * (b as int)) as u16) == seq![a, b],
{
    let v = (a as int + 256 * (b as int)) as u16;
    assert(v == a as int + 256 * (b as int));
    assert((a as int + 256 * (b as int)) % 256 == a as int);
    assert((a as int + 256 * (b as int)) / 256 == b as int);
    assert(u16_bytes(v) =~= seq![a, b]);
}

/// Encoding the 16-bit entries read from an even-length sequence gives the
/// sequence back.
proof fn lemma_u16s_of_le16(t: Seq<u8>)
    requires
        t.len() % 2 == 0,
    ensures
        u16s_bytes(Seq::new(t.len() / 2, |i: int| le16(t, 2 * i))) == t,
    decreases t.len(),
{
    let s = Seq::new(t.len() / 2, |i: int| le16(t, 2 * i));
    if t.len() == 0 {
        assert(s =~= Seq::<u16>::empty());
        assert(t =~= Seq::<u8>::empty());
    } else {
        let n = t.len();
        let t0 = t.subrange(0, n - 2);
        lemma_u16s_of_le16(t0);
        assert(s.drop_last() =~= Seq::new(t0.len() / 2, |i: int| le16(t0, 2 * i)));
        lemma_le16_bytes(t[n - 2], t[n - 1]);
        assert(s.last() == le16(t, n - 2));
        assert(t =~= t0 + seq![t[n - 2], t[n - 1]]);
    }
}

/// The entries of records read at `p` are the 16-bit values stored there.
proof fn lemma_records_shorts(s: Seq<u8>, p: int, n: nat, pre: Seq<MapTileRecordData>)
    ensures
        shorts_from(pre + records_at(s, p, n), pre.len() as int) == Seq::new(n, |i: int| le16(s, p + 2 * i)),
{
    let tiles = pre + records_at(s, p, n);
    assert forall|i: int| 0 <= i < n implies tile_short_of(#[trigger] tiles[pre.len() + i]) == le16(s, p + 2 * i) by {
        assert(tiles[pre.len() + i] == tile_record_of(le16(s, p + 2 * i)));
        crate::types::law_tile_short_roundtrip(le16(s, p + 2 * i));
    }
    assert(shorts_from(tiles, pre.len() as int) =~= Seq::new(n, |i: int| le16(s, p + 2 * i)));
}

/// Reading a map body and compiling the result again gives the body back,
/// when the body has an even length and an offset header, where it has
/// one, is not all zeros.
pub proof fn law_mpbz_recompile(s: Seq<u8>, layer_width: u16, m: MapTileDataSegment)
    requires
        mpbz_readable(s, layer_width),
        s.len() % 2 == 0,
        mpbz_has_offsets(s) ==> le16(s, 2) > 0 || le16(s, 4) > 0,
        m@ == mpbz_view_of(s, layer_width),
    ensures
        mpbz_bytes(m, layer_width) == s,
{
    if mpbz_has_offsets(s) {
        let n = (s.len() / 2 - 3) as nat;
        let pre = blanks((layer_width * le16(s, 2)) as nat, blank_tile());
        let t = s.subrange(6, s.len() as int);
        lemma_records_shorts(s, 6, n, pre);
        assert(m.tiles@ == pre + records_at(s, 6, n));
        assert(layer_width * le16(s, 2) == le16(s, 2) * layer_width) by (nonlinear_arith);
        assert(pre.len() == m.tile_offset * layer_width);
        assert(Seq::new(n, |i: int| le16(s, 6 + 2 * i)) =~= Seq::new(t.len() / 2, |i: int| le16(t, 2 * i)));
        lemma_u16s_of_le16(t);
        assert(s[0] == 0xff && s[1] == 0xff);
        lemma_le16_bytes(s[2], s[3]);
        lemma_le16_bytes(s[4], s[5]);
        assert(s =~= seq![0xffu8, 0xffu8] + seq![s[2], s[3]] + seq![s[4], s[5]] + t);
    } else {
        let n = (s.len() / 2) as nat;
        lemma_records_shorts(s, 0, n, Seq::empty());
        assert(Seq::<MapTileRecordData>::empty() + records_at(s, 0, n) =~= records_at(s, 0, n));
        assert(Seq::new(n, |i: int| le16(s, 0 + 2 * i)) =~= Seq::new(s.len() / 2, |i: int| le16(s, 2 * i)));
        lemma_u16s_of_le16(s);
    }
}

/// Reading back what `compile` wrote for a map segment gives the same
/// segment, when every record fits its 16-bit entry and the reader cannot
/// mistake the data: with a top offset or a bottom trim, the rows above the
/// offset are present and blank (they are not written, and read back
/// blank); without them, there is a first record and its entry is not the
/// `0xFFFF` marker.
pub proof fn law_mpbz_reread(m: MapTileDataSegment, layer_width: u16)
    requires
        forall|i: int| 0 <= i < m.tiles@.len() ==> tile_record_fits(#[trigger] m.tiles@[i]),
        m.tile_offset > 0 || m.bottom_trim > 0 ==> m.tile_offset * layer_width <= m.tiles@.len() && forall|i: int|
            0 <= i < m.tile_offset * layer_width ==> #[trigger] m.tiles@[i] == blank_tile(),
        !(m.tile_offset > 0 || m.bottom_trim > 0) ==> m.tiles@.len() > 0 && tile_short_of(m.tiles@[0]) != 0xffff,
    ensures
        mpbz_view_of(mpbz_bytes(m, layer_width), layer_width) == m@,
{
    let tiles = m.tiles@;
    let s = mpbz_bytes(m, layer_width);
    if m.bottom_trim > 0 || m.tile_offset > 0 {
        let start = m.tile_offset * layer_width;
        let sh = shorts_from(tiles, start);
        let pre = seq![0xffu8, 0xffu8] + u16_bytes(m.tile_offset) + u16_bytes(m.bottom_trim);
        let body = u16s_bytes(sh);
        assert(s == pre + body);
        lemma_u16s_bytes_len(sh);
        lemma_u16_roundtrip(m.tile_offset);
        lemma_u16_roundtrip(m.bottom_trim);
        assert(pre.len() == 6);
        assert(le16(s, 0) == 0xffff) by {
            assert(s[0] == 0xff && s[1] == 0xff);
        }
        let a = u16_bytes(m.tile_offset);
        let b = u16_bytes(m.bottom_trim);
        assert(le16(s, 2) == m.tile_offset) by {
            assert(s[2] == a[0] && s[3] == a[1]);
        }
        assert(le16(s, 4) == m.bottom_trim) by {
            assert(s[4] == b[0] && s[5] == b[1]);
        }
        assert(layer_width * m.tile_offset == start) by (nonlinear_arith)
            requires
                start == m.tile_offset * layer_width,
        ;
        let n = (s.len() / 2 - 3) as nat;
        assert(n == sh.len());
        let rd = records_at(s, 6, n);
        assert forall|i: int| 0 <= i < n implies #[trigger] rd[i] == tiles[start + i] by {
            lemma_u16s_bytes_index(sh, i);
            lemma_le16_shift(pre, body, 2 * i);
            assert(le16(s, 6 + 2 * i) == sh[i]);
            law_tile_record_roundtrip(tiles[start + i]);
        }
        let bl = blanks(start as nat, blank_tile());
        assert(bl + rd =~= tiles) by {
            assert forall|i: int| 0 <= i < tiles.len() implies #[trigger] (bl + rd)[i] == tiles[i] by {
                if i < start {
                    assert(tiles[i] == blank_tile());
                } else {
                    assert(rd[i - start] == tiles[start + (i - start)]);
                }
            }
        }
    } else {
        let sh = shorts_from(tiles, 0);
        lemma_u16s_bytes_len(sh);
        lemma_u16s_bytes_index(sh, 0);
        assert(le16(s, 0) == sh[0]);
        let n = s.len() / 2;
        let rd = records_at(s, 0, n);
        assert forall|i: int| 0 <= i < n implies #[trigger] rd[i] == tiles[i] by {
            lemma_u16s_bytes_index(sh, i);
            assert(le16(s, 0 + 2 * i) == sh[i]);
            law_tile_record_roundtrip(tiles[i]);
        }
        assert(rd =~= tiles);
    }
}

} // verus!
