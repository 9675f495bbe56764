//! Map tile records, palettes and the editing layers.
use vstd::prelude::*;
use crate::bytes::{le16, push_u16, read_u16, u16_bytes, u16s_bytes, lemma_u16s_bytes_push};

verus! {

/// Serialisation into the byte layout the game reads.
pub trait Compilable {
    /// The bytes that `compile` produces.
    spec fn spec_compile(&self) -> Seq<u8>;

    /// The values `compile` accepts.
    spec fn can_compile(&self) -> bool;

    /// Creates a byte vector readable by the game, without header or compression.
    fn compile(&self) -> (r: Vec<u8>)
        requires
            self.can_compile(),
        ensures
            r@ == self.spec_compile(),
    ;
}

/// One screen-map entry of a background layer.
#[derive(Clone, Copy, Debug, PartialEq, Eq, Default)]
pub struct MapTileRecordData {
    pub tile_id: u16,
    pub palette_id: u16,
    pub flip_h: bool,
    pub flip_v: bool,
}

/// The record a 16-bit screen-map entry stands for: bits 0-9 the tile,
/// bit 10 horizontal flip, bit 11 vertical flip, bits 12-15 the palette.
pub open spec fn tile_record_of(short: u16) -> MapTileRecordData {
    MapTileRecordData {
        tile_id: short & 0x3ff,
        palette_id: short >> 12u16,
        flip_h: (short >> 10u16) & 1 == 1,
        flip_v: (short >> 11u16) & 1 == 1,
    }
}

pub open spec fn bool_bit(b: bool) -> u16 {
    if b {
        1
    } else {
        0
    }
}

/// The 16-bit entry of a record. The palette is written only when it
/// fits in four bits (it is unused in 256-colour mode).
pub open spec fn tile_short_of(t: MapTileRecordData) -> u16 {
    let base = t.tile_id | (bool_bit(t.flip_h) << 10u16) | (bool_bit(t.flip_v) << 11u16);
    if t.palette_id <= 15 {
        base | (t.palette_id << 12u16)
    } else {
        base
    }
}

/// A record that survives a round trip through its 16-bit entry.
pub open spec fn tile_record_fits(t: MapTileRecordData) -> bool {
    t.tile_id < 1024 && t.palette_id <= 15
}

impl MapTileRecordData {
    /// Decodes a 16-bit screen-map entry.
    pub fn new(short: u16) -> (r: Self)
        ensures
            r == tile_record_of(short),
    {
        let flip_v = ((short >> 11u16) % 2) == 1;
        let flip_h = ((short >> 10u16) % 2) == 1;
        let palette_id = short >> 12u16;
        let tile_id = short & 0b1111111111;
        proof {
            assert(((short >> 11u16) % 2 == 1) == ((short >> 11u16) & 1 == 1)) by (bit_vector);
            assert(((short >> 10u16) % 2 == 1) == ((short >> 10u16) & 1 == 1)) by (bit_vector);
        }
        Self { flip_h, flip_v, palette_id, tile_id }
    }

    /// Encodes the record as a 16-bit screen-map entry.
    pub fn to_short(self) -> (r: u16)
        ensures
            r == tile_short_of(self),
    {
        let h: u16 = if self.flip_h {
            1
        } else {
            0
        };
        let v: u16 = if self.flip_v {
            1
        } else {
            0
        };
        let mut short_val: u16 = self.tile_id | (h << 10u16) | (v << 11u16);
        if self.palette_id <= 15 {
            short_val = short_val | (self.palette_id << 12u16);
        }
        short_val
    }

    /// The global palette slot a tile renders with: its palette plus the
    /// layer offset, plus one for the universal palette unless the layer is
    /// in 256-colour mode (`color_mode == 1`).
    pub fn get_render_pal_id(&self, layer_pal_offset: u8, color_mode: u32) -> (r: usize)
        ensures
            r == self.palette_id + layer_pal_offset + (if color_mode == 1 {
                0int
            } else {
                1int
            }),
    {
        let mut pal_index = self.palette_id as usize;
        pal_index += layer_pal_offset as usize;
        if color_mode == 0x0 || color_mode == 0x2 {
            pal_index += 1;
        } else if color_mode == 0x1 {
        } else {
            pal_index += 1;
        }
        pal_index
    }
}

impl Compilable for MapTileRecordData {
    open spec fn spec_compile(&self) -> Seq<u8> {
        u16_bytes(tile_short_of(*self))
    }

    open spec fn can_compile(&self) -> bool {
        true
    }

    fn compile(&self) -> (r: Vec<u8>) {
        let mut comp: Vec<u8> = Vec::new();
        push_u16(&mut comp, self.to_short());
        assert(comp@ =~= u16_bytes(tile_short_of(*self)));
        comp
    }
}

/// Decoding an entry and encoding it again gives the entry back.
pub proof fn law_tile_short_roundtrip(short: u16)
    ensures
        tile_short_of(tile_record_of(short)) == short,
{
    let t = tile_record_of(short);
    assert(((short >> 10u16) & 1 == 1) ==> bool_bit(t.flip_h) == 1);
    assert(!((short >> 10u16) & 1 == 1) ==> bool_bit(t.flip_h) == 0);
    assert(((short >> 11u16) & 1 == 1) ==> bool_bit(t.flip_v) == 1);
    assert(!((short >> 11u16) & 1 == 1) ==> bool_bit(t.flip_v) == 0);
    assert(short >> 12u16 <= 15) by (bit_vector);
    let h = bool_bit(t.flip_h);
    let v = bool_bit(t.flip_v);
    assert((short >> 10u16) & 1 == 1 || (short >> 10u16) & 1 == 0) by (bit_vector);
    assert((short >> 11u16) & 1 == 1 || (short >> 11u16) & 1 == 0) by (bit_vector);
    assert(h == (short >> 10u16) & 1);
    assert(v == (short >> 11u16) & 1);
    assert((short & 0x3ff) | (((short >> 10u16) & 1) << 10u16) | (((short >> 11u16) & 1) << 11u16)
        | ((short >> 12u16) << 12u16) == short) by (bit_vector);
}

/// Encoding a record whose tile fits in ten bits and whose palette fits in
/// four bits, then decoding it, gives the record back.
pub proof fn law_tile_record_roundtrip(t: MapTileRecordData)
    requires
        tile_record_fits(t),
    ensures
        tile_record_of(tile_short_of(t)) == t,
{
    let h = bool_bit(t.flip_h);
    let v = bool_bit(t.flip_v);
    let id = t.tile_id;
    let p = t.palette_id;
    let s = id | (h << 10u16) | (v << 11u16) | (p << 12u16);
    assert(h <= 1 && v <= 1);
    assert(id < 1024 && p <= 15 && h <= 1 && v <= 1 ==> {
        &&& (id | (h << 10u16) | (v << 11u16) | (p << 12u16)) & 0x3ff == id
        &&& (id | (h << 10u16) | (v << 11u16) | (p << 12u16)) >> 12u16 == p
        &&& ((id | (h << 10u16) | (v << 11u16) | (p << 12u16)) >> 10u16) & 1 == h
        &&& ((id | (h << 10u16) | (v << 11u16) | (p << 12u16)) >> 11u16) & 1 == v
    }) by (bit_vector);
    assert(tile_short_of(t) == s);
}

/// The layers the editor works on.
#[derive(Debug, PartialEq, Eq, Clone, Copy)]
pub enum CurrentLayer {
    BG1,
    BG2,
    BG3,
    Sprites,
    Collision,
    Paths,
    Triggers,
}

impl CurrentLayer {
    /// The layer's number (1 to 7); for backgrounds it is the BG index.
    pub fn number(self) -> (r: u8)
        ensures
            r == layer_number(self),
    {
        match self {
            CurrentLayer::BG1 => 1,
            CurrentLayer::BG2 => 2,
            CurrentLayer::BG3 => 3,
            CurrentLayer::Sprites => 4,
            CurrentLayer::Collision => 5,
            CurrentLayer::Paths => 6,
            CurrentLayer::Triggers => 7,
        }
    }
}

pub open spec fn layer_number(l: CurrentLayer) -> u8 {
    match l {
        CurrentLayer::BG1 => 1,
        CurrentLayer::BG2 => 2,
        CurrentLayer::BG3 => 3,
        CurrentLayer::Sprites => 4,
        CurrentLayer::Collision => 5,
        CurrentLayer::Paths => 6,
        CurrentLayer::Triggers => 7,
    }
}

/// One palette entry: the BGR555 value the colour is drawn from, the raw
/// value kept for saving, and the file offset just after the entry.
#[derive(Clone, Copy, Debug, PartialEq, Eq)]
pub struct PalColor {
    pub color: u16,
    pub _short: u16,
    pub _addr: u32,
}

impl PalColor {
    pub open spec fn spec_default() -> PalColor {
        PalColor { color: 0x001F, _short: 0xBEEF, _addr: 0xDEADBEEF }
    }

    /// Pure red, with marker values for the raw entry and offset.
    pub fn default() -> (r: PalColor)
        ensures
            r == PalColor::spec_default(),
    {
        PalColor { color: 0x001F, _short: 0xBEEF, _addr: 0xDEADBEEF }
    }
}

/// Up to 256 colours; `_pal_len` of them are in use.
#[derive(Clone, Debug, PartialEq, Eq)]
pub struct Palette {
    pub colors: Vec<PalColor>,
    pub _pal_len: usize,
}

/// The abstract value of a palette.
pub ghost struct PaletteView {
    pub colors: Seq<PalColor>,
    pub pal_len: usize,
}

impl View for Palette {
    type V = PaletteView;

    open spec fn view(&self) -> PaletteView {
        PaletteView { colors: self.colors@, pal_len: self._pal_len }
    }
}

/// The palette `from_cursor` reads: `pal_len` colours at `pos`, the rest
/// default.
pub open spec fn palette_view_at(s: Seq<u8>, pos: int, pal_len: int) -> PaletteView {
    PaletteView {
        colors: Seq::new(
            256,
            |i: int|
                if i < pal_len {
                    PalColor {
                        color: le16(s, pos + 2 * i),
                        _short: le16(s, pos + 2 * i),
                        _addr: (pos + 2 * i + 2) as u32,
                    }
                } else {
                    PalColor::spec_default()
                },
        ),
        pal_len: pal_len as usize,
    }
}

impl Palette {
    pub open spec fn wf(&self) -> bool {
        self.colors@.len() == 256
    }

    /// 256 default colours, none in use.
    pub fn default() -> (r: Palette)
        ensures
            r.wf(),
            r._pal_len == 0,
            forall|i: int| 0 <= i < 256 ==> r.colors@[i] == PalColor::spec_default(),
    {
        let mut colors: Vec<PalColor> = Vec::new();
        let mut i: usize = 0;
        while i < 256
            invariant
                i <= 256,
                colors@.len() == i,
                forall|j: int| 0 <= j < i ==> colors@[j] == PalColor::spec_default(),
            decreases 256 - i,
        {
            colors.push(PalColor::default());
            i += 1;
        }
        Palette { colors, _pal_len: 0 }
    }

    /// Reads `pal_len` colours starting at `pos`; returns the palette and
    /// the position after it.
    pub fn from_cursor(data: &[u8], pos: usize, pal_len: usize) -> (r: (Palette, usize))
        requires
            pal_len <= 256,
            pos + 2 * pal_len <= data@.len(),
        ensures
            r.0.wf(),
            r.0._pal_len == pal_len,
            r.1 == pos + 2 * pal_len,
            r.0@ == palette_view_at(data@, pos as int, pal_len as int),
            forall|i: int|
                0 <= i < 256 ==> r.0.colors@[i] == (if i < pal_len {
                    PalColor {
                        color: le16(data@, pos + 2 * i),
                        _short: le16(data@, pos + 2 * i),
                        _addr: (pos + 2 * i + 2) as u32,
                    }
                } else {
                    PalColor::spec_default()
                }),
    {
        let mut pal = Palette::default();
        let mut i: usize = 0;
        let mut cur = pos;
        while i < pal_len
            invariant
                i <= pal_len <= 256,
                cur == pos + 2 * i,
                pos + 2 * pal_len <= data@.len(),
                data@.len() == data.len(),
                pal.wf(),
                pal._pal_len == 0,
                forall|j: int|
                    0 <= j < 256 ==> pal.colors@[j] == (if j < i {
                        PalColor {
                            color: le16(data@, pos + 2 * j),
                            _short: le16(data@, pos + 2 * j),
                            _addr: (pos + 2 * j + 2) as u32,
                        }
                    } else {
                        PalColor::spec_default()
                    }),
            decreases pal_len - i,
        {
            let short = read_u16(data, cur);
            cur = cur + 2;
            pal.colors.set(i, PalColor { color: short, _short: short, _addr: cur as u32 });
            i += 1;
        }
        pal._pal_len = pal_len;
        assert(pal.colors@ =~= palette_view_at(data@, pos as int, pal_len as int).colors);
        (pal, cur)
    }

    /// Reads palette number `index` (16 bytes apart) of a palette table.
    /// Only the colours are filled in; the raw entries keep their markers.
    pub fn from_segment_index(data: &[u8], index: u32, pal_len: usize) -> (r: Palette)
        requires
            pal_len <= 256,
            16 * index + 2 * pal_len <= data@.len(),
        ensures
            r.wf(),
            r._pal_len == pal_len,
            forall|i: int|
                0 <= i < 256 ==> r.colors@[i] == (if i < pal_len {
                    PalColor { color: le16(data@, 16 * index + 2 * i), ..PalColor::spec_default() }
                } else {
                    PalColor::spec_default()
                }),
    {
        let mut pal = Palette::default();
        let mut i: usize = 0;
        assert(data@.len() == data.len());
        let start: usize = (index as usize) * 16;
        while i < pal_len
            invariant
                i <= pal_len <= 256,
                start == 16 * index,
                start + 2 * pal_len <= data@.len(),
                data@.len() == data.len(),
                pal.wf(),
                pal._pal_len == 0,
                forall|j: int|
                    0 <= j < 256 ==> pal.colors@[j] == (if j < i {
                        PalColor { color: le16(data@, start + 2 * j), ..PalColor::spec_default() }
                    } else {
                        PalColor::spec_default()
                    }),
            decreases pal_len - i,
        {
            let short = read_u16(data, start + 2 * i);
            pal.colors.set(i, PalColor { color: short, _short: 0xBEEF, _addr: 0xDEADBEEF });
            i += 1;
        }
        pal._pal_len = pal_len;
        pal
    }

    /// The raw entries in use.
    pub open spec fn used_shorts(&self) -> Seq<u16> {
        Seq::new(self._pal_len as nat, |i: int| self.colors@[i]._short)
    }
}

impl Compilable for Palette {
    open spec fn spec_compile(&self) -> Seq<u8> {
        u16s_bytes(self.used_shorts())
    }

    open spec fn can_compile(&self) -> bool {
        self._pal_len <= self.colors@.len()
    }

    /// Writes the raw entries of the colours in use.
    fn compile(&self) -> (r: Vec<u8>) {
        let mut comp: Vec<u8> = Vec::new();
        let mut i: usize = 0;
        while i < self._pal_len
            invariant
                i <= self._pal_len <= self.colors@.len(),
                comp@ == u16s_bytes(Seq::new(i as nat, |j: int| self.colors@[j]._short)),
            decreases self._pal_len - i,
        {
            push_u16(&mut comp, self.colors[i]._short);
            proof {
                let prev = Seq::new(i as nat, |j: int| self.colors@[j]._short);
                lemma_u16s_bytes_push(prev, self.colors@[i as int]._short);
                assert(prev.push(self.colors@[i as int]._short) =~= Seq::new((i + 1) as nat, |j: int| self.colors@[j]._short));
            }
            i += 1;
        }
        assert(Seq::new(i as nat, |j: int| self.colors@[j]._short) =~= self.used_shorts());
        comp
    }
}

} // verus!
