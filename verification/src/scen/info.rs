//! INFO: the size, scrolling and display settings of a background layer.
use vstd::prelude::*;
use vstd::string::*;
use vstd::utf8::encode_utf8;
use crate::bytes::{
    c_str_end, c_str_next, le16, le32, pad4, pad_len4, pad_to_4, push_all, push_u16, push_u32,
    read_c_string, read_u16, read_u32, u16_bytes, u32_bytes, lemma_c_str_end_bounds,
};
use crate::compression::{segment_wrap, wrapped_segment};
use super::ScenSegment;

verus! {

#[derive(Debug, Clone, PartialEq, Eq)]
pub struct ScenInfoData {
    pub layer_width: u16,
    pub layer_height: u16,
    /// Rows of blank tiles left out at the top of the map data.
    pub height_offset: u32,
    /// Horizontal scroll speed relative to the player (0x1000 is matching).
    pub x_scroll: u32,
    /// Vertical scroll speed relative to the player (0x1000 is matching).
    pub y_scroll: u32,
    /// Which hardware background the layer goes on.
    pub which_bg: u8,
    pub layer_order: u8,
    pub char_base_block: u8,
    pub screen_base_block: u8,
    /// 0 and 2: 16-colour palettes; 1 and 3: one 256-colour palette.
    pub color_mode: u32,
    /// Name of the external tile-graphics file, without extension.
    pub imbz_filename_noext: Option<Vec<u8>>,
}

/// The abstract value of an INFO segment.
pub ghost struct InfoView {
    pub layer_width: u16,
    pub layer_height: u16,
    pub height_offset: u32,
    pub x_scroll: u32,
    pub y_scroll: u32,
    pub which_bg: u8,
    pub layer_order: u8,
    pub char_base_block: u8,
    pub screen_base_block: u8,
    pub color_mode: u32,
    pub imbz_filename_noext: Option<Seq<u8>>,
}

impl View for ScenInfoData {
    type V = InfoView;

    open spec fn view(&self) -> InfoView {
        InfoView {
            layer_width: self.layer_width,
            layer_height: self.layer_height,
            height_offset: self.height_offset,
            x_scroll: self.x_scroll,
            y_scroll: self.y_scroll,
            which_bg: self.which_bg,
            layer_order: self.layer_order,
            char_base_block: self.char_base_block,
            screen_base_block: self.screen_base_block,
            color_mode: self.color_mode,
            imbz_filename_noext: match self.imbz_filename_noext {
                None => None,
                Some(n) => Some(n@),
            },
        }
    }
}

/// The INFO value stored at `p` in a body of the given length.
pub open spec fn info_view_at(s: Seq<u8>, p: int, internal_length: u32) -> InfoView {
    InfoView {
        layer_width: le16(s, p),
        layer_height: le16(s, p + 2),
        height_offset: le32(s, p + 4),
        x_scroll: le32(s, p + 8),
        y_scroll: le32(s, p + 12),
        which_bg: s[p + 16],
        layer_order: s[p + 17],
        char_base_block: s[p + 18],
        screen_base_block: s[p + 19],
        color_mode: le32(s, p + 20),
        imbz_filename_noext: if internal_length > 0x18 {
            Some(s.subrange(p + 24, c_str_end(s, p + 24)))
        } else {
            None
        },
    }
}

/// The fixed part of an INFO body is 24 bytes long.
pub open spec fn info_fixed_fits(s: Seq<u8>, p: int) -> bool {
    0 <= p && p + 24 <= s.len()
}

/// Where the name ends (past its terminator), or where the fixed part ends
/// when the body has no name.
pub open spec fn info_name_next(s: Seq<u8>, p: int, internal_length: u32) -> int {
    if internal_length > 0x18 {
        c_str_next(s, p + 24)
    } else {
        p + 24
    }
}

/// Where reading stops: the body is read up to a multiple of four bytes.
pub open spec fn info_end(s: Seq<u8>, p: int, internal_length: u32) -> int {
    info_name_next(s, p, internal_length) + pad_len4((info_name_next(s, p, internal_length) - p) as nat)
}

/// Reading an INFO body ends: either the fixed part is missing, or the
/// padding after it is present.
pub open spec fn info_read_ends(s: Seq<u8>, p: int, internal_length: u32) -> bool {
    info_fixed_fits(s, p) ==> info_end(s, p, internal_length) <= s.len()
}

/// The fixed fields of `v` are those stored at `p`.
pub open spec fn info_fields_at(v: ScenInfoData, s: Seq<u8>, p: int) -> bool {
    &&& v.layer_width == le16(s, p)
    &&& v.layer_height == le16(s, p + 2)
    &&& v.height_offset == le32(s, p + 4)
    &&& v.x_scroll == le32(s, p + 8)
    &&& v.y_scroll == le32(s, p + 12)
    &&& v.which_bg == s[p + 16]
    &&& v.layer_order == s[p + 17]
    &&& v.char_base_block == s[p + 18]
    &&& v.screen_base_block == s[p + 19]
    &&& v.color_mode == le32(s, p + 20)
}

/// The INFO value read at `p` from a body of the given length.
pub open spec fn info_read_at(v: ScenInfoData, s: Seq<u8>, p: int, internal_length: u32) -> bool {
    &&& info_fields_at(v, s, p)
    &&& if internal_length > 0x18 {
        &&& v.imbz_filename_noext is Some
        &&& v.imbz_filename_noext.unwrap()@ == s.subrange(p + 24, c_str_end(s, p + 24))
    } else {
        v.imbz_filename_noext is None
    }
}

/// The 24 bytes of the fixed part.
pub open spec fn info_fixed_bytes(v: ScenInfoData) -> Seq<u8> {
    u16_bytes(v.layer_width) + u16_bytes(v.layer_height) + u32_bytes(v.height_offset) + u32_bytes(
        v.x_scroll,
    ) + u32_bytes(v.y_scroll) + seq![
        v.which_bg,
        v.layer_order,
        v.char_base_block,
        v.screen_base_block,
    ] + u32_bytes(v.color_mode)
}

/// The INFO body: the fixed part, then the name, a terminator and padding.
pub open spec fn info_bytes(v: ScenInfoData) -> Seq<u8> {
    match v.imbz_filename_noext {
        None => info_fixed_bytes(v),
        Some(name) => pad4(info_fixed_bytes(v) + name@ + seq![0u8]),
    }
}

/// Decides `info_read_ends`.
pub fn info_read_ends_check(data: &[u8], pos: usize, internal_length: u32) -> (r: bool)
    requires
        pos <= data@.len(),
    ensures
        r == info_read_ends(data@, pos as int, internal_length),
{
    if data.len() < 24 || pos > data.len() - 24 {
        return true;
    }
    let mut next = pos + 24;
    if internal_length > 0x18 {
        proof {
            lemma_c_str_end_bounds(data@, pos + 24);
        }
        let mut i = pos + 24;
        while i < data.len() && data[i] != 0
            invariant
                pos + 24 <= i <= c_str_end(data@, pos + 24) <= data@.len(),
                forall|k: int| pos + 24 <= k < c_str_end(data@, pos + 24) ==> data@[k] != 0,
                c_str_end(data@, pos + 24) < data@.len() ==> data@[c_str_end(data@, pos + 24)] == 0,
            decreases data@.len() - i,
        {
            i += 1;
        }
        next = if i < data.len() {
            i + 1
        } else {
            i
        };
    }
    let used = next - pos;
    let pad = (4 - used % 4) % 4;
    pad <= data.len() - next
}

impl ScenInfoData {
    /// Reads an INFO body of `internal_length` bytes at `pos`. Returns the
    /// value and the position after it, or `None` when the fixed part is
    /// cut short.
    pub fn new(data: &[u8], pos: usize, internal_length: u32) -> (r: Option<(ScenInfoData, usize)>)
        requires
            pos <= data@.len(),
            info_read_ends(data@, pos as int, internal_length),
        ensures
            r is None <==> !info_fixed_fits(data@, pos as int),
            r matches Some((v, q)) ==> info_read_at(v, data@, pos as int, internal_length) && q
                == info_end(data@, pos as int, internal_length) && v@ == info_view_at(
                data@,
                pos as int,
                internal_length,
            ),
    {
        if data.len() < 24 || pos > data.len() - 24 {
            return None;
        }
        let layer_width = read_u16(data, pos);
        let layer_height = read_u16(data, pos + 2);
        let height_offset = read_u32(data, pos + 4);
        let x_scroll = read_u32(data, pos + 8);
        let y_scroll = read_u32(data, pos + 12);
        let which_bg = data[pos + 16];
        let layer_order = data[pos + 17];
        let char_base_block = data[pos + 18];
        let screen_base_block = data[pos + 19];
        let color_mode = read_u32(data, pos + 20);
        let mut cur = pos + 24;
        let mut imbz_filename_noext: Option<Vec<u8>> = None;
        if internal_length > 0x18 {
            let (name, next) = read_c_string(data, cur);
            imbz_filename_noext = Some(name);
            cur = next;
        }
        proof {
            lemma_c_str_end_bounds(data@, pos + 24);
        }
        let ghost name_next = cur;
        while (cur - pos) % 4 != 0
            invariant
                pos + 24 <= name_next <= cur <= data@.len(),
                name_next == info_name_next(data@, pos as int, internal_length),
                cur - name_next <= pad_len4((name_next - pos) as nat),
                (cur - pos) % 4 == 0 ==> cur - name_next == pad_len4((name_next - pos) as nat),
                info_end(data@, pos as int, internal_length) <= data@.len(),
                data@.len() == data.len(),
            decreases pad_len4((name_next - pos) as nat) - (cur - name_next),
        {
            cur = cur + 1;
        }
        let v = ScenInfoData {
            layer_width,
            layer_height,
            height_offset,
            x_scroll,
            y_scroll,
            which_bg,
            layer_order,
            char_base_block,
            screen_base_block,
            color_mode,
            imbz_filename_noext,
        };
        Some((v, cur))
    }

    /// True if the layer uses one 256-colour palette, false for 16-colour
    /// palettes: bit 0 of the colour mode.
    pub fn is_256_colorpal_mode(&self) -> (r: bool)
        ensures
            r == (self.color_mode % 2 == 1),
    {
        self.color_mode % 2 == 1
    }
}

impl ScenSegment for ScenInfoData {
    open spec fn spec_header(&self) -> Seq<char> {
        "INFO"@
    }

    open spec fn spec_compile(&self, info: Option<&ScenInfoData>) -> Seq<u8> {
        info_bytes(*self)
    }

    open spec fn spec_wrap(&self, info: Option<&ScenInfoData>) -> Seq<u8> {
        wrapped_segment(info_bytes(*self), encode_utf8("INFO"@))
    }

    open spec fn can_compile(&self) -> bool {
        true
    }

    fn compile(&self, _info: Option<&ScenInfoData>) -> (r: Vec<u8>) {
        let mut comp: Vec<u8> = Vec::new();
        push_u16(&mut comp, self.layer_width);
        push_u16(&mut comp, self.layer_height);
        push_u32(&mut comp, self.height_offset);
        push_u32(&mut comp, self.x_scroll);
        push_u32(&mut comp, self.y_scroll);
        comp.push(self.which_bg);
        comp.push(self.layer_order);
        comp.push(self.char_base_block);
        comp.push(self.screen_base_block);
        push_u32(&mut comp, self.color_mode);
        assert(comp@ =~= info_fixed_bytes(*self));
        match &self.imbz_filename_noext {
            None => comp,
            Some(name) => {
                push_all(&mut comp, name.as_slice());
                comp.push(0);
                assert(comp@ =~= info_fixed_bytes(*self) + name@ + seq![0u8]);
                pad_to_4(&mut comp);
                comp
            },
        }
    }

    fn wrap(&self, _info: Option<&ScenInfoData>) -> (r: Vec<u8>) {
        let comped = self.compile(None);
        segment_wrap(&comped, self.header())
    }

    fn header(&self) -> (r: String) {
        String::from_str("INFO")
    }
}

} // verus!

verus! {

impl Default for ScenInfoData {
    /// An INFO that names no layer: sizes and scrolling zero, the other
    /// fields all ones.
    fn default() -> (r: Self)
        ensures
            r.layer_width == 0,
            r.layer_height == 0,
            r.height_offset == 0xffff,
            r.x_scroll == 0,
            r.y_scroll == 0,
            r.which_bg == 0xff,
            r.layer_order == 0xff,
            r.char_base_block == 0xff,
            r.screen_base_block == 0xff,
            r.color_mode == 0xff,
            r.imbz_filename_noext is None,
    {
        ScenInfoData {
            layer_width: 0,
            layer_height: 0,
            height_offset: 0xffff,
            x_scroll: 0,
            y_scroll: 0,
            which_bg: 0xff,
            layer_order: 0xff,
            char_base_block: 0xff,
            screen_base_block: 0xff,
            color_mode: 0xff,
            imbz_filename_noext: None,
        }
    }
}

} // verus!

verus! {

/// Reading back what `compile` wrote for an INFO gives the same layer
/// settings, and reading stops at the end of those bytes, when its
/// tile-graphics name holds no zero byte (the name is read up to its
/// terminator) and the bytes fit the 32-bit length they are read with.
pub proof fn law_info_roundtrip(v: ScenInfoData)
    requires
        v.imbz_filename_noext matches Some(n) ==> n@.len() + 28 <= u32::MAX && forall|i: int|
            0 <= i < n@.len() ==> #[trigger] n@[i] != 0,
    ensures
        info_view_at(info_bytes(v), 0, info_bytes(v).len() as u32) == v@,
        info_end(info_bytes(v), 0, info_bytes(v).len() as u32) == info_bytes(v).len(),
{
    let f = info_fixed_bytes(v);
    crate::bytes::lemma_u16_roundtrip(v.layer_width);
    crate::bytes::lemma_u16_roundtrip(v.layer_height);
    crate::bytes::lemma_u32_roundtrip(v.height_offset);
    crate::bytes::lemma_u32_roundtrip(v.x_scroll);
    crate::bytes::lemma_u32_roundtrip(v.y_scroll);
    crate::bytes::lemma_u32_roundtrip(v.color_mode);
    let a = u16_bytes(v.layer_width);
    let b = u16_bytes(v.layer_height);
    let c = u32_bytes(v.height_offset);
    let d = u32_bytes(v.x_scroll);
    let e = u32_bytes(v.y_scroll);
    let g = u32_bytes(v.color_mode);
    assert(f.len() == 24);
    let s = info_bytes(v);
    assert forall|i: int| 0 <= i < 24 implies #[trigger] s[i] == f[i] by {
        match v.imbz_filename_noext {
            None => {},
            Some(n) => {
                assert(pad4(f + n@ + seq![0u8])[i] == (f + n@ + seq![0u8])[i]);
            },
        }
    }
    assert(s[0] == a[0] && s[1] == a[1] && s[2] == b[0] && s[3] == b[1]);
    assert(s[4] == c[0] && s[5] == c[1] && s[6] == c[2] && s[7] == c[3]);
    assert(s[8] == d[0] && s[9] == d[1] && s[10] == d[2] && s[11] == d[3]);
    assert(s[12] == e[0] && s[13] == e[1] && s[14] == e[2] && s[15] == e[3]);
    assert(s[20] == g[0] && s[21] == g[1] && s[22] == g[2] && s[23] == g[3]);
    assert(le16(s, 0) == le16(a, 0));
    assert(le16(s, 2) == le16(b, 0));
    assert(le32(s, 4) == le32(c, 0));
    assert(le32(s, 8) == le32(d, 0));
    assert(le32(s, 12) == le32(e, 0));
    assert(le32(s, 20) == le32(g, 0));
    match v.imbz_filename_noext {
        None => {},
        Some(n) => {
            let t = f + n@ + seq![0u8];
            crate::compression::lemma_pad4_len(t);
            assert forall|i: int| 0 <= i < n@.len() implies #[trigger] s[24 + i] == n@[i] by {
                assert(s[24 + i] == t[24 + i]);
            }
            assert(s[24 + n@.len() as int] == t[24 + n@.len() as int]);
            assert forall|i: int| 24 <= i < 24 + n@.len() implies s[i] != 0 by {
                assert(s[24 + (i - 24)] == n@[i - 24]);
            }
            crate::bytes::lemma_c_str_end_unique(s, 24, 24 + n@.len() as int);
            assert(s.subrange(24, 24 + n@.len() as int) =~= n@);
            assert(t.len() == 25 + n@.len());
            assert(s.len() == t.len() + pad_len4(t.len()));
            assert(c_str_next(s, 24) == 25 + n@.len());
            assert(info_name_next(s, 0, s.len() as u32) == 25 + n@.len());
        },
    }
}

} // verus!
