//! GRAD: a colour gradient drawn behind a map (GINF settings and GCOL
//! colours).
use vstd::prelude::*;
use vstd::string::*;
use vstd::utf8::encode_utf8;
use crate::bytes::{le16, le32, le_i16, u16_bytes, u32_bytes, i16_bytes, u16s_bytes, push_byte, push_u16, push_u32, push_i16, read_u16, read_u32, read_i16, lemma_u16s_bytes_push, lemma_u16s_bytes_len, lemma_u16s_bytes_index, lemma_le16_shift, lemma_u16_roundtrip, lemma_u32_roundtrip, lemma_i16_roundtrip};
use crate::compression::{segment_wrap, wrapped_segment};
use crate::segments::TopLevelSegment;

verus! {

#[derive(Debug, Clone, PartialEq)]
pub struct GradientData {
    // GINF
    pub color_count: u16,
    pub unknown1: i16,
    pub unknown2: u16,
    pub _padding: u16,
    pub y_offset: u32,
    // GCOL
    pub color_shorts: Vec<u16>,
}

impl Default for GradientData {
    fn default() -> (r: Self)
        ensures
            r.color_count == 0 && r.unknown1 == 0 && r.unknown2 == 0 && r._padding == 0 && r.y_offset == 0,
            r.color_shorts@.len() == 0,
    {
        GradientData { color_count: 0, unknown1: 0, unknown2: 0, _padding: 0, y_offset: 0, color_shorts: Vec::new() }
    }
}

/// The abstract value of a gradient.
pub ghost struct GradView {
    pub color_count: u16,
    pub unknown1: i16,
    pub unknown2: u16,
    pub padding: u16,
    pub y_offset: u32,
    pub color_shorts: Seq<u16>,
}

impl View for GradientData {
    type V = GradView;

    open spec fn view(&self) -> GradView {
        GradView {
            color_count: self.color_count,
            unknown1: self.unknown1,
            unknown2: self.unknown2,
            padding: self._padding,
            y_offset: self.y_offset,
            color_shorts: self.color_shorts@,
        }
    }
}

pub open spec fn ginf_tag() -> Seq<u8> {
    seq![0x47u8, 0x49, 0x4E, 0x46]
}

pub open spec fn gcol_tag() -> Seq<u8> {
    seq![0x47u8, 0x43, 0x4F, 0x4C]
}

/// The four bytes at `p` exist and spell `tag`.
pub open spec fn tag_at(s: Seq<u8>, p: int, tag: Seq<u8>) -> bool {
    p + 4 <= s.len() && s.subrange(p, p + 4) == tag
}

/// The inputs on which reading a gradient fails on a fixed-size field
/// that the format expects to be there (the reader panics on them).
pub open spec fn grad_truncated(s: Seq<u8>) -> bool {
    ||| tag_at(s, 0, ginf_tag()) && s.len() < 8
    ||| tag_at(s, 0, ginf_tag()) && le32(s, 4) == 0xC && 16 <= s.len() < 20
    ||| tag_at(s, 0, ginf_tag()) && le32(s, 4) == 0xC && s.len() >= 20 && tag_at(s, 20, gcol_tag())
        && s.len() < 28
}

/// The gradient a GRAD body holds: GINF with a size of 12, the fields,
/// GCOL, its size, then `color_count` colours.
pub open spec fn grad_of(s: Seq<u8>) -> Option<GradView> {
    if !tag_at(s, 0, ginf_tag()) || le32(s, 4) != 0xC || s.len() < 16 {
        None
    } else if !tag_at(s, 20, gcol_tag()) {
        None
    } else if 28 + 2 * le16(s, 8) > s.len() {
        None
    } else {
        Some(
            GradView {
                color_count: le16(s, 8),
                unknown1: le_i16(s, 10),
                unknown2: le16(s, 12),
                padding: le16(s, 14),
                y_offset: le32(s, 16),
                color_shorts: Seq::new(le16(s, 8) as nat, |i: int| le16(s, 28 + 2 * i)),
            },
        )
    }
}

fn tag_matches(s: &[u8], p: usize, t0: u8, t1: u8, t2: u8, t3: u8) -> (r: bool)
    ensures
        r == tag_at(s@, p as int, seq![t0, t1, t2, t3]),
{
    if p > s.len() || s.len() - p < 4 {
        return false;
    }
    let r = s[p] == t0 && s[p + 1] == t1 && s[p + 2] == t2 && s[p + 3] == t3;
    if r {
        assert(s@.subrange(p as int, p + 4) =~= seq![t0, t1, t2, t3]);
    } else {
        assert(s@.subrange(p as int, p + 4)[0] == s@[p as int]);
        assert(s@.subrange(p as int, p + 4)[1] == s@[p + 1]);
        assert(s@.subrange(p as int, p + 4)[2] == s@[p + 2]);
        assert(s@.subrange(p as int, p + 4)[3] == s@[p + 3]);
    }
    r
}

impl GradientData {
    /// Reads a GRAD body; `None` when a name or the GINF size is wrong or
    /// the data ends early.
    pub fn new(bytedata: &[u8]) -> (r: Option<Self>)
        requires
            !grad_truncated(bytedata@),
        ensures
            match (r, grad_of(bytedata@)) {
                (None, None) => true,
                (Some(g), Some(v)) => g@ == v,
                _ => false,
            },
    {
        if !tag_matches(bytedata, 0, 0x47, 0x49, 0x4E, 0x46) {
            return None;
        }
        let ginf_size = read_u32(bytedata, 4);
        if ginf_size != 0xc {
            return None;
        }
        if bytedata.len() < 16 {
            return None;
        }
        let color_count = read_u16(bytedata, 8);
        let unknown1 = read_i16(bytedata, 10);
        let unknown2 = read_u16(bytedata, 12);
        let padding = read_u16(bytedata, 14);
        let y_offset = read_u32(bytedata, 16);
        if !tag_matches(bytedata, 20, 0x47, 0x43, 0x4F, 0x4C) {
            return None;
        }
        let _gcol_size = read_u32(bytedata, 24);
        if (bytedata.len() - 28) / 2 < color_count as usize {
            return None;
        }
        let mut shorts: Vec<u16> = Vec::new();
        let mut i: usize = 0;
        let mut pos: usize = 28;
        while i < color_count as usize
            invariant
                i <= color_count,
                pos == 28 + 2 * i,
                28 + 2 * color_count <= bytedata@.len(),
                color_count == le16(bytedata@, 8),
                shorts@ == Seq::new(i as nat, |k: int| le16(bytedata@, 28 + 2 * k)),
            decreases color_count - i,
        {
            let v = read_u16(bytedata, pos);
            shorts.push(v);
            assert(shorts@ =~= Seq::new((i + 1) as nat, |k: int| le16(bytedata@, 28 + 2 * k)));
            i += 1;
            pos += 2;
        }
        Some(
            GradientData {
                color_count,
                unknown1,
                unknown2,
                _padding: padding,
                y_offset,
                color_shorts: shorts,
            },
        )
    }
}

/// The bytes `compile` writes: GINF, its size and fields, GCOL, the size
/// of the colours and the colours.
pub open spec fn grad_bytes(g: GradView) -> Seq<u8> {
    ginf_tag() + u32_bytes(0xC) + u16_bytes(g.color_count) + i16_bytes(g.unknown1) + u16_bytes(
        g.unknown2,
    ) + u16_bytes(g.padding) + u32_bytes(g.y_offset) + gcol_tag() + u32_bytes(
        (2 * g.color_shorts.len()) as u32,
    ) + u16s_bytes(g.color_shorts)
}

impl TopLevelSegment for GradientData {
    open spec fn spec_compile(&self) -> Seq<u8> {
        grad_bytes(self@)
    }

    open spec fn spec_wrap(&self) -> Seq<u8> {
        wrapped_segment(grad_bytes(self@), encode_utf8("GRAD"@))
    }

    open spec fn spec_header(&self) -> Seq<char> {
        "GRAD"@
    }

    /// The colour count is doubled in 16 bits when checked against the
    /// colours, which overflows from 0x8000 on.
    open spec fn can_compile(&self) -> bool {
        self.color_count < 0x8000 && self.color_shorts@.len() * 2 <= usize::MAX
    }

    fn compile(&self) -> (r: Vec<u8>) {
        let mut comp: Vec<u8> = Vec::new();
        push_byte(&mut comp, 0x47);
        push_byte(&mut comp, 0x49);
        push_byte(&mut comp, 0x4E);
        push_byte(&mut comp, 0x46);
        push_u32(&mut comp, 0xC);
        push_u16(&mut comp, self.color_count);
        push_i16(&mut comp, self.unknown1);
        push_u16(&mut comp, self.unknown2);
        push_u16(&mut comp, self._padding);
        push_u32(&mut comp, self.y_offset);
        push_byte(&mut comp, 0x47);
        push_byte(&mut comp, 0x43);
        push_byte(&mut comp, 0x4F);
        push_byte(&mut comp, 0x4C);
        let colors_size: usize = self.color_shorts.len() * 2;
        push_u32(&mut comp, colors_size as u32);
        let ghost head = comp@;
        assert(head =~= ginf_tag() + u32_bytes(0xC) + u16_bytes(self.color_count) + i16_bytes(
            self.unknown1,
        ) + u16_bytes(self.unknown2) + u16_bytes(self._padding) + u32_bytes(self.y_offset) + gcol_tag()
            + u32_bytes((2 * self.color_shorts@.len()) as u32));
        let mut i: usize = 0;
        while i < self.color_shorts.len()
            invariant
                i <= self.color_shorts@.len(),
                comp@ == head + u16s_bytes(self.color_shorts@.take(i as int)),
            decreases self.color_shorts@.len() - i,
        {
            let c = self.color_shorts[i];
            proof {
                lemma_u16s_bytes_push(self.color_shorts@.take(i as int), c);
                assert(self.color_shorts@.take(i as int).push(c) =~= self.color_shorts@.take(i + 1));
            }
            push_u16(&mut comp, c);
            assert(comp@ =~= head + u16s_bytes(self.color_shorts@.take(i + 1)));
            i += 1;
        }
        assert(self.color_shorts@.take(i as int) =~= self.color_shorts@);
        comp
    }

    fn wrap(&self) -> (r: Vec<u8>) {
        let comp = self.compile();
        segment_wrap(&comp, String::from_str("GRAD"))
    }

    fn header(&self) -> (r: String) {
        String::from_str("GRAD")
    }
}

} // verus!

verus! {

/// Reading back what `compile` wrote gives the same gradient, when the
/// colour count matches the colours.
pub proof fn law_grad_roundtrip(v: GradView)
    requires
        v.color_shorts.len() == v.color_count,
    ensures
        grad_of(grad_bytes(v)) == Some(v),
{
    let u = u16s_bytes(v.color_shorts);
    let h = ginf_tag() + u32_bytes(0xC) + u16_bytes(v.color_count) + i16_bytes(v.unknown1) + u16_bytes(
        v.unknown2,
    ) + u16_bytes(v.padding) + u32_bytes(v.y_offset) + gcol_tag() + u32_bytes(
        (2 * v.color_shorts.len()) as u32,
    );
    let c = grad_bytes(v);
    assert(c == h + u);
    lemma_u16s_bytes_len(v.color_shorts);
    assert(h.len() == 28);
    assert(c.subrange(0, 4) =~= ginf_tag());
    assert(c.subrange(20, 24) =~= gcol_tag());
    assert(c.subrange(4, 8) =~= u32_bytes(0xC));
    assert(c.subrange(8, 10) =~= u16_bytes(v.color_count));
    assert(c.subrange(10, 12) =~= i16_bytes(v.unknown1));
    assert(c.subrange(12, 14) =~= u16_bytes(v.unknown2));
    assert(c.subrange(14, 16) =~= u16_bytes(v.padding));
    assert(c.subrange(16, 20) =~= u32_bytes(v.y_offset));
    lemma_u32_roundtrip(0xC);
    lemma_u16_roundtrip(v.color_count);
    lemma_i16_roundtrip(v.unknown1);
    lemma_u16_roundtrip(v.unknown2);
    lemma_u16_roundtrip(v.padding);
    lemma_u32_roundtrip(v.y_offset);
    assert(le32(c, 4) == le32(u32_bytes(0xC), 0));
    assert(le16(c, 8) == le16(u16_bytes(v.color_count), 0));
    assert(le_i16(c, 10) == le_i16(i16_bytes(v.unknown1), 0));
    assert(le16(c, 12) == le16(u16_bytes(v.unknown2), 0));
    assert(le16(c, 14) == le16(u16_bytes(v.padding), 0));
    assert(le32(c, 16) == le32(u32_bytes(v.y_offset), 0));
    assert forall|i: int| 0 <= i < v.color_shorts.len() implies le16(c, 28 + 2 * i) == v.color_shorts[i] by {
        lemma_u16s_bytes_index(v.color_shorts, i);
        lemma_le16_shift(h, u, 2 * i);
    }
    assert(Seq::new(le16(c, 8) as nat, |i: int| le16(c, 28 + 2 * i)) =~= v.color_shorts);
}

} // verus!

verus! {

/// Decides `grad_truncated`.
pub(crate) fn grad_truncated_check(s: &[u8]) -> (r: bool)
    ensures
        r == grad_truncated(s@),
{
    if !tag_matches(s, 0, 0x47, 0x49, 0x4E, 0x46) {
        return false;
    }
    if s.len() < 8 {
        return true;
    }
    if read_u32(s, 4) != 0xC {
        return false;
    }
    if s.len() >= 16 && s.len() < 20 {
        return true;
    }
    if s.len() < 20 {
        return false;
    }
    tag_matches(s, 20, 0x47, 0x43, 0x4F, 0x4C) && s.len() < 28
}

} // verus!
