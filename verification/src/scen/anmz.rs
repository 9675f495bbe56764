//! ANMZ: animated tile graphics of a background layer.
use vstd::prelude::*;
use vstd::string::*;
use vstd::utf8::encode_utf8;
use crate::bytes::{le16, pad_len4, read_u16};
use crate::compression::{lamezip77_lz10_recomp, lz10_compressed, segment_wrap, wrapped_segment};
use super::info::ScenInfoData;
use super::ScenSegment;

verus! {

#[derive(Clone, Debug, PartialEq, Eq)]
pub struct AnmzDataSegment {
    pub frame_count: u8,
    pub unk1: u8,
    pub unk2: u16,
    /// Tile index in video memory the animation is copied to.
    pub vram_offset: u16,
    /// How long each frame is held.
    pub frame_holds: Vec<u8>,
    pub pixeltiles: Vec<u8>,
    /// The decompressed body, kept for saving.
    pub _raw_decomp: Vec<u8>,
}

/// The abstract value of an ANMZ segment.
pub ghost struct AnmzView {
    pub frame_count: u8,
    pub unk1: u8,
    pub unk2: u16,
    pub vram_offset: u16,
    pub frame_holds: Seq<u8>,
    pub pixeltiles: Seq<u8>,
    pub raw: Seq<u8>,
}

impl View for AnmzDataSegment {
    type V = AnmzView;

    open spec fn view(&self) -> AnmzView {
        AnmzView {
            frame_count: self.frame_count,
            unk1: self.unk1,
            unk2: self.unk2,
            vram_offset: self.vram_offset,
            frame_holds: self.frame_holds@,
            pixeltiles: self.pixeltiles@,
            raw: self._raw_decomp@,
        }
    }
}

/// The ANMZ segment read from a complete decompressed body.
pub open spec fn anmz_view_of(s: Seq<u8>) -> AnmzView {
    AnmzView {
        frame_count: s[0],
        unk1: s[1],
        unk2: le16(s, 2),
        vram_offset: le16(s, 4),
        frame_holds: s.subrange(anmz_frames_start(s), anmz_frames_start(s) + s[0]),
        pixeltiles: s.subrange(anmz_pixels_start(s), s.len() as int),
        raw: s,
    }
}

/// Where the frame hold times start: after the six header bytes and up to
/// two padding bytes, as far as the body reaches.
pub open spec fn anmz_frames_start(s: Seq<u8>) -> int {
    if s.len() >= 8 {
        8
    } else {
        s.len() as int
    }
}

/// Where the pixel data starts: after the hold times, aligned to four.
pub open spec fn anmz_pixels_start(s: Seq<u8>) -> int {
    let p = anmz_frames_start(s) + s[0];
    p + pad_len4(p as nat)
}

/// The body holds the header and all hold times.
pub open spec fn anmz_complete(s: Seq<u8>) -> bool {
    s.len() >= 6 && anmz_frames_start(s) + s[0] <= s.len()
}

/// Reading ends: the alignment padding after the hold times is present.
pub open spec fn anmz_read_ends(s: Seq<u8>) -> bool {
    anmz_complete(s) ==> anmz_pixels_start(s) <= s.len()
}

impl AnmzDataSegment {
    /// Reads a decompressed ANMZ body; `None` when the header or the hold
    /// times are cut short.
    pub fn from_decomp(an_decomp: &Vec<u8>) -> (r: Option<AnmzDataSegment>)
        requires
            anmz_read_ends(an_decomp@),
        ensures
            r is Some <==> anmz_complete(an_decomp@),
            r matches Some(a) ==> a@ == anmz_view_of(an_decomp@),
            r matches Some(a) ==> {
                &&& a.frame_count == an_decomp@[0]
                &&& a.unk1 == an_decomp@[1]
                &&& a.unk2 == le16(an_decomp@, 2)
                &&& a.vram_offset == le16(an_decomp@, 4)
                &&& a.frame_holds@ == an_decomp@.subrange(
                    anmz_frames_start(an_decomp@),
                    anmz_frames_start(an_decomp@) + an_decomp@[0],
                )
                &&& a.pixeltiles@ == an_decomp@.subrange(
                    anmz_pixels_start(an_decomp@),
                    an_decomp@.len() as int,
                )
                &&& a._raw_decomp@ == an_decomp@
            },
    {
        let decomp_len = an_decomp.len();
        if decomp_len < 6 {
            return None;
        }
        let frame_count = an_decomp[0];
        let unk1 = an_decomp[1];
        let unk2 = read_u16(an_decomp.as_slice(), 2);
        let vram_offset = read_u16(an_decomp.as_slice(), 4);
        let mut pos: usize = 6;
        if pos < decomp_len {
            pos += 1;
        }
        if pos < decomp_len {
            pos += 1;
        }
        assert(pos == anmz_frames_start(an_decomp@));
        if frame_count as usize > decomp_len - pos {
            return None;
        }
        let mut frame_holds: Vec<u8> = Vec::new();
        let mut frame_index: usize = 0;
        let fstart = pos;
        while frame_index < frame_count as usize
            invariant
                fstart + frame_count <= decomp_len,
                decomp_len == an_decomp@.len(),
                frame_index <= frame_count,
                pos == fstart + frame_index,
                frame_holds@ == an_decomp@.subrange(fstart as int, pos as int),
            decreases frame_count - frame_index,
        {
            frame_holds.push(an_decomp[pos]);
            pos += 1;
            frame_index += 1;
            assert(frame_holds@ =~= an_decomp@.subrange(fstart as int, pos as int));
        }
        let ghost hold_end = pos;
        while pos % 4 != 0
            invariant
                hold_end <= pos <= decomp_len,
                decomp_len == an_decomp@.len(),
                hold_end == anmz_frames_start(an_decomp@) + an_decomp@[0],
                pos - hold_end <= pad_len4(hold_end as nat),
                pos % 4 == 0 ==> pos - hold_end == pad_len4(hold_end as nat),
                anmz_pixels_start(an_decomp@) <= an_decomp@.len(),
            decreases pad_len4(hold_end as nat) - (pos - hold_end),
        {
            pos += 1;
        }
        let pstart = pos;
        let mut pixeltiles: Vec<u8> = Vec::new();
        while pos < decomp_len
            invariant
                pstart <= pos <= decomp_len,
                decomp_len == an_decomp@.len(),
                pixeltiles@ == an_decomp@.subrange(pstart as int, pos as int),
            decreases decomp_len - pos,
        {
            pixeltiles.push(an_decomp[pos]);
            pos += 1;
            assert(pixeltiles@ =~= an_decomp@.subrange(pstart as int, pos as int));
        }
        Some(AnmzDataSegment {
            frame_count,
            unk1,
            unk2,
            vram_offset,
            frame_holds,
            pixeltiles,
            _raw_decomp: an_decomp.clone(),
        })
    }
}

impl ScenSegment for AnmzDataSegment {
    open spec fn spec_header(&self) -> Seq<char> {
        "ANMZ"@
    }

    open spec fn spec_compile(&self, info: Option<&ScenInfoData>) -> Seq<u8> {
        self._raw_decomp@
    }

    open spec fn spec_wrap(&self, info: Option<&ScenInfoData>) -> Seq<u8> {
        wrapped_segment(lz10_compressed(self._raw_decomp@), encode_utf8("ANMZ"@))
    }

    open spec fn can_compile(&self) -> bool {
        true
    }

    /// The kept decompressed body.
    fn compile(&self, _info: Option<&ScenInfoData>) -> (r: Vec<u8>) {
        self._raw_decomp.clone()
    }

    fn wrap(&self, info: Option<&ScenInfoData>) -> (r: Vec<u8>) {
        let compiled = self.compile(info);
        let compressed = lamezip77_lz10_recomp(&compiled);
        segment_wrap(&compressed, self.header())
    }

    fn header(&self) -> (r: String) {
        String::from_str("ANMZ")
    }
}

} // verus!

verus! {

impl Default for AnmzDataSegment {
    fn default() -> (r: Self)
        ensures
            r.frame_count == 0,
            r.unk1 == 0,
            r.unk2 == 0,
            r.vram_offset == 0xffff,
            r.frame_holds@.len() == 0,
            r.pixeltiles@.len() == 0,
            r._raw_decomp@.len() == 0,
    {
        AnmzDataSegment {
            frame_count: 0,
            unk1: 0,
            unk2: 0,
            vram_offset: 0xffff,
            frame_holds: Vec::new(),
            pixeltiles: Vec::new(),
            _raw_decomp: Vec::new(),
        }
    }
}

} // verus!
