//! A background layer (SCEN segment): its sub-segments, reading, resizing
//! and compiling.
use vstd::prelude::*;
use vstd::string::*;
use vstd::utf8::encode_utf8;
use crate::bytes::{le16, le32, zeros, read_u32};
use crate::compression::{lamezip77_lz10_decomp, lz10_decompressed, lz10_recoverable, segment_wrap, wrapped_segment};
use crate::scen::anmz::{anmz_complete, anmz_read_ends, anmz_view_of, AnmzDataSegment, AnmzView};
use crate::scen::colz::CollisionData;
use crate::scen::info::{info_end, info_fixed_fits, info_read_ends, info_view_at, ScenInfoData};
use crate::scen::mpbz::{blank_tile, mpbz_bytes, mpbz_readable, mpbz_view_of, MapTileDataSegment, MpbzView};
use crate::scen::info::InfoView;
use crate::grid::{blanks, law_narrowed_entries, law_widened_entries, narrowed, resized, widened};
use crate::scen::pltb::PltbData;
use crate::scen::raw::{AnimatedPaletteData, ImbzData, ImgbData, RastData};
use crate::scen::scrl::{scrl_readable, ScrollData};
use crate::scen::{ScenSegment, ScenSegmentWrapper, ScenView};
use crate::types::{palette_view_at, Compilable, Palette, PaletteView};
use crate::segments::TopLevelSegment;
use crate::bytes::push_all;
use crate::text::{header_chars, header_to_string};

verus! {

/// Segment names as stored little-endian in the files.
pub const INFO_MAGIC: u32 = 0x4F464E49;
pub const COLZ_MAGIC: u32 = 0x5A4C4F43;
pub const PLTB_MAGIC: u32 = 0x42544C50;
pub const MPBZ_MAGIC: u32 = 0x5A42504D;
pub const IMGB_MAGIC: u32 = 0x42474D49;
pub const IMBZ_MAGIC: u32 = 0x5A424D49;
pub const ANMZ_MAGIC: u32 = 0x5A4D4E41;
pub const SCRL_MAGIC: u32 = 0x4C524353;
pub const PLAN_MAGIC: u32 = 0x4E414C50;
pub const RAST_MAGIC: u32 = 0x54534152;

#[derive(Debug, Clone, PartialEq, Eq)]
pub struct BackgroundData {
    /// Offset of the layer's palettes among the loaded ones.
    pub _pal_offset: u8,
    /// The tile graphics as loaded, for previews.
    pub pixel_tiles_preview: Option<Vec<u8>>,
    pub scen_segments: Vec<ScenSegmentWrapper>,
}

#[derive(Debug, Clone, PartialEq, Eq)]
pub enum BackgroundDataError {
    FailedToCreateINFO,
    /// The segment name, as text.
    UnknownSCENSegment(String),
    /// Segments kept versus segments read.
    MismatchInLoadedSegments(usize, usize),
}

/// A reading error, the unknown segment name taken as its characters.
pub ghost enum BackgroundErrorView {
    FailedToCreateINFO,
    UnknownSCENSegment(Seq<char>),
    MismatchInLoadedSegments(usize, usize),
}

impl View for BackgroundDataError {
    type V = BackgroundErrorView;

    open spec fn view(&self) -> BackgroundErrorView {
        match self {
            BackgroundDataError::FailedToCreateINFO => BackgroundErrorView::FailedToCreateINFO,
            BackgroundDataError::UnknownSCENSegment(s) => BackgroundErrorView::UnknownSCENSegment(s@),
            BackgroundDataError::MismatchInLoadedSegments(a, b) => BackgroundErrorView::MismatchInLoadedSegments(*a, *b),
        }
    }
}

/// An external tile-graphics file: its name without extension and its
/// (compressed) contents.
#[derive(Debug, Clone, PartialEq, Eq)]
pub struct ImbzFile {
    pub name: Vec<u8>,
    pub bytes: Vec<u8>,
}

/// The abstract value of a background.
pub ghost struct BackgroundView {
    pub pal_offset: u8,
    pub preview: Option<Seq<u8>>,
    pub segs: Seq<ScenView>,
}

pub open spec fn opt_view(o: Option<Vec<u8>>) -> Option<Seq<u8>> {
    match o {
        None => None,
        Some(v) => Some(v@),
    }
}

impl View for BackgroundData {
    type V = BackgroundView;

    open spec fn view(&self) -> BackgroundView {
        BackgroundView {
            pal_offset: self._pal_offset,
            preview: opt_view(self.pixel_tiles_preview),
            segs: self.scen_segments@.map_values(|x: ScenSegmentWrapper| x@),
        }
    }
}

/// The contents of the first file with the given name.
pub open spec fn imbz_lookup(files: Seq<ImbzFile>, name: Seq<u8>) -> Option<Seq<u8>>
    decreases files.len(),
{
    if files.len() == 0 {
        None
    } else if files[0].name@ == name {
        Some(files[0].bytes@)
    } else {
        imbz_lookup(files.skip(1), name)
    }
}

/// A block of `n` bytes at `p`; when the data is too short the block is
/// all zeros.
pub open spec fn block_at(s: Seq<u8>, p: int, n: int) -> Seq<u8> {
    if p + n <= s.len() {
        s.subrange(p, p + n)
    } else {
        zeros(n as nat)
    }
}

/// Where reading continues after a block: past it, or at the end of the
/// data when it was too short.
pub open spec fn block_next(s: Seq<u8>, p: int, n: int) -> int {
    if p + n <= s.len() {
        p + n
    } else {
        s.len() as int
    }
}

/// What has been read of a background so far: the sub-segments, the
/// preview graphics, the width and colour mode of the last INFO, and the
/// number of sub-segments met.
pub ghost struct ScenLoad {
    pub segs: Seq<ScenView>,
    pub preview: Option<Seq<u8>>,
    pub layer_width: u16,
    pub color_mode: u32,
    pub count: nat,
}

/// The outcome of one reading step.
pub ghost enum ScenStep {
    /// The input makes reading panic or never end.
    Stuck,
    Fail(BackgroundErrorView),
    Next(ScenLoad, int),
}

/// Reads the palettes of a PLTB body: in 16-colour mode as many 16-colour
/// palettes as the length holds, in 256-colour mode one palette.
pub open spec fn pltb_step(s: Seq<u8>, q: int, n: u32, st: ScenLoad) -> ScenStep {
    if st.color_mode % 2 == 0 {
        let count = n / 32;
        if q + 32 * count <= s.len() {
            ScenStep::Next(
                ScenLoad {
                    segs: st.segs.push(
                        ScenView::Pltb(Seq::new(count as nat, |i: int| palette_view_at(s, q + 32 * i, 16))),
                    ),
                    count: st.count + 1,
                    ..st
                },
                q + 32 * count,
            )
        } else {
            ScenStep::Stuck
        }
    } else {
        if q + 512 <= s.len() {
            ScenStep::Next(
                ScenLoad {
                    segs: st.segs.push(ScenView::Pltb(seq![palette_view_at(s, q, 256)])),
                    count: st.count + 1,
                    ..st
                },
                q + n,
            )
        } else {
            ScenStep::Stuck
        }
    }
}

/// Reads an INFO body. When it names external graphics, the graphics
/// become the preview and the INFO becomes current; when the file is
/// missing, the INFO is kept but does not become current.
pub open spec fn info_step(s: Seq<u8>, q: int, n: u32, st: ScenLoad, files: Seq<ImbzFile>) -> ScenStep {
    if !info_read_ends(s, q, n) {
        ScenStep::Stuck
    } else if !info_fixed_fits(s, q) {
        ScenStep::Fail(BackgroundErrorView::FailedToCreateINFO)
    } else {
        let iv = info_view_at(s, q, n);
        let base = ScenLoad { segs: st.segs.push(ScenView::Info(iv)), count: st.count + 1, ..st };
        let next = info_end(s, q, n);
        match iv.imbz_filename_noext {
            Some(name) => match imbz_lookup(files, name) {
                Some(bytes) => ScenStep::Next(
                    ScenLoad {
                        preview: Some(lz10_decompressed(bytes)),
                        layer_width: iv.layer_width,
                        color_mode: iv.color_mode,
                        ..base
                    },
                    next,
                ),
                None => ScenStep::Next(base, next),
            },
            None => ScenStep::Next(
                ScenLoad { layer_width: iv.layer_width, color_mode: iv.color_mode, ..base },
                next,
            ),
        }
    }
}

/// One step of reading: the sub-segment whose header is at `p`.
pub open spec fn scen_step(s: Seq<u8>, p: int, st: ScenLoad, files: Seq<ImbzFile>) -> ScenStep {
    if p + 8 > s.len() {
        ScenStep::Stuck
    } else {
        let hdr = le32(s, p);
        let n = le32(s, p + 4);
        let q = p + 8;
        let b = block_at(s, q, n as int);
        let bn = block_next(s, q, n as int);
        let counted = ScenLoad { count: st.count + 1, ..st };
        if hdr == INFO_MAGIC {
            info_step(s, q, n, st, files)
        } else if hdr == COLZ_MAGIC {
            ScenStep::Next(
                ScenLoad { segs: st.segs.push(ScenView::Colz(lz10_decompressed(b))), ..counted },
                bn,
            )
        } else if hdr == PLTB_MAGIC {
            pltb_step(s, q, n, st)
        } else if hdr == MPBZ_MAGIC {
            if mpbz_readable(lz10_decompressed(b), st.layer_width) {
                ScenStep::Next(
                    ScenLoad {
                        segs: st.segs.push(
                            ScenView::Mpbz(mpbz_view_of(lz10_decompressed(b), st.layer_width)),
                        ),
                        ..counted
                    },
                    bn,
                )
            } else {
                ScenStep::Stuck
            }
        } else if hdr == IMGB_MAGIC {
            ScenStep::Next(
                ScenLoad { segs: st.segs.push(ScenView::Imgb(b)), preview: Some(b), ..counted },
                bn,
            )
        } else if hdr == IMBZ_MAGIC {
            ScenStep::Next(
                ScenLoad {
                    segs: st.segs.push(ScenView::Imbz(lz10_decompressed(b))),
                    preview: Some(lz10_decompressed(b)),
                    ..counted
                },
                bn,
            )
        } else if hdr == ANMZ_MAGIC {
            let d = lz10_decompressed(b);
            if !anmz_read_ends(d) {
                ScenStep::Stuck
            } else if anmz_complete(d) {
                ScenStep::Next(
                    ScenLoad { segs: st.segs.push(ScenView::Anmz(anmz_view_of(d))), ..counted },
                    bn,
                )
            } else {
                ScenStep::Next(counted, bn)
            }
        } else if hdr == SCRL_MAGIC {
            if !scrl_readable(s, q) {
                ScenStep::Stuck
            } else if q + 4 <= s.len() {
                ScenStep::Next(
                    ScenLoad {
                        segs: st.segs.push(
                            ScenView::Scrl(
                                ScrollData {
                                    left_velocity: crate::bytes::le_i32(s, q),
                                    up_velocity: crate::bytes::le_i32(s, q + 4),
                                },
                            ),
                        ),
                        ..counted
                    },
                    q + 8,
                )
            } else {
                ScenStep::Next(
                    ScenLoad {
                        segs: st.segs.push(
                            ScenView::Scrl(ScrollData { left_velocity: 0, up_velocity: 0 }),
                        ),
                        ..counted
                    },
                    s.len() as int,
                )
            }
        } else if hdr == PLAN_MAGIC {
            ScenStep::Next(ScenLoad { segs: st.segs.push(ScenView::Plan(b)), ..counted }, bn)
        } else if hdr == RAST_MAGIC {
            ScenStep::Next(ScenLoad { segs: st.segs.push(ScenView::Rast(b)), ..counted }, bn)
        } else {
            ScenStep::Fail(BackgroundErrorView::UnknownSCENSegment(header_chars(hdr)))
        }
    }
}

/// Each step moves forward.
pub proof fn lemma_scen_step_advances(s: Seq<u8>, p: int, st: ScenLoad, files: Seq<ImbzFile>)
    requires
        0 <= p < s.len(),
    ensures
        scen_step(s, p, st, files) matches ScenStep::Next(_, q) ==> q > p,
{
    if p + 24 + 8 <= s.len() {
        crate::bytes::lemma_c_str_end_bounds(s, p + 8 + 24);
    }
}

/// Reading sub-segments from `p` until the end of the data.
pub open spec fn scen_loop(s: Seq<u8>, p: int, st: ScenLoad, files: Seq<ImbzFile>) -> Option<
    Result<ScenLoad, BackgroundErrorView>,
>
    decreases s.len() - p,
{
    if p >= s.len() || p < 0 {
        Some(Ok(st))
    } else {
        match scen_step(s, p, st, files) {
            ScenStep::Stuck => None,
            ScenStep::Fail(e) => Some(Err(e)),
            ScenStep::Next(st2, q) => if q >= s.len() {
                Some(Ok(st2))
            } else if q > p {
                scen_loop(s, q, st2, files)
            } else {
                None
            },
        }
    }
}

/// The state before reading: no segments, no preview, and the defaults of
/// an empty INFO (width 0, colour mode 0xFF).
pub open spec fn scen_start() -> ScenLoad {
    ScenLoad { segs: Seq::empty(), preview: None, layer_width: 0, color_mode: 0xff, count: 0 }
}

/// The first animation among the sub-segments.
pub open spec fn first_anmz(segs: Seq<ScenView>) -> Option<AnmzView>
    decreases segs.len(),
{
    if segs.len() == 0 {
        None
    } else {
        match segs[0] {
            ScenView::Anmz(a) => Some(a),
            _ => first_anmz(segs.skip(1)),
        }
    }
}

/// Graphics with animation pixels copied in at `off`, extended with zeros
/// where they reach past the end.
pub open spec fn overlay(pre: Seq<u8>, off: int, px: Seq<u8>) -> Seq<u8> {
    if px.len() == 0 {
        pre
    } else {
        let n = if pre.len() >= off + px.len() {
            pre.len() as int
        } else {
            off + px.len()
        };
        Seq::new(
            n as nat,
            |i: int|
                if off <= i < off + px.len() {
                    px[i - off]
                } else if i < pre.len() {
                    pre[i]
                } else {
                    0u8
                },
        )
    }
}

/// The background read from a SCEN body, with the first animation applied
/// to the preview; every sub-segment met must have been kept.
pub open spec fn scen_result(s: Seq<u8>, files: Seq<ImbzFile>) -> Option<
    Result<BackgroundView, BackgroundErrorView>,
> {
    match scen_loop(s, 0, scen_start(), files) {
        None => None,
        Some(Err(e)) => Some(Err(e)),
        Some(Ok(st)) => {
            let mult = if st.color_mode % 2 == 1 {
                64int
            } else {
                32int
            };
            let too_long = match (first_anmz(st.segs), st.preview) {
                (Some(a), Some(pre)) => a.vram_offset * mult + a.pixeltiles.len() > usize::MAX,
                _ => false,
            };
            let preview = match (first_anmz(st.segs), st.preview) {
                (Some(a), Some(pre)) => Some(
                    overlay(
                        pre,
                        a.vram_offset * (if st.color_mode % 2 == 1 {
                            64int
                        } else {
                            32int
                        }),
                        a.pixeltiles,
                    ),
                ),
                _ => st.preview,
            };
            if too_long {
                None
            } else if st.segs.len() != st.count {
                Some(Err(BackgroundErrorView::MismatchInLoadedSegments(st.segs.len() as usize, st.count as usize)))
            } else {
                Some(Ok(BackgroundView { pal_offset: 0, preview, segs: st.segs }))
            }
        },
    }
}

} // verus!

verus! {

/// The exec counterpart of `ScenLoad`.
struct ScenReader {
    segs: Vec<ScenSegmentWrapper>,
    preview: Option<Vec<u8>>,
    layer_width: u16,
    color_mode: u32,
    count: usize,
}

impl View for ScenReader {
    type V = ScenLoad;

    closed spec fn view(&self) -> ScenLoad {
        ScenLoad {
            segs: self.segs@.map_values(|x: ScenSegmentWrapper| x@),
            preview: opt_view(self.preview),
            layer_width: self.layer_width,
            color_mode: self.color_mode,
            count: self.count as nat,
        }
    }
}

/// How a reading step ended, with the position to continue from (capped
/// at the end of the data).
enum StepOut {
    Stuck,
    Fail(BackgroundDataError),
    Next(usize),
}

/// `StepOut` agrees with the step of the spec; positions past the end of the
/// data are reported as the end.
spec fn step_agrees(out: StepOut, step: ScenStep, st: ScenLoad, len: int) -> bool {
    match (out, step) {
        (StepOut::Stuck, ScenStep::Stuck) => true,
        (StepOut::Fail(e), ScenStep::Fail(e2)) => e@ == e2,
        (StepOut::Next(p), ScenStep::Next(st2, q)) => st == st2 && p == (if q <= len {
            q
        } else {
            len
        }),
        _ => false,
    }
}

proof fn lemma_push_view(segs: Seq<ScenSegmentWrapper>, x: ScenSegmentWrapper)
    ensures
        segs.push(x).map_values(|y: ScenSegmentWrapper| y@) == segs.map_values(
            |y: ScenSegmentWrapper| y@,
        ).push(x@),
{
    assert(segs.push(x).map_values(|y: ScenSegmentWrapper| y@) =~= segs.map_values(
        |y: ScenSegmentWrapper| y@,
    ).push(x@));
}

/// Reads a block of `n` bytes at `p` (zeros when the data is too short).
fn read_block(data: &[u8], p: usize, n: u32) -> (r: (Vec<u8>, usize))
    requires
        p <= data@.len(),
    ensures
        r.0@ == block_at(data@, p as int, n as int),
        r.1 == block_next(data@, p as int, n as int),
{
    let mut out: Vec<u8> = Vec::new();
    if (n as u64) <= (data.len() - p) as u64 {
        let end = p + n as usize;
        let mut i = p;
        while i < end
            invariant
                p <= i <= end <= data@.len(),
                out@ == data@.subrange(p as int, i as int),
            decreases end - i,
        {
            out.push(data[i]);
            i += 1;
            assert(out@ =~= data@.subrange(p as int, i as int));
        }
        (out, end)
    } else {
        let mut i: u32 = 0;
        while i < n
            invariant
                i <= n,
                out@ == zeros(i as nat),
            decreases n - i,
        {
            out.push(0);
            i += 1;
            assert(out@ =~= zeros(i as nat));
        }
        (out, data.len())
    }
}

/// Finds the contents of the first file with the given name.
fn lookup_imbz<'a>(files: &'a Vec<ImbzFile>, name: &Vec<u8>) -> (r: Option<&'a Vec<u8>>)
    ensures
        match (r, imbz_lookup(files@, name@)) {
            (None, None) => true,
            (Some(b), Some(v)) => b@ == v,
            _ => false,
        },
{
    let mut i: usize = 0;
    assert(files@.skip(0) =~= files@);
    while i < files.len()
        invariant
            i <= files@.len(),
            imbz_lookup(files@.skip(i as int), name@) == imbz_lookup(files@, name@),
        decreases files@.len() - i,
    {
        assert(files@.skip(i as int).skip(1) =~= files@.skip(i + 1));
        if crate::bytes::bytes_eq(files[i].name.as_slice(), name.as_slice()) {
            return Some(&files[i].bytes);
        }
        i += 1;
    }
    None
}

/// Decides `mpbz_readable`.
fn mpbz_readable_check(d: &Vec<u8>, layer_width: u16) -> (r: bool)
    ensures
        r == mpbz_readable(d@, layer_width),
{
    if d.len() < 2 || d.len() > u32::MAX as usize {
        return false;
    }
    let first = crate::bytes::read_u16(d.as_slice(), 0);
    if first == 0xffff {
        if d.len() < 6 {
            return false;
        }
        let off = crate::bytes::read_u16(d.as_slice(), 2);
        let a = layer_width as u64;
        let b = off as u64;
        assert(a * b <= 0xffff * 0xffff) by (nonlinear_arith)
            requires
                a <= 0xffff,
                b <= 0xffff,
        ;
        a * b <= 0xffff
    } else {
        true
    }
}

/// Decides `anmz_read_ends`.
fn anmz_read_ends_check(d: &Vec<u8>) -> (r: bool)
    ensures
        r == anmz_read_ends(d@),
{
    let n = d.len();
    if n < 6 {
        return true;
    }
    let fs: usize = if n >= 8 {
        8
    } else {
        n
    };
    let fc = d[0] as usize;
    if fc > n - fs {
        return true;
    }
    let p = fs + fc;
    let pad = (4 - p % 4) % 4;
    pad <= n - p
}

impl ScenReader {
    fn capped(q: usize, len: usize) -> (r: usize)
        ensures
            r == (if q <= len {
                q
            } else {
                len
            }),
    {
        if q <= len {
            q
        } else {
            len
        }
    }

    fn push_seg(&mut self, x: ScenSegmentWrapper)
        ensures
            final(self).segs@ == old(self).segs@.push(x),
            final(self)@ == (ScenLoad { segs: old(self)@.segs.push(x@), ..old(self)@ }),
    {
        proof {
            lemma_push_view(self.segs@, x);
        }
        self.segs.push(x);
    }

    fn step_info(&mut self, data: &[u8], q: usize, n: u32, files: &Vec<ImbzFile>) -> (r: StepOut)
        requires
            q <= data@.len(),
            old(self).count < q,
        ensures
            step_agrees(r, info_step(data@, q as int, n, old(self)@, files@), final(self)@, data@.len() as int),
            final(self).count <= old(self).count + 1,
    {
        if !crate::scen::info::info_read_ends_check(data, q, n) {
            return StepOut::Stuck;
        }
        match ScenInfoData::new(data, q, n) {
            None => StepOut::Fail(BackgroundDataError::FailedToCreateINFO),
            Some((info, next)) => {
                let lw = info.layer_width;
                let cm = info.color_mode;
                let name_opt = info.imbz_filename_noext.clone();
                self.push_seg(ScenSegmentWrapper::INFO(info));
                self.count = self.count + 1;
                match name_opt {
                    Some(name) => {
                        match lookup_imbz(files, &name) {
                            Some(bytes) => {
                                self.preview = Some(lamezip77_lz10_decomp(bytes.as_slice()));
                                self.layer_width = lw;
                                self.color_mode = cm;
                            },
                            None => {},
                        }
                    },
                    None => {
                        self.layer_width = lw;
                        self.color_mode = cm;
                    },
                }
                StepOut::Next(Self::capped(next, data.len()))
            },
        }
    }

    fn step_pltb(&mut self, data: &[u8], q: usize, n: u32) -> (r: StepOut)
        requires
            q <= data@.len(),
            old(self).count < q,
        ensures
            step_agrees(r, pltb_step(data@, q as int, n, old(self)@), final(self)@, data@.len() as int),
            final(self).count <= old(self).count + 1,
    {
        if self.color_mode % 2 == 0 {
            let count = (n / 32) as usize;
            if count > (data.len() - q) / 32 {
                return StepOut::Stuck;
            }
            let mut pals: Vec<Palette> = Vec::new();
            let mut i: usize = 0;
            let mut cur = q;
            while i < count
                invariant
                    i <= count,
                    count == n / 32,
                    q + 32 * count <= data@.len(),
                    cur == q + 32 * i,
                    pals@.map_values(|p: Palette| p@) == Seq::new(i as nat, |j: int| palette_view_at(data@, q + 32 * j, 16)),
                decreases count - i,
            {
                let (pal, next) = Palette::from_cursor(data, cur, 16);
                let ghost before = pals@;
                pals.push(pal);
                assert(pals@.map_values(|p: Palette| p@) =~= before.map_values(|p: Palette| p@).push(pal@));
                assert(pals@.map_values(|p: Palette| p@) =~= Seq::new((i + 1) as nat, |j: int| palette_view_at(data@, q + 32 * j, 16)));
                cur = next;
                i += 1;
            }
            self.push_seg(ScenSegmentWrapper::PLTB(PltbData::from_pal_vec(pals)));
            self.count = self.count + 1;
            StepOut::Next(cur)
        } else {
            if data.len() - q < 512 {
                return StepOut::Stuck;
            }
            let (pal, _next) = Palette::from_cursor(data, q, 256);
            let mut pals: Vec<Palette> = Vec::new();
            pals.push(pal);
            assert(pals@.map_values(|p: Palette| p@) =~= seq![palette_view_at(data@, q as int, 256)]);
            self.push_seg(ScenSegmentWrapper::PLTB(PltbData::from_pal_vec(pals)));
            self.count = self.count + 1;
            let next: usize = if (n as u64) <= (data.len() - q) as u64 {
                q + n as usize
            } else {
                data.len()
            };
            StepOut::Next(next)
        }
    }

    fn step(&mut self, data: &[u8], pos: usize, files: &Vec<ImbzFile>) -> (r: StepOut)
        requires
            pos < data@.len(),
            old(self).count <= pos,
        ensures
            step_agrees(r, scen_step(data@, pos as int, old(self)@, files@), final(self)@, data@.len() as int),
            r matches StepOut::Next(p) ==> final(self).count <= p,
    {
        proof {
            lemma_scen_step_advances(data@, pos as int, self@, files@);
        }
        if data.len() - pos < 8 {
            return StepOut::Stuck;
        }
        let hdr = read_u32(data, pos);
        let n = read_u32(data, pos + 4);
        let q = pos + 8;
        if hdr == INFO_MAGIC {
            self.step_info(data, q, n, files)
        } else if hdr == COLZ_MAGIC {
            let (b, next) = read_block(data, q, n);
            self.push_seg(ScenSegmentWrapper::COLZ(CollisionData::new(b.as_slice())));
            self.count = self.count + 1;
            StepOut::Next(next)
        } else if hdr == PLTB_MAGIC {
            self.step_pltb(data, q, n)
        } else if hdr == MPBZ_MAGIC {
            let (b, next) = read_block(data, q, n);
            let d = lamezip77_lz10_decomp(b.as_slice());
            if !mpbz_readable_check(&d, self.layer_width) {
                return StepOut::Stuck;
            }
            let mpbz = MapTileDataSegment::from_decomped_vec(&d, self.layer_width);
            self.push_seg(ScenSegmentWrapper::MPBZ(mpbz));
            self.count = self.count + 1;
            StepOut::Next(next)
        } else if hdr == IMGB_MAGIC {
            let (b, next) = read_block(data, q, n);
            self.push_seg(ScenSegmentWrapper::IMGB(ImgbData::new(b.clone())));
            self.preview = Some(b);
            self.count = self.count + 1;
            StepOut::Next(next)
        } else if hdr == IMBZ_MAGIC {
            let (b, next) = read_block(data, q, n);
            let imbz = ImbzData::new(b.as_slice());
            let pixels = imbz.pixel_tiles.clone();
            self.push_seg(ScenSegmentWrapper::IMBZ(imbz));
            self.preview = Some(pixels);
            self.count = self.count + 1;
            StepOut::Next(next)
        } else if hdr == ANMZ_MAGIC {
            let (b, next) = read_block(data, q, n);
            let d = lamezip77_lz10_decomp(b.as_slice());
            if !anmz_read_ends_check(&d) {
                return StepOut::Stuck;
            }
            match AnmzDataSegment::from_decomp(&d) {
                Some(a) => {
                    self.push_seg(ScenSegmentWrapper::ANMZ(a));
                },
                None => {},
            }
            self.count = self.count + 1;
            StepOut::Next(next)
        } else if hdr == SCRL_MAGIC {
            if data.len() - q >= 4 && data.len() - q < 8 {
                return StepOut::Stuck;
            }
            let (scrl, next) = ScrollData::new(data, q);
            self.push_seg(ScenSegmentWrapper::SCRL(scrl));
            self.count = self.count + 1;
            StepOut::Next(next)
        } else if hdr == PLAN_MAGIC {
            let (b, next) = read_block(data, q, n);
            self.push_seg(ScenSegmentWrapper::PLAN(AnimatedPaletteData::new(&b)));
            self.count = self.count + 1;
            StepOut::Next(next)
        } else if hdr == RAST_MAGIC {
            let (b, next) = read_block(data, q, n);
            self.push_seg(ScenSegmentWrapper::RAST(RastData::new(&b)));
            self.count = self.count + 1;
            StepOut::Next(next)
        } else {
            StepOut::Fail(BackgroundDataError::UnknownSCENSegment(header_to_string(hdr)))
        }
    }
}

} // verus!

verus! {

/// An exec result agrees with the spec outcome.
pub open spec fn bg_outcome_agrees(
    r: Option<Result<BackgroundData, BackgroundDataError>>,
    v: Option<Result<BackgroundView, BackgroundErrorView>>,
) -> bool {
    match (r, v) {
        (None, None) => true,
        (Some(Err(e)), Some(Err(e2))) => e@ == e2,
        (Some(Ok(b)), Some(Ok(bv))) => b@ == bv,
        _ => false,
    }
}

/// The graphics `pre` with `px` copied in from `off` on, extended with
/// zeros where needed.
fn apply_overlay(pre: &Vec<u8>, off: usize, px: &Vec<u8>) -> (r: Vec<u8>)
    requires
        off + px@.len() <= usize::MAX,
    ensures
        r@ == overlay(pre@, off as int, px@),
{
    if px.len() == 0 {
        return pre.clone();
    }
    let end = off + px.len();
    let n = if pre.len() >= end {
        pre.len()
    } else {
        end
    };
    let mut out: Vec<u8> = Vec::new();
    let mut i: usize = 0;
    while i < n
        invariant
            i <= n,
            end == off + px@.len(),
            n == (if pre@.len() >= end {
                pre@.len() as int
            } else {
                end as int
            }),
            out@.len() == i,
            forall|k: int|
                0 <= k < i ==> out@[k] == (if off <= k < end {
                    px@[k - off]
                } else if k < pre@.len() {
                    pre@[k]
                } else {
                    0u8
                }),
        decreases n - i,
    {
        let b: u8 = if off <= i && i < end {
            px[i - off]
        } else if i < pre.len() {
            pre[i]
        } else {
            0
        };
        out.push(b);
        i += 1;
    }
    assert(out@ =~= overlay(pre@, off as int, px@));
    out
}

impl BackgroundData {
    fn parse(vec: &[u8], imbz_files: &Vec<ImbzFile>) -> (r: Option<Result<BackgroundData, BackgroundDataError>>)
        ensures
            bg_outcome_agrees(r, scen_result(vec@, imbz_files@)),
    {
        let mut rd = ScenReader {
            segs: Vec::new(),
            preview: None,
            layer_width: 0,
            color_mode: 0xff,
            count: 0,
        };
        assert(rd.segs@.map_values(|x: ScenSegmentWrapper| x@) =~= Seq::<ScenView>::empty());
        assert(rd@ == scen_start());
        let mut pos: usize = 0;
        while pos < vec.len()
            invariant
                pos <= vec@.len(),
                rd.count <= pos,
                scen_loop(vec@, pos as int, rd@, imbz_files@) == scen_loop(vec@, 0, scen_start(), imbz_files@),
            decreases vec@.len() - pos,
        {
            proof {
                lemma_scen_step_advances(vec@, pos as int, rd@, imbz_files@);
            }
            match rd.step(vec, pos, imbz_files) {
                StepOut::Stuck => {
                    return None;
                },
                StepOut::Fail(e) => {
                    return Some(Err(e));
                },
                StepOut::Next(p) => {
                    pos = p;
                },
            }
        }
        let ghost st = rd@;
        assert(scen_loop(vec@, 0, scen_start(), imbz_files@) == Some(Ok::<ScenLoad, BackgroundErrorView>(st)));
        let mut first: Option<usize> = None;
        let mut i: usize = 0;
        assert(st.segs.skip(0) =~= st.segs);
        while i < rd.segs.len()
            invariant
                i <= rd.segs@.len(),
                st == rd@,
                first is None ==> first_anmz(st.segs.skip(i as int)) == first_anmz(st.segs),
                first matches Some(k) ==> k < rd.segs@.len() && rd.segs@[k as int] is ANMZ
                    && first_anmz(st.segs) == Some(rd.segs@[k as int]->ANMZ_0@),
            decreases rd.segs@.len() - i,
        {
            assert(st.segs.skip(i as int).skip(1) =~= st.segs.skip(i + 1));
            assert(st.segs.skip(i as int)[0] == rd.segs@[i as int]@);
            if first.is_none() {
                if let ScenSegmentWrapper::ANMZ(_) = &rd.segs[i] {
                    first = Some(i);
                }
            }
            i += 1;
        }
        if first.is_none() {
            assert(st.segs.skip(i as int) =~= Seq::<ScenView>::empty());
        }
        let mult: usize = if rd.color_mode % 2 == 1 {
            64
        } else {
            32
        };
        let segs = rd.segs;
        let count = rd.count;
        let preview: Option<Vec<u8>> = match (first, rd.preview) {
            (Some(k), Some(pre)) => {
                match &segs[k] {
                    ScenSegmentWrapper::ANMZ(a) => {
                        let off = (a.vram_offset as usize) * mult;
                        if a.pixeltiles.len() > usize::MAX - off {
                            return None;
                        }
                        Some(apply_overlay(&pre, off, &a.pixeltiles))
                    },
                    _ => {
                        return None;
                    },
                }
            },
            (_, p) => p,
        };
        if segs.len() != count {
            return Some(Err(BackgroundDataError::MismatchInLoadedSegments(segs.len(), count)));
        }
        Some(Ok(BackgroundData { _pal_offset: 0, pixel_tiles_preview: preview, scen_segments: segs }))
    }

    /// Reads a SCEN body. `imbz_files` holds the external tile-graphics
    /// files that INFO segments may name; a name without a file there
    /// counts as a file that could not be read.
    pub fn new(vec: &[u8], imbz_files: &Vec<ImbzFile>) -> (r: Result<BackgroundData, BackgroundDataError>)
        requires
            scen_result(vec@, imbz_files@) is Some,
        ensures
            bg_outcome_agrees(Some(r), scen_result(vec@, imbz_files@)),
    {
        match Self::parse(vec, imbz_files) {
            Some(r) => r,
            None => {
                assert(false);
                Err(BackgroundDataError::FailedToCreateINFO)
            },
        }
    }

    /// Reads a SCEN body, or gives `None` for bodies that `new` does not
    /// accept.
    pub fn load(vec: &[u8], imbz_files: &Vec<ImbzFile>) -> (r: Option<Result<BackgroundData, BackgroundDataError>>)
        ensures
            bg_outcome_agrees(r, scen_result(vec@, imbz_files@)),
    {
        if Self::parse(vec, imbz_files).is_none() {
            None
        } else {
            Some(Self::new(vec, imbz_files))
        }
    }
}

} // verus!

verus! {

/// The kinds of background sub-segments.
#[derive(Debug, Clone, Copy, PartialEq, Eq, Structural)]
pub enum SegKind {
    Info,
    Colz,
    Pltb,
    Scrl,
    Mpbz,
    Anmz,
    Imgb,
    Imbz,
    Plan,
    Rast,
}

pub open spec fn view_kind(v: ScenView) -> SegKind {
    match v {
        ScenView::Info(_) => SegKind::Info,
        ScenView::Colz(_) => SegKind::Colz,
        ScenView::Pltb(_) => SegKind::Pltb,
        ScenView::Scrl(_) => SegKind::Scrl,
        ScenView::Mpbz(_) => SegKind::Mpbz,
        ScenView::Anmz(_) => SegKind::Anmz,
        ScenView::Imgb(_) => SegKind::Imgb,
        ScenView::Imbz(_) => SegKind::Imbz,
        ScenView::Plan(_) => SegKind::Plan,
        ScenView::Rast(_) => SegKind::Rast,
    }
}

/// `i` is the position of the first sub-segment of kind `k`.
pub open spec fn is_first(segs: Seq<ScenView>, k: SegKind, i: int) -> bool {
    &&& 0 <= i < segs.len()
    &&& view_kind(segs[i]) == k
    &&& forall|j: int| 0 <= j < i ==> view_kind(#[trigger] segs[j]) != k
}

/// The position of the first sub-segment of kind `k`, if there is one.
pub open spec fn first_of(segs: Seq<ScenView>, k: SegKind) -> Option<int> {
    if exists|i: int| is_first(segs, k, i) {
        Some(choose|i: int| is_first(segs, k, i))
    } else {
        None
    }
}

pub proof fn lemma_first_unique(segs: Seq<ScenView>, k: SegKind, i: int)
    requires
        is_first(segs, k, i),
    ensures
        first_of(segs, k) == Some(i),
{
    let c = choose|j: int| is_first(segs, k, j);
    assert(is_first(segs, k, c));
    if c < i {
        assert(view_kind(segs[c]) != k);
    } else if c > i {
        assert(view_kind(segs[i]) != k);
    }
}

pub proof fn lemma_first_none(segs: Seq<ScenView>, k: SegKind)
    requires
        forall|j: int| 0 <= j < segs.len() ==> view_kind(#[trigger] segs[j]) != k,
    ensures
        first_of(segs, k) is None,
{
}

fn kind_of(w: &ScenSegmentWrapper) -> (r: SegKind)
    ensures
        r == view_kind(w@),
{
    match w {
        ScenSegmentWrapper::INFO(_) => SegKind::Info,
        ScenSegmentWrapper::COLZ(_) => SegKind::Colz,
        ScenSegmentWrapper::PLTB(_) => SegKind::Pltb,
        ScenSegmentWrapper::SCRL(_) => SegKind::Scrl,
        ScenSegmentWrapper::MPBZ(_) => SegKind::Mpbz,
        ScenSegmentWrapper::ANMZ(_) => SegKind::Anmz,
        ScenSegmentWrapper::IMGB(_) => SegKind::Imgb,
        ScenSegmentWrapper::IMBZ(_) => SegKind::Imbz,
        ScenSegmentWrapper::PLAN(_) => SegKind::Plan,
        ScenSegmentWrapper::RAST(_) => SegKind::Rast,
    }
}

/// The position of the first sub-segment of kind `k`.
fn find_first(segs: &Vec<ScenSegmentWrapper>, k: SegKind) -> (r: Option<usize>)
    ensures
        match r {
            Some(i) => first_of(segs@.map_values(|x: ScenSegmentWrapper| x@), k) == Some(i as int),
            None => first_of(segs@.map_values(|x: ScenSegmentWrapper| x@), k) is None,
        },
{
    let ghost vs = segs@.map_values(|x: ScenSegmentWrapper| x@);
    let mut i: usize = 0;
    while i < segs.len()
        invariant
            i <= segs@.len(),
            vs == segs@.map_values(|x: ScenSegmentWrapper| x@),
            forall|j: int| 0 <= j < i ==> view_kind(#[trigger] vs[j]) != k,
        decreases segs@.len() - i,
    {
        if kind_of(&segs[i]) == k {
            proof {
                lemma_first_unique(vs, k, i as int);
            }
            return Some(i);
        }
        i += 1;
    }
    proof {
        lemma_first_none(vs, k);
    }
    None
}

impl BackgroundData {
    /// The first map (MPBZ) sub-segment.
    pub fn get_mpbz(&self) -> (r: Option<&MapTileDataSegment>)
        ensures
            match r {
                Some(m) => first_of(self@.segs, SegKind::Mpbz) matches Some(i) && self@.segs[i] == ScenView::Mpbz(m@),
                None => first_of(self@.segs, SegKind::Mpbz) is None,
            },
    {
        match find_first(&self.scen_segments, SegKind::Mpbz) {
            Some(i) => match &self.scen_segments[i] {
                ScenSegmentWrapper::MPBZ(m) => Some(m),
                _ => None,
            },
            None => None,
        }
    }

    /// The first map (MPBZ) sub-segment, to change.
    pub fn get_mpbz_mut(&mut self) -> (r: Option<&mut MapTileDataSegment>)
        ensures
            r is Some <==> first_of(old(self)@.segs, SegKind::Mpbz) is Some,
            r matches Some(m) ==> {
                let i = first_of(old(self)@.segs, SegKind::Mpbz)->0;
                &&& old(self).scen_segments@[i] == ScenSegmentWrapper::MPBZ(*m)
                &&& final(self).scen_segments@ == old(self).scen_segments@.update(i, ScenSegmentWrapper::MPBZ(*final(m)))
                &&& final(self)._pal_offset == old(self)._pal_offset
                &&& final(self).pixel_tiles_preview == old(self).pixel_tiles_preview
            },
            r is None ==> *final(self) == *old(self),
    {
        match find_first(&self.scen_segments, SegKind::Mpbz) {
            Some(i) => match &mut self.scen_segments[i] {
                ScenSegmentWrapper::MPBZ(m) => Some(m),
                _ => None,
            },
            None => None,
        }
    }

    /// The first collision (COLZ) sub-segment.
    pub fn get_colz(&self) -> (r: Option<&CollisionData>)
        ensures
            match r {
                Some(m) => first_of(self@.segs, SegKind::Colz) matches Some(i) && self@.segs[i] == ScenView::Colz(m.col_tiles@),
                None => first_of(self@.segs, SegKind::Colz) is None,
            },
    {
        match find_first(&self.scen_segments, SegKind::Colz) {
            Some(i) => match &self.scen_segments[i] {
                ScenSegmentWrapper::COLZ(m) => Some(m),
                _ => None,
            },
            None => None,
        }
    }

    /// The first collision (COLZ) sub-segment, to change.
    pub fn get_colz_mut(&mut self) -> (r: Option<&mut CollisionData>)
        ensures
            r is Some <==> first_of(old(self)@.segs, SegKind::Colz) is Some,
            r matches Some(m) ==> {
                let i = first_of(old(self)@.segs, SegKind::Colz)->0;
                &&& old(self).scen_segments@[i] == ScenSegmentWrapper::COLZ(*m)
                &&& final(self).scen_segments@ == old(self).scen_segments@.update(i, ScenSegmentWrapper::COLZ(*final(m)))
                &&& final(self)._pal_offset == old(self)._pal_offset
                &&& final(self).pixel_tiles_preview == old(self).pixel_tiles_preview
            },
            r is None ==> *final(self) == *old(self),
    {
        match find_first(&self.scen_segments, SegKind::Colz) {
            Some(i) => match &mut self.scen_segments[i] {
                ScenSegmentWrapper::COLZ(m) => Some(m),
                _ => None,
            },
            None => None,
        }
    }

    /// The first palette (PLTB) sub-segment.
    pub fn get_pltb(&self) -> (r: Option<&PltbData>)
        ensures
            match r {
                Some(m) => first_of(self@.segs, SegKind::Pltb) matches Some(i) && self@.segs[i] == ScenView::Pltb(m.palettes@.map_values(|p: crate::types::Palette| p@)),
                None => first_of(self@.segs, SegKind::Pltb) is None,
            },
    {
        match find_first(&self.scen_segments, SegKind::Pltb) {
            Some(i) => match &self.scen_segments[i] {
                ScenSegmentWrapper::PLTB(m) => Some(m),
                _ => None,
            },
            None => None,
        }
    }

    /// The first palette (PLTB) sub-segment, to change.
    pub fn get_pltb_mut(&mut self) -> (r: Option<&mut PltbData>)
        ensures
            r is Some <==> first_of(old(self)@.segs, SegKind::Pltb) is Some,
            r matches Some(m) ==> {
                let i = first_of(old(self)@.segs, SegKind::Pltb)->0;
                &&& old(self).scen_segments@[i] == ScenSegmentWrapper::PLTB(*m)
                &&& final(self).scen_segments@ == old(self).scen_segments@.update(i, ScenSegmentWrapper::PLTB(*final(m)))
                &&& final(self)._pal_offset == old(self)._pal_offset
                &&& final(self).pixel_tiles_preview == old(self).pixel_tiles_preview
            },
            r is None ==> *final(self) == *old(self),
    {
        match find_first(&self.scen_segments, SegKind::Pltb) {
            Some(i) => match &mut self.scen_segments[i] {
                ScenSegmentWrapper::PLTB(m) => Some(m),
                _ => None,
            },
            None => None,
        }
    }

    /// The first INFO sub-segment.
    pub fn get_info(&self) -> (r: Option<&ScenInfoData>)
        ensures
            match r {
                Some(m) => first_of(self@.segs, SegKind::Info) matches Some(i) && self@.segs[i] == ScenView::Info(m@),
                None => first_of(self@.segs, SegKind::Info) is None,
            },
    {
        match find_first(&self.scen_segments, SegKind::Info) {
            Some(i) => match &self.scen_segments[i] {
                ScenSegmentWrapper::INFO(m) => Some(m),
                _ => None,
            },
            None => None,
        }
    }

    /// The first INFO sub-segment, to change.
    pub fn get_info_mut(&mut self) -> (r: Option<&mut ScenInfoData>)
        ensures
            r is Some <==> first_of(old(self)@.segs, SegKind::Info) is Some,
            r matches Some(m) ==> {
                let i = first_of(old(self)@.segs, SegKind::Info)->0;
                &&& old(self).scen_segments@[i] == ScenSegmentWrapper::INFO(*m)
                &&& final(self).scen_segments@ == old(self).scen_segments@.update(i, ScenSegmentWrapper::INFO(*final(m)))
                &&& final(self)._pal_offset == old(self)._pal_offset
                &&& final(self).pixel_tiles_preview == old(self).pixel_tiles_preview
            },
            r is None ==> *final(self) == *old(self),
    {
        match find_first(&self.scen_segments, SegKind::Info) {
            Some(i) => match &mut self.scen_segments[i] {
                ScenSegmentWrapper::INFO(m) => Some(m),
                _ => None,
            },
            None => None,
        }
    }

    /// The first animation (ANMZ) sub-segment.
    pub fn get_anmz(&self) -> (r: Option<&AnmzDataSegment>)
        ensures
            match r {
                Some(m) => first_of(self@.segs, SegKind::Anmz) matches Some(i) && self@.segs[i] == ScenView::Anmz(m@),
                None => first_of(self@.segs, SegKind::Anmz) is None,
            },
    {
        match find_first(&self.scen_segments, SegKind::Anmz) {
            Some(i) => match &self.scen_segments[i] {
                ScenSegmentWrapper::ANMZ(m) => Some(m),
                _ => None,
            },
            None => None,
        }
    }
}

} // verus!

verus! {

/// The sub-segments with `f` applied to the first one of kind `k`.
pub open spec fn update_first(segs: Seq<ScenView>, k: SegKind, f: spec_fn(ScenView) -> ScenView) -> Seq<ScenView> {
    match first_of(segs, k) {
        Some(i) => segs.update(i, f(segs[i])),
        None => segs,
    }
}

/// The width of the layer: that of its first INFO.
pub open spec fn layer_width_of(segs: Seq<ScenView>) -> u16 {
    segs[first_of(segs, SegKind::Info)->0]->Info_0.layer_width
}

pub open spec fn widen_map(v: ScenView, ow: u16, inc: nat) -> ScenView {
    match v {
        ScenView::Mpbz(m) => ScenView::Mpbz(MpbzView { tiles: widened(m.tiles, ow as nat, inc, blank_tile()), ..m }),
        _ => v,
    }
}

pub open spec fn widen_colz(v: ScenView, ow: u16, inc: nat) -> ScenView {
    match v {
        ScenView::Colz(c) => ScenView::Colz(
            if inc % 2 == 0 && ow % 2 == 0 {
                widened(c, (ow / 2) as nat, inc / 2, 0u8)
            } else {
                c
            },
        ),
        _ => v,
    }
}

pub open spec fn narrow_map(v: ScenView, ow: u16, dec: nat) -> ScenView {
    match v {
        ScenView::Mpbz(m) => ScenView::Mpbz(MpbzView { tiles: narrowed(m.tiles, ow as nat, dec), ..m }),
        _ => v,
    }
}

pub open spec fn narrow_colz(v: ScenView, ow: u16, dec: nat) -> ScenView {
    match v {
        ScenView::Colz(c) => ScenView::Colz(
            if dec % 2 == 0 && ow % 2 == 0 && dec > 0 {
                narrowed(c, (ow / 2) as nat, dec / 2)
            } else {
                c
            },
        ),
        _ => v,
    }
}

pub open spec fn reheight_map(v: ScenView, h: u16, w: u16) -> ScenView {
    match v {
        ScenView::Mpbz(m) => ScenView::Mpbz(MpbzView { tiles: resized(m.tiles, (h * w) as nat, blank_tile()), ..m }),
        _ => v,
    }
}

pub open spec fn reheight_colz(v: ScenView, h: u16, w: u16) -> ScenView {
    match v {
        ScenView::Colz(c) => ScenView::Colz(resized(c, ((h / 2) * (w / 2)) as nat, 0u8)),
        _ => v,
    }
}

pub open spec fn set_width(v: ScenView, w: u16) -> ScenView {
    match v {
        ScenView::Info(iv) => ScenView::Info(InfoView { layer_width: w, ..iv }),
        _ => v,
    }
}

pub open spec fn set_height(v: ScenView, h: u16) -> ScenView {
    match v {
        ScenView::Info(iv) => ScenView::Info(InfoView { layer_height: h, ..iv }),
        _ => v,
    }
}

/// What widening by `inc` asks of the map and collision sub-segments:
/// a non-zero width to divide by, and a result whose size fits.
pub open spec fn widen_fits(segs: Seq<ScenView>, ow: u16, inc: nat) -> bool {
    &&& first_of(segs, SegKind::Mpbz) matches Some(i) ==> {
        let n = segs[i]->Mpbz_0.tiles.len();
        ow > 0 && n + inc * (n / ow as nat) <= usize::MAX
    }
    &&& first_of(segs, SegKind::Colz) matches Some(i) ==> {
        let n = segs[i]->Colz_0.len();
        inc % 2 == 0 && ow % 2 == 0 ==> ow >= 2 && n + (inc / 2) * (n / (ow / 2) as nat) <= usize::MAX
    }
}

/// Replacing a sub-segment by one of the same kind keeps every first
/// position.
pub proof fn lemma_first_after_update(segs: Seq<ScenView>, i: int, v: ScenView, k: SegKind)
    requires
        0 <= i < segs.len(),
        view_kind(v) == view_kind(segs[i]),
    ensures
        first_of(segs.update(i, v), k) == first_of(segs, k),
{
    let t = segs.update(i, v);
    assert forall|j: int| 0 <= j < segs.len() implies view_kind(#[trigger] t[j]) == view_kind(segs[j]) by {}
    if exists|j: int| is_first(segs, k, j) {
        let j = choose|j: int| is_first(segs, k, j);
        lemma_first_unique(segs, k, j);
        assert forall|m: int| 0 <= m < j implies view_kind(#[trigger] t[m]) != k by {
            assert(view_kind(t[m]) == view_kind(segs[m]));
        }
        assert(is_first(t, k, j));
        lemma_first_unique(t, k, j);
    } else {
        if exists|j: int| is_first(t, k, j) {
            let j = choose|j: int| is_first(t, k, j);
            assert forall|m: int| 0 <= m < j implies view_kind(#[trigger] segs[m]) != k by {
                assert(view_kind(t[m]) == view_kind(segs[m]));
            }
            assert(view_kind(t[j]) == view_kind(segs[j]));
            assert(is_first(segs, k, j));
        }
    }
}

pub proof fn lemma_view_update(ws: Seq<ScenSegmentWrapper>, i: int, w: ScenSegmentWrapper)
    requires
        0 <= i < ws.len(),
    ensures
        ws.update(i, w).map_values(|x: ScenSegmentWrapper| x@) == ws.map_values(|x: ScenSegmentWrapper| x@).update(i, w@),
{
    assert(ws.update(i, w).map_values(|x: ScenSegmentWrapper| x@) =~= ws.map_values(|x: ScenSegmentWrapper| x@).update(i, w@));
}

impl BackgroundData {
    /// Widens the layer to `new_width` tiles: the map gets blank tiles and
    /// the collision empty blocks at the end of each row, and INFO the new
    /// width. Odd widths and widths not larger than the current one are
    /// refused with `None`.
    pub fn increase_width(&mut self, new_width: u16) -> (r: Option<u16>)
        requires
            new_width % 2 == 0 ==> first_of(old(self)@.segs, SegKind::Info) is Some,
            new_width % 2 == 0 && new_width > layer_width_of(old(self)@.segs) ==> widen_fits(
                old(self)@.segs,
                layer_width_of(old(self)@.segs),
                (new_width - layer_width_of(old(self)@.segs)) as nat,
            ),
        ensures
            ({
                let segs = old(self)@.segs;
                let ow = layer_width_of(segs);
                let inc = (new_width - ow) as nat;
                if new_width % 2 != 0 || new_width <= ow {
                    r is None && *final(self) == *old(self)
                } else {
                    &&& r == Some(new_width)
                    &&& final(self)@ == (BackgroundView {
                        segs: update_first(
                            update_first(
                                update_first(segs, SegKind::Mpbz, |v: ScenView| widen_map(v, ow, inc)),
                                SegKind::Colz,
                                |v: ScenView| widen_colz(v, ow, inc),
                            ),
                            SegKind::Info,
                            |v: ScenView| set_width(v, new_width),
                        ),
                        ..old(self)@
                    })
                }
            }),
    {
        if new_width % 2 != 0 {
            return None;
        }
        let old_width = match self.get_info() {
            Some(info) => info.layer_width,
            None => {
                return None;
            },
        };
        if new_width <= old_width {
            return None;
        }
        let how_much_add = new_width - old_width;
        let ghost segs0 = self@.segs;
        let ghost inc = how_much_add as nat;
        let ghost s1 = update_first(segs0, SegKind::Mpbz, |v: ScenView| widen_map(v, old_width, inc));
        if let Some(mpbz) = self.get_mpbz_mut() {
            mpbz.increase_width(old_width, how_much_add as usize);
        }
        proof {
            if let Some(i) = first_of(segs0, SegKind::Mpbz) {
                lemma_view_update(old(self).scen_segments@, i, self.scen_segments@[i]);
                lemma_first_after_update(segs0, i, s1[i], SegKind::Colz);
                lemma_first_after_update(segs0, i, s1[i], SegKind::Info);
            }
            assert(self@.segs == s1);
        }
        let ghost s2 = update_first(s1, SegKind::Colz, |v: ScenView| widen_colz(v, old_width, inc));
        if let Some(colz) = self.get_colz_mut() {
            colz.increase_width(old_width, how_much_add as usize);
        }
        proof {
            if let Some(i) = first_of(s1, SegKind::Colz) {
                lemma_first_after_update(s1, i, s2[i], SegKind::Info);
            }
            assert(self@.segs == s2);
        }
        let ghost pre = *self;
        match self.get_info_mut() {
            Some(info) => {
                info.layer_width = new_width;
            },
            None => {},
        }
        proof {
            let i = first_of(s2, SegKind::Info)->0;
            lemma_view_update(pre.scen_segments@, i, self.scen_segments@[i]);
            assert(self@.segs == update_first(s2, SegKind::Info, |v: ScenView| set_width(v, new_width)));
        }
        Some(new_width)
    }

    /// Narrows the layer to `new_width` tiles: each row of the map and of
    /// the collision loses its last tiles, and INFO gets the new width. Odd
    /// widths and widths not smaller than the current one are refused with
    /// `None`.
    pub fn decrease_width(&mut self, new_width: u16) -> (r: Option<u16>)
        requires
            new_width % 2 == 0 ==> first_of(old(self)@.segs, SegKind::Info) is Some,
            new_width % 2 == 0 && new_width < layer_width_of(old(self)@.segs) ==> (first_of(
                old(self)@.segs,
                SegKind::Colz,
            ) matches Some(i) ==> old(self)@.segs[i]->Colz_0.len() <= i32::MAX),
        ensures
            ({
                let segs = old(self)@.segs;
                let ow = layer_width_of(segs);
                let dec = (ow - new_width) as nat;
                if new_width % 2 != 0 || new_width >= ow {
                    r is None && *final(self) == *old(self)
                } else {
                    &&& r == Some(new_width)
                    &&& final(self)@ == (BackgroundView {
                        segs: update_first(
                            update_first(
                                update_first(segs, SegKind::Mpbz, |v: ScenView| narrow_map(v, ow, dec)),
                                SegKind::Colz,
                                |v: ScenView| narrow_colz(v, ow, dec),
                            ),
                            SegKind::Info,
                            |v: ScenView| set_width(v, new_width),
                        ),
                        ..old(self)@
                    })
                }
            }),
    {
        if new_width % 2 != 0 {
            return None;
        }
        let old_width = match self.get_info() {
            Some(info) => info.layer_width,
            None => {
                return None;
            },
        };
        if new_width >= old_width {
            return None;
        }
        let how_much_remove = old_width - new_width;
        let ghost segs0 = self@.segs;
        let ghost dec = how_much_remove as nat;
        let ghost s1 = update_first(segs0, SegKind::Mpbz, |v: ScenView| narrow_map(v, old_width, dec));
        if let Some(mpbz) = self.get_mpbz_mut() {
            mpbz.decrease_width(old_width, how_much_remove as usize);
        }
        proof {
            if let Some(i) = first_of(segs0, SegKind::Mpbz) {
                lemma_view_update(old(self).scen_segments@, i, self.scen_segments@[i]);
                lemma_first_after_update(segs0, i, s1[i], SegKind::Colz);
                lemma_first_after_update(segs0, i, s1[i], SegKind::Info);
            }
            assert(self@.segs == s1);
        }
        let ghost s2 = update_first(s1, SegKind::Colz, |v: ScenView| narrow_colz(v, old_width, dec));
        if let Some(colz) = self.get_colz_mut() {
            colz.decrease_width(old_width as i32, how_much_remove as i32);
        }
        proof {
            if let Some(i) = first_of(s1, SegKind::Colz) {
                lemma_first_after_update(s1, i, s2[i], SegKind::Info);
            }
            assert(self@.segs == s2);
        }
        let ghost pre = *self;
        match self.get_info_mut() {
            Some(info) => {
                info.layer_width = new_width;
            },
            None => {},
        }
        proof {
            let i = first_of(s2, SegKind::Info)->0;
            lemma_view_update(pre.scen_segments@, i, self.scen_segments@[i]);
            assert(self@.segs == update_first(s2, SegKind::Info, |v: ScenView| set_width(v, new_width)));
        }
        Some(new_width)
    }

    /// Sets the layer's height to `new_height` tiles: the map and the
    /// collision are cut or extended with blank tiles at the bottom, and
    /// INFO gets the new height. Odd heights are refused with `None`.
    pub fn change_height(&mut self, new_height: u16) -> (r: Option<u16>)
        requires
            first_of(old(self)@.segs, SegKind::Info) is Some,
        ensures
            ({
                let segs = old(self)@.segs;
                let w = layer_width_of(segs);
                if new_height % 2 != 0 {
                    r is None && *final(self) == *old(self)
                } else {
                    &&& r == Some(new_height)
                    &&& final(self)@ == (BackgroundView {
                        segs: update_first(
                            update_first(
                                update_first(segs, SegKind::Mpbz, |v: ScenView| reheight_map(v, new_height, w)),
                                SegKind::Colz,
                                |v: ScenView| reheight_colz(v, new_height, w),
                            ),
                            SegKind::Info,
                            |v: ScenView| set_height(v, new_height),
                        ),
                        ..old(self)@
                    })
                }
            }),
            new_height % 2 == 0 ==> (first_of(old(self)@.segs, SegKind::Colz) matches Some(i) ==> {
                let c = old(self)@.segs[i]->Colz_0;
                let n = (new_height / 2) * (layer_width_of(old(self)@.segs) / 2);
                &&& final(self)@.segs[i] is Colz
                &&& final(self)@.segs[i]->Colz_0.len() == n
                &&& forall|j: int|
                    0 <= j < n ==> #[trigger] final(self)@.segs[i]->Colz_0[j] == if j < c.len() {
                        c[j]
                    } else {
                        0u8
                    }
            }),
    {
        let layer_width = match self.get_info() {
            Some(info) => info.layer_width,
            None => {
                return None;
            },
        };
        if new_height % 2 != 0 {
            return None;
        }
        let ghost segs0 = self@.segs;
        let ghost s1 = update_first(segs0, SegKind::Mpbz, |v: ScenView| reheight_map(v, new_height, layer_width));
        if let Some(mpbz) = self.get_mpbz_mut() {
            mpbz.change_height(new_height, layer_width);
        }
        proof {
            if let Some(i) = first_of(segs0, SegKind::Mpbz) {
                lemma_view_update(old(self).scen_segments@, i, self.scen_segments@[i]);
                lemma_first_after_update(segs0, i, s1[i], SegKind::Colz);
                lemma_first_after_update(segs0, i, s1[i], SegKind::Info);
            }
            assert(self@.segs == s1);
        }
        let ghost s2 = update_first(s1, SegKind::Colz, |v: ScenView| reheight_colz(v, new_height, layer_width));
        if let Some(colz) = self.get_colz_mut() {
            colz.change_height(new_height, layer_width);
        }
        proof {
            if let Some(i) = first_of(s1, SegKind::Colz) {
                lemma_first_after_update(s1, i, s2[i], SegKind::Info);
            }
            assert(self@.segs == s2);
        }
        let ghost pre = *self;
        match self.get_info_mut() {
            Some(info) => {
                info.layer_height = new_height;
            },
            None => {},
        }
        proof {
            let i = first_of(s2, SegKind::Info)->0;
            lemma_view_update(pre.scen_segments@, i, self.scen_segments@[i]);
            assert(self@.segs == update_first(s2, SegKind::Info, |v: ScenView| set_height(v, new_height)));
            law_change_height(segs0, new_height);
        }
        Some(new_height)
    }
}

/// Updating the first map, then the first collision map, then the first
/// INFO, each by a function that keeps a sub-segment's kind.
proof fn lemma_three_updates(
    segs: Seq<ScenView>,
    fm: spec_fn(ScenView) -> ScenView,
    fc: spec_fn(ScenView) -> ScenView,
    fi: spec_fn(ScenView) -> ScenView,
)
    requires
        forall|v: ScenView| view_kind(#[trigger] fm(v)) == view_kind(v),
        forall|v: ScenView| view_kind(#[trigger] fc(v)) == view_kind(v),
        forall|v: ScenView| view_kind(#[trigger] fi(v)) == view_kind(v),
    ensures
        ({
            let out = update_first(update_first(update_first(segs, SegKind::Mpbz, fm), SegKind::Colz, fc), SegKind::Info, fi);
            &&& out.len() == segs.len()
            &&& first_of(out, SegKind::Mpbz) == first_of(segs, SegKind::Mpbz)
            &&& first_of(out, SegKind::Colz) == first_of(segs, SegKind::Colz)
            &&& first_of(out, SegKind::Info) == first_of(segs, SegKind::Info)
            &&& first_of(segs, SegKind::Mpbz) matches Some(i) ==> out[i] == fm(segs[i])
            &&& first_of(segs, SegKind::Colz) matches Some(i) ==> out[i] == fc(segs[i])
            &&& first_of(segs, SegKind::Info) matches Some(i) ==> out[i] == fi(segs[i])
            &&& forall|j: int|
                0 <= j < segs.len() && first_of(segs, SegKind::Colz) != Some(j) && first_of(segs, SegKind::Mpbz)
                    != Some(j) && first_of(segs, SegKind::Info) != Some(j) ==> #[trigger] out[j] == segs[j]
        }),
{
    let s1 = update_first(segs, SegKind::Mpbz, fm);
    let s2 = update_first(s1, SegKind::Colz, fc);
    let out = update_first(s2, SegKind::Info, fi);
    if let Some(i) = first_of(segs, SegKind::Mpbz) {
        assert(is_first(segs, SegKind::Mpbz, i)) by {
            let c = choose|k: int| is_first(segs, SegKind::Mpbz, k);
            assert(is_first(segs, SegKind::Mpbz, c));
        }
        assert(view_kind(fm(segs[i])) == view_kind(segs[i]));
        lemma_first_after_update(segs, i, s1[i], SegKind::Colz);
        lemma_first_after_update(segs, i, s1[i], SegKind::Info);
        lemma_first_after_update(segs, i, s1[i], SegKind::Mpbz);
    }
    if let Some(i) = first_of(s1, SegKind::Colz) {
        assert(is_first(s1, SegKind::Colz, i)) by {
            let c = choose|k: int| is_first(s1, SegKind::Colz, k);
            assert(is_first(s1, SegKind::Colz, c));
        }
        assert(view_kind(fc(s1[i])) == view_kind(s1[i]));
        lemma_first_after_update(s1, i, s2[i], SegKind::Info);
        lemma_first_after_update(s1, i, s2[i], SegKind::Mpbz);
        lemma_first_after_update(s1, i, s2[i], SegKind::Colz);
    }
    if let Some(i) = first_of(s2, SegKind::Info) {
        assert(is_first(s2, SegKind::Info, i)) by {
            let c = choose|k: int| is_first(s2, SegKind::Info, k);
            assert(is_first(s2, SegKind::Info, c));
        }
        assert(view_kind(fi(s2[i])) == view_kind(s2[i]));
        lemma_first_after_update(s2, i, out[i], SegKind::Info);
        lemma_first_after_update(s2, i, out[i], SegKind::Mpbz);
        lemma_first_after_update(s2, i, out[i], SegKind::Colz);
    }
}

/// Widening a layer `ow` tiles wide to an even `nw > ow` (the sub-segments as
/// `increase_width` leaves them): a screen map of whole rows keeps its row
/// count, each row gets its tiles in their columns followed by blank tiles
/// up to `nw`; a collision map of whole rows of `ow / 2` blocks (for an even
/// `ow`) likewise gets rows of `nw / 2` blocks, the new ones empty; the
/// INFO's width becomes `nw` and nothing else of it changes; every other
/// sub-segment stays as it was.
pub proof fn law_increase_width(segs: Seq<ScenView>, nw: u16)
    requires
        first_of(segs, SegKind::Info) is Some,
        nw % 2 == 0,
        nw > layer_width_of(segs),
    ensures
        ({
            let ow = layer_width_of(segs);
            let inc = (nw - ow) as nat;
            let out = update_first(
                update_first(
                    update_first(segs, SegKind::Mpbz, |v: ScenView| widen_map(v, ow, inc)),
                    SegKind::Colz,
                    |v: ScenView| widen_colz(v, ow, inc),
                ),
                SegKind::Info,
                |v: ScenView| set_width(v, nw),
            );
            &&& out.len() == segs.len()
            &&& first_of(out, SegKind::Mpbz) == first_of(segs, SegKind::Mpbz)
            &&& first_of(out, SegKind::Colz) == first_of(segs, SegKind::Colz)
            &&& first_of(out, SegKind::Info) == first_of(segs, SegKind::Info)
            &&& first_of(segs, SegKind::Mpbz) matches Some(i) ==> {
                let m = segs[i]->Mpbz_0;
                &&& out[i] is Mpbz
                &&& out[i]->Mpbz_0.tile_offset == m.tile_offset
                &&& out[i]->Mpbz_0.bottom_trim == m.bottom_trim
                &&& forall|h: nat| ow > 0 && #[trigger] (ow * h) == m.tiles.len() ==> {
                    &&& out[i]->Mpbz_0.tiles.len() == h * nw
                    &&& forall|r: int, c: int|
                        0 <= r < h && 0 <= c < nw ==> #[trigger] out[i]->Mpbz_0.tiles[r * nw + c] == if c < ow {
                            m.tiles[r * ow + c]
                        } else {
                            blank_tile()
                        }
                }
            }
            &&& first_of(segs, SegKind::Colz) matches Some(i) ==> {
                let c0 = segs[i]->Colz_0;
                &&& out[i] is Colz
                &&& forall|h: nat| ow % 2 == 0 && ow > 0 && #[trigger] ((ow / 2) * h) == c0.len() ==> {
                    &&& out[i]->Colz_0.len() == h * (nw / 2)
                    &&& forall|r: int, c: int|
                        0 <= r < h && 0 <= c < nw / 2 ==> #[trigger] out[i]->Colz_0[r * (nw / 2) + c] == if c
                            < ow / 2 {
                            c0[r * (ow / 2) + c]
                        } else {
                            0u8
                        }
                }
            }
            &&& first_of(segs, SegKind::Info) matches Some(i) ==> out[i] == ScenView::Info(
                InfoView { layer_width: nw, ..segs[i]->Info_0 },
            )
            &&& forall|j: int|
                0 <= j < segs.len() && first_of(segs, SegKind::Colz) != Some(j) && first_of(segs, SegKind::Mpbz)
                    != Some(j) && first_of(segs, SegKind::Info) != Some(j) ==> #[trigger] out[j] == segs[j]
        }),
{
    let ow = layer_width_of(segs);
    let inc = (nw - ow) as nat;
    let fm = |v: ScenView| widen_map(v, ow, inc);
    let fc = |v: ScenView| widen_colz(v, ow, inc);
    let fi = |v: ScenView| set_width(v, nw);
    lemma_three_updates(segs, fm, fc, fi);
    let ii = first_of(segs, SegKind::Info)->0;
    assert(is_first(segs, SegKind::Info, ii)) by {
        let c = choose|k: int| is_first(segs, SegKind::Info, k);
        assert(is_first(segs, SegKind::Info, c));
    }
    if let Some(i) = first_of(segs, SegKind::Mpbz) {
        assert(is_first(segs, SegKind::Mpbz, i)) by {
            let c = choose|k: int| is_first(segs, SegKind::Mpbz, k);
            assert(is_first(segs, SegKind::Mpbz, c));
        }
        let m = segs[i]->Mpbz_0;
        assert forall|h: nat| ow > 0 && #[trigger] (ow * h) == m.tiles.len() implies {
            &&& widened(m.tiles, ow as nat, inc, blank_tile()).len() == h * nw
            &&& forall|r: int, c: int|
                0 <= r < h && 0 <= c < nw ==> #[trigger] widened(m.tiles, ow as nat, inc, blank_tile())[r * nw + c]
                    == if c < ow {
                    m.tiles[r * ow + c]
                } else {
                    blank_tile()
                }
        } by {
            law_widened_entries(m.tiles, ow as nat, inc, blank_tile(), h);
            assert(ow + inc == nw);
        }
    }
    if let Some(i) = first_of(segs, SegKind::Colz) {
        assert(is_first(segs, SegKind::Colz, i)) by {
            let c = choose|k: int| is_first(segs, SegKind::Colz, k);
            assert(is_first(segs, SegKind::Colz, c));
        }
        let c0 = segs[i]->Colz_0;
        assert forall|h: nat| ow % 2 == 0 && ow > 0 && #[trigger] ((ow / 2) * h) == c0.len() implies {
            &&& widened(c0, (ow / 2) as nat, inc / 2, 0u8).len() == h * (nw / 2)
            &&& forall|r: int, c: int|
                0 <= r < h && 0 <= c < nw / 2 ==> #[trigger] widened(c0, (ow / 2) as nat, inc / 2, 0u8)[r * (nw
                    / 2) + c] == if c < ow / 2 {
                    c0[r * (ow / 2) + c]
                } else {
                    0u8
                }
        } by {
            assert(inc % 2 == 0);
            assert((ow / 2) as nat + inc / 2 == nw / 2);
            law_widened_entries(c0, (ow / 2) as nat, inc / 2, 0u8, h);
        }
    }
}

/// Narrowing a layer `ow` tiles wide to an even `nw < ow` (the sub-segments
/// as `decrease_width` leaves them): a screen map of whole rows keeps its
/// row count, each row keeping its first `nw` tiles in their columns; a
/// collision map of whole rows of `ow / 2` blocks (for an even `ow`) keeps
/// the first `nw / 2` blocks of each row; the INFO's width becomes `nw` and
/// nothing else of it changes; every other sub-segment stays as it was.
pub proof fn law_decrease_width(segs: Seq<ScenView>, nw: u16)
    requires
        first_of(segs, SegKind::Info) is Some,
        nw % 2 == 0,
        nw < layer_width_of(segs),
    ensures
        ({
            let ow = layer_width_of(segs);
            let dec = (ow - nw) as nat;
            let out = update_first(
                update_first(
                    update_first(segs, SegKind::Mpbz, |v: ScenView| narrow_map(v, ow, dec)),
                    SegKind::Colz,
                    |v: ScenView| narrow_colz(v, ow, dec),
                ),
                SegKind::Info,
                |v: ScenView| set_width(v, nw),
            );
            &&& out.len() == segs.len()
            &&& first_of(out, SegKind::Mpbz) == first_of(segs, SegKind::Mpbz)
            &&& first_of(out, SegKind::Colz) == first_of(segs, SegKind::Colz)
            &&& first_of(out, SegKind::Info) == first_of(segs, SegKind::Info)
            &&& first_of(segs, SegKind::Mpbz) matches Some(i) ==> {
                let m = segs[i]->Mpbz_0;
                &&& out[i] is Mpbz
                &&& out[i]->Mpbz_0.tile_offset == m.tile_offset
                &&& out[i]->Mpbz_0.bottom_trim == m.bottom_trim
                &&& forall|h: nat| #[trigger] (ow * h) == m.tiles.len() ==> {
                    &&& out[i]->Mpbz_0.tiles.len() == h * nw
                    &&& forall|r: int, c: int|
                        0 <= r < h && 0 <= c < nw ==> #[trigger] out[i]->Mpbz_0.tiles[r * nw + c] == m.tiles[r
                            * ow + c]
                }
            }
            &&& first_of(segs, SegKind::Colz) matches Some(i) ==> {
                let c0 = segs[i]->Colz_0;
                &&& out[i] is Colz
                &&& forall|h: nat| ow % 2 == 0 && #[trigger] ((ow / 2) * h) == c0.len() ==> {
                    &&& out[i]->Colz_0.len() == h * (nw / 2)
                    &&& forall|r: int, c: int|
                        0 <= r < h && 0 <= c < nw / 2 ==> #[trigger] out[i]->Colz_0[r * (nw / 2) + c] == c0[r * (
                            ow / 2) + c]
                }
            }
            &&& first_of(segs, SegKind::Info) matches Some(i) ==> out[i] == ScenView::Info(
                InfoView { layer_width: nw, ..segs[i]->Info_0 },
            )
            &&& forall|j: int|
                0 <= j < segs.len() && first_of(segs, SegKind::Colz) != Some(j) && first_of(segs, SegKind::Mpbz)
                    != Some(j) && first_of(segs, SegKind::Info) != Some(j) ==> #[trigger] out[j] == segs[j]
        }),
{
    let ow = layer_width_of(segs);
    let dec = (ow - nw) as nat;
    let fm = |v: ScenView| narrow_map(v, ow, dec);
    let fc = |v: ScenView| narrow_colz(v, ow, dec);
    let fi = |v: ScenView| set_width(v, nw);
    lemma_three_updates(segs, fm, fc, fi);
    let ii = first_of(segs, SegKind::Info)->0;
    assert(is_first(segs, SegKind::Info, ii)) by {
        let c = choose|k: int| is_first(segs, SegKind::Info, k);
        assert(is_first(segs, SegKind::Info, c));
    }
    if let Some(i) = first_of(segs, SegKind::Mpbz) {
        assert(is_first(segs, SegKind::Mpbz, i)) by {
            let c = choose|k: int| is_first(segs, SegKind::Mpbz, k);
            assert(is_first(segs, SegKind::Mpbz, c));
        }
        let m = segs[i]->Mpbz_0;
        assert forall|h: nat| #[trigger] (ow * h) == m.tiles.len() implies {
            &&& narrowed(m.tiles, ow as nat, dec).len() == h * nw
            &&& forall|r: int, c: int|
                0 <= r < h && 0 <= c < nw ==> #[trigger] narrowed(m.tiles, ow as nat, dec)[r * nw + c] == m.tiles[r
                    * ow + c]
        } by {
            law_narrowed_entries(m.tiles, ow as nat, dec, h);
            assert(ow - dec == nw);
        }
    }
    if let Some(i) = first_of(segs, SegKind::Colz) {
        assert(is_first(segs, SegKind::Colz, i)) by {
            let c = choose|k: int| is_first(segs, SegKind::Colz, k);
            assert(is_first(segs, SegKind::Colz, c));
        }
        let c0 = segs[i]->Colz_0;
        assert forall|h: nat| ow % 2 == 0 && #[trigger] ((ow / 2) * h) == c0.len() implies {
            &&& narrowed(c0, (ow / 2) as nat, dec / 2).len() == h * (nw / 2)
            &&& forall|r: int, c: int|
                0 <= r < h && 0 <= c < nw / 2 ==> #[trigger] narrowed(c0, (ow / 2) as nat, dec / 2)[r * (nw / 2)
                    + c] == c0[r * (ow / 2) + c]
        } by {
            assert(dec % 2 == 0 && dec > 0);
            assert((ow / 2) as nat - dec / 2 == nw / 2);
            law_narrowed_entries(c0, (ow / 2) as nat, dec / 2, h);
        }
    }
}

/// `resized` keeps the first entries and fills the rest.
proof fn lemma_resized_entries<T>(s: Seq<T>, n: nat, fill: T)
    ensures
        resized(s, n, fill).len() == n,
        forall|j: int| 0 <= j < n ==> #[trigger] resized(s, n, fill)[j] == if j < s.len() {
            s[j]
        } else {
            fill
        },
{
    if n > s.len() {
        assert forall|j: int| 0 <= j < n implies #[trigger] resized(s, n, fill)[j] == if j < s.len() {
            s[j]
        } else {
            fill
        } by {
            if j >= s.len() {
                assert(resized(s, n, fill)[j] == blanks((n - s.len()) as nat, fill)[j - s.len()]);
            }
        }
    }
}

/// Changing a layer's height to an even `h` (the sub-segments as
/// `change_height` leaves them) gives the collision map exactly
/// `(h / 2) * (w / 2)` blocks for a layer `w` tiles wide, its first blocks
/// kept and the new ones empty; gives the screen map exactly `h * w` tiles,
/// its first tiles kept and the new ones blank; sets the INFO's height and
/// nothing else of it; and leaves every other sub-segment as it was.
pub proof fn law_change_height(segs: Seq<ScenView>, h: u16)
    requires
        first_of(segs, SegKind::Info) is Some,
        h % 2 == 0,
    ensures
        ({
            let w = layer_width_of(segs);
            let out = update_first(
                update_first(
                    update_first(segs, SegKind::Mpbz, |v: ScenView| reheight_map(v, h, w)),
                    SegKind::Colz,
                    |v: ScenView| reheight_colz(v, h, w),
                ),
                SegKind::Info,
                |v: ScenView| set_height(v, h),
            );
            &&& out.len() == segs.len()
            &&& first_of(out, SegKind::Colz) == first_of(segs, SegKind::Colz)
            &&& first_of(out, SegKind::Mpbz) == first_of(segs, SegKind::Mpbz)
            &&& first_of(out, SegKind::Info) == first_of(segs, SegKind::Info)
            &&& first_of(segs, SegKind::Colz) matches Some(i) ==> {
                let c = segs[i]->Colz_0;
                &&& out[i] is Colz
                &&& out[i]->Colz_0.len() == (h / 2) * (w / 2)
                &&& forall|j: int|
                    0 <= j < out[i]->Colz_0.len() ==> #[trigger] out[i]->Colz_0[j] == if j < c.len() {
                        c[j]
                    } else {
                        0u8
                    }
            }
            &&& first_of(segs, SegKind::Mpbz) matches Some(i) ==> {
                let m = segs[i]->Mpbz_0;
                &&& out[i] is Mpbz
                &&& out[i]->Mpbz_0.tiles.len() == h * w
                &&& out[i]->Mpbz_0.tile_offset == m.tile_offset
                &&& out[i]->Mpbz_0.bottom_trim == m.bottom_trim
                &&& forall|j: int|
                    0 <= j < out[i]->Mpbz_0.tiles.len() ==> #[trigger] out[i]->Mpbz_0.tiles[j] == if j
                        < m.tiles.len() {
                        m.tiles[j]
                    } else {
                        blank_tile()
                    }
            }
            &&& first_of(segs, SegKind::Info) matches Some(i) ==> out[i] == ScenView::Info(
                InfoView { layer_height: h, ..segs[i]->Info_0 },
            )
            &&& forall|j: int|
                0 <= j < segs.len() && first_of(segs, SegKind::Colz) != Some(j) && first_of(segs, SegKind::Mpbz)
                    != Some(j) && first_of(segs, SegKind::Info) != Some(j) ==> #[trigger] out[j] == segs[j]
        }),
{
    let w = layer_width_of(segs);
    let s1 = update_first(segs, SegKind::Mpbz, |v: ScenView| reheight_map(v, h, w));
    let s2 = update_first(s1, SegKind::Colz, |v: ScenView| reheight_colz(v, h, w));
    let out = update_first(s2, SegKind::Info, |v: ScenView| set_height(v, h));
    let ii = first_of(segs, SegKind::Info)->0;
    assert(is_first(segs, SegKind::Info, ii)) by {
        let c = choose|k: int| is_first(segs, SegKind::Info, k);
        assert(is_first(segs, SegKind::Info, c));
    }
    if let Some(i) = first_of(segs, SegKind::Mpbz) {
        assert(is_first(segs, SegKind::Mpbz, i)) by {
            let c = choose|k: int| is_first(segs, SegKind::Mpbz, k);
            assert(is_first(segs, SegKind::Mpbz, c));
        }
        lemma_first_after_update(segs, i, s1[i], SegKind::Colz);
        lemma_first_after_update(segs, i, s1[i], SegKind::Info);
        lemma_first_after_update(segs, i, s1[i], SegKind::Mpbz);
        let m = segs[i]->Mpbz_0;
        lemma_resized_entries(m.tiles, (h * w) as nat, blank_tile());
        assert(h * w >= 0) by (nonlinear_arith);
    }
    if let Some(i) = first_of(s1, SegKind::Colz) {
        assert(is_first(s1, SegKind::Colz, i)) by {
            let c = choose|k: int| is_first(s1, SegKind::Colz, k);
            assert(is_first(s1, SegKind::Colz, c));
        }
        lemma_first_after_update(s1, i, s2[i], SegKind::Info);
        lemma_first_after_update(s1, i, s2[i], SegKind::Mpbz);
        lemma_first_after_update(s1, i, s2[i], SegKind::Colz);
        let c = s1[i]->Colz_0;
        lemma_resized_entries(c, ((h / 2) * (w / 2)) as nat, 0u8);
        assert((h / 2) * (w / 2) >= 0) by (nonlinear_arith);
    }
    assert(is_first(s2, SegKind::Info, ii)) by {
        let c = choose|k: int| is_first(s2, SegKind::Info, k);
        assert(is_first(s2, SegKind::Info, c));
    }
    lemma_first_after_update(s2, ii, out[ii], SegKind::Info);
    lemma_first_after_update(s2, ii, out[ii], SegKind::Mpbz);
    lemma_first_after_update(s2, ii, out[ii], SegKind::Colz);
}

} // verus!

verus! {

/// The sub-segments wrapped one after the other, each given the layer's INFO.
pub open spec fn wraps_concat(ws: Seq<ScenSegmentWrapper>, info: ScenInfoData) -> Seq<u8>
    decreases ws.len(),
{
    if ws.len() == 0 {
        Seq::empty()
    } else {
        wraps_concat(ws.drop_last(), info) + ws.last().spec_wrap(Some(&info))
    }
}

/// Every collision block and every map (written for a layer `lw` tiles
/// wide) below 2^24 bytes among `ws` decompresses back from its stored
/// stream.
pub open spec fn streams_recoverable(ws: Seq<ScenSegmentWrapper>, lw: u16) -> bool {
    forall|i: int|
        0 <= i < ws.len() ==> {
            &&& (#[trigger] ws[i] matches ScenSegmentWrapper::COLZ(c) ==> (c.col_tiles@.len() < 0x1000000
                ==> lz10_recoverable(c.col_tiles@)))
            &&& (ws[i] matches ScenSegmentWrapper::MPBZ(m) ==> (mpbz_bytes(m, lw).len() < 0x1000000
                ==> lz10_recoverable(mpbz_bytes(m, lw))))
        }
}

impl BackgroundData {
    /// The layer's first INFO, as stored.
    pub open spec fn first_info(&self) -> ScenInfoData {
        self.scen_segments@[first_of(self@.segs, SegKind::Info)->0]->INFO_0
    }
}

impl TopLevelSegment for BackgroundData {
    open spec fn spec_compile(&self) -> Seq<u8> {
        wraps_concat(self.scen_segments@, self.first_info())
    }

    /// A SCEN segment is not compressed as a whole; its sub-segments may be.
    open spec fn spec_wrap(&self) -> Seq<u8> {
        wrapped_segment(self.spec_compile(), encode_utf8("SCEN"@))
    }

    open spec fn spec_header(&self) -> Seq<char> {
        "SCEN"@
    }

    open spec fn can_compile(&self) -> bool {
        &&& first_of(self@.segs, SegKind::Info) is Some
        &&& forall|i: int| 0 <= i < self.scen_segments@.len() ==> (#[trigger] self.scen_segments@[i]).can_compile()
    }

    fn compile(&self) -> (r: Vec<u8>)
        ensures
            first_of(self@.segs, SegKind::Info) is Some ==> streams_recoverable(
                self.scen_segments@,
                self.first_info().layer_width,
            ),
    {
        let mut compiled: Vec<u8> = Vec::new();
        let k = match find_first(&self.scen_segments, SegKind::Info) {
            Some(k) => k,
            None => {
                return compiled;
            },
        };
        let info = match &self.scen_segments[k] {
            ScenSegmentWrapper::INFO(info) => info,
            _ => {
                return compiled;
            },
        };
        let mut i: usize = 0;
        while i < self.scen_segments.len()
            invariant
                i <= self.scen_segments@.len(),
                self.can_compile(),
                *info == self.first_info(),
                compiled@ == wraps_concat(self.scen_segments@.take(i as int), *info),
                streams_recoverable(self.scen_segments@.take(i as int), info.layer_width),
            decreases self.scen_segments@.len() - i,
        {
            let w = self.scen_segments[i].wrap(Some(info));
            assert(streams_recoverable(self.scen_segments@.take(i + 1), info.layer_width)) by {
                assert forall|j: int| 0 <= j < i + 1 implies #[trigger] self.scen_segments@.take(i + 1)[j]
                    == self.scen_segments@[j] by {}
                assert forall|j: int| 0 <= j < i implies #[trigger] self.scen_segments@.take(i as int)[j]
                    == self.scen_segments@[j] by {}
            }
            assert(self.scen_segments@.take(i + 1).drop_last() =~= self.scen_segments@.take(i as int));
            push_all(&mut compiled, w.as_slice());
            i += 1;
        }
        assert(self.scen_segments@.take(i as int) =~= self.scen_segments@);
        compiled
    }

    fn wrap(&self) -> (r: Vec<u8>) {
        let body = self.compile();
        segment_wrap(&body, String::from_str("SCEN"))
    }

    fn header(&self) -> (r: String) {
        String::from_str("SCEN")
    }
}

} // verus!

verus! {

/// Whether every palette of a PLTB has no more colours in use than it
/// holds.
fn pltb_compilable(p: &PltbData) -> (r: bool)
    ensures
        r == p.can_compile(),
{
    let mut i: usize = 0;
    while i < p.palettes.len()
        invariant
            i <= p.palettes@.len(),
            forall|k: int| 0 <= k < i ==> (#[trigger] p.palettes@[k]).can_compile(),
        decreases p.palettes@.len() - i,
    {
        if p.palettes[i]._pal_len > p.palettes[i].colors.len() {
            assert(!p.palettes@[i as int].can_compile());
            return false;
        }
        i += 1;
    }
    true
}

impl BackgroundData {
    /// Whether the background can be compiled: it has an INFO and its
    /// palettes are complete.
    pub fn can_compile_check(&self) -> (r: bool)
        ensures
            r == self.can_compile(),
    {
        if self.get_info().is_none() {
            return false;
        }
        let mut i: usize = 0;
        while i < self.scen_segments.len()
            invariant
                i <= self.scen_segments@.len(),
                forall|k: int| 0 <= k < i ==> (#[trigger] self.scen_segments@[k]).can_compile(),
            decreases self.scen_segments@.len() - i,
        {
            match &self.scen_segments[i] {
                ScenSegmentWrapper::PLTB(p) => {
                    if !pltb_compilable(p) {
                        return false;
                    }
                },
                _ => {},
            }
            i += 1;
        }
        true
    }
}

} // verus!

verus! {

/// The first position of a kind holds that kind.
proof fn lemma_first_is(segs: Seq<ScenView>, k: SegKind)
    ensures
        first_of(segs, k) matches Some(i) ==> is_first(segs, k, i),
{
}

/// Updating the first sub-segment of a kind by one of the same kind keeps
/// every first position.
proof fn lemma_update_first_keeps(segs: Seq<ScenView>, k: SegKind, f: spec_fn(ScenView) -> ScenView, k2: SegKind)
    requires
        first_of(segs, k) matches Some(i) ==> view_kind(f(segs[i])) == view_kind(segs[i]),
    ensures
        first_of(update_first(segs, k, f), k2) == first_of(segs, k2),
        update_first(segs, k, f).len() == segs.len(),
{
    if let Some(i) = first_of(segs, k) {
        lemma_first_is(segs, k);
        lemma_first_after_update(segs, i, f(segs[i]), k2);
    }
}

/// Narrowing a layer back to its width after widening it gives the layer
/// back: the map and the collision lose exactly the tiles that widening
/// added, and INFO gets its old width again. This holds for layers of an
/// even, non-zero width (`decrease_width` refuses odd widths) widened to a
/// larger even width.
pub proof fn law_narrow_undoes_widen_background(segs: Seq<ScenView>, new_width: u16)
    requires
        first_of(segs, SegKind::Info) is Some,
        layer_width_of(segs) % 2 == 0,
        layer_width_of(segs) > 0,
        new_width % 2 == 0,
        new_width > layer_width_of(segs),
    ensures
        ({
            let ow = layer_width_of(segs);
            let inc = (new_width - ow) as nat;
            let wide = update_first(
                update_first(
                    update_first(segs, SegKind::Mpbz, |v: ScenView| widen_map(v, ow, inc)),
                    SegKind::Colz,
                    |v: ScenView| widen_colz(v, ow, inc),
                ),
                SegKind::Info,
                |v: ScenView| set_width(v, new_width),
            );
            &&& first_of(wide, SegKind::Info) is Some
            &&& layer_width_of(wide) == new_width
            &&& update_first(
                update_first(
                    update_first(wide, SegKind::Mpbz, |v: ScenView| narrow_map(v, new_width, inc)),
                    SegKind::Colz,
                    |v: ScenView| narrow_colz(v, new_width, inc),
                ),
                SegKind::Info,
                |v: ScenView| set_width(v, ow),
            ) == segs
        }),
{
    let ow = layer_width_of(segs);
    let inc = (new_width - ow) as nat;
    let wm = |v: ScenView| widen_map(v, ow, inc);
    let wc = |v: ScenView| widen_colz(v, ow, inc);
    let sw = |v: ScenView| set_width(v, new_width);
    let nm = |v: ScenView| narrow_map(v, new_width, inc);
    let nc = |v: ScenView| narrow_colz(v, new_width, inc);
    let so = |v: ScenView| set_width(v, ow);
    let s1 = update_first(segs, SegKind::Mpbz, wm);
    let s2 = update_first(s1, SegKind::Colz, wc);
    let s3 = update_first(s2, SegKind::Info, sw);
    let t1 = update_first(s3, SegKind::Mpbz, nm);
    let t2 = update_first(t1, SegKind::Colz, nc);
    let t3 = update_first(t2, SegKind::Info, so);
    lemma_first_is(segs, SegKind::Mpbz);
    lemma_first_is(segs, SegKind::Colz);
    lemma_first_is(segs, SegKind::Info);
    lemma_update_first_keeps(segs, SegKind::Mpbz, wm, SegKind::Mpbz);
    lemma_update_first_keeps(segs, SegKind::Mpbz, wm, SegKind::Colz);
    lemma_update_first_keeps(segs, SegKind::Mpbz, wm, SegKind::Info);
    lemma_first_is(s1, SegKind::Colz);
    lemma_update_first_keeps(s1, SegKind::Colz, wc, SegKind::Mpbz);
    lemma_update_first_keeps(s1, SegKind::Colz, wc, SegKind::Colz);
    lemma_update_first_keeps(s1, SegKind::Colz, wc, SegKind::Info);
    lemma_first_is(s2, SegKind::Info);
    lemma_update_first_keeps(s2, SegKind::Info, sw, SegKind::Mpbz);
    lemma_update_first_keeps(s2, SegKind::Info, sw, SegKind::Colz);
    lemma_update_first_keeps(s2, SegKind::Info, sw, SegKind::Info);
    lemma_first_is(s3, SegKind::Mpbz);
    lemma_update_first_keeps(s3, SegKind::Mpbz, nm, SegKind::Mpbz);
    lemma_update_first_keeps(s3, SegKind::Mpbz, nm, SegKind::Colz);
    lemma_update_first_keeps(s3, SegKind::Mpbz, nm, SegKind::Info);
    lemma_first_is(t1, SegKind::Colz);
    lemma_update_first_keeps(t1, SegKind::Colz, nc, SegKind::Colz);
    lemma_update_first_keeps(t1, SegKind::Colz, nc, SegKind::Info);
    lemma_first_is(t2, SegKind::Info);
    lemma_update_first_keeps(t2, SegKind::Info, so, SegKind::Info);
    let ii = first_of(segs, SegKind::Info)->0;
    assert(s3[ii] == sw(s2[ii]));
    assert(layer_width_of(s3) == new_width);
    assert forall|j: int| 0 <= j < segs.len() implies #[trigger] t3[j] == segs[j] by {
        if first_of(segs, SegKind::Mpbz) == Some(j) {
            let m = segs[j]->Mpbz_0;
            crate::grid::law_narrow_undoes_widen(m.tiles, ow as nat, inc, crate::scen::mpbz::blank_tile());
            assert(nm(wm(segs[j])) == segs[j]);
        } else if first_of(segs, SegKind::Colz) == Some(j) {
            let c = segs[j]->Colz_0;
            crate::grid::law_narrow_undoes_widen(c, (ow / 2) as nat, inc / 2, 0u8);
            assert((new_width / 2) as nat == (ow / 2) as nat + inc / 2);
            assert(nc(wc(segs[j])) == segs[j]);
        } else if j == ii {
            assert(so(sw(segs[j])) == segs[j]);
        }
    }
    assert(t3 =~= segs);
}

} // verus!

verus! {

impl ScenInfoData {
    /// The decompressed tile graphics of the external file this INFO
    /// names, looked up among `files`; `None` when no file has that name.
    pub fn get_imbz_pixels(&self, files: &Vec<ImbzFile>) -> (r: Option<Vec<u8>>)
        requires
            self.imbz_filename_noext is Some,
        ensures
            match imbz_lookup(files@, self.imbz_filename_noext->0@) {
                None => r is None,
                Some(b) => r matches Some(p) && p@ == lz10_decompressed(b),
            },
    {
        match &self.imbz_filename_noext {
            Some(name) => match lookup_imbz(files, name) {
                Some(bytes) => Some(lamezip77_lz10_decomp(bytes.as_slice())),
                None => None,
            },
            None => None,
        }
    }
}

} // verus!
