//! A map file (MPDZ): its top-level segments, reading, compiling and the
//! edits made to it.
use vstd::prelude::*;
use vstd::string::*;
use crate::alph::AlphaData;
use crate::area::{area_rects, area_truncated, trigger_rect, Trigger, TriggerData};
use crate::background::{first_of, scen_result, BackgroundData, BackgroundDataError, BackgroundView, ImbzFile, SegKind};
use crate::scen::ScenView;
use crate::blkz::{blkz_of, blkz_truncated, BlkzView, SoftRockBackdrop};
use crate::brak::BrakData;
use crate::bytes::{le16, le32, read_u32};
use crate::compression::{
    lamezip77_lz10_decomp, lamezip77_lz10_recomp, lz10_compressed, lz10_decompressed, segment_wrap_u32,
    wrapped_segment_u32,
};
use crate::grad::{grad_of, grad_truncated, grad_truncated_check, GradView, GradientData};
use crate::path::{path_of, path_truncated, PathDatabase, PathView};
use crate::segments::{DataSegment, GenericTopLevelSegment, TopLevelSegment};
use crate::sprites::{sprite_views, sprites_from, LevelSprite, LevelSpriteSet, SpriteMetadata, SpriteView};
use crate::text::{byte_char, header_chars, header_to_string};

verus! {

/// Top-level segment names as stored little-endian in the files.
pub const SCEN_MAGIC: u32 = 0x4E454353;
pub const SETD_MAGIC: u32 = 0x44544553;
pub const GRAD_MAGIC: u32 = 0x44415247;
pub const AREA_MAGIC: u32 = 0x41455241;
pub const PATH_MAGIC: u32 = 0x48544150;
pub const ALPH_MAGIC: u32 = 0x48504C41;
pub const BLKZ_MAGIC: u32 = 0x5A4B4C42;
pub const BRAK_MAGIC: u32 = 0x4B415242;
/// The name of a whole map file ("SET" and a zero byte).
pub const SET_MAGIC: u32 = 0x00544553;

#[derive(Clone, PartialEq, Debug)]
pub enum TopLevelSegmentWrapper {
    SETD(LevelSpriteSet),
    SCEN(BackgroundData),
    GRAD(GradientData),
    AREA(TriggerData),
    PATH(PathDatabase),
    ALPH(AlphaData),
    BLKZ(SoftRockBackdrop),
    BRAK(BrakData),
    Unknown(GenericTopLevelSegment),
}

/// The abstract value of a top-level segment; identifiers given while
/// editing are left out.
pub ghost enum TopView {
    Setd(Seq<SpriteView>),
    Scen(BackgroundView),
    Grad(GradView),
    Area(Seq<(u16, u16, u16, u16)>),
    Path(PathView),
    Alph(AlphaData),
    Blkz(BlkzView),
    Brak(Seq<u8>),
    Unknown(Seq<u8>, Seq<char>),
}

impl View for TopLevelSegmentWrapper {
    type V = TopView;

    open spec fn view(&self) -> TopView {
        match self {
            TopLevelSegmentWrapper::SETD(x) => TopView::Setd(sprite_views(x.sprites@)),
            TopLevelSegmentWrapper::SCEN(x) => TopView::Scen(x@),
            TopLevelSegmentWrapper::GRAD(x) => TopView::Grad(x@),
            TopLevelSegmentWrapper::AREA(x) => TopView::Area(x.triggers@.map_values(|t: Trigger| trigger_rect(t))),
            TopLevelSegmentWrapper::PATH(x) => TopView::Path(x@),
            TopLevelSegmentWrapper::ALPH(x) => TopView::Alph(*x),
            TopLevelSegmentWrapper::BLKZ(x) => TopView::Blkz(x@),
            TopLevelSegmentWrapper::BRAK(x) => TopView::Brak(x.raw_bytes@),
            TopLevelSegmentWrapper::Unknown(x) => TopView::Unknown(x.raw_bytes@, x.header@),
        }
    }
}

impl TopLevelSegment for TopLevelSegmentWrapper {
    open spec fn spec_compile(&self) -> Seq<u8> {
        match self {
            TopLevelSegmentWrapper::SETD(x) => x.spec_compile(),
            TopLevelSegmentWrapper::SCEN(x) => x.spec_compile(),
            TopLevelSegmentWrapper::GRAD(x) => x.spec_compile(),
            TopLevelSegmentWrapper::AREA(x) => x.spec_compile(),
            TopLevelSegmentWrapper::PATH(x) => x.spec_compile(),
            TopLevelSegmentWrapper::ALPH(x) => x.spec_compile(),
            TopLevelSegmentWrapper::BLKZ(x) => x.spec_compile(),
            TopLevelSegmentWrapper::BRAK(x) => x.spec_compile(),
            TopLevelSegmentWrapper::Unknown(x) => x.spec_compile(),
        }
    }

    open spec fn spec_wrap(&self) -> Seq<u8> {
        match self {
            TopLevelSegmentWrapper::SETD(x) => x.spec_wrap(),
            TopLevelSegmentWrapper::SCEN(x) => x.spec_wrap(),
            TopLevelSegmentWrapper::GRAD(x) => x.spec_wrap(),
            TopLevelSegmentWrapper::AREA(x) => x.spec_wrap(),
            TopLevelSegmentWrapper::PATH(x) => x.spec_wrap(),
            TopLevelSegmentWrapper::ALPH(x) => x.spec_wrap(),
            TopLevelSegmentWrapper::BLKZ(x) => x.spec_wrap(),
            TopLevelSegmentWrapper::BRAK(x) => x.spec_wrap(),
            TopLevelSegmentWrapper::Unknown(x) => x.spec_wrap(),
        }
    }

    open spec fn spec_header(&self) -> Seq<char> {
        match self {
            TopLevelSegmentWrapper::SETD(x) => x.spec_header(),
            TopLevelSegmentWrapper::SCEN(x) => x.spec_header(),
            TopLevelSegmentWrapper::GRAD(x) => x.spec_header(),
            TopLevelSegmentWrapper::AREA(x) => x.spec_header(),
            TopLevelSegmentWrapper::PATH(x) => x.spec_header(),
            TopLevelSegmentWrapper::ALPH(x) => x.spec_header(),
            TopLevelSegmentWrapper::BLKZ(x) => x.spec_header(),
            TopLevelSegmentWrapper::BRAK(x) => x.spec_header(),
            TopLevelSegmentWrapper::Unknown(x) => x.spec_header(),
        }
    }

    open spec fn can_compile(&self) -> bool {
        match self {
            TopLevelSegmentWrapper::SETD(x) => x.can_compile(),
            TopLevelSegmentWrapper::SCEN(x) => x.can_compile(),
            TopLevelSegmentWrapper::GRAD(x) => x.can_compile(),
            TopLevelSegmentWrapper::AREA(x) => x.can_compile(),
            TopLevelSegmentWrapper::PATH(x) => x.can_compile(),
            TopLevelSegmentWrapper::ALPH(x) => x.can_compile(),
            TopLevelSegmentWrapper::BLKZ(x) => x.can_compile(),
            TopLevelSegmentWrapper::BRAK(x) => x.can_compile(),
            TopLevelSegmentWrapper::Unknown(x) => x.can_compile(),
        }
    }

    fn compile(&self) -> (r: Vec<u8>) {
        match self {
            TopLevelSegmentWrapper::SETD(x) => x.compile(),
            TopLevelSegmentWrapper::SCEN(x) => x.compile(),
            TopLevelSegmentWrapper::GRAD(x) => x.compile(),
            TopLevelSegmentWrapper::AREA(x) => x.compile(),
            TopLevelSegmentWrapper::PATH(x) => x.compile(),
            TopLevelSegmentWrapper::ALPH(x) => x.compile(),
            TopLevelSegmentWrapper::BLKZ(x) => x.compile(),
            TopLevelSegmentWrapper::BRAK(x) => x.compile(),
            TopLevelSegmentWrapper::Unknown(x) => x.compile(),
        }
    }

    fn wrap(&self) -> (r: Vec<u8>) {
        match self {
            TopLevelSegmentWrapper::SETD(x) => x.wrap(),
            TopLevelSegmentWrapper::SCEN(x) => x.wrap(),
            TopLevelSegmentWrapper::GRAD(x) => x.wrap(),
            TopLevelSegmentWrapper::AREA(x) => x.wrap(),
            TopLevelSegmentWrapper::PATH(x) => x.wrap(),
            TopLevelSegmentWrapper::ALPH(x) => x.wrap(),
            TopLevelSegmentWrapper::BLKZ(x) => x.wrap(),
            TopLevelSegmentWrapper::BRAK(x) => x.wrap(),
            TopLevelSegmentWrapper::Unknown(x) => x.wrap(),
        }
    }

    fn header(&self) -> (r: String) {
        match self {
            TopLevelSegmentWrapper::SETD(x) => x.header(),
            TopLevelSegmentWrapper::SCEN(x) => x.header(),
            TopLevelSegmentWrapper::GRAD(x) => x.header(),
            TopLevelSegmentWrapper::AREA(x) => x.header(),
            TopLevelSegmentWrapper::PATH(x) => x.header(),
            TopLevelSegmentWrapper::ALPH(x) => x.header(),
            TopLevelSegmentWrapper::BLKZ(x) => x.header(),
            TopLevelSegmentWrapper::BRAK(x) => x.header(),
            TopLevelSegmentWrapper::Unknown(x) => x.header(),
        }
    }
}

#[derive(Debug, Clone, PartialEq, Eq)]
pub enum MapDataError {
    FileNotExist(String),
    MasterHeaderNotFound,
    HeaderWasntSet([char; 3]),
    FailedGenerateBackground,
}

/// A map file's contents.
#[derive(Clone, PartialEq)]
pub struct MapData {
    pub src_file: String,
    pub map_name: String,
    pub segments: Vec<TopLevelSegmentWrapper>,
    pub uuid: u128,
    pub unhandled_headers: Vec<String>,
}

/// The abstract value of a map; its identifier is left out.
pub ghost struct MapView {
    pub src_file: Seq<char>,
    pub map_name: Seq<char>,
    pub segments: Seq<TopView>,
    pub unhandled: Seq<Seq<char>>,
}

pub open spec fn top_views(ws: Seq<TopLevelSegmentWrapper>) -> Seq<TopView> {
    ws.map_values(|x: TopLevelSegmentWrapper| x@)
}

impl View for MapData {
    type V = MapView;

    open spec fn view(&self) -> MapView {
        MapView {
            src_file: self.src_file@,
            map_name: self.map_name@,
            segments: top_views(self.segments@),
            unhandled: self.unhandled_headers@.map_values(|h: String| h@),
        }
    }
}

impl Default for MapData {
    fn default() -> (r: Self)
        ensures
            r@ == (MapView { src_file: "ERROR"@, map_name: "ERROR"@, segments: Seq::empty(), unhandled: Seq::empty() }),
    {
        let r = MapData {
            src_file: String::from_str("ERROR"),
            map_name: String::from_str("ERROR"),
            segments: Vec::new(),
            uuid: crate::ids::new_uuid(),
            unhandled_headers: Vec::new(),
        };
        assert(r@.segments =~= Seq::<TopView>::empty());
        assert(r@.unhandled =~= Seq::<Seq<char>>::empty());
        r
    }
}

/// The segments of a map file from `p` on: name, size, body. `None` when
/// one runs past the end of the data.
pub open spec fn raw_segments(s: Seq<u8>, p: int) -> Option<Seq<(u32, Seq<u8>)>>
    decreases s.len() - p,
{
    if p < 0 || p >= s.len() {
        Some(Seq::empty())
    } else if p + 8 > s.len() || p + 8 + le32(s, p + 4) > s.len() {
        None
    } else {
        match raw_segments(s, p + 8 + le32(s, p + 4)) {
            Some(rest) => Some(seq![(le32(s, p), s.subrange(p + 8, p + 8 + le32(s, p + 4)))] + rest),
            None => None,
        }
    }
}

/// Reading one top-level segment: `None` when its reader cannot take the
/// body, `Ok(None)` when the segment is skipped.
pub open spec fn seg_step(hdr: u32, data: Seq<u8>, files: Seq<ImbzFile>) -> Option<
    Result<Option<TopView>, MapDataError>,
> {
    if hdr == SCEN_MAGIC {
        match scen_result(data, files) {
            None => None,
            Some(Err(_)) => Some(Err(MapDataError::FailedGenerateBackground)),
            Some(Ok(bv)) => Some(Ok(Some(TopView::Scen(bv)))),
        }
    } else if hdr == SETD_MAGIC {
        match sprites_from(data, 0) {
            None => None,
            Some(vs) => Some(Ok(Some(TopView::Setd(vs)))),
        }
    } else if hdr == GRAD_MAGIC {
        if grad_truncated(data) {
            None
        } else {
            match grad_of(data) {
                None => Some(Ok(None)),
                Some(g) => Some(Ok(Some(TopView::Grad(g)))),
            }
        }
    } else if hdr == AREA_MAGIC {
        if area_truncated(data) {
            None
        } else {
            Some(Ok(Some(TopView::Area(area_rects(data)))))
        }
    } else if hdr == PATH_MAGIC {
        if path_truncated(data) {
            None
        } else {
            Some(Ok(Some(TopView::Path(path_of(data)))))
        }
    } else if hdr == ALPH_MAGIC {
        if data.len() < 4 {
            Some(Ok(None))
        } else {
            Some(Ok(Some(TopView::Alph(AlphaData { bldcnt: le16(data, 0), bldalpha: le16(data, 2) }))))
        }
    } else if hdr == BLKZ_MAGIC {
        if blkz_truncated(lz10_decompressed(data)) {
            Some(Ok(None))
        } else {
            Some(Ok(Some(TopView::Blkz(blkz_of(lz10_decompressed(data))))))
        }
    } else if hdr == BRAK_MAGIC {
        Some(Ok(Some(TopView::Brak(data))))
    } else {
        Some(Ok(Some(TopView::Unknown(data, header_chars(hdr)))))
    }
}

pub open spec fn is_known(hdr: u32) -> bool {
    hdr == SCEN_MAGIC || hdr == SETD_MAGIC || hdr == GRAD_MAGIC || hdr == AREA_MAGIC || hdr == PATH_MAGIC
        || hdr == ALPH_MAGIC || hdr == BLKZ_MAGIC || hdr == BRAK_MAGIC
}

/// The segments read from a list of raw segments, in order, with the names
/// that no reader knows.
pub open spec fn map_fold(raws: Seq<(u32, Seq<u8>)>, files: Seq<ImbzFile>) -> Option<
    Result<(Seq<TopView>, Seq<Seq<char>>), MapDataError>,
>
    decreases raws.len(),
{
    if raws.len() == 0 {
        Some(Ok((Seq::empty(), Seq::empty())))
    } else {
        match seg_step(raws[0].0, raws[0].1, files) {
            None => None,
            Some(Err(e)) => Some(Err(e)),
            Some(Ok(o)) => match map_fold(raws.skip(1), files) {
                None => None,
                Some(Err(e)) => Some(Err(e)),
                Some(Ok((vs, us))) => Some(
                    Ok(
                        (
                            match o {
                                Some(v) => seq![v] + vs,
                                None => vs,
                            },
                            if is_known(raws[0].0) {
                                us
                            } else {
                                seq![header_chars(raws[0].0)] + us
                            },
                        ),
                    ),
                ),
            },
        }
    }
}

/// Reading a decompressed map file: "SET" and a zero byte, a size, then
/// the segments. `None` when the file makes the reader panic.
pub open spec fn map_result(s: Seq<u8>, files: Seq<ImbzFile>) -> Option<
    Result<(Seq<TopView>, Seq<Seq<char>>), MapDataError>,
> {
    if s.len() < 4 {
        Some(Err(MapDataError::MasterHeaderNotFound))
    } else if !(s[0] == 0x53 && s[1] == 0x45 && s[2] == 0x54) {
        Some(Err(MapDataError::HeaderWasntSet([byte_char(s[0]), byte_char(s[1]), byte_char(s[2])])))
    } else if s.len() < 8 {
        None
    } else {
        match raw_segments(s, 8) {
            None => None,
            Some(raws) => map_fold(raws, files),
        }
    }
}

/// A map read from `s` agrees with `map_result`.
pub open spec fn map_agrees(
    r: Result<MapData, MapDataError>,
    v: Option<Result<(Seq<TopView>, Seq<Seq<char>>), MapDataError>>,
    src_file: Seq<char>,
) -> bool {
    match (r, v) {
        (Err(e), Some(Err(e2))) => e == e2,
        (Ok(m), Some(Ok((segs, us)))) => m@ == (MapView {
            src_file,
            map_name: "ERROR"@,
            segments: segs,
            unhandled: us,
        }),
        _ => false,
    }
}

} // verus!

verus! {

pub open spec fn raw_view(ds: Seq<DataSegment>) -> Seq<(u32, Seq<u8>)> {
    ds.map_values(|d: DataSegment| (d.header, d.internal_data@))
}

/// Splits a decompressed map file into its raw segments.
pub(crate) fn read_raw_segments(s: &[u8]) -> (r: Option<Vec<DataSegment>>)
    requires
        s@.len() >= 8,
    ensures
        r is None <==> raw_segments(s@, 8) is None,
        r matches Some(v) ==> raw_view(v@) == raw_segments(s@, 8)->0,
{
    let mut segments: Vec<DataSegment> = Vec::new();
    let mut pos: usize = 8;
    let ghost mut acc: Seq<(u32, Seq<u8>)> = Seq::empty();
    assert(raw_view(segments@) =~= acc);
    while pos < s.len()
        invariant
            8 <= pos <= s@.len(),
            raw_view(segments@) == acc,
            raw_segments(s@, 8) == (match raw_segments(s@, pos as int) {
                Some(rest) => Some(acc + rest),
                None => None,
            }),
        decreases s@.len() - pos,
    {
        let n = s.len();
        if n - pos < 8 {
            return None;
        }
        let hdr = read_u32(s, pos);
        let size = read_u32(s, pos + 4) as usize;
        if n - pos - 8 < size {
            return None;
        }
        let start = pos + 8;
        let end = start + size;
        let mut body: Vec<u8> = Vec::new();
        let mut i = start;
        while i < end
            invariant
                start <= i <= end <= s@.len(),
                body@ == s@.subrange(start as int, i as int),
            decreases end - i,
        {
            body.push(s[i]);
            i += 1;
            assert(body@ =~= s@.subrange(start as int, i as int));
        }
        let d = DataSegment { header: hdr, internal_data: body };
        proof {
            let item = (hdr, s@.subrange(start as int, end as int));
            match raw_segments(s@, end as int) {
                Some(rest) => {
                    assert(acc + (seq![item] + rest) =~= acc.push(item) + rest);
                },
                None => {},
            }
            assert(raw_view(segments@.push(d)) =~= acc.push(item));
            acc = acc.push(item);
        }
        segments.push(d);
        pos = end;
    }
    assert(acc + Seq::<(u32, Seq<u8>)>::empty() =~= acc);
    Some(segments)
}

/// `r` agrees with `seg_step`.
pub open spec fn step_matches(
    r: Option<Result<Option<TopLevelSegmentWrapper>, MapDataError>>,
    v: Option<Result<Option<TopView>, MapDataError>>,
) -> bool {
    match (r, v) {
        (None, None) => true,
        (Some(Err(e)), Some(Err(e2))) => e == e2,
        (Some(Ok(None)), Some(Ok(None))) => true,
        (Some(Ok(Some(w))), Some(Ok(Some(tv)))) => w@ == tv,
        _ => false,
    }
}

/// Reads one top-level segment.
fn read_top_segment(seg: &DataSegment, files: &Vec<ImbzFile>) -> (r: Option<
    Result<Option<TopLevelSegmentWrapper>, MapDataError>,
>)
    ensures
        step_matches(r, seg_step(seg.header, seg.internal_data@, files@)),
{
    let hdr = seg.header;
    let data = &seg.internal_data;
    if hdr == SCEN_MAGIC {
        match BackgroundData::load(data.as_slice(), files) {
            None => None,
            Some(Err(_)) => Some(Err(MapDataError::FailedGenerateBackground)),
            Some(Ok(bg)) => Some(Ok(Some(TopLevelSegmentWrapper::SCEN(bg)))),
        }
    } else if hdr == SETD_MAGIC {
        match LevelSpriteSet::parse(data) {
            None => None,
            Some(setd) => Some(Ok(Some(TopLevelSegmentWrapper::SETD(setd)))),
        }
    } else if hdr == GRAD_MAGIC {
        if grad_truncated_check(data.as_slice()) {
            return None;
        }
        match GradientData::new(data.as_slice()) {
            None => Some(Ok(None)),
            Some(g) => Some(Ok(Some(TopLevelSegmentWrapper::GRAD(g)))),
        }
    } else if hdr == AREA_MAGIC {
        if data.len() % 8 >= 2 {
            return None;
        }
        Some(Ok(Some(TopLevelSegmentWrapper::AREA(TriggerData::new(data.as_slice())))))
    } else if hdr == PATH_MAGIC {
        match PathDatabase::parse(data) {
            None => None,
            Some(p) => Some(Ok(Some(TopLevelSegmentWrapper::PATH(p)))),
        }
    } else if hdr == ALPH_MAGIC {
        match AlphaData::new(data.as_slice()) {
            None => Some(Ok(None)),
            Some(a) => Some(Ok(Some(TopLevelSegmentWrapper::ALPH(a)))),
        }
    } else if hdr == BLKZ_MAGIC {
        match SoftRockBackdrop::load(data) {
            None => Some(Ok(None)),
            Some(b) => Some(Ok(Some(TopLevelSegmentWrapper::BLKZ(b)))),
        }
    } else if hdr == BRAK_MAGIC {
        Some(Ok(Some(TopLevelSegmentWrapper::BRAK(BrakData::new(data)))))
    } else {
        let body = data.clone();
        assert(body@ =~= data@);
        let name = header_to_string(hdr);
        Some(Ok(Some(TopLevelSegmentWrapper::Unknown(GenericTopLevelSegment::new(body, name)))))
    }
}

impl MapData {
    fn parse(src_file: String, s: &[u8], files: &Vec<ImbzFile>) -> (r: Option<Result<MapData, MapDataError>>)
        ensures
            r is None <==> map_result(s@, files@) is None,
            r matches Some(m) ==> map_agrees(m, map_result(s@, files@), src_file@),
    {
        if s.len() < 4 {
            return Some(Err(MapDataError::MasterHeaderNotFound));
        }
        if !(s[0] == 0x53 && s[1] == 0x45 && s[2] == 0x54) {
            return Some(Err(MapDataError::HeaderWasntSet([s[0] as char, s[1] as char, s[2] as char])));
        }
        if s.len() < 8 {
            return None;
        }
        let raws = match read_raw_segments(s) {
            None => {
                return None;
            },
            Some(v) => v,
        };
        let ghost rv = raw_view(raws@);
        let mut segments: Vec<TopLevelSegmentWrapper> = Vec::new();
        let mut unhandled: Vec<String> = Vec::new();
        let ghost mut acc_v: Seq<TopView> = Seq::empty();
        let ghost mut acc_u: Seq<Seq<char>> = Seq::empty();
        assert(top_views(segments@) =~= acc_v);
        assert(unhandled@.map_values(|h: String| h@) =~= acc_u);
        assert(rv.skip(0) =~= rv);
        let mut i: usize = 0;
        while i < raws.len()
            invariant
                i <= raws@.len(),
                rv == raw_view(raws@),
                map_result(s@, files@) == map_fold(rv, files@),
                top_views(segments@) == acc_v,
                unhandled@.map_values(|h: String| h@) == acc_u,
                map_fold(rv, files@) == (match map_fold(rv.skip(i as int), files@) {
                    None => None,
                    Some(Err(e)) => Some(Err(e)),
                    Some(Ok((vs, us))) => Some(Ok::<(Seq<TopView>, Seq<Seq<char>>), MapDataError>((acc_v + vs, acc_u + us))),
                }),
            decreases raws@.len() - i,
        {
            let seg = &raws[i];
            let ghost item = rv[i as int];
            assert(item == (seg.header, seg.internal_data@));
            assert(rv.skip(i as int)[0] == item);
            assert(rv.skip(i as int).skip(1) =~= rv.skip(i + 1));
            let step = read_top_segment(seg, files);
            match step {
                None => {
                    return None;
                },
                Some(Err(e)) => {
                    return Some(Err(e));
                },
                Some(Ok(o)) => {
                    proof {
                        let ov: Option<TopView> = match &o {
                            Some(w) => Some(w@),
                            None => None,
                        };
                        let nv = match ov {
                            Some(v) => acc_v.push(v),
                            None => acc_v,
                        };
                        let nu = if is_known(seg.header) {
                            acc_u
                        } else {
                            acc_u.push(header_chars(seg.header))
                        };
                        match map_fold(rv.skip(i + 1), files@) {
                            Some(Ok((vs, us))) => {
                                match ov {
                                    Some(v) => {
                                        assert(acc_v + (seq![v] + vs) =~= acc_v.push(v) + vs);
                                    },
                                    None => {},
                                }
                                if !is_known(seg.header) {
                                    assert(acc_u + (seq![header_chars(seg.header)] + us) =~= acc_u.push(header_chars(seg.header)) + us);
                                }
                            },
                            _ => {},
                        }
                    }
                    match o {
                        Some(w) => {
                            let is_unknown = match &w {
                                TopLevelSegmentWrapper::Unknown(_) => true,
                                _ => false,
                            };
                            if is_unknown {
                                let name = header_to_string(seg.header);
                                proof {
                                    assert(unhandled@.push(name).map_values(|h: String| h@) =~= acc_u.push(header_chars(seg.header)));
                                    acc_u = acc_u.push(header_chars(seg.header));
                                }
                                unhandled.push(name);
                            }
                            proof {
                                assert(top_views(segments@.push(w)) =~= acc_v.push(w@));
                                acc_v = acc_v.push(w@);
                            }
                            segments.push(w);
                        },
                        None => {},
                    }
                },
            }
            i += 1;
        }
        proof {
            assert(rv.skip(i as int) =~= Seq::<(u32, Seq<u8>)>::empty());
            assert(acc_v + Seq::<TopView>::empty() =~= acc_v);
            assert(acc_u + Seq::<Seq<char>>::empty() =~= acc_u);
        }
        let m = MapData {
            src_file,
            map_name: String::from_str("ERROR"),
            segments,
            uuid: crate::ids::new_uuid(),
            unhandled_headers: unhandled,
        };
        Some(Ok(m))
    }

    /// Reads a decompressed map file. `imbz_files` holds the external
    /// tile-graphics files that backgrounds may name.
    pub fn from_decomp(src_file: String, s: &[u8], imbz_files: &Vec<ImbzFile>) -> (r: Result<MapData, MapDataError>)
        requires
            map_result(s@, imbz_files@) is Some,
        ensures
            map_agrees(r, map_result(s@, imbz_files@), src_file@),
    {
        match Self::parse(src_file, s, imbz_files) {
            Some(r) => r,
            None => Err(MapDataError::MasterHeaderNotFound),
        }
    }

    /// Reads a compressed map file (the contents of an MPDZ file).
    pub fn new(src_file: String, file_bytes: &[u8], imbz_files: &Vec<ImbzFile>) -> (r: Result<MapData, MapDataError>)
        requires
            map_result(lz10_decompressed(file_bytes@), imbz_files@) is Some,
        ensures
            map_agrees(r, map_result(lz10_decompressed(file_bytes@), imbz_files@), src_file@),
    {
        let decomp = lamezip77_lz10_decomp(file_bytes);
        Self::from_decomp(src_file, decomp.as_slice(), imbz_files)
    }

    /// Reads a compressed map file, or gives `None` for files that `new`
    /// does not accept.
    pub fn load(src_file: String, file_bytes: &[u8], imbz_files: &Vec<ImbzFile>) -> (r: Option<Result<MapData, MapDataError>>)
        ensures
            r is None <==> map_result(lz10_decompressed(file_bytes@), imbz_files@) is None,
            r matches Some(m) ==> map_agrees(m, map_result(lz10_decompressed(file_bytes@), imbz_files@), src_file@),
    {
        let decomp = lamezip77_lz10_decomp(file_bytes);
        Self::parse(src_file, decomp.as_slice(), imbz_files)
    }
}

} // verus!

verus! {

/// The kinds of top-level segments.
#[derive(Debug, Clone, Copy, PartialEq, Eq, Structural)]
pub enum TopKind {
    Setd,
    Scen,
    Grad,
    Area,
    Path,
    Alph,
    Blkz,
    Brak,
    Unknown,
}

pub open spec fn top_kind(w: TopLevelSegmentWrapper) -> TopKind {
    match w {
        TopLevelSegmentWrapper::SETD(_) => TopKind::Setd,
        TopLevelSegmentWrapper::SCEN(_) => TopKind::Scen,
        TopLevelSegmentWrapper::GRAD(_) => TopKind::Grad,
        TopLevelSegmentWrapper::AREA(_) => TopKind::Area,
        TopLevelSegmentWrapper::PATH(_) => TopKind::Path,
        TopLevelSegmentWrapper::ALPH(_) => TopKind::Alph,
        TopLevelSegmentWrapper::BLKZ(_) => TopKind::Blkz,
        TopLevelSegmentWrapper::BRAK(_) => TopKind::Brak,
        TopLevelSegmentWrapper::Unknown(_) => TopKind::Unknown,
    }
}

/// `i` is the position of the first segment of kind `k`.
pub open spec fn is_first_top(ws: Seq<TopLevelSegmentWrapper>, k: TopKind, i: int) -> bool {
    &&& 0 <= i < ws.len()
    &&& top_kind(ws[i]) == k
    &&& forall|j: int| 0 <= j < i ==> top_kind(#[trigger] ws[j]) != k
}

/// The position of the first segment of kind `k`, if there is one.
pub open spec fn first_top(ws: Seq<TopLevelSegmentWrapper>, k: TopKind) -> Option<int> {
    if exists|i: int| is_first_top(ws, k, i) {
        Some(choose|i: int| is_first_top(ws, k, i))
    } else {
        None
    }
}

pub(crate) proof fn lemma_first_top_unique(ws: Seq<TopLevelSegmentWrapper>, k: TopKind, i: int)
    requires
        is_first_top(ws, k, i),
    ensures
        first_top(ws, k) == Some(i),
{
    let c = choose|j: int| is_first_top(ws, k, j);
    assert(is_first_top(ws, k, c));
    if c < i {
        assert(top_kind(ws[c]) != k);
    } else if c > i {
        assert(top_kind(ws[i]) != k);
    }
}

fn kind_of_top(w: &TopLevelSegmentWrapper) -> (r: TopKind)
    ensures
        r == top_kind(*w),
{
    match w {
        TopLevelSegmentWrapper::SETD(_) => TopKind::Setd,
        TopLevelSegmentWrapper::SCEN(_) => TopKind::Scen,
        TopLevelSegmentWrapper::GRAD(_) => TopKind::Grad,
        TopLevelSegmentWrapper::AREA(_) => TopKind::Area,
        TopLevelSegmentWrapper::PATH(_) => TopKind::Path,
        TopLevelSegmentWrapper::ALPH(_) => TopKind::Alph,
        TopLevelSegmentWrapper::BLKZ(_) => TopKind::Blkz,
        TopLevelSegmentWrapper::BRAK(_) => TopKind::Brak,
        TopLevelSegmentWrapper::Unknown(_) => TopKind::Unknown,
    }
}

fn find_top(ws: &Vec<TopLevelSegmentWrapper>, k: TopKind) -> (r: Option<usize>)
    ensures
        match r {
            Some(i) => first_top(ws@, k) == Some(i as int),
            None => first_top(ws@, k) is None,
        },
{
    let mut i: usize = 0;
    while i < ws.len()
        invariant
            i <= ws@.len(),
            forall|j: int| 0 <= j < i ==> top_kind(#[trigger] ws@[j]) != k,
        decreases ws@.len() - i,
    {
        if kind_of_top(&ws[i]) == k {
            proof {
                lemma_first_top_unique(ws@, k, i as int);
            }
            return Some(i);
        }
        i += 1;
    }
    None
}

impl MapData {
    /// The sprite set (SETD) of the map, to change.
    pub fn get_setd(&mut self) -> (r: Option<&mut LevelSpriteSet>)
        ensures
            r is Some <==> first_top(old(self).segments@, TopKind::Setd) is Some,
            r matches Some(m) ==> {
                let i = first_top(old(self).segments@, TopKind::Setd)->0;
                &&& old(self).segments@[i] == TopLevelSegmentWrapper::SETD(*m)
                &&& final(self).segments@ == old(self).segments@.update(i, TopLevelSegmentWrapper::SETD(*final(m)))
                &&& final(self).src_file == old(self).src_file
                &&& final(self).map_name == old(self).map_name
                &&& final(self).uuid == old(self).uuid
                &&& final(self).unhandled_headers == old(self).unhandled_headers
            },
            r is None ==> *final(self) == *old(self),
    {
        match find_top(&self.segments, TopKind::Setd) {
            Some(i) => match &mut self.segments[i] {
                TopLevelSegmentWrapper::SETD(m) => Some(m),
                _ => None,
            },
            None => None,
        }
    }

    /// The gradient (GRAD) of the map, to change.
    pub fn get_grad(&mut self) -> (r: Option<&mut GradientData>)
        ensures
            r is Some <==> first_top(old(self).segments@, TopKind::Grad) is Some,
            r matches Some(m) ==> {
                let i = first_top(old(self).segments@, TopKind::Grad)->0;
                &&& old(self).segments@[i] == TopLevelSegmentWrapper::GRAD(*m)
                &&& final(self).segments@ == old(self).segments@.update(i, TopLevelSegmentWrapper::GRAD(*final(m)))
                &&& final(self).src_file == old(self).src_file
                &&& final(self).map_name == old(self).map_name
                &&& final(self).uuid == old(self).uuid
                &&& final(self).unhandled_headers == old(self).unhandled_headers
            },
            r is None ==> *final(self) == *old(self),
    {
        match find_top(&self.segments, TopKind::Grad) {
            Some(i) => match &mut self.segments[i] {
                TopLevelSegmentWrapper::GRAD(m) => Some(m),
                _ => None,
            },
            None => None,
        }
    }

    /// The paths (PATH) of the map, to change.
    pub fn get_path(&mut self) -> (r: Option<&mut PathDatabase>)
        ensures
            r is Some <==> first_top(old(self).segments@, TopKind::Path) is Some,
            r matches Some(m) ==> {
                let i = first_top(old(self).segments@, TopKind::Path)->0;
                &&& old(self).segments@[i] == TopLevelSegmentWrapper::PATH(*m)
                &&& final(self).segments@ == old(self).segments@.update(i, TopLevelSegmentWrapper::PATH(*final(m)))
                &&& final(self).src_file == old(self).src_file
                &&& final(self).map_name == old(self).map_name
                &&& final(self).uuid == old(self).uuid
                &&& final(self).unhandled_headers == old(self).unhandled_headers
            },
            r is None ==> *final(self) == *old(self),
    {
        match find_top(&self.segments, TopKind::Path) {
            Some(i) => match &mut self.segments[i] {
                TopLevelSegmentWrapper::PATH(m) => Some(m),
                _ => None,
            },
            None => None,
        }
    }

    /// The triggers (AREA) of the map, to change.
    pub fn get_area_mut(&mut self) -> (r: Option<&mut TriggerData>)
        ensures
            r is Some <==> first_top(old(self).segments@, TopKind::Area) is Some,
            r matches Some(m) ==> {
                let i = first_top(old(self).segments@, TopKind::Area)->0;
                &&& old(self).segments@[i] == TopLevelSegmentWrapper::AREA(*m)
                &&& final(self).segments@ == old(self).segments@.update(i, TopLevelSegmentWrapper::AREA(*final(m)))
                &&& final(self).src_file == old(self).src_file
                &&& final(self).map_name == old(self).map_name
                &&& final(self).uuid == old(self).uuid
                &&& final(self).unhandled_headers == old(self).unhandled_headers
            },
            r is None ==> *final(self) == *old(self),
    {
        match find_top(&self.segments, TopKind::Area) {
            Some(i) => match &mut self.segments[i] {
                TopLevelSegmentWrapper::AREA(m) => Some(m),
                _ => None,
            },
            None => None,
        }
    }

    /// The triggers (AREA) of the map.
    pub fn get_area(&self) -> (r: Option<&TriggerData>)
        ensures
            match r {
                Some(m) => first_top(self.segments@, TopKind::Area) matches Some(i)
                    && self.segments@[i] == TopLevelSegmentWrapper::AREA(*m),
                None => first_top(self.segments@, TopKind::Area) is None,
            },
    {
        match find_top(&self.segments, TopKind::Area) {
            Some(i) => match &self.segments[i] {
                TopLevelSegmentWrapper::AREA(m) => Some(m),
                _ => None,
            },
            None => None,
        }
    }

    /// The soft-rock backdrop (BLKZ) of the map.
    pub fn get_blkz(&self) -> (r: Option<&SoftRockBackdrop>)
        ensures
            match r {
                Some(m) => first_top(self.segments@, TopKind::Blkz) matches Some(i)
                    && self.segments@[i] == TopLevelSegmentWrapper::BLKZ(*m),
                None => first_top(self.segments@, TopKind::Blkz) is None,
            },
    {
        match find_top(&self.segments, TopKind::Blkz) {
            Some(i) => match &self.segments[i] {
                TopLevelSegmentWrapper::BLKZ(m) => Some(m),
                _ => None,
            },
            None => None,
        }
    }
}

} // verus!

verus! {

/// The hardware background of a background segment: the one its first
/// INFO names, if it has an INFO.
pub open spec fn scen_which_bg(w: TopLevelSegmentWrapper) -> Option<u8> {
    match w {
        TopLevelSegmentWrapper::SCEN(bg) => match first_of(bg@.segs, SegKind::Info) {
            Some(i) => Some(bg@.segs[i]->Info_0.which_bg),
            None => None,
        },
        _ => None,
    }
}

/// A background segment without INFO, which stops a search by background.
pub open spec fn scen_lacks_info(w: TopLevelSegmentWrapper) -> bool {
    w is SCEN && scen_which_bg(w) is None
}

/// The first position satisfying `p`.
pub open spec fn is_first_sat(ws: Seq<TopLevelSegmentWrapper>, p: spec_fn(TopLevelSegmentWrapper) -> bool, i: int) -> bool {
    &&& 0 <= i < ws.len()
    &&& p(ws[i])
    &&& forall|j: int| 0 <= j < i ==> !p(#[trigger] ws[j])
}

pub open spec fn first_sat(ws: Seq<TopLevelSegmentWrapper>, p: spec_fn(TopLevelSegmentWrapper) -> bool) -> Option<int> {
    if exists|i: int| is_first_sat(ws, p, i) {
        Some(choose|i: int| is_first_sat(ws, p, i))
    } else {
        None
    }
}

proof fn lemma_first_sat_unique(ws: Seq<TopLevelSegmentWrapper>, p: spec_fn(TopLevelSegmentWrapper) -> bool, i: int)
    requires
        is_first_sat(ws, p, i),
    ensures
        first_sat(ws, p) == Some(i),
{
    let c = choose|j: int| is_first_sat(ws, p, j);
    assert(is_first_sat(ws, p, c));
    if c < i {
        assert(!p(ws[c]));
    } else if c > i {
        assert(!p(ws[i]));
    }
}

/// The search by background meets a segment that names it or lacks INFO.
pub open spec fn bg_stop(which: u8) -> spec_fn(TopLevelSegmentWrapper) -> bool {
    |w: TopLevelSegmentWrapper| scen_which_bg(w) == Some(which) || scen_lacks_info(w)
}

/// The search by background does not fail on a background segment without
/// INFO.
pub open spec fn bg_search_ok(ws: Seq<TopLevelSegmentWrapper>, which: u8) -> bool {
    first_sat(ws, bg_stop(which)) matches Some(i) ==> !scen_lacks_info(ws[i])
}

/// The background segment with a colour-collision (COLZ) sub-segment.
pub open spec fn has_colz() -> spec_fn(TopLevelSegmentWrapper) -> bool {
    |w: TopLevelSegmentWrapper| w is SCEN && first_of(w->SCEN_0@.segs, SegKind::Colz) is Some
}

/// The sub-segments wrapped one after the other.
pub open spec fn top_wraps(ws: Seq<TopLevelSegmentWrapper>) -> Seq<u8>
    decreases ws.len(),
{
    if ws.len() == 0 {
        Seq::empty()
    } else {
        top_wraps(ws.drop_last()) + ws.last().spec_wrap()
    }
}

impl MapData {
    /// The background segment whose INFO names hardware background
    /// `which_background`, to change.
    pub fn get_background(&mut self, which_background: u8) -> (r: Option<&mut BackgroundData>)
        requires
            bg_search_ok(old(self).segments@, which_background),
        ensures
            r is Some <==> first_sat(old(self).segments@, bg_stop(which_background)) is Some,
            r matches Some(m) ==> {
                let i = first_sat(old(self).segments@, bg_stop(which_background))->0;
                &&& old(self).segments@[i] == TopLevelSegmentWrapper::SCEN(*m)
                &&& scen_which_bg(old(self).segments@[i]) == Some(which_background)
                &&& final(self).segments@ == old(self).segments@.update(i, TopLevelSegmentWrapper::SCEN(*final(m)))
                &&& final(self).src_file == old(self).src_file
                &&& final(self).map_name == old(self).map_name
                &&& final(self).uuid == old(self).uuid
                &&& final(self).unhandled_headers == old(self).unhandled_headers
            },
            r is None ==> *final(self) == *old(self),
    {
        let ghost p = bg_stop(which_background);
        let mut i: usize = 0;
        let mut found = false;
        while i < self.segments.len() && !found
            invariant
                i <= self.segments@.len(),
                p == bg_stop(which_background),
                bg_search_ok(self.segments@, which_background),
                found ==> i < self.segments@.len() && first_sat(self.segments@, p) == Some(i as int),
                !found ==> forall|j: int| 0 <= j < i ==> !p(#[trigger] self.segments@[j]),
            decreases self.segments@.len() - i, (if found { 0int } else { 1int }),
        {
            let stop = match &self.segments[i] {
                TopLevelSegmentWrapper::SCEN(scen) => match scen.get_info() {
                    Some(info) => info.which_bg == which_background,
                    None => true,
                },
                _ => false,
            };
            if stop {
                proof {
                    assert(p(self.segments@[i as int]));
                    lemma_first_sat_unique(self.segments@, p, i as int);
                }
                found = true;
            } else {
                i += 1;
            }
        }
        if !found {
            return None;
        }
        match &mut self.segments[i] {
            TopLevelSegmentWrapper::SCEN(m) => Some(m),
            _ => None,
        }
    }

    /// Which hardware background holds the map's collision: that of the
    /// first background segment with a COLZ sub-segment.
    pub fn get_bg_with_colz(&self) -> (r: Option<u8>)
        requires
            first_sat(self.segments@, has_colz()) matches Some(i) ==> !scen_lacks_info(self.segments@[i]),
        ensures
            r == match first_sat(self.segments@, has_colz()) {
                Some(i) => scen_which_bg(self.segments@[i]),
                None => None,
            },
    {
        let ghost p = has_colz();
        let mut i: usize = 0;
        while i < self.segments.len()
            invariant
                i <= self.segments@.len(),
                p == has_colz(),
                forall|j: int| 0 <= j < i ==> !p(#[trigger] self.segments@[j]),
            decreases self.segments@.len() - i,
        {
            match &self.segments[i] {
                TopLevelSegmentWrapper::SCEN(scen) => {
                    if scen.get_colz().is_some() {
                        proof {
                            assert(p(self.segments@[i as int]));
                            lemma_first_sat_unique(self.segments@, p, i as int);
                        }
                        return match scen.get_info() {
                            Some(info) => Some(info.which_bg),
                            None => None,
                        };
                    }
                },
                _ => {},
            }
            i += 1;
        }
        None
    }

    /// The segments wrapped one after the other, without the file header.
    pub fn compile(&self) -> (r: Vec<u8>)
        requires
            forall|i: int| 0 <= i < self.segments@.len() ==> (#[trigger] self.segments@[i]).can_compile(),
        ensures
            r@ == top_wraps(self.segments@),
    {
        let mut compiled: Vec<u8> = Vec::new();
        let mut i: usize = 0;
        while i < self.segments.len()
            invariant
                i <= self.segments@.len(),
                forall|j: int| 0 <= j < self.segments@.len() ==> (#[trigger] self.segments@[j]).can_compile(),
                compiled@ == top_wraps(self.segments@.take(i as int)),
            decreases self.segments@.len() - i,
        {
            let w = self.segments[i].wrap();
            assert(self.segments@.take(i + 1).drop_last() =~= self.segments@.take(i as int));
            crate::bytes::push_all(&mut compiled, w.as_slice());
            i += 1;
        }
        assert(self.segments@.take(i as int) =~= self.segments@);
        compiled
    }

    /// The map file: the compiled segments wrapped under "SET" and
    /// compressed as a whole.
    pub fn package(&self) -> (r: Vec<u8>)
        requires
            forall|i: int| 0 <= i < self.segments@.len() ==> (#[trigger] self.segments@[i]).can_compile(),
        ensures
            r@ == lz10_compressed(wrapped_segment_u32(top_wraps(self.segments@), SET_MAGIC)),
            wrapped_segment_u32(top_wraps(self.segments@), SET_MAGIC).len() < 0x1000000 ==> lz10_decompressed(r@)
                == wrapped_segment_u32(top_wraps(self.segments@), SET_MAGIC),
    {
        let interior = self.compile();
        let wrapped = segment_wrap_u32(&interior, SET_MAGIC);
        lamezip77_lz10_recomp(&wrapped)
    }
}

} // verus!

verus! {

/// The sprite with the identifier moved to `(x, y)`; others unchanged.
pub open spec fn moved_sprite(s: LevelSprite, uuid: u128, x: u16, y: u16) -> LevelSprite {
    if s.uuid == uuid {
        LevelSprite { x_position: x, y_position: y, ..s }
    } else {
        s
    }
}

/// `i` is the position of the first sprite with the identifier.
pub open spec fn is_first_sprite(ss: Seq<LevelSprite>, uuid: u128, i: int) -> bool {
    &&& 0 <= i < ss.len()
    &&& ss[i].uuid == uuid
    &&& forall|j: int| 0 <= j < i ==> (#[trigger] ss[j]).uuid != uuid
}

pub open spec fn first_sprite(ss: Seq<LevelSprite>, uuid: u128) -> Option<int> {
    if exists|i: int| is_first_sprite(ss, uuid, i) {
        Some(choose|i: int| is_first_sprite(ss, uuid, i))
    } else {
        None
    }
}

proof fn lemma_first_sprite_unique(ss: Seq<LevelSprite>, uuid: u128, i: int)
    requires
        is_first_sprite(ss, uuid, i),
    ensures
        first_sprite(ss, uuid) == Some(i),
{
    let c = choose|j: int| is_first_sprite(ss, uuid, j);
    assert(is_first_sprite(ss, uuid, c));
    if c < i {
        assert(ss[c].uuid != uuid);
    } else if c > i {
        assert(ss[i].uuid != uuid);
    }
}

pub(crate) fn find_sprite(ss: &Vec<LevelSprite>, uuid: u128) -> (r: Option<usize>)
    ensures
        match r {
            Some(i) => first_sprite(ss@, uuid) == Some(i as int),
            None => first_sprite(ss@, uuid) is None,
        },
{
    let mut i: usize = 0;
    while i < ss.len()
        invariant
            i <= ss@.len(),
            forall|j: int| 0 <= j < i ==> (#[trigger] ss@[j]).uuid != uuid,
        decreases ss@.len() - i,
    {
        if ss[i].uuid == uuid {
            proof {
                lemma_first_sprite_unique(ss@, uuid, i as int);
            }
            return Some(i);
        }
        i += 1;
    }
    None
}

fn move_matching(ss: &mut Vec<LevelSprite>, uuid: u128, x: u16, y: u16)
    ensures
        final(ss)@ == old(ss)@.map_values(|s: LevelSprite| moved_sprite(s, uuid, x, y)),
{
    let ghost start = ss@;
    let mut i: usize = 0;
    while i < ss.len()
        invariant
            i <= ss@.len(),
            ss@.len() == start.len(),
            forall|j: int| 0 <= j < i ==> (#[trigger] ss@[j]) == moved_sprite(start[j], uuid, x, y),
            forall|j: int| i <= j < ss@.len() ==> (#[trigger] ss@[j]) == start[j],
        decreases ss@.len() - i,
    {
        if ss[i].uuid == uuid {
            let s = &mut ss[i];
            s.x_position = x;
            s.y_position = y;
        }
        i += 1;
    }
    assert(ss@ =~= start.map_values(|s: LevelSprite| moved_sprite(s, uuid, x, y)));
}

/// A copy of a sprite, field by field.
pub(crate) fn copy_sprite(s: &LevelSprite) -> (r: LevelSprite)
    ensures
        r@ == s@,
        r.uuid == s.uuid,
{
    let settings = s.settings.clone();
    assert(settings@ =~= s.settings@);
    LevelSprite {
        object_id: s.object_id,
        settings_length: s.settings_length,
        x_position: s.x_position,
        y_position: s.y_position,
        settings,
        uuid: s.uuid,
    }
}

/// The sprite set of a map: that of its first SETD segment.
pub open spec fn setd_sprites(ws: Seq<TopLevelSegmentWrapper>) -> Seq<LevelSprite> {
    ws[first_top(ws, TopKind::Setd)->0]->SETD_0.sprites@
}

/// The map's segments and fields are as they were.
pub open spec fn map_unchanged(old: MapData, new: MapData) -> bool {
    &&& new.segments@ == old.segments@
    &&& new.src_file == old.src_file
    &&& new.map_name == old.map_name
    &&& new.uuid == old.uuid
    &&& new.unhandled_headers == old.unhandled_headers
}

/// `new` is `old` with only the first SETD segment changed, to one whose
/// sprites are `sprites`.
pub open spec fn setd_replaced(old: MapData, new: MapData, sprites: Seq<LevelSprite>) -> bool {
    let k = first_top(old.segments@, TopKind::Setd)->0;
    &&& new.segments@ == old.segments@.update(k, new.segments@[k])
    &&& new.segments@[k] is SETD
    &&& new.segments@[k]->SETD_0.sprites@ == sprites
    &&& new.src_file == old.src_file
    &&& new.map_name == old.map_name
    &&& new.uuid == old.uuid
    &&& new.unhandled_headers == old.unhandled_headers
}

impl MapData {
    /// Moves every sprite with the identifier to `(new_x, new_y)`.
    pub fn move_sprite(&mut self, sprite_uuid: u128, new_x: u16, new_y: u16)
        requires
            first_top(old(self).segments@, TopKind::Setd) is Some,
        ensures
            setd_replaced(
                *old(self),
                *final(self),
                setd_sprites(old(self).segments@).map_values(|s: LevelSprite| moved_sprite(s, sprite_uuid, new_x, new_y)),
            ),
    {
        match self.get_setd() {
            Some(set) => move_matching(&mut set.sprites, sprite_uuid, new_x, new_y),
            None => {},
        }
    }

    /// Gives the first sprite with the identifier new settings, when they
    /// have its settings length; otherwise nothing changes.
    pub fn update_sprite_settings(&mut self, sprite_uuid: u128, new_settings: Vec<u8>)
        requires
            first_top(old(self).segments@, TopKind::Setd) is Some,
        ensures
            ({
                let ss = setd_sprites(old(self).segments@);
                match first_sprite(ss, sprite_uuid) {
                    Some(i) => if ss[i].settings_length == new_settings@.len() {
                        setd_replaced(*old(self), *final(self), ss.update(i, LevelSprite { settings: new_settings, ..ss[i] }))
                    } else {
                        map_unchanged(*old(self), *final(self))
                    },
                    None => map_unchanged(*old(self), *final(self)),
                }
            }),
    {
        let ghost old_segs = self.segments@;
        let ghost k = first_top(old_segs, TopKind::Setd)->0;
        proof {
            assert(old_segs.update(k, old_segs[k]) =~= old_segs);
        }
        match self.get_setd() {
            Some(set) => {
                match find_sprite(&set.sprites, sprite_uuid) {
                    Some(i) => {
                        if set.sprites[i].settings_length as usize != new_settings.len() {
                            return;
                        }
                        let s = &mut set.sprites[i];
                        s.settings = new_settings;
                    },
                    None => {},
                }
            },
            None => {},
        }
    }

    /// Adds a sprite to the map's sprite set and gives its identifier.
    pub fn add_sprite(&mut self, sprite: LevelSprite) -> (r: u128)
        requires
            first_top(old(self).segments@, TopKind::Setd) is Some,
        ensures
            r == sprite.uuid,
            setd_replaced(*old(self), *final(self), setd_sprites(old(self).segments@).push(sprite)),
    {
        let uuid = sprite.uuid;
        match self.get_setd() {
            Some(set) => set.sprites.push(sprite),
            None => {},
        }
        uuid
    }

    /// Places a new sprite of type `sprite_id` at `(x, y)` with zeroed
    /// default settings from `metadata`, and gives its identifier. Without
    /// a sprite set or metadata for the type nothing changes and the nil
    /// identifier is given.
    pub fn add_new_sprite_at(
        &mut self,
        sprite_id: u16,
        x: u16,
        y: u16,
        metadata: &std::collections::HashMap<u16, SpriteMetadata>,
    ) -> (r: u128)
        ensures
            first_top(old(self).segments@, TopKind::Setd) is None || !metadata@.contains_key(sprite_id) ==> r == 0
                && *final(self) == *old(self),
            first_top(old(self).segments@, TopKind::Setd) is Some && metadata@.contains_key(sprite_id) ==> {
                let k = first_top(old(self).segments@, TopKind::Setd)->0;
                let ss = final(self).segments@[k]->SETD_0.sprites@;
                let n = setd_sprites(old(self).segments@).len();
                &&& setd_replaced(*old(self), *final(self), ss)
                &&& ss.len() == n + 1
                &&& ss.take(n as int) == setd_sprites(old(self).segments@)
                &&& ss[n as int]@ == (crate::sprites::SpriteView {
                    object_id: sprite_id,
                    settings_length: metadata@[sprite_id].default_settings_len,
                    x_position: x,
                    y_position: y,
                    settings: Seq::new(metadata@[sprite_id].default_settings_len as nat, |i: int| 0u8),
                })
                &&& ss[n as int].uuid == r
                &&& r != 0
            },
    {
        broadcast use vstd::std_specs::hash::group_hash_axioms;
        if find_top(&self.segments, TopKind::Setd).is_none() {
            return 0;
        }
        let len = match metadata.get(&sprite_id) {
            Some(meta) => meta.default_settings_len,
            None => {
                return 0;
            },
        };
        let mut settings: Vec<u8> = Vec::new();
        let mut i: u16 = 0;
        while i < len
            invariant
                i <= len,
                settings@ == Seq::new(i as nat, |k: int| 0u8),
            decreases len - i,
        {
            settings.push(0);
            i += 1;
            assert(settings@ =~= Seq::new(i as nat, |k: int| 0u8));
        }
        let new_sprite = LevelSprite::new(sprite_id, x, y, settings);
        let ret = new_sprite.uuid;
        let ghost old_ss = setd_sprites(self.segments@);
        match self.get_setd() {
            Some(set) => {
                set.sprites.push(new_sprite);
            },
            None => {},
        }
        proof {
            let k = first_top(old(self).segments@, TopKind::Setd)->0;
            let ss = self.segments@[k]->SETD_0.sprites@;
            assert(ss.take(old_ss.len() as int) =~= old_ss);
        }
        ret
    }

    /// A copy of the first sprite with the identifier.
    pub fn get_sprite_by_uuid(&mut self, sprite_uuid: u128) -> (r: Option<LevelSprite>)
        requires
            first_top(old(self).segments@, TopKind::Setd) is Some,
        ensures
            *final(self) == *old(self),
            match first_sprite(setd_sprites(old(self).segments@), sprite_uuid) {
                Some(i) => r matches Some(x) && x@ == setd_sprites(old(self).segments@)[i]@ && x.uuid == sprite_uuid,
                None => r is None,
            },
    {
        match find_top(&self.segments, TopKind::Setd) {
            Some(k) => match &self.segments[k] {
                TopLevelSegmentWrapper::SETD(set) => match find_sprite(&set.sprites, sprite_uuid) {
                    Some(i) => Some(copy_sprite(&set.sprites[i])),
                    None => None,
                },
                _ => None,
            },
            None => None,
        }
    }

    /// Removes the first sprite with the identifier; `false` when there is
    /// none.
    pub fn delete_sprite_by_uuid(&mut self, sprite_uuid: u128) -> (r: bool)
        requires
            first_top(old(self).segments@, TopKind::Setd) is Some,
        ensures
            ({
                let ss = setd_sprites(old(self).segments@);
                match first_sprite(ss, sprite_uuid) {
                    Some(i) => r && setd_replaced(*old(self), *final(self), ss.remove(i)),
                    None => !r && map_unchanged(*old(self), *final(self)),
                }
            }),
    {
        let ghost old_segs = self.segments@;
        let ghost k = first_top(old_segs, TopKind::Setd)->0;
        proof {
            assert(old_segs.update(k, old_segs[k]) =~= old_segs);
        }
        match self.get_setd() {
            Some(set) => match find_sprite(&set.sprites, sprite_uuid) {
                Some(i) => {
                    set.sprites.remove(i);
                    true
                },
                None => false,
            },
            None => false,
        }
    }
}

} // verus!

verus! {

/// The background segment a search by hardware background finds.
pub open spec fn found_bg(ws: Seq<TopLevelSegmentWrapper>, which: u8) -> BackgroundData {
    ws[first_sat(ws, bg_stop(which))->0]->SCEN_0
}

/// `new` is `old` with only the background segment found for `which`
/// changed, to one whose value is `v`.
pub open spec fn bg_replaced(old: MapData, new: MapData, which: u8, v: BackgroundView) -> bool {
    let i = first_sat(old.segments@, bg_stop(which))->0;
    &&& new.segments@ == old.segments@.update(i, new.segments@[i])
    &&& new.segments@[i] is SCEN
    &&& new.segments@[i]->SCEN_0@ == v
    &&& new.src_file == old.src_file
    &&& new.map_name == old.map_name
    &&& new.uuid == old.uuid
    &&& new.unhandled_headers == old.unhandled_headers
}

/// A background value with its first sub-segment of kind `k` replaced.
pub open spec fn with_sub(bv: BackgroundView, k: SegKind, sub: ScenView) -> BackgroundView {
    BackgroundView { segs: bv.segs.update(first_of(bv.segs, k)->0, sub), ..bv }
}

pub open spec fn valid_bg_number(which: u8) -> bool {
    1 <= which <= 3
}

impl MapData {
    /// Sets one collision block of the background `which_background` (1 to
    /// 3); `false` when there is no such background or it has no collision.
    pub fn set_col_tile(&mut self, which_background: u8, tile_index: u16, new_type: u8) -> (r: bool)
        requires
            valid_bg_number(which_background) ==> bg_search_ok(old(self).segments@, which_background),
            valid_bg_number(which_background) && first_sat(old(self).segments@, bg_stop(which_background)) is Some
                ==> (first_of(found_bg(old(self).segments@, which_background)@.segs, SegKind::Colz) matches Some(c)
                ==> tile_index < found_bg(old(self).segments@, which_background)@.segs[c]->Colz_0.len()),
        ensures
            ({
                let bgv = found_bg(old(self).segments@, which_background)@;
                if valid_bg_number(which_background) && first_sat(old(self).segments@, bg_stop(which_background)) is Some
                    && first_of(bgv.segs, SegKind::Colz) is Some {
                    let c = first_of(bgv.segs, SegKind::Colz)->0;
                    r && bg_replaced(
                        *old(self),
                        *final(self),
                        which_background,
                        with_sub(bgv, SegKind::Colz, ScenView::Colz(bgv.segs[c]->Colz_0.update(tile_index as int, new_type))),
                    )
                } else {
                    !r && map_unchanged(*old(self), *final(self))
                }
            }),
    {
        if which_background < 1 || which_background > 3 {
            return false;
        }
        let ghost old_segs = self.segments@;
        let ghost i = first_sat(old_segs, bg_stop(which_background))->0;
        proof {
            if first_sat(old_segs, bg_stop(which_background)) is Some {
                assert(old_segs.update(i, old_segs[i]) =~= old_segs);
            }
        }
        match self.get_background(which_background) {
            None => false,
            Some(bg) => {
                let ghost old_bg = *bg;
                proof {
                    if let Some(c) = first_of(old_bg@.segs, SegKind::Colz) {
                        assert(old_bg.scen_segments@.update(c, old_bg.scen_segments@[c]) =~= old_bg.scen_segments@);
                    }
                }
                match bg.get_colz_mut() {
                    Some(col) => {
                        col.col_tiles.set(tile_index as usize, new_type);
                        proof {
                            let c = first_of(old_bg@.segs, SegKind::Colz)->0;
                            crate::background::lemma_view_update(old_bg.scen_segments@, c, crate::scen::ScenSegmentWrapper::COLZ(*col));
                        }
                        true
                    },
                    None => false,
                }
            },
        }
    }

    /// Clears one map entry of the background `which_background` (1 to 3).
    /// `false` when there is no such background or the index is not within
    /// the map; a background without map data is left as it is.
    pub fn delete_bg_tile_by_map_index(&mut self, which_background: u8, map_index: u32) -> (r: bool)
        requires
            valid_bg_number(which_background) ==> bg_search_ok(old(self).segments@, which_background),
        ensures
            ({
                let bgv = found_bg(old(self).segments@, which_background)@;
                if !valid_bg_number(which_background) || first_sat(old(self).segments@, bg_stop(which_background)) is None {
                    !r && map_unchanged(*old(self), *final(self))
                } else {
                    match first_of(bgv.segs, SegKind::Mpbz) {
                        None => r && map_unchanged(*old(self), *final(self)),
                        Some(m) => {
                            let mv = bgv.segs[m]->Mpbz_0;
                            if map_index >= mv.tiles.len() {
                                !r && map_unchanged(*old(self), *final(self))
                            } else {
                                r && bg_replaced(
                                    *old(self),
                                    *final(self),
                                    which_background,
                                    with_sub(
                                        bgv,
                                        SegKind::Mpbz,
                                        ScenView::Mpbz(
                                            crate::scen::mpbz::MpbzView {
                                                tiles: mv.tiles.update(map_index as int, crate::types::tile_record_of(0)),
                                                ..mv
                                            },
                                        ),
                                    ),
                                )
                            }
                        },
                    }
                }
            }),
    {
        if which_background < 1 || which_background > 3 {
            return false;
        }
        let ghost old_segs = self.segments@;
        let ghost i = first_sat(old_segs, bg_stop(which_background))->0;
        proof {
            if first_sat(old_segs, bg_stop(which_background)) is Some {
                assert(old_segs.update(i, old_segs[i]) =~= old_segs);
            }
        }
        match self.get_background(which_background) {
            None => false,
            Some(bg) => {
                let ghost old_bg = *bg;
                proof {
                    if let Some(c) = first_of(old_bg@.segs, SegKind::Mpbz) {
                        assert(old_bg.scen_segments@.update(c, old_bg.scen_segments@[c]) =~= old_bg.scen_segments@);
                    }
                }
                let len_opt: Option<usize> = match bg.get_mpbz() {
                    Some(m) => Some(m.tiles.len()),
                    None => None,
                };
                match len_opt {
                    None => true,
                    Some(len) => {
                        if map_index as usize >= len {
                            return false;
                        }
                        match bg.get_mpbz_mut() {
                            Some(tiles_segment) => {
                                let empty = crate::types::MapTileRecordData::new(0);
                                tiles_segment.tiles.set(map_index as usize, empty);
                                proof {
                                    let c = first_of(old_bg@.segs, SegKind::Mpbz)->0;
                                    crate::background::lemma_view_update(old_bg.scen_segments@, c, crate::scen::ScenSegmentWrapper::MPBZ(*tiles_segment));
                                }
                                true
                            },
                            None => true,
                        }
                    },
                }
            },
        }
    }

    /// Places the tile encoded by the 16-bit entry `tile` in one map entry
    /// of the background `which_background` (1 to 3). `false` when there is
    /// no such background, it has no map data, or the index is past the end.
    pub fn place_bg_tile_at_map_index(&mut self, which_background: u8, map_index: u32, tile: u16) -> (r: bool)
        requires
            valid_bg_number(which_background) ==> bg_search_ok(old(self).segments@, which_background),
        ensures
            ({
                let bgv = found_bg(old(self).segments@, which_background)@;
                if !valid_bg_number(which_background) || first_sat(old(self).segments@, bg_stop(which_background)) is None {
                    !r && map_unchanged(*old(self), *final(self))
                } else {
                    match first_of(bgv.segs, SegKind::Mpbz) {
                        None => !r && map_unchanged(*old(self), *final(self)),
                        Some(m) => {
                            let mv = bgv.segs[m]->Mpbz_0;
                            if map_index >= mv.tiles.len() {
                                !r && map_unchanged(*old(self), *final(self))
                            } else {
                                r && bg_replaced(
                                    *old(self),
                                    *final(self),
                                    which_background,
                                    with_sub(
                                        bgv,
                                        SegKind::Mpbz,
                                        ScenView::Mpbz(
                                            crate::scen::mpbz::MpbzView {
                                                tiles: mv.tiles.update(map_index as int, crate::types::tile_record_of(tile)),
                                                ..mv
                                            },
                                        ),
                                    ),
                                )
                            }
                        },
                    }
                }
            }),
    {
        if which_background < 1 || which_background > 3 {
            return false;
        }
        let ghost old_segs = self.segments@;
        let ghost i = first_sat(old_segs, bg_stop(which_background))->0;
        proof {
            if first_sat(old_segs, bg_stop(which_background)) is Some {
                assert(old_segs.update(i, old_segs[i]) =~= old_segs);
            }
        }
        match self.get_background(which_background) {
            None => false,
            Some(bg) => {
                let ghost old_bg = *bg;
                proof {
                    if let Some(c) = first_of(old_bg@.segs, SegKind::Mpbz) {
                        assert(old_bg.scen_segments@.update(c, old_bg.scen_segments@[c]) =~= old_bg.scen_segments@);
                    }
                }
                let len_opt: Option<usize> = match bg.get_mpbz() {
                    Some(m) => Some(m.tiles.len()),
                    None => None,
                };
                match len_opt {
                    None => false,
                    Some(len) => {
                        if map_index as usize >= len {
                            return false;
                        }
                        match bg.get_mpbz_mut() {
                            Some(tiles_segment) => {
                                tiles_segment.tiles.set(map_index as usize, crate::types::MapTileRecordData::new(tile));
                                proof {
                                    let c = first_of(old_bg@.segs, SegKind::Mpbz)->0;
                                    crate::background::lemma_view_update(old_bg.scen_segments@, c, crate::scen::ScenSegmentWrapper::MPBZ(*tiles_segment));
                                }
                                true
                            },
                            None => false,
                        }
                    },
                }
            },
        }
    }
}

} // verus!

verus! {

/// Whether a top-level segment can be compiled.
fn segment_compilable(w: &TopLevelSegmentWrapper) -> (r: bool)
    ensures
        r == w.can_compile(),
{
    match w {
        TopLevelSegmentWrapper::SCEN(bg) => bg.can_compile_check(),
        TopLevelSegmentWrapper::GRAD(g) => g.color_count < 0x8000 && g.color_shorts.len() <= usize::MAX / 2,
        _ => true,
    }
}

impl MapData {
    /// Whether every segment can be compiled, as `compile` and `package`
    /// need.
    pub fn can_package(&self) -> (r: bool)
        ensures
            r == forall|i: int| 0 <= i < self.segments@.len() ==> (#[trigger] self.segments@[i]).can_compile(),
    {
        let mut i: usize = 0;
        while i < self.segments.len()
            invariant
                i <= self.segments@.len(),
                forall|k: int| 0 <= k < i ==> (#[trigger] self.segments@[k]).can_compile(),
            decreases self.segments@.len() - i,
        {
            if !segment_compilable(&self.segments[i]) {
                return false;
            }
            i += 1;
        }
        true
    }
}

} // verus!

verus! {

/// Deleting a sprite just added by its identifier gives the sprite set
/// back, when no sprite already had that identifier.
pub proof fn law_delete_undoes_add_sprite(ss: Seq<LevelSprite>, sprite: LevelSprite)
    requires
        forall|i: int| 0 <= i < ss.len() ==> (#[trigger] ss[i]).uuid != sprite.uuid,
    ensures
        first_sprite(ss.push(sprite), sprite.uuid) == Some(ss.len() as int),
        ss.push(sprite).remove(ss.len() as int) == ss,
{
    let t = ss.push(sprite);
    assert forall|j: int| 0 <= j < ss.len() implies (#[trigger] t[j]).uuid != sprite.uuid by {
        assert(t[j] == ss[j]);
    }
    assert(is_first_sprite(t, sprite.uuid, ss.len() as int));
    lemma_first_sprite_unique(t, sprite.uuid, ss.len() as int);
    assert(t.remove(ss.len() as int) =~= ss);
}

} // verus!
