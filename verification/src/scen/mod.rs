//! The sub-segments of a background (SCEN) segment.
pub mod info;
pub mod colz;
pub mod mpbz;
pub mod anmz;
pub mod raw;
pub mod scrl;
pub mod pltb;

use vstd::prelude::*;
use vstd::string::*;
use self::anmz::{AnmzDataSegment, AnmzView};
use self::colz::CollisionData;
use self::info::{InfoView, ScenInfoData};
use self::mpbz::{MapTileDataSegment, MpbzView};
use self::pltb::PltbData;
use self::raw::{AnimatedPaletteData, ImbzData, ImgbData, RastData};
use self::scrl::ScrollData;
use crate::types::PaletteView;
use crate::compression::lz10_recoverable;

verus! {

/// Behaviour shared by the sub-segments of a background.
pub trait ScenSegment {
    /// The four-character segment name.
    spec fn spec_header(&self) -> Seq<char>;

    /// The bytes of the segment body, before compression.
    spec fn spec_compile(&self, info: Option<&ScenInfoData>) -> Seq<u8>;

    /// The complete segment with its container and possible compression.
    spec fn spec_wrap(&self, info: Option<&ScenInfoData>) -> Seq<u8>;

    /// The values that can be compiled.
    spec fn can_compile(&self) -> bool;

    /// Creates a byte vector, uncompressed.
    fn compile(&self, info: Option<&ScenInfoData>) -> (r: Vec<u8>)
        requires
            self.can_compile(),
        ensures
            r@ == self.spec_compile(info),
    ;

    /// Creates a byte vector, with container and possible compression.
    fn wrap(&self, info: Option<&ScenInfoData>) -> (r: Vec<u8>)
        requires
            self.can_compile(),
        ensures
            r@ == self.spec_wrap(info),
    ;

    /// The segment name.
    fn header(&self) -> (r: String)
        ensures
            r@ == self.spec_header(),
    ;
}

/// One sub-segment of a background.
#[derive(Clone, PartialEq, Eq, Debug)]
pub enum ScenSegmentWrapper {
    INFO(ScenInfoData),
    COLZ(CollisionData),
    PLTB(PltbData),
    SCRL(ScrollData),
    MPBZ(MapTileDataSegment),
    ANMZ(AnmzDataSegment),
    IMGB(ImgbData),
    IMBZ(ImbzData),
    PLAN(AnimatedPaletteData),
    RAST(RastData),
}

/// The abstract value of a background sub-segment.
pub ghost enum ScenView {
    Info(InfoView),
    Colz(Seq<u8>),
    Pltb(Seq<PaletteView>),
    Scrl(ScrollData),
    Mpbz(MpbzView),
    Anmz(AnmzView),
    Imgb(Seq<u8>),
    Imbz(Seq<u8>),
    Plan(Seq<u8>),
    Rast(Seq<u8>),
}

impl View for ScenSegmentWrapper {
    type V = ScenView;

    open spec fn view(&self) -> ScenView {
        match self {
            ScenSegmentWrapper::INFO(x) => ScenView::Info(x@),
            ScenSegmentWrapper::COLZ(x) => ScenView::Colz(x.col_tiles@),
            ScenSegmentWrapper::PLTB(x) => ScenView::Pltb(x.palettes@.map_values(|p: crate::types::Palette| p@)),
            ScenSegmentWrapper::SCRL(x) => ScenView::Scrl(*x),
            ScenSegmentWrapper::MPBZ(x) => ScenView::Mpbz(x@),
            ScenSegmentWrapper::ANMZ(x) => ScenView::Anmz(x@),
            ScenSegmentWrapper::IMGB(x) => ScenView::Imgb(x.pixel_tiles@),
            ScenSegmentWrapper::IMBZ(x) => ScenView::Imbz(x.pixel_tiles@),
            ScenSegmentWrapper::PLAN(x) => ScenView::Plan(x._raw@),
            ScenSegmentWrapper::RAST(x) => ScenView::Rast(x._raw@),
        }
    }
}

impl ScenSegment for ScenSegmentWrapper {
    open spec fn spec_header(&self) -> Seq<char> {
        match self {
            ScenSegmentWrapper::INFO(x) => x.spec_header(),
            ScenSegmentWrapper::COLZ(x) => x.spec_header(),
            ScenSegmentWrapper::PLTB(x) => x.spec_header(),
            ScenSegmentWrapper::SCRL(x) => x.spec_header(),
            ScenSegmentWrapper::MPBZ(x) => x.spec_header(),
            ScenSegmentWrapper::ANMZ(x) => x.spec_header(),
            ScenSegmentWrapper::IMGB(x) => x.spec_header(),
            ScenSegmentWrapper::IMBZ(x) => x.spec_header(),
            ScenSegmentWrapper::PLAN(x) => x.spec_header(),
            ScenSegmentWrapper::RAST(x) => x.spec_header(),
        }
    }

    /// INFO compiles on its own; the others receive the layer's INFO.
    open spec fn spec_compile(&self, info: Option<&ScenInfoData>) -> Seq<u8> {
        match self {
            ScenSegmentWrapper::INFO(x) => x.spec_compile(None),
            ScenSegmentWrapper::COLZ(x) => x.spec_compile(info),
            ScenSegmentWrapper::PLTB(x) => x.spec_compile(info),
            ScenSegmentWrapper::SCRL(x) => x.spec_compile(info),
            ScenSegmentWrapper::MPBZ(x) => x.spec_compile(info),
            ScenSegmentWrapper::ANMZ(x) => x.spec_compile(info),
            ScenSegmentWrapper::IMGB(x) => x.spec_compile(info),
            ScenSegmentWrapper::IMBZ(x) => x.spec_compile(info),
            ScenSegmentWrapper::PLAN(x) => x.spec_compile(info),
            ScenSegmentWrapper::RAST(x) => x.spec_compile(info),
        }
    }

    open spec fn spec_wrap(&self, info: Option<&ScenInfoData>) -> Seq<u8> {
        match self {
            ScenSegmentWrapper::INFO(x) => x.spec_wrap(None),
            ScenSegmentWrapper::COLZ(x) => x.spec_wrap(info),
            ScenSegmentWrapper::PLTB(x) => x.spec_wrap(info),
            ScenSegmentWrapper::SCRL(x) => x.spec_wrap(info),
            ScenSegmentWrapper::MPBZ(x) => x.spec_wrap(info),
            ScenSegmentWrapper::ANMZ(x) => x.spec_wrap(info),
            ScenSegmentWrapper::IMGB(x) => x.spec_wrap(info),
            ScenSegmentWrapper::IMBZ(x) => x.spec_wrap(info),
            ScenSegmentWrapper::PLAN(x) => x.spec_wrap(info),
            ScenSegmentWrapper::RAST(x) => x.spec_wrap(info),
        }
    }

    open spec fn can_compile(&self) -> bool {
        match self {
            ScenSegmentWrapper::PLTB(x) => x.can_compile(),
            _ => true,
        }
    }

    fn compile(&self, info: Option<&ScenInfoData>) -> (r: Vec<u8>) {
        match self {
            ScenSegmentWrapper::INFO(x) => x.compile(None),
            ScenSegmentWrapper::COLZ(x) => x.compile(info),
            ScenSegmentWrapper::PLTB(x) => x.compile(info),
            ScenSegmentWrapper::SCRL(x) => x.compile(info),
            ScenSegmentWrapper::MPBZ(x) => x.compile(info),
            ScenSegmentWrapper::ANMZ(x) => x.compile(info),
            ScenSegmentWrapper::IMGB(x) => x.compile(info),
            ScenSegmentWrapper::IMBZ(x) => x.compile(info),
            ScenSegmentWrapper::PLAN(x) => x.compile(info),
            ScenSegmentWrapper::RAST(x) => x.compile(info),
        }
    }

    fn wrap(&self, info: Option<&ScenInfoData>) -> (r: Vec<u8>)
        ensures
            self matches ScenSegmentWrapper::COLZ(c) ==> (c.col_tiles@.len() < 0x1000000 ==> lz10_recoverable(
                c.col_tiles@,
            )),
            self matches ScenSegmentWrapper::MPBZ(m) ==> (info matches Some(i) ==> (mpbz::mpbz_bytes(
                *m,
                i.layer_width,
            ).len() < 0x1000000 ==> lz10_recoverable(mpbz::mpbz_bytes(*m, i.layer_width)))),
    {
        match self {
            ScenSegmentWrapper::INFO(x) => x.wrap(None),
            ScenSegmentWrapper::COLZ(x) => x.wrap(info),
            ScenSegmentWrapper::PLTB(x) => x.wrap(info),
            ScenSegmentWrapper::SCRL(x) => x.wrap(info),
            ScenSegmentWrapper::MPBZ(x) => x.wrap(info),
            ScenSegmentWrapper::ANMZ(x) => x.wrap(info),
            ScenSegmentWrapper::IMGB(x) => x.wrap(info),
            ScenSegmentWrapper::IMBZ(x) => x.wrap(info),
            ScenSegmentWrapper::PLAN(x) => x.wrap(info),
            ScenSegmentWrapper::RAST(x) => x.wrap(info),
        }
    }

    fn header(&self) -> (r: String) {
        match self {
            ScenSegmentWrapper::INFO(x) => x.header(),
            ScenSegmentWrapper::COLZ(x) => x.header(),
            ScenSegmentWrapper::PLTB(x) => x.header(),
            ScenSegmentWrapper::SCRL(x) => x.header(),
            ScenSegmentWrapper::MPBZ(x) => x.header(),
            ScenSegmentWrapper::ANMZ(x) => x.header(),
            ScenSegmentWrapper::IMGB(x) => x.header(),
            ScenSegmentWrapper::IMBZ(x) => x.header(),
            ScenSegmentWrapper::PLAN(x) => x.header(),
            ScenSegmentWrapper::RAST(x) => x.header(),
        }
    }
}

} // verus!
