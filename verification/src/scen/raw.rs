//! Background sub-segments kept as plain bytes: IMBZ and IMGB tile
//! graphics, PLAN animated palettes and RAST raster effects.
use vstd::prelude::*;
use vstd::string::*;
use vstd::utf8::encode_utf8;
use crate::compression::{lamezip77_lz10_decomp, lz10_decompressed, segment_wrap, wrapped_segment};
use super::info::ScenInfoData;
use super::ScenSegment;

verus! {

/// Compressed tile graphics.
#[derive(Debug, Clone, PartialEq, Eq)]
pub struct ImbzData {
    /// The decompressed pixels.
    pub pixel_tiles: Vec<u8>,
}

impl ImbzData {
    pub fn new(byte_data_compressed: &[u8]) -> (r: Self)
        ensures
            r.pixel_tiles@ == lz10_decompressed(byte_data_compressed@),
    {
        ImbzData { pixel_tiles: lamezip77_lz10_decomp(byte_data_compressed) }
    }
}

impl ScenSegment for ImbzData {
    open spec fn spec_header(&self) -> Seq<char> {
        "IMBZ"@
    }

    open spec fn spec_compile(&self, info: Option<&ScenInfoData>) -> Seq<u8> {
        self.pixel_tiles@
    }

    /// The pixels are wrapped as they are, without compression.
    open spec fn spec_wrap(&self, info: Option<&ScenInfoData>) -> Seq<u8> {
        wrapped_segment(self.pixel_tiles@, encode_utf8("IMBZ"@))
    }

    open spec fn can_compile(&self) -> bool {
        true
    }

    fn compile(&self, _info: Option<&ScenInfoData>) -> (r: Vec<u8>) {
        self.pixel_tiles.clone()
    }

    fn wrap(&self, info: Option<&ScenInfoData>) -> (r: Vec<u8>) {
        let compressed = self.compile(info);
        segment_wrap(&compressed, self.header())
    }

    fn header(&self) -> (r: String) {
        String::from_str("IMBZ")
    }
}

/// Uncompressed tile graphics.
#[derive(Debug, Clone, PartialEq, Eq)]
pub struct ImgbData {
    pub pixel_tiles: Vec<u8>,
}

impl ImgbData {
    pub fn new(byte_data: Vec<u8>) -> (r: Self)
        ensures
            r.pixel_tiles@ == byte_data@,
    {
        ImgbData { pixel_tiles: byte_data }
    }
}

impl ScenSegment for ImgbData {
    open spec fn spec_header(&self) -> Seq<char> {
        "IMGB"@
    }

    open spec fn spec_compile(&self, info: Option<&ScenInfoData>) -> Seq<u8> {
        self.pixel_tiles@
    }

    open spec fn spec_wrap(&self, info: Option<&ScenInfoData>) -> Seq<u8> {
        wrapped_segment(self.pixel_tiles@, encode_utf8("IMGB"@))
    }

    open spec fn can_compile(&self) -> bool {
        true
    }

    fn compile(&self, _info: Option<&ScenInfoData>) -> (r: Vec<u8>) {
        self.pixel_tiles.clone()
    }

    fn wrap(&self, info: Option<&ScenInfoData>) -> (r: Vec<u8>) {
        segment_wrap(&self.compile(info), self.header())
    }

    fn header(&self) -> (r: String) {
        String::from_str("IMGB")
    }
}

/// Animated palette data, kept unchanged.
#[derive(Debug, Clone, PartialEq, Eq, Default)]
pub struct AnimatedPaletteData {
    pub _raw: Vec<u8>,
}

impl AnimatedPaletteData {
    pub fn new(byte_data: &Vec<u8>) -> (r: Self)
        ensures
            r._raw@ == byte_data@,
    {
        AnimatedPaletteData { _raw: byte_data.clone() }
    }
}

impl ScenSegment for AnimatedPaletteData {
    open spec fn spec_header(&self) -> Seq<char> {
        "PLAN"@
    }

    open spec fn spec_compile(&self, info: Option<&ScenInfoData>) -> Seq<u8> {
        self._raw@
    }

    open spec fn spec_wrap(&self, info: Option<&ScenInfoData>) -> Seq<u8> {
        wrapped_segment(self._raw@, encode_utf8("PLAN"@))
    }

    open spec fn can_compile(&self) -> bool {
        true
    }

    fn compile(&self, _info: Option<&ScenInfoData>) -> (r: Vec<u8>) {
        self._raw.clone()
    }

    fn wrap(&self, info: Option<&ScenInfoData>) -> (r: Vec<u8>) {
        let compiled = self.compile(info);
        segment_wrap(&compiled, self.header())
    }

    fn header(&self) -> (r: String) {
        String::from_str("PLAN")
    }
}

/// Raster effect data, kept unchanged so that saving is safe.
#[derive(Debug, Clone, PartialEq, Eq, Default)]
pub struct RastData {
    pub _raw: Vec<u8>,
}

impl RastData {
    pub fn new(byte_data: &Vec<u8>) -> (r: Self)
        ensures
            r._raw@ == byte_data@,
    {
        RastData { _raw: byte_data.clone() }
    }
}

impl ScenSegment for RastData {
    open spec fn spec_header(&self) -> Seq<char> {
        "RAST"@
    }

    open spec fn spec_compile(&self, info: Option<&ScenInfoData>) -> Seq<u8> {
        self._raw@
    }

    open spec fn spec_wrap(&self, info: Option<&ScenInfoData>) -> Seq<u8> {
        wrapped_segment(self._raw@, encode_utf8("RAST"@))
    }

    open spec fn can_compile(&self) -> bool {
        true
    }

    fn compile(&self, _info: Option<&ScenInfoData>) -> (r: Vec<u8>) {
        self._raw.clone()
    }

    fn wrap(&self, info: Option<&ScenInfoData>) -> (r: Vec<u8>) {
        let comp_bytes: Vec<u8> = self.compile(info);
        segment_wrap(&comp_bytes, self.header())
    }

    fn header(&self) -> (r: String) {
        String::from_str("RAST")
    }
}

} // verus!
