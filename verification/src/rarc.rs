//! Render archives: an `OBAR` container of named segments, stored
//! LZ10-compressed.
use vstd::prelude::*;
use crate::bytes::{le32, read_u32};
use crate::compression::{lamezip77_lz10_decomp, lz10_decompressed};
use crate::mapfile::{raw_segments, raw_view, read_raw_segments};
use crate::segments::DataSegment;

verus! {

/// `OBAR` read as a little-endian number.
pub const OBAR_MAGIC: u32 = 0x5241424F;

/// The segments of a render archive, with the file they came from.
pub struct RenderArchive {
    pub segments: Vec<DataSegment>,
    pub src_file: String,
}

impl Default for RenderArchive {
    fn default() -> (r: Self)
        ensures
            r.segments@.len() == 0,
            r.src_file@ == "ERROR"@,
    {
        RenderArchive { segments: Vec::new(), src_file: String::from_str("ERROR") }
    }
}

/// Whether the decompressed archive `s` is refused as a whole (too short
/// for its name, or not named `OBAR`); such archives read as the default.
pub open spec fn rarc_refused(s: Seq<u8>) -> bool {
    s.len() < 4 || le32(s, 0) != OBAR_MAGIC
}

/// Whether the decompressed archive `s` can be read: refused outright, or
/// its size field and every segment lie inside the data.
pub open spec fn rarc_readable(s: Seq<u8>) -> bool {
    rarc_refused(s) || (s.len() >= 8 && raw_segments(s, 8) is Some)
}

impl RenderArchive {
    /// Reads a decompressed render archive.
    pub fn from_decomp(src_file: String, s: &[u8]) -> (r: RenderArchive)
        requires
            rarc_readable(s@),
        ensures
            rarc_refused(s@) ==> r.segments@.len() == 0 && r.src_file@ == "ERROR"@,
            !rarc_refused(s@) ==> r.src_file@ == src_file@ && raw_view(r.segments@) == raw_segments(s@, 8)->0,
    {
        if s.len() < 4 {
            return Self::default();
        }
        let header = read_u32(s, 0);
        if header != OBAR_MAGIC {
            return Self::default();
        }
        match read_raw_segments(s) {
            Some(segments) => RenderArchive { segments, src_file },
            None => Self::default(),
        }
    }

    /// Reads an LZ10-compressed render archive.
    pub fn new(src_file: String, file_bytes: &[u8]) -> (r: RenderArchive)
        requires
            rarc_readable(lz10_decompressed(file_bytes@)),
        ensures
            rarc_refused(lz10_decompressed(file_bytes@)) ==> r.segments@.len() == 0 && r.src_file@ == "ERROR"@,
            !rarc_refused(lz10_decompressed(file_bytes@)) ==> r.src_file@ == src_file@ && raw_view(r.segments@)
                == raw_segments(lz10_decompressed(file_bytes@), 8)->0,
    {
        let decomp = lamezip77_lz10_decomp(file_bytes);
        Self::from_decomp(src_file, decomp.as_slice())
    }

    /// Reads an LZ10-compressed render archive, or gives `None` where a
    /// segment of it runs past the end of the data.
    pub fn load(src_file: String, file_bytes: &[u8]) -> (r: Option<RenderArchive>)
        ensures
            r is None <==> !rarc_readable(lz10_decompressed(file_bytes@)),
            r matches Some(a) ==> {
                let s = lz10_decompressed(file_bytes@);
                &&& rarc_refused(s) ==> a.segments@.len() == 0 && a.src_file@ == "ERROR"@
                &&& !rarc_refused(s) ==> a.src_file@ == src_file@ && raw_view(a.segments@) == raw_segments(s, 8)->0
            },
    {
        let decomp = lamezip77_lz10_decomp(file_bytes);
        let s = decomp.as_slice();
        if s.len() >= 4 && read_u32(s, 0) == OBAR_MAGIC {
            if s.len() < 8 {
                return None;
            }
            if read_raw_segments(s).is_none() {
                return None;
            }
        }
        Some(Self::from_decomp(src_file, s))
    }
}

} // verus!
