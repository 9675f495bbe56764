//! Reading a compiled background gives back its sub-segments.
use vstd::prelude::*;
use vstd::string::*;
use vstd::utf8::encode_utf8;
use crate::background::{
    bg_outcome_agrees, block_at, block_next, first_anmz, imbz_lookup, is_first, scen_loop, scen_result, scen_start, scen_step, wraps_concat, BackgroundData,
    BackgroundDataError, BackgroundErrorView, BackgroundView, ImbzFile, ScenLoad, ScenStep, SegKind, COLZ_MAGIC, IMGB_MAGIC, MPBZ_MAGIC, INFO_MAGIC, PLAN_MAGIC, RAST_MAGIC, SCRL_MAGIC, opt_view,
};
use crate::bytes::{c_str_end, le32, le_i32, pad4, pad_len4, u32_bytes, lemma_u32_roundtrip};
use crate::compression::{lemma_pad4_noop, lz10_compressed, lz10_decompressed, lz10_recoverable};
use crate::map_roundtrip::lemma_ascii4;
use crate::scen::info::{info_bytes, info_end, info_fixed_fits, info_view_at, ScenInfoData};
use crate::scen::mpbz::{blank_tile, law_mpbz_reread, mpbz_bytes, mpbz_readable, mpbz_view_of, MapTileDataSegment};
use crate::scen::scrl::{law_scrl_roundtrip, scrl_bytes, ScrollData};
use crate::types::{tile_record_fits, tile_short_of};
use crate::scen::{ScenSegment, ScenSegmentWrapper, ScenView};
use crate::segments::TopLevelSegment;

verus! {

/// The names of the INFO, PLAN, RAST, SCRL, IMGB, COLZ and MPBZ
/// sub-segments are their numbers' bytes.
proof fn lemma_sub_names()
    ensures
        encode_utf8("INFO"@) == u32_bytes(INFO_MAGIC),
        encode_utf8("PLAN"@) == u32_bytes(PLAN_MAGIC),
        encode_utf8("RAST"@) == u32_bytes(RAST_MAGIC),
        encode_utf8("SCRL"@) == u32_bytes(SCRL_MAGIC),
        encode_utf8("IMGB"@) == u32_bytes(IMGB_MAGIC),
        encode_utf8("COLZ"@) == u32_bytes(COLZ_MAGIC),
        encode_utf8("MPBZ"@) == u32_bytes(MPBZ_MAGIC),
{
    reveal_strlit("INFO");
    reveal_strlit("PLAN");
    reveal_strlit("RAST");
    reveal_strlit("SCRL");
    reveal_strlit("IMGB");
    reveal_strlit("COLZ");
    reveal_strlit("MPBZ");
    lemma_ascii4("MPBZ"@);
    assert(encode_utf8("MPBZ"@) =~= u32_bytes(MPBZ_MAGIC));
    lemma_ascii4("COLZ"@);
    assert(encode_utf8("COLZ"@) =~= u32_bytes(COLZ_MAGIC));
    lemma_ascii4("IMGB"@);
    assert(encode_utf8("IMGB"@) =~= u32_bytes(IMGB_MAGIC));
    lemma_ascii4("INFO"@);
    lemma_ascii4("PLAN"@);
    lemma_ascii4("RAST"@);
    lemma_ascii4("SCRL"@);
    assert(encode_utf8("INFO"@) =~= u32_bytes(INFO_MAGIC));
    assert(encode_utf8("PLAN"@) =~= u32_bytes(PLAN_MAGIC));
    assert(encode_utf8("RAST"@) =~= u32_bytes(RAST_MAGIC));
    assert(encode_utf8("SCRL"@) =~= u32_bytes(SCRL_MAGIC));
}

/// A map segment that reading gives back for a layer `lw` tiles wide:
/// every record fits its entry; with a top offset or a bottom trim, the rows
/// above the offset are present and blank; without them, the first entry is
/// not the `0xFFFF` marker; its bytes can be read for that width, are below
/// 2^24, and their compressed stream fits the 32-bit length and
/// decompresses to them (which `compile` establishes for each map it
/// writes).
pub open spec fn mpbz_savable(m: MapTileDataSegment, lw: u16) -> bool {
    &&& forall|i: int| 0 <= i < m.tiles@.len() ==> tile_record_fits(#[trigger] m.tiles@[i])
    &&& m.tile_offset > 0 || m.bottom_trim > 0 ==> m.tile_offset * lw <= m.tiles@.len() && forall|i: int|
        0 <= i < m.tile_offset * lw ==> #[trigger] m.tiles@[i] == blank_tile()
    &&& !(m.tile_offset > 0 || m.bottom_trim > 0) ==> m.tiles@.len() > 0 && tile_short_of(m.tiles@[0]) != 0xffff
    &&& mpbz_readable(mpbz_bytes(m, lw), lw)
    &&& mpbz_bytes(m, lw).len() < 0x1000000
    &&& lz10_recoverable(mpbz_bytes(m, lw))
    &&& pad4(lz10_compressed(mpbz_bytes(m, lw))).len() <= u32::MAX
}

/// A sub-segment after the INFO, in a layer `lw` tiles wide, that reading
/// gives back as it was: PLAN, RAST and IMGB bytes that fill whole words
/// (padding would be read as data), scroll speeds, collision blocks below
/// 2^24 bytes whose compressed stream fits the 32-bit length and
/// decompresses to them (which `compile` establishes for each block it
/// writes), and maps that `mpbz_savable` admits.
pub open spec fn sub_savable(w: ScenSegmentWrapper, lw: u16) -> bool {
    match w {
        ScenSegmentWrapper::MPBZ(m) => mpbz_savable(m, lw),
        ScenSegmentWrapper::COLZ(c) => {
            &&& c.col_tiles@.len() < 0x1000000
            &&& lz10_recoverable(c.col_tiles@)
            &&& pad4(lz10_compressed(c.col_tiles@)).len() <= u32::MAX
        },
        ScenSegmentWrapper::IMGB(x) => x.pixel_tiles@.len() % 4 == 0 && x.pixel_tiles@.len() <= u32::MAX,
        ScenSegmentWrapper::PLAN(x) => x._raw@.len() % 4 == 0 && x._raw@.len() <= u32::MAX,
        ScenSegmentWrapper::RAST(x) => x._raw@.len() % 4 == 0 && x._raw@.len() <= u32::MAX,
        ScenSegmentWrapper::SCRL(_) => true,
        _ => false,
    }
}

/// The number a savable sub-segment's name is stored as.
pub open spec fn sub_magic(w: ScenSegmentWrapper) -> u32 {
    match w {
        ScenSegmentWrapper::PLAN(_) => PLAN_MAGIC,
        ScenSegmentWrapper::RAST(_) => RAST_MAGIC,
        ScenSegmentWrapper::IMGB(_) => IMGB_MAGIC,
        ScenSegmentWrapper::COLZ(_) => COLZ_MAGIC,
        ScenSegmentWrapper::MPBZ(_) => MPBZ_MAGIC,
        _ => SCRL_MAGIC,
    }
}

/// The body a savable sub-segment is stored with, in a layer `lw` tiles
/// wide.
pub open spec fn sub_body(w: ScenSegmentWrapper, lw: u16) -> Seq<u8> {
    match w {
        ScenSegmentWrapper::MPBZ(m) => pad4(lz10_compressed(mpbz_bytes(m, lw))),
        ScenSegmentWrapper::PLAN(x) => x._raw@,
        ScenSegmentWrapper::RAST(x) => x._raw@,
        ScenSegmentWrapper::SCRL(x) => scrl_bytes(x),
        ScenSegmentWrapper::IMGB(x) => x.pixel_tiles@,
        ScenSegmentWrapper::COLZ(c) => pad4(lz10_compressed(c.col_tiles@)),
        _ => Seq::empty(),
    }
}

/// How a savable sub-segment is written.
proof fn lemma_sub_wrap(w: ScenSegmentWrapper, info: ScenInfoData)
    requires
        sub_savable(w, info.layer_width),
    ensures
        w.spec_wrap(Some(&info)) == u32_bytes(sub_magic(w)) + u32_bytes(sub_body(w, info.layer_width).len() as u32) + sub_body(w, info.layer_width),
        sub_body(w, info.layer_width).len() % 4 == 0,
        sub_body(w, info.layer_width).len() <= u32::MAX,
{
    lemma_sub_names();
    match w {
        ScenSegmentWrapper::SCRL(x) => {
            law_scrl_roundtrip(x);
        },
        ScenSegmentWrapper::COLZ(c) => {
            crate::compression::lemma_pad4_len(lz10_compressed(c.col_tiles@));
        },
        ScenSegmentWrapper::MPBZ(m) => {
            crate::compression::lemma_pad4_len(lz10_compressed(mpbz_bytes(m, info.layer_width)));
        },
        _ => {},
    }
    lemma_pad4_noop(sub_body(w, info.layer_width));
}

/// A block stored at `p`: its name, its length and its bytes.
proof fn lemma_block_fields(s: Seq<u8>, p: int, magic: u32, body: Seq<u8>)
    requires
        0 <= p,
        body.len() <= u32::MAX,
        p + 8 + body.len() <= s.len(),
        s.subrange(p, p + 8 + body.len()) == u32_bytes(magic) + u32_bytes(body.len() as u32) + body,
    ensures
        le32(s, p) == magic,
        le32(s, p + 4) == body.len(),
        block_at(s, p + 8, body.len() as int) == body,
        block_next(s, p + 8, body.len() as int) == p + 8 + body.len(),
        forall|i: int| 0 <= i < body.len() ==> #[trigger] s[p + 8 + i] == body[i],
{
    let t = u32_bytes(magic) + u32_bytes(body.len() as u32) + body;
    lemma_u32_roundtrip(magic);
    lemma_u32_roundtrip(body.len() as u32);
    let m = u32_bytes(magic);
    let l = u32_bytes(body.len() as u32);
    assert forall|i: int| 0 <= i < t.len() implies #[trigger] s[p + i] == t[i] by {
        assert(s.subrange(p, p + 8 + body.len())[i] == t[i]);
    }
    assert(s[p] == m[0] && s[p + 1] == m[1] && s[p + 2] == m[2] && s[p + 3] == m[3]) by {
        assert(s[p] == t[0] && s[p + 1] == t[1] && s[p + 2] == t[2] && s[p + 3] == t[3]);
    }
    assert(le32(s, p) == le32(m, 0));
    assert(s[p + 4] == l[0] && s[p + 5] == l[1] && s[p + 6] == l[2] && s[p + 7] == l[3]) by {
        assert(s[p + 4] == t[4] && s[p + 5] == t[5] && s[p + 6] == t[6] && s[p + 7] == t[7]);
    }
    assert(le32(s, p + 4) == le32(l, 0));
    assert forall|i: int| 0 <= i < body.len() implies #[trigger] s[p + 8 + i] == body[i] by {
        assert(s[p + (8 + i)] == t[8 + i]);
    }
    let blk = s.subrange(p + 8, p + 8 + body.len());
    assert forall|i: int| 0 <= i < body.len() implies #[trigger] blk[i] == body[i] by {
        assert(s[p + 8 + i] == body[i]);
    }
    assert(blk =~= body);
}

/// Reading a stored PLAN or RAST block adds its bytes.
#[verifier::spinoff_prover]
#[verifier::rlimit(50)]
proof fn lemma_raw_step(s: Seq<u8>, p: int, magic: u32, body: Seq<u8>, st: ScenLoad, files: Seq<ImbzFile>)
    requires
        magic == PLAN_MAGIC || magic == RAST_MAGIC,
        0 <= p,
        p + 8 + body.len() <= s.len(),
        le32(s, p) == magic,
        le32(s, p + 4) == body.len(),
        block_at(s, p + 8, body.len() as int) == body,
        block_next(s, p + 8, body.len() as int) == p + 8 + body.len(),
    ensures
        scen_step(s, p, st, files) == ScenStep::Next(
            ScenLoad {
                segs: st.segs.push(if magic == PLAN_MAGIC {
                    ScenView::Plan(body)
                } else {
                    ScenView::Rast(body)
                }),
                count: st.count + 1,
                ..st
            },
            p + 8 + body.len(),
        ),
{
}

/// Reading a stored IMGB block adds its bytes, which become the preview.
#[verifier::spinoff_prover]
#[verifier::rlimit(50)]
proof fn lemma_imgb_step(s: Seq<u8>, p: int, body: Seq<u8>, st: ScenLoad, files: Seq<ImbzFile>)
    requires
        0 <= p,
        p + 8 + body.len() <= s.len(),
        le32(s, p) == IMGB_MAGIC,
        le32(s, p + 4) == body.len(),
        block_at(s, p + 8, body.len() as int) == body,
        block_next(s, p + 8, body.len() as int) == p + 8 + body.len(),
    ensures
        scen_step(s, p, st, files) == ScenStep::Next(
            ScenLoad { segs: st.segs.push(ScenView::Imgb(body)), preview: Some(body), count: st.count + 1, ..st },
            p + 8 + body.len(),
        ),
{
}

/// Reading a stored COLZ block adds what its bytes decompress to.
#[verifier::spinoff_prover]
#[verifier::rlimit(50)]
proof fn lemma_colz_step(s: Seq<u8>, p: int, body: Seq<u8>, st: ScenLoad, files: Seq<ImbzFile>)
    requires
        0 <= p,
        p + 8 + body.len() <= s.len(),
        le32(s, p) == COLZ_MAGIC,
        le32(s, p + 4) == body.len(),
        block_at(s, p + 8, body.len() as int) == body,
        block_next(s, p + 8, body.len() as int) == p + 8 + body.len(),
    ensures
        scen_step(s, p, st, files) == ScenStep::Next(
            ScenLoad { segs: st.segs.push(ScenView::Colz(lz10_decompressed(body))), count: st.count + 1, ..st },
            p + 8 + body.len(),
        ),
{
}

/// Reading a stored MPBZ block whose bytes decompress to a readable map.
#[verifier::spinoff_prover]
#[verifier::rlimit(50)]
proof fn lemma_mpbz_step(s: Seq<u8>, p: int, body: Seq<u8>, st: ScenLoad, files: Seq<ImbzFile>)
    requires
        0 <= p,
        p + 8 + body.len() <= s.len(),
        le32(s, p) == MPBZ_MAGIC,
        le32(s, p + 4) == body.len(),
        block_at(s, p + 8, body.len() as int) == body,
        block_next(s, p + 8, body.len() as int) == p + 8 + body.len(),
        mpbz_readable(lz10_decompressed(body), st.layer_width),
    ensures
        scen_step(s, p, st, files) == ScenStep::Next(
            ScenLoad {
                segs: st.segs.push(ScenView::Mpbz(mpbz_view_of(lz10_decompressed(body), st.layer_width))),
                count: st.count + 1,
                ..st
            },
            p + 8 + body.len(),
        ),
{
}

/// What reading a savable sub-segment leaves: it is added, and IMGB bytes
/// become the preview.
pub open spec fn sub_next(st: ScenLoad, w: ScenSegmentWrapper) -> ScenLoad {
    ScenLoad {
        segs: st.segs.push(w@),
        count: st.count + 1,
        preview: match w {
            ScenSegmentWrapper::IMGB(x) => Some(x.pixel_tiles@),
            _ => st.preview,
        },
        ..st
    }
}

/// Reading a stored SCRL block adds the speeds it holds.
#[verifier::spinoff_prover]
#[verifier::rlimit(50)]
proof fn lemma_scrl_step(s: Seq<u8>, p: int, x: ScrollData, st: ScenLoad, files: Seq<ImbzFile>)
    requires
        0 <= p,
        p + 16 <= s.len(),
        le32(s, p) == SCRL_MAGIC,
        le_i32(s, p + 8) == x.left_velocity,
        le_i32(s, p + 12) == x.up_velocity,
    ensures
        scen_step(s, p, st, files) == ScenStep::Next(
            ScenLoad { segs: st.segs.push(ScenView::Scrl(x)), count: st.count + 1, ..st },
            p + 16,
        ),
{
}

/// The bytes of a savable sub-segment fill whole words.
#[verifier::spinoff_prover]
proof fn lemma_sub_len(w: ScenSegmentWrapper, info: ScenInfoData)
    requires
        sub_savable(w, info.layer_width),
    ensures
        w.spec_wrap(Some(&info)).len() >= 8,
        w.spec_wrap(Some(&info)).len() % 4 == 0,
{
    lemma_sub_wrap(w, info);
    lemma_u32_roundtrip(sub_magic(w));
    lemma_u32_roundtrip(sub_body(w, info.layer_width).len() as u32);
    let n = sub_body(w, info.layer_width).len() as int;
    assert(w.spec_wrap(Some(&info)).len() == 8 + n);
    assert((8 + n) % 4 == 0) by (nonlinear_arith)
        requires
            n % 4 == 0,
    ;
}

/// Reading a stored PLAN.
#[verifier::spinoff_prover]
#[verifier::rlimit(60)]
proof fn lemma_sub_step_plan(s: Seq<u8>, p: int, w: ScenSegmentWrapper, info: ScenInfoData, st: ScenLoad, files: Seq<ImbzFile>)
    requires
        w is PLAN,
        sub_savable(w, info.layer_width),
        0 <= p,
        p + w.spec_wrap(Some(&info)).len() <= s.len(),
        s.subrange(p, p + w.spec_wrap(Some(&info)).len()) == w.spec_wrap(Some(&info)),
    ensures
        scen_step(s, p, st, files) == ScenStep::Next(sub_next(st, w), p + w.spec_wrap(Some(&info)).len()),
{
    lemma_sub_wrap(w, info);
    let body = sub_body(w, info.layer_width);
    lemma_block_fields(s, p, sub_magic(w), body);
    lemma_raw_step(s, p, PLAN_MAGIC, body, st, files);
    assert(sub_next(st, w) == ScenLoad { segs: st.segs.push(ScenView::Plan(body)), count: st.count + 1, ..st });
}

/// Reading a stored RAST.
#[verifier::spinoff_prover]
#[verifier::rlimit(60)]
proof fn lemma_sub_step_rast(s: Seq<u8>, p: int, w: ScenSegmentWrapper, info: ScenInfoData, st: ScenLoad, files: Seq<ImbzFile>)
    requires
        w is RAST,
        sub_savable(w, info.layer_width),
        0 <= p,
        p + w.spec_wrap(Some(&info)).len() <= s.len(),
        s.subrange(p, p + w.spec_wrap(Some(&info)).len()) == w.spec_wrap(Some(&info)),
    ensures
        scen_step(s, p, st, files) == ScenStep::Next(sub_next(st, w), p + w.spec_wrap(Some(&info)).len()),
{
    lemma_sub_wrap(w, info);
    let body = sub_body(w, info.layer_width);
    lemma_block_fields(s, p, sub_magic(w), body);
    lemma_raw_step(s, p, RAST_MAGIC, body, st, files);
    assert(sub_next(st, w) == ScenLoad { segs: st.segs.push(ScenView::Rast(body)), count: st.count + 1, ..st });
}

/// Reading a stored IMGB.
#[verifier::spinoff_prover]
#[verifier::rlimit(60)]
proof fn lemma_sub_step_imgb(s: Seq<u8>, p: int, w: ScenSegmentWrapper, info: ScenInfoData, st: ScenLoad, files: Seq<ImbzFile>)
    requires
        w is IMGB,
        sub_savable(w, info.layer_width),
        0 <= p,
        p + w.spec_wrap(Some(&info)).len() <= s.len(),
        s.subrange(p, p + w.spec_wrap(Some(&info)).len()) == w.spec_wrap(Some(&info)),
    ensures
        scen_step(s, p, st, files) == ScenStep::Next(sub_next(st, w), p + w.spec_wrap(Some(&info)).len()),
{
    lemma_sub_wrap(w, info);
    let body = sub_body(w, info.layer_width);
    lemma_block_fields(s, p, sub_magic(w), body);
    lemma_imgb_step(s, p, body, st, files);
    assert(sub_next(st, w) == ScenLoad {
        segs: st.segs.push(ScenView::Imgb(body)),
        preview: Some(body),
        count: st.count + 1,
        ..st
    });
}

/// Reading a stored COLZ.
#[verifier::spinoff_prover]
#[verifier::rlimit(60)]
proof fn lemma_sub_step_colz(s: Seq<u8>, p: int, w: ScenSegmentWrapper, info: ScenInfoData, st: ScenLoad, files: Seq<ImbzFile>)
    requires
        w is COLZ,
        sub_savable(w, info.layer_width),
        0 <= p,
        p + w.spec_wrap(Some(&info)).len() <= s.len(),
        s.subrange(p, p + w.spec_wrap(Some(&info)).len()) == w.spec_wrap(Some(&info)),
    ensures
        scen_step(s, p, st, files) == ScenStep::Next(sub_next(st, w), p + w.spec_wrap(Some(&info)).len()),
{
    lemma_sub_wrap(w, info);
    let body = sub_body(w, info.layer_width);
    lemma_block_fields(s, p, sub_magic(w), body);
    let c = w->COLZ_0;
    lemma_colz_step(s, p, body, st, files);
    assert(lz10_decompressed(body) == c.col_tiles@);
    assert(sub_next(st, w) == ScenLoad { segs: st.segs.push(ScenView::Colz(c.col_tiles@)), count: st.count + 1, ..st });
}

/// Reading a stored MPBZ, in a layer as wide as the one it was written
/// for.
#[verifier::spinoff_prover]
#[verifier::rlimit(60)]
proof fn lemma_sub_step_mpbz(s: Seq<u8>, p: int, w: ScenSegmentWrapper, info: ScenInfoData, st: ScenLoad, files: Seq<ImbzFile>)
    requires
        w is MPBZ,
        sub_savable(w, info.layer_width),
        st.layer_width == info.layer_width,
        0 <= p,
        p + w.spec_wrap(Some(&info)).len() <= s.len(),
        s.subrange(p, p + w.spec_wrap(Some(&info)).len()) == w.spec_wrap(Some(&info)),
    ensures
        scen_step(s, p, st, files) == ScenStep::Next(sub_next(st, w), p + w.spec_wrap(Some(&info)).len()),
{
    lemma_sub_wrap(w, info);
    let body = sub_body(w, info.layer_width);
    lemma_block_fields(s, p, sub_magic(w), body);
    let m = w->MPBZ_0;
    assert(lz10_decompressed(body) == mpbz_bytes(m, info.layer_width));
    law_mpbz_reread(m, info.layer_width);
    lemma_mpbz_step(s, p, body, st, files);
    assert(sub_next(st, w) == ScenLoad { segs: st.segs.push(ScenView::Mpbz(m@)), count: st.count + 1, ..st });
}

/// Reading a stored SCRL.
#[verifier::spinoff_prover]
#[verifier::rlimit(60)]
proof fn lemma_sub_step_scrl(s: Seq<u8>, p: int, w: ScenSegmentWrapper, info: ScenInfoData, st: ScenLoad, files: Seq<ImbzFile>)
    requires
        w is SCRL,
        sub_savable(w, info.layer_width),
        0 <= p,
        p + w.spec_wrap(Some(&info)).len() <= s.len(),
        s.subrange(p, p + w.spec_wrap(Some(&info)).len()) == w.spec_wrap(Some(&info)),
    ensures
        scen_step(s, p, st, files) == ScenStep::Next(sub_next(st, w), p + w.spec_wrap(Some(&info)).len()),
{
    lemma_sub_wrap(w, info);
    let body = sub_body(w, info.layer_width);
    lemma_block_fields(s, p, sub_magic(w), body);
    let x = w->SCRL_0;
    law_scrl_roundtrip(x);
    let q = p + 8;
    assert(le32(s, q) == le32(body, 0)) by {
        assert(s[p + 8 + 0] == body[0]);
        assert(s[p + 8 + 1] == body[1]);
        assert(s[p + 8 + 2] == body[2]);
        assert(s[p + 8 + 3] == body[3]);
    }
    assert(le32(s, q + 4) == le32(body, 4)) by {
        assert(s[p + 8 + 4] == body[4]);
        assert(s[p + 8 + 5] == body[5]);
        assert(s[p + 8 + 6] == body[6]);
        assert(s[p + 8 + 7] == body[7]);
    }
    lemma_scrl_step(s, p, x, st, files);
    assert(sub_next(st, w) == ScenLoad { segs: st.segs.push(ScenView::Scrl(x)), count: st.count + 1, ..st });
}

/// Reading a savable sub-segment stored at `p` adds it and moves past it.
proof fn lemma_sub_step(s: Seq<u8>, p: int, w: ScenSegmentWrapper, info: ScenInfoData, st: ScenLoad, files: Seq<ImbzFile>)
    requires
        sub_savable(w, info.layer_width),
        w is MPBZ ==> st.layer_width == info.layer_width,
        0 <= p,
        p + w.spec_wrap(Some(&info)).len() <= s.len(),
        s.subrange(p, p + w.spec_wrap(Some(&info)).len()) == w.spec_wrap(Some(&info)),
    ensures
        w.spec_wrap(Some(&info)).len() >= 8,
        w.spec_wrap(Some(&info)).len() % 4 == 0,
        scen_step(s, p, st, files) == ScenStep::Next(sub_next(st, w), p + w.spec_wrap(Some(&info)).len()),
{
    lemma_sub_len(w, info);
    if w is PLAN {
        lemma_sub_step_plan(s, p, w, info, st, files);
    } else if w is RAST {
        lemma_sub_step_rast(s, p, w, info, st, files);
    } else if w is IMGB {
        lemma_sub_step_imgb(s, p, w, info, st, files);
    } else if w is COLZ {
        lemma_sub_step_colz(s, p, w, info, st, files);
    } else if w is MPBZ {
        lemma_sub_step_mpbz(s, p, w, info, st, files);
    } else {
        assert(w is SCRL);
        lemma_sub_step_scrl(s, p, w, info, st, files);
    }
}

/// An INFO that reading gives back: without a tile-graphics name, or with
/// one that holds no zero byte (the name is read up to its terminator) and
/// leaves the bytes within the 32-bit length.
pub open spec fn info_name_ok(x: ScenInfoData) -> bool {
    x.imbz_filename_noext matches Some(n) ==> n@.len() + 28 <= u32::MAX && forall|i: int|
        0 <= i < n@.len() ==> #[trigger] n@[i] != 0
}

/// What reading an INFO first leaves: the INFO; when it names a
/// tile-graphics file that `files` holds, that file's graphics as preview;
/// its width and colour mode become current unless the file it names is
/// missing.
pub open spec fn info_state(x: ScenInfoData, files: Seq<ImbzFile>) -> ScenLoad {
    let base = ScenLoad { segs: seq![ScenView::Info(x@)], count: 1, ..scen_start() };
    match x@.imbz_filename_noext {
        Some(name) => match imbz_lookup(files, name) {
            Some(bytes) => ScenLoad {
                preview: Some(lz10_decompressed(bytes)),
                layer_width: x.layer_width,
                color_mode: x.color_mode,
                ..base
            },
            None => base,
        },
        None => ScenLoad { layer_width: x.layer_width, color_mode: x.color_mode, ..base },
    }
}

/// How an INFO is written.
proof fn lemma_info_wrap(x: ScenInfoData, info: ScenInfoData)
    requires
        info_name_ok(x),
    ensures
        ScenSegmentWrapper::INFO(x).spec_wrap(Some(&info)) == u32_bytes(INFO_MAGIC) + u32_bytes(
            info_bytes(x).len() as u32,
        ) + info_bytes(x),
        info_bytes(x).len() % 4 == 0,
        24 <= info_bytes(x).len() <= u32::MAX,
        x.imbz_filename_noext is None <==> info_bytes(x).len() == 24,
{
    lemma_sub_names();
    match x.imbz_filename_noext {
        None => {
            assert(info_bytes(x).len() == 24);
        },
        Some(n) => {
            crate::compression::lemma_pad4_len(crate::scen::info::info_fixed_bytes(x) + n@ + seq![0u8]);
        },
    }
    lemma_pad4_noop(info_bytes(x));
}

/// The fixed part of the INFO bytes stored at 8 reads as the INFO's
/// fields.
#[verifier::spinoff_prover]
#[verifier::rlimit(40)]
proof fn lemma_info_fixed_in(s: Seq<u8>, x: ScenInfoData)
    requires
        info_name_ok(x),
        8 + info_bytes(x).len() <= s.len(),
        forall|i: int| 0 <= i < info_bytes(x).len() ==> #[trigger] s[8 + i] == info_bytes(x)[i],
    ensures
        info_fixed_fits(s, 8),
        crate::scen::info::info_fields_at(x, s, 8),
{
    let ib = info_bytes(x);
    crate::scen::info::law_info_roundtrip(x);
    lemma_info_wrap(x, x);
    assert(s[8] == ib[0] && s[9] == ib[1] && s[10] == ib[2] && s[11] == ib[3]) by {
        assert(s[8int + 0] == ib[0] && s[8int + 1] == ib[1] && s[8int + 2] == ib[2] && s[8int + 3] == ib[3]);
    }
    assert(s[12] == ib[4] && s[13] == ib[5] && s[14] == ib[6] && s[15] == ib[7]) by {
        assert(s[8int + 4] == ib[4] && s[8int + 5] == ib[5] && s[8int + 6] == ib[6] && s[8int + 7] == ib[7]);
    }
    assert(s[16] == ib[8] && s[17] == ib[9] && s[18] == ib[10] && s[19] == ib[11]) by {
        assert(s[8int + 8] == ib[8] && s[8int + 9] == ib[9] && s[8int + 10] == ib[10] && s[8int + 11] == ib[11]);
    }
    assert(s[20] == ib[12] && s[21] == ib[13] && s[22] == ib[14] && s[23] == ib[15]) by {
        assert(s[8int + 12] == ib[12] && s[8int + 13] == ib[13] && s[8int + 14] == ib[14] && s[8int + 15] == ib[15]);
    }
    assert(s[24] == ib[16] && s[25] == ib[17] && s[26] == ib[18] && s[27] == ib[19]) by {
        assert(s[8int + 16] == ib[16] && s[8int + 17] == ib[17] && s[8int + 18] == ib[18] && s[8int + 19] == ib[19]);
    }
    assert(s[28] == ib[20] && s[29] == ib[21] && s[30] == ib[22] && s[31] == ib[23]) by {
        assert(s[8int + 20] == ib[20] && s[8int + 21] == ib[21] && s[8int + 22] == ib[22] && s[8int + 23] == ib[23]);
    }
    assert(info_view_at(ib, 0, ib.len() as u32) == x@);
}

/// The name in the INFO bytes stored at 8 is read up to its terminator.
#[verifier::spinoff_prover]
#[verifier::rlimit(40)]
proof fn lemma_info_name_in(s: Seq<u8>, x: ScenInfoData)
    requires
        info_name_ok(x),
        x.imbz_filename_noext is Some,
        8 + info_bytes(x).len() <= s.len(),
        forall|i: int| 0 <= i < info_bytes(x).len() ==> #[trigger] s[8 + i] == info_bytes(x)[i],
    ensures
        c_str_end(s, 32) == 32 + x.imbz_filename_noext->0@.len(),
        c_str_end(s, 32) < s.len(),
        s.subrange(32, c_str_end(s, 32)) == x.imbz_filename_noext->0@,
        info_bytes(x).len() == 25 + x.imbz_filename_noext->0@.len() + pad_len4(
            (25 + x.imbz_filename_noext->0@.len()) as nat,
        ),
{
    let ib = info_bytes(x);
    let nm = x.imbz_filename_noext->0;
    let len = nm@.len() as int;
    let t = crate::scen::info::info_fixed_bytes(x) + nm@ + seq![0u8];
    crate::compression::lemma_pad4_len(t);
    assert forall|i: int| 0 <= i < t.len() implies #[trigger] ib[i] == t[i] by {
        assert(crate::bytes::pad4(t)[i] == t[i]);
    }
    assert forall|i: int| 32 <= i < 32 + len implies s[i] != 0 by {
        assert(s[8 + (i - 8)] == ib[i - 8]);
        assert(ib[i - 8] == t[i - 8]);
        assert(t[i - 8] == nm@[i - 32]);
    }
    assert(s[32 + len] == 0) by {
        assert(s[8 + (24 + len)] == ib[24 + len]);
        assert(ib[24 + len] == t[24 + len]);
    }
    crate::bytes::lemma_c_str_end_unique(s, 32, 32 + len);
    assert(s.subrange(32, 32 + len) =~= nm@) by {
        assert forall|i: int| 0 <= i < len implies #[trigger] s.subrange(32, 32 + len)[i] == nm@[i] by {
            assert(s[8 + (24 + i)] == ib[24 + i]);
            assert(ib[24 + i] == t[24 + i]);
        }
    }
}

/// The INFO bytes stored at 8 read as the INFO, and reading ends where
/// they end.
#[verifier::spinoff_prover]
#[verifier::rlimit(40)]
proof fn lemma_info_in(s: Seq<u8>, x: ScenInfoData)
    requires
        info_name_ok(x),
        8 + info_bytes(x).len() <= s.len(),
        forall|i: int| 0 <= i < info_bytes(x).len() ==> #[trigger] s[8 + i] == info_bytes(x)[i],
    ensures
        info_fixed_fits(s, 8),
        info_view_at(s, 8, info_bytes(x).len() as u32) == x@,
        info_end(s, 8, info_bytes(x).len() as u32) == 8 + info_bytes(x).len(),
{
    lemma_info_wrap(x, x);
    lemma_info_fixed_in(s, x);
    if x.imbz_filename_noext is Some {
        lemma_info_name_in(s, x);
    }
}

/// A step at the start that finds an INFO reads it.
#[verifier::spinoff_prover]
proof fn lemma_step_is_info(s: Seq<u8>, n: u32, files: Seq<ImbzFile>)
    requires
        8 <= s.len(),
        le32(s, 0) == INFO_MAGIC,
        le32(s, 4) == n,
    ensures
        scen_step(s, 0, scen_start(), files) == crate::background::info_step(s, 8, n, scen_start(), files),
{
}

/// Reading an INFO whose bytes read as `x` and end within the data.
#[verifier::spinoff_prover]
#[verifier::rlimit(40)]
proof fn lemma_info_step_is(s: Seq<u8>, n: u32, x: ScenInfoData, files: Seq<ImbzFile>)
    requires
        info_fixed_fits(s, 8),
        info_view_at(s, 8, n) == x@,
        info_end(s, 8, n) <= s.len(),
    ensures
        crate::background::info_step(s, 8, n, scen_start(), files) == ScenStep::Next(
            info_state(x, files),
            info_end(s, 8, n),
        ),
{
    assert(Seq::<ScenView>::empty().push(ScenView::Info(x@)) =~= seq![ScenView::Info(x@)]);
}

/// The INFO stored at the start is read back.
#[verifier::spinoff_prover]
#[verifier::rlimit(40)]
proof fn lemma_info_first(s: Seq<u8>, x: ScenInfoData, files: Seq<ImbzFile>)
    requires
        info_name_ok(x),
        8 + info_bytes(x).len() <= s.len(),
        info_bytes(x).len() <= u32::MAX,
        s.subrange(0, 8 + info_bytes(x).len() as int) == u32_bytes(INFO_MAGIC) + u32_bytes(info_bytes(x).len() as u32)
            + info_bytes(x),
    ensures
        scen_step(s, 0, scen_start(), files) == ScenStep::Next(info_state(x, files), 8 + info_bytes(x).len() as int),
{
    let n = info_bytes(x).len() as u32;
    lemma_info_at_start(s, x);
    lemma_step_is_info(s, n, files);
    lemma_info_step_is(s, n, x, files);
}

/// The INFO stored at the start: its name, length and contents.
#[verifier::spinoff_prover]
#[verifier::rlimit(40)]
proof fn lemma_info_at_start(s: Seq<u8>, x: ScenInfoData)
    requires
        info_name_ok(x),
        8 + info_bytes(x).len() <= s.len(),
        info_bytes(x).len() <= u32::MAX,
        s.subrange(0, 8 + info_bytes(x).len() as int) == u32_bytes(INFO_MAGIC) + u32_bytes(info_bytes(x).len() as u32)
            + info_bytes(x),
    ensures
        le32(s, 0) == INFO_MAGIC,
        le32(s, 4) == info_bytes(x).len(),
        info_fixed_fits(s, 8),
        info_view_at(s, 8, info_bytes(x).len() as u32) == x@,
        info_end(s, 8, info_bytes(x).len() as u32) == 8 + info_bytes(x).len(),
{
    let ib = info_bytes(x);
    lemma_block_fields(s, 0, INFO_MAGIC, ib);
    assert forall|i: int| 0 <= i < ib.len() implies #[trigger] s[8 + i] == ib[i] by {
        assert(s[0int + 8 + i] == ib[i]);
    }
    lemma_info_in(s, x);
}

/// The bytes of the first `k` sub-segments begin the bytes of all of them.
proof fn lemma_wraps_prefix(ws: Seq<ScenSegmentWrapper>, info: ScenInfoData, k: int)
    requires
        0 <= k <= ws.len(),
    ensures
        wraps_concat(ws.take(k), info).len() <= wraps_concat(ws, info).len(),
        wraps_concat(ws, info).subrange(0, wraps_concat(ws.take(k), info).len() as int) == wraps_concat(ws.take(k), info),
    decreases ws.len(),
{
    if k == ws.len() {
        assert(ws.take(k) =~= ws);
        assert(wraps_concat(ws, info).subrange(0, wraps_concat(ws, info).len() as int) =~= wraps_concat(ws, info));
    } else {
        let d = ws.drop_last();
        assert(ws.take(k) =~= d.take(k));
        lemma_wraps_prefix(d, info, k);
        let a = wraps_concat(d, info);
        let c = wraps_concat(ws, info);
        assert(c == a + ws.last().spec_wrap(Some(&info)));
        let t = wraps_concat(ws.take(k), info);
        assert(c.subrange(0, t.len() as int) =~= a.subrange(0, t.len() as int));
    }
}

/// One more sub-segment adds its bytes at the end.
proof fn lemma_wraps_next(ws: Seq<ScenSegmentWrapper>, info: ScenInfoData, k: int)
    requires
        0 <= k < ws.len(),
    ensures
        wraps_concat(ws.take(k + 1), info) == wraps_concat(ws.take(k), info) + ws[k].spec_wrap(Some(&info)),
{
    assert(ws.take(k + 1).drop_last() =~= ws.take(k));
    assert(ws.take(k + 1).last() == ws[k]);
}

/// A background that reading its compiled bytes gives back: an INFO whose
/// name, if any, reads back, then sub-segments savable in a layer as wide as
/// that INFO says.
pub open spec fn scen_segs_savable(ws: Seq<ScenSegmentWrapper>) -> bool {
    &&& ws.len() >= 1
    &&& ws[0] matches ScenSegmentWrapper::INFO(x) && info_name_ok(x)
    &&& forall|i: int| 1 <= i < ws.len() ==> sub_savable(#[trigger] ws[i], ws[0]->INFO_0.layer_width)
}

/// Reading the INFO makes its width current wherever a map follows: it
/// names no tile-graphics file, or `files` holds the one it names.
pub open spec fn width_read(ws: Seq<ScenSegmentWrapper>, files: Seq<ImbzFile>) -> bool {
    (exists|i: int| 1 <= i < ws.len() && #[trigger] ws[i] is MPBZ) ==> info_state(ws[0]->INFO_0, files).layer_width
        == ws[0]->INFO_0.layer_width
}

/// The preview after the first `k` sub-segments: the bytes of the last
/// IMGB after the INFO, or `pre`.
pub open spec fn preview_after(ws: Seq<ScenSegmentWrapper>, k: int, pre: Option<Seq<u8>>) -> Option<Seq<u8>>
    decreases k,
{
    if k <= 1 {
        pre
    } else {
        match ws[k - 1] {
            ScenSegmentWrapper::IMGB(x) => Some(x.pixel_tiles@),
            _ => preview_after(ws, k - 1, pre),
        }
    }
}

/// What has been read after the first `k` sub-segments, when reading the
/// INFO left `st1`.
pub open spec fn loaded(ws: Seq<ScenSegmentWrapper>, k: int, st1: ScenLoad) -> ScenLoad {
    ScenLoad {
        segs: ws.take(k).map_values(|w: ScenSegmentWrapper| w@),
        count: k as nat,
        preview: preview_after(ws, k, st1.preview),
        ..st1
    }
}

/// A reading step that moves forward within the data continues there.
#[verifier::spinoff_prover]
proof fn lemma_loop_next(s: Seq<u8>, p: int, st: ScenLoad, st2: ScenLoad, q: int, files: Seq<ImbzFile>)
    requires
        0 <= p < q,
        p < s.len(),
        scen_step(s, p, st, files) == ScenStep::Next(st2, q),
    ensures
        scen_loop(s, p, st, files) == if q >= s.len() {
            Some(Ok::<ScenLoad, BackgroundErrorView>(st2))
        } else {
            scen_loop(s, q, st2, files)
        },
{
}

/// The bytes of sub-segment `k` lie where the bytes of those before it end.
#[verifier::spinoff_prover]
proof fn lemma_sub_at(s: Seq<u8>, ws: Seq<ScenSegmentWrapper>, info: ScenInfoData, k: int)
    requires
        0 <= k < ws.len(),
        s == wraps_concat(ws, info),
    ensures
        ({
            let p = wraps_concat(ws.take(k), info).len() as int;
            let wb = ws[k].spec_wrap(Some(&info));
            &&& p + wb.len() == wraps_concat(ws.take(k + 1), info).len()
            &&& p + wb.len() <= s.len()
            &&& s.subrange(p, p + wb.len()) == wb
        }),
{
    let p = wraps_concat(ws.take(k), info).len() as int;
    let wb = ws[k].spec_wrap(Some(&info));
    lemma_wraps_prefix(ws, info, k + 1);
    lemma_wraps_next(ws, info, k);
    let t1 = wraps_concat(ws.take(k + 1), info);
    assert(s.subrange(0, t1.len() as int) == t1);
    assert forall|i: int| 0 <= i < wb.len() implies #[trigger] s.subrange(p, p + wb.len())[i] == wb[i] by {
        assert(s.subrange(0, t1.len() as int)[p + i] == t1[p + i]);
    }
    assert(s.subrange(p, p + wb.len()) =~= wb);
}

#[verifier::spinoff_prover]
#[verifier::rlimit(100)]
proof fn lemma_subs_read(
    s: Seq<u8>,
    ws: Seq<ScenSegmentWrapper>,
    info: ScenInfoData,
    k: int,
    st1: ScenLoad,
    files: Seq<ImbzFile>,
)
    requires
        scen_segs_savable(ws),
        info.layer_width == ws[0]->INFO_0.layer_width,
        (exists|i: int| 1 <= i < ws.len() && #[trigger] ws[i] is MPBZ) ==> st1.layer_width == info.layer_width,
        1 <= k <= ws.len(),
        s == wraps_concat(ws, info),
    ensures
        scen_loop(s, wraps_concat(ws.take(k), info).len() as int, loaded(ws, k, st1), files) == Some(
            Ok::<ScenLoad, BackgroundErrorView>(loaded(ws, ws.len() as int, st1)),
        ),
    decreases ws.len() - k,
{
    let p = wraps_concat(ws.take(k), info).len() as int;
    lemma_wraps_prefix(ws, info, k);
    if k == ws.len() {
        assert(ws.take(k) =~= ws);
    } else {
        let w = ws[k];
        assert(sub_savable(w, info.layer_width));
        assert(w is MPBZ ==> st1.layer_width == info.layer_width);
        let wb = w.spec_wrap(Some(&info));
        lemma_sub_at(s, ws, info, k);
        lemma_sub_step(s, p, w, info, loaded(ws, k, st1), files);
        let st2 = sub_next(loaded(ws, k, st1), w);
        assert(st2.segs =~= loaded(ws, k + 1, st1).segs) by {
            assert(ws.take(k + 1) =~= ws.take(k).push(w));
        }
        assert(st2 == loaded(ws, k + 1, st1));
        let q = p + wb.len();
        lemma_loop_next(s, p, loaded(ws, k, st1), st2, q, files);
        if k + 1 < ws.len() {
            lemma_sub_at(s, ws, info, k + 1);
            assert(sub_savable(ws[k + 1], info.layer_width));
            lemma_sub_wrap(ws[k + 1], info);
            assert(q < s.len());
            lemma_subs_read(s, ws, info, k + 1, st1, files);
        } else {
            assert(ws.take(k + 1) =~= ws);
            assert(q == s.len());
        }
    }
}

/// Reading the compiled bytes from the start reads every sub-segment.
#[verifier::spinoff_prover]
#[verifier::rlimit(100)]
proof fn lemma_scen_read(ws: Seq<ScenSegmentWrapper>, info: ScenInfoData, files: Seq<ImbzFile>)
    requires
        scen_segs_savable(ws),
        width_read(ws, files),
        info.layer_width == ws[0]->INFO_0.layer_width,
    ensures
        scen_loop(wraps_concat(ws, info), 0, scen_start(), files) == Some(
            Ok::<ScenLoad, BackgroundErrorView>(loaded(ws, ws.len() as int, info_state(ws[0]->INFO_0, files))),
        ),
{
    let s = wraps_concat(ws, info);
    let x = ws[0]->INFO_0;
    assert(ws.take(0) =~= Seq::<ScenSegmentWrapper>::empty());
    lemma_sub_at(s, ws, info, 0);
    assert(ws[0] == ScenSegmentWrapper::INFO(x));
    lemma_info_wrap(x, info);
    lemma_u32_roundtrip(INFO_MAGIC);
    lemma_u32_roundtrip(info_bytes(x).len() as u32);
    let l1 = ScenSegmentWrapper::INFO(x).spec_wrap(Some(&info)).len() as int;
    assert(l1 == 8 + info_bytes(x).len());
    lemma_info_first(s, x, files);
    let st1 = info_state(x, files);
    assert(st1 == loaded(ws, 1, st1)) by {
        assert(ws.take(1) =~= seq![ws[0]]);
        assert(seq![ScenView::Info(x@)] =~= loaded(ws, 1, st1).segs);
    }
    lemma_loop_next(s, 0, scen_start(), st1, l1, files);
    if ws.len() > 1 {
        lemma_sub_at(s, ws, info, 1);
        assert(sub_savable(ws[1], info.layer_width));
        lemma_sub_wrap(ws[1], info);
        assert(l1 < s.len());
        lemma_subs_read(s, ws, info, 1, st1, files);
    } else {
        assert(ws.take(1) =~= ws);
        assert(s.len() == l1);
    }
}

/// No animation among savable sub-segments.
proof fn lemma_no_anmz(ws: Seq<ScenSegmentWrapper>)
    requires
        forall|i: int| 0 <= i < ws.len() ==> !(#[trigger] ws[i] is ANMZ),
    ensures
        first_anmz(ws.map_values(|w: ScenSegmentWrapper| w@)) is None,
    decreases ws.len(),
{
    if ws.len() > 0 {
        let vs = ws.map_values(|w: ScenSegmentWrapper| w@);
        assert(vs.skip(1) =~= ws.skip(1).map_values(|w: ScenSegmentWrapper| w@));
        assert(!(ws[0] is ANMZ));
        assert(!(vs[0] is Anmz));
        assert forall|i: int| 0 <= i < ws.skip(1).len() implies !(#[trigger] ws.skip(1)[i] is ANMZ) by {
            assert(ws.skip(1)[i] == ws[i + 1]);
        }
        lemma_no_anmz(ws.skip(1));
    }
}

/// Reading back what `compile` wrote for a background whose first
/// sub-segment is an INFO (whose tile-graphics name, if any, holds no zero
/// byte), followed by any number of PLAN, RAST and IMGB sub-segments whose
/// bytes fill whole words, SCRL sub-segments, and COLZ and MPBZ
/// sub-segments that `sub_savable` admits, gives the same sub-segments, in
/// order, with palette offset 0; the preview is the last IMGB's bytes, or
/// else the graphics of the file the INFO names, when `files` holds it.
/// With a map among them, reading the INFO must make its width current (it
/// names no file, or `files` holds it).
pub proof fn law_scen_reload(b: BackgroundData, files: Seq<ImbzFile>)
    requires
        scen_segs_savable(b.scen_segments@),
        width_read(b.scen_segments@, files),
    ensures
        scen_result(b.spec_compile(), files) == Some(
            Ok::<BackgroundView, BackgroundErrorView>(
                BackgroundView {
                    pal_offset: 0,
                    preview: preview_after(
                        b.scen_segments@,
                        b.scen_segments@.len() as int,
                        info_state(b.scen_segments@[0]->INFO_0, files).preview,
                    ),
                    segs: b@.segs,
                },
            ),
        ),
{
    let ws = b.scen_segments@;
    lemma_first_info(b);
    lemma_scen_read(ws, b.first_info(), files);
    assert(ws.take(ws.len() as int) =~= ws);
    assert forall|i: int| 0 <= i < ws.len() implies !(#[trigger] ws[i] is ANMZ) by {
        if i > 0 {
            assert(sub_savable(ws[i], ws[0]->INFO_0.layer_width));
        }
    }
    lemma_no_anmz(ws);
    assert(b@.segs == ws.map_values(|w: ScenSegmentWrapper| w@));
}

/// A background that starts with an INFO takes its layer settings from it.
proof fn lemma_first_info(b: BackgroundData)
    requires
        b.scen_segments@.len() >= 1,
        b.scen_segments@[0] is INFO,
    ensures
        b.first_info() == b.scen_segments@[0]->INFO_0,
{
    let vs = b@.segs;
    assert(vs[0] == b.scen_segments@[0]@);
    assert(is_first(vs, SegKind::Info, 0));
    crate::background::lemma_first_unique(vs, SegKind::Info, 0);
}

/// The compiled bytes of the first `k` sub-segments fill whole words.
#[verifier::spinoff_prover]
#[verifier::rlimit(80)]
proof fn lemma_wraps_len4(ws: Seq<ScenSegmentWrapper>, info: ScenInfoData, k: int)
    requires
        scen_segs_savable(ws),
        info.layer_width == ws[0]->INFO_0.layer_width,
        0 <= k <= ws.len(),
    ensures
        wraps_concat(ws.take(k), info).len() % 4 == 0,
    decreases k,
{
    if k == 0 {
        assert(ws.take(0) =~= Seq::<ScenSegmentWrapper>::empty());
    } else {
        lemma_wraps_len4(ws, info, k - 1);
        lemma_wraps_next(ws, info, k - 1);
        lemma_wrap_len4(ws, info, k - 1);
        let a = wraps_concat(ws.take(k - 1), info).len() as int;
        let b = ws[k - 1].spec_wrap(Some(&info)).len() as int;
        assert(wraps_concat(ws.take(k), info).len() == a + b);
        assert((a + b) % 4 == 0) by (nonlinear_arith)
            requires
                a % 4 == 0,
                b % 4 == 0,
        ;
    }
}

/// Each savable sub-segment's bytes fill whole words.
#[verifier::spinoff_prover]
#[verifier::rlimit(80)]
proof fn lemma_wrap_len4(ws: Seq<ScenSegmentWrapper>, info: ScenInfoData, i: int)
    requires
        scen_segs_savable(ws),
        info.layer_width == ws[0]->INFO_0.layer_width,
        0 <= i < ws.len(),
    ensures
        ws[i].spec_wrap(Some(&info)).len() % 4 == 0,
{
    if i == 0 {
        let x = ws[0]->INFO_0;
        lemma_info_wrap(x, info);
        assert(ws[0] == ScenSegmentWrapper::INFO(x));
        lemma_u32_roundtrip(info_bytes(x).len() as u32);
    } else {
        assert(sub_savable(ws[i], info.layer_width));
        lemma_sub_wrap(ws[i], info);
    }
}

/// A background whose compiled bytes read back as it is: its
/// sub-segments are savable, its INFO names no tile-graphics file, its
/// preview is its last IMGB's bytes (none without one) and its palette
/// offset 0 (what reading such bytes gives).
pub open spec fn scen_savable(b: BackgroundData) -> bool {
    &&& scen_segs_savable(b.scen_segments@)
    &&& b.scen_segments@[0]->INFO_0.imbz_filename_noext is None
    &&& opt_view(b.pixel_tiles_preview) == preview_after(b.scen_segments@, b.scen_segments@.len() as int, None)
    &&& b._pal_offset == 0
}

/// The compiled bytes of a savable background fill whole words and read
/// back as the background.
pub proof fn lemma_scen_body(b: BackgroundData, files: Seq<ImbzFile>)
    requires
        scen_savable(b),
    ensures
        b.spec_compile().len() % 4 == 0,
        scen_result(b.spec_compile(), files) == Some(Ok::<BackgroundView, BackgroundErrorView>(b@)),
{
    let ws = b.scen_segments@;
    lemma_first_info(b);
    lemma_wraps_len4(ws, b.first_info(), ws.len() as int);
    assert(ws.take(ws.len() as int) =~= ws);
    law_scen_reload(b, files);
}

/// A sub-segment whose bytes its view fixes, in a layer `lw` tiles wide: an
/// INFO, or a savable one.
spec fn wrap_fixed(w: ScenSegmentWrapper, lw: u16) -> bool {
    (w matches ScenSegmentWrapper::INFO(x) && info_name_ok(x)) || sub_savable(w, lw)
}

/// Two such sub-segments with the same view are written alike.
#[verifier::spinoff_prover]
proof fn lemma_same_wrap(w: ScenSegmentWrapper, w2: ScenSegmentWrapper, i1: ScenInfoData, i2: ScenInfoData)
    requires
        wrap_fixed(w, i1.layer_width),
        i2.layer_width == i1.layer_width,
        w2@ == w@,
    ensures
        w2.spec_wrap(Some(&i2)) == w.spec_wrap(Some(&i1)),
{
    match w {
        ScenSegmentWrapper::INFO(x) => {
            let y = w2->INFO_0;
            assert(w2 == ScenSegmentWrapper::INFO(y));
            assert(y@ == x@);
            assert(crate::scen::info::info_fixed_bytes(y) == crate::scen::info::info_fixed_bytes(x));
            match x.imbz_filename_noext {
                None => {
                    assert(y.imbz_filename_noext is None);
                },
                Some(n) => {
                    assert(y.imbz_filename_noext->0@ == n@);
                },
            }
            assert(info_bytes(y) == info_bytes(x));
        },
        ScenSegmentWrapper::PLAN(x) => {
            assert(w2 == ScenSegmentWrapper::PLAN(w2->PLAN_0));
        },
        ScenSegmentWrapper::RAST(x) => {
            assert(w2 == ScenSegmentWrapper::RAST(w2->RAST_0));
        },
        ScenSegmentWrapper::SCRL(x) => {
            assert(w2 == ScenSegmentWrapper::SCRL(w2->SCRL_0));
        },
        ScenSegmentWrapper::IMGB(x) => {
            assert(w2 == ScenSegmentWrapper::IMGB(w2->IMGB_0));
        },
        ScenSegmentWrapper::COLZ(x) => {
            assert(w2 == ScenSegmentWrapper::COLZ(w2->COLZ_0));
        },
        ScenSegmentWrapper::MPBZ(x) => {
            assert(w2 == ScenSegmentWrapper::MPBZ(w2->MPBZ_0));
        },
        _ => {},
    }
}

proof fn lemma_same_wraps(ws: Seq<ScenSegmentWrapper>, ws2: Seq<ScenSegmentWrapper>, i1: ScenInfoData, i2: ScenInfoData)
    requires
        ws2.len() == ws.len(),
        i2.layer_width == i1.layer_width,
        forall|i: int| 0 <= i < ws.len() ==> wrap_fixed(#[trigger] ws[i], i1.layer_width),
        forall|i: int| 0 <= i < ws.len() ==> (#[trigger] ws2[i])@ == ws[i]@,
    ensures
        wraps_concat(ws2, i2) == wraps_concat(ws, i1),
    decreases ws.len(),
{
    if ws.len() > 0 {
        let d = ws.drop_last();
        let d2 = ws2.drop_last();
        assert forall|i: int| 0 <= i < d.len() implies wrap_fixed(#[trigger] d[i], i1.layer_width) by {
            assert(d[i] == ws[i]);
        }
        assert forall|i: int| 0 <= i < d.len() implies (#[trigger] d2[i])@ == d[i]@ by {
            assert(d[i] == ws[i] && d2[i] == ws2[i]);
        }
        lemma_same_wraps(d, d2, i1, i2);
        lemma_same_wrap(ws.last(), ws2.last(), i1, i2);
    }
}

/// Reading what `compile` wrote for such a background and compiling the
/// result again gives the same bytes.
pub proof fn law_scen_recompile(b: BackgroundData, b2: BackgroundData, files: Seq<ImbzFile>)
    requires
        scen_segs_savable(b.scen_segments@),
        width_read(b.scen_segments@, files),
        bg_outcome_agrees(Some(Ok::<BackgroundData, BackgroundDataError>(b2)), scen_result(b.spec_compile(), files)),
    ensures
        b2.spec_compile() == b.spec_compile(),
{
    let ws = b.scen_segments@;
    let ws2 = b2.scen_segments@;
    law_scen_reload(b, files);
    assert(b2@.segs == b@.segs);
    let v = ws.map_values(|w: ScenSegmentWrapper| w@);
    let v2 = ws2.map_values(|w: ScenSegmentWrapper| w@);
    assert(v2 == v);
    assert(ws2.len() == v2.len() && ws.len() == v.len());
    assert forall|i: int| 0 <= i < ws.len() implies (#[trigger] ws2[i])@ == ws[i]@ by {
        assert(v2[i] == v[i]);
    }
    lemma_first_info(b);
    let x = ws[0]->INFO_0;
    assert(ws2[0]@ == ws[0]@);
    let y = ws2[0]->INFO_0;
    assert(ws2[0] == ScenSegmentWrapper::INFO(y));
    lemma_first_info(b2);
    assert(b2.first_info().layer_width == b.first_info().layer_width);
    assert forall|i: int| 0 <= i < ws.len() implies wrap_fixed(#[trigger] ws[i], b.first_info().layer_width) by {
        if i > 0 {
            assert(sub_savable(ws[i], x.layer_width));
        }
    }
    lemma_same_wraps(ws, ws2, b.first_info(), b2.first_info());
}

} // verus!
