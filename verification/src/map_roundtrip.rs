//! Reading a saved map gives back its segments.
use vstd::prelude::*;
use vstd::string::*;
use vstd::utf8::encode_utf8;
use crate::alph::{law_alpha_roundtrip, AlphaData};
use crate::brak::BrakData;
use crate::area::{law_area_roundtrip, lemma_triggers_bytes, trigger_rect, triggers_bytes, Trigger, TriggerData};
use crate::background::{BackgroundData, ImbzFile};
use crate::bytes::{le16, le32, pad4, u32_bytes, lemma_u32_roundtrip};
use crate::compression::{lemma_pad4_len, lemma_pad4_noop, wrapped_segment, wrapped_segment_u32};
use crate::grad::{grad_bytes, grad_of, grad_truncated, law_grad_roundtrip, GradView, GradientData};
use crate::mapfile::{
    is_known, map_fold, map_result, raw_segments, seg_step, top_views, top_wraps, TopLevelSegmentWrapper, TopView, MapDataError,
    ALPH_MAGIC, AREA_MAGIC, BRAK_MAGIC, GRAD_MAGIC, PATH_MAGIC, SCEN_MAGIC, SET_MAGIC, SETD_MAGIC,
};
use crate::path::{law_path_roundtrip, line_well_formed, lines_bytes, path_of, path_truncated, points_bytes, PathDatabase, PathView, PointView};
use crate::segments::{header_value, GenericTopLevelSegment, TopLevelSegment};
use crate::text::header_chars;
use crate::scen_roundtrip::{lemma_scen_body, scen_savable};
use crate::sprites::{law_sprites_roundtrip, sprite_views, sprites_bytes, LevelSpriteSet};

verus! {

proof fn lemma_byte1(c: u32)
    requires
        c <= 0x7f,
    ensures
        vstd::utf8::encode_scalar(c) == seq![c as u8],
{
    assert(c & 0x7f == c) by (bit_vector)
        requires
            c <= 0x7f,
    ;
}

/// The UTF-8 bytes of four ASCII characters are their codes.
pub proof fn lemma_ascii4(c: Seq<char>)
    requires
        c.len() == 4,
        forall|i: int| 0 <= i < 4 ==> #[trigger] (c[i] as u32) <= 0x7f,
    ensures
        encode_utf8(c) == seq![c[0] as u32 as u8, c[1] as u32 as u8, c[2] as u32 as u8, c[3] as u32 as u8],
{
    let c1 = c.drop_first();
    let c2 = c1.drop_first();
    let c3 = c2.drop_first();
    let c4 = c3.drop_first();
    assert(c1[0] == c[1] && c2[0] == c[2] && c3[0] == c[3]);
    assert(c[0] as u32 <= 0x7f && c[1] as u32 <= 0x7f && c[2] as u32 <= 0x7f && c[3] as u32 <= 0x7f);
    lemma_byte1(c[0] as u32);
    lemma_byte1(c[1] as u32);
    lemma_byte1(c[2] as u32);
    lemma_byte1(c[3] as u32);
    assert(c4.len() == 0);
    assert(encode_utf8(c4) =~= Seq::<u8>::empty());
    assert(encode_utf8(c3) =~= seq![c[3] as u32 as u8]);
    assert(encode_utf8(c2) =~= seq![c[2] as u32 as u8, c[3] as u32 as u8]);
    assert(encode_utf8(c1) =~= seq![c[1] as u32 as u8, c[2] as u32 as u8, c[3] as u32 as u8]);
    assert(encode_utf8(c) =~= seq![c[0] as u32 as u8, c[1] as u32 as u8, c[2] as u32 as u8, c[3] as u32 as u8]);
}

proof fn lemma_names()
    ensures
        encode_utf8("ALPH"@) == u32_bytes(ALPH_MAGIC),
        encode_utf8("AREA"@) == u32_bytes(AREA_MAGIC),
        encode_utf8("GRAD"@) == u32_bytes(GRAD_MAGIC),
        encode_utf8("PATH"@) == u32_bytes(PATH_MAGIC),
        encode_utf8("SETD"@) == u32_bytes(SETD_MAGIC),
        encode_utf8("BRAK"@) == u32_bytes(BRAK_MAGIC),
        encode_utf8("SCEN"@) == u32_bytes(SCEN_MAGIC),
{
    reveal_strlit("ALPH");
    reveal_strlit("AREA");
    reveal_strlit("GRAD");
    reveal_strlit("PATH");
    reveal_strlit("SETD");
    reveal_strlit("BRAK");
    reveal_strlit("SCEN");
    lemma_ascii4("SCEN"@);
    assert(encode_utf8("SCEN"@) =~= u32_bytes(SCEN_MAGIC));
    lemma_ascii4("ALPH"@);
    lemma_ascii4("AREA"@);
    lemma_ascii4("GRAD"@);
    lemma_ascii4("PATH"@);
    lemma_ascii4("SETD"@);
    lemma_ascii4("BRAK"@);
    assert(encode_utf8("ALPH"@) =~= u32_bytes(ALPH_MAGIC));
    assert(encode_utf8("AREA"@) =~= u32_bytes(AREA_MAGIC));
    assert(encode_utf8("GRAD"@) =~= u32_bytes(GRAD_MAGIC));
    assert(encode_utf8("PATH"@) =~= u32_bytes(PATH_MAGIC));
    assert(encode_utf8("SETD"@) =~= u32_bytes(SETD_MAGIC));
    assert(encode_utf8("BRAK"@) =~= u32_bytes(BRAK_MAGIC));
}

/// Four bytes read as a name and written back are the same bytes.
proof fn lemma_name_bytes(n: Seq<u8>)
    requires
        n.len() == 4,
    ensures
        u32_bytes(header_value(n)) == n,
{
    let b0 = n[0] as int;
    let b1 = n[1] as int;
    let b2 = n[2] as int;
    let b3 = n[3] as int;
    let v = b0 + b1 * 0x100 + b2 * 0x10000 + b3 * 0x1000000;
    assert(0 <= v < 0x100000000) by (nonlinear_arith)
        requires
            0 <= b0 < 256,
            0 <= b1 < 256,
            0 <= b2 < 256,
            0 <= b3 < 256,
            v == b0 + b1 * 0x100 + b2 * 0x10000 + b3 * 0x1000000,
    ;
    assert(header_value(n) == v);
    assert(v % 256 == b0 && (v / 256) % 256 == b1 && (v / 65536) % 256 == b2 && v / 16777216 == b3) by (nonlinear_arith)
        requires
            0 <= b0 < 256,
            0 <= b1 < 256,
            0 <= b2 < 256,
            0 <= b3 < 256,
            v == b0 + b1 * 0x100 + b2 * 0x10000 + b3 * 0x1000000,
    ;
    assert(u32_bytes(header_value(n)) =~= n);
}

/// A gradient reads the same with padding after it.
proof fn lemma_grad_padded(v: GradView)
    requires
        v.color_shorts.len() == v.color_count,
    ensures
        grad_of(pad4(grad_bytes(v))) == Some(v),
        !grad_truncated(pad4(grad_bytes(v))),
{
    let b = grad_bytes(v);
    let t = pad4(b);
    crate::bytes::lemma_u16s_bytes_len(v.color_shorts);
    assert(b.len() == 28 + 2 * v.color_shorts.len());
    lemma_pad4_len(b);
    assert forall|i: int| 0 <= i < b.len() implies #[trigger] t[i] == b[i] by {
        assert(t.subrange(0, b.len() as int)[i] == t[i]);
    }
    assert(t.subrange(0, 4) =~= b.subrange(0, 4));
    assert(t.subrange(20, 24) =~= b.subrange(20, 24));
    assert(le32(t, 4) == le32(b, 4));
    assert(le16(t, 8) == le16(b, 8));
    assert(le16(t, 10) == le16(b, 10));
    assert(le16(t, 12) == le16(b, 12));
    assert(le16(t, 14) == le16(b, 14));
    assert(le32(t, 16) == le32(b, 16));
    law_grad_roundtrip(v);
    let n = le16(b, 8) as nat;
    assert(Seq::new(n, |i: int| le16(t, 28 + 2 * i)) =~= Seq::new(n, |i: int| le16(b, 28 + 2 * i)));
}

/// The number a top-level segment's container carries as its name.
pub open spec fn top_magic(w: TopLevelSegmentWrapper) -> u32 {
    match w {
        TopLevelSegmentWrapper::SETD(_) => SETD_MAGIC,
        TopLevelSegmentWrapper::GRAD(_) => GRAD_MAGIC,
        TopLevelSegmentWrapper::AREA(_) => AREA_MAGIC,
        TopLevelSegmentWrapper::PATH(_) => PATH_MAGIC,
        TopLevelSegmentWrapper::ALPH(_) => ALPH_MAGIC,
        TopLevelSegmentWrapper::BRAK(_) => BRAK_MAGIC,
        TopLevelSegmentWrapper::SCEN(_) => SCEN_MAGIC,
        TopLevelSegmentWrapper::Unknown(g) => header_value(encode_utf8(g.header@)),
        _ => 0,
    }
}

/// A top-level segment that reading a saved map gives back as it was:
/// sprites whose settings have their stated length and whose bytes fill
/// whole words, a gradient whose colour count matches its colours,
/// triggers, complete path lines (each ends with its only point of zero
/// distance) counted by the database, blending settings, raw BRAK bytes
/// that fill whole words, a background that `scen_savable` admits, and a
/// segment kept as read whose name is four ASCII characters that no reader
/// knows and whose bytes fill whole words.
/// Padding after sprites or raw bytes would be read as data, so those must
/// fill whole four-byte words.
pub open spec fn top_savable(w: TopLevelSegmentWrapper) -> bool {
    match w {
        TopLevelSegmentWrapper::SETD(x) => {
            &&& forall|i: int| 0 <= i < x.sprites@.len() ==> (#[trigger] x.sprites@[i]).settings@.len()
                == x.sprites@[i].settings_length
            &&& sprites_bytes(sprite_views(x.sprites@)).len() % 4 == 0
        },
        TopLevelSegmentWrapper::GRAD(g) => g.color_shorts@.len() == g.color_count,
        TopLevelSegmentWrapper::AREA(_) => true,
        TopLevelSegmentWrapper::PATH(p) => {
            &&& p.path_count == p.lines@.len()
            &&& forall|i: int| 0 <= i < p@.lines.len() ==> line_well_formed(#[trigger] p@.lines[i])
        },
        TopLevelSegmentWrapper::ALPH(_) => true,
        TopLevelSegmentWrapper::BRAK(b) => b.raw_bytes@.len() % 4 == 0,
        TopLevelSegmentWrapper::SCEN(b) => scen_savable(b),
        TopLevelSegmentWrapper::Unknown(g) => {
            &&& g.header@.len() == 4
            &&& forall|i: int| 0 <= i < 4 ==> #[trigger] (g.header@[i] as u32) <= 0x7f
            &&& !is_known(header_value(encode_utf8(g.header@)))
            &&& g.raw_bytes@.len() % 4 == 0
        },
        _ => false,
    }
}

/// A line's points take twelve bytes each.
proof fn lemma_points_len(ps: Seq<PointView>)
    ensures
        points_bytes(ps).len() == 12 * ps.len(),
    decreases ps.len(),
{
    if ps.len() > 0 {
        lemma_points_len(ps.drop_last());
    }
}

/// The lines' bytes fill whole four-byte words.
proof fn lemma_lines_len(ls: Seq<Seq<PointView>>)
    ensures
        lines_bytes(ls).len() % 4 == 0,
    decreases ls.len(),
{
    if ls.len() > 0 {
        lemma_lines_len(ls.drop_last());
        lemma_points_len(ls.last());
    }
}

/// Reading back a sprite segment.
#[verifier::spinoff_prover]
#[verifier::rlimit(50)]
proof fn lemma_setd_reload(x: LevelSpriteSet, files: Seq<ImbzFile>)
    requires
        forall|i: int| 0 <= i < x.sprites@.len() ==> (#[trigger] x.sprites@[i]).settings@.len() == x.sprites@[i].settings_length,
        sprites_bytes(sprite_views(x.sprites@)).len() % 4 == 0,
    ensures
        seg_step(SETD_MAGIC, pad4(x.spec_compile()), files) == Some(Ok::<Option<TopView>, MapDataError>(Some(TopView::Setd(sprite_views(x.sprites@))))),
{
    let vs = sprite_views(x.sprites@);
    assert forall|i: int| 0 <= i < vs.len() implies (#[trigger] vs[i]).settings.len() == vs[i].settings_length by {
        assert(vs[i] == x.sprites@[i]@);
    }
    law_sprites_roundtrip(vs);
    lemma_pad4_noop(sprites_bytes(vs));
}

/// Reading back a gradient segment.
#[verifier::spinoff_prover]
#[verifier::rlimit(50)]
proof fn lemma_grad_reload(g: GradientData, files: Seq<ImbzFile>)
    requires
        g.color_shorts@.len() == g.color_count,
    ensures
        seg_step(GRAD_MAGIC, pad4(g.spec_compile()), files) == Some(Ok::<Option<TopView>, MapDataError>(Some(TopView::Grad(g@)))),
{
    lemma_grad_padded(g@);
}

/// Reading back a trigger segment.
#[verifier::spinoff_prover]
#[verifier::rlimit(50)]
proof fn lemma_area_reload(t: TriggerData, files: Seq<ImbzFile>)
    requires
    ensures
        seg_step(AREA_MAGIC, pad4(t.spec_compile()), files) == Some(Ok::<Option<TopView>, MapDataError>(Some(TopView::Area(t.triggers@.map_values(|x: Trigger| trigger_rect(x)))))),
{
    lemma_triggers_bytes(t.triggers@);
    law_area_roundtrip(t.triggers@);
    lemma_pad4_noop(triggers_bytes(t.triggers@));
}

/// A compiled path segment reads back as the same database.
#[verifier::spinoff_prover]
#[verifier::rlimit(50)]
proof fn lemma_path_body(p: PathDatabase)
    requires
        p.path_count == p.lines@.len(),
        forall|i: int| 0 <= i < p@.lines.len() ==> line_well_formed(#[trigger] p@.lines[i]),
    ensures
        !path_truncated(pad4(p.spec_compile())),
        path_of(pad4(p.spec_compile())) == p@,
{
    let ls = p@.lines;
    law_path_roundtrip(ls);
    lemma_lines_len(ls);
    let d = u32_bytes(p.lines@.len() as u32) + lines_bytes(ls);
    lemma_pad4_noop(d);
    assert(p.spec_compile() == d);
    assert(p@ == PathView { path_count: ls.len() as u32, lines: ls });
}

/// Reading back a path segment.
proof fn lemma_path_reload(p: PathDatabase, files: Seq<ImbzFile>)
    requires
        p.path_count == p.lines@.len(),
        forall|i: int| 0 <= i < p@.lines.len() ==> line_well_formed(#[trigger] p@.lines[i]),
    ensures
        seg_step(PATH_MAGIC, pad4(p.spec_compile()), files) == Some(Ok::<Option<TopView>, MapDataError>(Some(TopView::Path(p@)))),
{
    lemma_path_body(p);
}

/// Reading back a background.
#[verifier::spinoff_prover]
proof fn lemma_scen_reload(b: BackgroundData, files: Seq<ImbzFile>)
    requires
        scen_savable(b),
    ensures
        seg_step(SCEN_MAGIC, pad4(b.spec_compile()), files) == Some(Ok::<Option<TopView>, MapDataError>(Some(TopView::Scen(b@)))),
{
    lemma_scen_body(b, files);
    lemma_pad4_noop(b.spec_compile());
}

/// Reading back a blending segment.
#[verifier::spinoff_prover]
#[verifier::rlimit(50)]
proof fn lemma_alph_reload(a: AlphaData, files: Seq<ImbzFile>)
    requires
    ensures
        seg_step(ALPH_MAGIC, pad4(a.spec_compile()), files) == Some(Ok::<Option<TopView>, MapDataError>(Some(TopView::Alph(a)))),
{
    law_alpha_roundtrip(a);
    lemma_pad4_noop(a.spec_compile());
}

/// Reading back a raw BRAK segment.
#[verifier::spinoff_prover]
#[verifier::rlimit(50)]
proof fn lemma_brak_reload(b: BrakData, files: Seq<ImbzFile>)
    requires
        b.raw_bytes@.len() % 4 == 0,
    ensures
        seg_step(BRAK_MAGIC, pad4(b.spec_compile()), files) == Some(Ok::<Option<TopView>, MapDataError>(Some(TopView::Brak(b.raw_bytes@)))),
{
    lemma_pad4_noop(b.raw_bytes@);
}

/// Reading back a segment kept as read.
#[verifier::spinoff_prover]
#[verifier::rlimit(50)]
proof fn lemma_unknown_reload(g: GenericTopLevelSegment, files: Seq<ImbzFile>)
    requires
        g.header@.len() == 4,
        forall|i: int| 0 <= i < 4 ==> #[trigger] (g.header@[i] as u32) <= 0x7f,
        !is_known(header_value(encode_utf8(g.header@))),
        g.raw_bytes@.len() % 4 == 0,
    ensures
        seg_step(header_value(encode_utf8(g.header@)), pad4(g.spec_compile()), files) == Some(Ok::<Option<TopView>, MapDataError>(Some(TopView::Unknown(g.raw_bytes@, g.header@)))),
        header_chars(header_value(encode_utf8(g.header@))) == g.header@,
{
    let h = g.header@;
    lemma_ascii4(h);
    lemma_name_bytes(encode_utf8(h));
    lemma_pad4_noop(g.raw_bytes@);
    let v = header_value(encode_utf8(h));
    assert(u32_bytes(v) == encode_utf8(h));
    assert forall|i: int| 0 <= i < 4 implies header_chars(v)[i] == h[i] by {
        let c = h[i];
        let b = c as u32 as u8;
        assert(b as u32 == c as u32);
        vstd::utf8::char_u32_cast(c, c as u32);
        assert(header_chars(v)[i] == b as char);
        assert(b as char == (b as u32) as char);
    }
    assert(header_chars(v) =~= h);
}

/// A savable segment is written under its name and size.
#[verifier::spinoff_prover]
#[verifier::rlimit(50)]
proof fn lemma_wrap_eq(w: TopLevelSegmentWrapper)
    requires
        top_savable(w),
    ensures
        is_known(top_magic(w)) <==> !(w is Unknown),
        w.spec_wrap() == u32_bytes(top_magic(w)) + u32_bytes(pad4(w.spec_compile()).len() as u32) + pad4(
            w.spec_compile(),
        ),
{
    lemma_names();
    if w is Unknown {
        let h = w->Unknown_0.header@;
        lemma_ascii4(h);
        lemma_name_bytes(encode_utf8(h));
    }
    assert(u32_bytes(top_magic(w)).len() == 4);
    assert(w.spec_wrap() == wrapped_segment(w.spec_compile(), u32_bytes(top_magic(w))));
}

/// Reading a savable segment's body gives it back.
#[verifier::spinoff_prover]
#[verifier::rlimit(50)]
proof fn lemma_seg_reload(w: TopLevelSegmentWrapper, files: Seq<ImbzFile>)
    requires
        top_savable(w),
    ensures
        seg_step(top_magic(w), pad4(w.spec_compile()), files) == Some(Ok::<Option<TopView>, MapDataError>(Some(w@))),
        w is Unknown ==> header_chars(top_magic(w)) == w->Unknown_0.header@,
{
    match w {
        TopLevelSegmentWrapper::SETD(x) => lemma_setd_reload(x, files),
        TopLevelSegmentWrapper::GRAD(g) => lemma_grad_reload(g, files),
        TopLevelSegmentWrapper::AREA(t) => lemma_area_reload(t, files),
        TopLevelSegmentWrapper::PATH(p) => lemma_path_reload(p, files),
        TopLevelSegmentWrapper::ALPH(a) => lemma_alph_reload(a, files),
        TopLevelSegmentWrapper::BRAK(b) => lemma_brak_reload(b, files),
        TopLevelSegmentWrapper::Unknown(g) => lemma_unknown_reload(g, files),
        TopLevelSegmentWrapper::SCEN(b) => lemma_scen_reload(b, files),
        _ => {},
    }
}

/// The name and body each segment is written with.
pub open spec fn top_raws(ws: Seq<TopLevelSegmentWrapper>) -> Seq<(u32, Seq<u8>)> {
    ws.map_values(|w: TopLevelSegmentWrapper| (top_magic(w), pad4(w.spec_compile())))
}

/// Every segment is savable.
pub open spec fn all_savable(ws: Seq<TopLevelSegmentWrapper>) -> bool {
    forall|i: int| 0 <= i < ws.len() ==> top_savable(#[trigger] ws[i])
}

/// A savable segment takes its name, its size and its padded body.
#[verifier::spinoff_prover]
#[verifier::rlimit(50)]
proof fn lemma_wrap_shape(w: TopLevelSegmentWrapper)
    requires
        top_savable(w),
    ensures
        w.spec_wrap().len() == 8 + pad4(w.spec_compile()).len(),
        w.spec_wrap().len() % 4 == 0,
{
    let b = pad4(w.spec_compile());
    lemma_wrap_eq(w);
    lemma_pad4_len(w.spec_compile());
    assert(u32_bytes(top_magic(w)).len() == 4 && u32_bytes(b.len() as u32).len() == 4);
    assert(w.spec_wrap().len() == 8 + b.len());
}

/// The written segments of the first ones come first.
proof fn lemma_top_wraps_prefix(ws: Seq<TopLevelSegmentWrapper>, j: int)
    requires
        0 <= j <= ws.len(),
    ensures
        top_wraps(ws.take(j)).len() <= top_wraps(ws).len(),
        top_wraps(ws).subrange(0, top_wraps(ws.take(j)).len() as int) == top_wraps(ws.take(j)),
    decreases ws.len(),
{
    if j == ws.len() {
        assert(ws.take(j) =~= ws);
    } else {
        let init = ws.drop_last();
        assert(init.take(j) =~= ws.take(j));
        lemma_top_wraps_prefix(init, j);
        let a = top_wraps(init);
        let b = top_wraps(ws.take(j));
        assert((a + ws.last().spec_wrap()).subrange(0, b.len() as int) =~= a.subrange(0, b.len() as int));
    }
}

/// Savable segments, written one after the other, fill whole words.
#[verifier::spinoff_prover]
#[verifier::rlimit(90)]
proof fn lemma_top_wraps_len(ws: Seq<TopLevelSegmentWrapper>)
    requires
        all_savable(ws),
    ensures
        top_wraps(ws).len() % 4 == 0,
        forall|i: int| 0 <= i < ws.len() ==> 8 + pad4((#[trigger] ws[i]).spec_compile()).len() <= top_wraps(ws).len(),
    decreases ws.len(),
{
    if ws.len() > 0 {
        let init = ws.drop_last();
        assert forall|i: int| 0 <= i < init.len() implies top_savable(#[trigger] init[i]) by {
            assert(init[i] == ws[i]);
        }
        lemma_top_wraps_len(init);
        assert(top_savable(ws[ws.len() - 1]));
        lemma_wrap_shape(ws.last());
        assert forall|i: int| 0 <= i < ws.len() implies 8 + pad4((#[trigger] ws[i]).spec_compile()).len() <= top_wraps(ws).len() by {
            if i < ws.len() - 1 {
                assert(init[i] == ws[i]);
            }
        }
    }
}

/// Reading the segments from the `k`-th on gives their names and bodies.
#[verifier::spinoff_prover]
#[verifier::rlimit(80)]
proof fn lemma_raws_read(s: Seq<u8>, ws: Seq<TopLevelSegmentWrapper>, k: int)
    requires
        all_savable(ws),
        top_wraps(ws).len() <= u32::MAX,
        0 <= k <= ws.len(),
        s.len() == 8 + top_wraps(ws).len(),
        s.subrange(8, s.len() as int) == top_wraps(ws),
    ensures
        raw_segments(s, 8 + top_wraps(ws.take(k)).len() as int) == Some(top_raws(ws.skip(k))),
    decreases ws.len() - k,
{
    lemma_top_wraps_prefix(ws, k);
    if k == ws.len() {
        assert(ws.take(k) =~= ws);
        assert(top_raws(ws.skip(k)) =~= Seq::<(u32, Seq<u8>)>::empty());
    } else {
        let p: int = 8 + top_wraps(ws.take(k)).len() as int;
        let x = ws[k];
        assert(top_savable(x));
        let w = x.spec_wrap();
        let b = pad4(x.spec_compile());
        let m = top_magic(x);
        let all = top_wraps(ws);
        lemma_top_wraps_len(ws);
        lemma_wrap_eq(x);
        lemma_wrap_shape(x);
        assert(ws.take(k + 1).drop_last() =~= ws.take(k));
        assert(top_wraps(ws.take(k + 1)) == top_wraps(ws.take(k)) + w);
        lemma_top_wraps_prefix(ws, k + 1);
        let pre = top_wraps(ws.take(k + 1));
        assert forall|i: int| 0 <= i < w.len() implies s[p + i] == #[trigger] w[i] by {
            let j = top_wraps(ws.take(k)).len() + i;
            assert(pre[j] == w[i]);
            assert(all.subrange(0, pre.len() as int)[j] == all[j]);
            assert(s.subrange(8, s.len() as int)[j] == s[8 + j]);
        }
        let L = b.len();
        assert(L <= u32::MAX);
        lemma_u32_roundtrip(m);
        lemma_u32_roundtrip(L as u32);
        let mb = u32_bytes(m);
        let lb = u32_bytes(L as u32);
        assert(w == mb + lb + b);
        assert(s[p] == mb[0] && s[p + 1] == mb[1] && s[p + 2] == mb[2] && s[p + 3] == mb[3]) by {
            assert(w[0] == mb[0] && w[1] == mb[1] && w[2] == mb[2] && w[3] == mb[3]);
        }
        assert(le32(s, p) == m);
        assert(s[p + 4] == lb[0] && s[p + 5] == lb[1] && s[p + 6] == lb[2] && s[p + 7] == lb[3]) by {
            assert(w[4] == lb[0] && w[5] == lb[1] && w[6] == lb[2] && w[7] == lb[3]);
        }
        assert(le32(s, p + 4) == L);
        assert(s.subrange(p + 8, p + 8 + L) =~= b) by {
            assert forall|i: int| 0 <= i < L implies s.subrange(p + 8, p + 8 + L)[i] == b[i] by {
                assert(w[8 + i] == b[i]);
            }
        }
        assert(p + 8 + L == 8 + pre.len());
        lemma_raws_read(s, ws, k + 1);
        assert(top_raws(ws.skip(k)) =~= seq![(m, b)] + top_raws(ws.skip(k + 1)));
    }
}

/// The names of the segments kept as read, in order.
pub open spec fn unknown_names(ws: Seq<TopLevelSegmentWrapper>) -> Seq<Seq<char>>
    decreases ws.len(),
{
    if ws.len() == 0 {
        Seq::empty()
    } else {
        (if ws[0] is Unknown {
            seq![ws[0]->Unknown_0.header@]
        } else {
            Seq::empty()
        }) + unknown_names(ws.skip(1))
    }
}

/// Reading the written names and bodies gives the segments back, and the
/// names of those kept as read.
#[verifier::spinoff_prover]
#[verifier::rlimit(80)]
proof fn lemma_fold_reload(ws: Seq<TopLevelSegmentWrapper>, files: Seq<ImbzFile>)
    requires
        all_savable(ws),
    ensures
        map_fold(top_raws(ws), files) == Some(
            Ok::<(Seq<TopView>, Seq<Seq<char>>), MapDataError>((top_views(ws), unknown_names(ws))),
        ),
    decreases ws.len(),
{
    let raws = top_raws(ws);
    if ws.len() == 0 {
        assert(top_views(ws) =~= Seq::<TopView>::empty());
    } else {
        let rest = ws.skip(1);
        assert forall|i: int| 0 <= i < rest.len() implies top_savable(#[trigger] rest[i]) by {
            assert(rest[i] == ws[i + 1]);
        }
        lemma_fold_reload(rest, files);
        let x = ws[0];
        assert(top_savable(x));
        lemma_seg_reload(x, files);
        lemma_wrap_eq(x);
        assert(raws[0] == (top_magic(x), pad4(x.spec_compile())));
        assert(raws.skip(1) =~= top_raws(rest));
        assert(top_views(ws) =~= seq![x@] + top_views(rest));
        if x is Unknown {
            assert(unknown_names(ws) == seq![header_chars(top_magic(x))] + unknown_names(rest));
        } else {
            assert(unknown_names(ws) =~= unknown_names(rest));
        }
    }
}

/// Reading a map file as saving writes it (the compiled segments under
/// "SET", before compression) gives back every segment, in order, and
/// lists the names of those kept as read. This holds for the sprite,
/// gradient, trigger, path, blending, BRAK, background and kept-as-read
/// segments that `top_savable` admits, and while the segments' bytes fit
/// the 32-bit sizes the file stores.
#[verifier::spinoff_prover]
#[verifier::rlimit(50)]
pub proof fn law_map_reload(ws: Seq<TopLevelSegmentWrapper>, files: Seq<ImbzFile>)
    requires
        all_savable(ws),
        top_wraps(ws).len() <= u32::MAX,
    ensures
        map_result(wrapped_segment_u32(top_wraps(ws), SET_MAGIC), files) == Some(
            Ok::<(Seq<TopView>, Seq<Seq<char>>), MapDataError>((top_views(ws), unknown_names(ws))),
        ),
{
    let body = top_wraps(ws);
    lemma_top_wraps_len(ws);
    lemma_pad4_noop(body);
    let s = wrapped_segment_u32(body, SET_MAGIC);
    let h = u32_bytes(SET_MAGIC);
    assert(s == h + u32_bytes(body.len() as u32) + body);
    assert(h[0] == 0x53 && h[1] == 0x45 && h[2] == 0x54);
    assert(s[0] == h[0] && s[1] == h[1] && s[2] == h[2]);
    assert(s.subrange(8, s.len() as int) =~= body);
    assert(ws.take(0) =~= Seq::<TopLevelSegmentWrapper>::empty());
    lemma_raws_read(s, ws, 0);
    assert(ws.skip(0) =~= ws);
    lemma_fold_reload(ws, files);
}

} // verus!
