//! Reading a course file gives back the maps that writing it stored.
use vstd::prelude::*;
use vstd::string::*;
use vstd::utf8::encode_utf8;
use crate::bytes::{c_str_end, le16, le32, u16_bytes, u32_bytes, pad4, pad_len4, zeros, lemma_u16_roundtrip, lemma_u32_roundtrip};
use crate::compression::{lemma_pad4_len, lemma_pad4_noop, wrapped_segment};
use crate::course::{
    pad_end, MapInfoView, cscn_at, cscns_from, course_parse, entrance_at, entrance_bytes, entrances_bytes, exit_at, exit_bytes,
    exits_bytes, map_info_bytes, maps_wraps, CourseInfo, CourseMapInfo, EntranceView, ExitView, ParsedMap,
};
use crate::types::Compilable;

verus! {

/// What reading gives back for a map entry that writing stored.
pub open spec fn parsed_of(m: CourseMapInfo) -> ParsedMap {
    ParsedMap { entrances: m@.entrances, exits: m@.exits, music: m.map_music, name: encode_utf8(m.map_filename_noext@) }
}

/// A map entry that reading gives back as written: its name is seven
/// bytes, none of them zero (the reader takes a 16-byte field that the
/// writer fills with the name, a terminator and eight zero bytes), and
/// its counts fit their 16-bit and 8-bit fields.
pub open spec fn map_savable(m: CourseMapInfo) -> bool {
    &&& encode_utf8(m.map_filename_noext@).len() == 7
    &&& forall|i: int| 0 <= i < 7 ==> #[trigger] encode_utf8(m.map_filename_noext@)[i] != 0
    &&& m.map_entrances@.len() <= 0xffff
    &&& m.map_exits@.len() <= 0xff
}

proof fn lemma_magic_lens()
    ensures
        encode_utf8("CSCN"@).len() == 4,
        encode_utf8("CRSB"@).len() == 4,
{
    reveal_strlit("CSCN");
    reveal_strlit("CRSB");
    reveal_with_fuel(encode_utf8, 5);
    assert("CSCN"@.drop_first().drop_first().drop_first().drop_first().len() == 0);
}

proof fn lemma_entrance_record(e: EntranceView)
    ensures
        entrance_bytes(e).len() == 6,
        entrance_at(entrance_bytes(e), 0) == e,
{
    lemma_u16_roundtrip(e.x);
    lemma_u16_roundtrip(e.y);
    lemma_u16_roundtrip(e.flags);
    let b = entrance_bytes(e);
    assert(b[0] == u16_bytes(e.x)[0] && b[1] == u16_bytes(e.x)[1]);
    assert(b[2] == u16_bytes(e.y)[0] && b[3] == u16_bytes(e.y)[1]);
    assert(b[4] == u16_bytes(e.flags)[0] && b[5] == u16_bytes(e.flags)[1]);
}

proof fn lemma_exit_record(e: ExitView)
    ensures
        exit_bytes(e).len() == 8,
        exit_at(exit_bytes(e), 0) == e,
{
    lemma_u16_roundtrip(e.x);
    lemma_u16_roundtrip(e.y);
    lemma_u16_roundtrip(e.exit_type);
    let b = exit_bytes(e);
    assert(b[0] == u16_bytes(e.x)[0] && b[1] == u16_bytes(e.x)[1]);
    assert(b[2] == u16_bytes(e.y)[0] && b[3] == u16_bytes(e.y)[1]);
    assert(b[4] == u16_bytes(e.exit_type)[0] && b[5] == u16_bytes(e.exit_type)[1]);
}

/// The six bytes at `a` in `s` are those at `b` in `t`.
pub open spec fn same6(s: Seq<u8>, a: int, t: Seq<u8>, b: int) -> bool {
    &&& s[a] == t[b] && s[a + 1] == t[b + 1] && s[a + 2] == t[b + 2]
    &&& s[a + 3] == t[b + 3] && s[a + 4] == t[b + 4] && s[a + 5] == t[b + 5]
}

/// The eight bytes at `a` in `s` are those at `b` in `t`.
pub open spec fn same8(s: Seq<u8>, a: int, t: Seq<u8>, b: int) -> bool {
    &&& same6(s, a, t, b)
    &&& s[a + 6] == t[b + 6] && s[a + 7] == t[b + 7]
}

proof fn lemma_entrance_same(s: Seq<u8>, a: int, t: Seq<u8>, b: int)
    requires
        same6(s, a, t, b),
    ensures
        entrance_at(s, a) == entrance_at(t, b),
{
    assert(s[a] == t[b] && s[a + 1] == t[b + 1] && s[a + 2] == t[b + 2]);
    assert(s[a + 3] == t[b + 3] && s[a + 4] == t[b + 4] && s[a + 5] == t[b + 5]);
}

proof fn lemma_exit_same(s: Seq<u8>, a: int, t: Seq<u8>, b: int)
    requires
        same8(s, a, t, b),
    ensures
        exit_at(s, a) == exit_at(t, b),
{
    assert(s[a] == t[b] && s[a + 1] == t[b + 1] && s[a + 2] == t[b + 2] && s[a + 3] == t[b + 3]);
    assert(s[a + 4] == t[b + 4] && s[a + 5] == t[b + 5] && s[a + 6] == t[b + 6] && s[a + 7] == t[b + 7]);
}

/// Reading the entrances back from their bytes.
proof fn lemma_entrances_read(es: Seq<EntranceView>)
    ensures
        entrances_bytes(es).len() == 6 * es.len(),
        forall|k: int| 0 <= k < es.len() ==> #[trigger] entrance_at(entrances_bytes(es), 6 * k) == es[k],
    decreases es.len(),
{
    if es.len() > 0 {
        let init = es.drop_last();
        lemma_entrances_read(init);
        let a = entrances_bytes(init);
        let b = entrance_bytes(es.last());
        lemma_entrance_record(es.last());
        assert forall|k: int| 0 <= k < es.len() implies #[trigger] entrance_at(entrances_bytes(es), 6 * k) == es[k] by {
            if k < es.len() - 1 {
                assert(entrance_at(a, 6 * k) == init[k]);
                assert(same6(a + b, 6 * k, a, 6 * k));
                lemma_entrance_same(a + b, 6 * k, a, 6 * k);
            } else {
                assert(same6(a + b, 6 * k, b, 0));
                lemma_entrance_same(a + b, 6 * k, b, 0);
            }
        }
    }
}

/// Reading the exits back from their bytes.
proof fn lemma_exits_read(es: Seq<ExitView>)
    ensures
        exits_bytes(es).len() == 8 * es.len(),
        forall|k: int| 0 <= k < es.len() ==> #[trigger] exit_at(exits_bytes(es), 8 * k) == es[k],
    decreases es.len(),
{
    if es.len() > 0 {
        let init = es.drop_last();
        lemma_exits_read(init);
        let a = exits_bytes(init);
        let b = exit_bytes(es.last());
        lemma_exit_record(es.last());
        assert forall|k: int| 0 <= k < es.len() implies #[trigger] exit_at(exits_bytes(es), 8 * k) == es[k] by {
            if k < es.len() - 1 {
                assert(exit_at(a, 8 * k) == init[k]);
                assert(same8(a + b, 8 * k, a, 8 * k));
                lemma_exit_same(a + b, 8 * k, a, 8 * k);
            } else {
                assert(same8(a + b, 8 * k, b, 0));
                lemma_exit_same(a + b, 8 * k, b, 0);
            }
        }
    }
}


/// The CSCN segment `compile` and `wrap` write for a map.
pub open spec fn cscn_wrap(m: CourseMapInfo) -> Seq<u8> {
    wrapped_segment(map_info_bytes(m@), encode_utf8("CSCN"@))
}

/// The part of a map entry before the padding that ends the entrances.
pub open spec fn info_head(v: MapInfoView) -> Seq<u8> {
    u16_bytes(v.entrances.len() as u16) + seq![v.exits.len() as u8, v.music] + encode_utf8(v.name) + seq![0u8]
        + zeros(8) + entrances_bytes(v.entrances)
}

/// The shape of a map entry's bytes.
proof fn lemma_info_shape(m: CourseMapInfo)
    requires
        map_savable(m),
    ensures
        ({
            let v = m@;
            let head = info_head(v);
            let x = exits_bytes(v.exits);
            &&& head.len() == 20 + 6 * v.entrances.len()
            &&& map_info_bytes(v) == pad4(head) + x
            &&& pad4(head).len() == head.len() + pad_len4(head.len())
            &&& pad4(head).subrange(0, head.len() as int) == head
            &&& x.len() == 8 * v.exits.len()
            &&& map_info_bytes(v).len() % 4 == 0
            &&& cscn_wrap(m) == encode_utf8("CSCN"@) + u32_bytes(map_info_bytes(v).len() as u32) + map_info_bytes(v)
            &&& cscn_wrap(m).len() == 8 + map_info_bytes(v).len()
        }),
{
    let v = m@;
    let head = info_head(v);
    let x = exits_bytes(v.exits);
    lemma_entrances_read(v.entrances);
    lemma_exits_read(v.exits);
    assert(v.name == m.map_filename_noext@);
    assert(head.len() == 20 + 6 * v.entrances.len());
    lemma_pad4_len(head);
    assert((pad4(head) + x).len() % 4 == 0);
    lemma_pad4_noop(pad4(head) + x);
    assert(map_info_bytes(v) == pad4(head) + x);
    lemma_magic_lens();
    lemma_pad4_noop(map_info_bytes(v));
}

/// Where the fields of a map entry's head lie.
proof fn lemma_head_bytes(m: CourseMapInfo)
    requires
        map_savable(m),
    ensures
        ({
            let v = m@;
            let head = info_head(v);
            let name = encode_utf8(v.name);
            let ents = entrances_bytes(v.entrances);
            &&& head[0] == u16_bytes(v.entrances.len() as u16)[0]
            &&& head[1] == u16_bytes(v.entrances.len() as u16)[1]
            &&& head[2] == v.exits.len() as u8
            &&& head[3] == v.music
            &&& forall|i: int| 0 <= i < 7 ==> #[trigger] name[i] == head[4 + i]
            &&& head[11] == 0
            &&& forall|t: int| 0 <= t < ents.len() ==> #[trigger] ents[t] == head[20 + t]
        }),
{
    let v = m@;
    assert(v.name == m.map_filename_noext@);
    let c = u16_bytes(v.entrances.len() as u16);
    let name = encode_utf8(v.name);
    let ents = entrances_bytes(v.entrances);
    let a = c + seq![v.exits.len() as u8, v.music];
    let b = a + name;
    let d = b + seq![0u8];
    let f = d + zeros(8);
    let head = f + ents;
    assert(info_head(v) == head);
    assert(a.len() == 4 && b.len() == 11 && d.len() == 12 && f.len() == 20);
    assert(head[0] == c[0] && head[1] == c[1]);
    assert(head[2] == a[2] && head[3] == a[3]);
    assert forall|i: int| 0 <= i < 7 implies #[trigger] name[i] == head[4 + i] by {
        assert(head[4 + i] == b[4 + i]);
    }
    assert(head[11] == d[11]);
}

/// Where the head and the exits lie in a map entry's body.
proof fn lemma_body_bytes(m: CourseMapInfo)
    requires
        map_savable(m),
    ensures
        ({
            let v = m@;
            let head = info_head(v);
            let body = map_info_bytes(v);
            let x = exits_bytes(v.exits);
            &&& forall|i: int| 0 <= i < head.len() ==> #[trigger] head[i] == body[i]
            &&& forall|t: int| 0 <= t < x.len() ==> #[trigger] x[t] == body[pad4(head).len() + t]
        }),
{
    lemma_info_shape(m);
    let v = m@;
    let head = info_head(v);
    let ph = pad4(head);
    let body = map_info_bytes(v);
    assert forall|i: int| 0 <= i < head.len() implies #[trigger] head[i] == body[i] by {
        assert(ph.subrange(0, head.len() as int)[i] == ph[i]);
    }
}

/// The bytes of the body as `s` holds them after the CSCN name and size.
proof fn lemma_window_body(s: Seq<u8>, p: int, m: CourseMapInfo)
    requires
        map_savable(m),
        0 <= p,
        p + cscn_wrap(m).len() <= s.len(),
        s.subrange(p, p + cscn_wrap(m).len()) == cscn_wrap(m),
    ensures
        forall|i: int| 0 <= i < map_info_bytes(m@).len() ==> #[trigger] map_info_bytes(m@)[i] == s[p + 8 + i],
{
    lemma_info_shape(m);
    lemma_magic_lens();
    let w = cscn_wrap(m);
    let body = map_info_bytes(m@);
    assert forall|i: int| 0 <= i < body.len() implies #[trigger] body[i] == s[p + 8 + i] by {
        assert(s.subrange(p, p + w.len())[8 + i] == s[p + (8 + i)]);
        assert(w[8 + i] == body[i]);
    }
}

/// What the reader takes from the head of the entry at `p`: the counts,
/// the music, the name and the entrances.
#[verifier::spinoff_prover]
#[verifier::rlimit(60)]
proof fn lemma_window_head(s: Seq<u8>, p: int, m: CourseMapInfo)
    requires
        map_savable(m),
        0 <= p,
        p + cscn_wrap(m).len() <= s.len(),
        s.subrange(p, p + cscn_wrap(m).len()) == cscn_wrap(m),
    ensures
        le16(s, p + 8) as int == m@.entrances.len(),
        s[p + 10] as int == m@.exits.len(),
        s[p + 11] == m.map_music,
        s.subrange(p + 12, c_str_end(s, p + 12)) == encode_utf8(m.map_filename_noext@),
        forall|k: int| 0 <= k < m@.entrances.len() ==> #[trigger] entrance_at(s, p + 28 + 6 * k) == m@.entrances[k],
        p + 28 + 6 * m@.entrances.len() == p + 8 + info_head(m@).len(),
{
    lemma_info_shape(m);
    lemma_head_bytes(m);
    lemma_body_bytes(m);
    lemma_window_body(s, p, m);
    lemma_entrances_read(m@.entrances);
    let v = m@;
    let head = info_head(v);
    let body = map_info_bytes(v);
    let name = encode_utf8(v.name);
    let ents = entrances_bytes(v.entrances);
    let ne = v.entrances.len();
    assert(v.name == m.map_filename_noext@);
    let c = u16_bytes(ne as u16);
    lemma_u16_roundtrip(ne as u16);
    assert(s[p + 8 + 0] == body[0] && body[0] == head[0]);
    assert(s[p + 8 + 1] == body[1] && body[1] == head[1]);
    assert(le16(s, p + 8) == le16(c, 0));
    assert(s[p + 8 + 2] == body[2] && body[2] == head[2]);
    assert(s[p + 8 + 3] == body[3] && body[3] == head[3]);
    assert forall|i: int| p + 12 <= i < p + 12 + 7 implies s[i] != 0 by {
        let j = i - p - 12;
        assert(name[j] == head[4 + j] && head[4 + j] == body[4 + j]);
        assert(body[4 + j] == s[p + 8 + (4 + j)]);
    }
    assert(s[p + 8 + 11] == body[11] && body[11] == head[11]);
    crate::bytes::lemma_c_str_end_unique(s, p + 12, p + 19);
    assert forall|j: int| 0 <= j < 7 implies #[trigger] s.subrange(p + 12, p + 19)[j] == name[j] by {
        assert(name[j] == head[4 + j] && head[4 + j] == body[4 + j]);
        assert(body[4 + j] == s[p + 8 + (4 + j)]);
    }
    assert(s.subrange(p + 12, c_str_end(s, p + 12)) =~= name);
    let q = p + 28;
    assert forall|t: int| 0 <= t < ents.len() implies s[q + t] == #[trigger] ents[t] by {
        assert(ents[t] == head[20 + t] && head[20 + t] == body[20 + t]);
        assert(body[20 + t] == s[p + 8 + (20 + t)]);
    }
    assert forall|k: int| 0 <= k < ne implies #[trigger] entrance_at(s, p + 28 + 6 * k) == v.entrances[k] by {
        assert(same6(s, q + 6 * k, ents, 6 * k));
        lemma_entrance_same(s, q + 6 * k, ents, 6 * k);
    }
}

/// What the reader takes after the entrances: the padding and the exits,
/// ending where the entry ends.
#[verifier::spinoff_prover]
#[verifier::rlimit(60)]
proof fn lemma_window_exits(s: Seq<u8>, p: int, m: CourseMapInfo)
    requires
        map_savable(m),
        0 <= p,
        p % 4 == 0,
        p + cscn_wrap(m).len() <= s.len(),
        s.subrange(p, p + cscn_wrap(m).len()) == cscn_wrap(m),
    ensures
        ({
            let e = p + 8 + pad4(info_head(m@)).len();
            &&& pad_end(p + 8 + info_head(m@).len(), s.len() as int) == Some(e)
            &&& forall|k: int| 0 <= k < m@.exits.len() ==> #[trigger] exit_at(s, e + 8 * k) == m@.exits[k]
            &&& e + 8 * m@.exits.len() == p + cscn_wrap(m).len()
            &&& p + 8 + info_head(m@).len() <= s.len()
        }),
{
    lemma_info_shape(m);
    lemma_body_bytes(m);
    lemma_window_body(s, p, m);
    lemma_exits_read(m@.exits);
    let v = m@;
    let head = info_head(v);
    let ph = pad4(head);
    let x = exits_bytes(v.exits);
    let body = map_info_bytes(v);
    let r = p + 8 + head.len();
    assert(pad_len4(r as nat) == pad_len4(head.len()));
    let e = p + 8 + ph.len();
    assert(pad_end(r, s.len() as int) == Some(e));
    assert forall|t: int| 0 <= t < x.len() implies s[e + t] == #[trigger] x[t] by {
        assert(x[t] == body[ph.len() + t]);
        assert(body[ph.len() + t] == s[p + 8 + (ph.len() + t)]);
    }
    assert forall|k: int| 0 <= k < v.exits.len() implies #[trigger] exit_at(s, e + 8 * k) == v.exits[k] by {
        assert(same8(s, e + 8 * k, x, 8 * k));
        lemma_exit_same(s, e + 8 * k, x, 8 * k);
    }
}

/// Reading the CSCN entry that `s` holds at `p` gives the map back, and
/// the next entry starts right after it.
#[verifier::spinoff_prover]
#[verifier::rlimit(60)]
proof fn lemma_cscn_window(s: Seq<u8>, p: int, m: CourseMapInfo)
    requires
        map_savable(m),
        0 <= p,
        p % 4 == 0,
        p + cscn_wrap(m).len() <= s.len(),
        s.subrange(p, p + cscn_wrap(m).len()) == cscn_wrap(m),
    ensures
        cscn_at(s, p) == Some((parsed_of(m), p + cscn_wrap(m).len())),
{
    lemma_window_head(s, p, m);
    lemma_window_exits(s, p, m);
    lemma_info_shape(m);
    let v = m@;
    let (pm, next) = cscn_at(s, p)->0;
    assert(pm.entrances =~= v.entrances);
    assert(pm.exits =~= v.exits);
}

/// The written entries of the first maps come first.
proof fn lemma_wraps_prefix(ms: Seq<CourseMapInfo>, j: int)
    requires
        0 <= j <= ms.len(),
    ensures
        maps_wraps(ms.take(j)).len() <= maps_wraps(ms).len(),
        maps_wraps(ms).subrange(0, maps_wraps(ms.take(j)).len() as int) == maps_wraps(ms.take(j)),
    decreases ms.len(),
{
    if j == ms.len() {
        assert(ms.take(j) =~= ms);
    } else {
        let init = ms.drop_last();
        assert(init.take(j) =~= ms.take(j));
        lemma_wraps_prefix(init, j);
        let a = maps_wraps(init);
        let b = maps_wraps(ms.take(j));
        assert(maps_wraps(ms) == a + cscn_wrap(ms.last()));
        assert((a + cscn_wrap(ms.last())).subrange(0, b.len() as int) =~= a.subrange(0, b.len() as int));
    }
}

/// A written entry takes a multiple of four bytes.
proof fn lemma_wrap_len(m: CourseMapInfo)
    requires
        map_savable(m),
    ensures
        cscn_wrap(m).len() % 4 == 0,
{
    lemma_info_shape(m);
}

/// The written entries take a multiple of four bytes.
#[verifier::spinoff_prover]
#[verifier::rlimit(40)]
proof fn lemma_wraps_len(ms: Seq<CourseMapInfo>)
    requires
        forall|i: int| 0 <= i < ms.len() ==> map_savable(#[trigger] ms[i]),
    ensures
        maps_wraps(ms).len() % 4 == 0,
    decreases ms.len(),
{
    if ms.len() > 0 {
        let init = ms.drop_last();
        assert forall|i: int| 0 <= i < init.len() implies map_savable(#[trigger] init[i]) by {
            assert(init[i] == ms[i]);
        }
        lemma_wraps_len(init);
        assert(map_savable(ms[ms.len() - 1]));
        lemma_wrap_len(ms.last());
        assert(maps_wraps(ms) == maps_wraps(init) + cscn_wrap(ms.last()));
    }
}

/// Reading the entries from the `k`-th on gives those maps back.
#[verifier::spinoff_prover]
#[verifier::rlimit(60)]
proof fn lemma_cscns_read(s: Seq<u8>, ms: Seq<CourseMapInfo>, k: int)
    requires
        forall|i: int| 0 <= i < ms.len() ==> map_savable(#[trigger] ms[i]),
        0 <= k <= ms.len(),
        12 + maps_wraps(ms).len() <= s.len(),
        s.subrange(12, 12 + maps_wraps(ms).len() as int) == maps_wraps(ms),
    ensures
        cscns_from(s, 12 + maps_wraps(ms.take(k)).len() as int, (ms.len() - k) as nat) == Some(
            ms.skip(k).map_values(|m: CourseMapInfo| parsed_of(m)),
        ),
    decreases ms.len() - k,
{
    let f = |m: CourseMapInfo| parsed_of(m);
    if k == ms.len() {
        assert(ms.skip(k).map_values(f) =~= Seq::<ParsedMap>::empty());
    } else {
        let p: int = 12 + maps_wraps(ms.take(k)).len() as int;
        let w = cscn_wrap(ms[k]);
        let all = maps_wraps(ms);
        assert(ms.take(k + 1).drop_last() =~= ms.take(k));
        assert(maps_wraps(ms.take(k + 1)) == maps_wraps(ms.take(k)) + w);
        lemma_wraps_prefix(ms, k + 1);
        let pre = maps_wraps(ms.take(k + 1));
        assert(s.subrange(p, p + w.len() as int) =~= w) by {
            assert forall|i: int| 0 <= i < w.len() implies s.subrange(p, p + w.len() as int)[i] == w[i] by {
                let j = maps_wraps(ms.take(k)).len() + i;
                assert(pre[j] == w[i]);
                assert(all.subrange(0, pre.len() as int)[j] == all[j]);
                assert(s.subrange(12, 12 + all.len() as int)[j] == s[12 + j]);
            }
        }
        assert forall|i: int| 0 <= i < ms.take(k).len() implies map_savable(#[trigger] ms.take(k)[i]) by {
            assert(ms.take(k)[i] == ms[i]);
        }
        lemma_wraps_len(ms.take(k));
        assert(map_savable(ms[k]));
        lemma_cscn_window(s, p, ms[k]);
        lemma_cscns_read(s, ms, k + 1);
        assert(p + w.len() == 12 + maps_wraps(ms.take(k + 1)).len());
        assert(ms.skip(k).map_values(f) =~= seq![f(ms[k])] + ms.skip(k + 1).map_values(f));
    }
}

/// Reading a course file that writing stored gives back every map: its
/// entrances, exits, music and name, in order. This holds when each map's
/// name is seven bytes without a zero byte (the file keeps names in a
/// sixteen-byte field that the writer fills with the name, a terminator
/// and eight zero bytes) and its counts fit their fields.
#[verifier::spinoff_prover]
#[verifier::rlimit(60)]
pub proof fn law_course_roundtrip(c: CourseInfo)
    requires
        c.level_map_data@.len() <= u32::MAX,
        forall|i: int| 0 <= i < c.level_map_data@.len() ==> map_savable(#[trigger] c.level_map_data@[i]),
    ensures
        course_parse(wrapped_segment(c.spec_compile(), encode_utf8("CRSB"@))) == Some(
            Some(c.level_map_data@.map_values(|m: CourseMapInfo| parsed_of(m))),
        ),
{
    let ms = c.level_map_data@;
    let n = ms.len() as u32;
    let mw = maps_wraps(ms);
    lemma_wraps_len(ms);
    lemma_magic_lens();
    let body = u32_bytes(n) + mw;
    lemma_pad4_noop(body);
    assert(c.spec_compile() == body);
    let s = wrapped_segment(body, encode_utf8("CRSB"@));
    lemma_pad4_noop(body);
    assert(s == encode_utf8("CRSB"@) + u32_bytes(body.len() as u32) + body);
    assert(s.len() == 12 + mw.len());
    lemma_u32_roundtrip(n);
    assert(s[8] == u32_bytes(n)[0] && s[9] == u32_bytes(n)[1] && s[10] == u32_bytes(n)[2] && s[11] == u32_bytes(n)[3]);
    assert(crate::course::le32_at(s, 8) == n);
    assert(s.subrange(12, 12 + mw.len() as int) =~= mw);
    assert(ms.take(0) =~= Seq::<CourseMapInfo>::empty());
    lemma_cscns_read(s, ms, 0);
    assert(ms.skip(0) =~= ms);
}

} // verus!
