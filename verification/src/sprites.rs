//! SETD: the sprites placed on a map, and sprite data of the game.
use vstd::prelude::*;
use vstd::string::*;
use vstd::utf8::encode_utf8;
use crate::bytes::{le16, u16_bytes, push_u16, push_all, read_u16, lemma_u16_roundtrip};
use crate::compression::{segment_wrap, wrapped_segment};
use crate::ids::new_uuid;
use crate::segments::{DataSegment, TopLevelSegment};

verus! {

/// A sprite placed on a map. Holds no graphics.
#[derive(Clone, Debug, PartialEq)]
pub struct LevelSprite {
    pub object_id: u16,
    pub settings_length: u16,
    pub x_position: u16,
    pub y_position: u16,
    pub settings: Vec<u8>,
    pub uuid: u128,
}

/// What a sprite stores in the file.
pub ghost struct SpriteView {
    pub object_id: u16,
    pub settings_length: u16,
    pub x_position: u16,
    pub y_position: u16,
    pub settings: Seq<u8>,
}

impl View for LevelSprite {
    type V = SpriteView;

    open spec fn view(&self) -> SpriteView {
        SpriteView {
            object_id: self.object_id,
            settings_length: self.settings_length,
            x_position: self.x_position,
            y_position: self.y_position,
            settings: self.settings@,
        }
    }
}

impl Default for LevelSprite {
    fn default() -> (r: Self)
        ensures
            r@ == (SpriteView {
                object_id: 0xfff0,
                settings_length: 0xfff0,
                x_position: 0x10,
                y_position: 0x10,
                settings: Seq::empty(),
            }),
            r.uuid == 0,
    {
        LevelSprite {
            object_id: 0xfff0,
            settings_length: 0xfff0,
            x_position: 0x10,
            y_position: 0x10,
            settings: Vec::new(),
            uuid: 0,
        }
    }
}

/// A sprite record can be read at `p`: its eight-byte head and its
/// settings lie inside the data.
pub open spec fn sprite_fits(s: Seq<u8>, p: int) -> bool {
    0 <= p && p + 8 <= s.len() && p + 8 + le16(s, p + 2) <= s.len()
}

/// The sprite stored at `p`.
pub open spec fn sprite_at(s: Seq<u8>, p: int) -> SpriteView {
    SpriteView {
        object_id: le16(s, p),
        settings_length: le16(s, p + 2),
        x_position: le16(s, p + 4),
        y_position: le16(s, p + 6),
        settings: s.subrange(p + 8, p + 8 + le16(s, p + 2)),
    }
}

/// The bytes of a sprite.
pub open spec fn sprite_bytes(v: SpriteView) -> Seq<u8> {
    u16_bytes(v.object_id) + u16_bytes(v.settings_length) + u16_bytes(v.x_position) + u16_bytes(
        v.y_position,
    ) + v.settings
}

impl LevelSprite {
    /// Reads the sprite at `pos`, giving it a fresh identifier; also gives
    /// the position after it.
    pub fn from_cursor(data: &[u8], pos: usize) -> (r: (Self, usize))
        requires
            sprite_fits(data@, pos as int),
        ensures
            r.0@ == sprite_at(data@, pos as int),
            r.1 == pos + 8 + le16(data@, pos + 2),
    {
        let n = data.len();
        assert(pos + 8 <= n);
        let object_id = read_u16(data, pos);
        let settings_length = read_u16(data, pos + 2);
        let x_position = read_u16(data, pos + 4);
        let y_position = read_u16(data, pos + 6);
        let start = pos + 8;
        let end = start + settings_length as usize;
        let mut settings: Vec<u8> = Vec::new();
        let mut i = start;
        while i < end
            invariant
                start <= i <= end <= data@.len(),
                settings@ == data@.subrange(start as int, i as int),
            decreases end - i,
        {
            settings.push(data[i]);
            i += 1;
            assert(settings@ =~= data@.subrange(start as int, i as int));
        }
        (LevelSprite { object_id, settings_length, x_position, y_position, settings, uuid: new_uuid() }, end)
    }

    /// Reads the sprite at the start of `vec`.
    pub fn from_vec(vec: &mut Vec<u8>) -> (r: Self)
        requires
            sprite_fits(old(vec)@, 0),
        ensures
            r@ == sprite_at(old(vec)@, 0),
            final(vec)@ == old(vec)@,
    {
        let (spr, _) = Self::from_cursor(vec.as_slice(), 0);
        spr
    }

    /// The sprite record: the four fields, then the settings.
    pub fn compile(&self) -> (r: Vec<u8>)
        ensures
            r@ == sprite_bytes(self@),
    {
        let mut comp: Vec<u8> = Vec::new();
        push_u16(&mut comp, self.object_id);
        push_u16(&mut comp, self.settings_length);
        push_u16(&mut comp, self.x_position);
        push_u16(&mut comp, self.y_position);
        push_all(&mut comp, self.settings.as_slice());
        assert(comp@ =~= sprite_bytes(self@));
        comp
    }

    /// A new sprite with a fresh identifier; the settings length is that
    /// of `settings`, cut to 16 bits.
    pub fn new(id: u16, x_pos: u16, y_pos: u16, settings: Vec<u8>) -> (r: Self)
        ensures
            r@ == (SpriteView {
                object_id: id,
                settings_length: settings@.len() as u16,
                x_position: x_pos,
                y_position: y_pos,
                settings: settings@,
            }),
            r.uuid != crate::ids::NIL_UUID,
    {
        let len = settings.len() as u16;
        LevelSprite {
            object_id: id,
            settings_length: len,
            x_position: x_pos,
            y_position: y_pos,
            settings,
            uuid: new_uuid(),
        }
    }
}

#[derive(Clone, PartialEq, Debug)]
pub struct LevelSpriteSet {
    pub sprites: Vec<LevelSprite>,
}

impl Default for LevelSpriteSet {
    fn default() -> (r: Self)
        ensures
            r.sprites@.len() == 0,
    {
        LevelSpriteSet { sprites: Vec::new() }
    }
}

/// The sprites stored from `p` to the end; `None` when the last one runs
/// past the end of the data.
pub open spec fn sprites_from(s: Seq<u8>, p: int) -> Option<Seq<SpriteView>>
    decreases s.len() - p,
{
    if p < 0 || p >= s.len() {
        Some(Seq::empty())
    } else if !sprite_fits(s, p) {
        None
    } else {
        match sprites_from(s, p + 8 + le16(s, p + 2)) {
            Some(rest) => Some(seq![sprite_at(s, p)] + rest),
            None => None,
        }
    }
}

/// The sprites of a set, as stored.
pub open spec fn sprite_views(ss: Seq<LevelSprite>) -> Seq<SpriteView> {
    ss.map_values(|x: LevelSprite| x@)
}

/// The bytes of a sequence of sprites.
pub open spec fn sprites_bytes(vs: Seq<SpriteView>) -> Seq<u8>
    decreases vs.len(),
{
    if vs.len() == 0 {
        Seq::empty()
    } else {
        sprites_bytes(vs.drop_last()) + sprite_bytes(vs.last())
    }
}

impl LevelSpriteSet {
    /// Reads a SETD body, or gives `None` when a sprite runs past the end.
    pub(crate) fn parse(byte_data: &Vec<u8>) -> (r: Option<Self>)
        ensures
            r is None <==> sprites_from(byte_data@, 0) is None,
            r matches Some(set) ==> sprite_views(set.sprites@) == sprites_from(byte_data@, 0)->0,
    {
        let mut seg = LevelSpriteSet::default();
        let mut pos: usize = 0;
        let ghost mut acc: Seq<SpriteView> = Seq::empty();
        assert(sprite_views(seg.sprites@) =~= acc);
        while pos < byte_data.len()
            invariant
                pos <= byte_data@.len(),
                sprite_views(seg.sprites@) == acc,
                sprites_from(byte_data@, 0) == (match sprites_from(byte_data@, pos as int) {
                    Some(rest) => Some(acc + rest),
                    None => None,
                }),
            decreases byte_data@.len() - pos,
        {
            let n = byte_data.len();
            if n - pos < 8 {
                return None;
            }
            let len = read_u16(byte_data.as_slice(), pos + 2) as usize;
            if n - pos - 8 < len {
                return None;
            }
            let (spr, next) = LevelSprite::from_cursor(byte_data.as_slice(), pos);
            proof {
                let v = sprite_at(byte_data@, pos as int);
                match sprites_from(byte_data@, next as int) {
                    Some(rest) => {
                        assert(acc + (seq![v] + rest) =~= acc.push(v) + rest);
                    },
                    None => {},
                }
                assert(sprite_views(seg.sprites@.push(spr)) =~= acc.push(v));
                acc = acc.push(v);
            }
            seg.sprites.push(spr);
            pos = next;
        }
        assert(acc + Seq::<SpriteView>::empty() =~= acc);
        Some(seg)
    }

    /// Reads a SETD body; each sprite gets a fresh identifier.
    pub fn new(byte_data: &Vec<u8>) -> (r: Self)
        requires
            sprites_from(byte_data@, 0) is Some,
        ensures
            sprite_views(r.sprites@) == sprites_from(byte_data@, 0)->0,
    {
        match Self::parse(byte_data) {
            Some(s) => s,
            None => LevelSpriteSet::default(),
        }
    }
}

impl TopLevelSegment for LevelSpriteSet {
    open spec fn spec_compile(&self) -> Seq<u8> {
        sprites_bytes(sprite_views(self.sprites@))
    }

    open spec fn spec_wrap(&self) -> Seq<u8> {
        wrapped_segment(self.spec_compile(), encode_utf8("SETD"@))
    }

    open spec fn spec_header(&self) -> Seq<char> {
        "SETD"@
    }

    open spec fn can_compile(&self) -> bool {
        true
    }

    fn compile(&self) -> (r: Vec<u8>) {
        let mut comp: Vec<u8> = Vec::new();
        let ghost vs = sprite_views(self.sprites@);
        let mut i: usize = 0;
        while i < self.sprites.len()
            invariant
                i <= self.sprites@.len(),
                vs == sprite_views(self.sprites@),
                comp@ == sprites_bytes(vs.take(i as int)),
            decreases self.sprites@.len() - i,
        {
            let b = self.sprites[i].compile();
            assert(vs.take(i + 1).drop_last() =~= vs.take(i as int));
            push_all(&mut comp, b.as_slice());
            i += 1;
        }
        assert(vs.take(i as int) =~= vs);
        comp
    }

    fn wrap(&self) -> (r: Vec<u8>) {
        let comp = self.compile();
        segment_wrap(&comp, String::from_str("SETD"))
    }

    fn header(&self) -> (r: String) {
        String::from_str("SETD")
    }
}

/// Names and default settings of a sprite type.
#[derive(Debug, Clone)]
pub struct SpriteMetadata {
    pub sprite_id: u16,
    pub name: String,
    pub description: String,
    pub default_settings_len: u16,
}

impl Default for SpriteMetadata {
    fn default() -> (r: Self)
        ensures
            r.sprite_id == 0xfffe,
            r.name@ == "ERROR"@,
            r.description@ == "Error"@,
            r.default_settings_len == 0xfffe,
    {
        SpriteMetadata {
            sprite_id: 0xfffe,
            name: String::from_str("ERROR"),
            description: String::from_str("Error"),
            default_settings_len: 0xfffe,
        }
    }
}

} // verus!

verus! {

proof fn lemma_sprite_read(pre: Seq<u8>, v: SpriteView, post: Seq<u8>)
    requires
        v.settings.len() == v.settings_length,
    ensures
        sprite_fits(pre + sprite_bytes(v) + post, pre.len() as int),
        sprite_at(pre + sprite_bytes(v) + post, pre.len() as int) == v,
        sprite_bytes(v).len() == 8 + v.settings.len(),
{
    let s = pre + sprite_bytes(v) + post;
    let n = pre.len() as int;
    lemma_u16_roundtrip(v.object_id);
    lemma_u16_roundtrip(v.settings_length);
    lemma_u16_roundtrip(v.x_position);
    lemma_u16_roundtrip(v.y_position);
    assert(s.subrange(n, n + 2) =~= u16_bytes(v.object_id));
    assert(s.subrange(n + 2, n + 4) =~= u16_bytes(v.settings_length));
    assert(s.subrange(n + 4, n + 6) =~= u16_bytes(v.x_position));
    assert(s.subrange(n + 6, n + 8) =~= u16_bytes(v.y_position));
    assert(le16(s, n) == le16(u16_bytes(v.object_id), 0));
    assert(le16(s, n + 2) == le16(u16_bytes(v.settings_length), 0));
    assert(le16(s, n + 4) == le16(u16_bytes(v.x_position), 0));
    assert(le16(s, n + 6) == le16(u16_bytes(v.y_position), 0));
    assert(s.subrange(n + 8, n + 8 + v.settings.len()) =~= v.settings);
}

proof fn lemma_sprites_bytes_front(vs: Seq<SpriteView>)
    requires
        vs.len() > 0,
    ensures
        sprites_bytes(vs) == sprite_bytes(vs[0]) + sprites_bytes(vs.skip(1)),
    decreases vs.len(),
{
    if vs.len() == 1 {
        assert(vs.drop_last() =~= Seq::<SpriteView>::empty());
        assert(vs.skip(1) =~= Seq::<SpriteView>::empty());
        assert(sprites_bytes(vs) =~= sprite_bytes(vs[0]) + sprites_bytes(vs.skip(1)));
    } else {
        lemma_sprites_bytes_front(vs.drop_last());
        assert(vs.skip(1).drop_last() =~= vs.drop_last().skip(1));
        assert(vs.skip(1).last() == vs.last());
        assert(sprites_bytes(vs) =~= sprite_bytes(vs[0]) + sprites_bytes(vs.skip(1)));
    }
}

#[verifier::spinoff_prover]
#[verifier::rlimit(60)]
proof fn lemma_sprites_read(pre: Seq<u8>, vs: Seq<SpriteView>)
    requires
        forall|i: int| 0 <= i < vs.len() ==> (#[trigger] vs[i]).settings.len() == vs[i].settings_length,
    ensures
        sprites_from(pre + sprites_bytes(vs), pre.len() as int) == Some(vs),
    decreases vs.len(),
{
    let s = pre + sprites_bytes(vs);
    if vs.len() == 0 {
        assert(vs =~= Seq::<SpriteView>::empty());
        assert(s.len() == pre.len());
    } else {
        lemma_sprites_bytes_front(vs);
        let rest = vs.skip(1);
        assert(vs[0].settings.len() == vs[0].settings_length);
        assert(s =~= pre + sprite_bytes(vs[0]) + sprites_bytes(rest));
        lemma_sprite_read(pre, vs[0], sprites_bytes(rest));
        let pre2 = pre + sprite_bytes(vs[0]);
        assert forall|i: int| 0 <= i < rest.len() implies (#[trigger] rest[i]).settings.len() == rest[i].settings_length by {
            assert(rest[i] == vs[i + 1]);
        }
        lemma_sprites_read(pre2, rest);
        assert(s =~= pre2 + sprites_bytes(rest));
        assert(seq![vs[0]] + rest =~= vs);
    }
}

/// Reading back what `compile` wrote gives the same sprites, when each
/// sprite's settings length matches its settings.
pub proof fn law_sprites_roundtrip(vs: Seq<SpriteView>)
    requires
        forall|i: int| 0 <= i < vs.len() ==> (#[trigger] vs[i]).settings.len() == vs[i].settings_length,
    ensures
        sprites_from(sprites_bytes(vs), 0) == Some(vs),
{
    lemma_sprites_read(Seq::empty(), vs);
    assert(Seq::<u8>::empty() + sprites_bytes(vs) =~= sprites_bytes(vs));
}

} // verus!

verus! {

/// One animation frame of a sprite's graphics.
#[derive(Debug, Clone, Copy, PartialEq, Eq)]
pub struct SpriteAnimFrame {
    pub build_offset: u16,
    pub hold_time: u8,
    pub frame_jump: i8,
    /// Where the frame record starts in the graphics data.
    pub _pos: u64,
}

impl Default for SpriteAnimFrame {
    fn default() -> (r: Self)
        ensures
            r == (SpriteAnimFrame { build_offset: 0xffff, hold_time: 0xff, frame_jump: 0, _pos: 0xffffff }),
    {
        SpriteAnimFrame { build_offset: 0xffff, hold_time: 0xff, frame_jump: 0x00, _pos: 0xffffff }
    }
}

/// Where and how a frame's tiles are drawn.
#[derive(Debug, Clone, Copy, PartialEq, Eq)]
pub struct SpriteBuildData {
    pub tile_offset: u16,
    pub x_offset: i16,
    pub y_offset: i16,
    pub flags: u16,
}

/// The graphics of a sprite: its frames and the raw data they point into.
#[derive(Debug, Clone)]
pub struct SpriteGraphicsSegment {
    pub sprite_frames: Vec<SpriteAnimFrame>,
    pub internal_data: Vec<u8>,
}

impl Default for SpriteGraphicsSegment {
    fn default() -> (r: Self)
        ensures
            r.sprite_frames@.len() == 0,
            r.internal_data@.len() == 0,
    {
        SpriteGraphicsSegment { sprite_frames: Vec::new(), internal_data: Vec::new() }
    }
}

/// The most frame records read from one graphics segment.
pub const FRAME_READ_LIMIT: usize = 0xfff0;

/// A byte taken as a signed value.
pub open spec fn signed8(b: u8) -> i8 {
    if b >= 128 {
        (b - 256) as i8
    } else {
        b as i8
    }
}

/// The frame record at `p`.
pub open spec fn frame_at(s: Seq<u8>, p: int) -> SpriteAnimFrame {
    SpriteAnimFrame { build_offset: le16(s, p), hold_time: s[p + 2], frame_jump: signed8(s[p + 3]), _pos: p as u64 }
}

/// The frames read from `p`, at most `budget` records: up to the first
/// record with offset zero, which ends the list and is not kept. `None`
/// when a record runs past the end of the data.
pub open spec fn frames_from(s: Seq<u8>, p: int, budget: nat) -> Option<Seq<SpriteAnimFrame>>
    decreases budget,
{
    if budget == 0 {
        Some(Seq::empty())
    } else if p < 0 || p + 4 > s.len() {
        None
    } else if le16(s, p) == 0 {
        Some(Seq::empty())
    } else {
        match frames_from(s, p + 4, (budget - 1) as nat) {
            Some(fs) => Some(seq![frame_at(s, p)] + fs),
            None => None,
        }
    }
}

impl SpriteGraphicsSegment {
    /// Reads the frame list at the start of a graphics segment.
    pub fn from_data_segment(segment: &DataSegment) -> (r: Self)
        requires
            frames_from(segment.internal_data@, 0, FRAME_READ_LIMIT as nat) is Some,
        ensures
            r.sprite_frames@ == frames_from(segment.internal_data@, 0, FRAME_READ_LIMIT as nat)->0,
            r.internal_data@ == segment.internal_data@,
    {
        let data = &segment.internal_data;
        let mut frames: Vec<SpriteAnimFrame> = Vec::new();
        let mut count: usize = 0;
        let mut pos: usize = 0;
        let mut done = false;
        let ghost target = frames_from(data@, 0, FRAME_READ_LIMIT as nat);
        while count < FRAME_READ_LIMIT && !done
            invariant
                count <= FRAME_READ_LIMIT,
                pos == 4 * count,
                target == frames_from(data@, 0, FRAME_READ_LIMIT as nat),
                target is Some,
                done ==> target == Some(frames@),
                !done ==> target == (match frames_from(data@, pos as int, (FRAME_READ_LIMIT - count) as nat) {
                    Some(fs) => Some(frames@ + fs),
                    None => None,
                }),
            decreases FRAME_READ_LIMIT - count, (if done { 0int } else { 1int }),
        {
            if data.len() < 4 || pos > data.len() - 4 {
                done = true;
            } else {
                let offset = read_u16(data.as_slice(), pos);
                let hold_time = data[pos + 2];
                let b = data[pos + 3];
                let frame_jump: i8 = if b >= 128 {
                    (b as i16 - 256) as i8
                } else {
                    b as i8
                };
                if offset == 0 {
                    assert(frames@ + Seq::<SpriteAnimFrame>::empty() =~= frames@);
                    done = true;
                } else {
                    let f = SpriteAnimFrame { build_offset: offset, hold_time, frame_jump, _pos: pos as u64 };
                    proof {
                        assert(f == frame_at(data@, pos as int));
                        match frames_from(data@, pos + 4, (FRAME_READ_LIMIT - count - 1) as nat) {
                            Some(fs) => {
                                assert(frames@ + (seq![f] + fs) =~= frames@.push(f) + fs);
                            },
                            None => {},
                        }
                    }
                    frames.push(f);
                    pos += 4;
                    count += 1;
                }
            }
        }
        proof {
            if !done {
                assert(frames@ + Seq::<SpriteAnimFrame>::empty() =~= frames@);
            }
        }
        let internal = data.clone();
        assert(internal@ =~= data@);
        SpriteGraphicsSegment { sprite_frames: frames, internal_data: internal }
    }
}

} // verus!

verus! {

/// The size in 8-pixel tiles (wide, high) that a build record's shape
/// flags name; unknown values read as 2 by 2.
pub open spec fn sprite_dims(val: u16) -> (u8, u8) {
    if val == 0x0 || val == 0x4 {
        (1, 1)
    } else if val == 0x1 || val == 0x5 {
        (2, 2)
    } else if val == 0x2 || val == 0x6 {
        (4, 4)
    } else if val == 0x3 || val == 0x7 {
        (8, 8)
    } else if val == 0x8 || val == 0xC {
        (2, 1)
    } else if val == 0x9 || val == 0xD {
        (4, 1)
    } else if val == 0xA || val == 0xE {
        (4, 2)
    } else if val == 0xB || val == 0xF {
        (8, 4)
    } else if val == 0x10 || val == 0x14 {
        (1, 2)
    } else if val == 0x11 {
        (1, 4)
    } else if val == 0x12 {
        (2, 4)
    } else if val == 0x13 {
        (4, 8)
    } else {
        (2, 2)
    }
}

/// The size in tiles (wide, high) of a sprite build piece, from the low
/// five bits of its flags.
pub fn get_sprite_dims_from_flag_value(val: u16) -> (r: (u8, u8))
    ensures
        r == sprite_dims(val),
{
    match val {
        0x0 => (1, 1),
        0x1 => (2, 2),
        0x2 => (4, 4),
        0x3 => (8, 8),
        0x4 => (1, 1),
        0x5 => (2, 2),
        0x6 => (4, 4),
        0x7 => (8, 8),
        0x8 => (2, 1),
        0x9 => (4, 1),
        0xA => (4, 2),
        0xB => (8, 4),
        0xC => (2, 1),
        0xD => (4, 1),
        0xE => (4, 2),
        0xF => (8, 4),
        0x10 => (1, 2),
        0x11 => (1, 4),
        0x12 => (2, 4),
        0x13 => (4, 8),
        0x14 => (1, 2),
        _ => (2, 2),
    }
}

} // verus!
