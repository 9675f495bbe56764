//! Typed settings of some sprite kinds, read from and written to a
//! sprite's raw settings bytes.
use vstd::prelude::*;
use crate::bytes::{push_byte, push_u16, push_u32, u16_bytes, u32_bytes};
use crate::sprites::LevelSprite;

verus! {

/// Settings that can be read from a sprite and compiled back.
pub trait SpriteSettings: Sized {
    /// The sprites the settings can be read from.
    spec fn readable(spr: &LevelSprite) -> bool;

    /// The settings bytes `compile` writes.
    spec fn spec_compile(&self) -> Seq<u8>;

    /// Creates the settings vector, padded to four bytes.
    fn compile(&self) -> (r: Vec<u8>)
        ensures
            r@ == self.spec_compile(),
    ;

    /// Reads the settings from the sprite.
    fn from_sprite(spr: &LevelSprite) -> (r: Self)
        requires
            Self::readable(spr),
    ;
}

pub struct ShyGuy {
    pub behavior: u8,
}

pub struct HintBlock {
    pub message: u16,
}

pub struct RedArrowSign {
    pub kind: u8,
    pub order: i8,
}

impl ShyGuy {
    /// Reads the behavior from the first settings byte.
    pub fn read(spr: &LevelSprite) -> (r: Self)
        requires
            spr.settings@.len() >= 1,
        ensures
            r.behavior == spr.settings@[0],
    {
        ShyGuy { behavior: spr.settings[0] }
    }
}

impl SpriteSettings for ShyGuy {
    open spec fn readable(spr: &LevelSprite) -> bool {
        spr.settings@.len() >= 1
    }

    /// The behavior as a 32-bit value.
    open spec fn spec_compile(&self) -> Seq<u8> {
        u32_bytes(self.behavior as u32)
    }

    fn compile(&self) -> (r: Vec<u8>) {
        let mut comp: Vec<u8> = Vec::new();
        push_u32(&mut comp, self.behavior as u32);
        comp
    }

    fn from_sprite(spr: &LevelSprite) -> (r: Self)
        ensures
            r.behavior == spr.settings@[0],
    {
        Self::read(spr)
    }
}

impl HintBlock {
    /// Reads the message id from the first two settings bytes
    /// (little-endian).
    pub fn read(spr: &LevelSprite) -> (r: Self)
        requires
            spr.settings@.len() >= 2,
        ensures
            r.message == spr.settings@[0] + 256 * spr.settings@[1],
    {
        let first_byte = spr.settings[0] as u16;
        let second_byte = spr.settings[1] as u16;
        assert(second_byte << 8u16 == second_byte * 256) by (bit_vector)
            requires
                second_byte < 256,
        ;
        HintBlock { message: first_byte + (second_byte << 8u16) }
    }
}

impl SpriteSettings for HintBlock {
    open spec fn readable(spr: &LevelSprite) -> bool {
        spr.settings@.len() >= 2
    }

    /// The message id as a 32-bit value.
    open spec fn spec_compile(&self) -> Seq<u8> {
        u32_bytes(self.message as u32)
    }

    fn compile(&self) -> (r: Vec<u8>) {
        let mut comp: Vec<u8> = Vec::new();
        push_u32(&mut comp, self.message as u32);
        comp
    }

    fn from_sprite(spr: &LevelSprite) -> (r: Self)
        ensures
            r.message == spr.settings@[0] + 256 * spr.settings@[1],
    {
        Self::read(spr)
    }
}

impl RedArrowSign {
    /// Reads the kind and the (signed) order from the first two settings
    /// bytes.
    pub fn read(spr: &LevelSprite) -> (r: Self)
        requires
            spr.settings@.len() >= 2,
        ensures
            r.kind == spr.settings@[0],
            r.order == crate::sprites::signed8(spr.settings@[1]),
    {
        let b = spr.settings[1];
        let order: i8 = if b >= 128 {
            (b as i16 - 256) as i8
        } else {
            b as i8
        };
        RedArrowSign { kind: spr.settings[0], order }
    }
}

impl SpriteSettings for RedArrowSign {
    open spec fn readable(spr: &LevelSprite) -> bool {
        spr.settings@.len() >= 2
    }

    /// The kind, the order's byte, and two bytes of padding.
    open spec fn spec_compile(&self) -> Seq<u8> {
        seq![self.kind, crate::bytes::i16_bytes(self.order as i16)[0]] + u16_bytes(0)
    }

    fn compile(&self) -> (r: Vec<u8>) {
        let mut comp: Vec<u8> = Vec::new();
        push_byte(&mut comp, self.kind);
        let o: u8 = if self.order < 0 {
            (self.order as i16 + 256) as u8
        } else {
            self.order as u8
        };
        push_byte(&mut comp, o);
        push_u16(&mut comp, 0x0000);
        assert(comp@ =~= seq![self.kind, crate::bytes::i16_bytes(self.order as i16)[0]] + u16_bytes(0));
        comp
    }

    fn from_sprite(spr: &LevelSprite) -> (r: Self)
        ensures
            r.kind == spr.settings@[0],
            r.order == crate::sprites::signed8(spr.settings@[1]),
    {
        Self::read(spr)
    }
}

/// Writing a sign's settings and reading them back gives the same sign.
pub proof fn law_red_arrow_roundtrip(kind: u8, order: i8)
    ensures
        ({
            let b = (RedArrowSign { kind, order }).spec_compile();
            b[0] == kind && crate::sprites::signed8(b[1]) == order
        }),
{
}

/// Writing a hint block's settings and reading them back gives the same
/// message.
pub proof fn law_hint_block_roundtrip(message: u16)
    ensures
        ({
            let b = (HintBlock { message }).spec_compile();
            b[0] + 256 * b[1] == message
        }),
{
}

} // verus!
