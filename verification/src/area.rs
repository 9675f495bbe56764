//! AREA: rectangular trigger zones of a map.
use vstd::prelude::*;
use vstd::string::*;
use vstd::utf8::encode_utf8;
use crate::bytes::{le16, u16_bytes, push_u16, read_u16, push_all, lemma_u16_roundtrip};
use crate::compression::{segment_wrap, wrapped_segment};
use crate::ids::new_uuid;
use crate::segments::TopLevelSegment;
use crate::types::Compilable;

verus! {

#[derive(Debug, Clone, Copy, PartialEq, Eq)]
pub struct Trigger {
    pub left_x: u16,
    pub top_y: u16,
    pub right_x: u16,
    pub bottom_y: u16,
    pub uuid: u128,
}

/// A trigger's rectangle: left, top, right, bottom.
pub open spec fn trigger_rect(t: Trigger) -> (u16, u16, u16, u16) {
    (t.left_x, t.top_y, t.right_x, t.bottom_y)
}

/// The bytes of one trigger.
pub open spec fn trigger_bytes(t: Trigger) -> Seq<u8> {
    u16_bytes(t.left_x) + u16_bytes(t.top_y) + u16_bytes(t.right_x) + u16_bytes(t.bottom_y)
}

impl Trigger {
    /// A trigger with a fresh identifier.
    pub fn new(left_x: u16, top_y: u16, right_x: u16, bottom_y: u16) -> (r: Self)
        ensures
            trigger_rect(r) == (left_x, top_y, right_x, bottom_y),
    {
        Trigger { left_x, top_y, right_x, bottom_y, uuid: new_uuid() }
    }
}

impl Compilable for Trigger {
    open spec fn spec_compile(&self) -> Seq<u8> {
        trigger_bytes(*self)
    }

    open spec fn can_compile(&self) -> bool {
        true
    }

    fn compile(&self) -> (r: Vec<u8>) {
        let mut comp: Vec<u8> = Vec::new();
        push_u16(&mut comp, self.left_x);
        push_u16(&mut comp, self.top_y);
        push_u16(&mut comp, self.right_x);
        push_u16(&mut comp, self.bottom_y);
        assert(comp@ =~= trigger_bytes(*self));
        comp
    }
}

#[derive(Debug, Clone, PartialEq)]
pub struct TriggerData {
    pub triggers: Vec<Trigger>,
}

impl Default for TriggerData {
    fn default() -> (r: Self)
        ensures
            r.triggers@.len() == 0,
    {
        TriggerData { triggers: Vec::new() }
    }
}

/// AREA bodies the reader cannot take: one that ends inside a trigger
/// after its first field.
pub open spec fn area_truncated(s: Seq<u8>) -> bool {
    s.len() % 8 >= 2
}

/// The rectangles an AREA body holds: one per eight bytes (a single
/// trailing byte is ignored).
pub open spec fn area_rects(s: Seq<u8>) -> Seq<(u16, u16, u16, u16)> {
    Seq::new(
        s.len() / 8,
        |i: int| (le16(s, 8 * i), le16(s, 8 * i + 2), le16(s, 8 * i + 4), le16(s, 8 * i + 6)),
    )
}

/// The bytes of a sequence of triggers.
pub open spec fn triggers_bytes(ts: Seq<Trigger>) -> Seq<u8>
    decreases ts.len(),
{
    if ts.len() == 0 {
        Seq::empty()
    } else {
        triggers_bytes(ts.drop_last()) + trigger_bytes(ts.last())
    }
}

/// The position of the first trigger with the identifier.
pub open spec fn first_trigger(ts: Seq<Trigger>, uuid: u128, i: int) -> bool {
    &&& 0 <= i < ts.len()
    &&& ts[i].uuid == uuid
    &&& forall|j: int| 0 <= j < i ==> (#[trigger] ts[j]).uuid != uuid
}

impl TriggerData {
    /// Reads an AREA body; each trigger gets a fresh identifier.
    pub fn new(byte_data: &[u8]) -> (r: Self)
        requires
            !area_truncated(byte_data@),
        ensures
            r.triggers@.map_values(|t: Trigger| trigger_rect(t)) == area_rects(byte_data@),
    {
        let mut ret = TriggerData::default();
        let mut pos: usize = 0;
        while byte_data.len() - pos >= 8
            invariant
                pos % 8 == 0,
                pos <= byte_data@.len(),
                ret.triggers@.len() == pos / 8,
                forall|i: int| 0 <= i < pos / 8 ==> trigger_rect(#[trigger] ret.triggers@[i]) == area_rects(byte_data@)[i],
            decreases byte_data@.len() - pos,
        {
            let t = Trigger::new(
                read_u16(byte_data, pos),
                read_u16(byte_data, pos + 2),
                read_u16(byte_data, pos + 4),
                read_u16(byte_data, pos + 6),
            );
            ret.triggers.push(t);
            pos += 8;
        }
        assert(ret.triggers@.map_values(|t: Trigger| trigger_rect(t)) =~= area_rects(byte_data@));
        ret
    }

    /// Removes the first trigger with the identifier; `false` when there is
    /// none.
    pub fn delete(&mut self, uuid: u128) -> (r: bool)
        ensures
            r == exists|i: int| 0 <= i < old(self).triggers@.len() && old(self).triggers@[i].uuid == uuid,
            r ==> exists|i: int|
                first_trigger(old(self).triggers@, uuid, i) && final(self).triggers@ == old(self).triggers@.remove(i),
            !r ==> final(self).triggers@ == old(self).triggers@,
    {
        let mut i: usize = 0;
        while i < self.triggers.len()
            invariant
                i <= self.triggers@.len(),
                self.triggers@ == old(self).triggers@,
                forall|j: int| 0 <= j < i ==> (#[trigger] self.triggers@[j]).uuid != uuid,
            decreases self.triggers@.len() - i,
        {
            if self.triggers[i].uuid == uuid {
                let ghost before = self.triggers@;
                self.triggers.remove(i);
                assert(first_trigger(before, uuid, i as int));
                return true;
            }
            i += 1;
        }
        false
    }
}

impl TopLevelSegment for TriggerData {
    open spec fn spec_compile(&self) -> Seq<u8> {
        triggers_bytes(self.triggers@)
    }

    open spec fn spec_wrap(&self) -> Seq<u8> {
        wrapped_segment(triggers_bytes(self.triggers@), encode_utf8("AREA"@))
    }

    open spec fn spec_header(&self) -> Seq<char> {
        "AREA"@
    }

    open spec fn can_compile(&self) -> bool {
        true
    }

    fn compile(&self) -> (r: Vec<u8>) {
        let mut comp: Vec<u8> = Vec::new();
        let mut i: usize = 0;
        while i < self.triggers.len()
            invariant
                i <= self.triggers@.len(),
                comp@ == triggers_bytes(self.triggers@.take(i as int)),
            decreases self.triggers@.len() - i,
        {
            let b = self.triggers[i].compile();
            assert(self.triggers@.take(i + 1).drop_last() =~= self.triggers@.take(i as int));
            push_all(&mut comp, b.as_slice());
            i += 1;
        }
        assert(self.triggers@.take(i as int) =~= self.triggers@);
        comp
    }

    fn wrap(&self) -> (r: Vec<u8>) {
        let comp = self.compile();
        segment_wrap(&comp, String::from_str("AREA"))
    }

    fn header(&self) -> (r: String) {
        String::from_str("AREA")
    }
}

pub proof fn lemma_triggers_bytes(ts: Seq<Trigger>)
    ensures
        triggers_bytes(ts).len() == 8 * ts.len(),
        forall|i: int| #![trigger ts[i]] 0 <= i < ts.len() ==> triggers_bytes(ts).subrange(8 * i, 8 * i + 8) == trigger_bytes(ts[i]),
    decreases ts.len(),
{
    if ts.len() > 0 {
        let p = ts.drop_last();
        lemma_triggers_bytes(p);
        let a = triggers_bytes(p);
        let b = trigger_bytes(ts.last());
        assert forall|i: int| #![trigger ts[i]] 0 <= i < ts.len() implies triggers_bytes(ts).subrange(8 * i, 8 * i + 8) == trigger_bytes(ts[i]) by {
            if i == ts.len() - 1 {
                assert((a + b).subrange(8 * i, 8 * i + 8) =~= b);
            } else {
                assert(p[i] == ts[i]);
                assert((a + b).subrange(8 * i, 8 * i + 8) =~= a.subrange(8 * i, 8 * i + 8));
            }
        }
    }
}

/// Reading back what `compile` wrote gives the same rectangles.
pub proof fn law_area_roundtrip(ts: Seq<Trigger>)
    ensures
        !area_truncated(triggers_bytes(ts)),
        area_rects(triggers_bytes(ts)) == ts.map_values(|t: Trigger| trigger_rect(t)),
{
    let c = triggers_bytes(ts);
    lemma_triggers_bytes(ts);
    assert forall|i: int| 0 <= i < ts.len() implies #[trigger] area_rects(c)[i] == trigger_rect(ts[i]) by {
        let t = ts[i];
        let s = c.subrange(8 * i, 8 * i + 8);
        assert(s == trigger_bytes(t));
        lemma_u16_roundtrip(t.left_x);
        lemma_u16_roundtrip(t.top_y);
        lemma_u16_roundtrip(t.right_x);
        lemma_u16_roundtrip(t.bottom_y);
        assert(c[8 * i] == s[0] && c[8 * i + 1] == s[1]);
        assert(c[8 * i + 2] == s[2] && c[8 * i + 3] == s[3]);
        assert(c[8 * i + 4] == s[4] && c[8 * i + 5] == s[5]);
        assert(c[8 * i + 6] == s[6] && c[8 * i + 7] == s[7]);
        assert(le16(s, 0) == le16(u16_bytes(t.left_x), 0));
        assert(le16(s, 2) == le16(u16_bytes(t.top_y), 0));
        assert(le16(s, 4) == le16(u16_bytes(t.right_x), 0));
        assert(le16(s, 6) == le16(u16_bytes(t.bottom_y), 0));
    }
    assert(area_rects(c) =~= ts.map_values(|t: Trigger| trigger_rect(t)));
}

} // verus!

verus! {

/// The trigger chosen in the triggers window (nil when none).
#[derive(Debug, Clone, Copy, PartialEq, Eq)]
pub struct TriggerSettings {
    pub selected_uuid: u128,
}

impl Default for TriggerSettings {
    fn default() -> (r: Self)
        ensures
            r.selected_uuid == crate::ids::NIL_UUID,
    {
        TriggerSettings { selected_uuid: crate::ids::NIL_UUID }
    }
}

} // verus!
