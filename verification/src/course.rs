//! Course files (CRSB): the maps of a level (CSCN), their entrances and
//! the exits that link them.
use vstd::prelude::*;
use vstd::string::*;
use vstd::utf8::encode_utf8;
use crate::bytes::{le16, u16_bytes, push_u16, push_byte, push_all, push_u32, pad4, pad_len4, u32_bytes, zeros};
use crate::compression::{segment_wrap, wrapped_segment};
use crate::ids::{new_uuid, random_byte};
use crate::text::{hex_padded, hex_string};
use crate::types::Compilable;

verus! {

#[derive(Debug, Clone, PartialEq)]
pub struct MapEntrance {
    pub entrance_x: u16,
    pub entrance_y: u16,
    pub entrance_flags: u16,
    pub label: String,
    pub uuid: u128,
}

#[derive(Debug, Clone, PartialEq)]
pub struct MapExit {
    pub exit_x: u16,
    pub exit_y: u16,
    /// What triggers the exit, and what it looks like in some cases.
    pub exit_type: u16,
    /// The target map's position, used when saving.
    pub target_map_raw: u8,
    /// Which map the exit leads to.
    pub target_map: u128,
    /// The target entrance's position, used when saving.
    pub target_map_entrance_raw: u8,
    /// Which entrance on that map the exit leads to.
    pub target_map_entrance: u128,
    /// Only for the editor; no effect in the game.
    pub label: String,
    pub uuid: u128,
}

/// What an entrance stores in the file.
pub ghost struct EntranceView {
    pub x: u16,
    pub y: u16,
    pub flags: u16,
}

/// What an exit stores in the file.
pub ghost struct ExitView {
    pub x: u16,
    pub y: u16,
    pub exit_type: u16,
    pub target_map_raw: u8,
    pub target_map_entrance_raw: u8,
}

impl View for MapEntrance {
    type V = EntranceView;

    open spec fn view(&self) -> EntranceView {
        EntranceView { x: self.entrance_x, y: self.entrance_y, flags: self.entrance_flags }
    }
}

impl View for MapExit {
    type V = ExitView;

    open spec fn view(&self) -> ExitView {
        ExitView {
            x: self.exit_x,
            y: self.exit_y,
            exit_type: self.exit_type,
            target_map_raw: self.target_map_raw,
            target_map_entrance_raw: self.target_map_entrance_raw,
        }
    }
}

pub open spec fn entrance_bytes(e: EntranceView) -> Seq<u8> {
    u16_bytes(e.x) + u16_bytes(e.y) + u16_bytes(e.flags)
}

pub open spec fn exit_bytes(e: ExitView) -> Seq<u8> {
    u16_bytes(e.x) + u16_bytes(e.y) + u16_bytes(e.exit_type) + seq![e.target_map_raw, e.target_map_entrance_raw]
}

impl Compilable for MapEntrance {
    open spec fn spec_compile(&self) -> Seq<u8> {
        entrance_bytes(self@)
    }

    open spec fn can_compile(&self) -> bool {
        true
    }

    fn compile(&self) -> (r: Vec<u8>) {
        let mut comp: Vec<u8> = Vec::new();
        push_u16(&mut comp, self.entrance_x);
        push_u16(&mut comp, self.entrance_y);
        push_u16(&mut comp, self.entrance_flags);
        assert(comp@ =~= entrance_bytes(self@));
        comp
    }
}

impl Compilable for MapExit {
    open spec fn spec_compile(&self) -> Seq<u8> {
        exit_bytes(self@)
    }

    open spec fn can_compile(&self) -> bool {
        true
    }

    fn compile(&self) -> (r: Vec<u8>) {
        let mut comp: Vec<u8> = Vec::new();
        push_u16(&mut comp, self.exit_x);
        push_u16(&mut comp, self.exit_y);
        push_u16(&mut comp, self.exit_type);
        push_byte(&mut comp, self.target_map_raw);
        push_byte(&mut comp, self.target_map_entrance_raw);
        assert(comp@ =~= exit_bytes(self@));
        comp
    }
}

/// "Entrance " and a random byte in two hex digits.
fn random_label(prefix: &str) -> (r: String)
    ensures
        exists|b: u8| r@ == prefix@ + hex_padded(b as nat, 2),
{
    let b = random_byte();
    let mut s = String::from_str(prefix);
    let h = hex_string(b as u64, 2);
    s.append(h.as_str());
    s
}

impl Default for MapEntrance {
    fn default() -> (r: Self)
        ensures
            r@ == (EntranceView { x: 2, y: 2, flags: 0x8000 }),
            exists|b: u8| r.label@ == "Entrance "@ + hex_padded(b as nat, 2),
    {
        MapEntrance {
            entrance_x: 2,
            entrance_y: 2,
            entrance_flags: 0x8000,
            label: random_label("Entrance "),
            uuid: new_uuid(),
        }
    }
}

impl Default for MapExit {
    fn default() -> (r: Self)
        ensures
            r@ == (ExitView { x: 0x10, y: 0x10, exit_type: 5, target_map_raw: 0, target_map_entrance_raw: 0 }),
            r.target_map == 0,
            r.target_map_entrance == 0,
            exists|b: u8| r.label@ == "Exit "@ + hex_padded(b as nat, 2),
    {
        MapExit {
            exit_x: 0x10,
            exit_y: 0x10,
            exit_type: 0x5,
            target_map_raw: 0,
            target_map: 0,
            target_map_entrance_raw: 0,
            target_map_entrance: 0,
            label: random_label("Exit "),
            uuid: new_uuid(),
        }
    }
}

/// The editor's name for an exit type, with the type in hexadecimal.
pub open spec fn exit_type_label(t: u16) -> Seq<char> {
    let h = hex_padded(t as nat, 0);
    if t == 0x0 {
        h + ": Walk Right (Silent)"@
    } else if t == 0x1 {
        h + ": Walk Left (Silent)"@
    } else if t == 0x2 {
        h + ": Touch Pipe Up"@
    } else if t == 0x3 {
        h + ": Press Up Pipe?"@
    } else if t == 0x4 {
        h + ": Press Down Pipe"@
    } else if t == 0x5 {
        h + ": Blue Door Unlocked"@
    } else if t == 0x6 {
        h + ": Blue Door Locked"@
    } else if t == 0x7 {
        h + ": Boss Door"@
    } else if t == 0x9 {
        h + ": Walk Right Map Quit"@
    } else if t == 0xC {
        h + ": Area Trigger (Pipe)"@
    } else if t == 0xD {
        h + ": Minigame Exit"@
    } else {
        "Type 0x"@ + h
    }
}

pub fn exit_type_name(exit_type: u16) -> (r: String)
    ensures
        r@ == exit_type_label(exit_type),
{
    let h = hex_string(exit_type as u64, 0);
    let suffix: &str = if exit_type == 0x0 {
        ": Walk Right (Silent)"
    } else if exit_type == 0x1 {
        ": Walk Left (Silent)"
    } else if exit_type == 0x2 {
        ": Touch Pipe Up"
    } else if exit_type == 0x3 {
        ": Press Up Pipe?"
    } else if exit_type == 0x4 {
        ": Press Down Pipe"
    } else if exit_type == 0x5 {
        ": Blue Door Unlocked"
    } else if exit_type == 0x6 {
        ": Blue Door Locked"
    } else if exit_type == 0x7 {
        ": Boss Door"
    } else if exit_type == 0x9 {
        ": Walk Right Map Quit"
    } else if exit_type == 0xC {
        ": Area Trigger (Pipe)"
    } else if exit_type == 0xD {
        ": Minigame Exit"
    } else {
        let mut s = String::from_str("Type 0x");
        s.append(h.as_str());
        return s;
    };
    let mut s = h;
    s.append(suffix);
    s
}

} // verus!

verus! {

/// CSCN: a map of the course, with its entrances and exits.
#[derive(Debug, Clone, PartialEq)]
pub struct CourseMapInfo {
    pub map_entrances: Vec<MapEntrance>,
    pub map_exits: Vec<MapExit>,
    pub map_music: u8,
    pub map_filename_noext: String,
    pub label: String,
    pub uuid: u128,
}

/// What a map entry stores in the file.
pub ghost struct MapInfoView {
    pub entrances: Seq<EntranceView>,
    pub exits: Seq<ExitView>,
    pub music: u8,
    pub name: Seq<char>,
}

impl View for CourseMapInfo {
    type V = MapInfoView;

    open spec fn view(&self) -> MapInfoView {
        MapInfoView {
            entrances: self.map_entrances@.map_values(|e: MapEntrance| e@),
            exits: self.map_exits@.map_values(|e: MapExit| e@),
            music: self.map_music,
            name: self.map_filename_noext@,
        }
    }
}

pub open spec fn entrances_bytes(es: Seq<EntranceView>) -> Seq<u8>
    decreases es.len(),
{
    if es.len() == 0 {
        Seq::empty()
    } else {
        entrances_bytes(es.drop_last()) + entrance_bytes(es.last())
    }
}

pub open spec fn exits_bytes(es: Seq<ExitView>) -> Seq<u8>
    decreases es.len(),
{
    if es.len() == 0 {
        Seq::empty()
    } else {
        exits_bytes(es.drop_last()) + exit_bytes(es.last())
    }
}

/// The body of a CSCN segment: the counts (cut to 16 and 8 bits), the
/// music, the file name with its terminator and eight zero bytes, the
/// entrances, padding, the exits, padding.
pub open spec fn map_info_bytes(m: MapInfoView) -> Seq<u8> {
    let head = u16_bytes(m.entrances.len() as u16) + seq![m.exits.len() as u8, m.music] + encode_utf8(m.name)
        + seq![0u8] + zeros(8) + entrances_bytes(m.entrances);
    pad4(pad4(head) + exits_bytes(m.exits))
}

/// Pads `v` with zeros to a multiple of four bytes.
fn pad_vec(v: &mut Vec<u8>)
    ensures
        final(v)@ == pad4(old(v)@),
{
    crate::bytes::pad_to_4(v);
}

impl Compilable for CourseMapInfo {
    open spec fn spec_compile(&self) -> Seq<u8> {
        map_info_bytes(self@)
    }

    open spec fn can_compile(&self) -> bool {
        true
    }

    fn compile(&self) -> (r: Vec<u8>) {
        let mut comp: Vec<u8> = Vec::new();
        push_u16(&mut comp, self.map_entrances.len() as u16);
        push_byte(&mut comp, self.map_exits.len() as u8);
        push_byte(&mut comp, self.map_music);
        push_all(&mut comp, self.map_filename_noext.as_str().as_bytes());
        push_byte(&mut comp, 0);
        let mut k: usize = 0;
        let ghost before_zeros = comp@;
        while k < 8
            invariant
                k <= 8,
                comp@ == before_zeros + zeros(k as nat),
            decreases 8 - k,
        {
            push_byte(&mut comp, 0);
            k += 1;
            assert(comp@ =~= before_zeros + zeros(k as nat));
        }
        let ghost ev = self@.entrances;
        let ghost h0 = comp@;
        let mut i: usize = 0;
        while i < self.map_entrances.len()
            invariant
                i <= self.map_entrances@.len(),
                ev == self@.entrances,
                comp@ == h0 + entrances_bytes(ev.take(i as int)),
            decreases self.map_entrances@.len() - i,
        {
            let b = self.map_entrances[i].compile();
            assert(ev.take(i + 1).drop_last() =~= ev.take(i as int));
            push_all(&mut comp, b.as_slice());
            i += 1;
        }
        assert(ev.take(i as int) =~= ev);
        pad_vec(&mut comp);
        let ghost xv = self@.exits;
        let ghost h1 = comp@;
        let mut j: usize = 0;
        while j < self.map_exits.len()
            invariant
                j <= self.map_exits@.len(),
                xv == self@.exits,
                comp@ == h1 + exits_bytes(xv.take(j as int)),
            decreases self.map_exits@.len() - j,
        {
            let b = self.map_exits[j].compile();
            assert(xv.take(j + 1).drop_last() =~= xv.take(j as int));
            push_all(&mut comp, b.as_slice());
            j += 1;
        }
        assert(xv.take(j as int) =~= xv);
        pad_vec(&mut comp);
        assert(before_zeros + zeros(8) =~= u16_bytes(self.map_entrances@.len() as u16) + seq![
            self.map_exits@.len() as u8,
            self.map_music,
        ] + encode_utf8(self.map_filename_noext@) + seq![0u8] + zeros(8));
        comp
    }
}

/// `i` is the position of the first entrance with the identifier.
pub open spec fn is_first_entrance(es: Seq<MapEntrance>, uuid: u128, i: int) -> bool {
    &&& 0 <= i < es.len()
    &&& es[i].uuid == uuid
    &&& forall|j: int| 0 <= j < i ==> (#[trigger] es[j]).uuid != uuid
}

pub open spec fn first_entrance(es: Seq<MapEntrance>, uuid: u128) -> Option<int> {
    if exists|i: int| is_first_entrance(es, uuid, i) {
        Some(choose|i: int| is_first_entrance(es, uuid, i))
    } else {
        None
    }
}

/// `i` is the position of the first exit with the identifier.
pub open spec fn is_first_exit(es: Seq<MapExit>, uuid: u128, i: int) -> bool {
    &&& 0 <= i < es.len()
    &&& es[i].uuid == uuid
    &&& forall|j: int| 0 <= j < i ==> (#[trigger] es[j]).uuid != uuid
}

pub open spec fn first_exit(es: Seq<MapExit>, uuid: u128) -> Option<int> {
    if exists|i: int| is_first_exit(es, uuid, i) {
        Some(choose|i: int| is_first_exit(es, uuid, i))
    } else {
        None
    }
}

proof fn lemma_first_entrance_unique(es: Seq<MapEntrance>, uuid: u128, i: int)
    requires
        is_first_entrance(es, uuid, i),
    ensures
        first_entrance(es, uuid) == Some(i),
{
    let c = choose|j: int| is_first_entrance(es, uuid, j);
    assert(is_first_entrance(es, uuid, c));
    if c < i {
        assert(es[c].uuid != uuid);
    } else if c > i {
        assert(es[i].uuid != uuid);
    }
}

proof fn lemma_first_exit_unique(es: Seq<MapExit>, uuid: u128, i: int)
    requires
        is_first_exit(es, uuid, i),
    ensures
        first_exit(es, uuid) == Some(i),
{
    let c = choose|j: int| is_first_exit(es, uuid, j);
    assert(is_first_exit(es, uuid, c));
    if c < i {
        assert(es[c].uuid != uuid);
    } else if c > i {
        assert(es[i].uuid != uuid);
    }
}

fn find_entrance(es: &Vec<MapEntrance>, uuid: u128) -> (r: Option<usize>)
    ensures
        match r {
            Some(i) => first_entrance(es@, uuid) == Some(i as int),
            None => first_entrance(es@, uuid) is None,
        },
{
    let mut i: usize = 0;
    while i < es.len()
        invariant
            i <= es@.len(),
            forall|j: int| 0 <= j < i ==> (#[trigger] es@[j]).uuid != uuid,
        decreases es@.len() - i,
    {
        if es[i].uuid == uuid {
            proof {
                lemma_first_entrance_unique(es@, uuid, i as int);
            }
            return Some(i);
        }
        i += 1;
    }
    None
}

fn find_exit(es: &Vec<MapExit>, uuid: u128) -> (r: Option<usize>)
    ensures
        match r {
            Some(i) => first_exit(es@, uuid) == Some(i as int),
            None => first_exit(es@, uuid) is None,
        },
{
    let mut i: usize = 0;
    while i < es.len()
        invariant
            i <= es@.len(),
            forall|j: int| 0 <= j < i ==> (#[trigger] es@[j]).uuid != uuid,
        decreases es@.len() - i,
    {
        if es[i].uuid == uuid {
            proof {
                lemma_first_exit_unique(es@, uuid, i as int);
            }
            return Some(i);
        }
        i += 1;
    }
    None
}

impl CourseMapInfo {
    /// The CSCN segment of the map.
    pub fn wrap(&self) -> (r: Vec<u8>)
        ensures
            r@ == wrapped_segment(map_info_bytes(self@), encode_utf8("CSCN"@)),
    {
        let body = self.compile();
        segment_wrap(&body, String::from_str("CSCN"))
    }

    /// The position of the first entrance with the identifier. The count
    /// is kept in 8 bits, so the search must end within 256 entrances.
    pub fn get_entrance_index(&self, entrance_uuid: &u128) -> (r: Option<u8>)
        requires
            match first_entrance(self.map_entrances@, *entrance_uuid) {
                Some(i) => i < 256,
                None => self.map_entrances@.len() < 256,
            },
        ensures
            match first_entrance(self.map_entrances@, *entrance_uuid) {
                Some(i) => r == Some(i as u8),
                None => r is None,
            },
    {
        match find_entrance(&self.map_entrances, *entrance_uuid) {
            Some(i) => Some(i as u8),
            None => None,
        }
    }

    /// The first exit with the identifier, to change.
    pub fn get_exit(&mut self, uuid: &u128) -> (r: Option<&mut MapExit>)
        ensures
            r is Some <==> first_exit(old(self).map_exits@, *uuid) is Some,
            r matches Some(e) ==> {
                let i = first_exit(old(self).map_exits@, *uuid)->0;
                &&& *e == old(self).map_exits@[i]
                &&& final(self).map_exits@ == old(self).map_exits@.update(i, *final(e))
                &&& final(self).map_entrances == old(self).map_entrances
                &&& final(self).map_music == old(self).map_music
                &&& final(self).map_filename_noext == old(self).map_filename_noext
                &&& final(self).label == old(self).label
                &&& final(self).uuid == old(self).uuid
            },
            r is None ==> *final(self) == *old(self),
    {
        match find_exit(&self.map_exits, *uuid) {
            Some(i) => Some(&mut self.map_exits[i]),
            None => None,
        }
    }

    /// The first entrance with the identifier, to change.
    pub fn get_entrance_mut(&mut self, entrance_uuid: &u128) -> (r: Option<&mut MapEntrance>)
        ensures
            r is Some <==> first_entrance(old(self).map_entrances@, *entrance_uuid) is Some,
            r matches Some(e) ==> {
                let i = first_entrance(old(self).map_entrances@, *entrance_uuid)->0;
                &&& *e == old(self).map_entrances@[i]
                &&& final(self).map_entrances@ == old(self).map_entrances@.update(i, *final(e))
                &&& final(self).map_exits == old(self).map_exits
                &&& final(self).map_music == old(self).map_music
                &&& final(self).map_filename_noext == old(self).map_filename_noext
                &&& final(self).label == old(self).label
                &&& final(self).uuid == old(self).uuid
            },
            r is None ==> *final(self) == *old(self),
    {
        match find_entrance(&self.map_entrances, *entrance_uuid) {
            Some(i) => Some(&mut self.map_entrances[i]),
            None => None,
        }
    }

    /// The first entrance with the identifier.
    pub fn get_entrance(&self, entrance_uuid: &u128) -> (r: Option<&MapEntrance>)
        ensures
            match first_entrance(self.map_entrances@, *entrance_uuid) {
                Some(i) => r == Some(&self.map_entrances@[i]),
                None => r is None,
            },
    {
        match find_entrance(&self.map_entrances, *entrance_uuid) {
            Some(i) => Some(&self.map_entrances[i]),
            None => None,
        }
    }

    /// Adds an entrance at (0, 0) labelled with its position; gives its
    /// identifier.
    pub fn add_entrance(&mut self) -> (r: u128)
        ensures
            final(self).map_entrances@.len() == old(self).map_entrances@.len() + 1,
            final(self).map_entrances@.drop_last() == old(self).map_entrances@,
            final(self).map_entrances@.last()@ == (EntranceView { x: 0, y: 0, flags: 0x8009 }),
            final(self).map_entrances@.last().label@ == "Entrance 0x"@ + hex_padded(old(self).map_entrances@.len(), 0),
            final(self).map_entrances@.last().uuid == r,
            final(self).map_exits == old(self).map_exits,
            final(self).map_music == old(self).map_music,
            final(self).map_filename_noext == old(self).map_filename_noext,
            final(self).label == old(self).label,
            final(self).uuid == old(self).uuid,
    {
        let new_index = self.map_entrances.len();
        let mut label = String::from_str("Entrance 0x");
        let h = hex_string(new_index as u64, 0);
        label.append(h.as_str());
        let new_ent = MapEntrance { entrance_x: 0, entrance_y: 0, entrance_flags: 0x8009, label, uuid: new_uuid() };
        let ret = new_ent.uuid;
        self.map_entrances.push(new_ent);
        ret
    }

    /// Adds an exit at (0, 0) leading nowhere yet, labelled with its
    /// position; gives its identifier.
    pub fn add_exit(&mut self) -> (r: u128)
        ensures
            final(self).map_exits@.len() == old(self).map_exits@.len() + 1,
            final(self).map_exits@.drop_last() == old(self).map_exits@,
            final(self).map_exits@.last()@ == (ExitView {
                x: 0,
                y: 0,
                exit_type: 0,
                target_map_raw: 0xff,
                target_map_entrance_raw: 0xff,
            }),
            final(self).map_exits@.last().target_map == 0,
            final(self).map_exits@.last().target_map_entrance == 0,
            final(self).map_exits@.last().label@ == "Exit 0x"@ + hex_padded(old(self).map_exits@.len(), 0),
            final(self).map_exits@.last().uuid == r,
            final(self).map_entrances == old(self).map_entrances,
            final(self).map_music == old(self).map_music,
            final(self).map_filename_noext == old(self).map_filename_noext,
            final(self).label == old(self).label,
            final(self).uuid == old(self).uuid,
    {
        let new_index = self.map_exits.len();
        let mut label = String::from_str("Exit 0x");
        let h = hex_string(new_index as u64, 0);
        label.append(h.as_str());
        let new_exit = MapExit {
            exit_x: 0,
            exit_y: 0,
            exit_type: 0,
            target_map_raw: 0xff,
            target_map: 0,
            target_map_entrance_raw: 0xff,
            target_map_entrance: 0,
            label,
            uuid: new_uuid(),
        };
        let ret = new_exit.uuid;
        self.map_exits.push(new_exit);
        ret
    }

    /// Removes the first exit with the identifier; `false` when there is
    /// none.
    pub fn delete_exit(&mut self, exit_uuid: u128) -> (r: bool)
        ensures
            match first_exit(old(self).map_exits@, exit_uuid) {
                Some(i) => r && final(self).map_exits@ == old(self).map_exits@.remove(i),
                None => !r && final(self).map_exits@ == old(self).map_exits@,
            },
            final(self).map_entrances == old(self).map_entrances,
            final(self).map_music == old(self).map_music,
            final(self).map_filename_noext == old(self).map_filename_noext,
            final(self).label == old(self).label,
            final(self).uuid == old(self).uuid,
    {
        match find_exit(&self.map_exits, exit_uuid) {
            Some(i) => {
                self.map_exits.remove(i);
                true
            },
            None => false,
        }
    }

    /// Removes the first entrance with the identifier; `false` when there
    /// is none.
    pub fn delete_entrance(&mut self, entrance_uuid: u128) -> (r: bool)
        ensures
            match first_entrance(old(self).map_entrances@, entrance_uuid) {
                Some(i) => r && final(self).map_entrances@ == old(self).map_entrances@.remove(i),
                None => !r && final(self).map_entrances@ == old(self).map_entrances@,
            },
            final(self).map_exits == old(self).map_exits,
            final(self).map_music == old(self).map_music,
            final(self).map_filename_noext == old(self).map_filename_noext,
            final(self).label == old(self).label,
            final(self).uuid == old(self).uuid,
    {
        match find_entrance(&self.map_entrances, entrance_uuid) {
            Some(i) => {
                self.map_entrances.remove(i);
                true
            },
            None => false,
        }
    }

    /// A new map named `name_no_ext` with one default entrance and one
    /// default exit.
    pub fn from_template(name_no_ext: &str) -> (r: Self)
        ensures
            r.map_entrances@.len() == 1,
            r.map_entrances@[0]@ == (EntranceView { x: 2, y: 2, flags: 0x8000 }),
            r.map_exits@.len() == 1,
            r.map_exits@[0]@ == (ExitView { x: 0x10, y: 0x10, exit_type: 5, target_map_raw: 0, target_map_entrance_raw: 0 }),
            r.map_exits@[0].target_map == 0,
            r.map_exits@[0].target_map_entrance == 0,
            r.map_music == 0,
            r.map_filename_noext@ == name_no_ext@,
            r.label@ == name_no_ext@,
    {
        let mut ents: Vec<MapEntrance> = Vec::new();
        ents.push(MapEntrance::default());
        let mut exits: Vec<MapExit> = Vec::new();
        exits.push(MapExit::default());
        CourseMapInfo {
            map_entrances: ents,
            map_exits: exits,
            map_music: 0,
            map_filename_noext: String::from_str(name_no_ext),
            label: String::from_str(name_no_ext),
            uuid: new_uuid(),
        }
    }
}

} // verus!

verus! {

/// A map entry with everything it holds, identifiers included.
pub ghost struct MapRec {
    pub entrances: Seq<MapEntrance>,
    pub exits: Seq<MapExit>,
    pub music: u8,
    pub name: Seq<char>,
    pub label: Seq<char>,
    pub uuid: u128,
}

pub open spec fn rec_of(m: CourseMapInfo) -> MapRec {
    MapRec {
        entrances: m.map_entrances@,
        exits: m.map_exits@,
        music: m.map_music,
        name: m.map_filename_noext@,
        label: m.label@,
        uuid: m.uuid,
    }
}

pub open spec fn recs(ms: Seq<CourseMapInfo>) -> Seq<MapRec> {
    ms.map_values(|m: CourseMapInfo| rec_of(m))
}

/// The maps with the exit at `(i, j)` replaced by `e`.
pub open spec fn with_exit(rs: Seq<MapRec>, i: int, j: int, e: MapExit) -> Seq<MapRec> {
    rs.update(i, MapRec { exits: rs[i].exits.update(j, e), ..rs[i] })
}

/// The maps with every exit rewritten by `f`, given its position.
pub open spec fn map_exits_by(rs: Seq<MapRec>, f: spec_fn(int, int, MapExit) -> MapExit) -> Seq<MapRec> {
    Seq::new(
        rs.len(),
        |i: int| MapRec { exits: Seq::new(rs[i].exits.len(), |j: int| f(i, j, rs[i].exits[j])), ..rs[i] },
    )
}

fn set_exit_target_map(maps: &mut Vec<CourseMapInfo>, i: usize, j: usize, v: u128)
    requires
        i < old(maps)@.len(),
        j < old(maps)@[i as int].map_exits@.len(),
    ensures
        final(maps)@.len() == old(maps)@.len(),
        recs(final(maps)@) == with_exit(recs(old(maps)@), i as int, j as int, MapExit { target_map: v, ..old(maps)@[i as int].map_exits@[j as int] }),
{
    let ghost before = maps@;
    let m = &mut maps[i];
    let e = &mut m.map_exits[j];
    e.target_map = v;
    proof {
        assert(recs(maps@) =~= with_exit(recs(before), i as int, j as int, MapExit { target_map: v, ..before[i as int].map_exits@[j as int] }));
    }
}

fn set_exit_target_entrance(maps: &mut Vec<CourseMapInfo>, i: usize, j: usize, v: u128)
    requires
        i < old(maps)@.len(),
        j < old(maps)@[i as int].map_exits@.len(),
    ensures
        final(maps)@.len() == old(maps)@.len(),
        recs(final(maps)@) == with_exit(recs(old(maps)@), i as int, j as int, MapExit { target_map_entrance: v, ..old(maps)@[i as int].map_exits@[j as int] }),
{
    let ghost before = maps@;
    let m = &mut maps[i];
    let e = &mut m.map_exits[j];
    e.target_map_entrance = v;
    proof {
        assert(recs(maps@) =~= with_exit(recs(before), i as int, j as int, MapExit { target_map_entrance: v, ..before[i as int].map_exits@[j as int] }));
    }
}

fn set_exit_raws(maps: &mut Vec<CourseMapInfo>, i: usize, j: usize, rm: u8, re: u8)
    requires
        i < old(maps)@.len(),
        j < old(maps)@[i as int].map_exits@.len(),
    ensures
        final(maps)@.len() == old(maps)@.len(),
        recs(final(maps)@) == with_exit(recs(old(maps)@), i as int, j as int, MapExit {
            target_map_raw: rm,
            target_map_entrance_raw: re,
            ..old(maps)@[i as int].map_exits@[j as int]
        }),
{
    let ghost before = maps@;
    let m = &mut maps[i];
    let e = &mut m.map_exits[j];
    e.target_map_raw = rm;
    e.target_map_entrance_raw = re;
    proof {
        assert(recs(maps@) =~= with_exit(recs(before), i as int, j as int, MapExit {
            target_map_raw: rm,
            target_map_entrance_raw: re,
            ..before[i as int].map_exits@[j as int]
        }));
    }
}

/// The exit's target map position is a map.
pub open spec fn exit_map_ok(rs: Seq<MapRec>, e: MapExit) -> bool {
    (e.target_map_raw as int) < rs.len()
}

/// The exit's target positions are a map and one of its entrances.
pub open spec fn exit_ok(rs: Seq<MapRec>, e: MapExit) -> bool {
    exit_map_ok(rs, e) && (e.target_map_entrance_raw as int) < rs[e.target_map_raw as int].entrances.len()
}

/// Exit `(a, b)` comes before exit `(i, j)`: maps in order, then exits.
pub open spec fn exit_before(a: int, b: int, i: int, j: int) -> bool {
    a < i || (a == i && b < j)
}

/// Every exit before `(i, j)` has valid target positions.
pub open spec fn all_ok_before(rs: Seq<MapRec>, i: int, j: int) -> bool {
    forall|a: int, b: int|
        0 <= a < rs.len() && 0 <= b < rs[a].exits.len() && exit_before(a, b, i, j) ==> exit_ok(
            rs,
            #[trigger] rs[a].exits[b],
        )
}

/// The exit `(i, j)` after the identifiers are updated from the positions:
/// the update stops at the first exit whose positions are out of bounds,
/// which still gets its map when that position is valid.
pub open spec fn uuid_step(rs: Seq<MapRec>, i: int, j: int, e: MapExit) -> MapExit {
    if all_ok_before(rs, i, j) {
        if exit_ok(rs, e) {
            MapExit {
                target_map: rs[e.target_map_raw as int].uuid,
                target_map_entrance: rs[e.target_map_raw as int].entrances[e.target_map_entrance_raw as int].uuid,
                ..e
            }
        } else if exit_map_ok(rs, e) {
            MapExit { target_map: rs[e.target_map_raw as int].uuid, ..e }
        } else {
            e
        }
    } else {
        e
    }
}

pub open spec fn uuids_updated(rs: Seq<MapRec>) -> Seq<MapRec> {
    map_exits_by(rs, |i: int, j: int, e: MapExit| uuid_step(rs, i, j, e))
}

/// Every exit's target identifiers name the map and the entrance at its
/// target positions.
pub open spec fn exits_linked(rs: Seq<MapRec>) -> bool {
    forall|i: int, j: int|
        0 <= i < rs.len() && 0 <= j < rs[i].exits.len() ==> {
            let e = #[trigger] rs[i].exits[j];
            &&& exit_ok(rs, e)
            &&& e.target_map == rs[e.target_map_raw as int].uuid
            &&& e.target_map_entrance == rs[e.target_map_raw as int].entrances[e.target_map_entrance_raw as int].uuid
        }
}

proof fn lemma_recs_index(ms: Seq<CourseMapInfo>, k: int)
    requires
        0 <= k < ms.len(),
    ensures
        recs(ms)[k] == rec_of(ms[k]),
        recs(ms).len() == ms.len(),
{
}

proof fn lemma_with_same_exit(rs: Seq<MapRec>, i: int, j: int)
    requires
        0 <= i < rs.len(),
        0 <= j < rs[i].exits.len(),
    ensures
        with_exit(rs, i, j, rs[i].exits[j]) == rs,
{
    assert(rs[i].exits.update(j, rs[i].exits[j]) =~= rs[i].exits);
    assert(with_exit(rs, i, j, rs[i].exits[j]) =~= rs);
}

proof fn lemma_with_exit_twice(rs: Seq<MapRec>, i: int, j: int, a: MapExit, b: MapExit)
    requires
        0 <= i < rs.len(),
        0 <= j < rs[i].exits.len(),
    ensures
        with_exit(with_exit(rs, i, j, a), i, j, b) == with_exit(rs, i, j, b),
        with_exit(rs, i, j, a)[i].exits[j] == a,
{
    assert(with_exit(rs, i, j, a)[i].exits.update(j, b) =~= rs[i].exits.update(j, b));
    assert(with_exit(with_exit(rs, i, j, a), i, j, b) =~= with_exit(rs, i, j, b));
}

/// The exits before `(i, j)` updated, the others as they are.
pub open spec fn uuids_prefix(rs: Seq<MapRec>, i: int, j: int) -> Seq<MapRec> {
    map_exits_by(rs, |a: int, b: int, e: MapExit| if exit_before(a, b, i, j) { uuid_step(rs, a, b, e) } else { e })
}

proof fn lemma_prefix_start(rs: Seq<MapRec>)
    ensures
        uuids_prefix(rs, 0, 0) == rs,
{
    assert forall|a: int| 0 <= a < rs.len() implies uuids_prefix(rs, 0, 0)[a] == rs[a] by {
        assert(uuids_prefix(rs, 0, 0)[a].exits =~= rs[a].exits);
    }
    assert(uuids_prefix(rs, 0, 0) =~= rs);
}

proof fn lemma_prefix_row_end(rs: Seq<MapRec>, i: int)
    requires
        0 <= i < rs.len(),
    ensures
        uuids_prefix(rs, i, rs[i].exits.len() as int) == uuids_prefix(rs, i + 1, 0),
{
    let x = uuids_prefix(rs, i, rs[i].exits.len() as int);
    let y = uuids_prefix(rs, i + 1, 0);
    assert forall|a: int| 0 <= a < rs.len() implies x[a] == y[a] by {
        assert(x[a].exits =~= y[a].exits);
    }
    assert(x =~= y);
}

proof fn lemma_prefix_step(rs: Seq<MapRec>, i: int, j: int)
    requires
        0 <= i < rs.len(),
        0 <= j < rs[i].exits.len(),
        all_ok_before(rs, i, j),
    ensures
        with_exit(uuids_prefix(rs, i, j), i, j, uuid_step(rs, i, j, rs[i].exits[j])) == uuids_prefix(rs, i, j + 1),
        exit_ok(rs, rs[i].exits[j]) ==> all_ok_before(rs, i, j + 1),
{
    let x = with_exit(uuids_prefix(rs, i, j), i, j, uuid_step(rs, i, j, rs[i].exits[j]));
    let y = uuids_prefix(rs, i, j + 1);
    assert forall|a: int| 0 <= a < rs.len() implies x[a] == y[a] by {
        assert(x[a].exits =~= y[a].exits);
    }
    assert(x =~= y);
    if exit_ok(rs, rs[i].exits[j]) {
        assert forall|a: int, b: int|
            0 <= a < rs.len() && 0 <= b < rs[a].exits.len() && exit_before(a, b, i, j + 1) implies exit_ok(
            rs,
            #[trigger] rs[a].exits[b],
        ) by {
            if !(a == i && b == j) {
                assert(exit_before(a, b, i, j));
            }
        }
    }
}

proof fn lemma_prefix_stop(rs: Seq<MapRec>, i: int, j: int)
    requires
        0 <= i < rs.len(),
        0 <= j < rs[i].exits.len(),
        all_ok_before(rs, i, j),
        !exit_ok(rs, rs[i].exits[j]),
    ensures
        with_exit(uuids_prefix(rs, i, j), i, j, uuid_step(rs, i, j, rs[i].exits[j])) == uuids_updated(rs),
{
    let x = with_exit(uuids_prefix(rs, i, j), i, j, uuid_step(rs, i, j, rs[i].exits[j]));
    let y = uuids_updated(rs);
    assert forall|a: int| 0 <= a < rs.len() implies x[a] == y[a] by {
        assert forall|b: int| 0 <= b < rs[a].exits.len() implies x[a].exits[b] == y[a].exits[b] by {
            if exit_before(i, j, a, b) {
                assert(!all_ok_before(rs, a, b));
            }
        }
        assert(x[a].exits =~= y[a].exits);
    }
    assert(x =~= y);
}

proof fn lemma_prefix_done(rs: Seq<MapRec>)
    requires
        all_ok_before(rs, rs.len() as int, 0),
    ensures
        uuids_prefix(rs, rs.len() as int, 0) == uuids_updated(rs),
{
    let x = uuids_prefix(rs, rs.len() as int, 0);
    let y = uuids_updated(rs);
    assert forall|a: int| 0 <= a < rs.len() implies x[a] == y[a] by {
        assert forall|b: int| 0 <= b < rs[a].exits.len() implies x[a].exits[b] == y[a].exits[b] by {
            assert forall|c: int, d: int|
                0 <= c < rs.len() && 0 <= d < rs[c].exits.len() && exit_before(c, d, a, b) implies exit_ok(
                rs,
                #[trigger] rs[c].exits[d],
            ) by {
                assert(exit_before(c, d, rs.len() as int, 0));
            }
        }
        assert(x[a].exits =~= y[a].exits);
    }
    assert(x =~= y);
}

/// Sets the target identifiers of every exit from its target positions,
/// stopping at the first exit whose positions are out of bounds.
fn link_exits(maps: &mut Vec<CourseMapInfo>)
    ensures
        recs(final(maps)@) == uuids_updated(recs(old(maps)@)),
{
    let ghost rs = recs(maps@);
    proof {
        lemma_prefix_start(rs);
    }
    let n = maps.len();
    let mut i: usize = 0;
    while i < n
        invariant
            n == maps@.len(),
            rs == recs(old(maps)@),
            rs.len() == n,
            i <= n,
            all_ok_before(rs, i as int, 0),
            recs(maps@) == uuids_prefix(rs, i as int, 0),
        decreases n - i,
    {
        let ne = maps[i].map_exits.len();
        assert(ne == rs[i as int].exits.len()) by {
            assert(recs(maps@)[i as int].exits.len() == ne);
        }
        let mut j: usize = 0;
        while j < ne
            invariant
                n == maps@.len(),
                rs == recs(old(maps)@),
                rs.len() == n,
                i < n,
                j <= ne,
                ne == rs[i as int].exits.len(),
                all_ok_before(rs, i as int, j as int),
                recs(maps@) == uuids_prefix(rs, i as int, j as int),
            decreases ne - j,
        {
            let ghost e = rs[i as int].exits[j as int];
            proof {
                lemma_recs_index(maps@, i as int);
            }
            assert(recs(maps@)[i as int].exits[j as int] == e);
            let raw_map = maps[i].map_exits[j].target_map_raw as usize;
            let raw_ent = maps[i].map_exits[j].target_map_entrance_raw as usize;
            proof {
                lemma_prefix_step(rs, i as int, j as int);
            }
            if raw_map >= n {
                proof {
                    assert(uuid_step(rs, i as int, j as int, e) == e);
                    lemma_prefix_stop(rs, i as int, j as int);
                    lemma_with_same_exit(recs(maps@), i as int, j as int);
                }
                return;
            }
            proof {
                lemma_recs_index(maps@, raw_map as int);
            }
            let tm = maps[raw_map].uuid;
            let ghost mid = recs(maps@);
            set_exit_target_map(maps, i, j, tm);
            proof {
                lemma_recs_index(maps@, raw_map as int);
                lemma_recs_index(maps@, i as int);
                assert(recs(maps@)[raw_map as int].entrances == rs[raw_map as int].entrances);
            }
            if raw_ent >= maps[raw_map].map_entrances.len() {
                proof {
                    assert(uuid_step(rs, i as int, j as int, e) == (MapExit { target_map: tm, ..e }));
                    lemma_prefix_stop(rs, i as int, j as int);
                }
                return;
            }
            let ghost mid2 = recs(maps@);
            let te = maps[raw_map].map_entrances[raw_ent].uuid;
            set_exit_target_entrance(maps, i, j, te);
            proof {
                assert(exit_ok(rs, e));
                assert(uuid_step(rs, i as int, j as int, e) == (MapExit { target_map: tm, target_map_entrance: te, ..e }));
                lemma_with_exit_twice(mid, i as int, j as int, MapExit { target_map: tm, ..e }, uuid_step(rs, i as int, j as int, e));
                assert(mid2[i as int].exits[j as int] == (MapExit { target_map: tm, ..e }));
            }
            j += 1;
        }
        proof {
            lemma_prefix_row_end(rs, i as int);
            assert forall|a: int, b: int|
                0 <= a < rs.len() && 0 <= b < rs[a].exits.len() && exit_before(a, b, i + 1, 0) implies exit_ok(
                rs,
                #[trigger] rs[a].exits[b],
            ) by {
                assert(exit_before(a, b, i as int, ne as int));
            }
        }
        i += 1;
    }
    proof {
        lemma_prefix_done(rs);
    }
}

} // verus!

verus! {

/// The exits before `(i, j)` rewritten by `f`, the others as they are.
pub open spec fn prefix_by(rs: Seq<MapRec>, f: spec_fn(MapExit) -> MapExit, i: int, j: int) -> Seq<MapRec> {
    map_exits_by(rs, |a: int, b: int, e: MapExit| if exit_before(a, b, i, j) { f(e) } else { e })
}

proof fn lemma_prefix_by_start(rs: Seq<MapRec>, f: spec_fn(MapExit) -> MapExit)
    ensures
        prefix_by(rs, f, 0, 0) == rs,
{
    assert forall|a: int| 0 <= a < rs.len() implies prefix_by(rs, f, 0, 0)[a] == rs[a] by {
        assert(prefix_by(rs, f, 0, 0)[a].exits =~= rs[a].exits);
    }
    assert(prefix_by(rs, f, 0, 0) =~= rs);
}

proof fn lemma_prefix_by_row_end(rs: Seq<MapRec>, f: spec_fn(MapExit) -> MapExit, i: int)
    requires
        0 <= i < rs.len(),
    ensures
        prefix_by(rs, f, i, rs[i].exits.len() as int) == prefix_by(rs, f, i + 1, 0),
{
    let x = prefix_by(rs, f, i, rs[i].exits.len() as int);
    let y = prefix_by(rs, f, i + 1, 0);
    assert forall|a: int| 0 <= a < rs.len() implies x[a] == y[a] by {
        assert(x[a].exits =~= y[a].exits);
    }
    assert(x =~= y);
}

proof fn lemma_prefix_by_step(rs: Seq<MapRec>, f: spec_fn(MapExit) -> MapExit, i: int, j: int)
    requires
        0 <= i < rs.len(),
        0 <= j < rs[i].exits.len(),
    ensures
        with_exit(prefix_by(rs, f, i, j), i, j, f(rs[i].exits[j])) == prefix_by(rs, f, i, j + 1),
        prefix_by(rs, f, i, j)[i].exits[j] == rs[i].exits[j],
{
    let x = with_exit(prefix_by(rs, f, i, j), i, j, f(rs[i].exits[j]));
    let y = prefix_by(rs, f, i, j + 1);
    assert forall|a: int| 0 <= a < rs.len() implies x[a] == y[a] by {
        assert(x[a].exits =~= y[a].exits);
    }
    assert(x =~= y);
}

proof fn lemma_prefix_by_done(rs: Seq<MapRec>, f: spec_fn(MapExit) -> MapExit)
    ensures
        prefix_by(rs, f, rs.len() as int, 0) == map_exits_by(rs, |a: int, b: int, e: MapExit| f(e)),
{
    let x = prefix_by(rs, f, rs.len() as int, 0);
    let y = map_exits_by(rs, |a: int, b: int, e: MapExit| f(e));
    assert forall|a: int| 0 <= a < rs.len() implies x[a] == y[a] by {
        assert(x[a].exits =~= y[a].exits);
    }
    assert(x =~= y);
}

/// `k` is the position of the first map with the identifier.
pub open spec fn is_first_map(rs: Seq<MapRec>, uuid: u128, k: int) -> bool {
    &&& 0 <= k < rs.len()
    &&& rs[k].uuid == uuid
    &&& forall|j: int| 0 <= j < k ==> (#[trigger] rs[j]).uuid != uuid
}

pub open spec fn first_map(rs: Seq<MapRec>, uuid: u128) -> Option<int> {
    if exists|k: int| is_first_map(rs, uuid, k) {
        Some(choose|k: int| is_first_map(rs, uuid, k))
    } else {
        None
    }
}

proof fn lemma_first_map_unique(rs: Seq<MapRec>, uuid: u128, k: int)
    requires
        is_first_map(rs, uuid, k),
    ensures
        first_map(rs, uuid) == Some(k),
{
    let c = choose|j: int| is_first_map(rs, uuid, j);
    assert(is_first_map(rs, uuid, c));
    if c < k {
        assert(rs[c].uuid != uuid);
    } else if c > k {
        assert(rs[k].uuid != uuid);
    }
}

fn find_map(maps: &Vec<CourseMapInfo>, uuid: u128) -> (r: Option<usize>)
    ensures
        match r {
            Some(k) => first_map(recs(maps@), uuid) == Some(k as int),
            None => first_map(recs(maps@), uuid) is None,
        },
{
    let ghost rs = recs(maps@);
    let mut k: usize = 0;
    while k < maps.len()
        invariant
            k <= maps@.len(),
            rs == recs(maps@),
            forall|j: int| 0 <= j < k ==> (#[trigger] rs[j]).uuid != uuid,
        decreases maps@.len() - k,
    {
        assert(rs[k as int] == rec_of(maps@[k as int]));
        if maps[k].uuid == uuid {
            proof {
                lemma_first_map_unique(rs, uuid, k as int);
            }
            return Some(k);
        }
        k += 1;
    }
    None
}

/// The entrance position the saver finds for an identifier in a map:
/// that of the first entrance with it, or 0.
pub open spec fn entrance_pos_or_zero(r: MapRec, uuid: u128) -> int {
    match first_entrance(r.entrances, uuid) {
        Some(p) => p,
        None => 0,
    }
}

/// The exit with its target positions taken from its target identifiers;
/// unknown identifiers give position 0.
pub open spec fn index_step(rs: Seq<MapRec>, e: MapExit) -> MapExit {
    let m = match first_map(rs, e.target_map) {
        Some(k) => k,
        None => 0,
    };
    MapExit {
        target_map_raw: m as u8,
        target_map_entrance_raw: entrance_pos_or_zero(rs[m], e.target_map_entrance) as u8,
        ..e
    }
}

/// Searches by identifier count in 8 bits: each search ends within 256
/// steps.
pub open spec fn index_fits(rs: Seq<MapRec>, e: MapExit) -> bool {
    let m = match first_map(rs, e.target_map) {
        Some(k) => k,
        None => 0,
    };
    &&& match first_map(rs, e.target_map) {
        Some(k) => k < 256,
        None => rs.len() < 256,
    }
    &&& match first_entrance(rs[m].entrances, e.target_map_entrance) {
        Some(p) => p < 256,
        None => rs[m].entrances.len() < 256,
    }
}

pub open spec fn all_index_fit(rs: Seq<MapRec>) -> bool {
    forall|i: int, j: int| 0 <= i < rs.len() && 0 <= j < rs[i].exits.len() ==> index_fits(rs, #[trigger] rs[i].exits[j])
}

/// Sets every exit's target positions from its target identifiers.
fn index_exits(maps: &mut Vec<CourseMapInfo>)
    requires
        all_index_fit(recs(old(maps)@)),
    ensures
        recs(final(maps)@) == map_exits_by(recs(old(maps)@), |a: int, b: int, e: MapExit| index_step(recs(old(maps)@), e)),
{
    let ghost rs = recs(maps@);
    let ghost f = |e: MapExit| index_step(rs, e);
    proof {
        lemma_prefix_by_start(rs, f);
    }
    let n = maps.len();
    let mut i: usize = 0;
    while i < n
        invariant
            n == maps@.len(),
            rs == recs(old(maps)@),
            f == (|e: MapExit| index_step(rs, e)),
            all_index_fit(rs),
            rs.len() == n,
            i <= n,
            recs(maps@) == prefix_by(rs, f, i as int, 0),
        decreases n - i,
    {
        proof {
            lemma_recs_index(maps@, i as int);
        }
        let ne = maps[i].map_exits.len();
        let mut j: usize = 0;
        while j < ne
            invariant
                n == maps@.len(),
                rs == recs(old(maps)@),
                f == (|e: MapExit| index_step(rs, e)),
                all_index_fit(rs),
                rs.len() == n,
                i < n,
                j <= ne,
                ne == rs[i as int].exits.len(),
                recs(maps@) == prefix_by(rs, f, i as int, j as int),
            decreases ne - j,
        {
            let ghost e = rs[i as int].exits[j as int];
            proof {
                lemma_recs_index(maps@, i as int);
                lemma_prefix_by_step(rs, f, i as int, j as int);
                assert(index_fits(rs, e));
            }
            let tm = maps[i].map_exits[j].target_map;
            let te = maps[i].map_exits[j].target_map_entrance;
            assert(tm == e.target_map && te == e.target_map_entrance);
            let m = match find_map(maps, tm) {
                Some(k) => k,
                None => 0,
            };
            proof {
                lemma_recs_index(maps@, m as int);
                assert(recs(maps@)[m as int].entrances == rs[m as int].entrances);
                assert(recs(maps@)[m as int].uuid == rs[m as int].uuid);
                assert(recs(maps@) =~= prefix_by(rs, f, i as int, j as int));
                assert forall|k: int| 0 <= k < n implies (#[trigger] recs(maps@)[k]).uuid == rs[k].uuid by {}
                assert(first_map(recs(maps@), tm) == first_map(rs, tm)) by {
                    assert forall|k: int| 0 <= k < n implies (#[trigger] recs(maps@)[k]).uuid == rs[k].uuid by {}
                    if let Some(k) = first_map(rs, tm) {
                        assert(is_first_map(rs, tm, k));
                        assert(is_first_map(recs(maps@), tm, k));
                        lemma_first_map_unique(recs(maps@), tm, k);
                    } else if let Some(k) = first_map(recs(maps@), tm) {
                        assert(is_first_map(recs(maps@), tm, k));
                        assert forall|j: int| 0 <= j < k implies (#[trigger] rs[j]).uuid != tm by {
                            assert(recs(maps@)[j].uuid == rs[j].uuid);
                        }
                        assert(recs(maps@)[k].uuid == rs[k].uuid);
                        assert(is_first_map(rs, tm, k));
                    }
                }
            }
            let p: usize = match find_entrance(&maps[m].map_entrances, te) {
                Some(p) => p,
                None => 0,
            };
            set_exit_raws(maps, i, j, m as u8, p as u8);
            proof {
                assert(f(e) == index_step(rs, e));
                assert(index_step(rs, e) == (MapExit { target_map_raw: m as u8, target_map_entrance_raw: p as u8, ..e }));
            }
            j += 1;
        }
        proof {
            lemma_prefix_by_row_end(rs, f, i as int);
        }
        i += 1;
    }
    proof {
        lemma_prefix_by_done(rs, f);
        let x = map_exits_by(rs, |a: int, b: int, e: MapExit| f(e));
        let y = map_exits_by(rs, |a: int, b: int, e: MapExit| index_step(rs, e));
        assert forall|a: int| 0 <= a < rs.len() implies x[a] == y[a] by {
            assert(x[a].exits =~= y[a].exits);
        }
        assert(x =~= y);
    }
}

} // verus!

verus! {

/// The exit with its target positions repaired from its target
/// identifiers: a missing map gives map 0 and entrance 0, a missing
/// entrance gives entrance 0. Positions are kept in 8 bits.
pub open spec fn fix_step(rs: Seq<MapRec>, e: MapExit) -> MapExit {
    match first_map(rs, e.target_map) {
        None => MapExit { target_map_raw: 0, target_map_entrance_raw: 0, ..e },
        Some(k) => {
            let m = (k % 256) as int;
            MapExit {
                target_map_raw: m as u8,
                target_map_entrance_raw: (entrance_pos_or_zero(rs[m], e.target_map_entrance) % 256) as u8,
                ..e
            }
        },
    }
}

pub open spec fn raws_fixed(rs: Seq<MapRec>) -> Seq<MapRec> {
    map_exits_by(rs, |a: int, b: int, e: MapExit| fix_step(rs, e))
}

fn fix_raws(maps: &mut Vec<CourseMapInfo>)
    ensures
        recs(final(maps)@) == raws_fixed(recs(old(maps)@)),
{
    let ghost rs = recs(maps@);
    let ghost f = |e: MapExit| fix_step(rs, e);
    proof {
        lemma_prefix_by_start(rs, f);
    }
    let n = maps.len();
    let mut i: usize = 0;
    while i < n
        invariant
            n == maps@.len(),
            rs == recs(old(maps)@),
            f == (|e: MapExit| fix_step(rs, e)),
            rs.len() == n,
            i <= n,
            recs(maps@) == prefix_by(rs, f, i as int, 0),
        decreases n - i,
    {
        proof {
            lemma_recs_index(maps@, i as int);
        }
        let ne = maps[i].map_exits.len();
        let mut j: usize = 0;
        while j < ne
            invariant
                n == maps@.len(),
                rs == recs(old(maps)@),
                f == (|e: MapExit| fix_step(rs, e)),
                rs.len() == n,
                i < n,
                j <= ne,
                ne == rs[i as int].exits.len(),
                recs(maps@) == prefix_by(rs, f, i as int, j as int),
            decreases ne - j,
        {
            let ghost e = rs[i as int].exits[j as int];
            proof {
                lemma_recs_index(maps@, i as int);
                lemma_prefix_by_step(rs, f, i as int, j as int);
            }
            let tm = maps[i].map_exits[j].target_map;
            let te = maps[i].map_exits[j].target_map_entrance;
            assert(tm == e.target_map && te == e.target_map_entrance);
            proof {
                assert(recs(maps@) =~= prefix_by(rs, f, i as int, j as int));
                assert forall|k: int| 0 <= k < n implies (#[trigger] recs(maps@)[k]).uuid == rs[k].uuid
                    && recs(maps@)[k].entrances == rs[k].entrances by {}
                assert(first_map(recs(maps@), tm) == first_map(rs, tm)) by {
                    if let Some(k) = first_map(rs, tm) {
                        assert(is_first_map(rs, tm, k));
                        assert(is_first_map(recs(maps@), tm, k));
                        lemma_first_map_unique(recs(maps@), tm, k);
                    } else if let Some(k) = first_map(recs(maps@), tm) {
                        assert(is_first_map(recs(maps@), tm, k));
                        assert forall|j2: int| 0 <= j2 < k implies (#[trigger] rs[j2]).uuid != tm by {
                            assert(recs(maps@)[j2].uuid == rs[j2].uuid);
                        }
                        assert(is_first_map(rs, tm, k));
                    }
                }
            }
            match find_map(maps, tm) {
                None => {
                    set_exit_raws(maps, i, j, 0, 0);
                },
                Some(k) => {
                    let m = k % 256;
                    proof {
                        lemma_recs_index(maps@, m as int);
                    }
                    let p: usize = match find_entrance(&maps[m].map_entrances, te) {
                        Some(p) => p,
                        None => 0,
                    };
                    set_exit_raws(maps, i, j, m as u8, (p % 256) as u8);
                },
            }
            proof {
                assert(f(e) == fix_step(rs, e));
            }
            j += 1;
        }
        proof {
            lemma_prefix_by_row_end(rs, f, i as int);
        }
        i += 1;
    }
    proof {
        lemma_prefix_by_done(rs, f);
        let x = map_exits_by(rs, |a: int, b: int, e: MapExit| f(e));
        let y = raws_fixed(rs);
        assert forall|a: int| 0 <= a < rs.len() implies x[a] == y[a] by {
            assert(x[a].exits =~= y[a].exits);
        }
        assert(x =~= y);
    }
}

/// Every map has an entrance.
pub open spec fn all_have_entrances(rs: Seq<MapRec>) -> bool {
    forall|i: int| 0 <= i < rs.len() ==> (#[trigger] rs[i]).entrances.len() >= 1
}

proof fn lemma_fixed_all_ok(rs: Seq<MapRec>)
    requires
        all_have_entrances(rs),
    ensures
        forall|i: int, j: int|
            0 <= i < raws_fixed(rs).len() && 0 <= j < raws_fixed(rs)[i].exits.len() ==> exit_ok(
                raws_fixed(rs),
                #[trigger] raws_fixed(rs)[i].exits[j],
            ),
        all_have_entrances(raws_fixed(rs)),
{
    let f = raws_fixed(rs);
    assert forall|i: int, j: int| 0 <= i < f.len() && 0 <= j < f[i].exits.len() implies exit_ok(f, #[trigger] f[i].exits[j]) by {
        let e = rs[i].exits[j];
        assert(f[i].exits[j] == fix_step(rs, e));
        assert(rs[0].entrances.len() >= 1);
        if let Some(k) = first_map(rs, e.target_map) {
            assert(is_first_map(rs, e.target_map, k)) by {
                assert(exists|k2: int| is_first_map(rs, e.target_map, k2));
            }
            let m = (k % 256) as int;
            assert(m <= k);
            assert(rs[m].entrances.len() >= 1);
            let q = entrance_pos_or_zero(rs[m], e.target_map_entrance);
            if let Some(p) = first_entrance(rs[m].entrances, e.target_map_entrance) {
                assert(is_first_entrance(rs[m].entrances, e.target_map_entrance, p)) by {
                    assert(exists|p2: int| is_first_entrance(rs[m].entrances, e.target_map_entrance, p2));
                }
            }
            assert(q % 256 <= q < rs[m].entrances.len());
        }
    }
    assert forall|i: int| 0 <= i < f.len() implies (#[trigger] f[i]).entrances.len() >= 1 by {
        assert(rs[i].entrances.len() >= 1);
    }
}

proof fn lemma_linked_after_update(rs: Seq<MapRec>)
    requires
        forall|i: int, j: int|
            0 <= i < rs.len() && 0 <= j < rs[i].exits.len() ==> exit_ok(rs, #[trigger] rs[i].exits[j]),
    ensures
        exits_linked(uuids_updated(rs)),
{
    let u = uuids_updated(rs);
    assert forall|i: int, j: int| 0 <= i < u.len() && 0 <= j < u[i].exits.len() implies {
        let e = #[trigger] u[i].exits[j];
        &&& exit_ok(u, e)
        &&& e.target_map == u[e.target_map_raw as int].uuid
        &&& e.target_map_entrance == u[e.target_map_raw as int].entrances[e.target_map_entrance_raw as int].uuid
    } by {
        let e0 = rs[i].exits[j];
        assert(all_ok_before(rs, i, j));
        assert(exit_ok(rs, e0));
        assert(u[i].exits[j] == uuid_step(rs, i, j, e0));
        let m = e0.target_map_raw as int;
        assert(u[m].uuid == rs[m].uuid);
        assert(u[m].entrances == rs[m].entrances);
    }
}

} // verus!

verus! {

/// CRSB: the maps of a course.
#[derive(Clone, Debug)]
pub struct CourseInfo {
    pub level_map_data: Vec<CourseMapInfo>,
    pub src_filename: String,
    pub label: String,
}

impl Default for CourseInfo {
    fn default() -> (r: Self)
        ensures
            r.level_map_data@.len() == 0,
            r.src_filename@ == "ERROR"@,
            r.label@ == "DEFAULT"@,
    {
        CourseInfo {
            level_map_data: Vec::new(),
            src_filename: String::from_str("ERROR"),
            label: String::from_str("DEFAULT"),
        }
    }
}

/// The CSCN segments of the maps, one after the other.
pub open spec fn maps_wraps(ms: Seq<CourseMapInfo>) -> Seq<u8>
    decreases ms.len(),
{
    if ms.len() == 0 {
        Seq::empty()
    } else {
        maps_wraps(ms.drop_last()) + wrapped_segment(map_info_bytes(ms.last()@), encode_utf8("CSCN"@))
    }
}

impl Compilable for CourseInfo {
    /// The number of maps, then their CSCN segments, padded to four bytes.
    open spec fn spec_compile(&self) -> Seq<u8> {
        pad4(u32_bytes(self.level_map_data@.len() as u32) + maps_wraps(self.level_map_data@))
    }

    open spec fn can_compile(&self) -> bool {
        true
    }

    fn compile(&self) -> (r: Vec<u8>) {
        let mut comp: Vec<u8> = Vec::new();
        push_u32(&mut comp, self.level_map_data.len() as u32);
        let ghost head = comp@;
        let mut i: usize = 0;
        while i < self.level_map_data.len()
            invariant
                i <= self.level_map_data@.len(),
                head == u32_bytes(self.level_map_data@.len() as u32),
                comp@ == head + maps_wraps(self.level_map_data@.take(i as int)),
            decreases self.level_map_data@.len() - i,
        {
            let b = self.level_map_data[i].wrap();
            assert(self.level_map_data@.take(i + 1).drop_last() =~= self.level_map_data@.take(i as int));
            push_all(&mut comp, b.as_slice());
            i += 1;
        }
        assert(self.level_map_data@.take(i as int) =~= self.level_map_data@);
        pad_vec(&mut comp);
        comp
    }
}

/// A map as `from_template` makes it for `name`.
pub open spec fn template_rec(r: MapRec, name: Seq<char>) -> bool {
    &&& r.entrances.len() == 1
    &&& r.entrances[0]@ == (EntranceView { x: 2, y: 2, flags: 0x8000 })
    &&& r.exits.len() == 1
    &&& r.exits[0]@ == (ExitView { x: 0x10, y: 0x10, exit_type: 5, target_map_raw: 0, target_map_entrance_raw: 0 })
    &&& r.exits[0].target_map == 0
    &&& r.exits[0].target_map_entrance == 0
    &&& r.music == 0
    &&& r.name == name
    &&& r.label == name
}

impl CourseInfo {
    /// Sets every exit's target identifiers from its target positions,
    /// stopping at the first exit whose positions are out of bounds.
    pub fn update_exit_uuids(&mut self)
        ensures
            recs(final(self).level_map_data@) == uuids_updated(recs(old(self).level_map_data@)),
            final(self).src_filename == old(self).src_filename,
            final(self).label == old(self).label,
    {
        link_exits(&mut self.level_map_data);
    }

    /// Sets every exit's target positions from its target identifiers.
    fn update_exit_indexes(&mut self)
        requires
            all_index_fit(recs(old(self).level_map_data@)),
        ensures
            recs(final(self).level_map_data@) == map_exits_by(
                recs(old(self).level_map_data@),
                |a: int, b: int, e: MapExit| index_step(recs(old(self).level_map_data@), e),
            ),
            final(self).src_filename == old(self).src_filename,
            final(self).label == old(self).label,
    {
        index_exits(&mut self.level_map_data);
    }

    /// The CRSB segment, after the exits' target positions are taken from
    /// their target identifiers.
    pub fn wrap(&mut self) -> (r: Vec<u8>)
        requires
            all_index_fit(recs(old(self).level_map_data@)),
        ensures
            recs(final(self).level_map_data@) == map_exits_by(
                recs(old(self).level_map_data@),
                |a: int, b: int, e: MapExit| index_step(recs(old(self).level_map_data@), e),
            ),
            r@ == wrapped_segment(final(self).spec_compile(), encode_utf8("CRSB"@)),
    {
        self.update_exit_indexes();
        let body = self.compile();
        segment_wrap(&body, String::from_str("CRSB"))
    }

    /// Repairs the exits' target positions from their target identifiers,
    /// then sets the identifiers from the positions. When every map has an
    /// entrance, every exit ends up leading to an existing map and entrance.
    pub fn fix_exits(&mut self)
        ensures
            recs(final(self).level_map_data@) == uuids_updated(raws_fixed(recs(old(self).level_map_data@))),
            all_have_entrances(recs(old(self).level_map_data@)) ==> exits_linked(recs(final(self).level_map_data@)),
            final(self).src_filename == old(self).src_filename,
            final(self).label == old(self).label,
    {
        fix_raws(&mut self.level_map_data);
        proof {
            if all_have_entrances(recs(old(self).level_map_data@)) {
                lemma_fixed_all_ok(recs(old(self).level_map_data@));
                lemma_linked_after_update(recs(self.level_map_data@));
            }
        }
        link_exits(&mut self.level_map_data);
    }

    /// Removes the map at `index` and repairs the exits; `false` when there
    /// is no such map.
    pub fn delete_map_info_by_index(&mut self, index: usize) -> (r: bool)
        ensures
            r == (index < old(self).level_map_data@.len()),
            r ==> recs(final(self).level_map_data@) == uuids_updated(
                raws_fixed(recs(old(self).level_map_data@.remove(index as int))),
            ),
            !r ==> recs(final(self).level_map_data@) == recs(old(self).level_map_data@),
            final(self).src_filename == old(self).src_filename,
            final(self).label == old(self).label,
    {
        if index >= self.level_map_data.len() {
            return false;
        }
        let ghost before = self.level_map_data@;
        self.level_map_data.remove(index);
        assert(recs(self.level_map_data@) =~= recs(before.remove(index as int)));
        self.fix_exits();
        true
    }

    /// Adds a new map made from a template named `file_name_noext` (the
    /// file itself is copied by the caller): the exits are repaired first,
    /// then the map is added and the exits' identifiers are set again.
    pub fn add_template_map(&mut self, file_name_noext: &str)
        ensures
            exists|nr: MapRec|
                template_rec(nr, file_name_noext@) && recs(final(self).level_map_data@) == uuids_updated(
                    uuids_updated(raws_fixed(recs(old(self).level_map_data@))).push(nr),
                ),
            final(self).src_filename == old(self).src_filename,
            final(self).label == old(self).label,
    {
        let new_course = CourseMapInfo::from_template(file_name_noext);
        self.fix_exits();
        let ghost mid = recs(self.level_map_data@);
        self.level_map_data.push(new_course);
        assert(recs(self.level_map_data@) =~= mid.push(rec_of(new_course)));
        self.update_exit_uuids();
        assert(template_rec(rec_of(new_course), file_name_noext@));
    }
}

} // verus!

verus! {

/// A map entry as the file holds it; the name as raw bytes.
pub ghost struct ParsedMap {
    pub entrances: Seq<EntranceView>,
    pub exits: Seq<ExitView>,
    pub music: u8,
    pub name: Seq<u8>,
}

pub open spec fn entrance_at(s: Seq<u8>, p: int) -> EntranceView {
    EntranceView { x: le16(s, p), y: le16(s, p + 2), flags: le16(s, p + 4) }
}

pub open spec fn exit_at(s: Seq<u8>, p: int) -> ExitView {
    ExitView {
        x: le16(s, p),
        y: le16(s, p + 2),
        exit_type: le16(s, p + 4),
        target_map_raw: s[p + 6],
        target_map_entrance_raw: s[p + 7],
    }
}

/// Where the reader stands after skipping bytes from `r` up to a multiple
/// of four in data of length `len`; `None` when it never gets there.
/// Reading past the end leaves the reader at the end.
pub open spec fn pad_end(r: int, len: int) -> Option<int> {
    if r % 4 == 0 {
        Some(r)
    } else if r > len {
        if len % 4 == 0 {
            Some(len)
        } else {
            None
        }
    } else if r + pad_len4(r as nat) <= len {
        Some(r + pad_len4(r as nat))
    } else {
        None
    }
}

/// The CSCN entry whose header is at `p`, and where the next one starts:
/// name, size, counts and music, the name in a 16-byte field, the
/// entrances, padding, the exits. `None` when the reader panics or does
/// not end on it.
pub open spec fn cscn_at(s: Seq<u8>, p: int) -> Option<(ParsedMap, int)> {
    if p < 0 || p + 12 > s.len() {
        None
    } else {
        let ne = le16(s, p + 8) as int;
        let nx = s[p + 10] as int;
        let q = p + 28;
        if ne > 0 && q + 6 * ne > s.len() {
            None
        } else {
            match pad_end(q + 6 * ne, s.len() as int) {
                None => None,
                Some(e) => if nx > 0 && e + 8 * nx > s.len() {
                    None
                } else {
                    Some(
                        (
                            ParsedMap {
                                entrances: Seq::new(ne as nat, |k: int| entrance_at(s, q + 6 * k)),
                                exits: Seq::new(nx as nat, |k: int| exit_at(s, e + 8 * k)),
                                music: s[p + 11],
                                name: s.subrange(p + 12, crate::bytes::c_str_end(s, p + 12)),
                            },
                            e + 8 * nx,
                        ),
                    )
                },
            }
        }
    }
}

/// The entry of `cscn_at`.
pub open spec fn cscn_map(s: Seq<u8>, p: int) -> ParsedMap {
    let (m, q) = cscn_at(s, p)->0;
    m
}

/// Where the next entry starts, after `cscn_at`.
pub open spec fn cscn_next(s: Seq<u8>, p: int) -> int {
    let (m, q) = cscn_at(s, p)->0;
    q
}

/// `n` CSCN entries read from `p`.
pub open spec fn cscns_from(s: Seq<u8>, p: int, n: nat) -> Option<Seq<ParsedMap>>
    decreases n,
{
    if n == 0 {
        Some(Seq::empty())
    } else {
        match cscn_at(s, p) {
            None => None,
            Some((m, q)) => match cscns_from(s, q, (n - 1) as nat) {
                None => None,
                Some(rest) => Some(seq![m] + rest),
            },
        }
    }
}

/// Reading a course file: `Some(None)` when it is too short for its
/// header (the reader then gives the default course), `None` when the
/// reader panics or does not end.
pub open spec fn course_parse(s: Seq<u8>) -> Option<Option<Seq<ParsedMap>>> {
    if s.len() < 4 {
        Some(None)
    } else if s.len() < 12 {
        None
    } else {
        match cscns_from(s, 12, le32_at(s, 8) as nat) {
            None => None,
            Some(ms) => Some(Some(ms)),
        }
    }
}

pub open spec fn le32_at(s: Seq<u8>, p: int) -> u32 {
    crate::bytes::le32(s, p)
}

/// A map entry read from the file, as the reader labels it: the map with
/// its position and name, entrances and exits with their positions.
pub open spec fn read_map_matches(c: CourseMapInfo, m: ParsedMap, i: int) -> bool {
    &&& c@ == (MapInfoView {
        entrances: m.entrances,
        exits: m.exits,
        music: m.music,
        name: crate::text::latin1(m.name),
    })
    &&& c.label@ == "0x"@ + hex_padded(i as nat, 0) + ": "@ + crate::text::latin1(m.name)
    &&& forall|k: int| 0 <= k < m.entrances.len() ==> (#[trigger] c.map_entrances@[k]).label@ == "Entrance 0x"@ + hex_padded(k as nat, 0)
    &&& forall|k: int| 0 <= k < m.exits.len() ==> (#[trigger] c.map_exits@[k]).label@ == "Exit 0x"@ + hex_padded(k as nat, 0)
}

/// The exits' target identifiers as setting them from the positions
/// leaves them when they were all nil before.
pub open spec fn targets_from_raws(rs: Seq<MapRec>) -> bool {
    &&& rs == uuids_updated(rs)
    &&& forall|i: int, j: int|
        0 <= i < rs.len() && 0 <= j < rs[i].exits.len() ==> {
            let e = #[trigger] rs[i].exits[j];
            &&& !(all_ok_before(rs, i, j) && exit_map_ok(rs, e)) ==> e.target_map == 0
            &&& !(all_ok_before(rs, i, j) && exit_ok(rs, e)) ==> e.target_map_entrance == 0
        }
}

} // verus!

verus! {

/// Every exit's target identifiers are nil.
pub open spec fn targets_nil(ms: Seq<CourseMapInfo>) -> bool {
    forall|i: int, j: int|
        0 <= i < ms.len() && 0 <= j < ms[i].map_exits@.len() ==> (#[trigger] ms[i].map_exits@[j]).target_map == 0
            && ms[i].map_exits@[j].target_map_entrance == 0
}

fn labelled(prefix: &str, k: u64) -> (r: String)
    ensures
        r@ == prefix@ + hex_padded(k as nat, 0),
{
    let mut l = String::from_str(prefix);
    let h = hex_string(k, 0);
    l.append(h.as_str());
    l
}

/// Reads the CSCN entry at `p`, which is the `idx`-th; gives the map and
/// where the next entry starts.
fn read_cscn(s: &[u8], p: u128, idx: u32) -> (r: (CourseMapInfo, u128))
    requires
        cscn_at(s@, p as int) is Some,
    ensures
        read_map_matches(r.0, cscn_map(s@, p as int), idx as int),
        r.1 == cscn_next(s@, p as int),
        forall|j: int| 0 <= j < r.0.map_exits@.len() ==> (#[trigger] r.0.map_exits@[j]).target_map == 0
            && r.0.map_exits@[j].target_map_entrance == 0,
{
    let len = s.len();
    assert(p + 12 <= len);
    let pu = p as usize;
    let ne = crate::bytes::read_u16(s, pu + 8);
    let nx = s[pu + 10];
    let music = s[pu + 11];
    let (name_bytes, _after) = crate::bytes::read_c_string(s, pu + 12);
    let name = crate::text::latin1_string(name_bytes.as_slice());
    let mut label = labelled("0x", idx as u64);
    label.append(": ");
    label.append(name.as_str());
    let q: u128 = p + 28;
    assert(ne > 0 ==> q + 6 * ne <= len);
    let mut entrances: Vec<MapEntrance> = Vec::new();
    let mut k: u16 = 0;
    while k < ne
        invariant
            k <= ne,
            ne > 0 ==> q + 6 * ne <= s@.len(),
            len == s@.len(),
            entrances@.len() == k,
            forall|a: int| 0 <= a < k ==> (#[trigger] entrances@[a])@ == entrance_at(s@, q + 6 * a),
            forall|a: int| 0 <= a < k ==> (#[trigger] entrances@[a]).label@ == "Entrance 0x"@ + hex_padded(a as nat, 0),
        decreases ne - k,
    {
        let at = (q + 6 * k as u128) as usize;
        let x = crate::bytes::read_u16(s, at);
        let y = crate::bytes::read_u16(s, at + 2);
        let flags = crate::bytes::read_u16(s, at + 4);
        let l = labelled("Entrance 0x", k as u64);
        entrances.push(MapEntrance { entrance_x: x, entrance_y: y, entrance_flags: flags, label: l, uuid: new_uuid() });
        k += 1;
    }
    let r: u128 = q + 6 * ne as u128;
    let e: u128 = if r % 4 == 0 {
        r
    } else if r > len as u128 {
        len as u128
    } else {
        r + (4 - r % 4)
    };
    assert(pad_end(r as int, len as int) == Some(e as int));
    assert(nx > 0 ==> e + 8 * nx <= len);
    let mut exits: Vec<MapExit> = Vec::new();
    let mut j: u8 = 0;
    while j < nx
        invariant
            j <= nx,
            nx > 0 ==> e + 8 * nx <= s@.len(),
            len == s@.len(),
            exits@.len() == j,
            forall|a: int| 0 <= a < j ==> (#[trigger] exits@[a])@ == exit_at(s@, e + 8 * a),
            forall|a: int| 0 <= a < j ==> (#[trigger] exits@[a]).label@ == "Exit 0x"@ + hex_padded(a as nat, 0),
            forall|a: int| 0 <= a < j ==> (#[trigger] exits@[a]).target_map == 0 && exits@[a].target_map_entrance == 0,
        decreases nx - j,
    {
        let at = (e + 8 * j as u128) as usize;
        let x = crate::bytes::read_u16(s, at);
        let y = crate::bytes::read_u16(s, at + 2);
        let t = crate::bytes::read_u16(s, at + 4);
        let rm = s[at + 6];
        let re = s[at + 7];
        let l = labelled("Exit 0x", j as u64);
        exits.push(
            MapExit {
                exit_x: x,
                exit_y: y,
                exit_type: t,
                target_map_raw: rm,
                target_map: 0,
                target_map_entrance_raw: re,
                target_map_entrance: 0,
                label: l,
                uuid: new_uuid(),
            },
        );
        j += 1;
    }
    let m = CourseMapInfo {
        map_entrances: entrances,
        map_exits: exits,
        map_music: music,
        map_filename_noext: name,
        label,
        uuid: new_uuid(),
    };
    proof {
        let pm = cscn_map(s@, p as int);
        assert(m@.entrances =~= pm.entrances);
        assert(m@.exits =~= pm.exits);
    }
    (m, e + 8 * nx as u128)
}

} // verus!

verus! {

proof fn lemma_uuids_fixpoint(pre: Seq<MapRec>)
    requires
        forall|i: int, j: int|
            0 <= i < pre.len() && 0 <= j < pre[i].exits.len() ==> (#[trigger] pre[i].exits[j]).target_map == 0
                && pre[i].exits[j].target_map_entrance == 0,
    ensures
        targets_from_raws(uuids_updated(pre)),
{
    let u = uuids_updated(pre);
    assert forall|i: int, j: int| 0 <= i < u.len() && 0 <= j < u[i].exits.len() implies exit_ok(u, #[trigger] u[i].exits[j])
        == exit_ok(pre, pre[i].exits[j]) && exit_map_ok(u, u[i].exits[j]) == exit_map_ok(pre, pre[i].exits[j]) by {
        let e = pre[i].exits[j];
        assert(u[i].exits[j].target_map_raw == e.target_map_raw);
        assert(u[i].exits[j].target_map_entrance_raw == e.target_map_entrance_raw);
        if (e.target_map_raw as int) < pre.len() {
            assert(u[e.target_map_raw as int].entrances == pre[e.target_map_raw as int].entrances);
        }
    }
    assert forall|i: int, j: int| 0 <= i < u.len() && 0 <= j < u[i].exits.len() implies all_ok_before(u, i, j)
        == all_ok_before(pre, i, j) by {
        if all_ok_before(pre, i, j) {
            assert forall|a: int, b: int|
                0 <= a < u.len() && 0 <= b < u[a].exits.len() && exit_before(a, b, i, j) implies exit_ok(
                u,
                #[trigger] u[a].exits[b],
            ) by {
                assert(exit_ok(pre, pre[a].exits[b]));
            }
        }
        if all_ok_before(u, i, j) {
            assert forall|a: int, b: int|
                0 <= a < pre.len() && 0 <= b < pre[a].exits.len() && exit_before(a, b, i, j) implies exit_ok(
                pre,
                #[trigger] pre[a].exits[b],
            ) by {
                assert(exit_ok(u, u[a].exits[b]));
            }
        }
    }
    let uu = uuids_updated(u);
    assert forall|i: int| 0 <= i < u.len() implies uu[i] == u[i] by {
        assert forall|j: int| 0 <= j < u[i].exits.len() implies uu[i].exits[j] == u[i].exits[j] by {
            assert(all_ok_before(u, i, j) == all_ok_before(pre, i, j));
            assert(exit_ok(u, u[i].exits[j]) == exit_ok(pre, pre[i].exits[j]));
            let e = pre[i].exits[j];
            if (e.target_map_raw as int) < pre.len() {
                assert(u[e.target_map_raw as int].uuid == pre[e.target_map_raw as int].uuid);
                assert(u[e.target_map_raw as int].entrances == pre[e.target_map_raw as int].entrances);
            }
        }
        assert(uu[i].exits =~= u[i].exits);
    }
    assert(uu =~= u);
    assert forall|i: int, j: int| 0 <= i < u.len() && 0 <= j < u[i].exits.len() implies {
        let e = #[trigger] u[i].exits[j];
        &&& !(all_ok_before(u, i, j) && exit_map_ok(u, e)) ==> e.target_map == 0
        &&& !(all_ok_before(u, i, j) && exit_ok(u, e)) ==> e.target_map_entrance == 0
    } by {
        assert(all_ok_before(u, i, j) == all_ok_before(pre, i, j));
        assert(exit_ok(u, u[i].exits[j]) == exit_ok(pre, pre[i].exits[j]));
        assert(exit_map_ok(u, u[i].exits[j]) == exit_map_ok(pre, pre[i].exits[j]));
    }
}

impl CourseInfo {
    /// Reads a course file's contents. A file too short for its header
    /// gives the default course. Maps, entrances and exits are labelled
    /// with their positions and get fresh identifiers; then the exits'
    /// target identifiers are set from their target positions.
    pub fn new(file_bytes: &[u8], src_filename: String, label: &String) -> (r: Self)
        requires
            course_parse(file_bytes@) is Some,
        ensures
            match course_parse(file_bytes@) {
                Some(None) => r.level_map_data@.len() == 0 && r.src_filename@ == "ERROR"@ && r.label@ == "DEFAULT"@,
                Some(Some(ms)) => {
                    &&& r.level_map_data@.len() == ms.len()
                    &&& forall|i: int| 0 <= i < ms.len() ==> read_map_matches(#[trigger] r.level_map_data@[i], ms[i], i)
                    &&& targets_from_raws(recs(r.level_map_data@))
                    &&& r.src_filename@ == src_filename@
                    &&& r.label@ == label@
                },
                None => false,
            },
    {
        if file_bytes.len() < 4 {
            return CourseInfo::default();
        }
        let count = crate::bytes::read_u32(file_bytes, 8);
        let ghost total = cscns_from(file_bytes@, 12, count as nat);
        let mut maps: Vec<CourseMapInfo> = Vec::new();
        let mut p: u128 = 12;
        let mut idx: u32 = 0;
        let ghost mut acc: Seq<ParsedMap> = Seq::empty();
        while idx < count
            invariant
                idx <= count,
                count == le32_at(file_bytes@, 8),
                total == cscns_from(file_bytes@, 12, count as nat),
                total is Some,
                total == (match cscns_from(file_bytes@, p as int, (count - idx) as nat) {
                    Some(rest) => Some(acc + rest),
                    None => None,
                }),
                acc.len() == idx,
                maps@.len() == idx,
                forall|i: int| 0 <= i < idx ==> read_map_matches(#[trigger] maps@[i], acc[i], i),
                targets_nil(maps@),
            decreases count - idx,
        {
            let (m, next) = read_cscn(file_bytes, p, idx);
            proof {
                let pm = cscn_map(file_bytes@, p as int);
                match cscns_from(file_bytes@, next as int, (count - idx - 1) as nat) {
                    Some(rest) => {
                        assert(acc + (seq![pm] + rest) =~= acc.push(pm) + rest);
                    },
                    None => {},
                }
                acc = acc.push(pm);
            }
            maps.push(m);
            p = next;
            idx += 1;
        }
        assert(acc + Seq::<ParsedMap>::empty() =~= acc);
        let mut ret = CourseInfo { level_map_data: maps, src_filename, label: label.clone() };
        proof {
            lemma_uuids_fixpoint(recs(ret.level_map_data@));
        }
        let ghost before = ret.level_map_data@;
        ret.update_exit_uuids();
        proof {
            assert forall|i: int| 0 <= i < acc.len() implies read_map_matches(#[trigger] ret.level_map_data@[i], acc[i], i) by {
                lemma_recs_index(ret.level_map_data@, i);
                lemma_recs_index(before, i);
                let a = ret.level_map_data@[i];
                let b = before[i];
                assert(rec_of(a).exits.len() == rec_of(b).exits.len());
                assert(a@.exits =~= b@.exits);
                assert(a@.entrances =~= b@.entrances);
                assert forall|k: int| 0 <= k < acc[i].exits.len() implies (#[trigger] a.map_exits@[k]).label@ == "Exit 0x"@ + hex_padded(k as nat, 0) by {
                    assert(a.map_exits@[k].label == b.map_exits@[k].label);
                }
            }
        }
        ret
    }
}

} // verus!

verus! {

/// Whether the exit's target searches end within 256 steps.
fn exit_index_fits(maps: &Vec<CourseMapInfo>, e: &MapExit) -> (r: bool)
    requires
        maps@.len() > 0,
    ensures
        r == index_fits(recs(maps@), *e),
{
    let ghost rs = recs(maps@);
    let m: usize = match find_map(maps, e.target_map) {
        Some(k) => {
            if k >= 256 {
                return false;
            }
            k
        },
        None => {
            if maps.len() >= 256 {
                return false;
            }
            0
        },
    };
    assert(rs[m as int] == rec_of(maps@[m as int]));
    match find_entrance(&maps[m].map_entrances, e.target_map_entrance) {
        Some(p) => p < 256,
        None => maps[m].map_entrances.len() < 256,
    }
}

impl CourseInfo {
    /// Whether saving can number every exit's targets: each search for a
    /// target map or entrance ends within 256 steps.
    pub fn exits_indexable(&self) -> (r: bool)
        ensures
            r == all_index_fit(recs(self.level_map_data@)),
    {
        let ghost rs = recs(self.level_map_data@);
        let maps = &self.level_map_data;
        let mut i: usize = 0;
        while i < maps.len()
            invariant
                i <= maps@.len(),
                rs == recs(maps@),
                rs == recs(self.level_map_data@),
                forall|a: int, b: int| 0 <= a < i && 0 <= b < rs[a].exits.len() ==> index_fits(rs, #[trigger] rs[a].exits[b]),
            decreases maps@.len() - i,
        {
            let exits = &maps[i].map_exits;
            assert(rs[i as int].exits == exits@);
            let mut j: usize = 0;
            while j < exits.len()
                invariant
                    i < maps@.len(),
                    j <= exits@.len(),
                    rs == recs(maps@),
                    rs == recs(self.level_map_data@),
                    rs[i as int].exits == exits@,
                    forall|a: int, b: int| 0 <= a < i && 0 <= b < rs[a].exits.len() ==> index_fits(rs, #[trigger] rs[a].exits[b]),
                    forall|b: int| 0 <= b < j ==> index_fits(rs, #[trigger] rs[i as int].exits[b]),
                decreases exits@.len() - j,
            {
                if !exit_index_fits(maps, &exits[j]) {
                    assert(exits@[j as int] == rs[i as int].exits[j as int]);
                    assert(!index_fits(rs, rs[i as int].exits[j as int]));
                    assert(0 <= i < rs.len() && 0 <= j < rs[i as int].exits.len());
                    assert(!all_index_fit(rs));
                    return false;
                }
                j += 1;
            }
            i += 1;
        }
        true
    }
}

} // verus!

verus! {

/// Where the CSCN entry at `p` ends, or `None` when the reader cannot
/// take it.
fn cscn_end(s: &[u8], p: u128) -> (r: Option<u128>)
    requires
        p <= s@.len() + 16,
    ensures
        match cscn_at(s@, p as int) {
            None => r is None,
            Some((m, q)) => r matches Some(x) && x == q,
        },
        r matches Some(q) ==> q <= s@.len() + 16,
{
    let len = s.len();
    if p + 12 > len as u128 {
        return None;
    }
    let pu = p as usize;
    let ne = crate::bytes::read_u16(s, pu + 8);
    let nx = s[pu + 10];
    let q: u128 = p + 28;
    if ne > 0 && q + 6 * (ne as u128) > len as u128 {
        return None;
    }
    let r: u128 = q + 6 * ne as u128;
    let e: u128 = if r % 4 == 0 {
        r
    } else if r > len as u128 {
        if len % 4 == 0 {
            len as u128
        } else {
            return None;
        }
    } else if r + (4 - r % 4) <= len as u128 {
        r + (4 - r % 4)
    } else {
        return None;
    };
    assert(pad_end(r as int, len as int) == Some(e as int));
    if nx > 0 && e + 8 * (nx as u128) > len as u128 {
        return None;
    }
    Some(e + 8 * nx as u128)
}

/// Decides whether a course file can be read (`course_parse` is not
/// `None`).
pub fn course_readable(s: &[u8]) -> (r: bool)
    ensures
        r == (course_parse(s@) is Some),
{
    if s.len() < 4 {
        return true;
    }
    if s.len() < 12 {
        return false;
    }
    let count = crate::bytes::read_u32(s, 8);
    let mut p: u128 = 12;
    let mut idx: u32 = 0;
    while idx < count
        invariant
            idx <= count,
            s@.len() >= 12,
            count == le32_at(s@, 8),
            (cscns_from(s@, 12, count as nat) is Some) == (cscns_from(s@, p as int, (count - idx) as nat) is Some),
            p <= s@.len() + 16,
        decreases count - idx,
    {
        let ghost n = (count - idx) as nat;
        match cscn_end(s, p) {
            None => {
                assert(cscns_from(s@, p as int, n) is None);
                return false;
            },
            Some(q) => {
                assert((cscns_from(s@, p as int, n) is Some) == (cscns_from(s@, q as int, (n - 1) as nat) is Some));
                p = q;
            },
        }
        idx += 1;
    }
    true
}

impl CourseInfo {
    /// Reads a course file's contents as `new` does, or gives `None` for
    /// files that make the reader fail.
    pub fn load(file_bytes: &[u8], src_filename: String, label: &String) -> (r: Option<Self>)
        ensures
            r is None <==> course_parse(file_bytes@) is None,
            r matches Some(c) ==> match course_parse(file_bytes@) {
                Some(None) => c.level_map_data@.len() == 0 && c.src_filename@ == "ERROR"@ && c.label@ == "DEFAULT"@,
                Some(Some(ms)) => {
                    &&& c.level_map_data@.len() == ms.len()
                    &&& forall|i: int| 0 <= i < ms.len() ==> read_map_matches(#[trigger] c.level_map_data@[i], ms[i], i)
                    &&& targets_from_raws(recs(c.level_map_data@))
                    &&& c.src_filename@ == src_filename@
                    &&& c.label@ == label@
                },
                None => false,
            },
    {
        if !course_readable(file_bytes) {
            return None;
        }
        Some(Self::new(file_bytes, src_filename, label))
    }
}

/// No two maps share an identifier.
pub open spec fn map_ids_distinct(rs: Seq<MapRec>) -> bool {
    forall|a: int, b: int| 0 <= a < b < rs.len() ==> #[trigger] rs[a].uuid != #[trigger] rs[b].uuid
}

/// Within each map, no two entrances share an identifier.
pub open spec fn entrance_ids_distinct(rs: Seq<MapRec>) -> bool {
    forall|i: int, a: int, b: int|
        0 <= i < rs.len() && 0 <= a < b < rs[i].entrances.len() ==> #[trigger] rs[i].entrances[a].uuid
            != #[trigger] rs[i].entrances[b].uuid
}

/// Every exit's target positions name a map and one of its entrances.
pub open spec fn all_exits_ok(rs: Seq<MapRec>) -> bool {
    forall|i: int, j: int| 0 <= i < rs.len() && 0 <= j < rs[i].exits.len() ==> exit_ok(rs, #[trigger] rs[i].exits[j])
}

/// Setting the exits' target identifiers from their positions, then the
/// positions from the identifiers, gives every exit back its positions, when
/// the identifiers tell the maps, and each map's entrances, apart and every
/// position is valid. (`update_exit_uuids` does the first, and `wrap`, before
/// writing, the second.)
pub proof fn law_indexes_undo_uuids(rs: Seq<MapRec>)
    requires
        map_ids_distinct(rs),
        entrance_ids_distinct(rs),
        all_exits_ok(rs),
    ensures
        all_index_fit(uuids_updated(rs)),
        map_exits_by(uuids_updated(rs), |a: int, b: int, e: MapExit| index_step(uuids_updated(rs), e))
            == uuids_updated(rs),
{
    let u = uuids_updated(rs);
    let g = map_exits_by(u, |a: int, b: int, e: MapExit| index_step(u, e));
    assert forall|i: int, j: int| 0 <= i < u.len() && 0 <= j < u[i].exits.len() implies index_fits(
        u,
        #[trigger] u[i].exits[j],
    ) && index_step(u, u[i].exits[j]) == u[i].exits[j] by {
        let e = rs[i].exits[j];
        assert(exit_ok(rs, e));
        assert(all_ok_before(rs, i, j));
        let m = e.target_map_raw as int;
        let p = e.target_map_entrance_raw as int;
        let x = u[i].exits[j];
        assert(x == uuid_step(rs, i, j, e));
        assert(x.target_map == rs[m].uuid);
        assert(x.target_map_entrance == rs[m].entrances[p].uuid);
        assert forall|k: int| 0 <= k < m implies (#[trigger] u[k]).uuid != x.target_map by {
            assert(rs[k].uuid != rs[m].uuid);
        }
        lemma_first_map_unique(u, x.target_map, m);
        assert(u[m].entrances == rs[m].entrances);
        assert forall|k: int| 0 <= k < p implies (#[trigger] u[m].entrances[k]).uuid != x.target_map_entrance by {
            assert(rs[m].entrances[k].uuid != rs[m].entrances[p].uuid);
        }
        lemma_first_entrance_unique(u[m].entrances, x.target_map_entrance, p);
    }
    assert forall|i: int| 0 <= i < u.len() implies #[trigger] g[i] == u[i] by {
        assert(g[i].exits =~= u[i].exits);
    }
    assert(g =~= u);
}

} // verus!

