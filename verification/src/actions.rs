//! What the editor's keys do to a map: nudging and deleting the selected
//! sprites, deleting the selected background tiles, and selecting all.
use vstd::prelude::*;
use crate::background::{first_of, lemma_view_update, SegKind};
use crate::area::{trigger_rect, Trigger, TriggerData};
use crate::background::BackgroundData;
use crate::brushes::Brush;
use crate::engine::str_eq;
use crate::scen::ScenSegment;
use crate::segments::TopLevelSegment;
use crate::clipboard::{bg_info, blank_positions, blanked, lemma_sort_keeps};
use crate::types::{tile_record_of, MapTileRecordData};
use crate::mapfile::{
    bg_replaced, bg_search_ok, bg_stop, first_sat, first_sprite, first_top, found_bg, is_first_top,
    lemma_first_top_unique, map_unchanged, find_sprite, moved_sprite, setd_replaced, setd_sprites, top_kind, valid_bg_number,
    with_sub, MapData, TopKind, TopLevelSegmentWrapper,
};
use crate::scen::mpbz::MpbzView;
use crate::scen::{ScenSegmentWrapper, ScenView};
use crate::selection::{sorted_indexes, u32_leq, BgSelectData};
use vstd::relations::sorted_by;
use crate::sprites::LevelSprite;

verus! {

/// A change to the map's sprite set keeps its first SETD segment where it
/// was.
proof fn lemma_setd_kept(old: Seq<TopLevelSegmentWrapper>, new: Seq<TopLevelSegmentWrapper>, k: int)
    requires
        first_top(old, TopKind::Setd) == Some(k),
        new == old.update(k, new[k]),
        new[k] is SETD,
    ensures
        first_top(new, TopKind::Setd) == Some(k),
{
    assert(is_first_top(old, TopKind::Setd, k));
    assert forall|j: int| 0 <= j < k implies top_kind(#[trigger] new[j]) != TopKind::Setd by {
        assert(new[j] == old[j]);
    }
    lemma_first_top_unique(new, TopKind::Setd, k);
}

/// An arrow key: the direction the selected sprites move one step in.
#[derive(Clone, Copy, Debug, PartialEq, Eq, Structural)]
pub enum Nudge {
    Up,
    Left,
    Right,
    Down,
}

/// The sprite can take a step that way without leaving the 16-bit range.
pub open spec fn nudge_fits(s: LevelSprite, d: Nudge) -> bool {
    match d {
        Nudge::Up => s.y_position > 0,
        Nudge::Left => s.x_position > 0,
        Nudge::Right => s.x_position < 0xffff,
        Nudge::Down => s.y_position < 0xffff,
    }
}

/// The sprite's position one step that way.
pub open spec fn nudged(s: LevelSprite, d: Nudge) -> (u16, u16) {
    match d {
        Nudge::Up => (s.x_position, (s.y_position - 1) as u16),
        Nudge::Left => ((s.x_position - 1) as u16, s.y_position),
        Nudge::Right => ((s.x_position + 1) as u16, s.y_position),
        Nudge::Down => (s.x_position, (s.y_position + 1) as u16),
    }
}

/// The sprites after the selected identifiers are nudged in order: for
/// each, the first sprite with it gives the new position, and every
/// sprite with it moves there.
pub open spec fn nudge_steps(ss: Seq<LevelSprite>, sel: Seq<u128>, d: Nudge) -> Seq<LevelSprite>
    decreases sel.len(),
{
    if sel.len() == 0 {
        ss
    } else {
        let prev = nudge_steps(ss, sel.drop_last(), d);
        let u = sel.last();
        match first_sprite(prev, u) {
            Some(i) => {
                let p = nudged(prev[i], d);
                prev.map_values(|s: LevelSprite| moved_sprite(s, u, p.0, p.1))
            },
            None => prev,
        }
    }
}

/// No step leaves the 16-bit range.
pub open spec fn nudge_ok(ss: Seq<LevelSprite>, sel: Seq<u128>, d: Nudge) -> bool
    decreases sel.len(),
{
    if sel.len() == 0 {
        true
    } else {
        let prev = nudge_steps(ss, sel.drop_last(), d);
        &&& nudge_ok(ss, sel.drop_last(), d)
        &&& first_sprite(prev, sel.last()) matches Some(i) ==> nudge_fits(prev[i], d)
    }
}

/// The sprites after the selected identifiers are deleted in order: for
/// each, the first sprite with it is removed, if there is one.
pub open spec fn delete_steps(ss: Seq<LevelSprite>, sel: Seq<u128>) -> Seq<LevelSprite>
    decreases sel.len(),
{
    if sel.len() == 0 {
        ss
    } else {
        let prev = delete_steps(ss, sel.drop_last());
        match first_sprite(prev, sel.last()) {
            Some(i) => prev.remove(i),
            None => prev,
        }
    }
}

impl MapData {
    /// Moves the selected sprites one step in direction `d`, one identifier
    /// after the other.
    pub fn nudge_sprites(&mut self, selected: &Vec<u128>, d: Nudge)
        requires
            first_top(old(self).segments@, TopKind::Setd) is Some,
            nudge_ok(setd_sprites(old(self).segments@), selected@, d),
        ensures
            setd_replaced(*old(self), *final(self), nudge_steps(setd_sprites(old(self).segments@), selected@, d)),
    {
        let ghost old_map = *self;
        let ghost k = first_top(old_map.segments@, TopKind::Setd)->0;
        let ghost ss = setd_sprites(old_map.segments@);
        proof {
            assert(old_map.segments@.update(k, old_map.segments@[k]) =~= old_map.segments@);
        }
        let mut i: usize = 0;
        while i < selected.len()
            invariant
                i <= selected@.len(),
                first_top(old_map.segments@, TopKind::Setd) == Some(k),
                first_top(self.segments@, TopKind::Setd) == Some(k),
                ss == setd_sprites(old_map.segments@),
                nudge_ok(ss, selected@, d),
                setd_replaced(old_map, *self, nudge_steps(ss, selected@.take(i as int), d)),
            decreases selected@.len() - i,
        {
            let uuid = selected[i];
            proof {
                assert(selected@.take(i + 1).drop_last() =~= selected@.take(i as int));
                lemma_nudge_ok_prefix(ss, selected@, d, i + 1);
            }
            match self.get_sprite_by_uuid(uuid) {
                Some(s) => {
                    let (nx, ny) = match d {
                        Nudge::Up => (s.x_position, s.y_position - 1),
                        Nudge::Left => (s.x_position - 1, s.y_position),
                        Nudge::Right => (s.x_position + 1, s.y_position),
                        Nudge::Down => (s.x_position, s.y_position + 1),
                    };
                    let ghost pre = *self;
                    self.move_sprite(uuid, nx, ny);
                    proof {
                        lemma_setd_kept(pre.segments@, self.segments@, k);
                        assert(self.segments@ =~= old_map.segments@.update(k, self.segments@[k]));
                    }
                },
                None => {},
            }
            i += 1;
        }
        proof {
            assert(selected@.take(i as int) =~= selected@);
        }
    }

    /// Deletes the selected sprites (the Delete key on the sprite layer):
    /// for each identifier in order, the first sprite with it.
    pub fn delete_sprites(&mut self, selected: &Vec<u128>)
        requires
            first_top(old(self).segments@, TopKind::Setd) is Some,
        ensures
            setd_replaced(*old(self), *final(self), delete_steps(setd_sprites(old(self).segments@), selected@)),
    {
        let ghost old_map = *self;
        let ghost k = first_top(old_map.segments@, TopKind::Setd)->0;
        let ghost ss = setd_sprites(old_map.segments@);
        proof {
            assert(old_map.segments@.update(k, old_map.segments@[k]) =~= old_map.segments@);
        }
        let mut i: usize = 0;
        while i < selected.len()
            invariant
                i <= selected@.len(),
                first_top(old_map.segments@, TopKind::Setd) == Some(k),
                first_top(self.segments@, TopKind::Setd) == Some(k),
                ss == setd_sprites(old_map.segments@),
                setd_replaced(old_map, *self, delete_steps(ss, selected@.take(i as int))),
            decreases selected@.len() - i,
        {
            let uuid = selected[i];
            proof {
                assert(selected@.take(i + 1).drop_last() =~= selected@.take(i as int));
            }
            let ghost pre = *self;
            self.delete_sprite_by_uuid(uuid);
            proof {
                assert(self.segments@ =~= pre.segments@.update(k, self.segments@[k]));
                lemma_setd_kept(pre.segments@, self.segments@, k);
                assert(self.segments@ =~= old_map.segments@.update(k, self.segments@[k]));
            }
            i += 1;
        }
        proof {
            assert(selected@.take(i as int) =~= selected@);
        }
    }
}

/// The steps so far fit when all of them do.
proof fn lemma_nudge_ok_prefix(ss: Seq<LevelSprite>, sel: Seq<u128>, d: Nudge, n: int)
    requires
        nudge_ok(ss, sel, d),
        0 <= n <= sel.len(),
    ensures
        nudge_ok(ss, sel.take(n), d),
    decreases sel.len(),
{
    if n < sel.len() {
        assert(sel.drop_last().take(n) =~= sel.take(n));
        lemma_nudge_ok_prefix(ss, sel.drop_last(), d, n);
    } else {
        assert(sel.take(n) =~= sel);
    }
}

impl MapData {
    /// Clears the selected positions of background `which_background` (1
    /// to 3) to the blank tile (the Delete key on a background layer);
    /// positions past the end of its map data are passed over.
    pub fn delete_bg_tiles(&mut self, which_background: u8, idxs: &Vec<u32>)
        requires
            bg_search_ok(old(self).segments@, which_background),
        ensures
            ({
                let bgv = found_bg(old(self).segments@, which_background)@;
                if !valid_bg_number(which_background) || first_sat(old(self).segments@, bg_stop(which_background)) is None {
                    map_unchanged(*old(self), *final(self))
                } else {
                    match first_of(bgv.segs, SegKind::Mpbz) {
                        None => map_unchanged(*old(self), *final(self)),
                        Some(m) => {
                            let mv = bgv.segs[m]->Mpbz_0;
                            bg_replaced(
                                *old(self),
                                *final(self),
                                which_background,
                                with_sub(
                                    bgv,
                                    SegKind::Mpbz,
                                    ScenView::Mpbz(MpbzView { tiles: blanked(mv.tiles, idxs@), ..mv }),
                                ),
                            )
                        },
                    }
                }
            }),
    {
        if which_background < 1 || which_background > 3 {
            return;
        }
        let ghost old_segs = self.segments@;
        let ghost i = first_sat(old_segs, bg_stop(which_background))->0;
        proof {
            if first_sat(old_segs, bg_stop(which_background)) is Some {
                assert(old_segs.update(i, old_segs[i]) =~= old_segs);
            }
        }
        match self.get_background(which_background) {
            None => {},
            Some(bg) => {
                let ghost old_bg = *bg;
                proof {
                    if let Some(c) = first_of(old_bg@.segs, SegKind::Mpbz) {
                        assert(old_bg.scen_segments@.update(c, old_bg.scen_segments@[c]) =~= old_bg.scen_segments@);
                    }
                }
                match bg.get_mpbz_mut() {
                    Some(m) => {
                        blank_positions(&mut m.tiles, idxs);
                        proof {
                            let c = first_of(old_bg@.segs, SegKind::Mpbz)->0;
                            lemma_view_update(old_bg.scen_segments@, c, ScenSegmentWrapper::MPBZ(*m));
                        }
                    },
                    None => {},
                }
            },
        }
    }
}

impl BgSelectData {
    /// Selects every position of a layer whose map has `tile_count`
    /// entries (the count taken as a 32-bit number) and is `layer_width`
    /// tiles wide.
    pub fn select_all(&mut self, tile_count: usize, layer_width: u16)
        ensures
            final(self).selected_map_indexes@ == Seq::new(tile_count as u32 as nat, |i: int| i as u32),
            final(self).selection_width == layer_width,
            final(self).selection_height == old(self).selection_height,
            final(self).dragging == old(self).dragging,
    {
        let n: u32 = tile_count as u32;
        let mut all: Vec<u32> = Vec::new();
        let mut i: u32 = 0;
        while i < n
            invariant
                i <= n,
                all@ == Seq::new(i as nat, |j: int| j as u32),
            decreases n - i,
        {
            all.push(i);
            i += 1;
            assert(all@ =~= Seq::new(i as nat, |j: int| j as u32));
        }
        self.selected_map_indexes = all;
        self.selection_width = layer_width;
    }
}

/// The identifiers of all loaded sprites, in order (select all on the
/// sprite layer).
pub fn all_sprite_uuids(level: &Vec<LevelSprite>) -> (r: Vec<u128>)
    ensures
        r@ == level@.map_values(|s: LevelSprite| s.uuid),
{
    let mut r: Vec<u128> = Vec::new();
    let mut i: usize = 0;
    while i < level.len()
        invariant
            i <= level@.len(),
            r@ == level@.take(i as int).map_values(|s: LevelSprite| s.uuid),
        decreases level@.len() - i,
    {
        r.push(level[i].uuid);
        assert(level@.take(i + 1).map_values(|s: LevelSprite| s.uuid) =~= level@.take(i as int).map_values(
            |s: LevelSprite| s.uuid,
        ).push(level@[i as int].uuid));
        i += 1;
    }
    assert(level@.take(i as int) =~= level@);
    r
}

/// A brush is placed at even columns and rows: an odd one moves back by
/// one.
pub open spec fn even_down(v: u32) -> u32 {
    if v % 2 != 0 {
        (v - 1) as u32
    } else {
        v
    }
}

/// The column of the `k`-th brush tile, for a brush `bw` wide placed at
/// column `bx`.
pub open spec fn brush_col(k: int, bw: u8, bx: u32) -> int {
    bx + k % (bw as int)
}

/// The row of the `k`-th brush tile, for a brush `bw` wide placed at row
/// `by`.
pub open spec fn brush_row(k: int, bw: u8, by: u32) -> int {
    by + k / (bw as int)
}

/// The `k`-th brush tile, `tile`, is written: it lies inside the layer
/// (`w` by `h`), is not blank, and its position lies within the map.
pub open spec fn brush_writes(k: int, tile: u16, bw: u8, bx: u32, by: u32, w: u16, h: u16, len: nat) -> bool {
    &&& bw > 0
    &&& brush_row(k, bw, by) < h
    &&& brush_col(k, bw, bx) < w
    &&& tile != 0
    &&& brush_row(k, bw, by) * w + brush_col(k, bw, bx) < len
}

/// The map after stamping the brush tiles one after the other.
pub open spec fn stamped_tiles(
    tiles: Seq<MapTileRecordData>,
    brush: Seq<u16>,
    bw: u8,
    bx: u32,
    by: u32,
    w: u16,
    h: u16,
) -> Seq<MapTileRecordData>
    decreases brush.len(),
{
    if brush.len() == 0 {
        tiles
    } else {
        let t = stamped_tiles(tiles, brush.drop_last(), bw, bx, by, w, h);
        let k = brush.len() - 1;
        if brush_writes(k, brush.last(), bw, bx, by, w, h, t.len()) {
            t.update(brush_row(k, bw, by) * w + brush_col(k, bw, bx), tile_record_of(brush.last()))
        } else {
            t
        }
    }
}

proof fn lemma_stamped_len(
    tiles: Seq<MapTileRecordData>,
    brush: Seq<u16>,
    bw: u8,
    bx: u32,
    by: u32,
    w: u16,
    h: u16,
)
    ensures
        stamped_tiles(tiles, brush, bw, bx, by, w, h).len() == tiles.len(),
    decreases brush.len(),
{
    if brush.len() > 0 {
        lemma_stamped_len(tiles, brush.drop_last(), bw, bx, by, w, h);
        let k = brush.len() - 1;
        if bw > 0 {
            let r = brush_row(k, bw, by);
            assert(r >= 0);
            assert(r * w >= 0) by (nonlinear_arith)
                requires
                    r >= 0,
                    w >= 0,
            ;
        }
    }
}

/// Stamping does not fail: a brush with tiles has a width, its tiles can
/// be counted in 32 bits, and its columns and rows fit 32 bits.
pub open spec fn stamp_ok(brush: Seq<u16>, bw: u8, bx: u32, by: u32, w: u16, h: u16, len: nat) -> bool {
    &&& brush.len() > 0 ==> bw > 0
    &&& brush.len() <= u32::MAX
    &&& forall|k: int|
        #![trigger brush[k]]
        0 <= k < brush.len() ==> brush_col(k, bw, bx) <= u32::MAX && brush_row(k, bw, by) <= u32::MAX
}

fn stamp_into(tiles: &mut Vec<MapTileRecordData>, brush: &Vec<u16>, bw: u8, bx: u32, by: u32, w: u16, h: u16)
    requires
        stamp_ok(brush@, bw, bx, by, w, h, old(tiles)@.len()),
    ensures
        final(tiles)@ == stamped_tiles(old(tiles)@, brush@, bw, bx, by, w, h),
{
    let ghost start = tiles@;
    let mut tile_index: u32 = 0;
    let mut i: usize = 0;
    while i < brush.len()
        invariant
            i <= brush@.len(),
            tile_index == i,
            stamp_ok(brush@, bw, bx, by, w, h, start.len()),
            tiles@ == stamped_tiles(start, brush@.take(i as int), bw, bx, by, w, h),
        decreases brush@.len() - i,
    {
        let tile = brush[i];
        proof {
            assert(brush@.take(i + 1).drop_last() =~= brush@.take(i as int));
            assert(brush@.take(i + 1).last() == tile);
            assert(brush@[i as int] == tile);
            lemma_stamped_len(start, brush@.take(i as int), bw, bx, by, w, h);
        }
        let offset_x = tile_index % (bw as u32);
        let offset_y = tile_index / (bw as u32);
        let true_x = bx + offset_x;
        let true_y = by + offset_y;
        if true_y < h as u32 && true_x < w as u32 {
            assert((true_y as int) * (w as int) + (true_x as int) <= u32::MAX) by (nonlinear_arith)
                requires
                    true_y < h,
                    true_x < w,
                    h <= 0xffff,
                    w <= 0xffff,
            ;
            let map_index: u32 = true_y * (w as u32) + true_x;
            if tile != 0 {
                if (map_index as usize) < tiles.len() {
                    tiles.set(map_index as usize, MapTileRecordData::new(tile));
                }
            }
        }
        i += 1;
        tile_index += 1;
    }
    assert(brush@.take(i as int) =~= brush@);
}

impl MapData {
    /// Stamps the brush on background `which_background` (1 to 3) at the
    /// tile under the pointer, moved back to an even column and row: each
    /// brush tile that is not blank and lands inside the layer is written.
    pub fn stamp_brush(&mut self, which_background: u8, brush: &Brush, pointer_x: u32, pointer_y: u32)
        requires
            bg_search_ok(old(self).segments@, which_background),
            first_sat(old(self).segments@, bg_stop(which_background)) is Some,
            ({
                let bgv = found_bg(old(self).segments@, which_background)@;
                let info = bg_info(bgv);
                valid_bg_number(which_background) ==> (first_of(bgv.segs, SegKind::Mpbz) matches Some(m) ==> stamp_ok(
                    brush.tiles@,
                    brush.width,
                    even_down(pointer_x),
                    even_down(pointer_y),
                    info.layer_width,
                    info.layer_height,
                    bgv.segs[m]->Mpbz_0.tiles.len(),
                ))
            }),
        ensures
            ({
                let bgv = found_bg(old(self).segments@, which_background)@;
                let info = bg_info(bgv);
                if !valid_bg_number(which_background) {
                    map_unchanged(*old(self), *final(self))
                } else {
                    match first_of(bgv.segs, SegKind::Mpbz) {
                        None => map_unchanged(*old(self), *final(self)),
                        Some(m) => {
                            let mv = bgv.segs[m]->Mpbz_0;
                            bg_replaced(
                                *old(self),
                                *final(self),
                                which_background,
                                with_sub(
                                    bgv,
                                    SegKind::Mpbz,
                                    ScenView::Mpbz(
                                        MpbzView {
                                            tiles: stamped_tiles(
                                                mv.tiles,
                                                brush.tiles@,
                                                brush.width,
                                                even_down(pointer_x),
                                                even_down(pointer_y),
                                                info.layer_width,
                                                info.layer_height,
                                            ),
                                            ..mv
                                        },
                                    ),
                                ),
                            )
                        },
                    }
                }
            }),
    {
        if which_background < 1 || which_background > 3 {
            return;
        }
        let mut base_x = pointer_x;
        if base_x % 2 != 0 {
            base_x -= 1;
        }
        let mut base_y = pointer_y;
        if base_y % 2 != 0 {
            base_y -= 1;
        }
        let ghost old_segs = self.segments@;
        let ghost i = first_sat(old_segs, bg_stop(which_background))->0;
        proof {
            assert(old_segs.update(i, old_segs[i]) =~= old_segs);
        }
        match self.get_background(which_background) {
            None => {},
            Some(bg) => {
                let ghost old_bg = *bg;
                let (w, h) = match bg.get_info() {
                    Some(info) => (info.layer_width, info.layer_height),
                    None => (0, 0),
                };
                proof {
                    if let Some(c) = first_of(old_bg@.segs, SegKind::Mpbz) {
                        assert(old_bg.scen_segments@.update(c, old_bg.scen_segments@[c]) =~= old_bg.scen_segments@);
                    }
                }
                match bg.get_mpbz_mut() {
                    Some(m) => {
                        stamp_into(&mut m.tiles, &brush.tiles, brush.width, base_x, base_y, w, h);
                        proof {
                            let c = first_of(old_bg@.segs, SegKind::Mpbz)->0;
                            lemma_view_update(old_bg.scen_segments@, c, ScenSegmentWrapper::MPBZ(*m));
                        }
                    },
                    None => {},
                }
            },
        }
    }
}

impl MapData {
    /// Removes the top-level segment at `index`, unless it is the sprite
    /// set or a background (named "SETD" or "SCEN"), which stay; `true`
    /// when it was removed.
    pub fn delete_top_segment(&mut self, index: usize) -> (r: bool)
        requires
            index < old(self).segments@.len(),
        ensures
            ({
                let h = old(self).segments@[index as int].spec_header();
                r == !(h == "SETD"@ || h == "SCEN"@)
            }),
            r ==> final(self).segments@ == old(self).segments@.remove(index as int),
            !r ==> final(self).segments@ == old(self).segments@,
            final(self).src_file == old(self).src_file,
            final(self).map_name == old(self).map_name,
            final(self).uuid == old(self).uuid,
            final(self).unhandled_headers == old(self).unhandled_headers,
    {
        let header = self.segments[index].header();
        if str_eq(header.as_str(), "SETD") || str_eq(header.as_str(), "SCEN") {
            return false;
        }
        self.segments.remove(index);
        true
    }
}

impl BackgroundData {
    /// Removes the sub-segment at `index` if it is a scroll (SCRL) segment,
    /// the only kind that can go; `true` when it was removed.
    pub fn delete_scen_segment(&mut self, index: usize) -> (r: bool)
        requires
            index < old(self).scen_segments@.len(),
        ensures
            r == (old(self).scen_segments@[index as int].spec_header() == "SCRL"@),
            r ==> final(self).scen_segments@ == old(self).scen_segments@.remove(index as int),
            !r ==> final(self).scen_segments@ == old(self).scen_segments@,
            final(self)._pal_offset == old(self)._pal_offset,
            final(self).pixel_tiles_preview == old(self).pixel_tiles_preview,
    {
        let header = self.scen_segments[index].header();
        if !str_eq(header.as_str(), "SCRL") {
            return false;
        }
        self.scen_segments.remove(index);
        true
    }
}

impl TriggerData {
    /// Adds a trigger covering (2, 2) to (12, 12) with a fresh identifier,
    /// and gives the identifier.
    pub fn add_default_trigger(&mut self) -> (r: u128)
        ensures
            final(self).triggers@.len() == old(self).triggers@.len() + 1,
            final(self).triggers@.drop_last() == old(self).triggers@,
            trigger_rect(final(self).triggers@.last()) == (2u16, 2u16, 12u16, 12u16),
            final(self).triggers@.last().uuid == r,
            r != 0,
    {
        let t = Trigger { left_x: 2, top_y: 2, right_x: 12, bottom_y: 12, uuid: crate::ids::new_uuid() };
        let uuid = t.uuid;
        let ghost before = self.triggers@;
        self.triggers.push(t);
        assert(self.triggers@.drop_last() =~= before);
        uuid
    }
}

/// How a finished drag changes the selection: Shift adds the dragged-over
/// positions, Control removes them, otherwise they replace it.
#[derive(Clone, Copy, Debug, PartialEq, Eq, Structural)]
pub enum DragMode {
    Add,
    Remove,
    Replace,
}

/// Positions in strictly increasing order.
pub open spec fn strictly_increasing(s: Seq<u32>) -> bool {
    forall|a: int, b: int| 0 <= a < b < s.len() ==> s[a] < s[b]
}

/// `i` is where `x` first occurs in `s`.
pub open spec fn is_first_pos(s: Seq<u32>, x: u32, i: int) -> bool {
    &&& 0 <= i < s.len()
    &&& s[i] == x
    &&& forall|j: int| 0 <= j < i ==> s[j] != x
}

pub open spec fn first_pos(s: Seq<u32>, x: u32) -> Option<int> {
    if exists|i: int| is_first_pos(s, x, i) {
        Some(choose|i: int| is_first_pos(s, x, i))
    } else {
        None
    }
}

/// The selection after removing, for each dragged-over position in turn,
/// its first occurrence.
pub open spec fn removed_each(s: Seq<u32>, picked: Seq<u32>) -> Seq<u32>
    decreases picked.len(),
{
    if picked.len() == 0 {
        s
    } else {
        let prev = removed_each(s, picked.drop_last());
        match first_pos(prev, picked.last()) {
            Some(i) => prev.remove(i),
            None => prev,
        }
    }
}

/// A sorted list without its repeated entries.
fn dedup_sorted(v: &Vec<u32>) -> (r: Vec<u32>)
    requires
        sorted_by(v@, u32_leq()),
    ensures
        strictly_increasing(r@),
        forall|x: u32| r@.contains(x) <==> v@.contains(x),
{
    let mut r: Vec<u32> = Vec::new();
    let mut i: usize = 0;
    while i < v.len()
        invariant
            i <= v@.len(),
            sorted_by(v@, u32_leq()),
            strictly_increasing(r@),
            forall|x: u32| r@.contains(x) <==> v@.take(i as int).contains(x),
            r@.len() > 0 ==> i > 0 && r@.last() == v@[i - 1],
        decreases v@.len() - i,
    {
        let x = v[i];
        proof {
            assert(v@.take(i + 1) =~= v@.take(i as int).push(x));
        }
        if r.len() == 0 || r[r.len() - 1] != x {
            proof {
                if r@.len() > 0 {
                    assert(u32_leq()(v@[i - 1], v@[i as int]));
                }
            }
            let ghost r0 = r@;
            r.push(x);
            proof {
                assert forall|y: u32| r@.contains(y) <==> v@.take(i + 1).contains(y) by {
                    let t0 = v@.take(i as int);
                    let t1 = v@.take(i + 1);
                    if t1.contains(y) && y != x {
                        let k = choose|k: int| 0 <= k < t1.len() && t1[k] == y;
                        assert(t0[k] == y);
                    }
                    if t0.contains(y) {
                        let k = choose|k: int| 0 <= k < t0.len() && t0[k] == y;
                        assert(t1[k] == y);
                    }
                    if r@.contains(y) && y != x {
                        let k = choose|k: int| 0 <= k < r@.len() && r@[k] == y;
                        assert(r0[k] == y);
                    }
                    if r0.contains(y) {
                        let k = choose|k: int| 0 <= k < r0.len() && r0[k] == y;
                        assert(r@[k] == y);
                    }
                    if y == x {
                        assert(r@[r@.len() - 1] == x);
                        assert(t1[i as int] == x);
                    }
                }
            }
        } else {
            proof {
                assert forall|y: u32| r@.contains(y) <==> v@.take(i + 1).contains(y) by {
                    let t0 = v@.take(i as int);
                    let t1 = v@.take(i + 1);
                    if t1.contains(y) && y != x {
                        let k = choose|k: int| 0 <= k < t1.len() && t1[k] == y;
                        assert(t0[k] == y);
                    }
                    if t0.contains(y) {
                        let k = choose|k: int| 0 <= k < t0.len() && t0[k] == y;
                        assert(t1[k] == y);
                    }
                    if y == x {
                        assert(r@[r@.len() - 1] == x);
                        assert(t1[i as int] == x);
                    }
                }
            }
        }
        i += 1;
    }
    assert(v@.take(i as int) =~= v@);
    r
}

/// The first occurrence of `x`.
fn find_pos(s: &Vec<u32>, x: u32) -> (r: Option<usize>)
    ensures
        match r {
            Some(i) => first_pos(s@, x) == Some(i as int),
            None => first_pos(s@, x) is None,
        },
{
    let mut i: usize = 0;
    while i < s.len()
        invariant
            i <= s@.len(),
            forall|j: int| 0 <= j < i ==> s@[j] != x,
        decreases s@.len() - i,
    {
        if s[i] == x {
            proof {
                let c = choose|j: int| is_first_pos(s@, x, j);
                assert(is_first_pos(s@, x, i as int));
                if c < i {
                    assert(s@[c] != x);
                } else if c > i {
                    assert(is_first_pos(s@, x, c));
                    assert(s@[i as int] != x);
                }
            }
            return Some(i);
        }
        i += 1;
    }
    None
}

impl BgSelectData {
    /// Ends a drag over the positions `picked`: adds them (kept in order
    /// without repeats), removes them, or replaces the selection with them
    /// (in order without repeats), and stops dragging.
    #[verifier::rlimit(40)]
    pub fn finish_drag(&mut self, picked: &Vec<u32>, mode: DragMode)
        ensures
            !final(self).dragging,
            final(self).selection_width == old(self).selection_width,
            final(self).selection_height == old(self).selection_height,
            match mode {
                DragMode::Add => {
                    &&& strictly_increasing(final(self).selected_map_indexes@)
                    &&& forall|x: u32|
                        final(self).selected_map_indexes@.contains(x) <==> (old(self).selected_map_indexes@.contains(x)
                            || picked@.contains(x))
                },
                DragMode::Remove => final(self).selected_map_indexes@ == removed_each(
                    old(self).selected_map_indexes@,
                    picked@,
                ),
                DragMode::Replace => {
                    &&& strictly_increasing(final(self).selected_map_indexes@)
                    &&& forall|x: u32| final(self).selected_map_indexes@.contains(x) <==> picked@.contains(x)
                },
            },
    {
        broadcast use vstd::seq_lib::group_to_multiset_ensures;
        match mode {
            DragMode::Add => {
                let mut all: Vec<u32> = Vec::new();
                let mut i: usize = 0;
                while i < self.selected_map_indexes.len()
                    invariant
                        i <= self.selected_map_indexes@.len(),
                        all@ == self.selected_map_indexes@.take(i as int),
                        *self == *old(self),
                    decreases self.selected_map_indexes@.len() - i,
                {
                    all.push(self.selected_map_indexes[i]);
                    i += 1;
                    assert(all@ =~= self.selected_map_indexes@.take(i as int));
                }
                let mut j: usize = 0;
                while j < picked.len()
                    invariant
                        j <= picked@.len(),
                        all@ == self.selected_map_indexes@ + picked@.take(j as int),
                        *self == *old(self),
                    decreases picked@.len() - j,
                {
                    all.push(picked[j]);
                    j += 1;
                    assert(all@ =~= self.selected_map_indexes@ + picked@.take(j as int));
                }
                assert(self.selected_map_indexes@.take(i as int) =~= self.selected_map_indexes@);
                assert(picked@.take(j as int) =~= picked@);
                let sorted = sorted_indexes(&all);
                proof {
                    lemma_sort_keeps(all@);
                }
                let d = dedup_sorted(&sorted);
                proof {
                    let a = self.selected_map_indexes@;
                    assert forall|x: u32| all@.contains(x) <==> (a.contains(x) || picked@.contains(x)) by {
                        if all@.contains(x) {
                            let k = choose|k: int| 0 <= k < all@.len() && all@[k] == x;
                            if k >= a.len() {
                                assert(picked@[k - a.len()] == x);
                            }
                        }
                        if a.contains(x) {
                            let k = choose|k: int| 0 <= k < a.len() && a[k] == x;
                            assert(all@[k] == x);
                        }
                        if picked@.contains(x) {
                            let k = choose|k: int| 0 <= k < picked@.len() && picked@[k] == x;
                            assert(all@[a.len() + k] == x);
                        }
                    }
                }
                proof {
                    let a = self.selected_map_indexes@;
                    assert forall|x: u32| d@.contains(x) <==> (a.contains(x) || picked@.contains(x)) by {
                        assert(d@.contains(x) == sorted@.contains(x));
                        assert(sorted@.contains(x) == all@.contains(x));
                    }
                }
                self.selected_map_indexes = d;
            },
            DragMode::Remove => {
                let mut j: usize = 0;
                let ghost start = self.selected_map_indexes@;
                while j < picked.len()
                    invariant
                        j <= picked@.len(),
                        self.selected_map_indexes@ == removed_each(start, picked@.take(j as int)),
                        self.selection_width == old(self).selection_width,
                        self.selection_height == old(self).selection_height,
                        start == old(self).selected_map_indexes@,
                    decreases picked@.len() - j,
                {
                    proof {
                        assert(picked@.take(j + 1).drop_last() =~= picked@.take(j as int));
                    }
                    match find_pos(&self.selected_map_indexes, picked[j]) {
                        Some(p) => {
                            self.selected_map_indexes.remove(p);
                        },
                        None => {},
                    }
                    j += 1;
                }
                assert(picked@.take(j as int) =~= picked@);
            },
            DragMode::Replace => {
                let sorted = sorted_indexes(picked);
                proof {
                    lemma_sort_keeps(picked@);
                }
                self.selected_map_indexes = dedup_sorted(&sorted);
            },
        }
        self.dragging = false;
    }
}


/// Where a dragged sprite goes from `p` when moved by `d` tiles: not
/// below zero, and cut to 16 bits.
pub open spec fn drag_target(p: u16, d: i32) -> u16 {
    let t = p + d;
    (if t < 0 {
        0
    } else {
        t
    }) as i32 as u16
}

/// The map's sprites after dragging the selection by `(dx, dy)`: for each
/// selected identifier that finds a loaded sprite, in order, every map
/// sprite with it moves to that loaded sprite's position moved by the
/// drag.
pub open spec fn drag_steps(
    ss: Seq<LevelSprite>,
    level: Seq<LevelSprite>,
    sel: Seq<u128>,
    dx: i32,
    dy: i32,
) -> Seq<LevelSprite>
    decreases sel.len(),
{
    if sel.len() == 0 {
        ss
    } else {
        let prev = drag_steps(ss, level, sel.drop_last(), dx, dy);
        let u = sel.last();
        match first_sprite(level, u) {
            Some(i) => prev.map_values(
                |s: LevelSprite| moved_sprite(s, u, drag_target(level[i].x_position, dx), drag_target(level[i].y_position, dy)),
            ),
            None => prev,
        }
    }
}

/// The moved positions of the loaded sprites that the selection finds fit
/// 32 signed bits.
pub open spec fn drag_ok(level: Seq<LevelSprite>, sel: Seq<u128>, dx: i32, dy: i32) -> bool {
    forall|k: int|
        0 <= k < sel.len() ==> (first_sprite(level, #[trigger] sel[k]) matches Some(i) ==> {
            &&& level[i].x_position + dx <= i32::MAX
            &&& level[i].y_position + dy <= i32::MAX
        })
}

impl MapData {
    /// Ends dragging the selected sprites by `(dx, dy)` tiles: each
    /// selected identifier that finds a loaded sprite moves the map's
    /// sprites with it to that sprite's position plus the drag, kept at
    /// zero or more.
    pub fn drag_sprites(&mut self, level: &Vec<LevelSprite>, selected: &Vec<u128>, dx: i32, dy: i32)
        requires
            first_top(old(self).segments@, TopKind::Setd) is Some,
            drag_ok(level@, selected@, dx, dy),
        ensures
            setd_replaced(
                *old(self),
                *final(self),
                drag_steps(setd_sprites(old(self).segments@), level@, selected@, dx, dy),
            ),
    {
        let ghost old_map = *self;
        let ghost k = first_top(old_map.segments@, TopKind::Setd)->0;
        let ghost ss = setd_sprites(old_map.segments@);
        proof {
            assert(old_map.segments@.update(k, old_map.segments@[k]) =~= old_map.segments@);
        }
        let mut i: usize = 0;
        while i < selected.len()
            invariant
                i <= selected@.len(),
                first_top(old_map.segments@, TopKind::Setd) == Some(k),
                first_top(self.segments@, TopKind::Setd) == Some(k),
                ss == setd_sprites(old_map.segments@),
                drag_ok(level@, selected@, dx, dy),
                setd_replaced(old_map, *self, drag_steps(ss, level@, selected@.take(i as int), dx, dy)),
            decreases selected@.len() - i,
        {
            let uuid = selected[i];
            proof {
                assert(selected@.take(i + 1).drop_last() =~= selected@.take(i as int));
            }
            match find_sprite(level, uuid) {
                Some(j) => {
                    let s = &level[j];
                    proof {
                        assert(selected@[i as int] == uuid);
                    }
                    let mut to_x: i32 = s.x_position as i32 + dx;
                    if to_x < 0 {
                        to_x = 0;
                    }
                    let mut to_y: i32 = s.y_position as i32 + dy;
                    if to_y < 0 {
                        to_y = 0;
                    }
                    let ghost pre = *self;
                    self.move_sprite(uuid, to_x as u16, to_y as u16);
                    proof {
                        lemma_setd_kept(pre.segments@, self.segments@, k);
                        assert(self.segments@ =~= old_map.segments@.update(k, self.segments@[k]));
                    }
                },
                None => {},
            }
            i += 1;
        }
        proof {
            assert(selected@.take(i as int) =~= selected@);
        }
    }
}

} // verus!

verus! {

/// The palette shown in the tile preview for a map entry's palette on a
/// layer whose palettes start at `pal_offset`: one past them, kept within
/// 0 to 15.
pub open spec fn preview_palette(palette_id: u16, pal_offset: u8) -> int {
    let p = (palette_id as i16) + pal_offset + 1;
    if p < 0 {
        0
    } else if p > 15 {
        15
    } else {
        p
    }
}

/// The tile and preview palette picked by a middle click at column
/// `tile_x`, row `tile_y` of a layer `grid_width` tiles wide.
pub fn pick_tile(map_tiles: &Vec<MapTileRecordData>, grid_width: u32, tile_x: u32, tile_y: u32, pal_offset: u8) -> (r: (
    usize,
    usize,
))
    requires
        tile_y * grid_width + tile_x <= u32::MAX,
        tile_y * grid_width + tile_x < map_tiles@.len(),
        (map_tiles@[tile_y * grid_width + tile_x].palette_id as i16) + pal_offset + 1 <= i16::MAX,
    ensures
        ({
            let t = map_tiles@[tile_y * grid_width + tile_x];
            r == (t.tile_id as usize, preview_palette(t.palette_id, pal_offset) as usize)
        }),
{
    let tile_index: u32 = tile_y * grid_width + tile_x;
    let t = map_tiles[tile_index as usize];
    let mut adjusted: i16 = t.palette_id as i16 + pal_offset as i16 + 1;
    if adjusted < 0 {
        adjusted = 0;
    } else if adjusted > 15 {
        adjusted = 15;
    }
    (t.tile_id as usize, adjusted as usize)
}

/// The identifiers without repeats that follow each other.
pub open spec fn dedup_runs(s: Seq<u128>) -> Seq<u128>
    decreases s.len(),
{
    if s.len() <= 1 {
        s
    } else {
        let d = dedup_runs(s.drop_last());
        if s.last() == s[s.len() - 2] {
            d
        } else {
            d.push(s.last())
        }
    }
}

proof fn lemma_dedup_last(s: Seq<u128>)
    requires
        s.len() > 0,
    ensures
        dedup_runs(s).len() > 0,
        dedup_runs(s).last() == s.last(),
    decreases s.len(),
{
    if s.len() > 1 {
        lemma_dedup_last(s.drop_last());
    }
}

/// Clicking a sprite on the sprite layer: with Shift it joins the
/// selection, otherwise it becomes the whole selection; repeats that follow
/// each other are then dropped.
pub fn click_select_sprite(selected: &mut Vec<u128>, uuid: u128, shift: bool)
    ensures
        final(selected)@ == dedup_runs(
            if shift {
                old(selected)@.push(uuid)
            } else {
                seq![uuid]
            },
        ),
{
    if !shift {
        selected.clear();
    }
    selected.push(uuid);
    let ghost s = selected@;
    assert(s =~= (if shift {
        old(selected)@.push(uuid)
    } else {
        seq![uuid]
    }));
    let mut out: Vec<u128> = Vec::new();
    let mut i: usize = 0;
    while i < selected.len()
        invariant
            i <= s.len(),
            selected@ == s,
            out@ == dedup_runs(s.take(i as int)),
        decreases s.len() - i,
    {
        let x = selected[i];
        proof {
            assert(s.take(i + 1).drop_last() =~= s.take(i as int));
            if i > 0 {
                lemma_dedup_last(s.take(i as int));
                assert(s.take(i + 1)[i - 1] == s.take(i as int).last());
            }
        }
        if out.len() == 0 || out[out.len() - 1] != x {
            out.push(x);
        }
        i += 1;
    }
    assert(s.take(i as int) =~= s);
    *selected = out;
}

} // verus!
