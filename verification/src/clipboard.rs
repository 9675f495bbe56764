//! Editing a map through the clipboard: copying, cutting and pasting
//! background tiles and sprites, and clearing layers.
use vstd::prelude::*;
use crate::background::{first_of, lemma_view_update, BackgroundView, SegKind};
use crate::engine::BgClipboardSelectedTile;
use crate::selection::{u32_leq, x_of, y_of, BgSelectData};
use crate::mapfile::{
    bg_replaced, bg_search_ok, bg_stop, copy_sprite, find_sprite, first_sat, first_sprite, first_top, found_bg, has_colz,
    is_first_top, lemma_first_top_unique, map_unchanged, scen_lacks_info, scen_which_bg, setd_replaced, setd_sprites,
    top_kind, valid_bg_number, with_sub, MapData, TopKind,
};
use crate::scen::mpbz::MpbzView;
use crate::scen::info::InfoView;
use crate::scen::{ScenSegmentWrapper, ScenView};
use crate::sprites::{LevelSprite, SpriteView};
use crate::types::{tile_record_of, tile_short_of, MapTileRecordData};
use vstd::relations::sorted_by;

verus! {

/// The map position of column `x`, row `y` in a layer `width` tiles wide.
pub fn xy_to_index(x: u32, y: u32, width: &u32) -> (r: u32)
    requires
        y * *width + x <= u32::MAX,
    ensures
        r == y * *width + x,
{
    y * *width + x
}

/// The column a copied tile lands on with the cursor at column `cx`.
pub open spec fn landing_x(c: BgClipboardSelectedTile, cx: i32) -> int {
    cx + c.x_offset
}

/// The row a copied tile lands on with the cursor at row `cy`.
pub open spec fn landing_y(c: BgClipboardSelectedTile, cy: i32) -> int {
    cy + c.y_offset
}

/// A copied tile lands inside a layer `w` by `h` tiles. Columns and rows
/// are compared as signed numbers, so negative ones pass.
pub open spec fn lands_inside(c: BgClipboardSelectedTile, cx: i32, cy: i32, w: u16, h: u16) -> bool {
    landing_x(c, cx) < w && landing_y(c, cy) < h
}

/// The map position a landing tile is written to: its row and column
/// taken as unsigned 32-bit numbers.
pub open spec fn landing_index(c: BgClipboardSelectedTile, cx: i32, cy: i32, w: u16) -> int {
    (landing_y(c, cy) as i32 as u32) * (w as u32) + (landing_x(c, cx) as i32 as u32)
}

/// A copied tile is written: it lands inside the layer, is not blank, and
/// its position is not past the end of the map.
pub open spec fn paste_writes(
    c: BgClipboardSelectedTile,
    cx: i32,
    cy: i32,
    w: u16,
    h: u16,
    len: nat,
) -> bool {
    lands_inside(c, cx, cy, w, h) && tile_short_of(c.tile) != 0 && landing_index(c, cx, cy, w) < len
}

/// The map after pasting the copied tiles one after the other: a tile
/// that is written replaces the entry at its position, later tiles over
/// earlier ones.
pub open spec fn pasted_tiles(
    tiles: Seq<MapTileRecordData>,
    clip: Seq<BgClipboardSelectedTile>,
    cx: i32,
    cy: i32,
    w: u16,
    h: u16,
) -> Seq<MapTileRecordData>
    decreases clip.len(),
{
    if clip.len() == 0 {
        tiles
    } else {
        let t = pasted_tiles(tiles, clip.drop_last(), cx, cy, w, h);
        let c = clip.last();
        if paste_writes(c, cx, cy, w, h, t.len()) {
            t.update(landing_index(c, cx, cy, w), tile_record_of(tile_short_of(c.tile)))
        } else {
            t
        }
    }
}

proof fn lemma_pasted_len(
    tiles: Seq<MapTileRecordData>,
    clip: Seq<BgClipboardSelectedTile>,
    cx: i32,
    cy: i32,
    w: u16,
    h: u16,
)
    ensures
        pasted_tiles(tiles, clip, cx, cy, w, h).len() == tiles.len(),
    decreases clip.len(),
{
    if clip.len() > 0 {
        lemma_pasted_len(tiles, clip.drop_last(), cx, cy, w, h);
    }
}

/// Pasting does not overflow: each tile's column, and the row of one
/// inside the layer's width, fit 32 signed bits, and the position of each
/// tile inside the layer fits 32 unsigned bits.
pub open spec fn paste_computable(clip: Seq<BgClipboardSelectedTile>, cx: i32, cy: i32, w: u16, h: u16) -> bool {
    forall|k: int|
        0 <= k < clip.len() ==> {
            let c = #[trigger] clip[k];
            &&& i32::MIN <= landing_x(c, cx) <= i32::MAX
            &&& landing_x(c, cx) < w ==> i32::MIN <= landing_y(c, cy) <= i32::MAX
            &&& lands_inside(c, cx, cy, w, h) ==> landing_index(c, cx, cy, w) <= u32::MAX
        }
}

/// Writes the copied tiles into a layer `w` by `h` tiles with the cursor
/// at `(cx, cy)`.
fn paste_into(tiles: &mut Vec<MapTileRecordData>, clip: &Vec<BgClipboardSelectedTile>, cx: i32, cy: i32, w: u16, h: u16)
    requires
        paste_computable(clip@, cx, cy, w, h),
    ensures
        final(tiles)@ == pasted_tiles(old(tiles)@, clip@, cx, cy, w, h),
{
    let ghost start = tiles@;
    let width: u32 = w as u32;
    let mut i: usize = 0;
    while i < clip.len()
        invariant
            i <= clip@.len(),
            width == w as u32,
            paste_computable(clip@, cx, cy, w, h),
            tiles@ == pasted_tiles(start, clip@.take(i as int), cx, cy, w, h),
        decreases clip@.len() - i,
    {
        let c = clip[i];
        proof {
            assert(clip@.take(i + 1).drop_last() =~= clip@.take(i as int));
            assert(clip@.take(i + 1).last() == c);
            lemma_pasted_len(start, clip@.take(i as int), cx, cy, w, h);
            assert(clip@[i as int] == c);
        }
        let true_x: i32 = cx + c.x_offset;
        if true_x < w as i32 {
            let true_y: i32 = cy + c.y_offset;
            if true_y < h as i32 {
                let index = xy_to_index(true_x as u32, true_y as u32, &width);
                let short = c.tile.to_short();
                if short != 0 {
                    if (index as usize) < tiles.len() {
                        tiles.set(index as usize, MapTileRecordData::new(short));
                    }
                }
            }
        }
        i += 1;
    }
    assert(clip@.take(i as int) =~= clip@);
}

/// The first INFO of a background.
pub open spec fn bg_info(bgv: BackgroundView) -> InfoView {
    bgv.segs[first_of(bgv.segs, SegKind::Info)->0]->Info_0
}

/// What pasting into background `which` needs so that it does not fail:
/// the background exists and the positions can be computed.
pub open spec fn paste_bg_ok(
    ws: Seq<crate::mapfile::TopLevelSegmentWrapper>,
    which: u8,
    clip: Seq<BgClipboardSelectedTile>,
    cx: i32,
    cy: i32,
) -> bool {
    let bgv = found_bg(ws, which)@;
    let info = bg_info(bgv);
    &&& bg_search_ok(ws, which)
    &&& first_sat(ws, bg_stop(which)) is Some
    &&& paste_computable(clip, cx, cy, info.layer_width, info.layer_height)
}

/// The map after pasting into background `which` (1 to 3): its map data
/// with the copied tiles written, or the map as it was when there is no
/// map data or `which` is out of range.
pub open spec fn map_after_paste(
    old: MapData,
    new: MapData,
    which: u8,
    clip: Seq<BgClipboardSelectedTile>,
    cx: i32,
    cy: i32,
) -> bool {
    let bgv = found_bg(old.segments@, which)@;
    let info = bg_info(bgv);
    if !valid_bg_number(which) {
        map_unchanged(old, new)
    } else {
        match first_of(bgv.segs, SegKind::Mpbz) {
            None => map_unchanged(old, new),
            Some(m) => {
                let mv = bgv.segs[m]->Mpbz_0;
                bg_replaced(
                    old,
                    new,
                    which,
                    with_sub(
                        bgv,
                        SegKind::Mpbz,
                        ScenView::Mpbz(
                            MpbzView {
                                tiles: pasted_tiles(mv.tiles, clip, cx, cy, info.layer_width, info.layer_height),
                                ..mv
                            },
                        ),
                    ),
                )
            },
        }
    }
}

impl MapData {
    /// Pastes copied background tiles into background `which_background`
    /// with the cursor at column `cursor_x`, row `cursor_y`: each tile that
    /// lands inside the layer and is not blank is written at its position,
    /// when that lies within the map data.
    pub fn paste_bg_tiles(
        &mut self,
        which_background: u8,
        clip: &Vec<BgClipboardSelectedTile>,
        cursor_x: i32,
        cursor_y: i32,
    )
        requires
            paste_bg_ok(old(self).segments@, which_background, clip@, cursor_x, cursor_y),
        ensures
            map_after_paste(*old(self), *final(self), which_background, clip@, cursor_x, cursor_y),
    {
        if which_background < 1 || which_background > 3 {
            return;
        }
        let ghost old_segs = self.segments@;
        let ghost i = first_sat(old_segs, bg_stop(which_background))->0;
        proof {
            assert(old_segs.update(i, old_segs[i]) =~= old_segs);
        }
        match self.get_background(which_background) {
            None => {},
            Some(bg) => {
                let ghost old_bg = *bg;
                let (w, h) = match bg.get_info() {
                    Some(info) => (info.layer_width, info.layer_height),
                    None => (0, 0),
                };
                proof {
                    if let Some(c) = first_of(old_bg@.segs, SegKind::Mpbz) {
                        assert(old_bg.scen_segments@.update(c, old_bg.scen_segments@[c]) =~= old_bg.scen_segments@);
                    }
                }
                match bg.get_mpbz_mut() {
                    Some(m) => {
                        paste_into(&mut m.tiles, clip, cursor_x, cursor_y, w, h);
                        proof {
                            let c = first_of(old_bg@.segs, SegKind::Mpbz)->0;
                            lemma_view_update(old_bg.scen_segments@, c, ScenSegmentWrapper::MPBZ(*m));
                        }
                    },
                    None => {},
                }
            },
        }
    }
}

/// The map with the entries at the positions `idxs` cleared to the blank
/// tile.
pub open spec fn blanked(tiles: Seq<MapTileRecordData>, idxs: Seq<u32>) -> Seq<MapTileRecordData> {
    Seq::new(
        tiles.len(),
        |j: int|
            if exists|k: int| 0 <= k < idxs.len() && idxs[k] as int == j {
                tile_record_of(0)
            } else {
                tiles[j]
            },
    )
}

/// Clears the entries at the positions `idxs`; positions past the end are
/// passed over.
pub(crate) fn blank_positions(tiles: &mut Vec<MapTileRecordData>, idxs: &Vec<u32>)
    ensures
        final(tiles)@ == blanked(old(tiles)@, idxs@),
{
    let ghost start = tiles@;
    let mut i: usize = 0;
    assert(blanked(start, idxs@.take(0)) =~= start);
    while i < idxs.len()
        invariant
            i <= idxs@.len(),
            tiles@ == blanked(start, idxs@.take(i as int)),
        decreases idxs@.len() - i,
    {
        let idx = idxs[i];
        if (idx as usize) < tiles.len() {
            tiles.set(idx as usize, MapTileRecordData::new(0));
        }
        proof {
            let pre = idxs@.take(i as int);
            let post = idxs@.take(i + 1);
            assert forall|j: int| 0 <= j < start.len() implies #[trigger] tiles@[j] == blanked(start, post)[j] by {
                if j == idx as int {
                    assert(post[i as int] as int == j);
                    assert(j < start.len());
                } else {
                    if exists|k: int| 0 <= k < post.len() && post[k] as int == j {
                        let k = choose|k: int| 0 <= k < post.len() && post[k] as int == j;
                        assert(pre[k] == post[k]);
                    }
                    if exists|k: int| 0 <= k < pre.len() && pre[k] as int == j {
                        let k = choose|k: int| 0 <= k < pre.len() && pre[k] as int == j;
                        assert(pre[k] == post[k]);
                    }
                }
            }
            assert(tiles@ =~= blanked(start, post));
        }
        i += 1;
    }
    assert(idxs@.take(i as int) =~= idxs@);
}

/// The copied tiles of a selection at positions `s` (in order) of a map
/// `w` tiles wide: each tile with its offset from the first position.
pub open spec fn clips_of(r: Seq<BgClipboardSelectedTile>, s: Seq<u32>, tiles: Seq<MapTileRecordData>, w: u16) -> bool {
    &&& r.len() == s.len()
    &&& forall|i: int|
        0 <= i < r.len() ==> {
            let w32 = w as u32;
            &&& (#[trigger] r[i]).tile == tiles[s[i] as int]
            &&& r[i].x_offset == x_of(s[i], w32) - x_of(s[0], w32)
            &&& r[i].y_offset == y_of(s[i], w32) - y_of(s[0], w32)
        }
}

/// What cutting from background `which` needs so that it does not fail:
/// a selection in a layer with map data has a layer width and lies
/// within the map.
pub open spec fn cut_bg_ok(ws: Seq<crate::mapfile::TopLevelSegmentWrapper>, which: u8, sel: Seq<u32>) -> bool {
    let bgv = found_bg(ws, which)@;
    &&& bg_search_ok(ws, which)
    &&& sel.len() > 0 && first_sat(ws, bg_stop(which)) is Some ==> (first_of(bgv.segs, SegKind::Mpbz) matches Some(
        m,
    ) ==> {
        &&& bg_info(bgv).layer_width > 0
        &&& forall|k: int| 0 <= k < sel.len() ==> (#[trigger] sel[k]) < bgv.segs[m]->Mpbz_0.tiles.len()
    })
}

impl MapData {
    /// Cuts the selected tiles of background `which_background`: gives them
    /// as copied tiles, clears them in the map (for backgrounds 1 to 3) and
    /// empties the selection. `None`, with nothing changed, when nothing is
    /// selected or the background or its map data is missing.
    pub fn cut_bg_tiles(&mut self, which_background: u8, sel: &mut BgSelectData) -> (r: Option<Vec<BgClipboardSelectedTile>>)
        requires
            cut_bg_ok(old(self).segments@, which_background, old(sel).selected_map_indexes@),
        ensures
            ({
                let bgv = found_bg(old(self).segments@, which_background)@;
                let sorted = old(sel).selected_map_indexes@.sort_by(u32_leq());
                &&& r is None <==> (old(sel).selected_map_indexes@.len() == 0 || first_sat(
                    old(self).segments@,
                    bg_stop(which_background),
                ) is None || first_of(bgv.segs, SegKind::Mpbz) is None)
                &&& r is None ==> map_unchanged(*old(self), *final(self)) && *final(sel) == *old(sel)
                &&& r matches Some(clips) ==> {
                    let m = first_of(bgv.segs, SegKind::Mpbz)->0;
                    let mv = bgv.segs[m]->Mpbz_0;
                    &&& clips_of(clips@, sorted, mv.tiles, bg_info(bgv).layer_width)
                    &&& final(sel).selected_map_indexes@.len() == 0
                    &&& !final(sel).dragging
                    &&& final(sel).selection_width == 0
                    &&& final(sel).selection_height == 0
                    &&& if valid_bg_number(which_background) {
                        bg_replaced(
                            *old(self),
                            *final(self),
                            which_background,
                            with_sub(
                                bgv,
                                SegKind::Mpbz,
                                ScenView::Mpbz(MpbzView { tiles: blanked(mv.tiles, old(sel).selected_map_indexes@), ..mv }),
                            ),
                        )
                    } else {
                        map_unchanged(*old(self), *final(self))
                    }
                }
            }),
    {
        broadcast use vstd::seq_lib::group_to_multiset_ensures;
        if sel.selected_map_indexes.len() == 0 {
            return None;
        }
        let ghost old_segs = self.segments@;
        let ghost old_sel = sel.selected_map_indexes@;
        let ghost i = first_sat(old_segs, bg_stop(which_background))->0;
        proof {
            if first_sat(old_segs, bg_stop(which_background)) is Some {
                assert(old_segs.update(i, old_segs[i]) =~= old_segs);
            }
        }
        match self.get_background(which_background) {
            None => None,
            Some(bg) => {
                let ghost old_bg = *bg;
                let w = match bg.get_info() {
                    Some(info) => info.layer_width,
                    None => 0,
                };
                proof {
                    if let Some(c) = first_of(old_bg@.segs, SegKind::Mpbz) {
                        assert(old_bg.scen_segments@.update(c, old_bg.scen_segments@[c]) =~= old_bg.scen_segments@);
                    }
                }
                if which_background < 1 || which_background > 3 {
                    return match bg.get_mpbz() {
                        Some(m) => {
                            let clips = sel.to_clipboard_tiles(w, m.tiles.as_slice());
                            sel.clear();
                            Some(clips)
                        },
                        None => None,
                    };
                }
                match bg.get_mpbz_mut() {
                    Some(m) => {
                        let clips = sel.to_clipboard_tiles(w, m.tiles.as_slice());
                        proof {
                            lemma_sorted_same_positions(old_sel, m.tiles@);
                        }
                        blank_positions(&mut m.tiles, &sel.selected_map_indexes);
                        proof {
                            let c = first_of(old_bg@.segs, SegKind::Mpbz)->0;
                            lemma_view_update(old_bg.scen_segments@, c, ScenSegmentWrapper::MPBZ(*m));
                        }
                        sel.clear();
                        Some(clips)
                    },
                    None => None,
                }
            },
        }
    }
}

/// Blanking the positions of a selection in order blanks the same
/// positions as the selection itself.
proof fn lemma_sorted_same_positions(s: Seq<u32>, tiles: Seq<MapTileRecordData>)
    ensures
        blanked(tiles, s.sort_by(u32_leq())) == blanked(tiles, s),
{
    let t = s.sort_by(u32_leq());
    lemma_sort_keeps(s);
    assert forall|j: int| 0 <= j < tiles.len() implies #[trigger] blanked(tiles, t)[j] == blanked(tiles, s)[j] by {
        if exists|k: int| 0 <= k < t.len() && t[k] as int == j {
            let k = choose|k: int| 0 <= k < t.len() && t[k] as int == j;
            assert(t.contains(t[k]));
            assert(s.contains(t[k]));
            let k2 = choose|k2: int| 0 <= k2 < s.len() && s[k2] == t[k];
            assert(0 <= k2 < s.len() && s[k2] as int == j);
        }
        if exists|k: int| 0 <= k < s.len() && s[k] as int == j {
            let k = choose|k: int| 0 <= k < s.len() && s[k] as int == j;
            assert(s.contains(s[k]));
            assert(t.contains(s[k]));
            let k2 = choose|k2: int| 0 <= k2 < t.len() && t[k2] == s[k];
            assert(0 <= k2 < t.len() && t[k2] as int == j);
        }
    }
    assert(blanked(tiles, t) =~= blanked(tiles, s));
}

/// Sorting keeps the positions and puts them in order.
pub(crate) proof fn lemma_sort_keeps(s: Seq<u32>)
    ensures
        sorted_by(s.sort_by(u32_leq()), u32_leq()),
        forall|x: u32| s.sort_by(u32_leq()).contains(x) <==> s.contains(x),
{
    broadcast use vstd::seq_lib::group_to_multiset_ensures;
    let t = s.sort_by(u32_leq());
    assert(vstd::relations::total_ordering(u32_leq()));
    s.lemma_sort_by_ensures(u32_leq());
    assert forall|x: u32| t.contains(x) <==> s.contains(x) by {
        assert(t.to_multiset().count(x) == s.to_multiset().count(x));
    }
}

impl MapData {
    /// Removes every map entry of background `which_bg`. `false`, with
    /// nothing changed, when there is no such background or it has no map
    /// data.
    pub fn clear_bg_layer(&mut self, which_bg: u8) -> (r: bool)
        requires
            bg_search_ok(old(self).segments@, which_bg),
        ensures
            ({
                let bgv = found_bg(old(self).segments@, which_bg)@;
                if first_sat(old(self).segments@, bg_stop(which_bg)) is None {
                    !r && map_unchanged(*old(self), *final(self))
                } else {
                    match first_of(bgv.segs, SegKind::Mpbz) {
                        None => !r && map_unchanged(*old(self), *final(self)),
                        Some(m) => {
                            let mv = bgv.segs[m]->Mpbz_0;
                            r && bg_replaced(
                                *old(self),
                                *final(self),
                                which_bg,
                                with_sub(bgv, SegKind::Mpbz, ScenView::Mpbz(MpbzView { tiles: Seq::empty(), ..mv })),
                            )
                        },
                    }
                }
            }),
    {
        let ghost old_segs = self.segments@;
        let ghost i = first_sat(old_segs, bg_stop(which_bg))->0;
        proof {
            if first_sat(old_segs, bg_stop(which_bg)) is Some {
                assert(old_segs.update(i, old_segs[i]) =~= old_segs);
            }
        }
        match self.get_background(which_bg) {
            None => false,
            Some(bg) => {
                let ghost old_bg = *bg;
                proof {
                    if let Some(c) = first_of(old_bg@.segs, SegKind::Mpbz) {
                        assert(old_bg.scen_segments@.update(c, old_bg.scen_segments@[c]) =~= old_bg.scen_segments@);
                    }
                }
                match bg.get_mpbz_mut() {
                    Some(m) => {
                        m.tiles.clear();
                        proof {
                            let c = first_of(old_bg@.segs, SegKind::Mpbz)->0;
                            lemma_view_update(old_bg.scen_segments@, c, ScenSegmentWrapper::MPBZ(*m));
                            assert(m.tiles@ =~= Seq::<MapTileRecordData>::empty());
                        }
                        true
                    },
                    None => false,
                }
            },
        }
    }

    /// Removes every collision block of the background that holds the
    /// map's collision (the one named by the first background segment with
    /// collision). `false`, with nothing changed, when there is none.
    pub fn clear_collision_layer(&mut self) -> (r: bool)
        requires
            first_sat(old(self).segments@, has_colz()) matches Some(i) ==> {
                &&& !scen_lacks_info(old(self).segments@[i])
                &&& bg_search_ok(old(self).segments@, scen_which_bg(old(self).segments@[i])->0)
            },
        ensures
            ({
                let ws = old(self).segments@;
                match first_sat(ws, has_colz()) {
                    None => !r && map_unchanged(*old(self), *final(self)),
                    Some(i) => {
                        let which = scen_which_bg(ws[i])->0;
                        let bgv = found_bg(ws, which)@;
                        if first_sat(ws, bg_stop(which)) is None {
                            !r && map_unchanged(*old(self), *final(self))
                        } else {
                            match first_of(bgv.segs, SegKind::Colz) {
                                None => !r && map_unchanged(*old(self), *final(self)),
                                Some(c) => r && bg_replaced(
                                    *old(self),
                                    *final(self),
                                    which,
                                    with_sub(bgv, SegKind::Colz, ScenView::Colz(Seq::empty())),
                                ),
                            }
                        }
                    },
                }
            }),
    {
        let which = match self.get_bg_with_colz() {
            Some(w) => w,
            None => {
                return false;
            },
        };
        let ghost old_segs = self.segments@;
        let ghost i = first_sat(old_segs, bg_stop(which))->0;
        proof {
            if first_sat(old_segs, bg_stop(which)) is Some {
                assert(old_segs.update(i, old_segs[i]) =~= old_segs);
            }
        }
        match self.get_background(which) {
            None => false,
            Some(bg) => {
                let ghost old_bg = *bg;
                proof {
                    if let Some(c) = first_of(old_bg@.segs, SegKind::Colz) {
                        assert(old_bg.scen_segments@.update(c, old_bg.scen_segments@[c]) =~= old_bg.scen_segments@);
                    }
                }
                match bg.get_colz_mut() {
                    Some(col) => {
                        col.col_tiles.clear();
                        proof {
                            let c = first_of(old_bg@.segs, SegKind::Colz)->0;
                            lemma_view_update(old_bg.scen_segments@, c, ScenSegmentWrapper::COLZ(*col));
                            assert(col.col_tiles@ =~= Seq::<u8>::empty());
                        }
                        true
                    },
                    None => false,
                }
            },
        }
    }
}

/// Sprites copied to the clipboard, with the position (in level units)
/// that pasting puts at the cursor.
pub struct SpriteClipboard {
    pub sprites: Vec<LevelSprite>,
    pub top_left_pos: (u32, u32),
}

impl Default for SpriteClipboard {
    fn default() -> (r: Self)
        ensures
            r.sprites@.len() == 0,
            r.top_left_pos == (0u32, 0u32),
    {
        SpriteClipboard { sprites: Vec::new(), top_left_pos: (0, 0) }
    }
}

/// A sprite's stored value and identifier.
pub open spec fn sprite_entries(ss: Seq<LevelSprite>) -> Seq<(SpriteView, u128)> {
    ss.map_values(|s: LevelSprite| (s@, s.uuid))
}

/// The loaded sprites that the selected identifiers find (the first with
/// each), in the order of the selection; an identifier that finds none is
/// passed over.
pub open spec fn found_sprites(level: Seq<LevelSprite>, sel: Seq<u128>) -> Seq<LevelSprite>
    decreases sel.len(),
{
    if sel.len() == 0 {
        Seq::empty()
    } else {
        let prev = found_sprites(level, sel.drop_last());
        match first_sprite(level, sel.last()) {
            Some(i) => prev.push(level[i]),
            None => prev,
        }
    }
}

/// The position kept while copying: it starts far off the map; a sprite
/// further left replaces it with the sprite's position, and then a sprite
/// higher up does too.
pub open spec fn clip_top_left(ss: Seq<LevelSprite>) -> (u32, u32)
    decreases ss.len(),
{
    if ss.len() == 0 {
        (999999u32, 999999u32)
    } else {
        let tl = clip_top_left(ss.drop_last());
        let s = ss.last();
        let p = (s.x_position as u32, s.y_position as u32);
        let t1 = if p.0 < tl.0 {
            p
        } else {
            tl
        };
        if p.1 < t1.1 {
            p
        } else {
            t1
        }
    }
}

impl SpriteClipboard {
    /// Replaces the clipboard with the loaded sprites that the selected
    /// identifiers find, and keeps their top-left position.
    pub fn copy_sprites(&mut self, level: &Vec<LevelSprite>, selected: &Vec<u128>)
        ensures
            sprite_entries(final(self).sprites@) == sprite_entries(found_sprites(level@, selected@)),
            final(self).top_left_pos == clip_top_left(found_sprites(level@, selected@)),
    {
        self.sprites.clear();
        let mut tl: (u32, u32) = (999999, 999999);
        let mut i: usize = 0;
        while i < selected.len()
            invariant
                i <= selected@.len(),
                sprite_entries(self.sprites@) == sprite_entries(found_sprites(level@, selected@.take(i as int))),
                tl == clip_top_left(found_sprites(level@, selected@.take(i as int))),
            decreases selected@.len() - i,
        {
            let uuid = selected[i];
            let ghost prev = found_sprites(level@, selected@.take(i as int));
            proof {
                assert(selected@.take(i + 1).drop_last() =~= selected@.take(i as int));
            }
            match find_sprite(level, uuid) {
                Some(k) => {
                    let s = copy_sprite(&level[k]);
                    let p: (u32, u32) = (s.x_position as u32, s.y_position as u32);
                    if p.0 < tl.0 {
                        tl = p;
                    }
                    if p.1 < tl.1 {
                        tl = p;
                    }
                    let ghost before = self.sprites@;
                    self.sprites.push(s);
                    proof {
                        let found = prev.push(level@[k as int]);
                        assert(found.drop_last() =~= prev);
                        assert(sprite_entries(self.sprites@) =~= sprite_entries(before).push((s@, s.uuid)));
                        assert(sprite_entries(found) =~= sprite_entries(prev).push((level@[k as int]@, level@[k as int].uuid)));
                    }
                },
                None => {},
            }
            i += 1;
        }
        proof {
            assert(selected@.take(i as int) =~= selected@);
        }
        self.top_left_pos = tl;
    }
}

/// A clipboard coordinate as the signed number pasting computes with:
/// values past the largest one stay at the largest.
pub open spec fn clip_coord(v: u32) -> int {
    if v > i32::MAX {
        i32::MAX as int
    } else {
        v as int
    }
}

/// Where a copied sprite at `stored` lands, with the clipboard position
/// `tl` at the cursor `c`, before it is cut to 16 bits.
pub open spec fn landing(stored: u16, tl: u32, c: i32) -> int {
    c + (stored - clip_coord(tl))
}

/// Pasting the clipboard at the cursor does not overflow.
pub open spec fn sprite_paste_ok(clip: SpriteClipboard, cx: i32, cy: i32) -> bool {
    forall|i: int|
        0 <= i < clip.sprites@.len() ==> {
            let s = #[trigger] clip.sprites@[i];
            &&& i32::MIN <= landing(s.x_position, clip.top_left_pos.0, cx) <= i32::MAX
            &&& i32::MIN <= landing(s.y_position, clip.top_left_pos.1, cy) <= i32::MAX
        }
}

/// A copied sprite as pasted: its position moved with the cursor and cut
/// to 16 bits.
pub open spec fn pasted_view(s: SpriteView, tl: (u32, u32), cx: i32, cy: i32) -> SpriteView {
    SpriteView {
        x_position: landing(s.x_position, tl.0, cx) as i32 as u16,
        y_position: landing(s.y_position, tl.1, cy) as i32 as u16,
        ..s
    }
}

fn clip_coord_exec(v: u32) -> (r: i32)
    ensures
        r == clip_coord(v),
{
    if v > 0x7fff_ffff {
        0x7fff_ffff
    } else {
        v as i32
    }
}

impl SpriteClipboard {
    /// Pastes the copied sprites with the clipboard position at the cursor
    /// `(cursor_x, cursor_y)`: each copied sprite is moved by the cursor's
    /// offset, takes a fresh identifier, and a copy of it is added to the
    /// map's sprite set, in order.
    pub fn paste_sprites(&mut self, map: &mut MapData, cursor_x: i32, cursor_y: i32)
        requires
            first_top(old(map).segments@, TopKind::Setd) is Some,
            sprite_paste_ok(*old(self), cursor_x, cursor_y),
        ensures
            final(self).top_left_pos == old(self).top_left_pos,
            final(self).sprites@.len() == old(self).sprites@.len(),
            forall|i: int|
                0 <= i < final(self).sprites@.len() ==> {
                    &&& (#[trigger] final(self).sprites@[i])@ == pasted_view(
                        old(self).sprites@[i]@,
                        old(self).top_left_pos,
                        cursor_x,
                        cursor_y,
                    )
                    &&& final(self).sprites@[i].uuid != 0
                },
            ({
                let old_ss = setd_sprites(old(map).segments@);
                let fs = setd_sprites(final(map).segments@);
                let n = old(self).sprites@.len();
                &&& setd_replaced(*old(map), *final(map), fs)
                &&& fs.len() == old_ss.len() + n
                &&& fs.take(old_ss.len() as int) == old_ss
                &&& forall|i: int|
                    0 <= i < n ==> fs[old_ss.len() + i]@ == (#[trigger] final(self).sprites@[i])@ && fs[old_ss.len()
                        + i].uuid == final(self).sprites@[i].uuid
            }),
    {
        let ghost old_map = *map;
        let ghost old_clip = self.sprites@;
        let ghost k = first_top(old_map.segments@, TopKind::Setd)->0;
        let ghost old_ss = setd_sprites(old_map.segments@);
        let tl_x = clip_coord_exec(self.top_left_pos.0);
        let tl_y = clip_coord_exec(self.top_left_pos.1);
        let n = self.sprites.len();
        let mut i: usize = 0;
        proof {
            assert(old_map.segments@.update(k, old_map.segments@[k]) =~= old_map.segments@);
            assert(old_ss.take(old_ss.len() as int) =~= old_ss);
        }
        while i < n
            invariant
                i <= n,
                n == old_clip.len(),
                self.sprites@.len() == n,
                self.top_left_pos == old(self).top_left_pos,
                tl_x == clip_coord(self.top_left_pos.0),
                tl_y == clip_coord(self.top_left_pos.1),
                old_clip == old(self).sprites@,
                sprite_paste_ok(*old(self), cursor_x, cursor_y),
                forall|j: int| i <= j < n ==> (#[trigger] self.sprites@[j]) == old_clip[j],
                forall|j: int|
                    0 <= j < i ==> {
                        &&& (#[trigger] self.sprites@[j])@ == pasted_view(old_clip[j]@, self.top_left_pos, cursor_x, cursor_y)
                        &&& self.sprites@[j].uuid != 0
                    },
                first_top(old_map.segments@, TopKind::Setd) == Some(k),
                first_top(map.segments@, TopKind::Setd) == Some(k),
                setd_replaced(old_map, *map, setd_sprites(map.segments@)),
                setd_sprites(map.segments@).len() == old_ss.len() + i,
                setd_sprites(map.segments@).take(old_ss.len() as int) == old_ss,
                forall|j: int|
                    0 <= j < i ==> setd_sprites(map.segments@)[old_ss.len() + j]@ == (#[trigger] self.sprites@[j])@
                        && setd_sprites(map.segments@)[old_ss.len() + j].uuid == self.sprites@[j].uuid,
            decreases n - i,
        {
            let mut s = copy_sprite(&self.sprites[i]);
            proof {
                assert(self.sprites@[i as int] == old_clip[i as int]);
                assert(sprite_paste_ok(*old(self), cursor_x, cursor_y));
                let o = old(self).sprites@[i as int];
                assert(i32::MIN <= landing(o.x_position, self.top_left_pos.0, cursor_x) <= i32::MAX);
                assert(i32::MIN <= landing(o.y_position, self.top_left_pos.1, cursor_y) <= i32::MAX);
            }
            let x_offset: i32 = s.x_position as i32 - tl_x;
            let y_offset: i32 = s.y_position as i32 - tl_y;
            let true_x: i32 = cursor_x + x_offset;
            let true_y: i32 = cursor_y + y_offset;
            s.x_position = true_x as u16;
            s.y_position = true_y as u16;
            s.uuid = crate::ids::new_uuid();
            let keep = copy_sprite(&s);
            self.sprites.set(i, keep);
            let ghost before = setd_sprites(map.segments@);
            let ghost pre_map = *map;
            map.add_sprite(s);
            proof {
                let ws = map.segments@;
                assert(ws == pre_map.segments@.update(k, ws[k]));
                assert(top_kind(ws[k]) == TopKind::Setd);
                assert(is_first_top(ws, TopKind::Setd, k)) by {
                    assert forall|j: int| 0 <= j < k implies top_kind(#[trigger] ws[j]) != TopKind::Setd by {
                        assert(ws[j] == pre_map.segments@[j]);
                        assert(ws[j] == old_map.segments@[j]);
                    }
                }
                lemma_first_top_unique(ws, TopKind::Setd, k);
                let now = setd_sprites(ws);
                assert(now == before.push(s));
                assert(now.take(old_ss.len() as int) =~= before.take(old_ss.len() as int));
                assert(ws =~= old_map.segments@.update(k, ws[k]));
            }
            i += 1;
        }
        proof {
            assert(setd_sprites(map.segments@).len() == old_ss.len() + n);
        }
    }
}

/// The map's sprites after cutting: for each selected identifier that
/// finds a loaded sprite, in order, the first map sprite with that
/// identifier is removed (if there is one).
pub open spec fn cut_sprites_from(ss: Seq<LevelSprite>, level: Seq<LevelSprite>, sel: Seq<u128>) -> Seq<LevelSprite>
    decreases sel.len(),
{
    if sel.len() == 0 {
        ss
    } else {
        let prev = cut_sprites_from(ss, level, sel.drop_last());
        let u = sel.last();
        if first_sprite(level, u) is Some {
            match first_sprite(prev, u) {
                Some(i) => prev.remove(i),
                None => prev,
            }
        } else {
            prev
        }
    }
}

impl SpriteClipboard {
    /// Cuts the selected sprites: the clipboard gets the loaded sprites
    /// that the identifiers find, as `copy_sprites` does, and each of them
    /// is removed from the map's sprite set.
    pub fn cut_sprites(&mut self, map: &mut MapData, level: &Vec<LevelSprite>, selected: &Vec<u128>)
        requires
            first_top(old(map).segments@, TopKind::Setd) is Some,
        ensures
            sprite_entries(final(self).sprites@) == sprite_entries(found_sprites(level@, selected@)),
            final(self).top_left_pos == clip_top_left(found_sprites(level@, selected@)),
            setd_replaced(
                *old(map),
                *final(map),
                cut_sprites_from(setd_sprites(old(map).segments@), level@, selected@),
            ),
    {
        let ghost old_map = *map;
        let ghost k = first_top(old_map.segments@, TopKind::Setd)->0;
        let ghost old_ss = setd_sprites(old_map.segments@);
        self.sprites.clear();
        let mut tl: (u32, u32) = (999999, 999999);
        let mut i: usize = 0;
        proof {
            assert(old_map.segments@.update(k, old_map.segments@[k]) =~= old_map.segments@);
        }
        while i < selected.len()
            invariant
                i <= selected@.len(),
                sprite_entries(self.sprites@) == sprite_entries(found_sprites(level@, selected@.take(i as int))),
                tl == clip_top_left(found_sprites(level@, selected@.take(i as int))),
                first_top(old_map.segments@, TopKind::Setd) == Some(k),
                first_top(map.segments@, TopKind::Setd) == Some(k),
                setd_replaced(old_map, *map, cut_sprites_from(old_ss, level@, selected@.take(i as int))),
            decreases selected@.len() - i,
        {
            let uuid = selected[i];
            let ghost prev = found_sprites(level@, selected@.take(i as int));
            let ghost prev_cut = cut_sprites_from(old_ss, level@, selected@.take(i as int));
            proof {
                assert(selected@.take(i + 1).drop_last() =~= selected@.take(i as int));
                assert(selected@.take(i + 1).last() == uuid);
            }
            match find_sprite(level, uuid) {
                Some(j) => {
                    let s = copy_sprite(&level[j]);
                    let p: (u32, u32) = (s.x_position as u32, s.y_position as u32);
                    if p.0 < tl.0 {
                        tl = p;
                    }
                    if p.1 < tl.1 {
                        tl = p;
                    }
                    let ghost before = self.sprites@;
                    self.sprites.push(s);
                    proof {
                        let found = prev.push(level@[j as int]);
                        assert(found.drop_last() =~= prev);
                        assert(sprite_entries(self.sprites@) =~= sprite_entries(before).push((s@, s.uuid)));
                        assert(sprite_entries(found) =~= sprite_entries(prev).push((level@[j as int]@, level@[j as int].uuid)));
                    }
                    let ghost pre_map = *map;
                    map.delete_sprite_by_uuid(uuid);
                    proof {
                        let ws = map.segments@;
                        assert(setd_sprites(pre_map.segments@) == prev_cut);
                        assert(ws == pre_map.segments@.update(k, ws[k]));
                        assert(top_kind(ws[k]) == TopKind::Setd);
                        assert(is_first_top(ws, TopKind::Setd, k)) by {
                            assert forall|m: int| 0 <= m < k implies top_kind(#[trigger] ws[m]) != TopKind::Setd by {
                                assert(ws[m] == pre_map.segments@[m]);
                                assert(ws[m] == old_map.segments@[m]);
                            }
                        }
                        lemma_first_top_unique(ws, TopKind::Setd, k);
                        assert(ws =~= old_map.segments@.update(k, ws[k]));
                    }
                },
                None => {},
            }
            i += 1;
        }
        proof {
            assert(selected@.take(i as int) =~= selected@);
        }
        self.top_left_pos = tl;
    }
}

} // verus!
