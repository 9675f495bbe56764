use stork::actions::{all_sprite_uuids, click_select_sprite, pick_tile, DragMode, Nudge};
use stork::background::BackgroundData;
use stork::clipboard::{xy_to_index, SpriteClipboard};
use stork::engine::BgClipboardSelectedTile;
use stork::mapfile::{MapData, TopLevelSegmentWrapper};
use stork::scen::colz::CollisionData;
use stork::scen::info::ScenInfoData;
use stork::scen::mpbz::MapTileDataSegment;
use stork::scen::ScenSegment;
use stork::selection::BgSelectData;
use stork::sprites::{LevelSprite, LevelSpriteSet};
use stork::parse::is_settings_string_valid;
use stork::types::MapTileRecordData;

/// A map with one 4 by 2 background (number 1) whose entries are 1 to 8
/// and whose collision blocks are 0xA and 0xB.
fn map_with_background() -> MapData {
    let mut info = ScenInfoData::default();
    info.layer_width = 4;
    info.layer_height = 2;
    info.which_bg = 1;
    info.color_mode = 0;
    let tiles: Vec<MapTileRecordData> = (1u16..=8).map(MapTileRecordData::new).collect();
    let map = MapTileDataSegment { tiles, tile_offset: 0, bottom_trim: 0 };
    let col = CollisionData { col_tiles: vec![0xA, 0xB] };
    let mut body = info.wrap(None);
    body.extend(col.wrap(Some(&info)));
    body.extend(map.wrap(Some(&info)));
    let bg = BackgroundData::load(&body, &Vec::new()).expect("readable SCEN").expect("no error");
    let mut m = MapData::default();
    m.segments.push(TopLevelSegmentWrapper::SCEN(bg));
    m
}

fn shorts(m: &mut MapData) -> Vec<u16> {
    m.get_background(1).unwrap().get_mpbz().unwrap().tiles.iter().map(|t| t.to_short()).collect()
}

fn clip_tile(short: u16, x_offset: i32, y_offset: i32) -> BgClipboardSelectedTile {
    BgClipboardSelectedTile { tile: MapTileRecordData::new(short), x_offset, y_offset }
}

#[test]
fn map_index_of_a_position() {
    assert_eq!(xy_to_index(3, 2, &5), 13);
    assert_eq!(xy_to_index(0, 0, &5), 0);
}

#[test]
fn cut_then_paste_background_tiles() {
    let mut m = map_with_background();
    let mut sel = BgSelectData::default();
    sel.selected_map_indexes = vec![6, 5];
    let clips = m.cut_bg_tiles(1, &mut sel).expect("tiles were cut");
    assert_eq!(clips.len(), 2);
    assert_eq!((clips[0].tile.to_short(), clips[0].x_offset, clips[0].y_offset), (6, 0, 0));
    assert_eq!((clips[1].tile.to_short(), clips[1].x_offset, clips[1].y_offset), (7, 1, 0));
    assert!(sel.selected_map_indexes.is_empty());
    assert_eq!(shorts(&mut m), vec![1, 2, 3, 4, 5, 0, 0, 8]);
    m.paste_bg_tiles(1, &clips, 2, 0);
    assert_eq!(shorts(&mut m), vec![1, 2, 6, 7, 5, 0, 0, 8]);
}

#[test]
fn cutting_nothing_changes_nothing() {
    let mut m = map_with_background();
    let mut sel = BgSelectData::default();
    assert!(m.cut_bg_tiles(1, &mut sel).is_none());
    sel.selected_map_indexes = vec![1];
    assert!(m.cut_bg_tiles(2, &mut sel).is_none());
    assert_eq!(sel.selected_map_indexes, vec![1]);
    assert_eq!(shorts(&mut m), vec![1, 2, 3, 4, 5, 6, 7, 8]);
}

#[test]
fn paste_skips_tiles_outside_and_blank_tiles() {
    let mut m = map_with_background();
    let clips = vec![clip_tile(0x21, 0, 0), clip_tile(0x22, 1, 0), clip_tile(0, 0, -1)];
    m.paste_bg_tiles(1, &clips, 3, 1);
    assert_eq!(shorts(&mut m), vec![1, 2, 3, 4, 5, 6, 7, 0x21]);
    // A column left of the layer passes the signed check, and its position
    // taken as unsigned lies far past the end of the map.
    let left = vec![clip_tile(0x30, -1, 0)];
    m.paste_bg_tiles(1, &left, 0, 0);
    assert_eq!(shorts(&mut m), vec![1, 2, 3, 4, 5, 6, 7, 0x21]);
    // Later tiles are written over earlier ones.
    let twice = vec![clip_tile(0x40, 0, 0), clip_tile(0x41, 0, 0)];
    m.paste_bg_tiles(1, &twice, 1, 1);
    assert_eq!(shorts(&mut m), vec![1, 2, 3, 4, 5, 0x41, 7, 0x21]);
}

#[test]
fn clearing_layers() {
    let mut m = map_with_background();
    assert!(m.clear_collision_layer());
    assert!(m.get_background(1).unwrap().get_colz().unwrap().col_tiles.is_empty());
    assert!(m.clear_bg_layer(1));
    assert!(shorts(&mut m).is_empty());
    assert!(!m.clear_bg_layer(2));
    let mut empty = MapData::default();
    assert!(!empty.clear_collision_layer());
    assert!(!empty.clear_bg_layer(1));
}

#[test]
fn delete_key_on_background_tiles() {
    let mut m = map_with_background();
    m.delete_bg_tiles(1, &vec![0, 3, 100]);
    assert_eq!(shorts(&mut m), vec![0, 2, 3, 0, 5, 6, 7, 8]);
    m.delete_bg_tiles(4, &vec![1]);
    assert_eq!(shorts(&mut m), vec![0, 2, 3, 0, 5, 6, 7, 8]);
}

#[test]
fn select_all_positions() {
    let mut sel = BgSelectData::default();
    sel.select_all(8, 4);
    assert_eq!(sel.selected_map_indexes, vec![0, 1, 2, 3, 4, 5, 6, 7]);
    assert_eq!(sel.selection_width, 4);
}

fn sprite(x: u16, y: u16, uuid: u128) -> LevelSprite {
    let mut s = LevelSprite::new(0x2c, x, y, vec![1, 2]);
    s.uuid = uuid;
    s
}

fn map_with_sprites(ss: Vec<LevelSprite>) -> MapData {
    let mut m = MapData::default();
    let mut set = LevelSpriteSet::default();
    set.sprites = ss;
    m.segments.push(TopLevelSegmentWrapper::SETD(set));
    m
}

fn positions(m: &mut MapData) -> Vec<(u16, u16)> {
    m.get_setd().unwrap().sprites.iter().map(|s| (s.x_position, s.y_position)).collect()
}

#[test]
fn copy_keeps_the_top_left_position_rule() {
    let level = vec![sprite(10, 20, 1), sprite(5, 30, 2), sprite(7, 1, 3)];
    let mut clip = SpriteClipboard::default();
    clip.copy_sprites(&level, &vec![1, 2, 3, 99]);
    assert_eq!(clip.sprites.len(), 3);
    // (10, 20), then (5, 30) is further left, then (7, 1) is higher up.
    assert_eq!(clip.top_left_pos, (7, 1));
    clip.copy_sprites(&level, &vec![]);
    assert!(clip.sprites.is_empty());
    assert_eq!(clip.top_left_pos, (999999, 999999));
}

#[test]
fn paste_sprites_at_the_cursor() {
    let level = vec![sprite(10, 20, 1), sprite(5, 30, 2), sprite(7, 1, 3)];
    let mut m = map_with_sprites(vec![sprite(0, 0, 50)]);
    let mut clip = SpriteClipboard::default();
    clip.copy_sprites(&level, &vec![1, 2, 3]);
    clip.paste_sprites(&mut m, 100, 100);
    assert_eq!(positions(&mut m), vec![(0, 0), (103, 119), (98, 129), (100, 100)]);
    let uuids: Vec<u128> = m.get_setd().unwrap().sprites.iter().map(|s| s.uuid).collect();
    assert!(uuids[1] != 1 && uuids[2] != 2 && uuids[3] != 3);
    assert_eq!(clip.sprites[0].uuid, uuids[1]);
    assert_eq!((clip.sprites[0].x_position, clip.sprites[0].y_position), (103, 119));
}

#[test]
fn cut_sprites_removes_them_from_the_map() {
    let level = vec![sprite(10, 20, 1), sprite(5, 30, 2)];
    let mut m = map_with_sprites(vec![sprite(10, 20, 1), sprite(5, 30, 2), sprite(1, 1, 3)]);
    let mut clip = SpriteClipboard::default();
    clip.cut_sprites(&mut m, &level, &vec![2, 3]);
    assert_eq!(clip.sprites.len(), 1);
    assert_eq!(clip.sprites[0].uuid, 2);
    // Identifier 3 finds no loaded sprite, so its map sprite stays.
    assert_eq!(positions(&mut m), vec![(10, 20), (1, 1)]);
}

#[test]
fn arrow_keys_and_delete_on_sprites() {
    let mut m = map_with_sprites(vec![sprite(10, 20, 1), sprite(5, 30, 2)]);
    m.nudge_sprites(&vec![1], Nudge::Up);
    m.nudge_sprites(&vec![1, 2], Nudge::Right);
    m.nudge_sprites(&vec![2], Nudge::Down);
    m.nudge_sprites(&vec![2, 2], Nudge::Left);
    assert_eq!(positions(&mut m), vec![(11, 19), (4, 31)]);
    m.delete_sprites(&vec![1, 7]);
    assert_eq!(positions(&mut m), vec![(4, 31)]);
}

#[test]
fn select_all_sprites() {
    let level = vec![sprite(1, 1, 5), sprite(2, 2, 6)];
    assert_eq!(all_sprite_uuids(&level), vec![5, 6]);
}

#[test]
fn stamping_a_brush() {
    let mut m = map_with_background();
    let mut brush = stork::brushes::Brush::default();
    brush.width = 2;
    brush.height = 2;
    brush.tiles = vec![0x11, 0, 0x13, 0x14];
    m.stamp_brush(1, &brush, 1, 0);
    assert_eq!(shorts(&mut m), vec![0x11, 2, 3, 4, 0x13, 0x14, 7, 8]);
    m.stamp_brush(1, &brush, 3, 1);
    assert_eq!(shorts(&mut m), vec![0x11, 2, 0x11, 4, 0x13, 0x14, 0x13, 0x14]);
    // Rows past the layer's height are left out.
    m.stamp_brush(1, &brush, 0, 2);
    assert_eq!(shorts(&mut m), vec![0x11, 2, 0x11, 4, 0x13, 0x14, 0x13, 0x14]);
    // Columns past the layer's width are left out.
    brush.width = 3;
    brush.tiles = vec![0x21, 0x22, 0x23];
    m.stamp_brush(1, &brush, 2, 0);
    assert_eq!(shorts(&mut m), vec![0x11, 2, 0x21, 0x22, 0x13, 0x14, 0x13, 0x14]);
}

#[test]
fn deleting_segments_spares_sprites_and_backgrounds() {
    let mut m = map_with_background();
    m.segments.push(TopLevelSegmentWrapper::SETD(LevelSpriteSet::default()));
    m.segments.push(TopLevelSegmentWrapper::AREA(stork::area::TriggerData::default()));
    assert!(!m.delete_top_segment(0));
    assert!(!m.delete_top_segment(1));
    assert!(m.delete_top_segment(2));
    assert_eq!(m.segments.len(), 2);
}

#[test]
fn only_scroll_sub_segments_can_be_deleted() {
    let mut m = map_with_background();
    let bg = m.get_background(1).unwrap();
    let before = bg.scen_segments.len();
    assert!(!bg.delete_scen_segment(1));
    assert_eq!(bg.scen_segments.len(), before);
    bg.scen_segments.push(stork::scen::ScenSegmentWrapper::SCRL(stork::scen::scrl::ScrollData {
        left_velocity: 1,
        up_velocity: 2,
    }));
    assert!(bg.delete_scen_segment(before));
    assert_eq!(bg.scen_segments.len(), before);
}

#[test]
fn new_trigger_has_the_default_rectangle() {
    let mut area = stork::area::TriggerData::default();
    let uuid = area.add_default_trigger();
    assert_eq!(area.triggers.len(), 1);
    let t = &area.triggers[0];
    assert_eq!((t.left_x, t.top_y, t.right_x, t.bottom_y), (2, 2, 12, 12));
    assert_eq!(t.uuid, uuid);
    assert!(area.delete(uuid));
}

#[test]
fn finishing_a_drag_adds_removes_or_replaces() {
    let mut sel = BgSelectData::default();
    sel.dragging = true;
    sel.selected_map_indexes = vec![5, 1];
    sel.finish_drag(&vec![3, 1], DragMode::Add);
    assert_eq!(sel.selected_map_indexes, vec![1, 3, 5]);
    assert!(!sel.dragging);
    sel.selected_map_indexes = vec![1, 3, 5, 3];
    sel.finish_drag(&vec![3, 7], DragMode::Remove);
    assert_eq!(sel.selected_map_indexes, vec![1, 5, 3]);
    sel.finish_drag(&vec![4, 2, 4], DragMode::Replace);
    assert_eq!(sel.selected_map_indexes, vec![2, 4]);
}

#[test]
fn dragging_sprites_stops_at_zero() {
    let level = vec![sprite(10, 20, 1), sprite(5, 30, 2)];
    let mut m = map_with_sprites(vec![sprite(10, 20, 1), sprite(5, 30, 2)]);
    m.drag_sprites(&level, &vec![1, 2, 9], -7, 3);
    assert_eq!(positions(&mut m), vec![(3, 23), (0, 33)]);
}

#[test]
fn sprite_settings_text() {
    assert!(is_settings_string_valid("01 ff +0A", 3));
    assert!(!is_settings_string_valid("01 ff +0A", 2));
    assert!(is_settings_string_valid("0001", 1));
    assert!(!is_settings_string_valid("01  02", 3));
    assert!(!is_settings_string_valid("", 0));
    assert!(!is_settings_string_valid("100", 1));
    assert!(!is_settings_string_valid("+", 1));
    assert!(!is_settings_string_valid("0x1", 1));
}

#[test]
fn middle_click_picks_tile_and_palette() {
    let mut t = MapTileRecordData::new(0x3005);
    let tiles = vec![MapTileRecordData::new(1), t];
    assert_eq!(pick_tile(&tiles, 1, 0, 1, 2), (5, 6));
    t.palette_id = 14;
    let tiles = vec![t];
    assert_eq!(pick_tile(&tiles, 1, 0, 0, 4), (5, 15));
}

#[test]
fn clicking_sprites_selects_them() {
    let mut sel: Vec<u128> = vec![1, 2];
    click_select_sprite(&mut sel, 2, true);
    assert_eq!(sel, vec![1, 2]);
    click_select_sprite(&mut sel, 3, true);
    assert_eq!(sel, vec![1, 2, 3]);
    click_select_sprite(&mut sel, 1, true);
    assert_eq!(sel, vec![1, 2, 3, 1]);
    click_select_sprite(&mut sel, 9, false);
    assert_eq!(sel, vec![9]);
}
