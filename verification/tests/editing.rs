use stork::background::{BackgroundData, BackgroundDataError, ImbzFile};
use stork::scen::raw::{AnimatedPaletteData, ImgbData, RastData};
use stork::scen::scrl::ScrollData;
use stork::segments::TopLevelSegment;
use stork::compression::lamezip77_lz10_recomp;
use stork::mapfile::{MapData, TopLevelSegmentWrapper};
use stork::scen::colz::CollisionData;
use stork::scen::info::ScenInfoData;
use stork::scen::mpbz::MapTileDataSegment;
use stork::scen::ScenSegment;
use stork::selection::{get_x_pos_of_map_index, get_y_pos_of_map_index, sorted_indexes, BgSelectData};
use stork::types::MapTileRecordData;

/// A 4 by 2 background 1 with map entries 1 to 8 and collision blocks
/// 0xA and 0xB.
fn small_background() -> BackgroundData {
    let mut info = ScenInfoData::default();
    info.layer_width = 4;
    info.layer_height = 2;
    info.which_bg = 1;
    info.color_mode = 0;
    let tiles: Vec<MapTileRecordData> = (1u16..=8).map(MapTileRecordData::new).collect();
    let map = MapTileDataSegment { tiles, tile_offset: 0, bottom_trim: 0 };
    let col = CollisionData { col_tiles: vec![0xA, 0xB] };
    let mut body = info.wrap(None);
    body.extend(col.wrap(Some(&info)));
    body.extend(map.wrap(Some(&info)));
    BackgroundData::load(&body, &Vec::new()).expect("readable SCEN").expect("no error")
}

#[test]
fn background_reads_its_sub_segments() {
    let bg = small_background();
    let info = bg.get_info().expect("INFO");
    assert_eq!((info.layer_width, info.layer_height, info.which_bg), (4, 2, 1));
    assert_eq!(bg.get_colz().expect("COLZ").col_tiles, vec![0xA, 0xB]);
    let map = bg.get_mpbz().expect("MPBZ");
    assert_eq!(map.tiles.len(), 8);
    assert_eq!(map.tiles[7].to_short(), 8);
    assert!(bg.get_pltb().is_none());
    assert!(bg.get_anmz().is_none());
}

#[test]
fn widening_and_narrowing_a_background() {
    let mut bg = small_background();
    assert_eq!(bg.increase_width(3), None);
    assert_eq!(bg.increase_width(6), Some(6));
    assert_eq!(bg.get_info().unwrap().layer_width, 6);
    let shorts: Vec<u16> = bg.get_mpbz().unwrap().tiles.iter().map(|t| t.to_short()).collect();
    assert_eq!(shorts, vec![1, 2, 3, 4, 0, 0, 5, 6, 7, 8, 0, 0]);
    assert_eq!(bg.decrease_width(4), Some(4));
    let back: Vec<u16> = bg.get_mpbz().unwrap().tiles.iter().map(|t| t.to_short()).collect();
    assert_eq!(back, vec![1, 2, 3, 4, 5, 6, 7, 8]);
    assert_eq!(bg.decrease_width(4), None);
}

#[test]
fn changing_height_of_a_background() {
    let mut bg = small_background();
    assert_eq!(bg.change_height(3), None);
    assert_eq!(bg.change_height(4), Some(4));
    assert_eq!(bg.get_info().unwrap().layer_height, 4);
    assert_eq!(bg.get_mpbz().unwrap().tiles.len(), 16);
    assert_eq!(bg.change_height(0), Some(0));
    assert!(bg.get_mpbz().unwrap().tiles.is_empty());
}

fn map_with_background() -> MapData {
    let mut m = MapData::default();
    m.segments.push(TopLevelSegmentWrapper::SCEN(small_background()));
    m
}

#[test]
fn tile_and_collision_edits_on_a_map() {
    let mut m = map_with_background();
    assert_eq!(m.get_bg_with_colz(), Some(1));
    assert!(m.set_col_tile(1, 1, 0x42));
    assert_eq!(m.get_background(1).unwrap().get_colz().unwrap().col_tiles, vec![0xA, 0x42]);
    assert!(!m.set_col_tile(2, 0, 1));
    assert!(m.place_bg_tile_at_map_index(1, 2, 0x1234));
    assert_eq!(m.get_background(1).unwrap().get_mpbz().unwrap().tiles[2].to_short(), 0x1234);
    assert!(m.delete_bg_tile_by_map_index(1, 2));
    assert_eq!(m.get_background(1).unwrap().get_mpbz().unwrap().tiles[2].to_short(), 0);
    assert!(!m.delete_bg_tile_by_map_index(1, 100));
}

#[test]
fn map_positions() {
    assert_eq!(get_x_pos_of_map_index(13, &5), 3);
    assert_eq!(get_y_pos_of_map_index(13, &5), 2);
    assert_eq!(sorted_indexes(&vec![5, 1, 4, 1]), vec![1, 1, 4, 5]);
}

#[test]
fn selection_extent_and_clipboard() {
    let mut sel = BgSelectData::default();
    assert_eq!(sel.get_selection_width(4), 0);
    assert_eq!(sel.get_top_left(4), None);
    sel.selected_map_indexes = vec![6, 1, 5, 2];
    assert_eq!(sel.get_selection_width(4), 2);
    assert_eq!(sel.get_selection_height(4), 2);
    let tiles: Vec<MapTileRecordData> = (10u16..18).map(MapTileRecordData::new).collect();
    let clip = sel.to_clipboard_tiles(4, &tiles);
    assert_eq!(sel.selected_map_indexes, vec![1, 2, 5, 6]);
    assert_eq!(clip.len(), 4);
    assert_eq!((clip[0].x_offset, clip[0].y_offset, clip[0].tile.to_short()), (0, 0, 11));
    assert_eq!((clip[3].x_offset, clip[3].y_offset, clip[3].tile.to_short()), (1, 1, 16));
    assert_eq!(sel.get_top_left(4), Some((1, 0)));
    sel.clear();
    assert!(sel.selected_map_indexes.is_empty());
    assert!(!sel.dragging);
}

#[test]
fn info_finds_its_tile_graphics() {
    let pixels = vec![1u8, 2, 3, 4, 5, 6, 7, 8];
    let files = vec![
        ImbzFile { name: b"other".to_vec(), bytes: stork::compression::lamezip77_lz10_recomp(&vec![9u8]) },
        ImbzFile { name: b"objset".to_vec(), bytes: stork::compression::lamezip77_lz10_recomp(&pixels) },
    ];
    let mut info = ScenInfoData::default();
    info.imbz_filename_noext = Some(b"objset".to_vec());
    assert_eq!(info.get_imbz_pixels(&files), Some(pixels));
    info.imbz_filename_noext = Some(b"missing".to_vec());
    assert_eq!(info.get_imbz_pixels(&files), None);
}

#[test]
fn info_and_plan_background_compiles_to_same_bytes() {
    let mut info = ScenInfoData::default();
    info.layer_width = 2;
    info.layer_height = 3;
    info.which_bg = 2;
    let plan = AnimatedPaletteData::new(&vec![1, 2, 3, 4, 5, 6, 7, 8]);
    let mut body = info.wrap(None);
    body.extend(plan.wrap(Some(&info)));
    let bg = BackgroundData::load(&body, &Vec::new()).expect("readable SCEN").expect("no error");
    assert_eq!(bg.scen_segments.len(), 2);
    assert_eq!(bg.compile(), body);
}

#[test]
fn unknown_sub_segment_error_names_it() {
    let info = ScenInfoData::default();
    let mut body = info.wrap(None);
    body.extend_from_slice(b"ABCD");
    body.extend_from_slice(&[0, 0, 0, 0]);
    let r = BackgroundData::load(&body, &Vec::new()).expect("readable SCEN");
    assert_eq!(r.err(), Some(BackgroundDataError::UnknownSCENSegment(String::from("ABCD"))));
}

#[test]
fn info_read_stops_at_its_end() {
    let mut info = ScenInfoData::default();
    info.imbz_filename_noext = Some(b"tiles".to_vec());
    let bytes = info.compile(None);
    assert_eq!(bytes.len(), 32);
    let (back, end) = ScenInfoData::new(&bytes, 0, bytes.len() as u32).expect("fixed part present");
    assert_eq!(end, bytes.len());
    assert_eq!(back, info);
}

#[test]
fn info_rast_and_scroll_background_reads_back() {
    let mut info = ScenInfoData::default();
    info.layer_width = 4;
    info.layer_height = 4;
    info.which_bg = 3;
    let rast = RastData::new(&vec![9, 8, 7, 6]);
    let scrl = ScrollData { left_velocity: -3, up_velocity: 5 };
    let mut body = info.wrap(None);
    body.extend(rast.wrap(Some(&info)));
    body.extend(scrl.wrap(Some(&info)));
    let bg = BackgroundData::load(&body, &Vec::new()).expect("readable SCEN").expect("no error");
    assert_eq!(bg.scen_segments.len(), 3);
    assert_eq!(bg.get_info().unwrap().which_bg, 3);
    assert_eq!(bg.compile(), body);
}

#[test]
fn map_segment_with_offset_reads_back() {
    let mut info = ScenInfoData::default();
    info.layer_width = 2;
    let tiles = vec![
        MapTileRecordData::new(0),
        MapTileRecordData::new(0),
        MapTileRecordData::new(5),
        MapTileRecordData::new(0x1234),
    ];
    let m = MapTileDataSegment { tiles, tile_offset: 1, bottom_trim: 0 };
    let bytes = m.compile(Some(&info));
    assert_eq!(bytes, vec![0xff, 0xff, 1, 0, 0, 0, 5, 0, 0x34, 0x12]);
    let back = MapTileDataSegment::from_decomped_vec(&bytes, 2);
    assert_eq!(back, m);
}

#[test]
fn named_info_background_reads_back_with_its_graphics() {
    let mut info = ScenInfoData::default();
    info.layer_width = 2;
    info.imbz_filename_noext = Some(b"tiles".to_vec());
    let plan = AnimatedPaletteData::new(&vec![1, 2, 3, 4]);
    let mut body = info.wrap(None);
    body.extend(plan.wrap(Some(&info)));
    let pixels = vec![7u8; 64];
    let files = vec![ImbzFile { name: b"tiles".to_vec(), bytes: lamezip77_lz10_recomp(&pixels) }];
    let bg = BackgroundData::load(&body, &files).expect("readable SCEN").expect("no error");
    assert_eq!(bg.scen_segments.len(), 2);
    assert_eq!(bg.get_info().unwrap().imbz_filename_noext, Some(b"tiles".to_vec()));
    assert_eq!(bg.pixel_tiles_preview, Some(pixels));
    assert_eq!(bg.compile(), body);
}

#[test]
fn uncompressed_graphics_become_the_preview_and_read_back() {
    let mut info = ScenInfoData::default();
    info.layer_width = 2;
    let pixels: Vec<u8> = (0u8..32).collect();
    let imgb = ImgbData::new(pixels.clone());
    let mut body = info.wrap(None);
    body.extend(imgb.wrap(Some(&info)));
    let bg = BackgroundData::load(&body, &Vec::new()).expect("readable SCEN").expect("no error");
    assert_eq!(bg.scen_segments.len(), 2);
    assert_eq!(bg.pixel_tiles_preview, Some(pixels));
    assert_eq!(bg.compile(), body);
}

#[test]
fn collision_background_reads_back_and_compiles_to_same_bytes() {
    let mut info = ScenInfoData::default();
    info.layer_width = 4;
    info.layer_height = 2;
    let col = CollisionData { col_tiles: vec![1, 2, 3, 0, 0, 0, 7, 7] };
    let mut body = info.wrap(None);
    body.extend(col.wrap(Some(&info)));
    let bg = BackgroundData::load(&body, &Vec::new()).expect("readable SCEN").expect("no error");
    assert_eq!(bg.get_colz().expect("COLZ").col_tiles, col.col_tiles);
    assert_eq!(bg.compile(), body);
}

#[test]
fn map_and_collision_background_compiles_to_same_bytes() {
    let mut info = ScenInfoData::default();
    info.layer_width = 2;
    info.layer_height = 2;
    let tiles = vec![
        MapTileRecordData::new(0),
        MapTileRecordData::new(0),
        MapTileRecordData::new(3),
        MapTileRecordData::new(0x2001),
    ];
    let map = MapTileDataSegment { tiles, tile_offset: 1, bottom_trim: 0 };
    let col = CollisionData { col_tiles: vec![5, 6, 7, 8] };
    let mut body = info.wrap(None);
    body.extend(col.wrap(Some(&info)));
    body.extend(map.wrap(Some(&info)));
    let bg = BackgroundData::load(&body, &Vec::new()).expect("readable SCEN").expect("no error");
    assert_eq!(bg.get_mpbz().expect("MPBZ"), &map);
    assert_eq!(bg.compile(), body);
}
