use stork::brushes::{brush_listed, overwrite_saved, Brush, BrushSettings, BrushType};
use stork::selection::BgSelectData;
use stork::types::MapTileRecordData;

fn brush(width: u8, height: u8, tiles: Vec<u16>) -> Brush {
    let mut b = Brush::default();
    b.width = width;
    b.height = height;
    b.tiles = tiles;
    b
}

#[test]
fn placing_in_an_empty_brush() {
    let mut b = Brush::default();
    assert!(b.place_tile(1, 1, Some(5)));
    assert_eq!((b.width, b.height), (2, 2));
    assert_eq!(b.tiles, vec![0, 0, 0, 5]);
}

#[test]
fn placing_right_of_a_brush_widens_it() {
    let mut b = brush(2, 2, vec![1, 2, 3, 4]);
    assert!(b.place_tile(2, 0, Some(9)));
    assert_eq!((b.width, b.height), (3, 2));
    // The blank columns go after each row; the widening loop also leaves
    // blank entries past the last row.
    assert_eq!(b.tiles, vec![1, 2, 9, 3, 4, 0, 0, 0, 0]);
}

#[test]
fn placing_below_a_brush_lengthens_it() {
    let mut b = brush(2, 2, vec![1, 2, 3, 4]);
    assert!(b.place_tile(0, 2, Some(7)));
    assert_eq!((b.width, b.height), (2, 3));
    assert_eq!(b.tiles, vec![1, 2, 3, 4, 7, 0]);
}

#[test]
fn placing_outside_the_grid_or_without_a_tile() {
    let mut b = brush(2, 2, vec![1, 2, 3, 4]);
    assert!(!b.place_tile(16, 0, Some(1)));
    assert_eq!(b.tiles, vec![1, 2, 3, 4]);
    assert!(!b.place_tile(0, 2, None));
    assert_eq!((b.height, b.tiles.len()), (3, 6));
}

#[test]
fn erasing_a_brush_tile() {
    let mut b = brush(2, 2, vec![1, 2, 3, 4]);
    assert!(b.erase_tile(1, 1));
    assert_eq!(b.tiles, vec![1, 2, 3, 0]);
    assert!(!b.erase_tile(2, 0));
    assert!(!b.erase_tile(0, 2));
    assert_eq!(b.tiles, vec![1, 2, 3, 0]);
}

#[test]
fn loading_a_selection_into_a_brush() {
    let tiles: Vec<MapTileRecordData> = (10u16..18).map(MapTileRecordData::new).collect();
    let mut sel = BgSelectData::default();
    sel.selected_map_indexes = vec![1, 2, 5, 6];
    sel.selection_width = 2;
    let mut b = Brush::default();
    assert!(b.load_selection(&sel, &tiles, None));
    assert_eq!((b.width, b.height), (2, 2));
    assert_eq!(b.tiles, vec![11, 12, 15, 16]);
    assert_eq!(b.tileset, "N/A");
    assert!(b.load_selection(&sel, &tiles, Some(String::from("objset"))));
    assert_eq!(b.tileset, "objset");
    sel.selection_width = 0;
    assert!(!b.load_selection(&sel, &tiles, None));
    sel.selection_width = 17;
    assert!(!b.load_selection(&sel, &tiles, None));
    sel.selection_width = 1;
    sel.selected_map_indexes = vec![0; 17];
    assert!(!b.load_selection(&sel, &tiles, None));
    sel.selected_map_indexes = vec![];
    assert!(!b.load_selection(&sel, &tiles, None));
    assert_eq!(b.tiles, vec![11, 12, 15, 16]);
}

#[test]
fn listing_brushes_by_tileset_and_filter() {
    let mut b = brush(1, 1, vec![1]);
    b.name = String::from("  Big Tree ");
    b.tileset = String::from("set_a");
    assert!(brush_listed(&b, "set_a", true, " tree"));
    assert!(brush_listed(&b, "set_b", false, "BIG"));
    assert!(!brush_listed(&b, "set_b", true, "tree"));
    assert!(brush_listed(&b, "set_a", true, ""));
    assert!(!brush_listed(&b, "set_a", true, "bush"));
}

#[test]
fn deleting_saved_brushes_moves_the_selection() {
    let mut settings = BrushSettings::default();
    let mut saved = vec![brush(1, 1, vec![1]), brush(1, 1, vec![2]), brush(1, 1, vec![3])];
    settings.cur_selected_brush = Some((BrushType::Saved, 2));
    settings.delete_saved(&mut saved, 1);
    assert_eq!(saved.len(), 2);
    assert_eq!(saved[1].tiles, vec![3]);
    assert_eq!(settings.cur_selected_brush, Some((BrushType::Saved, 1)));
    settings.delete_saved(&mut saved, 1);
    assert_eq!(settings.cur_selected_brush, None);
    // The index is compared whatever list the selection is in.
    settings.cur_selected_brush = Some((BrushType::Stored, 0));
    settings.delete_saved(&mut saved, 0);
    assert_eq!(settings.cur_selected_brush, None);
    saved.push(brush(1, 1, vec![8]));
    saved.push(brush(1, 1, vec![9]));
    settings.cur_selected_brush = Some((BrushType::Stored, 0));
    settings.delete_saved(&mut saved, 1);
    assert_eq!(settings.cur_selected_brush, Some((BrushType::Stored, 0)));
}

#[test]
fn overwriting_keeps_the_saved_name() {
    let mut old = brush(1, 1, vec![1]);
    old.name = String::from("keep me");
    let mut saved = vec![old];
    let current = brush(2, 1, vec![5, 6]);
    overwrite_saved(&mut saved, 0, &current);
    assert_eq!(saved[0].name, "keep me");
    assert_eq!(saved[0].tiles, vec![5, 6]);
}

#[test]
fn storing_the_current_brush() {
    let mut settings = BrushSettings::default();
    let mut saved: Vec<Brush> = Vec::new();
    let mut empty = Brush::default();
    assert!(!settings.store_current(&mut empty, "set_a", 3, &mut saved));
    let mut current = brush(1, 1, vec![4]);
    settings.pos_brush_name = String::from("   ");
    assert!(!settings.store_current(&mut current, "set_a", 3, &mut saved));
    settings.pos_brush_name = String::from("Rock");
    assert!(settings.store_current(&mut current, "set_a", 3, &mut saved));
    assert_eq!(saved.len(), 1);
    assert_eq!((saved[0].name.as_str(), saved[0].tileset.as_str(), saved[0].palette_offset), ("Rock", "set_a", 3));
    assert!(settings.pos_brush_name.is_empty());
}

#[test]
fn growing_keeps_tiles_at_their_column_and_row() {
    let mut b = brush(2, 2, vec![1, 2, 3, 4]);
    assert!(b.place_tile(3, 2, Some(8)));
    assert_eq!((b.width, b.height), (4, 3));
    let w = b.width as usize;
    assert_eq!((b.tiles[0], b.tiles[1], b.tiles[w], b.tiles[w + 1]), (1, 2, 3, 4));
    assert_eq!(b.tiles[2 * w + 3], 8);
    for r in 0..3 {
        for c in 0..4 {
            if (r < 2 && c < 2) || (r == 2 && c == 3) {
                continue;
            }
            assert_eq!(b.tiles[r * w + c], 0);
        }
    }
}

#[test]
fn names_of_unicode_whitespace_are_blank() {
    let mut settings = BrushSettings::default();
    let mut saved: Vec<Brush> = Vec::new();
    let mut current = brush(1, 1, vec![4]);
    settings.pos_brush_name = String::from("\u{3000}\t\u{a0}\n");
    assert!(!settings.store_current(&mut current, "set_a", 0, &mut saved));
    assert!(saved.is_empty());
    let mut b = brush(1, 1, vec![1]);
    b.name = String::from("\u{2003}Cloud\u{85}");
    b.tileset = String::from("set_a");
    assert!(brush_listed(&b, "set_a", true, "cloud\u{3000}"));
}
