use std::collections::HashMap;

use stork::alph::AlphaData;
use stork::area::TriggerData;
use stork::brak::BrakData;
use stork::compression::lamezip77_lz10_decomp;
use stork::mapfile::{MapData, MapDataError, TopLevelSegmentWrapper};
use stork::rarc::RenderArchive;
use stork::segments::GenericTopLevelSegment;
use stork::sprites::{LevelSprite, LevelSpriteSet, SpriteMetadata};

fn sample_map() -> MapData {
    let mut m = MapData::default();
    let sprites = LevelSpriteSet::new(&vec![0x2c, 0x00, 0x00, 0x00, 0x10, 0x00, 0x20, 0x00]);
    m.segments.push(TopLevelSegmentWrapper::SETD(sprites));
    m.segments.push(TopLevelSegmentWrapper::ALPH(AlphaData { bldcnt: 0x3f41, bldalpha: 0x0610 }));
    m.segments.push(TopLevelSegmentWrapper::AREA(TriggerData::new(&[1u8, 0, 2, 0, 3, 0, 4, 0])));
    m.segments.push(TopLevelSegmentWrapper::BRAK(BrakData::new(&vec![9u8, 9, 9, 9])));
    m.segments.push(TopLevelSegmentWrapper::Unknown(GenericTopLevelSegment::new(vec![1u8, 2, 3, 4], String::from("WXYZ"))));
    m
}

#[test]
fn packaged_map_reads_back() {
    let m = sample_map();
    let packed = m.package();
    let unpacked = lamezip77_lz10_decomp(&packed);
    assert_eq!(&unpacked[0..4], &[b'S', b'E', b'T', 0]);
    let back = MapData::load(String::from("0-1_D3.mpdz"), &packed, &Vec::new())
        .expect("readable map")
        .expect("no error");
    assert_eq!(back.src_file, "0-1_D3.mpdz");
    assert_eq!(back.segments.len(), 5);
    assert_eq!(back.unhandled_headers, vec![String::from("WXYZ")]);
    assert_eq!(back.compile(), m.compile());
    match &back.segments[1] {
        TopLevelSegmentWrapper::ALPH(a) => assert_eq!((a.bldcnt, a.bldalpha), (0x3f41, 0x0610)),
        _ => panic!("second segment should be ALPH"),
    }
}

#[test]
fn map_file_without_set_header_is_refused() {
    let r = MapData::from_decomp(String::from("x"), &[b'A', b'B', b'C', 0, 0, 0, 0, 0], &Vec::new());
    assert_eq!(r.err(), Some(MapDataError::HeaderWasntSet(['A', 'B', 'C'])));
}

#[test]
fn map_file_too_short_is_refused() {
    let r = MapData::from_decomp(String::from("x"), &[b'S', b'E'], &Vec::new());
    assert_eq!(r.err(), Some(MapDataError::MasterHeaderNotFound));
}

#[test]
fn map_file_with_truncated_segment_cannot_be_loaded() {
    let mut raw = vec![b'S', b'E', b'T', 0, 12, 0, 0, 0, b'B', b'R', b'A', b'K', 8, 0, 0, 0, 1, 2];
    raw.truncate(18);
    let packed = stork::compression::lamezip77_lz10_recomp(&raw);
    assert!(MapData::load(String::from("x"), &packed, &Vec::new()).is_none());
}

#[test]
fn sprite_editing_on_a_map() {
    let mut m = sample_map();
    let first = match &m.segments[0] {
        TopLevelSegmentWrapper::SETD(s) => s.sprites[0].uuid,
        _ => panic!("SETD first"),
    };
    m.move_sprite(first, 0x30, 0x40);
    let got = m.get_sprite_by_uuid(first).expect("sprite exists");
    assert_eq!((got.x_position, got.y_position), (0x30, 0x40));

    let added = m.add_sprite(LevelSprite::new(0x99, 1, 2, vec![7, 7]));
    assert_eq!(m.get_sprite_by_uuid(added).unwrap().object_id, 0x99);
    m.update_sprite_settings(added, vec![1, 2]);
    assert_eq!(m.get_sprite_by_uuid(added).unwrap().settings, vec![1, 2]);
    // a different length is refused
    m.update_sprite_settings(added, vec![1, 2, 3]);
    assert_eq!(m.get_sprite_by_uuid(added).unwrap().settings, vec![1, 2]);

    assert!(m.delete_sprite_by_uuid(added));
    assert!(m.get_sprite_by_uuid(added).is_none());
    assert!(!m.delete_sprite_by_uuid(added));
}

#[test]
fn new_sprite_from_metadata() {
    let mut m = sample_map();
    let mut meta: HashMap<u16, SpriteMetadata> = HashMap::new();
    let mut sm = SpriteMetadata::default();
    sm.sprite_id = 0x12;
    sm.default_settings_len = 4;
    meta.insert(0x12, sm);
    let id = m.add_new_sprite_at(0x12, 5, 6, &meta);
    let s = m.get_sprite_by_uuid(id).expect("added");
    assert_eq!(s.settings, vec![0, 0, 0, 0]);
    assert_eq!((s.x_position, s.y_position), (5, 6));
    assert_eq!(m.add_new_sprite_at(0x77, 5, 6, &meta), 0);
}

#[test]
fn map_segment_lookups() {
    let mut m = sample_map();
    assert!(m.get_setd().is_some());
    assert!(m.get_area().is_some());
    assert!(m.get_grad().is_none());
    assert!(m.get_path().is_none());
    assert!(m.get_blkz().is_none());
    assert!(m.get_background(1).is_none());
    assert_eq!(m.get_bg_with_colz(), None);
    assert!(!m.set_col_tile(1, 0, 1));
    assert!(!m.place_bg_tile_at_map_index(2, 0, 5));
}

#[test]
fn render_archive_reads_obar_segments() {
    let raw = vec![b'O', b'B', b'A', b'R', 12, 0, 0, 0, b'A', b'B', b'C', b'D', 4, 0, 0, 0, 1, 2, 3, 4];
    let packed = stork::compression::lamezip77_lz10_recomp(&raw);
    let a = RenderArchive::load(String::from("obj.arcz"), &packed).expect("readable");
    assert_eq!(a.src_file, "obj.arcz");
    assert_eq!(a.segments.len(), 1);
    assert_eq!(a.segments[0].header, 0x44434241);
    assert_eq!(a.segments[0].internal_data, vec![1, 2, 3, 4]);
}

#[test]
fn render_archive_with_other_name_is_default() {
    let raw = vec![b'N', b'O', b'P', b'E', 0, 0, 0, 0];
    let a = RenderArchive::from_decomp(String::from("x"), &raw);
    assert!(a.segments.is_empty());
    assert_eq!(a.src_file, "ERROR");
}
