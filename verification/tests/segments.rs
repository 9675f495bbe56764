use stork::alph::AlphaData;
use stork::area::{Trigger, TriggerData};
use stork::blkz::SoftRockBackdrop;
use stork::brak::BrakData;
use stork::compression::{lamezip77_lz10_decomp, lamezip77_lz10_recomp, segment_wrap, segment_wrap_u32};
use stork::grad::GradientData;
use stork::path::PathDatabase;
use stork::scen::info::ScenInfoData;
use stork::scen::mpbz::MapTileDataSegment;
use stork::scen::ScenSegment;
use stork::scen::scrl::ScrollData;
use stork::segments::{DataSegment, GenericTopLevelSegment, TopLevelSegment};
use stork::sprites::{LevelSprite, LevelSpriteSet};
use stork::types::{Compilable, MapTileRecordData};

#[test]
fn alpha_reads_two_registers_and_writes_them_back() {
    let body = vec![0x41u8, 0x3f, 0x10, 0x06];
    let a = AlphaData::new(&body).expect("four bytes are enough");
    assert_eq!(a.bldcnt, 0x3f41);
    assert_eq!(a.bldalpha, 0x0610);
    assert_eq!(a.compile(), body);
    assert_eq!(a.header(), "ALPH");
}

#[test]
fn alpha_refuses_short_data() {
    assert!(AlphaData::new(&[1u8, 2, 3]).is_none());
}

#[test]
fn alpha_default_is_all_ones() {
    let a = AlphaData::default();
    assert_eq!(a.bldcnt, 0xffff);
    assert_eq!(a.bldalpha, 0xffff);
}

#[test]
fn segment_wrap_pads_to_four_bytes() {
    let data = vec![1u8, 2, 3, 4, 5];
    let w = segment_wrap(&data, String::from("ALPH"));
    assert_eq!(w, vec![b'A', b'L', b'P', b'H', 8, 0, 0, 0, 1, 2, 3, 4, 5, 0, 0, 0]);
}

#[test]
fn segment_wrap_with_bad_magic_gives_nothing() {
    let data = vec![1u8, 2];
    assert!(segment_wrap(&data, String::from("TOOLONG")).is_empty());
}

#[test]
fn segment_wrap_u32_writes_the_number_little_endian() {
    let data = vec![9u8, 8, 7, 6];
    let w = segment_wrap_u32(&data, 0x4E454353);
    assert_eq!(w, vec![b'S', b'C', b'E', b'N', 4, 0, 0, 0, 9, 8, 7, 6]);
}

#[test]
fn brak_is_kept_byte_for_byte() {
    let data = vec![5u8, 6, 7];
    let b = BrakData::new(&data);
    assert_eq!(b.compile(), data);
    assert_eq!(b.wrap(), vec![b'B', b'R', b'A', b'K', 4, 0, 0, 0, 5, 6, 7, 0]);
}

#[test]
fn generic_segment_wraps_with_its_name() {
    let g = GenericTopLevelSegment::new(vec![1u8, 2, 3, 4], String::from("ABCD"));
    assert_eq!(g.header(), "ABCD");
    assert_eq!(g.wrap(), vec![b'A', b'B', b'C', b'D', 4, 0, 0, 0, 1, 2, 3, 4]);
}

#[test]
fn data_segment_from_container_bytes() {
    let bytes = vec![b'S', b'E', b'T', b'D', 2, 0, 0, 0, 0xaa, 0xbb];
    let d = DataSegment::_new_from_bytes(&bytes);
    assert_eq!(d.header, 0x44544553);
    assert_eq!(d.internal_data, vec![0xaa, 0xbb]);
    let n = DataSegment::new(&vec![1u8], String::from("SETD"));
    assert_eq!(n.header, 0x44544553);
    assert_eq!(n.internal_data, vec![1]);
}

fn grad_body() -> Vec<u8> {
    let mut v = vec![b'G', b'I', b'N', b'F', 0x0c, 0, 0, 0];
    v.extend_from_slice(&[2, 0]); // colour count
    v.extend_from_slice(&[0xff, 0xff]); // unknown1 = -1
    v.extend_from_slice(&[3, 0]); // unknown2
    v.extend_from_slice(&[0, 0]); // padding
    v.extend_from_slice(&[0x10, 0, 0, 0]); // y offset
    v.extend_from_slice(&[b'G', b'C', b'O', b'L', 4, 0, 0, 0]);
    v.extend_from_slice(&[0xff, 0x7f, 0x1f, 0x00]);
    v
}

#[test]
fn gradient_reads_fields_and_colours() {
    let g = GradientData::new(&grad_body()).expect("well-formed GRAD");
    assert_eq!(g.color_count, 2);
    assert_eq!(g.unknown1, -1);
    assert_eq!(g.unknown2, 3);
    assert_eq!(g.y_offset, 0x10);
    assert_eq!(g.color_shorts, vec![0x7fff, 0x001f]);
}

#[test]
fn gradient_roundtrip() {
    let body = grad_body();
    let g = GradientData::new(&body).unwrap();
    assert_eq!(g.compile(), body);
}

#[test]
fn gradient_refuses_wrong_name() {
    let mut body = grad_body();
    body[0] = b'X';
    assert!(GradientData::new(&body).is_none());
}

#[test]
fn gradient_refuses_too_few_colours() {
    let mut body = grad_body();
    body.truncate(30);
    assert!(GradientData::new(&body).is_none());
}

#[test]
fn triggers_read_one_per_eight_bytes() {
    let body = vec![1u8, 0, 2, 0, 3, 0, 4, 0, 0x10, 0, 0x20, 0, 0x30, 0, 0x40, 0];
    let t = TriggerData::new(&body);
    assert_eq!(t.triggers.len(), 2);
    assert_eq!((t.triggers[1].left_x, t.triggers[1].top_y, t.triggers[1].right_x, t.triggers[1].bottom_y), (0x10, 0x20, 0x30, 0x40));
    assert_eq!(t.compile(), body);
    assert_ne!(t.triggers[0].uuid, t.triggers[1].uuid);
}

#[test]
fn trigger_delete_removes_only_the_named_one() {
    let body = vec![1u8, 0, 2, 0, 3, 0, 4, 0, 5, 0, 6, 0, 7, 0, 8, 0];
    let mut t = TriggerData::new(&body);
    let gone = t.triggers[0].uuid;
    assert!(t.delete(gone));
    assert_eq!(t.triggers.len(), 1);
    assert_eq!(t.triggers[0].left_x, 5);
    assert!(!t.delete(gone));
    assert_eq!(t.triggers.len(), 1);
}

#[test]
fn trigger_compiles_its_rectangle() {
    let t = Trigger::new(0x0102, 3, 4, 0xffff);
    assert_eq!(t.compile(), vec![2, 1, 3, 0, 4, 0, 0xff, 0xff]);
}

fn path_body() -> Vec<u8> {
    let mut v = vec![2u8, 0, 0, 0];
    // line one: two points, the second ends it
    v.extend_from_slice(&[0x00, 0x10, 0x20, 0x00, 1, 0, 0, 0, 2, 0, 0, 0]);
    v.extend_from_slice(&[0x00, 0x00, 0x00, 0x00, 3, 0, 0, 0, 4, 0, 0, 0]);
    // line two: one point
    v.extend_from_slice(&[0xff, 0xff, 0x00, 0x00, 5, 0, 0, 0, 6, 0, 0, 0]);
    v
}

#[test]
fn path_reads_lines_up_to_zero_distance() {
    let p = PathDatabase::new(&path_body());
    assert_eq!(p.path_count, 2);
    assert_eq!(p.lines.len(), 2);
    assert_eq!(p.lines[0].points.len(), 2);
    assert_eq!(p.lines[0].points[0].angle, 0x1000);
    assert_eq!(p.lines[0].points[0].distance, 0x20);
    assert_eq!(p.lines[1].points[0].angle, -1);
    assert_eq!(p.lines[1].points[0].y_fine, 6);
}

#[test]
fn path_roundtrip() {
    let body = path_body();
    assert_eq!(PathDatabase::new(&body).compile(), body);
}

#[test]
fn path_delete_line() {
    let mut p = PathDatabase::new(&path_body());
    let second = p.lines[1].uuid;
    assert!(p.delete_line(second).is_ok());
    assert_eq!(p.lines.len(), 1);
    assert!(p.delete_line(second).is_err());
}

#[test]
fn path_short_body_is_empty() {
    let p = PathDatabase::new(&vec![1u8, 2]);
    assert_eq!(p.path_count, 0);
    assert!(p.lines.is_empty());
}

fn setd_body() -> Vec<u8> {
    vec![
        0x2c, 0x00, 0x02, 0x00, 0x10, 0x00, 0x20, 0x00, 0xaa, 0xbb, // sprite 0x2c with two bytes
        0x05, 0x00, 0x00, 0x00, 0x30, 0x00, 0x40, 0x00, // sprite 5 without settings
    ]
}

#[test]
fn sprites_read_and_write_back() {
    let body = setd_body();
    let set = LevelSpriteSet::new(&body);
    assert_eq!(set.sprites.len(), 2);
    assert_eq!(set.sprites[0].object_id, 0x2c);
    assert_eq!(set.sprites[0].settings, vec![0xaa, 0xbb]);
    assert_eq!(set.sprites[1].x_position, 0x30);
    assert_eq!(set.compile(), body);
}

#[test]
fn sprite_from_cursor_gives_next_position() {
    let body = setd_body();
    let (s, next) = LevelSprite::from_cursor(&body, 0);
    assert_eq!(next, 10);
    assert_eq!(s.y_position, 0x20);
    let (t, end) = LevelSprite::from_cursor(&body, next);
    assert_eq!(end, body.len());
    assert_eq!(t.object_id, 5);
}

#[test]
fn sprite_new_and_compile() {
    let s = LevelSprite::new(0x12, 3, 4, vec![9, 8]);
    assert_eq!(s.settings_length, 2);
    assert_eq!(s.compile(), vec![0x12, 0, 2, 0, 3, 0, 4, 0, 9, 8]);
}

#[test]
fn tile_record_decodes_and_encodes() {
    let t = MapTileRecordData::new(0xfc05);
    assert_eq!(t.tile_id, 0x005);
    assert!(t.flip_h);
    assert!(t.flip_v);
    assert_eq!(t.palette_id, 0xf);
    assert_eq!(t.to_short(), 0xfc05);
    assert_eq!(t.compile(), vec![0x05, 0xfc]);
}

#[test]
fn lz10_roundtrip_on_repetitive_data() {
    let mut data: Vec<u8> = Vec::new();
    for i in 0..300u32 {
        data.push((i % 7) as u8);
    }
    let packed = lamezip77_lz10_recomp(&data);
    assert_eq!(&packed[0..4], &[0x10, 0x2c, 0x01, 0x00]);
    assert!(packed.len() < data.len());
    assert_eq!(lamezip77_lz10_decomp(&packed), data);
}

#[test]
fn lz10_decompresses_literals() {
    let packed = vec![0x10u8, 4, 0, 0, 0x00, 1, 2, 3, 4];
    assert_eq!(lamezip77_lz10_decomp(&packed), vec![1, 2, 3, 4]);
}

#[test]
fn blkz_roundtrip_through_compression() {
    let body = vec![1u8, 0, 2, 0, 2, 0, 1, 0, 0x34, 0x12, 0x01, 0x00];
    let packed = lamezip77_lz10_recomp(&body);
    let b = SoftRockBackdrop::load(&packed).expect("readable BLKZ");
    assert_eq!((b.x_offset, b.y_offset, b.width, b.height), (1, 2, 2, 1));
    assert_eq!(b.tiles.len(), 2);
    assert_eq!(b.tiles[0].to_short(), 0x1234);
    assert_eq!(b.compile(), body);
}

#[test]
fn blkz_refuses_odd_tile_data() {
    let body = vec![1u8, 0, 2, 0, 2, 0, 1, 0, 0x34];
    let packed = lamezip77_lz10_recomp(&body);
    assert!(SoftRockBackdrop::load(&packed).is_none());
}

#[test]
fn scroll_reads_two_velocities() {
    let data = vec![0xffu8, 0xff, 0xff, 0xff, 0x00, 0x10, 0x00, 0x00];
    let (s, next) = ScrollData::new(&data, 0);
    assert_eq!(s.left_velocity, -1);
    assert_eq!(s.up_velocity, 0x1000);
    assert_eq!(next, 8);
    let (z, end) = ScrollData::new(&data, 8);
    assert_eq!((z.left_velocity, z.up_velocity, end), (0, 0, 8));
}

#[test]
fn mpbz_reads_offsets_and_recompiles() {
    let body = vec![0xffu8, 0xff, 1, 0, 0, 0, 0x01, 0x00, 0x02, 0x00];
    let m = MapTileDataSegment::from_decomped_vec(&body, 2);
    assert_eq!(m.tile_offset, 1);
    assert_eq!(m.bottom_trim, 0);
    assert_eq!(m.tiles.len(), 4);
    assert_eq!(m.tiles[0].to_short(), 0);
    assert_eq!(m.tiles[3].to_short(), 2);
}

#[test]
fn mpbz_recompile_matches_the_body_it_came_from() {
    let body = vec![0xffu8, 0xff, 1, 0, 0, 0, 0x01, 0x00, 0x02, 0x00];
    let m = MapTileDataSegment::from_decomped_vec(&body, 2);
    let mut info = ScenInfoData::default();
    info.layer_width = 2;
    assert_eq!(m.compile(Some(&info)), body);
    assert!(m.test_against_raw_decomp(Some(&info), &body));
    assert!(!m.test_against_raw_decomp(Some(&info), &vec![0u8, 0]));
    assert!(m.compile(None).is_empty());
}

#[test]
fn mpbz_without_offsets_is_all_tiles() {
    let body = vec![0x05u8, 0x10, 0x06, 0x20];
    let m = MapTileDataSegment::from_decomped_vec(&body, 2);
    assert_eq!((m.tile_offset, m.bottom_trim), (0, 0));
    assert_eq!(m.tiles.len(), 2);
    let mut info = ScenInfoData::default();
    info.layer_width = 2;
    assert_eq!(m.compile(Some(&info)), body);
}

#[test]
fn scen_info_default_names_no_layer() {
    let i = ScenInfoData::default();
    assert_eq!((i.layer_width, i.layer_height, i.height_offset), (0, 0, 0xffff));
    assert_eq!((i.which_bg, i.color_mode), (0xff, 0xff));
    assert!(i.imbz_filename_noext.is_none());
}

#[test]
fn info_reads_back_what_it_wrote() {
    let mut info = ScenInfoData::default();
    info.layer_width = 0x40;
    info.layer_height = 0x20;
    info.height_offset = 3;
    info.x_scroll = 0x1000;
    info.y_scroll = 0x800;
    info.which_bg = 2;
    info.layer_order = 1;
    info.char_base_block = 4;
    info.screen_base_block = 5;
    info.color_mode = 1;
    info.imbz_filename_noext = Some(b"objset".to_vec());
    let bytes = info.compile(None);
    assert_eq!(bytes.len() % 4, 0);
    let (back, next) = ScenInfoData::new(&bytes, 0, bytes.len() as u32).expect("INFO fits");
    assert_eq!(next, bytes.len());
    assert_eq!(back, info);
    assert!(back.is_256_colorpal_mode());
}

#[test]
fn fresh_identifiers_are_version_four() {
    let t = Trigger::new(1, 2, 3, 4);
    assert_eq!((t.uuid >> 76) & 0xf, 4);
    assert_eq!((t.uuid >> 62) & 0x3, 2);
    let s = LevelSprite::new(1, 2, 3, vec![]);
    assert_ne!(s.uuid, 0);
    assert_ne!(s.uuid, t.uuid);
}
