use stork::course::{exit_type_name, CourseInfo, CourseMapInfo, MapEntrance, MapExit};
use stork::types::Compilable;

#[test]
fn exit_type_names() {
    assert_eq!(exit_type_name(0x0), "0: Walk Right (Silent)");
    assert_eq!(exit_type_name(0x5), "5: Blue Door Unlocked");
    assert_eq!(exit_type_name(0xC), "C: Area Trigger (Pipe)");
    assert_eq!(exit_type_name(0xD), "D: Minigame Exit");
    assert_eq!(exit_type_name(0x8), "Type 0x8");
    assert_eq!(exit_type_name(0x1234), "Type 0x1234");
}

#[test]
fn entrance_and_exit_bytes() {
    let e = MapEntrance { entrance_x: 0x10, entrance_y: 0x20, entrance_flags: 0x8009, label: String::new(), uuid: 1 };
    assert_eq!(e.compile(), vec![0x10, 0, 0x20, 0, 0x09, 0x80]);
    let x = MapExit {
        exit_x: 1,
        exit_y: 2,
        exit_type: 5,
        target_map_raw: 3,
        target_map: 0,
        target_map_entrance_raw: 4,
        target_map_entrance: 0,
        label: String::new(),
        uuid: 2,
    };
    assert_eq!(x.compile(), vec![1, 0, 2, 0, 5, 0, 3, 4]);
}

#[test]
fn default_entrance_and_exit() {
    let e = MapEntrance::default();
    assert_eq!((e.entrance_x, e.entrance_y, e.entrance_flags), (2, 2, 0x8000));
    assert!(e.label.starts_with("Entrance "));
    let x = MapExit::default();
    assert_eq!((x.exit_x, x.exit_y, x.exit_type), (0x10, 0x10, 5));
    assert!(x.label.starts_with("Exit "));
}

#[test]
fn template_map_has_one_entrance_and_one_exit() {
    let m = CourseMapInfo::from_template("1-1_D3x");
    assert_eq!(m.map_entrances.len(), 1);
    assert_eq!(m.map_exits.len(), 1);
    assert_eq!(m.map_filename_noext, "1-1_D3x");
    assert_eq!(m.label, "1-1_D3x");
    assert_eq!(m.map_music, 0);
}

#[test]
fn map_info_compiles_counts_name_and_records() {
    let m = CourseMapInfo::from_template("abcdefg");
    let c = m.compile();
    // counts, music, name with terminator, eight zero bytes
    assert_eq!(&c[0..4], &[1, 0, 1, 0]);
    assert_eq!(&c[4..12], b"abcdefg\0");
    assert_eq!(&c[12..20], &[0u8; 8]);
    // entrance, padding to four, exit
    assert_eq!(&c[20..26], &[2, 0, 2, 0, 0, 0x80]);
    assert_eq!(&c[26..28], &[0, 0]);
    assert_eq!(&c[28..36], &[0x10, 0, 0x10, 0, 5, 0, 0, 0]);
    assert_eq!(c.len(), 36);
}

#[test]
fn adding_and_deleting_entrances_and_exits() {
    let mut m = CourseMapInfo::from_template("abcdefg");
    let e = m.add_entrance();
    assert_eq!(m.map_entrances.len(), 2);
    assert_eq!(m.map_entrances[1].label, "Entrance 0x1");
    assert_eq!(m.map_entrances[1].entrance_flags, 0x8009);
    assert_eq!(m.get_entrance_index(&e), Some(1));
    assert!(m.get_entrance(&e).is_some());
    let x = m.add_exit();
    assert_eq!(m.map_exits[1].label, "Exit 0x1");
    assert_eq!(m.map_exits[1].target_map_raw, 0xff);
    m.get_exit(&x).expect("just added").exit_type = 7;
    assert_eq!(m.map_exits[1].exit_type, 7);
    assert!(m.delete_exit(x));
    assert!(!m.delete_exit(x));
    assert!(m.delete_entrance(e));
    assert_eq!(m.get_entrance_index(&e), None);
}

#[test]
fn course_roundtrip_through_its_file() {
    let mut course = CourseInfo::default();
    course.add_template_map("abcdefg");
    course.add_template_map("hijklmn");
    course.level_map_data[0].map_exits[0].target_map = course.level_map_data[1].uuid;
    course.level_map_data[0].map_exits[0].target_map_entrance = course.level_map_data[1].map_entrances[0].uuid;
    let bytes = course.wrap();
    assert_eq!(&bytes[0..4], b"CRSB");
    assert_eq!(course.level_map_data[0].map_exits[0].target_map_raw, 1);
    let back = CourseInfo::new(&bytes, String::from("course.crsb"), &String::from("Course 1-1"));
    assert_eq!(back.level_map_data.len(), 2);
    assert_eq!(back.src_filename, "course.crsb");
    assert_eq!(back.label, "Course 1-1");
    assert_eq!(back.level_map_data[1].map_filename_noext, "hijklmn");
    assert_eq!(back.level_map_data[1].label, "0x1: hijklmn");
    let exit = &back.level_map_data[0].map_exits[0];
    assert_eq!((exit.target_map_raw, exit.target_map_entrance_raw), (1, 0));
    assert_eq!(exit.target_map, back.level_map_data[1].uuid);
    assert_eq!(exit.target_map_entrance, back.level_map_data[1].map_entrances[0].uuid);
    assert_eq!(back.compile(), course.compile());
}

#[test]
fn course_too_short_is_default() {
    let c = CourseInfo::new(&[1u8, 2], String::from("x"), &String::from("y"));
    assert!(c.level_map_data.is_empty());
    assert_eq!(c.src_filename, "ERROR");
    assert_eq!(c.label, "DEFAULT");
}

#[test]
fn deleting_a_map_repairs_exits() {
    let mut course = CourseInfo::default();
    course.add_template_map("aaaaaaa");
    course.add_template_map("bbbbbbb");
    course.add_template_map("ccccccc");
    // the third map's exit leads to the second map
    course.level_map_data[2].map_exits[0].target_map_raw = 1;
    course.update_exit_uuids();
    assert!(course.delete_map_info_by_index(1));
    assert_eq!(course.level_map_data.len(), 2);
    assert!(!course.delete_map_info_by_index(5));
    // every exit now leads to an existing map and entrance
    for m in &course.level_map_data {
        for e in &m.map_exits {
            assert!((e.target_map_raw as usize) < course.level_map_data.len());
            let target = &course.level_map_data[e.target_map_raw as usize];
            assert_eq!(e.target_map, target.uuid);
            assert!((e.target_map_entrance_raw as usize) < target.map_entrances.len());
        }
    }
}

#[test]
fn fix_exits_links_every_exit_when_maps_have_entrances() {
    let mut course = CourseInfo::default();
    course.add_template_map("aaaaaaa");
    course.level_map_data[0].map_exits[0].target_map_raw = 9;
    course.level_map_data[0].map_exits[0].target_map_entrance_raw = 9;
    course.fix_exits();
    let e = &course.level_map_data[0].map_exits[0];
    assert_eq!(e.target_map, course.level_map_data[0].uuid);
    assert_eq!(e.target_map_entrance, course.level_map_data[0].map_entrances[0].uuid);
}

#[test]
fn positions_survive_identifiers_and_back() {
    let mut course = CourseInfo::default();
    course.add_template_map("aaaaaaa");
    course.add_template_map("bbbbbbb");
    course.add_template_map("ccccccc");
    course.level_map_data[1].add_entrance();
    course.level_map_data[0].map_exits[0].target_map_raw = 1;
    course.level_map_data[0].map_exits[0].target_map_entrance_raw = 1;
    course.level_map_data[2].map_exits[0].target_map_raw = 2;
    let before: Vec<(u8, u8)> = course
        .level_map_data
        .iter()
        .flat_map(|m| m.map_exits.iter().map(|e| (e.target_map_raw, e.target_map_entrance_raw)))
        .collect();
    course.update_exit_uuids();
    assert_eq!(course.level_map_data[0].map_exits[0].target_map_entrance, course.level_map_data[1].map_entrances[1].uuid);
    let _ = course.wrap();
    let after: Vec<(u8, u8)> = course
        .level_map_data
        .iter()
        .flat_map(|m| m.map_exits.iter().map(|e| (e.target_map_raw, e.target_map_entrance_raw)))
        .collect();
    assert_eq!(before, vec![(1, 1), (0, 0), (2, 0)]);
    assert_eq!(after, before);
}
