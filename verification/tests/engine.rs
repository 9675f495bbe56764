use stork::brushes::{Brush, BrushSettings, BrushType};
use stork::engine::{
    check_game_version, detect_version, get_gameversion_prettyname, get_level_filename, get_level_filename_eur_11,
    get_level_filename_usa, BgClipboard, DisplayEngineError, DisplaySettings, GameVersion, StorkTheme,
};
use stork::filesys::RomExtractError;
use stork::load::load_sprite_csv;
use stork::parse::{get_course_music_name, is_settings_string_valid};
use stork::sprites::get_sprite_dims_from_flag_value;
use stork::text::{header_to_string, hex_string, latin1_string};
use stork::types::CurrentLayer;

fn arm9_with(offset: usize, text: &[u8]) -> Vec<u8> {
    let mut v = vec![0u8; offset + text.len() + 1];
    v[offset..offset + text.len()].copy_from_slice(text);
    v
}

#[test]
fn usa_10_is_recognised() {
    let arm9 = arm9_with(0xe1e6e, b"1-1_D3");
    assert_eq!(check_game_version("AYWE", "061009.0352", &arm9).unwrap(), GameVersion::USA10);
}

#[test]
fn usa_11_is_recognised() {
    let arm9 = arm9_with(0x0e20ae, b"1-1_D3");
    assert_eq!(check_game_version("AYWE", "061110.1620", &arm9).unwrap(), GameVersion::USA11);
}

#[test]
fn usa_10_without_level_name_is_refused() {
    let arm9 = arm9_with(0xe1e6e, b"XXXXXX");
    let e = check_game_version("AYWE", "061009.0352", &arm9).unwrap_err();
    assert_eq!(e.cause, "Could not find 1-1_D3 in USA 1.0");
}

#[test]
fn other_versions_are_refused() {
    let arm9 = vec![0u8; 16];
    assert_eq!(check_game_version("ABCD", "x", &arm9).unwrap_err().cause, "Game Version is unknown, canceling load");
    assert_eq!(check_game_version("AYWJ", "x", &arm9).unwrap_err().cause, "JPN version not yet supported, will break");
    assert_eq!(check_game_version("AYWE", "x", &arm9).unwrap_err().cause, "Unknown USA version");
    assert_eq!(check_game_version("AYWP", "x", &arm9).unwrap_err().cause, "Unknown EUR version");
    assert_eq!(check_game_version("AYWP", "061009.0352", &arm9).unwrap_err().cause, "EURr0 unsupported");
    assert_eq!(check_game_version("AYWP", "061110.1620", &arm9).unwrap_err().cause, "EURr1 unsupported");
}

#[test]
fn display_engine_error_message() {
    let e = DisplayEngineError::new(String::from("boom"));
    assert_eq!(e.message(), "Error initializing Display Engine: 'boom'");
}

#[test]
fn version_pretty_names() {
    assert_eq!(get_gameversion_prettyname(&GameVersion::USA10), "USA 1.0");
    assert_eq!(get_gameversion_prettyname(&GameVersion::USA11), "USA 1.1 (rev1)");
    assert_eq!(get_gameversion_prettyname(&GameVersion::JAP), "JPN");
    assert_eq!(get_gameversion_prettyname(&GameVersion::UNKNOWN), "Unknown Game Version");
}

/// An ARM9 binary whose level table (at `table`) points level `id` at a
/// name.
fn arm9_level_table(table: usize, id: usize, name: &[u8]) -> Vec<u8> {
    let name_at = 0x100usize;
    let mut v = vec![0u8; table + 4 * (id + 1) + 4];
    v[name_at..name_at + name.len()].copy_from_slice(name);
    let ptr = (0x0200_0000u32 + name_at as u32).to_le_bytes();
    v[table + 4 * id..table + 4 * id + 4].copy_from_slice(&ptr);
    v
}

#[test]
fn usa_level_filename_follows_the_table() {
    // world 1 (index 0), level 1 (index 0) is entry 1
    let arm9 = Some(arm9_level_table(0x000d8f20, 1, b"1-1_D3"));
    assert_eq!(get_level_filename_usa(&0, &0, GameVersion::USA10, &arm9).unwrap(), "1-1_D3");
    assert_eq!(get_level_filename(Some(GameVersion::USA10), &0, &0, &arm9), "1-1_D3");
    let arm9_11 = Some(arm9_level_table(0x000d9178, 12, b"2-2_D3"));
    assert_eq!(get_level_filename_usa(&1, &1, GameVersion::USA11, &arm9_11).unwrap(), "2-2_D3");
}

#[test]
fn usa_level_filename_errors() {
    let none: Option<Vec<u8>> = None;
    assert_eq!(get_level_filename_usa(&5, &0, GameVersion::USA10, &none).unwrap_err(), "World 5 is the highest World");
    assert_eq!(get_level_filename_usa(&0, &10, GameVersion::USA10, &none).unwrap_err(), "There are only 10 levels per World");
    assert_eq!(get_level_filename_usa(&0, &0, GameVersion::USA10, &none).unwrap_err(), "NO BINARY");
    assert_eq!(get_level_filename(Some(GameVersion::USA10), &0, &0, &none), "Error");
    let short = Some(vec![0u8; 8]);
    assert_eq!(
        get_level_filename_usa(&0, &0, GameVersion::USA10, &short).unwrap_err(),
        "Failed to get string address in level name retrieval"
    );
}

#[test]
fn eur_level_filename() {
    let none: Option<Vec<u8>> = None;
    assert_eq!(get_level_filename_eur_11(&0, &0, &none).unwrap(), "0-1_D3");
    assert_eq!(get_level_filename_eur_11(&12, &2, &none).unwrap(), "ene_check_");
    assert_eq!(get_level_filename_eur_11(&12, &7, &none).unwrap(), "0x7f unknown multi");
    assert_eq!(get_level_filename_eur_11(&10, &5, &none).unwrap(), ">99 unknown multi");
    assert_eq!(get_level_filename_eur_11(&0, &1, &none).unwrap_err(), "ERROR, NO BINARY");
    let arm9 = Some(arm9_level_table(0x0d8e58, 11, b"2-1_D3"));
    assert_eq!(get_level_filename_eur_11(&1, &1, &arm9).unwrap(), "2-1_D3");
}

#[test]
fn display_settings_default_and_layers() {
    let mut d = DisplaySettings::default();
    assert_eq!(d.current_layer, CurrentLayer::Sprites);
    assert!(!d.show_breakable_rock);
    assert_eq!(d.stork_theme, StorkTheme::Auto);
    assert!(!d.is_cur_layer_bg());
    d.current_layer = CurrentLayer::BG2;
    assert!(d.is_cur_layer_bg());
    assert_eq!(CurrentLayer::BG2.number(), 2);
    assert_eq!(CurrentLayer::Triggers.number(), 7);
}

#[test]
fn theme_names() {
    assert_eq!(StorkTheme::Dark.name(), "Dark");
    assert_eq!(StorkTheme::Light.name(), "Light");
    assert_eq!(StorkTheme::Auto.name(), "System");
}

#[test]
fn bg_clipboard_clear() {
    let mut c = BgClipboard::default();
    assert!(c.tiles.is_empty());
    c.clear();
    assert!(c.tiles.is_empty());
}

#[test]
fn music_names() {
    assert_eq!(get_course_music_name(0x2), "Yoshi's Island DS");
    assert_eq!(get_course_music_name(0x16), "Bowser");
    assert_eq!(get_course_music_name(0x19), "Silence (Echoes)");
    assert_eq!(get_course_music_name(0x99), "Unknown");
}

#[test]
fn settings_strings() {
    assert!(is_settings_string_valid("00 1f FF", 3));
    assert!(!is_settings_string_valid("00 1f FF", 2));
    assert!(!is_settings_string_valid("00 100", 2));
    assert!(!is_settings_string_valid("00  01", 2));
    assert!(!is_settings_string_valid("zz", 1));
    assert!(!is_settings_string_valid("", 0));
}

#[test]
fn sprite_table_from_text() {
    let csv = "Sprite ID,Name,Description,Settings Length,Notes\n0x2c,Shy Guy,Walks,0x4,x\r\n0x1,Coin,Spins,2,\nnope,Nope,Nope,1,\n0x2c,Shy Guy 2,Walks,zz,\n";
    let m = load_sprite_csv(csv);
    assert_eq!(m.len(), 2);
    let coin = m.get(&1).expect("coin");
    assert_eq!(coin.name, "Coin");
    assert_eq!(coin.default_settings_len, 2);
    let shy = m.get(&0x2c).expect("shy guy");
    assert_eq!(shy.name, "Shy Guy 2");
    assert_eq!(shy.default_settings_len, 0xffff);
}

#[test]
fn sprite_table_first_line_counts_when_it_is_an_entry() {
    let m = load_sprite_csv("0x10,Egg,Thrown,0x8");
    assert_eq!(m.get(&0x10).expect("egg").default_settings_len, 8);
}

#[test]
fn text_helpers() {
    assert_eq!(header_to_string(0x4E454353), "SCEN");
    assert_eq!(hex_string(0xab, 0), "AB");
    assert_eq!(hex_string(0x5, 4), "0005");
    assert_eq!(hex_string(0x12345, 2), "12345");
    assert_eq!(latin1_string(&[0x41, 0xe9]), "A\u{e9}");
}

#[test]
fn sprite_dims() {
    assert_eq!(get_sprite_dims_from_flag_value(0x0), (1, 1));
    assert_eq!(get_sprite_dims_from_flag_value(0x3), (8, 8));
    assert_eq!(get_sprite_dims_from_flag_value(0xB), (8, 4));
    assert_eq!(get_sprite_dims_from_flag_value(0x13), (4, 8));
    assert_eq!(get_sprite_dims_from_flag_value(0x1f), (2, 2));
}

#[test]
fn rom_extract_error_messages() {
    assert_eq!(RomExtractError::FailedToOpenRom(String::from("a.nds")).message(), "Failed to open ROM file 'a.nds'");
    assert_eq!(RomExtractError::GenericFail.message(), "Open ROM failed");
    assert_eq!(
        RomExtractError::LoadFileWithInvalidName(String::from("x")).message(),
        "Attempted to load file with invalid name: 'x'"
    );
}

#[test]
fn brushes() {
    let mut b = Brush::default();
    assert_eq!(b.tileset, "char01c");
    assert_eq!(b.name, "Blank/Example");
    b.tiles = vec![0x1234, 1];
    b.width = 2;
    b.height = 1;
    assert_eq!(b.describe(), "Brush [ name='Blank/Example', tileset=char01c, width/height=0x2/0x1, first_tile=1234 ]");
    b.clear();
    assert!(b.tiles.is_empty());
    assert_eq!((b.width, b.height), (0, 0));
    assert_eq!(b.name, "NAME CLEARED");
    let s = BrushSettings::default();
    assert!(s.cur_selected_brush.is_none());
    assert_eq!(s.pos_brush_name, "Untitled Brush");
    assert!(s.only_show_same_tileset);
    assert_ne!(BrushType::Stored, BrushType::Saved);
}

fn brush_from_json(text: &str) -> Brush {
    let v: serde_json::Value = serde_json::from_str(text).expect("Brush should parse properly");
    let small = |k: &str| -> u8 {
        u8::try_from(v[k].as_u64().expect("Brush should parse properly")).expect("Brush should parse properly")
    };
    Brush {
        tileset: v["tileset"].as_str().expect("Brush should parse properly").to_string(),
        name: v["name"].as_str().expect("Brush should parse properly").to_string(),
        width: small("width"),
        height: small("height"),
        palette_offset: small("palette_offset"),
        tiles: v["tiles"]
            .as_array()
            .expect("Brush should parse properly")
            .iter()
            .map(|t| u16::try_from(t.as_u64().expect("Brush should parse properly")).expect("Brush should parse properly"))
            .collect(),
    }
}

#[test]
fn test_parse() {
    let test_json_str = r#"
        {
            "tileset": "test_tiles",
            "name": "test brush",
            "width": 2,
            "height": 2,
            "palette_offset": 3,
            "tiles": [
                1234,
                4321,
                1111,
                2222
            ]
        }
    "#;
    let b: Brush = brush_from_json(test_json_str);
    assert_eq!(b.tileset, "test_tiles");
    assert_eq!(b.name, "test brush");
    assert_eq!(b.width, 2);
    assert_eq!(b.height, 2);
    assert_eq!(b.palette_offset, 3);
    assert_eq!(b.tiles.len(), 4);
    assert_eq!(b.tiles[0], 1234);
    assert_eq!(b.tiles[3], 2222);
}

#[test]
#[should_panic]
fn test_parse_failure() {
    let test_json_str = r#"
        {
            "tileset": "test_tiles",
            "name": "test brush",
            "width": 257,
            "height": 2,
            "palette_offset": 3,
            "tiles": [
                1234,
                4321,
                1111,
                2222
            ]
        }
    "#;
    let _b: Brush = brush_from_json(test_json_str);
}

#[test]
fn version_from_header_yaml() {
    let arm9 = arm9_with(0xe1e6e, b"1-1_D3");
    let yaml = "gamecode: AYWE\nmakercode: '01'\n";
    assert_eq!(detect_version("061009.0352", yaml, &arm9).unwrap(), GameVersion::USA10);
    assert_eq!(detect_version("x", "gamecode: AYWJ\n", &arm9).unwrap_err().cause, "JPN version not yet supported, will break");
    assert_eq!(detect_version("061009.0352", "makercode: '01'\n", &arm9).unwrap_err().cause, "No game code in header.yaml");
    assert_eq!(detect_version("061009.0352", "gamecode: [unclosed\n", &arm9).unwrap_err().cause, "No game code in header.yaml");
}
