//! Editor state that is not tied to one layer: display settings, the game
//! version, the background clipboard, and finding level files in the
//! game's ARM9 binary.
use vstd::prelude::*;
use vstd::string::*;
use crate::bytes::{c_str_end, le32, read_c_string, read_u32};
use crate::text::{latin1, latin1_string};
use crate::types::{CurrentLayer, MapTileRecordData};

verus! {

/// The editor's colour theme.
#[derive(Clone, Copy, PartialEq, Eq, Structural, Debug)]
pub enum StorkTheme {
    Dark,
    Light,
    Auto,
}

pub open spec fn theme_name(t: StorkTheme) -> Seq<char> {
    match t {
        StorkTheme::Dark => "Dark"@,
        StorkTheme::Light => "Light"@,
        StorkTheme::Auto => "System"@,
    }
}

impl StorkTheme {
    /// The theme's name as the editor shows it.
    pub fn name(&self) -> (r: String)
        ensures
            r@ == theme_name(*self),
    {
        match self {
            StorkTheme::Dark => String::from_str("Dark"),
            StorkTheme::Light => String::from_str("Light"),
            StorkTheme::Auto => String::from_str("System"),
        }
    }
}

/// What the editor shows; not tied to one layer's data.
pub struct DisplaySettings {
    pub current_layer: CurrentLayer,
    pub show_bg1: bool,
    pub show_bg2: bool,
    pub show_bg3: bool,
    pub show_col: bool,
    pub show_sprites: bool,
    pub show_paths: bool,
    pub show_entrances: bool,
    pub show_exits: bool,
    pub show_breakable_rock: bool,
    pub show_triggers: bool,
    pub stork_theme: StorkTheme,
    pub show_box_for_rendered: bool,
}

impl Default for DisplaySettings {
    /// Everything shown but the breakable-rock overlay; the sprite layer
    /// selected; the system theme.
    fn default() -> (r: Self)
        ensures
            r.current_layer == CurrentLayer::Sprites,
            r.show_bg1 && r.show_bg2 && r.show_bg3 && r.show_col && r.show_sprites && r.show_paths,
            r.show_entrances && r.show_exits && r.show_triggers && r.show_box_for_rendered,
            !r.show_breakable_rock,
            r.stork_theme == StorkTheme::Auto,
    {
        DisplaySettings {
            current_layer: CurrentLayer::Sprites,
            show_bg1: true,
            show_bg2: true,
            show_bg3: true,
            show_col: true,
            show_sprites: true,
            show_paths: true,
            show_entrances: true,
            show_exits: true,
            show_breakable_rock: false,
            show_triggers: true,
            stork_theme: StorkTheme::Auto,
            show_box_for_rendered: true,
        }
    }
}

impl DisplaySettings {
    /// The current layer is one of the three backgrounds.
    pub fn is_cur_layer_bg(&self) -> (r: bool)
        ensures
            r == (self.current_layer == CurrentLayer::BG1 || self.current_layer == CurrentLayer::BG2
                || self.current_layer == CurrentLayer::BG3),
    {
        match self.current_layer {
            CurrentLayer::BG1 | CurrentLayer::BG2 | CurrentLayer::BG3 => true,
            _ => false,
        }
    }
}

#[derive(PartialEq, Eq, Structural, Clone, Copy, Debug)]
pub enum GameVersion {
    /// AYWE
    USA10,
    USA11,
    USAXX,
    /// AYWP
    EUR10,
    EUR11,
    EURXX,
    /// AYWJ
    JAP,
    UNKNOWN,
}

pub open spec fn version_name(gv: GameVersion) -> Seq<char> {
    match gv {
        GameVersion::EUR10 => "EUR 1.0"@,
        GameVersion::EUR11 => "EUR 1.1 (rev1)"@,
        GameVersion::EURXX => "Unknown EUR"@,
        GameVersion::JAP => "JPN"@,
        GameVersion::USA10 => "USA 1.0"@,
        GameVersion::USA11 => "USA 1.1 (rev1)"@,
        GameVersion::USAXX => "Unknown USA"@,
        GameVersion::UNKNOWN => "Unknown Game Version"@,
    }
}

pub fn get_gameversion_prettyname(gv: &GameVersion) -> (r: String)
    ensures
        r@ == version_name(*gv),
{
    match gv {
        GameVersion::EUR10 => String::from_str("EUR 1.0"),
        GameVersion::EUR11 => String::from_str("EUR 1.1 (rev1)"),
        GameVersion::EURXX => String::from_str("Unknown EUR"),
        GameVersion::JAP => String::from_str("JPN"),
        GameVersion::USA10 => String::from_str("USA 1.0"),
        GameVersion::USA11 => String::from_str("USA 1.1 (rev1)"),
        GameVersion::USAXX => String::from_str("Unknown USA"),
        GameVersion::UNKNOWN => String::from_str("Unknown Game Version"),
    }
}

#[derive(Debug)]
pub struct DisplayEngineError {
    pub cause: String,
}

impl DisplayEngineError {
    pub fn new(cause: String) -> (r: Self)
        ensures
            r.cause == cause,
    {
        DisplayEngineError { cause }
    }

    /// The message shown for the error.
    pub fn message(&self) -> (r: String)
        ensures
            r@ == "Error initializing Display Engine: '"@ + self.cause@ + "'"@,
    {
        let mut s = String::from_str("Error initializing Display Engine: '");
        s.append(self.cause.as_str());
        s.append("'");
        s
    }
}

/// A copied background tile and where it lies relative to the copied
/// area's top-left tile.
#[derive(Clone, Copy, Debug)]
pub struct BgClipboardSelectedTile {
    pub tile: MapTileRecordData,
    pub x_offset: i32,
    pub y_offset: i32,
}

#[derive(Clone, Debug)]
pub struct BgClipboard {
    pub tiles: Vec<BgClipboardSelectedTile>,
}

impl Default for BgClipboard {
    fn default() -> (r: Self)
        ensures
            r.tiles@.len() == 0,
    {
        BgClipboard { tiles: Vec::new() }
    }
}

impl BgClipboard {
    pub fn clear(&mut self)
        ensures
            final(self).tiles@.len() == 0,
    {
        self.tiles.clear();
    }
}

} // verus!

verus! {

/// Compares two strings.
pub fn str_eq(a: &str, b: &str) -> (r: bool)
    ensures
        r == (a@ == b@),
{
    let r = crate::bytes::bytes_eq(a.as_bytes(), b.as_bytes());
    proof {
        vstd::utf8::encode_utf8_decode_utf8(a@);
        vstd::utf8::encode_utf8_decode_utf8(b@);
    }
    r
}

/// The text of `n` bytes at `off`, one character per byte; `None` when
/// they run past the end.
pub open spec fn fixed_string_at(s: Seq<u8>, off: int, n: int) -> Option<Seq<char>> {
    if 0 <= off && off + n <= s.len() {
        Some(latin1(s.subrange(off, off + n)))
    } else {
        None
    }
}

fn fixed_string_is(s: &[u8], off: usize, n: usize, expected: &str) -> (r: bool)
    ensures
        r == (fixed_string_at(s@, off as int, n as int) == Some(expected@)),
{
    if off > s.len() || s.len() - off < n {
        return false;
    }
    let mut bytes: Vec<u8> = Vec::new();
    let mut i = off;
    let end = off + n;
    while i < end
        invariant
            end == off + n,
            off <= i <= off + n <= s@.len(),
            bytes@ == s@.subrange(off as int, i as int),
        decreases off + n - i,
    {
        bytes.push(s[i]);
        i += 1;
        assert(bytes@ =~= s@.subrange(off as int, i as int));
    }
    let text = latin1_string(bytes.as_slice());
    str_eq(text.as_str(), expected)
}

/// The version a header's game code names, before the revision is known.
pub open spec fn version_of_code(code: Seq<char>) -> GameVersion {
    if code == "AYWE"@ {
        GameVersion::USAXX
    } else if code == "AYWP"@ {
        GameVersion::EURXX
    } else if code == "AYWJ"@ {
        GameVersion::JAP
    } else {
        GameVersion::UNKNOWN
    }
}

/// The outcome of checking a game: its version, or the message of the
/// refusal.
pub open spec fn version_check(code: Seq<char>, build_date: Seq<char>, arm9: Seq<u8>) -> Result<GameVersion, Seq<char>> {
    let v = version_of_code(code);
    if v == GameVersion::UNKNOWN {
        Err("Game Version is unknown, canceling load"@)
    } else if v == GameVersion::JAP {
        Err("JPN version not yet supported, will break"@)
    } else {
        let rev = if v == GameVersion::USAXX {
            if build_date == "061110.1620"@ {
                GameVersion::USA11
            } else if build_date == "061009.0352"@ {
                GameVersion::USA10
            } else {
                GameVersion::USAXX
            }
        } else {
            if build_date == "061009.0352"@ {
                GameVersion::EUR10
            } else if build_date == "061110.1620"@ {
                GameVersion::EUR11
            } else {
                GameVersion::EURXX
            }
        };
        match rev {
            GameVersion::USA10 => if fixed_string_at(arm9, 0xe1e6e, 6) == Some("1-1_D3"@) {
                Ok(rev)
            } else {
                Err("Could not find 1-1_D3 in USA 1.0"@)
            },
            GameVersion::USA11 => if fixed_string_at(arm9, 0x0e20ae, 6) == Some("1-1_D3"@) {
                Ok(rev)
            } else {
                Err("Could not find 1-1_D3 in USA 1.1"@)
            },
            GameVersion::USAXX => Err("Unknown USA version"@),
            GameVersion::EURXX => Err("Unknown EUR version"@),
            GameVersion::EUR10 => Err("EURr0 unsupported"@),
            _ => Err("EURr1 unsupported"@),
        }
    }
}

fn err_msg(s: &str) -> (r: Result<GameVersion, DisplayEngineError>)
    ensures
        r matches Err(e) && e.cause@ == s@,
{
    Err(DisplayEngineError::new(String::from_str(s)))
}

/// Decides which game an extracted ROM holds, from its header's game code,
/// its build date (stamp.rc) and its ARM9 binary; only the USA releases
/// are accepted.
pub fn check_game_version(game_code: &str, build_date: &str, arm9: &[u8]) -> (r: Result<GameVersion, DisplayEngineError>)
    ensures
        match (r, version_check(game_code@, build_date@, arm9@)) {
            (Ok(v), Ok(v2)) => v == v2,
            (Err(e), Err(m)) => e.cause@ == m,
            _ => false,
        },
{
    let v = if str_eq(game_code, "AYWE") {
        GameVersion::USAXX
    } else if str_eq(game_code, "AYWP") {
        GameVersion::EURXX
    } else if str_eq(game_code, "AYWJ") {
        GameVersion::JAP
    } else {
        GameVersion::UNKNOWN
    };
    let rev = match v {
        GameVersion::USAXX => {
            if str_eq(build_date, "061110.1620") {
                GameVersion::USA11
            } else if str_eq(build_date, "061009.0352") {
                GameVersion::USA10
            } else {
                GameVersion::USAXX
            }
        },
        GameVersion::EURXX => {
            if str_eq(build_date, "061009.0352") {
                GameVersion::EUR10
            } else if str_eq(build_date, "061110.1620") {
                GameVersion::EUR11
            } else {
                GameVersion::EURXX
            }
        },
        GameVersion::UNKNOWN => {
            return err_msg("Game Version is unknown, canceling load");
        },
        _ => {
            return err_msg("JPN version not yet supported, will break");
        },
    };
    match rev {
        GameVersion::USA10 => {
            if !fixed_string_is(arm9, 0xe1e6e, 6, "1-1_D3") {
                return err_msg("Could not find 1-1_D3 in USA 1.0");
            }
        },
        GameVersion::USA11 => {
            if !fixed_string_is(arm9, 0x0e20ae, 6, "1-1_D3") {
                return err_msg("Could not find 1-1_D3 in USA 1.1");
            }
        },
        GameVersion::USAXX => {
            return err_msg("Unknown USA version");
        },
        GameVersion::EURXX => {
            return err_msg("Unknown EUR version");
        },
        GameVersion::EUR10 => {
            return err_msg("EURr0 unsupported");
        },
        _ => {
            return err_msg("EURr1 unsupported");
        },
    }
    Ok(rev)
}

/// A pointer into the ARM9 binary stored at `p`, as an offset in the
/// binary (which is loaded at 0x02000000); `None` when it cannot be read
/// or points below the binary.
pub open spec fn pointer_at(s: Seq<u8>, p: int) -> Option<u32> {
    if 0 <= p && p + 4 <= s.len() && le32(s, p) >= 0x02000000 {
        Some((le32(s, p) - 0x02000000) as u32)
    } else {
        None
    }
}

/// The zero-terminated text at `p` (empty past the end).
pub open spec fn c_string_at(s: Seq<u8>, p: int) -> Seq<char> {
    if 0 <= p <= s.len() {
        latin1(s.subrange(p, c_str_end(s, p)))
    } else {
        Seq::empty()
    }
}

/// The base name of a level's course file in the USA releases, as the
/// game's own lookup gives it.
pub open spec fn level_filename_usa(world: u32, level: u32, version: GameVersion, arm9: Option<Seq<u8>>) -> Result<Seq<char>, Seq<char>> {
    if world + 1 > 5 {
        Err("World 5 is the highest World"@)
    } else if level + 1 > 10 {
        Err("There are only 10 levels per World"@)
    } else {
        let level_id = world * 10 + level + 1;
        if level_id == 0x7a {
            Ok("ene_check_"@)
        } else if level_id == 0x7b {
            Ok("koopa3"@)
        } else if level_id == 0x7c {
            Ok("koopa2"@)
        } else if level_id == 0x7d {
            Ok("kuppa"@)
        } else if level_id == 0x7e {
            Ok("lastback"@)
        } else if level_id == 0x7f {
            Err("0x7f unknown multi"@)
        } else if level_id > 99 {
            Err(">99 unknown multi"@)
        } else {
            let base = if version == GameVersion::USA11 {
                0x000d9178int
            } else {
                0x000d8f20int
            };
            match arm9 {
                None => Err("NO BINARY"@),
                Some(bin) => match pointer_at(bin, base + level_id * 4) {
                    None => Err("Failed to get string address in level name retrieval"@),
                    Some(a) => Ok(c_string_at(bin, a as int)),
                },
            }
        }
    }
}

fn filename_result(s: &str) -> (r: Result<String, String>)
    ensures
        r matches Ok(x) && x@ == s@,
{
    Ok(String::from_str(s))
}

fn filename_error(s: &str) -> (r: Result<String, String>)
    ensures
        r matches Err(x) && x@ == s@,
{
    Err(String::from_str(s))
}

/// Looks up the base name of a level's course file in a USA release.
pub fn get_level_filename_usa(
    world_index: &u32,
    level_index: &u32,
    game_version: GameVersion,
    loaded_arm9: &Option<Vec<u8>>,
) -> (r: Result<String, String>)
    requires
        *world_index < u32::MAX,
        *level_index < u32::MAX,
    ensures
        match (r, level_filename_usa(*world_index, *level_index, game_version, match loaded_arm9 {
            Some(b) => Some(b@),
            None => None,
        })) {
            (Ok(a), Ok(b)) => a@ == b,
            (Err(a), Err(b)) => a@ == b,
            _ => false,
        },
{
    if *world_index + 1 > 5 {
        return filename_error("World 5 is the highest World");
    }
    if *level_index + 1 > 10 {
        return filename_error("There are only 10 levels per World");
    }
    let level_id: u32 = *world_index * 10 + *level_index + 1;
    if level_id == 0x7a {
        return filename_result("ene_check_");
    } else if level_id == 0x7b {
        return filename_result("koopa3");
    } else if level_id == 0x7c {
        return filename_result("koopa2");
    } else if level_id == 0x7d {
        return filename_result("kuppa");
    } else if level_id == 0x7e {
        return filename_result("lastback");
    } else if level_id == 0x7f {
        return filename_error("0x7f unknown multi");
    }
    if level_id > 99 {
        return filename_error(">99 unknown multi");
    }
    let base: u32 = if game_version == GameVersion::USA11 {
        0x000d9178
    } else {
        0x000d8f20
    };
    let addr = (base + level_id * 4) as usize;
    match loaded_arm9 {
        None => filename_error("NO BINARY"),
        Some(bin) => {
            if bin.len() < 4 || addr > bin.len() - 4 {
                return filename_error("Failed to get string address in level name retrieval");
            }
            let raw = read_u32(bin.as_slice(), addr);
            if raw < 0x02000000 {
                return filename_error("Failed to get string address in level name retrieval");
            }
            let string_address = (raw - 0x02000000) as usize;
            if string_address > bin.len() {
                return Ok(String::new());
            }
            let (name, _next) = read_c_string(bin.as_slice(), string_address);
            Ok(latin1_string(name.as_slice()))
        },
    }
}

/// The base name of a level's course file in the EUR 1.1 release, as the
/// game's own lookup gives it.
pub open spec fn level_filename_eur_11(world: u32, level: u32, arm9: Option<Seq<u8>>) -> Result<Seq<char>, Seq<char>> {
    let level_id = world * 10 + level;
    if level_id == 0 {
        Ok("0-1_D3"@)
    } else if level_id == 0x7a {
        Ok("ene_check_"@)
    } else if level_id == 0x7b {
        Ok("koopa3"@)
    } else if level_id == 0x7c {
        Ok("koopa2"@)
    } else if level_id == 0x7d {
        Ok("kuppa"@)
    } else if level_id == 0x7e {
        Ok("lastback"@)
    } else if level_id == 0x7f {
        Ok("0x7f unknown multi"@)
    } else if level_id > 100 {
        Ok(">99 unknown multi"@)
    } else {
        match arm9 {
            None => Err("ERROR, NO BINARY"@),
            Some(bin) => match pointer_at(bin, 0x0d8e58 + level_id * 4) {
                None => Err("Failed to get string address in level name retrieval"@),
                Some(a) => Ok(c_string_at(bin, a as int)),
            },
        }
    }
}

/// Looks up the base name of a level's course file in the EUR 1.1
/// release.
pub fn get_level_filename_eur_11(world_index: &u32, level_index: &u32, loaded_arm9: &Option<Vec<u8>>) -> (r: Result<String, String>)
    requires
        *world_index * 10 + *level_index <= u32::MAX,
    ensures
        match (r, level_filename_eur_11(*world_index, *level_index, match loaded_arm9 {
            Some(b) => Some(b@),
            None => None,
        })) {
            (Ok(a), Ok(b)) => a@ == b,
            (Err(a), Err(b)) => a@ == b,
            _ => false,
        },
{
    let level_id: u32 = *world_index * 10 + *level_index;
    if level_id == 0 {
        return filename_result("0-1_D3");
    } else if level_id == 0x7a {
        return filename_result("ene_check_");
    } else if level_id == 0x7b {
        return filename_result("koopa3");
    } else if level_id == 0x7c {
        return filename_result("koopa2");
    } else if level_id == 0x7d {
        return filename_result("kuppa");
    } else if level_id == 0x7e {
        return filename_result("lastback");
    } else if level_id == 0x7f {
        return filename_result("0x7f unknown multi");
    }
    if level_id > 100 {
        return filename_result(">99 unknown multi");
    }
    let addr = (0x0d8e58u32 + level_id * 4) as usize;
    match loaded_arm9 {
        None => filename_error("ERROR, NO BINARY"),
        Some(bin) => {
            if bin.len() < 4 || addr > bin.len() - 4 {
                return filename_error("Failed to get string address in level name retrieval");
            }
            let raw = read_u32(bin.as_slice(), addr);
            if raw < 0x02000000 {
                return filename_error("Failed to get string address in level name retrieval");
            }
            let string_address = (raw - 0x02000000) as usize;
            if string_address > bin.len() {
                return Ok(String::new());
            }
            let (name, _next) = read_c_string(bin.as_slice(), string_address);
            Ok(latin1_string(name.as_slice()))
        },
    }
}

/// In a USA release, world `world` (counted from 0, below 5) and level
/// `level` (counted from 0, below 10) is entry number
/// `world * 10 + level + 1` of the course-name table, whose pointers start at
/// 0xD8F20 (1.0) or 0xD9178 (1.1) in the ARM9 binary: the name is the text
/// that entry's pointer leads to. Without a binary there is no name.
pub proof fn law_usa_level_table_entry(world: u32, level: u32, version: GameVersion, arm9: Option<Seq<u8>>)
    requires
        world < 5,
        level < 10,
    ensures
        ({
            let base: int = if version == GameVersion::USA11 {
                0x000d9178
            } else {
                0x000d8f20
            };
            let entry: int = base + 4 * (world * 10 + level + 1);
            level_filename_usa(world, level, version, arm9) == match arm9 {
                None => Err("NO BINARY"@),
                Some(bin) => match pointer_at(bin, entry) {
                    None => Err("Failed to get string address in level name retrieval"@),
                    Some(a) => Ok(c_string_at(bin, a as int)),
                },
            }
        }),
{
    assert(world * 10 + level + 1 <= 50) by (nonlinear_arith)
        requires
            world < 5,
            level < 10,
    ;
}

/// In the EUR 1.1 release, world `world` (below 5) and level `level` (below
/// 10), other than the first level of the first world, is entry number
/// `world * 10 + level` of the course-name table, whose pointers start at
/// 0xD8E58 in the ARM9 binary; the first level of the first world is named
/// "0-1_D3" without the table.
pub proof fn law_eur_level_table_entry(world: u32, level: u32, arm9: Option<Seq<u8>>)
    requires
        world < 5,
        level < 10,
    ensures
        level_filename_eur_11(world, level, arm9) == if world == 0 && level == 0 {
            Ok("0-1_D3"@)
        } else {
            match arm9 {
                None => Err("ERROR, NO BINARY"@),
                Some(bin) => match pointer_at(bin, 0x0d8e58 + 4 * (world * 10 + level)) {
                    None => Err("Failed to get string address in level name retrieval"@),
                    Some(a) => Ok(c_string_at(bin, a as int)),
                },
            }
        },
{
    assert(world * 10 + level <= 49) by (nonlinear_arith)
        requires
            world < 5,
            level < 10,
    ;
    assert(world * 10 + level == 0 <==> world == 0 && level == 0) by (nonlinear_arith)
        requires
            world < 5,
            level < 10,
    ;
}

/// Looks up the base name of a level's course file; an error from the
/// lookup gives "Error".
pub fn get_level_filename(game_version: Option<GameVersion>, world_index: &u32, level_index: &u32, loaded_arm9: &Option<Vec<u8>>) -> (r: String)
    requires
        game_version == Some(GameVersion::USA10) || game_version == Some(GameVersion::USA11),
        *world_index < u32::MAX,
        *level_index < u32::MAX,
    ensures
        r@ == match level_filename_usa(*world_index, *level_index, game_version->0, match loaded_arm9 {
            Some(b) => Some(b@),
            None => None,
        }) {
            Ok(n) => n,
            Err(_) => "Error"@,
        },
{
    let v = match game_version {
        Some(v) => v,
        None => GameVersion::USA10,
    };
    match get_level_filename_usa(world_index, level_index, v, loaded_arm9) {
        Ok(s) => s,
        Err(_) => String::from_str("Error"),
    }
}

} // verus!

verus! {

/// The game code that an extracted ROM's `header.yaml` text holds: the
/// string under the key `gamecode`, as `serde_yml` reads the text; `None`
/// when the text does not parse or holds no such string.
pub uninterp spec fn yaml_game_code(text: Seq<char>) -> Option<Seq<char>>;

/// Parses `yaml_text` with `serde_yml::from_str` into a `serde_yml::Value`
/// and takes the string under `gamecode` (`Value::get` and `as_str`).
/// The contract claims only that the result is a function of the text,
/// named `yaml_game_code`; a text that does not parse gives `None`.
#[verifier::external_body]
fn header_game_code(yaml_text: &str) -> (r: Option<String>)
    ensures
        match r {
            Some(s) => yaml_game_code(yaml_text@) == Some(s@),
            None => yaml_game_code(yaml_text@) is None,
        },
{
    match serde_yml::from_str::<serde_yml::Value>(yaml_text) {
        Ok(v) => match v.get("gamecode") {
            Some(g) => match g.as_str() {
                Some(code) => Some(code.to_string()),
                None => None,
            },
            None => None,
        },
        Err(_) => None,
    }
}

/// The refusal of a header without a game code.
pub open spec fn no_game_code_msg() -> Seq<char> {
    "No game code in header.yaml"@
}

/// Decides which game an extracted ROM holds from the texts of its
/// `stamp.rc` (the build date) and `header.yaml`, and its ARM9 binary. A
/// header that does not parse or names no game code is refused.
pub fn detect_version(build_date: &str, header_yaml: &str, arm9: &[u8]) -> (r: Result<GameVersion, DisplayEngineError>)
    ensures
        match yaml_game_code(header_yaml@) {
            None => r matches Err(e) && e.cause@ == no_game_code_msg(),
            Some(c) => match (r, version_check(c, build_date@, arm9@)) {
                (Ok(v), Ok(v2)) => v == v2,
                (Err(e), Err(m)) => e.cause@ == m,
                _ => false,
            },
        },
{
    match header_game_code(header_yaml) {
        None => err_msg("No game code in header.yaml"),
        Some(code) => check_game_version(code.as_str(), build_date, arm9),
    }
}

} // verus!
