//! Brushes: rectangles of background tiles kept for placing again.
use vstd::prelude::*;
use vstd::string::*;
use crate::selection::BgSelectData;
use crate::text::{hex_padded, hex_string};
use crate::types::{tile_short_of, MapTileRecordData};

verus! {

/// A rectangle of tiles (row by row) of one tileset.
#[derive(Clone, Debug)]
pub struct Brush {
    pub tileset: String,
    pub name: String,
    pub width: u8,
    pub height: u8,
    pub palette_offset: u8,
    pub tiles: Vec<u16>,
}

impl Default for Brush {
    fn default() -> (r: Self)
        ensures
            r.tileset@ == "char01c"@,
            r.name@ == "Blank/Example"@,
            r.width == 0,
            r.height == 0,
            r.palette_offset == 0,
            r.tiles@.len() == 0,
    {
        Brush {
            tileset: String::from_str("char01c"),
            name: String::from_str("Blank/Example"),
            width: 0,
            height: 0,
            palette_offset: 0,
            tiles: Vec::new(),
        }
    }
}

/// How a brush is shown in the log.
pub open spec fn brush_text(b: Brush) -> Seq<char> {
    "Brush [ name='"@ + b.name@ + "', tileset="@ + b.tileset@ + ", width/height=0x"@
        + hex_padded(b.width as nat, 0) + "/0x"@ + hex_padded(b.height as nat, 0) + ", first_tile="@
        + hex_padded(b.tiles@[0] as nat, 4) + " ]"@
}

impl Brush {
    /// Empties the brush and marks its name as cleared; the tileset and
    /// palette offset stay.
    pub fn clear(&mut self)
        ensures
            final(self).tiles@.len() == 0,
            final(self).width == 0,
            final(self).height == 0,
            final(self).name@ == "NAME CLEARED"@,
            final(self).tileset == old(self).tileset,
            final(self).palette_offset == old(self).palette_offset,
    {
        self.tiles.clear();
        self.height = 0;
        self.width = 0;
        self.name = String::from_str("NAME CLEARED");
    }

    /// The brush's name, tileset, size and first tile as one line.
    pub fn describe(&self) -> (r: String)
        requires
            self.tiles@.len() > 0,
        ensures
            r@ == brush_text(*self),
    {
        let mut s = String::from_str("Brush [ name='");
        s.append(self.name.as_str());
        s.append("', tileset=");
        s.append(self.tileset.as_str());
        s.append(", width/height=0x");
        let w = hex_string(self.width as u64, 0);
        s.append(w.as_str());
        s.append("/0x");
        let h = hex_string(self.height as u64, 0);
        s.append(h.as_str());
        s.append(", first_tile=");
        let t = hex_string(self.tiles[0] as u64, 4);
        s.append(t.as_str());
        s.append(" ]");
        s
    }
}

/// A list of brushes, as kept in a brushes file.
#[derive(Clone, Debug)]
pub struct StoredBrushes {
    pub brushes: Vec<Brush>,
}

/// Where a brush comes from: shipped with the editor, or saved by the user.
#[derive(Clone, Copy, PartialEq, Eq, Structural, Debug)]
pub enum BrushType {
    Stored,
    Saved,
}

/// The state of the brushes window.
pub struct BrushSettings {
    pub cur_selected_brush: Option<(BrushType, usize)>,
    pub pos_brush_name: String,
    pub cur_search_string: String,
    pub only_show_same_tileset: bool,
    pub flip_x_place: bool,
    pub flip_y_place: bool,
}

impl Default for BrushSettings {
    fn default() -> (r: Self)
        ensures
            r.cur_selected_brush is None,
            r.pos_brush_name@ == "Untitled Brush"@,
            r.cur_search_string@ == ""@,
            r.only_show_same_tileset,
            !r.flip_x_place,
            !r.flip_y_place,
    {
        BrushSettings {
            cur_selected_brush: None,
            pos_brush_name: String::from_str("Untitled Brush"),
            cur_search_string: String::from_str(""),
            only_show_same_tileset: true,
            flip_x_place: false,
            flip_y_place: false,
        }
    }
}

} // verus!

verus! {

/// The abstract value of a brush.
pub ghost struct BrushView {
    pub tileset: Seq<char>,
    pub name: Seq<char>,
    pub width: u8,
    pub height: u8,
    pub palette_offset: u8,
    pub tiles: Seq<u16>,
}

impl View for Brush {
    type V = BrushView;

    open spec fn view(&self) -> BrushView {
        BrushView {
            tileset: self.tileset@,
            name: self.name@,
            width: self.width,
            height: self.height,
            palette_offset: self.palette_offset,
            tiles: self.tiles@,
        }
    }
}

/// The widest and tallest a brush grows when tiles are placed in it.
pub const BRUSH_TILES_WIDE: u32 = 16;

/// `n` blank tiles.
pub open spec fn blank_tiles(n: nat) -> Seq<u16> {
    Seq::new(n, |i: int| 0u16)
}

/// The tiles cut or filled with blanks to `n` entries.
pub open spec fn resized_tiles(s: Seq<u16>, n: nat) -> Seq<u16> {
    if n <= s.len() {
        s.take(n as int)
    } else {
        s + blank_tiles((n - s.len()) as nat)
    }
}

/// Inserting `k` blank tiles at `idx`, then at every `w + k` entries
/// further on, while the position lies within the tiles: the blank columns
/// added at the end of each row of a brush `w` wide.
pub open spec fn with_cols(s: Seq<u16>, idx: int, w: int, k: nat) -> Seq<u16>
    decreases (if 0 <= idx <= s.len() {
        s.len() + 1 - idx
    } else {
        0
    }),
{
    if w <= 0 || idx < 0 || idx > s.len() {
        s
    } else {
        with_cols(s.take(idx) + blank_tiles(k) + s.skip(idx), idx + w + k, w, k)
    }
}

/// The brush grown to hold column `x` and row `y`: an empty brush becomes
/// `x + 1` by `y + 1` blank tiles; a narrower one gets blank columns (the
/// tiles first cut or filled to the new width times the height), a
/// shorter one blank rows.
pub open spec fn grown_brush(b: BrushView, x: u32, y: u32) -> BrushView {
    let b1 = if b.tiles.len() == 0 {
        BrushView { width: (x + 1) as u8, height: (y + 1) as u8, tiles: blank_tiles(((x + 1) * (y + 1)) as nat), ..b }
    } else {
        b
    };
    let b2 = if x >= b1.width {
        let k = (x - b1.width + 1) as nat;
        BrushView {
            width: (b1.width + k) as u8,
            tiles: with_cols(
                resized_tiles(b1.tiles, ((b1.width + k) * b1.height) as nat),
                b1.width as int,
                b1.width as int,
                k,
            ),
            ..b1
        }
    } else {
        b1
    };
    if y >= b2.height {
        let k = (y - b2.height + 1) as nat;
        BrushView { height: (b2.height + k) as u8, tiles: b2.tiles + blank_tiles((k * b2.width) as nat), ..b2 }
    } else {
        b2
    }
}

/// Growing a brush does not fail: a brush with tiles that must widen has a
/// width, and its new width times its height fits 8 bits.
pub open spec fn grow_ok(b: BrushView, x: u32, y: u32) -> bool {
    b.tiles.len() > 0 && x >= b.width ==> b.width > 0 && (x + 1) * b.height <= 255
}

/// The position of column `x`, row `y` in a brush `w` wide.
pub open spec fn brush_index(x: u32, y: u32, w: u8) -> int {
    y * w + x
}

fn insert_blanks(tiles: &mut Vec<u16>, idx: usize, k: usize)
    requires
        idx <= old(tiles)@.len(),
    ensures
        final(tiles)@ == old(tiles)@.take(idx as int) + blank_tiles(k as nat) + old(tiles)@.skip(idx as int),
{
    let ghost s0 = tiles@;
    let mut j: usize = 0;
    while j < k
        invariant
            j <= k,
            idx <= s0.len(),
            tiles@ == s0.take(idx as int) + blank_tiles(j as nat) + s0.skip(idx as int),
        decreases k - j,
    {
        tiles.insert(idx, 0);
        j += 1;
        assert(tiles@ =~= s0.take(idx as int) + blank_tiles(j as nat) + s0.skip(idx as int));
    }
}

impl Brush {
    /// A copy of the brush.
    pub fn copy(&self) -> (r: Brush)
        ensures
            r@ == self@,
    {
        let tiles = self.tiles.clone();
        assert(tiles@ =~= self.tiles@);
        Brush {
            tileset: self.tileset.clone(),
            name: self.name.clone(),
            width: self.width,
            height: self.height,
            palette_offset: self.palette_offset,
            tiles,
        }
    }

    /// Places `tile` at column `tile_x`, row `tile_y` of the brush (a left
    /// click in the brush grid). A position past the 16 by 16 grid is
    /// refused with nothing changed. Otherwise the brush first grows to
    /// hold the position; the tile is then written when one is given and
    /// its position lies within the tiles. `true` when it was written.
    pub fn place_tile(&mut self, tile_x: u32, tile_y: u32, tile: Option<u16>) -> (r: bool)
        requires
            tile_x < BRUSH_TILES_WIDE && tile_y < BRUSH_TILES_WIDE ==> grow_ok(old(self)@, tile_x, tile_y),
        ensures
            ({
                let g = grown_brush(old(self)@, tile_x, tile_y);
                let i = brush_index(tile_x, tile_y, g.width);
                if tile_y >= BRUSH_TILES_WIDE || tile_x >= BRUSH_TILES_WIDE {
                    !r && final(self)@ == old(self)@
                } else if i >= g.tiles.len() || tile is None {
                    !r && final(self)@ == g
                } else {
                    r && final(self)@ == (BrushView { tiles: g.tiles.update(i, tile->0), ..g })
                }
            }),
    {
        if tile_y >= BRUSH_TILES_WIDE || tile_x >= BRUSH_TILES_WIDE {
            return false;
        }
        let ghost b0 = self@;
        if self.tiles.len() == 0 {
            self.width = (tile_x + 1) as u8;
            self.height = (tile_y + 1) as u8;
            assert((tile_x + 1) * (tile_y + 1) <= 256) by (nonlinear_arith)
                requires
                    tile_x < 16,
                    tile_y < 16,
            ;
            let n = (tile_x + 1) * (tile_y + 1);
            let mut c: u32 = 0;
            assert(self.tiles@ =~= blank_tiles(0));
            while c < n
                invariant
                    c <= n,
                    self@ == (BrushView { width: (tile_x + 1) as u8, height: (tile_y + 1) as u8, tiles: blank_tiles(c as nat), ..b0 }),
                decreases n - c,
            {
                self.tiles.push(0);
                c += 1;
                assert(self.tiles@ =~= blank_tiles(c as nat));
            }
        }
        let ghost b1 = self@;
        assert(b0.tiles.len() == 0 ==> self.tiles@ =~= blank_tiles(((tile_x + 1) * (tile_y + 1)) as nat));
        assert(b1 == (if b0.tiles.len() == 0 {
            BrushView {
                width: (tile_x + 1) as u8,
                height: (tile_y + 1) as u8,
                tiles: blank_tiles(((tile_x + 1) * (tile_y + 1)) as nat),
                ..b0
            }
        } else {
            b0
        }));
        if tile_x >= self.width as u32 {
            let k: u32 = tile_x - self.width as u32 + 1;
            let old_width: usize = self.width as usize;
            let inc: usize = k as usize;
            assert((tile_x + 1) * self.height <= 255);
            let new_width: u8 = (tile_x + 1) as u8;
            let n: usize = (new_width * self.height) as usize;
            self.tiles.resize(n, 0);
            proof {
                assert(self.tiles@ =~= resized_tiles(b1.tiles, n as nat));
            }
            let ghost target = with_cols(self.tiles@, old_width as int, old_width as int, inc as nat);
            let mut idx: usize = old_width;
            let ghost mut t: nat = 0;
            assert(n <= 255);
            assert(inc <= 16);
            while idx <= self.tiles.len()
                invariant
                    old_width > 0,
                    n <= 255,
                    inc <= 16,
                    self.tiles@.len() == n + t * inc,
                    idx == old_width + t * (old_width + inc),
                    with_cols(self.tiles@, idx as int, old_width as int, inc as nat) == target,
                    self.width == b1.width,
                    self.height == b1.height,
                    self.tileset@ == b1.tileset,
                    self.name@ == b1.name,
                    self.palette_offset == b1.palette_offset,
                decreases (if idx <= self.tiles@.len() {
                    self.tiles@.len() + 1 - idx
                } else {
                    0
                }),
            {
                assert(t <= 255 && idx <= 4335) by (nonlinear_arith)
                    requires
                        old_width >= 1,
                        inc <= 16,
                        n <= 255,
                        idx == old_width + t * (old_width + inc),
                        idx <= n + t * inc,
                ;
                insert_blanks(&mut self.tiles, idx, inc);
                idx = idx + old_width + inc;
                proof {
                    t = t + 1;
                    assert(self.tiles@.len() == n + t * inc) by (nonlinear_arith)
                        requires
                            self.tiles@.len() == n + (t - 1) * inc + inc,
                    ;
                    assert(idx == old_width + t * (old_width + inc)) by (nonlinear_arith)
                        requires
                            idx == old_width + (t - 1) * (old_width + inc) + old_width + inc,
                    ;
                }
            }
            self.width = new_width;
        }
        let ghost b2 = self@;
        if tile_y >= self.height as u32 {
            let k: u32 = tile_y - self.height as u32 + 1;
            self.height = (tile_y + 1) as u8;
            assert(k * (self.width as u32) <= 16 * 255) by (nonlinear_arith)
                requires
                    k <= 16,
                    self.width <= 255,
            ;
            let n = k * self.width as u32;
            let ghost before = self.tiles@;
            let mut c: u32 = 0;
            let ghost hb = self@;
            while c < n
                invariant
                    c <= n,
                    before == hb.tiles,
                    self@ == (BrushView { tiles: before + blank_tiles(c as nat), ..hb }),
                decreases n - c,
            {
                self.tiles.push(0);
                c += 1;
                assert(self.tiles@ =~= before + blank_tiles(c as nat));
            }
        }
        assert(tile_y * (self.width as u32) <= 15 * 255) by (nonlinear_arith)
            requires
                tile_y < 16,
                self.width <= 255,
        ;
        let index: u32 = tile_y * (self.width as u32) + tile_x;
        if index as usize >= self.tiles.len() {
            return false;
        }
        match tile {
            None => false,
            Some(t) => {
                self.tiles.set(index as usize, t);
                true
            },
        }
    }

    /// Blanks the tile at column `tile_x`, row `tile_y` (a right click in
    /// the brush grid); `false`, with nothing changed, when the position
    /// lies outside the brush or past its tiles.
    pub fn erase_tile(&mut self, tile_x: u32, tile_y: u32) -> (r: bool)
        requires
            tile_y * old(self).width + tile_x <= u32::MAX,
        ensures
            ({
                let b = old(self)@;
                let i = brush_index(tile_x, tile_y, b.width);
                &&& r <==> (tile_x < b.width && tile_y < b.height && i < b.tiles.len())
                &&& r ==> final(self)@ == (BrushView { tiles: b.tiles.update(i, 0), ..b })
                &&& !r ==> final(self)@ == b
            }),
    {
        let index: u32 = tile_y * (self.width as u32) + tile_x;
        if tile_x >= self.width as u32 || tile_y >= self.height as u32 || index as usize >= self.tiles.len() {
            return false;
        }
        self.tiles.set(index as usize, 0);
        true
    }

    /// Loads the selected background tiles into the brush (the "Load
    /// Selection" button): refused, with nothing changed, for a selection
    /// 0 or more than 16 tiles wide, more than 16 rows tall, or empty.
    /// Otherwise the brush takes the selection's width, as many rows as
    /// whole rows of the selection, the tileset (or "N/A") and the tiles'
    /// 16-bit entries in the selection's order.
    pub fn load_selection(&mut self, sel: &BgSelectData, map_tiles: &Vec<MapTileRecordData>, tileset: Option<String>) -> (r: bool)
        requires
            forall|k: int| 0 <= k < sel.selected_map_indexes@.len() ==> (#[trigger] sel.selected_map_indexes@[k]) < map_tiles@.len(),
        ensures
            ({
                let w = sel.selection_width;
                let n = sel.selected_map_indexes@.len();
                &&& r <==> (w != 0 && w <= 16 && n / (w as nat) <= 16 && n > 0)
                &&& !r ==> final(self)@ == old(self)@
                &&& r ==> final(self)@ == (BrushView {
                    width: w as u8,
                    height: (n / (w as nat)) as u8,
                    tileset: match tileset {
                        Some(t) => t@,
                        None => "N/A"@,
                    },
                    tiles: sel.selected_map_indexes@.map_values(|i: u32| tile_short_of(map_tiles@[i as int])),
                    ..old(self)@
                })
            }),
    {
        let w = sel.selection_width;
        let n = sel.selected_map_indexes.len();
        if w == 0 || w > 16 || n / (w as usize) > 16 || n == 0 {
            return false;
        }
        let mut tiles: Vec<u16> = Vec::new();
        let mut i: usize = 0;
        while i < n
            invariant
                i <= n,
                n == sel.selected_map_indexes@.len(),
                forall|k: int| 0 <= k < n ==> (#[trigger] sel.selected_map_indexes@[k]) < map_tiles@.len(),
                tiles@ == sel.selected_map_indexes@.take(i as int).map_values(|j: u32| tile_short_of(map_tiles@[j as int])),
            decreases n - i,
        {
            let idx = sel.selected_map_indexes[i];
            tiles.push(map_tiles[idx as usize].to_short());
            i += 1;
            assert(tiles@ =~= sel.selected_map_indexes@.take(i as int).map_values(|j: u32| tile_short_of(map_tiles@[j as int])));
        }
        assert(sel.selected_map_indexes@.take(n as int) =~= sel.selected_map_indexes@);
        self.tiles = tiles;
        self.width = w as u8;
        self.height = (n / (w as usize)) as u8;
        self.tileset = match tileset {
            Some(t) => t,
            None => String::from_str("N/A"),
        };
        true
    }
}

} // verus!

verus! {

/// The characters with the Unicode `White_Space` property, which std's
/// `char::is_whitespace` tests for.
pub open spec fn is_white_space(c: char) -> bool {
    let u = c as u32;
    ||| 0x09 <= u <= 0x0d
    ||| u == 0x20
    ||| u == 0x85
    ||| u == 0xa0
    ||| u == 0x1680
    ||| 0x2000 <= u <= 0x200a
    ||| u == 0x2028
    ||| u == 0x2029
    ||| u == 0x202f
    ||| u == 0x205f
    ||| u == 0x3000
}

/// The text without its leading whitespace.
pub open spec fn trim_start_chars(s: Seq<char>) -> Seq<char>
    decreases s.len(),
{
    if s.len() > 0 && is_white_space(s[0]) {
        trim_start_chars(s.drop_first())
    } else {
        s
    }
}

/// The text without its trailing whitespace.
pub open spec fn trim_end_chars(s: Seq<char>) -> Seq<char>
    decreases s.len(),
{
    if s.len() > 0 && is_white_space(s.last()) {
        trim_end_chars(s.drop_last())
    } else {
        s
    }
}

/// What std's `str::trim` leaves of a text: the text without leading and
/// trailing whitespace.
pub open spec fn trimmed(s: Seq<char>) -> Seq<char> {
    trim_end_chars(trim_start_chars(s))
}

/// What std's `str::to_lowercase` makes of a text.
pub uninterp spec fn lowercased(s: Seq<char>) -> Seq<char>;

/// `str::trim`, taken as a `String`: the text without the leading and
/// trailing characters for which `char::is_whitespace` holds.
#[verifier::external_body]
fn trim_text(s: &str) -> (r: String)
    ensures
        r@ == trimmed(s@),
{
    s.trim().to_string()
}

/// `str::to_lowercase`. The contract claims only that the result is a
/// function of the text, named `lowercased`.
#[verifier::external_body]
fn lowercase_text(s: &str) -> (r: String)
    ensures
        r@ == lowercased(s@),
{
    s.to_lowercase()
}

/// `needle` occurs in `hay` (the empty text occurs everywhere).
pub open spec fn has_substring(hay: Seq<char>, needle: Seq<char>) -> bool {
    exists|i: int| 0 <= i && i + needle.len() <= hay.len() && #[trigger] hay.subrange(i, i + needle.len()) == needle
}

/// Whether `needle` occurs in `hay`.
pub fn text_contains(hay: &str, needle: &str) -> (r: bool)
    ensures
        r == has_substring(hay@, needle@),
{
    let n = hay.unicode_len();
    let m = needle.unicode_len();
    if m > n {
        proof {
            assert forall|i: int| 0 <= i && i + needle@.len() <= hay@.len() implies #[trigger] hay@.subrange(i, i + needle@.len()) != needle@ by {}
        }
        return false;
    }
    let mut i: usize = 0;
    while i <= n - m
        invariant
            m <= n,
            n == hay@.len(),
            m == needle@.len(),
            i <= n - m + 1,
            forall|p: int| 0 <= p < i ==> #[trigger] hay@.subrange(p, p + m) != needle@,
        decreases n - m + 1 - i,
    {
        let mut j: usize = 0;
        let mut same = true;
        while j < m
            invariant
                j <= m,
                i + m <= n,
                n == hay@.len(),
                m == needle@.len(),
                same == (forall|q: int| 0 <= q < j ==> hay@[i + q] == needle@[q]),
            decreases m - j,
        {
            if hay.get_char(i + j) != needle.get_char(j) {
                same = false;
            }
            j += 1;
        }
        if same {
            assert(hay@.subrange(i as int, i + m) =~= needle@);
            return true;
        }
        proof {
            assert(exists|q: int| 0 <= q < m && hay@[i + q] != needle@[q]);
            let q = choose|q: int| 0 <= q < m && hay@[i + q] != needle@[q];
            assert(hay@.subrange(i as int, i + m)[q] != needle@[q]);
        }
        i += 1;
    }
    proof {
        assert forall|p: int| 0 <= p && p + needle@.len() <= hay@.len() implies #[trigger] hay@.subrange(p, p + needle@.len()) != needle@ by {
            assert(p < i);
        }
    }
    false
}

/// Whether a stored or saved brush is listed for the current tileset and
/// filter: of the same tileset when only those are shown, and with the
/// filter (trimmed and lower-cased) inside its name (trimmed and
/// lower-cased).
pub fn brush_listed(b: &Brush, tileset: &str, only_same: bool, query: &str) -> (r: bool)
    ensures
        r == ((!only_same || b.tileset@ == tileset@) && has_substring(
            lowercased(trimmed(b.name@)),
            lowercased(trimmed(query@)),
        )),
{
    if only_same && !crate::engine::str_eq(b.tileset.as_str(), tileset) {
        return false;
    }
    let name_t = trim_text(b.name.as_str());
    let name_l = lowercase_text(name_t.as_str());
    let query_t = trim_text(query);
    let query_l = lowercase_text(query_t.as_str());
    text_contains(name_l.as_str(), query_l.as_str())
}

/// The selected brush after deleting saved brush `i`: one after it moves
/// down by one, it itself is no longer selected.
pub open spec fn selection_after_delete(sel: Option<(BrushType, usize)>, i: usize) -> Option<(BrushType, usize)> {
    match sel {
        None => None,
        Some((t, s)) => if s > i {
            Some((t, (s - 1) as usize))
        } else if s == i {
            None
        } else {
            Some((t, s))
        },
    }
}

/// Replaces saved brush `i` with a copy of `current`, keeping the saved
/// brush's name.
pub fn overwrite_saved(saved: &mut Vec<Brush>, i: usize, current: &Brush)
    requires
        i < old(saved)@.len(),
    ensures
        final(saved)@.len() == old(saved)@.len(),
        forall|j: int| 0 <= j < old(saved)@.len() && j != i ==> final(saved)@[j] == old(saved)@[j],
        final(saved)@[i as int]@ == (BrushView { name: old(saved)@[i as int].name@, ..current@ }),
{
    let name = saved[i].name.clone();
    let mut b = current.copy();
    b.name = name;
    saved.set(i, b);
}

impl BrushSettings {
    /// Deletes saved brush `i` and moves the selection to match.
    pub fn delete_saved(&mut self, saved: &mut Vec<Brush>, i: usize)
        requires
            i < old(saved)@.len(),
        ensures
            final(saved)@ == old(saved)@.remove(i as int),
            final(self).cur_selected_brush == selection_after_delete(old(self).cur_selected_brush, i),
            final(self).pos_brush_name == old(self).pos_brush_name,
            final(self).cur_search_string == old(self).cur_search_string,
            final(self).only_show_same_tileset == old(self).only_show_same_tileset,
            final(self).flip_x_place == old(self).flip_x_place,
            final(self).flip_y_place == old(self).flip_y_place,
    {
        saved.remove(i);
        match self.cur_selected_brush {
            None => {},
            Some((t, s)) => {
                if s > i {
                    self.cur_selected_brush = Some((t, s - 1));
                } else if s == i {
                    self.cur_selected_brush = None;
                }
            },
        }
    }

    /// Stores the current brush among the saved ones under the entered
    /// name, with the layer's tileset and palette offset, and clears the
    /// entered name. Refused, with nothing changed, for a brush without
    /// tiles or a name that is blank once trimmed.
    pub fn store_current(&mut self, current: &mut Brush, tileset: &str, pal_offset: u8, saved: &mut Vec<Brush>) -> (r: bool)
        ensures
            r == (old(current).tiles@.len() > 0 && trimmed(old(self).pos_brush_name@).len() > 0),
            !r ==> final(current)@ == old(current)@ && final(saved)@ == old(saved)@ && final(self).pos_brush_name
                == old(self).pos_brush_name,
            r ==> {
                &&& final(current)@ == (BrushView {
                    name: old(self).pos_brush_name@,
                    tileset: tileset@,
                    palette_offset: pal_offset,
                    ..old(current)@
                })
                &&& final(saved)@.len() == old(saved)@.len() + 1
                &&& final(saved)@.drop_last() == old(saved)@
                &&& final(saved)@.last()@ == final(current)@
                &&& final(self).pos_brush_name@ == ""@
            },
            final(self).cur_selected_brush == old(self).cur_selected_brush,
            final(self).cur_search_string == old(self).cur_search_string,
            final(self).only_show_same_tileset == old(self).only_show_same_tileset,
            final(self).flip_x_place == old(self).flip_x_place,
            final(self).flip_y_place == old(self).flip_y_place,
    {
        if current.tiles.len() == 0 {
            return false;
        }
        let t = trim_text(self.pos_brush_name.as_str());
        if t.unicode_len() == 0 {
            return false;
        }
        current.name = self.pos_brush_name.clone();
        current.tileset = String::from_str(tileset);
        current.palette_offset = pal_offset;
        let ghost before = saved@;
        saved.push(current.copy());
        assert(saved@.drop_last() =~= before);
        self.pos_brush_name = String::new();
        proof {
            reveal_strlit("");
        }
        assert(self.pos_brush_name@ =~= ""@);
        true
    }
}

/// After `j` rows of a `w`-wide grid of `h` rows have had `k` blank
/// columns added: those rows hold the old tiles and then blanks, and the
/// rest is the filled-up tiles, shifted.
spec fn rows_widened(t: Seq<u16>, s0: Seq<u16>, j: int, w: int, k: int, h: int) -> bool {
    &&& t.len() == (w + k) * h + j * k
    &&& forall|r: int, c: int|
        0 <= r < j && 0 <= c < w + k ==> #[trigger] t[r * (w + k) + c] == if c < w {
            s0[r * w + c]
        } else {
            0u16
        }
    &&& forall|q: int| j * (w + k) <= q < t.len() ==> #[trigger] t[q] == (s0 + blank_tiles((k * h) as nat))[q - j * k]
}

/// Inserting from `idx` on keeps what lies before `idx`, and keeps zero
/// what is zero from `bound` on.
proof fn lemma_with_cols_keeps(t: Seq<u16>, idx: int, w: int, k: nat, bound: int)
    requires
        0 <= bound <= idx,
        forall|q: int| bound <= q < t.len() ==> #[trigger] t[q] == 0,
    ensures
        with_cols(t, idx, w, k).len() >= t.len(),
        forall|p: int| 0 <= p < bound && p < t.len() ==> #[trigger] with_cols(t, idx, w, k)[p] == t[p],
        forall|q: int| bound <= q < with_cols(t, idx, w, k).len() ==> #[trigger] with_cols(t, idx, w, k)[q] == 0,
    decreases (if 0 <= idx <= t.len() {
        t.len() + 1 - idx
    } else {
        0
    }),
{
    if w <= 0 || idx < 0 || idx > t.len() {
    } else {
        let t2 = t.take(idx) + blank_tiles(k) + t.skip(idx);
        assert forall|q: int| bound <= q < t2.len() implies #[trigger] t2[q] == 0 by {
            if q < idx {
                assert(t2[q] == t[q]);
            } else if q < idx + k {
            } else {
                assert(t2[q] == t[q - k]);
            }
        }
        assert forall|p: int| 0 <= p < bound && p < t.len() implies #[trigger] t2[p] == t[p] by {}
        lemma_with_cols_keeps(t2, idx + w + k, w, k, bound);
    }
}

proof fn lemma_with_cols_rows(t: Seq<u16>, s0: Seq<u16>, j: int, w: int, k: nat, h: int)
    requires
        w >= 1,
        h >= 1,
        0 <= j <= h,
        s0.len() == w * h,
        rows_widened(t, s0, j, w, k as int, h),
    ensures
        ({
            let r = with_cols(t, j * (w + k) + w, w, k);
            &&& r.len() >= (w + k) * h
            &&& forall|row: int, c: int|
                0 <= row < h && 0 <= c < w + k ==> #[trigger] r[row * (w + k) + c] == if c < w {
                    s0[row * w + c]
                } else {
                    0u16
                }
            &&& forall|q: int| (w + k) * h <= q < r.len() ==> #[trigger] r[q] == 0
        }),
    decreases h - j,
{
    let wk = w + k;
    let sf = s0 + blank_tiles((k * h) as nat);
    let idx = j * wk + w;
    assert((w + k) * h == w * h + k * h) by (nonlinear_arith);
    if j == h {
        assert((w + k) * h == h * wk) by (nonlinear_arith)
            requires
                wk == w + k,
        ;
        assert forall|q: int| h * wk <= q < t.len() implies #[trigger] t[q] == 0 by {
            assert(q - j * k >= w * h) by (nonlinear_arith)
                requires
                    q >= h * wk,
                    wk == w + k,
                    j == h,
            ;
            assert(q - j * k < sf.len()) by (nonlinear_arith)
                requires
                    q < t.len(),
                    t.len() == (w + k) * h + j * k,
                    sf.len() == w * h + k * h,
                    (w + k) * h == w * h + k * h,
            ;
            assert(t[q] == sf[q - j * k]);
            assert(sf[q - j * k] == blank_tiles((k * h) as nat)[q - j * k - w * h]);
        }
        assert(idx >= h * wk);
        lemma_with_cols_keeps(t, idx, w, k, h * wk);
        let r = with_cols(t, idx, w, k);
        assert forall|row: int, c: int| 0 <= row < h && 0 <= c < w + k implies #[trigger] r[row * (w + k) + c]
            == if c < w {
            s0[row * w + c]
        } else {
            0u16
        } by {
            assert(row * wk + c < h * wk) by (nonlinear_arith)
                requires
                    row < h,
                    c < wk,
                    row >= 0,
                    c >= 0,
            ;
            assert(r[row * wk + c] == t[row * wk + c]);
        }
    } else {
        assert(j * wk + wk <= h * wk + j * k) by (nonlinear_arith)
            requires
                j < h,
                k >= 0,
                wk == w + k,
                w >= 1,
                j >= 0,
        ;
        assert(idx <= t.len()) by (nonlinear_arith)
            requires
                idx == j * wk + w,
                j * wk + wk <= h * wk + j * k,
                t.len() == (w + k) * h + j * k,
                wk == w + k,
                k >= 0,
        ;
        let t2 = t.take(idx) + blank_tiles(k) + t.skip(idx);
        assert(with_cols(t, idx, w, k) == with_cols(t2, idx + w + k, w, k));
        assert((j + 1) * wk + w == idx + w + k) by (nonlinear_arith)
            requires
                idx == j * wk + w,
                wk == w + k,
        ;
        assert(t2.len() == (w + k) * h + (j + 1) * k) by (nonlinear_arith)
            requires
                t2.len() == t.len() + k,
                t.len() == (w + k) * h + j * k,
        ;
        assert forall|r: int, c: int| 0 <= r < j + 1 && 0 <= c < w + k implies #[trigger] t2[r * (w + k) + c]
            == if c < w {
            s0[r * w + c]
        } else {
            0u16
        } by {
            if r < j {
                assert(r * wk + c < j * wk) by (nonlinear_arith)
                    requires
                        r < j,
                        c < wk,
                        r >= 0,
                        c >= 0,
                ;
                assert(t2[r * wk + c] == t[r * wk + c]);
            } else {
                if c < w {
                    assert(t2[j * wk + c] == t[j * wk + c]);
                    assert(j * wk + c - j * k == j * w + c) by (nonlinear_arith)
                        requires
                            wk == w + k,
                    ;
                    assert(j * w + c < w * h) by (nonlinear_arith)
                        requires
                            j < h,
                            c < w,
                            j >= 0,
                            c >= 0,
                    ;
                    assert(sf[j * w + c] == s0[j * w + c]);
                } else {
                    assert(t2[j * wk + c] == 0);
                }
            }
        }
        assert forall|q: int| (j + 1) * (w + k) <= q < t2.len() implies #[trigger] t2[q] == sf[q - (j + 1) * k] by {
            assert((j + 1) * (w + k) == idx + k) by (nonlinear_arith)
                requires
                    idx == j * wk + w,
                    wk == w + k,
            ;
            assert(t2[q] == t[q - k]);
            assert(q - k >= j * wk);
            assert(q - k - j * k == q - (j + 1) * k) by (nonlinear_arith);
        }
        lemma_with_cols_rows(t2, s0, j + 1, w, k, h);
    }
}

/// Growing a brush whose tiles fill its width times its height keeps every
/// tile at its column and row, and fills the new columns and rows with
/// blank tiles (tiles past the new width times height are blank too).
pub proof fn law_grown_brush_keeps_tiles(b: BrushView, x: u32, y: u32)
    requires
        b.width >= 1,
        b.height >= 1,
        b.tiles.len() == b.width * b.height,
        grow_ok(b, x, y),
        x < BRUSH_TILES_WIDE,
        y < BRUSH_TILES_WIDE,
    ensures
        ({
            let g = grown_brush(b, x, y);
            &&& g.width == if x >= b.width {
                x + 1
            } else {
                b.width as int
            }
            &&& g.height == if y >= b.height {
                y + 1
            } else {
                b.height as int
            }
            &&& g.tiles.len() >= g.width * g.height
            &&& forall|r: int, c: int|
                0 <= r < g.height && 0 <= c < g.width ==> #[trigger] g.tiles[r * g.width + c] == if r < b.height
                    && c < b.width {
                    b.tiles[r * b.width + c]
                } else {
                    0u16
                }
            &&& forall|q: int| g.width * g.height <= q < g.tiles.len() ==> #[trigger] g.tiles[q] == 0
        }),
{
    let w = b.width as int;
    let h = b.height as int;
    assert(b.tiles.len() > 0) by (nonlinear_arith)
        requires
            w >= 1,
            h >= 1,
            b.tiles.len() == w * h,
    ;
    let b2 = if x >= b.width {
        let k = (x - b.width + 1) as nat;
        let wk = w + k;
        let sf = b.tiles + blank_tiles((k * h) as nat);
        assert(wk * h - w * h == k * h) by (nonlinear_arith)
            requires
                wk == w + k,
        ;
        assert(resized_tiles(b.tiles, (wk * h) as nat) =~= sf);
        assert(rows_widened(sf, b.tiles, 0, w, k as int, h)) by {
            assert((w + k) * h == wk * h);
            assert(sf.len() == (w + k) * h + 0 * k);
        }
        lemma_with_cols_rows(sf, b.tiles, 0, w, k, h);
        assert(0 * (w + k) + w == w);
        let t = with_cols(sf, w, w, k);
        BrushView { width: wk as u8, tiles: t, ..b }
    } else {
        b
    };
    assert(b2 == (if x >= b.width {
        let k = (x - b.width + 1) as nat;
        BrushView {
            width: (b.width + k) as u8,
            tiles: with_cols(resized_tiles(b.tiles, ((b.width + k) * b.height) as nat), b.width as int, b.width as int, k),
            ..b
        }
    } else {
        b
    }));
    let w2 = b2.width as int;
    assert(b2.tiles.len() >= w2 * h);
    assert(forall|r: int, c: int|
        0 <= r < h && 0 <= c < w2 ==> #[trigger] b2.tiles[r * w2 + c] == if c < w {
            b.tiles[r * w + c]
        } else {
            0u16
        });
    assert(forall|q: int| w2 * h <= q < b2.tiles.len() ==> #[trigger] b2.tiles[q] == 0);
    let g = grown_brush(b, x, y);
    if y >= b.height {
        let k2 = (y - b.height + 1) as nat;
        assert(g.tiles == b2.tiles + blank_tiles((k2 * w2) as nat));
        assert((h + k2) * w2 == w2 * h + k2 * w2) by (nonlinear_arith);
        assert forall|r: int, c: int| 0 <= r < g.height && 0 <= c < g.width implies #[trigger] g.tiles[r * g.width + c]
            == if r < b.height && c < b.width {
            b.tiles[r * b.width + c]
        } else {
            0u16
        } by {
            assert(r * w2 + c < (h + k2) * w2) by (nonlinear_arith)
                requires
                    r < h + k2,
                    c < w2,
                    r >= 0,
                    c >= 0,
            ;
            assert(g.width == w2);
            let q = r * w2 + c;
            if r < h {
                assert(q < w2 * h) by (nonlinear_arith)
                    requires
                        q == r * w2 + c,
                        r < h,
                        c < w2,
                        r >= 0,
                        c >= 0,
                ;
                assert(g.tiles[q] == b2.tiles[q]);
                assert(b2.tiles[r * w2 + c] == if c < w {
                    b.tiles[r * w + c]
                } else {
                    0u16
                });
            } else {
                assert(q >= w2 * h) by (nonlinear_arith)
                    requires
                        q == r * w2 + c,
                        r >= h,
                        c >= 0,
                        w2 >= 0,
                ;
                if q < b2.tiles.len() {
                    assert(g.tiles[q] == b2.tiles[q]);
                } else {
                    assert(g.tiles[q] == blank_tiles((k2 * w2) as nat)[q - b2.tiles.len()]);
                }
            }
        }
        assert(g.width * g.height == w2 * h + k2 * w2) by (nonlinear_arith)
            requires
                g.width == w2,
                g.height == h + k2,
        ;
        assert forall|q: int| g.width * g.height <= q < g.tiles.len() implies #[trigger] g.tiles[q] == 0 by {
            if q < b2.tiles.len() {
                assert(g.tiles[q] == b2.tiles[q]);
            } else {
                assert(g.tiles[q] == blank_tiles((k2 * w2) as nat)[q - b2.tiles.len()]);
            }
        }
    } else {
        assert(g == b2);
    }
}


} // verus!
