# stork

Data formats and editing logic of the Stork level editor for Yoshi's Island DS,
written in Verus: every reader, writer and edit carries a contract, and the
properties that tie them together are stated and proved as laws.

## Layout

- `src/` — the verified library.
  - `bytes`, `text`, `parse`, `grid`: little-endian encoding, segment names
    as text, number parsing, row-wise resizing of tile grids.
  - `compression`: LZ10 (through `lamezip77`) and the segment container.
  - `scen/`, `background`: the sub-segments of a background layer and the
    layer itself (reading, compiling, resizing).
  - `mapfile`: map files (MPDZ), their top-level segments and the edits made
    to them; `alph`, `area`, `blkz`, `brak`, `grad`, `path`, `sprites` are the
    top-level segment kinds.
  - `scen_roundtrip`, `map_roundtrip`: the laws that reading a compiled
    background, and a saved map file, gives its parts back. They cover
    sprite, gradient, trigger, path, blending, BRAK and kept-as-read
    segments, and backgrounds made of an INFO followed by PLAN, RAST, IMGB,
    SCRL, COLZ and MPBZ sub-segments (in a map file, an INFO that names no
    external tile graphics); backgrounds with IMBZ or ANMZ sub-segments or
    palettes are not covered. The MPBZ map itself reads back as
    written (`law_mpbz_reread`).
  - `course`, `course_roundtrip`: course files (CRSB), their maps, entrances
    and exits, and the law that reading a written course gives its maps back.
  - `clipboard`, `actions`: the editor's edits on a loaded map — copying,
    cutting and pasting tiles and sprites, clearing layers, stamping brushes,
    and what the keys and drags do to the selection and the map.
  - `brushes`: brushes — placing and erasing tiles, taking the tile
    selection, and the saved-brush list (filtering, storing, overwriting and
    deleting).
  - `engine`, `selection`, `load`, `spritesettings`, `rarc`, `filesys`,
    `resize`, `cli`: game-version checks (from the ROM header's game code),
    level-name lookup, tile selection, the sprite table, sprite settings,
    render archives and the editor's plain state types.
- `tests/` — tests on concrete values, run against the compiled library.
- `app/` — the program around the library: options, logging, file and ROM
  input/output, JSON brushes.
