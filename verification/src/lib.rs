//! Data formats and editing logic for Yoshi's Island DS level files.
pub mod bytes;
pub mod compression;
pub mod types;
pub mod scen;
pub mod grid;
pub mod background;
pub mod segments;
pub mod alph;
pub mod brak;
pub mod grad;
pub mod blkz;
pub mod text;
pub mod ids;
pub mod area;
pub mod path;
pub mod sprites;
pub mod mapfile;
pub mod course;
pub mod engine;
pub mod parse;
pub mod load;
pub mod spritesettings;
pub mod selection;
pub mod rarc;
pub mod brushes;
pub mod filesys;
pub mod cli;
pub mod resize;
pub mod course_roundtrip;
pub mod scen_roundtrip;
pub mod map_roundtrip;
pub mod clipboard;
pub mod actions;
