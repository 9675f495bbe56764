//! Errors of extracting a ROM into a project folder and building one back.
use vstd::prelude::*;

verus! {

/// Why extracting a ROM failed.
#[derive(Debug, Clone)]
pub enum RomExtractError {
    FailedToOpenRom(String),
    FailedToExtractRom,
    FailedToSaveExtractedRom,
    LoadFileWithInvalidName(String),
    ProjectFolderDoesntExist,
    GenericFail,
}

/// The message shown for an extraction error.
pub open spec fn rom_extract_text(e: RomExtractError) -> Seq<char> {
    match e {
        RomExtractError::FailedToOpenRom(path) => "Failed to open ROM file '"@ + path@ + "'"@,
        RomExtractError::FailedToExtractRom => "Failed to extract ROM contents"@,
        RomExtractError::FailedToSaveExtractedRom => "Failed to save extracted ROM contents"@,
        RomExtractError::LoadFileWithInvalidName(path) => "Attempted to load file with invalid name: '"@ + path@
            + "'"@,
        RomExtractError::ProjectFolderDoesntExist => "Project path failed existence check"@,
        RomExtractError::GenericFail => "Open ROM failed"@,
    }
}

impl RomExtractError {
    /// The message shown for the error.
    pub fn message(&self) -> (r: String)
        ensures
            r@ == rom_extract_text(*self),
    {
        match self {
            RomExtractError::FailedToOpenRom(path) => {
                let mut s = String::from_str("Failed to open ROM file '");
                s.append(path.as_str());
                s.append("'");
                s
            },
            RomExtractError::FailedToExtractRom => String::from_str("Failed to extract ROM contents"),
            RomExtractError::FailedToSaveExtractedRom => String::from_str("Failed to save extracted ROM contents"),
            RomExtractError::LoadFileWithInvalidName(path) => {
                let mut s = String::from_str("Attempted to load file with invalid name: '");
                s.append(path.as_str());
                s.append("'");
                s
            },
            RomExtractError::ProjectFolderDoesntExist => String::from_str("Project path failed existence check"),
            RomExtractError::GenericFail => String::from_str("Open ROM failed"),
        }
    }
}

/// Building a ROM from a project folder failed.
#[derive(Debug, Clone, Copy)]
pub struct RomGenerateError {}

} // verus!
