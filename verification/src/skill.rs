//! The in-memory image of one skill document.

use vstd::prelude::*;

verus! {

/// One skill document: where it lives and what it holds.
///
/// Paths are carried as plain strings; the caller that read the file
/// resolves and checks them.
#[derive(Debug)]
pub struct SkillFile {
    /// The directory containing the skill.
    pub dir_path: String,
    /// The skill file itself.
    pub file_path: String,
    /// The file content.
    pub content: String,
}

} // verus!
