//! The parameters of the four read-only tools.

use vstd::prelude::*;

verus! {

/// Tool parameter: a file path.
pub struct FileParam {
    /// Absolute path to the source file.
    pub file_path: String,
}

/// Tool parameters: a file path and a position in it.
pub struct PositionParam {
    /// Absolute path to the source file.
    pub file_path: String,
    /// Zero-based line number.
    pub line: u32,
    /// Zero-based character offset.
    pub character: u32,
}

} // verus!
