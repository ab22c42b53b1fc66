//! The backend-agnostic metadata a browsable tree reports for a path:
//! what the filesystem browser reads from a real inode, and what a zip
//! archive's index can answer without touching any real file.

use vstd::prelude::*;

verus! {

/// Unix-only metadata, `None` where a backend has no such notion (a zip
/// archive, a non-Unix platform) rather than a fabricated zero.
#[derive(Clone, Copy, Debug)]
pub struct UnixMetadata {
    pub mode: u32,
    pub uid: u32,
    pub gid: u32,
}

/// A stand-in for `std::fs::Metadata`, covering every field the browser
/// reads from one. Times are whole seconds relative to the Unix epoch
/// (negative before it).
#[derive(Clone, Copy, Debug)]
pub struct Metadata {
    pub is_dir: bool,
    pub is_file: bool,
    pub is_symlink: bool,
    pub len: u64,
    pub modified: Option<i64>,
    pub accessed: Option<i64>,
    pub created: Option<i64>,
    pub unix: Option<UnixMetadata>,
}

/// One listed child of a directory: its name, whether it is a directory
/// (after following a symlink) and whether it is a symlink itself.
#[derive(Clone, Debug)]
pub struct DirEntryInfo {
    pub name: String,
    pub is_dir: bool,
    pub is_link: bool,
}

} // verus!
