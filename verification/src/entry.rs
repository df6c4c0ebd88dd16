//! What a directory walk reports about one entry, as plain values.
use std::time::SystemTime;

use vstd::prelude::*;

verus! {

/// Basic metadata of an entry.
#[derive(Debug, Clone, Copy)]
pub struct EntryMetadata {
    /// Size in bytes
    pub size: u64,
    /// Creation time, when the file system keeps one
    pub created: Option<SystemTime>,
    /// Modification time
    pub modified: Option<SystemTime>,
    /// Access time
    pub accessed: Option<SystemTime>,
}

/// Extended (Unix `stat`) metadata of an entry.
#[derive(Debug, Clone, Copy)]
pub struct EntryMetadataExt {
    pub st_mode: u32,
    pub st_ino: u64,
    pub st_dev: u64,
    pub st_nlink: u64,
    pub st_blksize: u64,
    pub st_blocks: u64,
    pub st_uid: u32,
    pub st_gid: u32,
    pub st_rdev: u64,
}

/// The kind, depth and metadata of one walked entry.
#[derive(Debug, Clone, Copy)]
pub struct EntryStat {
    /// `0` for the root of the walk, `1` for its children, and so on
    pub depth: usize,
    pub is_dir: bool,
    pub is_file: bool,
    pub is_symlink: bool,
    pub metadata: Option<EntryMetadata>,
    pub metadata_ext: Option<EntryMetadataExt>,
}

/// One walked entry with its place in the tree.
#[derive(Debug)]
pub struct WalkedEntry {
    pub stat: EntryStat,
    /// The path of the directory holding the entry
    pub parent_path: String,
    /// The entry's name, or, when the name is not valid UTF-8, the debug
    /// rendering of the raw name as the error
    pub file_name: Result<String, String>,
}

} // verus!
