//! Directory scanning core: filters, path keys, entry classification and
//! statistics, with the walking, threading and serialisation kept outside.

pub mod cabi;
pub mod count;
pub mod def;
pub mod entry;
pub mod filter;
pub mod path;
pub mod scandir;
pub mod walk;

pub use cabi::{error_text, map_return_type, to_bool};
pub use def::{
    DirEntry, DirEntryExt, ErrorsType, Options, ReturnType, ScandirResult, ScandirResults,
    ScandirResultsType, Statistics, Toc, WalkEntry, WalkEntryExt, WalkResult, walk_result,
    RETURN_TYPE_BASE, RETURN_TYPE_EXT, RETURN_TYPE_FAST, RETURN_TYPE_FULL, RETURN_TYPE_WALK,
};
pub use filter::{
    create_filter, filter_children, filter_dir, filter_direntry, ChildInfo, Filter, FilterError,
    GlobPattern, PatternList,
};
pub use path::get_root_path_len;
pub use count::CountState;
pub use entry::{EntryMetadata, EntryMetadataExt, EntryStat, WalkedEntry};
pub use walk::{FileLimit, TocChild, WalkState};
pub use scandir::{create_entry, Entry, ScandirState, Stats};
