//! The data the scanners produce: statistics, tables of contents, directory
//! entries and the options that steer a scan.
use std::time::SystemTime;

use vstd::prelude::*;

use crate::path::{path_join, spec_path_join};

verus! {

/// A point in time as the file system reports it; carried, never inspected.
#[verifier::external_type_specification]
#[verifier::external_body]
pub struct ExSystemTime(SystemTime);

/// Pairs of a file path and the message of the error met there.
pub type ErrorsType = Vec<(String, String)>;

/// How much metadata a scan reads and reports.
#[derive(Debug, Clone, Copy, PartialEq, Eq, Structural, PartialOrd)]
pub enum ReturnType {
    Base,
    Ext,
}

/// The settings of one scan.
#[derive(Debug, Clone)]
pub struct Options {
    pub root_path: String,
    pub sorted: bool,
    pub skip_hidden: bool,
    pub max_depth: usize,
    pub max_file_cnt: usize,
    pub dir_include: Option<Vec<String>>,
    pub dir_exclude: Option<Vec<String>>,
    pub file_include: Option<Vec<String>>,
    pub file_exclude: Option<Vec<String>>,
    pub case_sensitive: bool,
    pub follow_links: bool,
    pub return_type: ReturnType,
}

/// A depth or count limit as the builders store it: `0` means no limit.
pub open spec fn limit_value(n: usize) -> usize {
    if n == 0 {
        usize::MAX
    } else {
        n
    }
}

/// A positive depth or count limit is kept as given, so a limit of 1 walks
/// only the top level; only 0 lifts the limit.
pub proof fn law_only_zero_lifts_a_limit(n: usize)
    ensures
        n > 0 ==> limit_value(n) == n,
        n == 0 ==> limit_value(n) == usize::MAX,
        limit_value(n) == usize::MAX ==> n == 0 || n == usize::MAX,
{
}

/// The return type that the `extended` switch selects.
pub open spec fn return_type_for(extended: bool) -> ReturnType {
    if extended {
        ReturnType::Ext
    } else {
        ReturnType::Base
    }
}

impl Options {
    /// Unsorted, unlimited, unfiltered, case-insensitive, symlinks not
    /// followed, basic metadata; `skip_hidden` as the scanner chooses.
    pub fn new(root_path: String, skip_hidden: bool) -> (r: Options)
        ensures
            r.root_path == root_path,
            r.sorted == false,
            r.skip_hidden == skip_hidden,
            r.max_depth == usize::MAX,
            r.max_file_cnt == usize::MAX,
            r.dir_include is None,
            r.dir_exclude is None,
            r.file_include is None,
            r.file_exclude is None,
            r.case_sensitive == false,
            r.follow_links == false,
            r.return_type == ReturnType::Base,
    {
        Options {
            root_path,
            sorted: false,
            skip_hidden,
            max_depth: usize::MAX,
            max_file_cnt: usize::MAX,
            dir_include: None,
            dir_exclude: None,
            file_include: None,
            file_exclude: None,
            case_sensitive: false,
            follow_links: false,
            return_type: ReturnType::Base,
        }
    }

    /// Sets the maximum depth; `0` lifts the limit.
    pub fn set_max_depth(&mut self, depth: usize)
        ensures
            *final(self) == (Options { max_depth: limit_value(depth), ..*old(self) }),
            depth > 0 ==> final(self).max_depth == depth,
            depth == 0 ==> final(self).max_depth == usize::MAX,
    {
        self.max_depth = if depth == 0 {
            usize::MAX
        } else {
            depth
        };
    }

    /// Sets the maximum number of files; `0` lifts the limit.
    pub fn set_max_file_cnt(&mut self, max_file_cnt: usize)
        ensures
            *final(self) == (Options { max_file_cnt: limit_value(max_file_cnt), ..*old(self) }),
            max_file_cnt > 0 ==> final(self).max_file_cnt == max_file_cnt,
            max_file_cnt == 0 ==> final(self).max_file_cnt == usize::MAX,
    {
        self.max_file_cnt = if max_file_cnt == 0 {
            usize::MAX
        } else {
            max_file_cnt
        };
    }

    /// Selects extended (`true`) or basic (`false`) metadata.
    pub fn set_extended(&mut self, extended: bool)
        ensures
            *final(self) == (Options { return_type: return_type_for(extended), ..*old(self) }),
    {
        self.return_type = if extended {
            ReturnType::Ext
        } else {
            ReturnType::Base
        };
    }
}

/// A copy of a list of strings, element by element.
pub fn clone_strings(v: &Vec<String>) -> (r: Vec<String>)
    ensures
        r@ == v@,
{
    let mut r: Vec<String> = Vec::new();
    for i in 0..v.len()
        invariant
            r@ == v@.subrange(0, i as int),
    {
        r.push(v[i].clone());
        assert(r@ =~= v@.subrange(0, i + 1));
    }
    assert(r@ =~= v@);
    r
}

/// Statistics of a directory tree.
#[derive(Debug, Clone, PartialEq)]
pub struct Statistics {
    pub dirs: i32,
    pub files: i32,
    pub slinks: i32,
    pub hlinks: i32,
    pub devices: i32,
    pub pipes: i32,
    pub size: u64,
    pub usage: u64,
    pub errors: Vec<String>,
}

impl Statistics {
    /// All counters zero and no errors.
    pub open spec fn is_cleared(&self) -> bool {
        &&& self.dirs == 0
        &&& self.files == 0
        &&& self.slinks == 0
        &&& self.hlinks == 0
        &&& self.devices == 0
        &&& self.pipes == 0
        &&& self.size == 0
        &&& self.usage == 0
        &&& self.errors@.len() == 0
    }

    pub fn new() -> (r: Statistics)
        ensures
            r.is_cleared(),
    {
        Statistics {
            dirs: 0,
            files: 0,
            slinks: 0,
            hlinks: 0,
            devices: 0,
            pipes: 0,
            size: 0,
            usage: 0,
            errors: Vec::new(),
        }
    }

    pub fn clear(&mut self)
        ensures
            final(self).is_cleared(),
    {
        self.dirs = 0;
        self.files = 0;
        self.slinks = 0;
        self.hlinks = 0;
        self.devices = 0;
        self.pipes = 0;
        self.size = 0;
        self.usage = 0;
        self.errors.clear();
    }
}

impl Default for Statistics {
    fn default() -> (r: Statistics)
        ensures
            r.is_cleared(),
    {
        Statistics::new()
    }
}

/// The names found in one directory, grouped by kind.
#[derive(Debug, PartialEq)]
pub struct Toc {
    pub dirs: Vec<String>,
    pub files: Vec<String>,
    pub symlinks: Vec<String>,
    pub other: Vec<String>,
    pub errors: Vec<String>,
}

/// `after` is `before` followed by each of `names` pushed onto `root`.
pub open spec fn appended_joined(
    before: Seq<String>,
    after: Seq<String>,
    root: Seq<char>,
    names: Seq<String>,
) -> bool {
    &&& after.len() == before.len() + names.len()
    &&& forall|i: int| 0 <= i < before.len() ==> after[i] == before[i]
    &&& forall|j: int|
        0 <= j < names.len() ==> (#[trigger] after[before.len() + j])@ == spec_path_join(
            root,
            names[j]@,
        )
}

/// Pushes each of `names`, joined onto `root`, to the end of `dst`.
fn extend_joined(dst: &mut Vec<String>, root: &str, names: &Vec<String>)
    ensures
        appended_joined(old(dst)@, final(dst)@, root@, names@),
{
    let ghost before = dst@;
    for j in 0..names.len()
        invariant
            dst@.len() == before.len() + j,
            forall|i: int| 0 <= i < before.len() ==> dst@[i] == before[i],
            forall|k: int|
                0 <= k < j ==> (#[trigger] dst@[before.len() + k])@ == spec_path_join(
                    root@,
                    names@[k]@,
                ),
    {
        let joined = path_join(root, names[j].as_str());
        dst.push(joined);
    }
}

/// The five lists of a table of contents: directories, files, symlinks,
/// other entries and errors.
pub type TocView = (Seq<String>, Seq<String>, Seq<String>, Seq<String>, Seq<String>);

impl View for Toc {
    type V = TocView;

    open spec fn view(&self) -> TocView {
        (self.dirs@, self.files@, self.symlinks@, self.other@, self.errors@)
    }
}

impl Clone for Toc {
    fn clone(&self) -> (r: Self)
        ensures
            r@ == self@,
    {
        Toc {
            dirs: clone_strings(&self.dirs),
            files: clone_strings(&self.files),
            symlinks: clone_strings(&self.symlinks),
            other: clone_strings(&self.other),
            errors: clone_strings(&self.errors),
        }
    }
}

impl Toc {
    /// Every list empty.
    pub open spec fn spec_is_empty(&self) -> bool {
        &&& self.dirs@.len() == 0
        &&& self.files@.len() == 0
        &&& self.symlinks@.len() == 0
        &&& self.other@.len() == 0
        &&& self.errors@.len() == 0
    }

    pub fn new() -> (r: Toc)
        ensures
            r.spec_is_empty(),
    {
        Toc {
            dirs: Vec::new(),
            files: Vec::new(),
            symlinks: Vec::new(),
            other: Vec::new(),
            errors: Vec::new(),
        }
    }

    pub fn clear(&mut self)
        ensures
            final(self).spec_is_empty(),
    {
        self.dirs.clear();
        self.files.clear();
        self.symlinks.clear();
        self.other.clear();
        self.errors.clear();
    }

    pub fn dirs(&self) -> (r: Vec<String>)
        ensures
            r@ == self.dirs@,
    {
        clone_strings(&self.dirs)
    }

    pub fn files(&self) -> (r: Vec<String>)
        ensures
            r@ == self.files@,
    {
        clone_strings(&self.files)
    }

    pub fn symlinks(&self) -> (r: Vec<String>)
        ensures
            r@ == self.symlinks@,
    {
        clone_strings(&self.symlinks)
    }

    pub fn other(&self) -> (r: Vec<String>)
        ensures
            r@ == self.other@,
    {
        clone_strings(&self.other)
    }

    pub fn errors(&self) -> (r: Vec<String>)
        ensures
            r@ == self.errors@,
    {
        clone_strings(&self.errors)
    }

    pub fn is_empty(&self) -> (r: bool)
        ensures
            r == self.spec_is_empty(),
    {
        self.dirs.is_empty() && self.files.is_empty() && self.symlinks.is_empty()
            && self.other.is_empty() && self.errors.is_empty()
    }

    /// Appends the names of `other`, each joined onto `root_dir`, list by list.
    pub fn extend(&mut self, root_dir: &str, other: &Toc)
        ensures
            appended_joined(old(self).dirs@, final(self).dirs@, root_dir@, other.dirs@),
            appended_joined(old(self).files@, final(self).files@, root_dir@, other.files@),
            appended_joined(old(self).symlinks@, final(self).symlinks@, root_dir@, other.symlinks@),
            appended_joined(old(self).other@, final(self).other@, root_dir@, other.other@),
            appended_joined(old(self).errors@, final(self).errors@, root_dir@, other.errors@),
    {
        extend_joined(&mut self.dirs, root_dir, &other.dirs);
        extend_joined(&mut self.files, root_dir, &other.files);
        extend_joined(&mut self.symlinks, root_dir, &other.symlinks);
        extend_joined(&mut self.other, root_dir, &other.other);
        extend_joined(&mut self.errors, root_dir, &other.errors);
    }
}

impl Default for Toc {
    fn default() -> (r: Toc)
        ensures
            r.spec_is_empty(),
    {
        Toc::new()
    }
}

/// Basic metadata of one entry; the times are those the file system gave.
#[derive(Debug, PartialEq, Default)]
pub struct DirEntry {
    pub path: String,
    pub is_symlink: bool,
    pub is_dir: bool,
    pub is_file: bool,
    pub st_ctime: Option<SystemTime>,
    pub st_mtime: Option<SystemTime>,
    pub st_atime: Option<SystemTime>,
    pub st_size: u64,
}

/// Extended metadata of one entry.
#[derive(Debug, PartialEq, Default)]
pub struct DirEntryExt {
    pub path: String,
    pub is_symlink: bool,
    pub is_dir: bool,
    pub is_file: bool,
    /// Creation time
    pub st_ctime: Option<SystemTime>,
    /// Modification time
    pub st_mtime: Option<SystemTime>,
    /// Access time
    pub st_atime: Option<SystemTime>,
    /// Size of file / entry
    pub st_size: u64,
    /// File system block size
    pub st_blksize: u64,
    /// Number of used blocks on device / file system
    pub st_blocks: u64,
    /// File access mode / rights
    pub st_mode: u32,
    /// Number of hardlinks
    pub st_nlink: u64,
    /// User ID (Unix only)
    pub st_uid: u32,
    /// Group ID (Unix only)
    pub st_gid: u32,
    /// I-Node number (Unix only)
    pub st_ino: u64,
    /// Device number (Unix only)
    pub st_dev: u64,
    /// Device number (for character and block devices on Unix).
    pub st_rdev: u64,
}

/// One result of a scan: an entry with basic or extended metadata, or an
/// error as a pair of path and message.
#[derive(Debug, PartialEq)]
pub enum ScandirResult {
    DirEntry(DirEntry),
    DirEntryExt(DirEntryExt),
    Error((String, String)),
}

impl Clone for DirEntry {
    fn clone(&self) -> (r: Self)
        ensures
            r == *self,
    {
        DirEntry {
            path: self.path.clone(),
            is_symlink: self.is_symlink,
            is_dir: self.is_dir,
            is_file: self.is_file,
            st_ctime: self.st_ctime,
            st_mtime: self.st_mtime,
            st_atime: self.st_atime,
            st_size: self.st_size,
        }
    }
}

impl Clone for DirEntryExt {
    fn clone(&self) -> (r: Self)
        ensures
            r == *self,
    {
        DirEntryExt {
            path: self.path.clone(),
            is_symlink: self.is_symlink,
            is_dir: self.is_dir,
            is_file: self.is_file,
            st_ctime: self.st_ctime,
            st_mtime: self.st_mtime,
            st_atime: self.st_atime,
            st_size: self.st_size,
            st_blksize: self.st_blksize,
            st_blocks: self.st_blocks,
            st_mode: self.st_mode,
            st_nlink: self.st_nlink,
            st_uid: self.st_uid,
            st_gid: self.st_gid,
            st_ino: self.st_ino,
            st_dev: self.st_dev,
            st_rdev: self.st_rdev,
        }
    }
}

impl Clone for ScandirResult {
    fn clone(&self) -> (r: Self)
        ensures
            r == *self,
    {
        match self {
            ScandirResult::DirEntry(e) => ScandirResult::DirEntry(e.clone()),
            ScandirResult::DirEntryExt(e) => ScandirResult::DirEntryExt(e.clone()),
            ScandirResult::Error(e) => ScandirResult::Error((e.0.clone(), e.1.clone())),
        }
    }
}

impl ScandirResult {
    pub open spec fn spec_path(&self) -> String {
        match self {
            ScandirResult::DirEntry(e) => e.path,
            ScandirResult::DirEntryExt(e) => e.path,
            ScandirResult::Error(e) => e.0,
        }
    }

    pub open spec fn spec_is_dir(&self) -> bool {
        match self {
            ScandirResult::DirEntry(e) => e.is_dir,
            ScandirResult::DirEntryExt(e) => e.is_dir,
            ScandirResult::Error(_) => false,
        }
    }

    pub open spec fn spec_is_file(&self) -> bool {
        match self {
            ScandirResult::DirEntry(e) => e.is_file,
            ScandirResult::DirEntryExt(e) => e.is_file,
            ScandirResult::Error(_) => false,
        }
    }

    pub open spec fn spec_is_symlink(&self) -> bool {
        match self {
            ScandirResult::DirEntry(e) => e.is_symlink,
            ScandirResult::DirEntryExt(e) => e.is_symlink,
            ScandirResult::Error(_) => false,
        }
    }

    pub open spec fn spec_size(&self) -> u64 {
        match self {
            ScandirResult::DirEntry(e) => e.st_size,
            ScandirResult::DirEntryExt(e) => e.st_size,
            ScandirResult::Error(_) => 0,
        }
    }

    /// The path of the entry, or the path at which the error occurred.
    pub fn path(&self) -> (r: &String)
        ensures
            *r == self.spec_path(),
    {
        match self {
            ScandirResult::DirEntry(e) => &e.path,
            ScandirResult::DirEntryExt(e) => &e.path,
            ScandirResult::Error(e) => &e.0,
        }
    }

    pub fn error(&self) -> (r: Option<&(String, String)>)
        ensures
            match self {
                ScandirResult::Error(e) => r == Some(e),
                _ => r is None,
            },
    {
        match self {
            ScandirResult::Error(e) => Some(e),
            _ => None,
        }
    }

    pub fn is_dir(&self) -> (r: bool)
        ensures
            r == self.spec_is_dir(),
    {
        match self {
            ScandirResult::DirEntry(e) => e.is_dir,
            ScandirResult::DirEntryExt(e) => e.is_dir,
            ScandirResult::Error(_) => false,
        }
    }

    pub fn is_file(&self) -> (r: bool)
        ensures
            r == self.spec_is_file(),
    {
        match self {
            ScandirResult::DirEntry(e) => e.is_file,
            ScandirResult::DirEntryExt(e) => e.is_file,
            ScandirResult::Error(_) => false,
        }
    }

    pub fn is_symlink(&self) -> (r: bool)
        ensures
            r == self.spec_is_symlink(),
    {
        match self {
            ScandirResult::DirEntry(e) => e.is_symlink,
            ScandirResult::DirEntryExt(e) => e.is_symlink,
            ScandirResult::Error(_) => false,
        }
    }

    pub fn size(&self) -> (r: u64)
        ensures
            r == self.spec_size(),
    {
        match self {
            ScandirResult::DirEntry(e) => e.st_size,
            ScandirResult::DirEntryExt(e) => e.st_size,
            ScandirResult::Error(_) => 0,
        }
    }

    /// The extended metadata, when the result carries it.
    pub fn ext(&self) -> (r: Option<&DirEntryExt>)
        ensures
            match self {
                ScandirResult::DirEntryExt(e) => r == Some(e),
                _ => r is None,
            },
    {
        match self {
            ScandirResult::DirEntryExt(e) => Some(e),
            _ => None,
        }
    }
}

pub type ScandirResultsType = Vec<ScandirResult>;

/// The entries of a scan and the errors met on the way.
#[derive(Debug, Clone, PartialEq)]
pub struct ScandirResults {
    pub results: Vec<ScandirResult>,
    pub errors: ErrorsType,
}

impl ScandirResults {
    pub fn new() -> (r: ScandirResults)
        ensures
            r.results@.len() == 0,
            r.errors@.len() == 0,
    {
        ScandirResults { results: Vec::new(), errors: Vec::new() }
    }

    pub fn clear(&mut self)
        ensures
            final(self).results@.len() == 0,
            final(self).errors@.len() == 0,
    {
        self.results.clear();
        self.errors.clear();
    }

    pub fn is_empty(&self) -> (r: bool)
        ensures
            r == (self.results@.len() == 0 && self.errors@.len() == 0),
    {
        self.results.is_empty() && self.errors.is_empty()
    }

    pub fn len(&self) -> (r: usize)
        requires
            self.results@.len() + self.errors@.len() <= usize::MAX,
        ensures
            r == self.results@.len() + self.errors@.len(),
    {
        self.results.len() + self.errors.len()
    }

    /// Appends the entries and the errors of `other`.
    pub fn extend(&mut self, other: &ScandirResults)
        ensures
            final(self).results@ == old(self).results@ + other.results@,
            final(self).errors@ == old(self).errors@ + other.errors@,
    {
        let ghost r0 = self.results@;
        let ghost e0 = self.errors@;
        for i in 0..other.results.len()
            invariant
                self.results@ == r0 + other.results@.subrange(0, i as int),
                self.errors@ == e0,
        {
            self.results.push(other.results[i].clone());
            assert(self.results@ =~= r0 + other.results@.subrange(0, i + 1));
        }
        for i in 0..other.errors.len()
            invariant
                self.results@ == r0 + other.results@,
                self.errors@ == e0 + other.errors@.subrange(0, i as int),
        {
            let (p, m) = &other.errors[i];
            self.errors.push((p.clone(), m.clone()));
            assert(self.errors@ =~= e0 + other.errors@.subrange(0, i + 1));
        }
        assert(other.results@.subrange(0, other.results@.len() as int) =~= other.results@);
        assert(other.errors@.subrange(0, other.errors@.len() as int) =~= other.errors@);
    }
}

impl Default for ScandirResults {
    fn default() -> (r: ScandirResults)
        ensures
            r.results@.len() == 0,
            r.errors@.len() == 0,
    {
        ScandirResults::new()
    }
}

/// A directory and its table of contents.
#[derive(Debug, Clone, PartialEq)]
pub struct WalkEntry {
    pub path: String,
    pub toc: Toc,
}

/// A directory and its table of contents, with symlinks, others and errors.
#[derive(Debug, Clone, PartialEq)]
pub struct WalkEntryExt {
    pub path: String,
    pub toc: Toc,
}

#[derive(Debug, Clone)]
pub enum WalkResult {
    Toc(Toc),
    WalkEntry(WalkEntry),
    WalkEntryExt(WalkEntryExt),
}

/// Read only file- and directory names without metadata
pub const RETURN_TYPE_FAST: u8 = 0;

/// Read also basic metadata
pub const RETURN_TYPE_BASE: u8 = 1;

/// Read also extended metadata
pub const RETURN_TYPE_EXT: u8 = 2;

/// Also provide relative path and filename in result
pub const RETURN_TYPE_FULL: u8 = 3;

/// Walk results with directories and files only
pub const RETURN_TYPE_WALK: u8 = 4;

/// The walk result for the table of contents `toc` of the directory at
/// `path`: a plain entry for the walk return type, an extended entry (with
/// symlinks, others and errors) for any other.
pub fn walk_result(path: String, toc: Toc, return_type: u8) -> (r: WalkResult)
    ensures
        return_type == RETURN_TYPE_WALK ==> r == (WalkResult::WalkEntry(WalkEntry { path, toc })),
        return_type != RETURN_TYPE_WALK ==> r == (WalkResult::WalkEntryExt(
            WalkEntryExt { path, toc },
        )),
{
    if return_type == RETURN_TYPE_WALK {
        WalkResult::WalkEntry(WalkEntry { path, toc })
    } else {
        WalkResult::WalkEntryExt(WalkEntryExt { path, toc })
    }
}

} // verus!
