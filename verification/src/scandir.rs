//! Turning walked entries into `DirEntry` results and keeping what a scan
//! has delivered.
use std::time::SystemTime;

use vstd::prelude::*;

use crate::def::{
    DirEntry, DirEntryExt, ErrorsType, ReturnType, ScandirResult, ScandirResults,
    ScandirResultsType,
};
use crate::entry::{EntryStat, WalkedEntry};
use crate::path::{path_join, spec_path_join, spec_suffix_from, str_suffix_from};

verus! {

/// What the worker reports for one entry: a result, or an error message.
#[derive(Debug, Clone)]
pub enum Stats {
    ScandirResult(ScandirResult),
    Error(String),
}

/// One report of the worker, with the absolute path of the entry.
#[derive(Debug, Clone)]
pub struct Entry {
    /// Absolute file path
    pub path: String,
    /// File stats
    pub entry: Stats,
}

pub open spec fn meta_time_created(e: EntryStat) -> Option<SystemTime> {
    match e.metadata {
        Some(m) => m.created,
        None => None,
    }
}

pub open spec fn meta_time_modified(e: EntryStat) -> Option<SystemTime> {
    match e.metadata {
        Some(m) => m.modified,
        None => None,
    }
}

pub open spec fn meta_time_accessed(e: EntryStat) -> Option<SystemTime> {
    match e.metadata {
        Some(m) => m.accessed,
        None => None,
    }
}

pub open spec fn meta_size_of(e: EntryStat) -> u64 {
    match e.metadata {
        Some(m) => m.size,
        None => 0,
    }
}

/// The extended metadata that counts: it is read only along with the basic
/// metadata.
pub open spec fn ext_of(e: EntryStat) -> Option<crate::entry::EntryMetadataExt> {
    match e.metadata {
        Some(_) => e.metadata_ext,
        None => None,
    }
}

/// The path reported for an entry: its absolute path after the root
/// prefix, or its name when that cut is not possible.
pub open spec fn reported_path(root_path_len: int, full: Seq<char>, name: Seq<char>) -> Seq<char> {
    match spec_suffix_from(full, root_path_len) {
        Some(k) => k,
        None => name,
    }
}

/// A basic result that describes `e` under `path`.
pub open spec fn describes(d: DirEntry, e: EntryStat, path: Seq<char>) -> bool {
    &&& d.path@ == path
    &&& d.is_symlink == e.is_symlink
    &&& d.is_dir == e.is_dir
    &&& d.is_file == e.is_file
    &&& d.st_ctime == meta_time_created(e)
    &&& d.st_mtime == meta_time_modified(e)
    &&& d.st_atime == meta_time_accessed(e)
    &&& d.st_size == meta_size_of(e)
}

/// An extended result that describes `e` under `path`; without extended
/// metadata the numbers are zero and the block size 4096.
pub open spec fn describes_ext(d: DirEntryExt, e: EntryStat, path: Seq<char>) -> bool {
    &&& d.path@ == path
    &&& d.is_symlink == e.is_symlink
    &&& d.is_dir == e.is_dir
    &&& d.is_file == e.is_file
    &&& d.st_ctime == meta_time_created(e)
    &&& d.st_mtime == meta_time_modified(e)
    &&& d.st_atime == meta_time_accessed(e)
    &&& d.st_size == meta_size_of(e)
    &&& match ext_of(e) {
        Some(x) => {
            &&& d.st_mode == x.st_mode
            &&& d.st_ino == x.st_ino
            &&& d.st_dev == x.st_dev
            &&& d.st_nlink == x.st_nlink
            &&& d.st_blksize == x.st_blksize
            &&& d.st_blocks == x.st_blocks
            &&& d.st_uid == x.st_uid
            &&& d.st_gid == x.st_gid
            &&& d.st_rdev == x.st_rdev
        },
        None => {
            &&& d.st_mode == 0 && d.st_ino == 0 && d.st_dev == 0 && d.st_nlink == 0
            &&& d.st_blksize == 4096 && d.st_blocks == 0
            &&& d.st_uid == 0 && d.st_gid == 0 && d.st_rdev == 0
        },
    }
}

/// The report for one walked entry: whether it is a file, and the entry.
/// A name that is not valid UTF-8 gives an error at the parent's path;
/// otherwise the result has the metadata the return type asks for.
pub open spec fn created_entry(
    root_path_len: int,
    return_type: ReturnType,
    e: WalkedEntry,
    r: (bool, Entry),
) -> bool {
    &&& r.0 == e.stat.is_file
    &&& match e.file_name {
        Err(raw) => {
            &&& r.1.path@ == e.parent_path@
            &&& r.1.entry matches Stats::ScandirResult(ScandirResult::Error(pe))
            &&& pe.0 == raw
            &&& pe.1@ == "Invalid file name!"@
        },
        Ok(name) => {
            let full = spec_path_join(e.parent_path@, name@);
            let path = reported_path(root_path_len, full, name@);
            &&& r.1.path@ == full
            &&& match return_type {
                ReturnType::Base => r.1.entry matches Stats::ScandirResult(ScandirResult::DirEntry(d))
                    && describes(d, e.stat, path),
                ReturnType::Ext => r.1.entry matches Stats::ScandirResult(
                    ScandirResult::DirEntryExt(d),
                ) && describes_ext(d, e.stat, path),
            }
        },
    }
}

/// Describes one walked entry.
pub fn create_entry(root_path_len: usize, return_type: &ReturnType, dir_entry: &WalkedEntry) -> (r: (
    bool,
    Entry,
))
    ensures
        created_entry(root_path_len as int, *return_type, *dir_entry, r),
{
    let stat = &dir_entry.stat;
    let mut st_ctime: Option<SystemTime> = None;
    let mut st_mtime: Option<SystemTime> = None;
    let mut st_atime: Option<SystemTime> = None;
    let mut st_mode: u32 = 0;
    let mut st_ino: u64 = 0;
    let mut st_dev: u64 = 0;
    let mut st_nlink: u64 = 0;
    let mut st_size: u64 = 0;
    let mut st_blksize: u64 = 4096;
    let mut st_blocks: u64 = 0;
    let mut st_uid: u32 = 0;
    let mut st_gid: u32 = 0;
    let mut st_rdev: u64 = 0;
    if let Some(metadata) = stat.metadata {
        st_ctime = metadata.created;
        st_mtime = metadata.modified;
        st_atime = metadata.accessed;
        st_size = metadata.size;
        if let Some(x) = stat.metadata_ext {
            st_mode = x.st_mode;
            st_ino = x.st_ino;
            st_dev = x.st_dev;
            st_nlink = x.st_nlink;
            st_blksize = x.st_blksize;
            st_blocks = x.st_blocks;
            st_uid = x.st_uid;
            st_gid = x.st_gid;
            st_rdev = x.st_rdev;
        }
    }
    let is_file = stat.is_file;
    let file_name = match &dir_entry.file_name {
        Ok(s) => s,
        Err(raw) => {
            let message = "Invalid file name!";
            return (
                is_file,
                Entry {
                    path: dir_entry.parent_path.clone(),
                    entry: Stats::ScandirResult(
                        ScandirResult::Error((raw.clone(), message.to_owned())),
                    ),
                },
            );
        },
    };
    let key = path_join(dir_entry.parent_path.as_str(), file_name.as_str());
    let path = match str_suffix_from(key.as_str(), root_path_len) {
        Some(k) => k.to_owned(),
        None => file_name.clone(),
    };
    let entry: ScandirResult = match return_type {
        ReturnType::Base => ScandirResult::DirEntry(
            DirEntry {
                path,
                is_symlink: stat.is_symlink,
                is_dir: stat.is_dir,
                is_file,
                st_ctime,
                st_mtime,
                st_atime,
                st_size,
            },
        ),
        ReturnType::Ext => ScandirResult::DirEntryExt(
            DirEntryExt {
                path,
                is_symlink: stat.is_symlink,
                is_dir: stat.is_dir,
                is_file,
                st_ctime,
                st_mtime,
                st_atime,
                st_mode,
                st_ino,
                st_dev,
                st_nlink,
                st_size,
                st_blksize,
                st_blocks,
                st_uid,
                st_gid,
                st_rdev,
            },
        ),
    };
    (is_file, Entry { path: key, entry: Stats::ScandirResult(entry) })
}

/// Whether a scan holds as many files as a positive limit allows, so that
/// no further file may be reported.
pub fn file_limit_reached(max_file_cnt: usize, file_cnt: usize) -> (r: bool)
    ensures
        r == (max_file_cnt > 0 && file_cnt >= max_file_cnt),
{
    max_file_cnt > 0 && file_cnt >= max_file_cnt
}

/// Takes the place of one more file in a scan: the new file count, or
/// `None` when the limit is reached and the file is not to be reported.
pub fn take_file_slot(max_file_cnt: usize, file_cnt: usize) -> (r: Option<usize>)
    requires
        !(max_file_cnt > 0 && file_cnt >= max_file_cnt) ==> file_cnt < usize::MAX,
    ensures
        r is None <==> (max_file_cnt > 0 && file_cnt >= max_file_cnt),
        r matches Some(n) ==> n == file_cnt + 1,
        r matches Some(n) ==> (max_file_cnt > 0 && file_cnt <= max_file_cnt ==> n <= max_file_cnt),
{
    if file_limit_reached(max_file_cnt, file_cnt) {
        None
    } else {
        Some(file_cnt + 1)
    }
}

/// Splits reports into results and errors, in order: an error result and an
/// error message (paired with the entry's path) go to the errors, every
/// other result to the results.
pub open spec fn split_reports(v: Seq<Entry>) -> (Seq<ScandirResult>, Seq<(String, String)>)
    decreases v.len(),
{
    if v.len() == 0 {
        (Seq::empty(), Seq::empty())
    } else {
        let p = split_reports(v.drop_last());
        let e = v.last();
        match e.entry {
            Stats::ScandirResult(r) => match r {
                ScandirResult::Error(pe) => (p.0, p.1.push(pe)),
                _ => (p.0.push(r), p.1),
            },
            Stats::Error(m) => (p.0, p.1.push((e.path, m))),
        }
    }
}

/// A copy of a list of results.
fn clone_results(v: &Vec<ScandirResult>) -> (r: Vec<ScandirResult>)
    ensures
        r@ == v@,
{
    let mut r: Vec<ScandirResult> = Vec::new();
    for i in 0..v.len()
        invariant
            r@ == v@.subrange(0, i as int),
    {
        r.push(v[i].clone());
        assert(r@ =~= v@.subrange(0, i + 1));
    }
    assert(v@.subrange(0, v@.len() as int) =~= v@);
    r
}

/// A copy of a list of errors.
fn clone_errors(v: &ErrorsType) -> (r: ErrorsType)
    ensures
        r@ == v@,
{
    let mut r: ErrorsType = Vec::new();
    for i in 0..v.len()
        invariant
            r@ == v@.subrange(0, i as int),
    {
        let p = v[i].0.clone();
        let m = v[i].1.clone();
        r.push((p, m));
        assert(r@ =~= v@.subrange(0, i + 1));
    }
    assert(v@.subrange(0, v@.len() as int) =~= v@);
    r
}

/// `after` is `before` once it has taken in `received`: with storing on,
/// the new results and errors are appended to those kept; with storing off
/// nothing kept changes.
pub open spec fn takes_in(before: ScandirState, after: ScandirState, received: Seq<Entry>) -> bool {
    &&& after.spec_store() == before.spec_store()
    &&& after.spec_entries() == if before.spec_store() {
        before.spec_entries() + split_reports(received).0
    } else {
        before.spec_entries()
    }
    &&& after.spec_errors() == if before.spec_store() {
        before.spec_errors() + split_reports(received).1
    } else {
        before.spec_errors()
    }
}

/// Whether results are available: new ones waiting (`pending`) or, unless
/// `only_new`, results or errors kept.
pub open spec fn results_available(s: ScandirState, only_new: bool, pending: bool) -> bool {
    pending || (!only_new && (s.spec_entries().len() > 0 || s.spec_errors().len() > 0))
}

/// The number of results and errors that `results` gives after taking in
/// `received`: everything kept (`only_new` false, storing on), otherwise the
/// new ones.
pub open spec fn results_count(after: ScandirState, only_new: bool, received: Seq<Entry>) -> int {
    if !only_new && after.spec_store() {
        (after.spec_entries().len() + after.spec_errors().len()) as int
    } else {
        (split_reports(received).0.len() + split_reports(received).1.len()) as int
    }
}

/// What a scan keeps of its results.
#[derive(Debug)]
pub struct ScandirState {
    store: bool,
    entries: ScandirResultsType,
    errors: ErrorsType,
}

impl ScandirState {
    pub closed spec fn spec_store(&self) -> bool {
        self.store
    }

    pub closed spec fn spec_entries(&self) -> Seq<ScandirResult> {
        self.entries@
    }

    pub closed spec fn spec_errors(&self) -> Seq<(String, String)> {
        self.errors@
    }

    /// Results are kept unless `store` says otherwise.
    pub fn new(store: Option<bool>) -> (r: ScandirState)
        ensures
            r.spec_store() == match store {
                Some(b) => b,
                None => true,
            },
            r.spec_entries().len() == 0,
            r.spec_errors().len() == 0,
    {
        ScandirState {
            store: match store {
                Some(b) => b,
                None => true,
            },
            entries: Vec::new(),
            errors: Vec::new(),
        }
    }

    /// Forgets all results.
    pub fn clear(&mut self)
        ensures
            final(self).spec_store() == old(self).spec_store(),
            final(self).spec_entries().len() == 0,
            final(self).spec_errors().len() == 0,
    {
        self.entries.clear();
        self.errors.clear();
    }

    /// Sorts what the worker delivered into results and errors.
    fn receive_all(received: Vec<Entry>) -> (r: ScandirResults)
        ensures
            (r.results@, r.errors@) == split_reports(received@),
    {
        let ghost orig = received@;
        let n = received.len();
        let mut received = received;
        let mut rev: Vec<Entry> = Vec::new();
        while received.len() > 0
            invariant
                n == orig.len(),
                received@.len() <= n,
                received@ == orig.subrange(0, received@.len() as int),
                rev@ == orig.subrange(received@.len() as int, n as int).reverse(),
            decreases received@.len(),
        {
            let x = received.pop().unwrap();
            rev.push(x);
            assert(received@ =~= orig.subrange(0, received@.len() as int));
            assert(rev@ =~= orig.subrange(received@.len() as int, n as int).reverse());
        }
        let mut entries: ScandirResultsType = Vec::new();
        let mut errors: ErrorsType = Vec::new();
        let mut i: usize = 0;
        assert(orig.subrange(0, 0) =~= Seq::<Entry>::empty());
        while rev.len() > 0
            invariant
                n == orig.len(),
                i + rev@.len() == n,
                rev@ == orig.subrange(i as int, n as int).reverse(),
                (entries@, errors@) == split_reports(orig.subrange(0, i as int)),
            decreases rev@.len(),
        {
            let e = rev.pop().unwrap();
            proof {
                let s = orig.subrange(0, i + 1);
                assert(s.drop_last() =~= orig.subrange(0, i as int));
                assert(s.last() == orig[i as int]);
                assert(e == orig[i as int]);
            }
            match e.entry {
                Stats::ScandirResult(r) => match r {
                    ScandirResult::Error(pe) => errors.push(pe),
                    other => entries.push(other),
                },
                Stats::Error(m) => errors.push((e.path, m)),
            }
            i = i + 1;
            assert(rev@ =~= orig.subrange(i as int, n as int).reverse());
        }
        assert(orig.subrange(0, n as int) =~= orig);
        ScandirResults { results: entries, errors }
    }

    /// Takes in what the worker delivered and keeps it when results are
    /// stored; gives the new results when `only_new` (or when nothing is
    /// stored), otherwise everything kept.
    pub fn results(&mut self, only_new: bool, received: Vec<Entry>) -> (r: ScandirResults)
        ensures
            takes_in(*old(self), *final(self), received@),
            (r.results@, r.errors@) == if !only_new && old(self).spec_store() {
                (final(self).spec_entries(), final(self).spec_errors())
            } else {
                split_reports(received@)
            },
    {
        let new = Self::receive_all(received);
        if self.store {
            let mut entries = clone_results(&new.results);
            let mut errors = clone_errors(&new.errors);
            self.entries.append(&mut entries);
            self.errors.append(&mut errors);
        }
        if !only_new && self.store {
            return ScandirResults {
                results: clone_results(&self.entries),
                errors: clone_errors(&self.errors),
            };
        }
        new
    }

    /// All results once the worker is done: takes in what it delivered and
    /// gives everything kept (or just that, when nothing is stored).
    pub fn collect(&mut self, received: Vec<Entry>) -> (r: ScandirResults)
        ensures
            takes_in(*old(self), *final(self), received@),
            (r.results@, r.errors@) == if old(self).spec_store() {
                (final(self).spec_entries(), final(self).spec_errors())
            } else {
                split_reports(received@)
            },
    {
        self.results(false, received)
    }

    /// A copy of everything kept so far.
    pub fn stored_results(&self) -> (r: ScandirResults)
        ensures
            r.results@ == self.spec_entries(),
            r.errors@ == self.spec_errors(),
    {
        ScandirResults { results: clone_results(&self.entries), errors: clone_errors(&self.errors) }
    }

    /// Whether results are waiting (`pending`) or, unless `only_new`, kept.
    pub fn has_results(&self, only_new: bool, pending: bool) -> (r: bool)
        ensures
            r == results_available(*self, only_new, pending),
    {
        if pending {
            return true;
        }
        if only_new {
            return false;
        }
        !self.entries.is_empty() || !self.errors.is_empty()
    }

    /// Whether entries are waiting (`pending`) or, unless `only_new`, kept.
    pub fn has_entries(&self, only_new: bool, pending: bool) -> (r: bool)
        ensures
            r == (pending || (!only_new && self.spec_entries().len() > 0)),
    {
        if pending {
            return true;
        }
        if only_new {
            return false;
        }
        !self.entries.is_empty()
    }

    /// The number of results and errors, new ones only or all kept.
    pub fn results_cnt(&mut self, only_new: bool, received: Vec<Entry>) -> (r: usize)
        requires
            !only_new ==> old(self).spec_entries().len() + old(self).spec_errors().len()
                + received@.len() <= usize::MAX,
        ensures
            takes_in(*old(self), *final(self), received@),
            r == results_count(*final(self), only_new, received@),
    {
        proof {
            lemma_split_len(received@);
            assert(received@.len() == received.len());
        }
        let r = self.results(only_new, received);
        r.results.len() + r.errors.len()
    }

    /// The results, new ones only or all kept.
    pub fn entries(&mut self, only_new: bool, received: Vec<Entry>) -> (r: ScandirResultsType)
        ensures
            takes_in(*old(self), *final(self), received@),
            r@ == if !only_new && old(self).spec_store() {
                final(self).spec_entries()
            } else {
                split_reports(received@).0
            },
    {
        self.results(only_new, received).results
    }

    /// The number of results without the errors, new ones only or all kept.
    pub fn entries_cnt(&mut self, only_new: bool, received: Vec<Entry>) -> (r: usize)
        ensures
            takes_in(*old(self), *final(self), received@),
            r == if !only_new && old(self).spec_store() {
                final(self).spec_entries().len()
            } else {
                split_reports(received@).0.len()
            },
    {
        self.results(only_new, received).results.len()
    }

    /// Whether errors were kept.
    pub fn has_errors(&self) -> (r: bool)
        ensures
            r == (self.spec_errors().len() > 0),
    {
        !self.errors.is_empty()
    }

    /// The number of errors kept.
    pub fn errors_cnt(&self) -> (r: usize)
        ensures
            r == self.spec_errors().len(),
    {
        self.errors.len()
    }

    /// The errors, new ones only or all kept.
    pub fn errors(&mut self, only_new: bool, received: Vec<Entry>) -> (r: ErrorsType)
        ensures
            takes_in(*old(self), *final(self), received@),
            r@ == if !only_new && old(self).spec_store() {
                final(self).spec_errors()
            } else {
                split_reports(received@).1
            },
    {
        self.results(only_new, received).errors
    }
}

/// Every report lands in exactly one of the two lists.
pub proof fn lemma_split_len(v: Seq<Entry>)
    ensures
        split_reports(v).0.len() + split_reports(v).1.len() == v.len(),
    decreases v.len(),
{
    if v.len() > 0 {
        lemma_split_len(v.drop_last());
    }
}

/// No error ends up among the results: error results and error messages
/// all go to the errors.
pub proof fn law_results_hold_no_errors(v: Seq<Entry>)
    ensures
        forall|i: int|
            0 <= i < split_reports(v).0.len() ==> !(#[trigger] split_reports(v).0[i] is Error),
    decreases v.len(),
{
    if v.len() > 0 {
        law_results_hold_no_errors(v.drop_last());
    }
}

/// An entry right below the root is reported under its own name.
pub proof fn law_entry_below_root_reported_by_name(root: Seq<char>, name: Seq<char>)
    requires
        crate::path::needs_separator(root),
        !crate::path::is_absolute_path(name),
    ensures
        reported_path(crate::path::utf8_len(root) + 1int, spec_path_join(root, name), name) == name,
{
    crate::path::lemma_relative_key_is_name(root, name);
}

/// Splitting reports delivered in two parts gives the two splits, one after
/// the other.
pub proof fn lemma_split_concat(a: Seq<Entry>, b: Seq<Entry>)
    ensures
        split_reports(a + b).0 == split_reports(a).0 + split_reports(b).0,
        split_reports(a + b).1 == split_reports(a).1 + split_reports(b).1,
    decreases b.len(),
{
    if b.len() == 0 {
        assert(a + b =~= a);
        assert(split_reports(a).0 + split_reports(b).0 =~= split_reports(a).0);
        assert(split_reports(a).1 + split_reports(b).1 =~= split_reports(a).1);
    } else {
        lemma_split_concat(a, b.drop_last());
        assert((a + b).drop_last() =~= a + b.drop_last());
        assert((a + b).last() == b.last());
        let pa = split_reports(a);
        let pb = split_reports(b.drop_last());
        assert forall|x: ScandirResult| pa.0 + pb.0.push(x) =~= (pa.0 + pb.0).push(x) by {}
        assert forall|x: (String, String)| pa.1 + pb.1.push(x) =~= (pa.1 + pb.1).push(x) by {}
    }
}

/// With storing on, what a scan keeps is everything delivered, in order:
/// taking in two deliveries from nothing kept leaves the results and
/// errors of both, as if they had come at once.
pub proof fn law_kept_results_are_all_deliveries(
    s0: ScandirState,
    s1: ScandirState,
    s2: ScandirState,
    first: Seq<Entry>,
    second: Seq<Entry>,
)
    requires
        s0.spec_store(),
        s0.spec_entries().len() == 0,
        s0.spec_errors().len() == 0,
        takes_in(s0, s1, first),
        takes_in(s1, s2, second),
    ensures
        s2.spec_entries() == split_reports(first + second).0,
        s2.spec_errors() == split_reports(first + second).1,
{
    lemma_split_concat(first, second);
    assert(s0.spec_entries() + split_reports(first).0 =~= split_reports(first).0);
    assert(s0.spec_errors() + split_reports(first).1 =~= split_reports(first).1);
}

/// Results are available exactly when their count is positive: the answer
/// of `has_results`, given whether anything is waiting, agrees with the
/// count `results_cnt` gives once that is taken in. A scan that does not
/// store keeps nothing, which `new` and `clear` ensure.
pub proof fn law_has_results_iff_count_positive(
    before: ScandirState,
    after: ScandirState,
    only_new: bool,
    received: Seq<Entry>,
)
    requires
        !before.spec_store() ==> before.spec_entries().len() == 0 && before.spec_errors().len()
            == 0,
        takes_in(before, after, received),
    ensures
        results_available(before, only_new, received.len() > 0) == (results_count(
            after,
            only_new,
            received,
        ) > 0),
{
    lemma_split_len(received);
}

/// A reported entry carries the walked entry's own kind, size and times:
/// the creation time as `st_ctime`, the modification time as `st_mtime` and
/// the access time as `st_atime`, whichever return type is asked for; an
/// entry whose metadata was not read reports no times and size 0.
pub proof fn law_entry_reports_its_metadata(
    root_path_len: int,
    return_type: ReturnType,
    e: WalkedEntry,
    r: (bool, Entry),
)
    requires
        created_entry(root_path_len, return_type, e, r),
        e.file_name is Ok,
    ensures
        r.0 == e.stat.is_file,
        match r.1.entry {
            Stats::ScandirResult(ScandirResult::DirEntry(d)) => {
                &&& return_type == ReturnType::Base
                &&& d.is_dir == e.stat.is_dir && d.is_file == e.stat.is_file
                    && d.is_symlink == e.stat.is_symlink
                &&& match e.stat.metadata {
                    Some(m) => d.st_ctime == m.created && d.st_mtime == m.modified && d.st_atime
                        == m.accessed && d.st_size == m.size,
                    None => d.st_ctime is None && d.st_mtime is None && d.st_atime is None
                        && d.st_size == 0,
                }
            },
            Stats::ScandirResult(ScandirResult::DirEntryExt(d)) => {
                &&& return_type == ReturnType::Ext
                &&& d.is_dir == e.stat.is_dir && d.is_file == e.stat.is_file
                    && d.is_symlink == e.stat.is_symlink
                &&& match e.stat.metadata {
                    Some(m) => d.st_ctime == m.created && d.st_mtime == m.modified && d.st_atime
                        == m.accessed && d.st_size == m.size,
                    None => d.st_ctime is None && d.st_mtime is None && d.st_atime is None
                        && d.st_size == 0,
                }
            },
            _ => false,
        },
{
}

/// An extended result reports the entry's own stat fields: its device
/// number `st_rdev` is the entry's `st_rdev` (0 for a regular file), and
/// the device of its file system, its inode, links, mode, owner and blocks
/// are the entry's own, each in its own field.
pub proof fn law_entry_reports_its_stat(
    root_path_len: int,
    e: WalkedEntry,
    r: (bool, Entry),
    m: crate::entry::EntryMetadata,
    x: crate::entry::EntryMetadataExt,
)
    requires
        created_entry(root_path_len, ReturnType::Ext, e, r),
        e.file_name is Ok,
        e.stat.metadata == Some(m),
        e.stat.metadata_ext == Some(x),
    ensures
        r.1.entry matches Stats::ScandirResult(ScandirResult::DirEntryExt(d)) && {
            &&& d.st_rdev == x.st_rdev
            &&& d.st_dev == x.st_dev
            &&& d.st_ino == x.st_ino
            &&& d.st_nlink == x.st_nlink
            &&& d.st_mode == x.st_mode
            &&& d.st_uid == x.st_uid
            &&& d.st_gid == x.st_gid
            &&& d.st_blksize == x.st_blksize
            &&& d.st_blocks == x.st_blocks
            &&& d.st_size == m.size
        },
{
}

/// Where a scan reports an entry of a subdirectory: the entry's path is its
/// directory's path, a separator and its name, and the result's path is
/// that path without the root and its separator: the subdirectory's path
/// below the root, a separator and the name.
pub proof fn law_entry_paths_below_root(
    root: Seq<char>,
    sub: Seq<char>,
    return_type: ReturnType,
    e: WalkedEntry,
    r: (bool, Entry),
)
    requires
        crate::path::needs_separator(root),
        sub.len() > 0 && sub[0] != '/' && sub.last() != '/',
        e.parent_path@ == root + seq!['/'] + sub,
        e.file_name is Ok,
        !crate::path::is_absolute_path(e.file_name->Ok_0@),
        created_entry(crate::path::utf8_len(root) + 1int, return_type, e, r),
    ensures
        r.1.path@ == root + seq!['/'] + sub + seq!['/'] + e.file_name->Ok_0@,
        r.1.entry matches Stats::ScandirResult(ScandirResult::DirEntry(d)) ==> d.path@ == sub
            + seq!['/'] + e.file_name->Ok_0@,
        r.1.entry matches Stats::ScandirResult(ScandirResult::DirEntryExt(d)) ==> d.path@ == sub
            + seq!['/'] + e.file_name->Ok_0@,
{
    let name = e.file_name->Ok_0@;
    let rest = sub + seq!['/'] + name;
    assert(rest[0] == sub[0]);
    crate::path::lemma_relative_key_is_name(root, rest);
    assert(spec_path_join(root, rest) =~= root + seq!['/'] + sub + seq!['/'] + name);
    assert(spec_path_join(e.parent_path@, name) =~= root + seq!['/'] + sub + seq!['/'] + name);
}

/// A name that is not valid UTF-8 is reported as an error at the path of
/// its directory, carrying the raw name and the message
/// `Invalid file name!`, and never as a result.
pub proof fn law_invalid_name_is_an_error(
    root_path_len: int,
    return_type: ReturnType,
    e: WalkedEntry,
    r: (bool, Entry),
)
    requires
        created_entry(root_path_len, return_type, e, r),
        e.file_name is Err,
    ensures
        r.1.path@ == e.parent_path@,
        r.1.entry matches Stats::ScandirResult(ScandirResult::Error(pe)) && pe.0 == e.file_name->Err_0
            && pe.1@ == "Invalid file name!"@,
        r.0 == e.stat.is_file,
{
}

} // verus!
