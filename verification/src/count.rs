//! Counting the entries of a directory tree: how each walked entry changes
//! the statistics.
use std::collections::HashSet;

use vstd::prelude::*;

use crate::def::{clone_strings, Statistics};
use crate::entry::EntryStat;

verus! {

broadcast use vstd::std_specs::hash::group_hash_axioms;

/// The space a file of `size` bytes takes on disk: whole blocks of 4096
/// bytes, kept to 64 bits.
pub open spec fn block_usage(size: u64) -> u64 {
    ((size / 4096 + if size % 4096 == 0 { 0int } else { 1int }) * 4096) as u64
}

/// Rounds `size` up to whole blocks of 4096 bytes.
pub fn file_usage(size: u64) -> (r: u64)
    ensures
        r == block_usage(size),
{
    proof {
        assert((size >> 12) == size / 4096) by (bit_vector);
        assert(((size >> 12) << 12) < size <==> size % 4096 != 0) by (bit_vector);
        assert(size / 4096 < 0x10_0000_0000_0000) by (bit_vector);
    }
    let mut blocks = size >> 12;
    if blocks << 12 < size {
        blocks += 1;
    }
    proof {
        let b: u64 = blocks;
        assert(b <= 0x10_0000_0000_0000 ==> (b << 12) == (b * 4096) as u64) by (bit_vector);
    }
    blocks << 12
}

/// The byte size that the metadata of an entry gives, `0` without metadata.
pub open spec fn meta_size(e: EntryStat) -> u64 {
    match e.metadata {
        Some(m) => m.size,
        None => 0,
    }
}

/// The block usage that the metadata of an entry gives, `0` without metadata.
pub open spec fn meta_usage(e: EntryStat) -> u64 {
    match e.metadata {
        Some(m) => block_usage(m.size),
        None => 0,
    }
}

/// A file that shares its inode with a file counted before.
pub open spec fn is_hardlink_dup(seen: Set<u64>, e: EntryStat) -> bool {
    e.metadata_ext matches Some(x) && x.st_nlink > 1 && seen.contains(x.st_ino)
}

/// The inodes of multiply linked files seen so far, after `e`.
pub open spec fn seen_after(seen: Set<u64>, e: EntryStat) -> Set<u64> {
    match e.metadata_ext {
        Some(x) => if e.is_file && x.st_nlink > 1 {
            seen.insert(x.st_ino)
        } else {
            seen
        },
        None => seen,
    }
}

/// A special entry with a device number.
pub open spec fn is_device(e: EntryStat) -> bool {
    e.metadata_ext matches Some(x) && x.st_rdev > 0
}

/// A special entry without a device number whose mode has the FIFO bit.
pub open spec fn is_pipe(e: EntryStat) -> bool {
    e.metadata_ext matches Some(x) && x.st_rdev == 0 && (x.st_mode & 4096) != 0
}

pub open spec fn bump(n: i32, b: bool) -> i32 {
    if b {
        (n + 1) as i32
    } else {
        n
    }
}

/// The statistics after counting one walked entry. The root (depth 0) is not
/// counted. A file adds one file, or, when its inode was seen before, one
/// hardlink; with metadata it adds its size and its block usage. A
/// directory, a symlink and any other entry add 4096 to size and usage; an
/// other entry is a device when it has a device number, else a pipe when
/// its mode says so.
pub open spec fn count_step(s: Statistics, seen: Set<u64>, e: EntryStat) -> Statistics {
    if e.depth == 0 {
        s
    } else if e.is_file {
        let dup = is_hardlink_dup(seen, e);
        Statistics {
            files: bump(s.files, !dup),
            hlinks: bump(s.hlinks, dup),
            size: (s.size + meta_size(e)) as u64,
            usage: (s.usage + meta_usage(e)) as u64,
            ..s
        }
    } else if e.is_dir {
        Statistics {
            dirs: bump(s.dirs, true),
            size: (s.size + 4096) as u64,
            usage: (s.usage + 4096) as u64,
            ..s
        }
    } else if e.is_symlink {
        Statistics {
            slinks: bump(s.slinks, true),
            size: (s.size + 4096) as u64,
            usage: (s.usage + 4096) as u64,
            ..s
        }
    } else {
        Statistics {
            devices: bump(s.devices, is_device(e)),
            pipes: bump(s.pipes, !is_device(e) && is_pipe(e)),
            size: (s.size + 4096) as u64,
            usage: (s.usage + 4096) as u64,
            ..s
        }
    }
}

/// The inodes remembered after counting `e` (the root is skipped).
pub open spec fn count_seen(seen: Set<u64>, e: EntryStat) -> Set<u64> {
    if e.depth == 0 {
        seen
    } else {
        seen_after(seen, e)
    }
}

/// Counting `e` stays within the counters' ranges.
pub open spec fn count_fits(s: Statistics, e: EntryStat) -> bool {
    &&& s.dirs < i32::MAX
    &&& s.files < i32::MAX
    &&& s.slinks < i32::MAX
    &&& s.hlinks < i32::MAX
    &&& s.devices < i32::MAX
    &&& s.pipes < i32::MAX
    &&& s.size + 4096 <= u64::MAX
    &&& s.usage + 4096 <= u64::MAX
    &&& s.size + meta_size(e) <= u64::MAX
    &&& s.usage + meta_usage(e) <= u64::MAX
}

/// Whether counting `e` adds a file: a file below the root whose inode was
/// not counted before.
pub open spec fn adds_file(seen: Set<u64>, e: EntryStat) -> bool {
    e.depth != 0 && e.is_file && !is_hardlink_dup(seen, e)
}

/// Whether `e` is refused and the walk stops there: it would add a file
/// when the count already holds as many files as a positive limit allows.
/// The limit is read as a 32-bit signed number, so the default `usize::MAX`
/// reads as no limit.
pub open spec fn count_refuses(s: Statistics, seen: Set<u64>, e: EntryStat, max_file_cnt: usize) -> bool {
    adds_file(seen, e) && (max_file_cnt as i32) > 0 && s.files >= (max_file_cnt as i32)
}

/// Counts of a tree in progress.
#[derive(Debug)]
pub struct CountState {
    statistics: Statistics,
    /// Inodes of the multiply linked files counted so far
    file_indexes: HashSet<u64>,
    /// Entries counted since the statistics were last handed out
    pending: u32,
}

impl CountState {
    pub closed spec fn stats(&self) -> Statistics {
        self.statistics
    }

    pub closed spec fn seen(&self) -> Set<u64> {
        self.file_indexes@
    }

    pub closed spec fn spec_pending(&self) -> u32 {
        self.pending
    }

    /// The statistics counted so far.
    pub fn statistics(&self) -> (r: &Statistics)
        ensures
            *r == self.stats(),
    {
        &self.statistics
    }

    pub fn new() -> (r: CountState)
        ensures
            r.stats().is_cleared(),
            r.seen() == Set::<u64>::empty(),
            r.spec_pending() == 0,
    {
        CountState { statistics: Statistics::new(), file_indexes: HashSet::new(), pending: 0 }
    }

    /// Whether counting `e` stays within range.
    pub fn fits(&self, e: &EntryStat) -> (r: bool)
        ensures
            r == count_fits(self.stats(), *e),
    {
        let s = &self.statistics;
        let size_add: u64 = match e.metadata {
            Some(m) => m.size,
            None => 0,
        };
        let usage_add: u64 = match e.metadata {
            Some(m) => file_usage(m.size),
            None => 0,
        };
        s.dirs < i32::MAX && s.files < i32::MAX && s.slinks < i32::MAX && s.hlinks < i32::MAX
            && s.devices < i32::MAX && s.pipes < i32::MAX && s.size <= u64::MAX - 4096 && s.usage
            <= u64::MAX - 4096 && s.size <= u64::MAX - size_add && s.usage <= u64::MAX - usage_add
    }

    /// Counts one walked entry, unless it is a file beyond the file limit:
    /// then nothing changes and the walk should stop there.
    pub fn count_entry(&mut self, e: &EntryStat, max_file_cnt: usize) -> (stop: bool)
        requires
            count_fits(old(self).stats(), *e),
            old(self).spec_pending() < u32::MAX,
        ensures
            stop == count_refuses(old(self).stats(), old(self).seen(), *e, max_file_cnt),
            stop ==> final(self).stats() == old(self).stats() && final(self).seen() == old(
                self,
            ).seen() && final(self).spec_pending() == old(self).spec_pending(),
            !stop ==> final(self).stats() == count_step(old(self).stats(), old(self).seen(), *e),
            !stop ==> final(self).seen() == count_seen(old(self).seen(), *e),
            !stop ==> final(self).spec_pending() == if e.depth == 0 {
                old(self).spec_pending()
            } else {
                (old(self).spec_pending() + 1) as u32
            },
            (max_file_cnt as i32) > 0 && old(self).stats().files <= (max_file_cnt as i32)
                ==> final(self).stats().files <= (max_file_cnt as i32),
    {
        if e.depth == 0 {
            return false;
        }
        if e.is_file {
            let dup = match e.metadata_ext {
                Some(x) => x.st_nlink > 1 && self.file_indexes.contains(&x.st_ino),
                None => false,
            };
            if !dup {
                let limit = max_file_cnt as i32;
                if limit > 0 && self.statistics.files >= limit {
                    return true;
                }
            }
            if let Some(m) = e.metadata {
                let usage = file_usage(m.size);
                self.statistics.usage = self.statistics.usage + usage;
                self.statistics.size = self.statistics.size + m.size;
            }
            if dup {
                self.statistics.hlinks = self.statistics.hlinks + 1;
            } else {
                self.statistics.files = self.statistics.files + 1;
                if let Some(x) = e.metadata_ext {
                    if x.st_nlink > 1 {
                        self.file_indexes.insert(x.st_ino);
                    }
                }
            }
        } else if e.is_dir {
            self.statistics.dirs = self.statistics.dirs + 1;
            self.statistics.usage = self.statistics.usage + 4096;
            self.statistics.size = self.statistics.size + 4096;
        } else if e.is_symlink {
            self.statistics.slinks = self.statistics.slinks + 1;
            self.statistics.usage = self.statistics.usage + 4096;
            self.statistics.size = self.statistics.size + 4096;
        } else {
            if let Some(x) = e.metadata_ext {
                if x.st_rdev > 0 {
                    self.statistics.devices = self.statistics.devices + 1;
                } else if (x.st_mode & 4096) != 0 {
                    self.statistics.pipes = self.statistics.pipes + 1;
                }
            }
            self.statistics.usage = self.statistics.usage + 4096;
            self.statistics.size = self.statistics.size + 4096;
        }
        self.pending = self.pending + 1;
        false
    }

    /// Records the message of an entry that could not be read.
    pub fn record_error(&mut self, message: String)
        ensures
            final(self).stats() == (Statistics {
                errors: final(self).stats().errors,
                ..old(self).stats()
            }),
            final(self).stats().errors@ == old(self).stats().errors@.push(message),
            final(self).seen() == old(self).seen(),
            final(self).spec_pending() == old(self).spec_pending(),
    {
        self.statistics.errors.push(message);
    }

    /// Whether the statistics are due to be handed out: after 1000 entries,
    /// or once 10 milliseconds have passed since the last time.
    pub fn publish_due(&self, elapsed_ms: u128) -> (r: bool)
        ensures
            r == (self.spec_pending() >= 1000 || elapsed_ms >= 10),
    {
        self.pending >= 1000 || elapsed_ms >= 10
    }

    /// A copy of the statistics so far; the pending count starts again.
    pub fn take_snapshot(&mut self) -> (r: Statistics)
        ensures
            same_statistics(r, old(self).stats()),
            final(self).stats() == old(self).stats(),
            final(self).seen() == old(self).seen(),
            final(self).spec_pending() == 0,
    {
        self.pending = 0;
        copy_statistics(&self.statistics)
    }
}

/// Equal counters and equal error lists.
pub open spec fn same_statistics(a: Statistics, b: Statistics) -> bool {
    &&& a.dirs == b.dirs
    &&& a.files == b.files
    &&& a.slinks == b.slinks
    &&& a.hlinks == b.hlinks
    &&& a.devices == b.devices
    &&& a.pipes == b.pipes
    &&& a.size == b.size
    &&& a.usage == b.usage
    &&& a.errors@ == b.errors@
}

/// A copy of statistics.
pub fn copy_statistics(s: &Statistics) -> (r: Statistics)
    ensures
        same_statistics(r, *s),
{
    Statistics {
        dirs: s.dirs,
        files: s.files,
        slinks: s.slinks,
        hlinks: s.hlinks,
        devices: s.devices,
        pipes: s.pipes,
        size: s.size,
        usage: s.usage,
        errors: clone_strings(&s.errors),
    }
}

/// The statistics of a root that is not a directory: it counts as itself.
/// A symlink and any other entry take 4096 bytes; a file its size and
/// block usage when its metadata was read.
pub open spec fn single_entry_statistics(e: EntryStat, s: Statistics) -> bool {
    &&& s.dirs == 0
    &&& s.hlinks == 0
    &&& s.errors@.len() == 0
    &&& if e.is_symlink {
        &&& s.slinks == 1 && s.files == 0 && s.devices == 0 && s.pipes == 0
        &&& s.size == 4096 && s.usage == 4096
    } else if e.is_file {
        &&& s.slinks == 0 && s.files == 1 && s.devices == 0 && s.pipes == 0
        &&& s.size == meta_size(e) && s.usage == meta_usage(e)
    } else {
        &&& s.slinks == 0 && s.files == 0
        &&& s.devices == (if is_device(e) { 1int } else { 0int })
        &&& s.pipes == (if !is_device(e) && is_pipe(e) { 1int } else { 0int })
        &&& s.size == 4096 && s.usage == 4096
    }
}

/// Counts a root that is not a directory.
pub fn count_single_entry(e: &EntryStat) -> (r: Statistics)
    requires
        !e.is_dir,
    ensures
        single_entry_statistics(*e, r),
{
    let mut statistics = Statistics::new();
    if e.is_symlink {
        statistics.slinks = 1;
        statistics.usage = 4096;
        statistics.size = 4096;
    } else if e.is_file {
        statistics.files = 1;
        if let Some(m) = e.metadata {
            statistics.usage = file_usage(m.size);
            statistics.size = m.size;
        }
    } else {
        if let Some(x) = e.metadata_ext {
            if x.st_rdev > 0 {
                statistics.devices = 1;
            } else if (x.st_mode & 4096) != 0 {
                statistics.pipes = 1;
            }
        }
        statistics.usage = 4096;
        statistics.size = 4096;
    }
    statistics
}

/// The statistics a reader holds after draining what a worker sent: the
/// last one sent, or what it held before when nothing came.
pub fn latest_statistics(current: Statistics, received: Vec<Statistics>) -> (r: Statistics)
    ensures
        r == if received@.len() > 0 {
            received@.last()
        } else {
            current
        },
{
    let mut received = received;
    match received.pop() {
        Some(s) => s,
        None => current,
    }
}

/// The statistics and remembered inodes after counting `es` in order.
pub open spec fn count_all(s: Statistics, seen: Set<u64>, es: Seq<EntryStat>) -> (
    Statistics,
    Set<u64>,
)
    decreases es.len(),
{
    if es.len() == 0 {
        (s, seen)
    } else {
        let p = count_all(s, seen, es.drop_last());
        (count_step(p.0, p.1, es.last()), count_seen(p.1, es.last()))
    }
}

/// A counted entry (not the root) that is a file.
pub open spec fn counts_as_file(e: EntryStat) -> bool {
    e.depth != 0 && e.is_file
}

/// A counted entry that is a directory.
pub open spec fn counts_as_dir(e: EntryStat) -> bool {
    e.depth != 0 && !e.is_file && e.is_dir
}

/// A counted entry that is a symlink.
pub open spec fn counts_as_symlink(e: EntryStat) -> bool {
    e.depth != 0 && !e.is_file && !e.is_dir && e.is_symlink
}

/// A counted file that has more than one link.
pub open spec fn multiply_linked(e: EntryStat) -> bool {
    &&& counts_as_file(e)
    &&& e.metadata_ext matches Some(x) && x.st_nlink > 1
}

/// The inodes of the multiply linked files among `es`.
pub open spec fn linked_inodes(es: Seq<EntryStat>) -> Set<u64>
    decreases es.len(),
{
    if es.len() == 0 {
        Set::empty()
    } else if multiply_linked(es.last()) {
        linked_inodes(es.drop_last()).insert(es.last().metadata_ext->0.st_ino)
    } else {
        linked_inodes(es.drop_last())
    }
}

/// A multiply linked file whose inode already belonged to an earlier file.
pub open spec fn repeats_inode(es: Seq<EntryStat>, i: int) -> bool {
    multiply_linked(es[i]) && linked_inodes(es.subrange(0, i)).contains(es[i].metadata_ext->0.st_ino)
}

/// How many of `es` satisfy `p`.
pub open spec fn how_many(es: Seq<EntryStat>, p: spec_fn(EntryStat) -> bool) -> int
    decreases es.len(),
{
    if es.len() == 0 {
        0
    } else {
        how_many(es.drop_last(), p) + if p(es.last()) {
            1int
        } else {
            0int
        }
    }
}

/// How many of `es` repeat an earlier inode.
pub open spec fn repeats(es: Seq<EntryStat>) -> int
    decreases es.len(),
{
    if es.len() == 0 {
        0
    } else {
        repeats(es.drop_last()) + if repeats_inode(es, es.len() - 1) {
            1int
        } else {
            0int
        }
    }
}

proof fn lemma_how_many_bounds(es: Seq<EntryStat>, p: spec_fn(EntryStat) -> bool)
    ensures
        0 <= how_many(es, p) <= es.len(),
    decreases es.len(),
{
    if es.len() > 0 {
        lemma_how_many_bounds(es.drop_last(), p);
    }
}

proof fn lemma_repeats_bounds(es: Seq<EntryStat>)
    ensures
        0 <= repeats(es) <= how_many(es, |e: EntryStat| counts_as_file(e)),
    decreases es.len(),
{
    if es.len() > 0 {
        lemma_repeats_bounds(es.drop_last());
    }
}

/// Counting from nothing: every file is counted once, as a file or, when
/// it repeats the inode of an earlier multiply linked file, as a hardlink;
/// every directory and symlink is counted once; the inodes remembered are
/// those of the multiply linked files.
pub proof fn law_count_accounts_for_entries(s: Statistics, es: Seq<EntryStat>)
    requires
        s.is_cleared(),
        es.len() < i32::MAX,
    ensures
        count_all(s, Set::empty(), es).1 == linked_inodes(es),
        count_all(s, Set::empty(), es).0.hlinks == repeats(es),
        count_all(s, Set::empty(), es).0.files + count_all(s, Set::empty(), es).0.hlinks
            == how_many(es, |e: EntryStat| counts_as_file(e)),
        count_all(s, Set::empty(), es).0.dirs == how_many(es, |e: EntryStat| counts_as_dir(e)),
        count_all(s, Set::empty(), es).0.slinks == how_many(
            es,
            |e: EntryStat| counts_as_symlink(e),
        ),
    decreases es.len(),
{
    if es.len() > 0 {
        let init = es.drop_last();
        law_count_accounts_for_entries(s, init);
        lemma_how_many_bounds(init, |e: EntryStat| counts_as_file(e));
        lemma_how_many_bounds(init, |e: EntryStat| counts_as_dir(e));
        lemma_how_many_bounds(init, |e: EntryStat| counts_as_symlink(e));
        lemma_repeats_bounds(init);
        assert(es.subrange(0, es.len() - 1) =~= init);
    }
}

/// Counting keeps the usage a whole number of 4096-byte blocks and never
/// below the size, as long as no file is within a block of the 64-bit
/// limit (where the rounded usage would wrap around).
pub proof fn law_usage_covers_size(s: Statistics, seen: Set<u64>, e: EntryStat)
    requires
        s.usage % 4096 == 0,
        s.size <= s.usage,
        count_fits(s, e),
        meta_size(e) <= u64::MAX - 4095,
    ensures
        count_step(s, seen, e).usage % 4096 == 0,
        count_step(s, seen, e).size <= count_step(s, seen, e).usage,
{
    lemma_block_usage(meta_size(e));
}

/// Rounding up to blocks: a multiple of 4096, at least the size and less
/// than one block above it (away from the 64-bit limit).
pub proof fn lemma_block_usage(size: u64)
    requires
        size <= u64::MAX - 4095,
    ensures
        block_usage(size) % 4096 == 0,
        size <= block_usage(size) < size + 4096,
{
    let q = size / 4096;
    let m = size % 4096;
    assert(size == q * 4096 + m && 0 <= m < 4096) by (nonlinear_arith)
        requires
            q == size / 4096,
            m == size % 4096,
    ;
    let b: int = (q + if m == 0 { 0int } else { 1int }) * 4096;
    assert(0 <= b <= u64::MAX);
    assert(b % 4096 == 0) by (nonlinear_arith)
        requires
            b == (q + if m == 0 { 0int } else { 1int }) * 4096,
    ;
}

/// A lone root that is not a directory counts the same as that entry would
/// inside a tree, provided it is of exactly one kind and not multiply
/// linked.
pub proof fn law_single_entry_counts_like_a_child(s: Statistics, e: EntryStat, r: Statistics)
    requires
        s.is_cleared(),
        !e.is_dir,
        !(e.is_file && e.is_symlink),
        e.depth != 0,
        !is_hardlink_dup(Set::empty(), e),
        single_entry_statistics(e, r),
    ensures
        same_counters(r, count_step(s, Set::empty(), e)),
{
}

/// Counting `es` in order until an entry is refused for the file limit:
/// the statistics, the inodes remembered, and whether the walk stopped.
pub open spec fn count_limited(s: Statistics, seen: Set<u64>, es: Seq<EntryStat>, max_file_cnt: usize) -> (
    Statistics,
    Set<u64>,
    bool,
)
    decreases es.len(),
{
    if es.len() == 0 {
        (s, seen, false)
    } else {
        let p = count_limited(s, seen, es.drop_last(), max_file_cnt);
        if p.2 {
            p
        } else if count_refuses(p.0, p.1, es.last(), max_file_cnt) {
            (p.0, p.1, true)
        } else {
            (count_step(p.0, p.1, es.last()), count_seen(p.1, es.last()), false)
        }
    }
}

/// A positive file limit is never passed: however many entries a scan
/// meets, the files counted stay within the limit (the maximum number of
/// files to collect).
pub proof fn law_file_limit_kept(s: Statistics, seen: Set<u64>, es: Seq<EntryStat>, max_file_cnt: usize)
    requires
        0 < max_file_cnt <= i32::MAX,
        s.files <= max_file_cnt,
    ensures
        count_limited(s, seen, es, max_file_cnt).0.files <= max_file_cnt,
    decreases es.len(),
{
    if es.len() > 0 {
        law_file_limit_kept(s, seen, es.drop_last(), max_file_cnt);
        assert((max_file_cnt as i32) == max_file_cnt);
    }
}

/// Every step of a scan stays within the counters' ranges.
pub open spec fn scan_fits(s: Statistics, seen: Set<u64>, es: Seq<EntryStat>) -> bool
    decreases es.len(),
{
    if es.len() == 0 {
        true
    } else {
        scan_fits(s, seen, es.drop_last()) && count_fits(count_all(s, seen, es.drop_last()).0, es.last())
    }
}

/// Usage is whole 4096-byte blocks and never below the size, after any
/// part of a scan that starts from nothing, as long as the counters stay in
/// range and no file is within a block of the 64-bit limit.
pub proof fn law_scan_usage_covers_size(s: Statistics, seen: Set<u64>, es: Seq<EntryStat>)
    requires
        s.is_cleared(),
        scan_fits(s, seen, es),
        forall|i: int| 0 <= i < es.len() ==> meta_size(#[trigger] es[i]) <= u64::MAX - 4095,
    ensures
        count_all(s, seen, es).0.usage % 4096 == 0,
        count_all(s, seen, es).0.size <= count_all(s, seen, es).0.usage,
    decreases es.len(),
{
    if es.len() > 0 {
        let init = es.drop_last();
        assert forall|i: int| 0 <= i < init.len() implies meta_size(#[trigger] init[i]) <= u64::MAX
            - 4095 by {
            assert(init[i] == es[i]);
        }
        law_scan_usage_covers_size(s, seen, init);
        let p = count_all(s, seen, init);
        assert(meta_size(es[es.len() - 1]) <= u64::MAX - 4095);
        law_usage_covers_size(p.0, p.1, es.last());
    }
}

/// `b` holds at least what `a` holds: no counter smaller, and the errors
/// of `a` first among those of `b`.
pub open spec fn grows(a: Statistics, b: Statistics) -> bool {
    &&& a.dirs <= b.dirs
    &&& a.files <= b.files
    &&& a.slinks <= b.slinks
    &&& a.hlinks <= b.hlinks
    &&& a.devices <= b.devices
    &&& a.pipes <= b.pipes
    &&& a.size <= b.size
    &&& a.usage <= b.usage
    &&& a.errors@.len() <= b.errors@.len()
    &&& a.errors@ == b.errors@.subrange(0, a.errors@.len() as int)
}

/// Counting an entry that fits only adds.
pub proof fn law_count_step_grows(s: Statistics, seen: Set<u64>, e: EntryStat)
    requires
        count_fits(s, e),
    ensures
        grows(s, count_step(s, seen, e)),
{
    assert(s.errors@ =~= s.errors@.subrange(0, s.errors@.len() as int));
}

/// Recording an error only adds: when `after` is `before` with one more
/// message, as `record_error` leaves it, it holds all of `before`.
pub proof fn law_record_error_grows(before: Statistics, after: Statistics, message: String)
    requires
        after == (Statistics { errors: after.errors, ..before }),
        after.errors@ == before.errors@.push(message),
    ensures
        grows(before, after),
{
    assert(before.errors@ =~= after.errors@.subrange(0, before.errors@.len() as int));
}

proof fn lemma_grows_trans(a: Statistics, b: Statistics, c: Statistics)
    requires
        grows(a, b),
        grows(b, c),
    ensures
        grows(a, c),
{
    assert(a.errors@ =~= c.errors@.subrange(0, a.errors@.len() as int));
}

/// Statistics only grow in the course of a scan: what the count gives after
/// part of the entries is within what it gives after all of them, so each
/// snapshot sent holds at most what every later one holds.
pub proof fn law_scan_grows(s: Statistics, seen: Set<u64>, es: Seq<EntryStat>, i: int)
    requires
        scan_fits(s, seen, es),
        0 <= i <= es.len(),
    ensures
        grows(count_all(s, seen, es.subrange(0, i)).0, count_all(s, seen, es).0),
    decreases es.len(),
{
    let r = count_all(s, seen, es).0;
    if i == es.len() {
        assert(es.subrange(0, i) =~= es);
        assert(r.errors@ =~= r.errors@.subrange(0, r.errors@.len() as int));
    } else {
        let init = es.drop_last();
        law_scan_grows(s, seen, init, i);
        assert(init.subrange(0, i) =~= es.subrange(0, i));
        let p = count_all(s, seen, init);
        law_count_step_grows(p.0, p.1, es.last());
        lemma_grows_trans(count_all(s, seen, es.subrange(0, i)).0, p.0, r);
    }
}

/// A scan as the counting thread meets it: walked entries (`Ok`), which
/// are counted, and messages of entries that could not be read (`Err`),
/// which are recorded. Gives the counters, the inodes remembered and the
/// error messages, as `count_entry` and `record_error` leave them.
pub open spec fn count_events(s: Statistics, seen: Set<u64>, evs: Seq<Result<EntryStat, String>>) -> (
    Statistics,
    Set<u64>,
    Seq<String>,
)
    decreases evs.len(),
{
    if evs.len() == 0 {
        (s, seen, s.errors@)
    } else {
        let p = count_events(s, seen, evs.drop_last());
        match evs.last() {
            Ok(e) => (count_step(p.0, p.1, e), count_seen(p.1, e), p.2),
            Err(m) => (p.0, p.1, p.2.push(m)),
        }
    }
}

/// Every entry of a scan is counted within the counters' ranges.
pub open spec fn events_fit(s: Statistics, seen: Set<u64>, evs: Seq<Result<EntryStat, String>>) -> bool
    decreases evs.len(),
{
    if evs.len() == 0 {
        true
    } else {
        events_fit(s, seen, evs.drop_last()) && match evs.last() {
            Ok(e) => count_fits(count_events(s, seen, evs.drop_last()).0, e),
            Err(_) => true,
        }
    }
}

/// The snapshot `b` holds at least what `a` holds: no counter smaller, and
/// the errors of `a` first among those of `b`.
pub open spec fn snapshot_grows(a: (Statistics, Set<u64>, Seq<String>), b: (Statistics, Set<u64>, Seq<String>)) -> bool {
    &&& a.0.dirs <= b.0.dirs
    &&& a.0.files <= b.0.files
    &&& a.0.slinks <= b.0.slinks
    &&& a.0.hlinks <= b.0.hlinks
    &&& a.0.devices <= b.0.devices
    &&& a.0.pipes <= b.0.pipes
    &&& a.0.size <= b.0.size
    &&& a.0.usage <= b.0.usage
    &&& a.2.len() <= b.2.len()
    &&& a.2 == b.2.subrange(0, a.2.len() as int)
}

proof fn lemma_events_prefix(s: Statistics, seen: Set<u64>, evs: Seq<Result<EntryStat, String>>, i: int)
    requires
        events_fit(s, seen, evs),
        0 <= i <= evs.len(),
    ensures
        events_fit(s, seen, evs.subrange(0, i)),
        snapshot_grows(count_events(s, seen, evs.subrange(0, i)), count_events(s, seen, evs)),
    decreases evs.len(),
{
    let r = count_events(s, seen, evs);
    if i == evs.len() {
        assert(evs.subrange(0, i) =~= evs);
        assert(r.2 =~= r.2.subrange(0, r.2.len() as int));
    } else {
        let init = evs.drop_last();
        lemma_events_prefix(s, seen, init, i);
        assert(init.subrange(0, i) =~= evs.subrange(0, i));
        let a = count_events(s, seen, evs.subrange(0, i));
        let p = count_events(s, seen, init);
        assert(a.2 =~= r.2.subrange(0, a.2.len() as int));
    }
}

/// The statistics sent in the course of one scan only grow, whatever
/// errors are recorded between the counted entries: a snapshot taken after
/// the first `i` events holds at most what one taken after the first `j`
/// holds, counter by counter, and its errors come first among the later
/// ones.
pub proof fn law_snapshots_grow(
    s: Statistics,
    seen: Set<u64>,
    evs: Seq<Result<EntryStat, String>>,
    i: int,
    j: int,
)
    requires
        events_fit(s, seen, evs),
        0 <= i <= j <= evs.len(),
    ensures
        snapshot_grows(
            count_events(s, seen, evs.subrange(0, i)),
            count_events(s, seen, evs.subrange(0, j)),
        ),
{
    lemma_events_prefix(s, seen, evs, j);
    let pre = evs.subrange(0, j);
    lemma_events_prefix(s, seen, pre, i);
    assert(pre.subrange(0, i) =~= evs.subrange(0, i));
}

/// An entry as a scan without extended metadata sees it.
pub open spec fn without_ext(e: EntryStat) -> EntryStat {
    EntryStat { metadata_ext: None, ..e }
}

/// A basic scan and an extended scan of one tree agree: the basic scan
/// counts as files what the extended one splits into files and hardlinks,
/// and every other count but devices and pipes (which need the extended
/// metadata) is the same.
pub proof fn law_basic_and_extended_agree(s: Statistics, es: Seq<EntryStat>)
    requires
        s.is_cleared(),
        es.len() < i32::MAX,
    ensures
        count_all(s, Set::empty(), es.map_values(|e: EntryStat| without_ext(e))).0.files
            == count_all(s, Set::empty(), es).0.files + count_all(s, Set::empty(), es).0.hlinks,
        count_all(s, Set::empty(), es.map_values(|e: EntryStat| without_ext(e))).0.hlinks == 0,
        count_all(s, Set::empty(), es.map_values(|e: EntryStat| without_ext(e))).0.dirs
            == count_all(s, Set::empty(), es).0.dirs,
        count_all(s, Set::empty(), es.map_values(|e: EntryStat| without_ext(e))).0.slinks
            == count_all(s, Set::empty(), es).0.slinks,
        count_all(s, Set::empty(), es.map_values(|e: EntryStat| without_ext(e))).0.size
            == count_all(s, Set::empty(), es).0.size,
        count_all(s, Set::empty(), es.map_values(|e: EntryStat| without_ext(e))).0.usage
            == count_all(s, Set::empty(), es).0.usage,
    decreases es.len(),
{
    let stripped = es.map_values(|e: EntryStat| without_ext(e));
    lemma_basic_and_extended(s, Set::empty(), Set::empty(), es, stripped);
}

proof fn lemma_basic_and_extended(
    s: Statistics,
    seen_a: Set<u64>,
    seen_b: Set<u64>,
    es: Seq<EntryStat>,
    stripped: Seq<EntryStat>,
)
    requires
        s.is_cleared(),
        es.len() < i32::MAX,
        stripped == es.map_values(|e: EntryStat| without_ext(e)),
    ensures
        ({
            let a = count_all(s, seen_a, stripped).0;
            let b = count_all(s, seen_b, es).0;
            &&& a.files == b.files + b.hlinks
            &&& a.hlinks == 0
            &&& 0 <= b.files && 0 <= b.hlinks
            &&& a.files <= es.len()
            &&& a.dirs == b.dirs
            &&& a.slinks == b.slinks
            &&& a.size == b.size
            &&& a.usage == b.usage
        }),
    decreases es.len(),
{
    if es.len() > 0 {
        let init = es.drop_last();
        let sinit = stripped.drop_last();
        assert(sinit =~= init.map_values(|e: EntryStat| without_ext(e)));
        lemma_basic_and_extended(s, seen_a, seen_b, init, sinit);
        assert(stripped.last() == without_ext(es.last()));
    }
}

/// Equal counters, whatever the errors.
pub open spec fn same_counters(a: Statistics, b: Statistics) -> bool {
    &&& a.dirs == b.dirs
    &&& a.files == b.files
    &&& a.slinks == b.slinks
    &&& a.hlinks == b.hlinks
    &&& a.devices == b.devices
    &&& a.pipes == b.pipes
    &&& a.size == b.size
    &&& a.usage == b.usage
}

} // verus!
