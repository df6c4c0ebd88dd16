//! Walking a directory tree into tables of contents, one per directory, and
//! keeping what a walk has delivered.
use vstd::prelude::*;

use crate::def::{clone_strings, ErrorsType, Statistics, Toc, TocView};
use crate::filter::{retain_by_mask, select};
use crate::path::{spec_path_join, spec_suffix_from, str_suffix_from};

verus! {

/// What the table of contents reads of one child.
#[derive(Debug, Clone)]
pub struct TocChild {
    pub is_dir: bool,
    pub is_file: bool,
    pub is_symlink: bool,
    pub file_name: String,
}

/// The table of contents after filing `c`: symlinks first, then
/// directories, then files, anything else under other.
pub open spec fn toc_add(t: TocView, c: TocChild) -> TocView {
    if c.is_symlink {
        (t.0, t.1, t.2.push(c.file_name), t.3, t.4)
    } else if c.is_dir {
        (t.0.push(c.file_name), t.1, t.2, t.3, t.4)
    } else if c.is_file {
        (t.0, t.1.push(c.file_name), t.2, t.3, t.4)
    } else {
        (t.0, t.1, t.2, t.3.push(c.file_name), t.4)
    }
}

/// Files one entry under its kind.
pub fn update_toc(c: &TocChild, toc: &mut Toc)
    ensures
        final(toc)@ == toc_add(old(toc)@, *c),
{
    let key = c.file_name.clone();
    if c.is_symlink {
        toc.symlinks.push(key);
    } else if c.is_dir {
        toc.dirs.push(key);
    } else if c.is_file {
        toc.files.push(key);
    } else {
        toc.other.push(key);
    }
}

/// The table of contents of the children of a directory: each readable
/// child filed under its kind, the message of each unreadable one under the
/// errors.
pub open spec fn toc_of(children: Seq<Result<TocChild, String>>) -> TocView
    decreases children.len(),
{
    if children.len() == 0 {
        (Seq::empty(), Seq::empty(), Seq::empty(), Seq::empty(), Seq::empty())
    } else {
        let t = toc_of(children.drop_last());
        match children.last() {
            Ok(c) => toc_add(t, c),
            Err(m) => (t.0, t.1, t.2, t.3, t.4.push(m)),
        }
    }
}

/// Whether every list of a table of contents is empty.
pub open spec fn toc_view_empty(t: TocView) -> bool {
    t.0.len() == 0 && t.1.len() == 0 && t.2.len() == 0 && t.3.len() == 0 && t.4.len() == 0
}

/// The key under which a directory's table of contents is reported: its
/// path after the root prefix, or empty for the root itself.
pub open spec fn dir_report_key(root_dir: Seq<char>, root_dir_bytes: int, root_path_len: int) -> Seq<
    char,
> {
    if root_dir_bytes > root_path_len {
        spec_suffix_from(root_dir, root_path_len)->0
    } else {
        Seq::empty()
    }
}

/// Builds the table of contents of the children that remain after
/// filtering. Nothing is reported for a directory without remaining
/// children.
pub fn dir_toc(root_dir: &str, root_path_len: usize, children: &Vec<Result<TocChild, String>>) -> (r: Option<
    (String, Toc),
>)
    requires
        root_dir.len() > root_path_len ==> spec_suffix_from(root_dir@, root_path_len as int) is Some,
    ensures
        r is None <==> (children@.len() == 0 || toc_view_empty(toc_of(children@))),
        r matches Some(p) ==> p.1@ == toc_of(children@) && p.0@ == dir_report_key(
            root_dir@,
            root_dir.len() as int,
            root_path_len as int,
        ),
{
    if children.len() == 0 {
        return None;
    }
    let mut toc = Toc::new();
    for i in 0..children.len()
        invariant
            toc@ == toc_of(children@.subrange(0, i as int)),
    {
        proof {
            let s = children@.subrange(0, i + 1);
            assert(s.drop_last() =~= children@.subrange(0, i as int));
            assert(s.last() == children@[i as int]);
        }
        match &children[i] {
            Ok(c) => update_toc(c, &mut toc),
            Err(m) => toc.errors.push(m.clone()),
        }
    }
    assert(children@.subrange(0, children@.len() as int) =~= children@);
    if toc.is_empty() {
        return None;
    }
    if root_dir.len() > root_path_len {
        let key = match str_suffix_from(root_dir, root_path_len) {
            Some(k) => k.to_owned(),
            None => String::new(),
        };
        Some((key, toc))
    } else {
        Some((String::new(), toc))
    }
}

/// The table of contents of a root that is not a directory: just itself.
pub fn single_entry_toc(c: &TocChild) -> (r: Toc)
    ensures
        r@ == toc_add((Seq::empty(), Seq::empty(), Seq::empty(), Seq::empty(), Seq::empty()), *c),
{
    let mut toc = Toc::new();
    update_toc(c, &mut toc);
    toc
}

/// The number of files a walk has passed, against an optional limit.
pub struct FileLimit {
    pub max_file_cnt: usize,
    pub file_cnt: usize,
}

impl FileLimit {
    pub fn new(max_file_cnt: usize) -> (r: FileLimit)
        ensures
            r.max_file_cnt == max_file_cnt,
            r.file_cnt == 0,
    {
        FileLimit { max_file_cnt, file_cnt: 0 }
    }

    /// Notes one walked entry; a non-directory counts as a file. A file
    /// beyond a positive limit is not counted: the walk stops there.
    pub fn note(&mut self, is_dir: bool) -> (stop: bool)
        requires
            old(self).file_cnt < usize::MAX,
        ensures
            final(self).max_file_cnt == old(self).max_file_cnt,
            stop == (!is_dir && old(self).max_file_cnt > 0 && old(self).file_cnt
                >= old(self).max_file_cnt),
            final(self).file_cnt == if is_dir || stop {
                old(self).file_cnt
            } else {
                (old(self).file_cnt + 1) as usize
            },
            old(self).max_file_cnt > 0 && old(self).file_cnt <= old(self).max_file_cnt
                ==> final(self).file_cnt <= final(self).max_file_cnt,
    {
        if !is_dir {
            if self.max_file_cnt > 0 && self.file_cnt >= self.max_file_cnt {
                return true;
            }
            self.file_cnt = self.file_cnt + 1;
        }
        false
    }
}

/// Taking in the children of one directory under a file limit, one after
/// the other from a count of `file_cnt`: for each child whether it is kept,
/// then the count after them, and whether a file was refused. An unreadable
/// child (`None`) is kept and not counted; a non-directory counts as a file
/// and is refused once a positive limit is reached.
pub open spec fn admit_run(file_cnt: int, max_file_cnt: usize, kinds: Seq<Option<bool>>) -> (
    Seq<bool>,
    int,
    bool,
)
    decreases kinds.len(),
{
    if kinds.len() == 0 {
        (Seq::empty(), file_cnt, false)
    } else {
        let p = admit_run(file_cnt, max_file_cnt, kinds.drop_last());
        match kinds.last() {
            None => (p.0.push(true), p.1, p.2),
            Some(is_dir) => if !is_dir && max_file_cnt > 0 && p.1 >= max_file_cnt {
                (p.0.push(false), p.1, true)
            } else {
                (p.0.push(true), if is_dir {
                    p.1
                } else {
                    p.1 + 1
                }, p.2)
            },
        }
    }
}

proof fn lemma_admit_run(file_cnt: int, max_file_cnt: usize, kinds: Seq<Option<bool>>)
    ensures
        admit_run(file_cnt, max_file_cnt, kinds).0.len() == kinds.len(),
        file_cnt <= admit_run(file_cnt, max_file_cnt, kinds).1 <= file_cnt + kinds.len(),
        max_file_cnt > 0 && file_cnt <= max_file_cnt ==> admit_run(
            file_cnt,
            max_file_cnt,
            kinds,
        ).1 <= max_file_cnt,
    decreases kinds.len(),
{
    if kinds.len() > 0 {
        lemma_admit_run(file_cnt, max_file_cnt, kinds.drop_last());
    }
}

impl FileLimit {
    /// Takes in the children of one directory: a file beyond a positive
    /// limit is dropped, every other child stays, in order. `kinds[i]` tells
    /// whether `children[i]` is a directory, `None` for a child that could
    /// not be read. Tells whether a file was refused, so the walk stops.
    pub fn admit_children<T>(&mut self, children: &mut Vec<T>, kinds: &Vec<Option<bool>>) -> (hit:
        bool)
        requires
            old(children)@.len() == kinds@.len(),
            old(self).file_cnt + kinds@.len() <= usize::MAX,
        ensures
            final(self).max_file_cnt == old(self).max_file_cnt,
            final(self).file_cnt == admit_run(old(self).file_cnt as int, old(self).max_file_cnt, kinds@).1,
            hit == admit_run(old(self).file_cnt as int, old(self).max_file_cnt, kinds@).2,
            final(children)@ == select(
                old(children)@,
                admit_run(old(self).file_cnt as int, old(self).max_file_cnt, kinds@).0,
            ),
            old(self).max_file_cnt > 0 && old(self).file_cnt <= old(self).max_file_cnt
                ==> final(self).file_cnt <= final(self).max_file_cnt,
    {
        let ghost cnt0 = self.file_cnt as int;
        let ghost max = self.max_file_cnt;
        let mut keep: Vec<bool> = Vec::new();
        let mut hit = false;
        for i in 0..kinds.len()
            invariant
                self.max_file_cnt == max,
                cnt0 + kinds@.len() <= usize::MAX,
                keep@ == admit_run(cnt0, max, kinds@.subrange(0, i as int)).0,
                self.file_cnt == admit_run(cnt0, max, kinds@.subrange(0, i as int)).1,
                hit == admit_run(cnt0, max, kinds@.subrange(0, i as int)).2,
        {
            proof {
                let s = kinds@.subrange(0, i + 1);
                assert(s.drop_last() =~= kinds@.subrange(0, i as int));
                assert(s.last() == kinds@[i as int]);
                lemma_admit_run(cnt0, max, kinds@.subrange(0, i as int));
            }
            match kinds[i] {
                None => keep.push(true),
                Some(is_dir) => {
                    if self.note(is_dir) {
                        keep.push(false);
                        hit = true;
                    } else {
                        keep.push(true);
                    }
                },
            }
        }
        proof {
            assert(kinds@.subrange(0, kinds@.len() as int) =~= kinds@);
            lemma_admit_run(cnt0, max, kinds@);
        }
        retain_by_mask(children, &keep);
        hit
    }
}

/// The path and table of contents of one delivered directory.
pub open spec fn entry_view(e: (String, Toc)) -> (String, TocView) {
    (e.0, e.1@)
}

pub open spec fn entries_view(v: Seq<(String, Toc)>) -> Seq<(String, TocView)> {
    v.map_values(|e: (String, Toc)| entry_view(e))
}

/// A copy of a list of delivered directories.
pub fn clone_entries(v: &Vec<(String, Toc)>) -> (r: Vec<(String, Toc)>)
    ensures
        entries_view(r@) == entries_view(v@),
{
    let mut r: Vec<(String, Toc)> = Vec::new();
    for i in 0..v.len()
        invariant
            r@.len() == i,
            entries_view(r@) == entries_view(v@.subrange(0, i as int)),
    {
        let p = v[i].0.clone();
        let t = v[i].1.clone();
        let ghost before = r@;
        r.push((p, t));
        assert(entry_view(r@[i as int]) == entry_view(v@[i as int]));
        assert(entries_view(r@) =~= entries_view(v@.subrange(0, i + 1))) by {
            assert(r@ == before.push((p, t)));
            assert forall|k: int| 0 <= k < i + 1 implies entries_view(r@)[k] == entries_view(
                v@.subrange(0, i + 1),
            )[k] by {
                if k < i {
                    assert(entries_view(before)[k] == entries_view(v@.subrange(0, i as int))[k]);
                }
            }
        }
    }
    assert(v@.subrange(0, v@.len() as int) =~= v@);
    r
}

/// Whether some delivered directory reports errors.
pub open spec fn any_errors(v: Seq<(String, Toc)>) -> bool {
    exists|i: int| 0 <= i < v.len() && v[i].1.errors@.len() > 0
}

/// The number of errors over all delivered directories.
pub open spec fn total_errors(v: Seq<(String, Toc)>) -> int
    decreases v.len(),
{
    if v.len() == 0 {
        0
    } else {
        total_errors(v.drop_last()) + v.last().1.errors@.len()
    }
}

/// The errors of the delivered directories, each paired with the path of
/// its directory.
pub open spec fn flat_errors(v: Seq<(String, TocView)>) -> Seq<(String, String)>
    decreases v.len(),
{
    if v.len() == 0 {
        Seq::empty()
    } else {
        flat_errors(v.drop_last()) + v.last().1.4.map_values(|err: String| (v.last().0, err))
    }
}

/// Sums of the list lengths over all delivered directories: directories,
/// files, symlinks and others.
pub open spec fn sum_lens(v: Seq<(String, Toc)>, which: int) -> int
    decreases v.len(),
{
    if v.len() == 0 {
        0
    } else {
        let t = v.last().1;
        sum_lens(v.drop_last(), which) + if which == 0 {
            t.dirs@.len() as int
        } else if which == 1 {
            t.files@.len() as int
        } else if which == 2 {
            t.symlinks@.len() as int
        } else {
            t.other@.len() as int
        }
    }
}

/// All errors of the delivered directories, in order.
pub open spec fn all_errors(v: Seq<(String, Toc)>) -> Seq<String>
    decreases v.len(),
{
    if v.len() == 0 {
        Seq::empty()
    } else {
        all_errors(v.drop_last()) + v.last().1.errors@
    }
}

/// `after` is `before` once it has taken in `received`: the error flag is
/// raised when a delivered directory reports errors, and with storing on
/// the delivered directories are appended to those kept.
pub open spec fn takes_in(before: WalkState, after: WalkState, received: Seq<(String, Toc)>) -> bool {
    &&& after.spec_store() == before.spec_store()
    &&& after.spec_has_errors() == (before.spec_has_errors() || any_errors(received))
    &&& entries_view(after.spec_entries()) == if before.spec_store() {
        entries_view(before.spec_entries() + received)
    } else {
        entries_view(before.spec_entries())
    }
}

/// Whether results are available: new ones waiting (`pending`) or, unless
/// `only_new`, directories kept.
pub open spec fn results_available(s: WalkState, only_new: bool, pending: bool) -> bool {
    pending || (!only_new && s.spec_entries().len() > 0)
}

/// The number of results: those waiting (when a worker was started) and,
/// unless `only_new`, those kept.
pub open spec fn results_count(s: WalkState, only_new: bool, pending: Option<usize>) -> int {
    match pending {
        Some(n) => if only_new {
            n as int
        } else {
            s.spec_entries().len() + n
        },
        None => s.spec_entries().len() as int,
    }
}

/// What a walk keeps of its results.
#[derive(Debug)]
pub struct WalkState {
    /// Whether delivered results are kept
    store: bool,
    entries: Vec<(String, Toc)>,
    has_errors: bool,
}

impl WalkState {
    pub closed spec fn spec_store(&self) -> bool {
        self.store
    }

    /// The directories delivered and kept so far.
    pub closed spec fn spec_entries(&self) -> Seq<(String, Toc)> {
        self.entries@
    }

    pub closed spec fn spec_has_errors(&self) -> bool {
        self.has_errors
    }

    /// Results are kept unless `store` says otherwise.
    pub fn new(store: Option<bool>) -> (r: WalkState)
        ensures
            r.spec_store() == match store {
                Some(b) => b,
                None => true,
            },
            r.spec_entries().len() == 0,
            !r.spec_has_errors(),
    {
        WalkState {
            store: match store {
                Some(b) => b,
                None => true,
            },
            entries: Vec::new(),
            has_errors: false,
        }
    }

    /// Forgets all results.
    pub fn clear(&mut self)
        ensures
            final(self).spec_store() == old(self).spec_store(),
            final(self).spec_entries().len() == 0,
            !final(self).spec_has_errors(),
    {
        self.entries.clear();
        self.has_errors = false;
    }

    /// Takes in what the worker delivered and notes whether it reports
    /// errors; gives the delivered directories back.
    fn receive_all(&mut self, received: Vec<(String, Toc)>) -> (r: Vec<(String, Toc)>)
        ensures
            r@ == received@,
            final(self).spec_store() == old(self).spec_store(),
            final(self).spec_entries() == old(self).spec_entries(),
            final(self).spec_has_errors() == (old(self).spec_has_errors() || any_errors(received@)),
    {
        let mut i: usize = 0;
        while i < received.len()
            invariant
                0 <= i <= received@.len(),
                self.store == old(self).store,
                self.entries@ == old(self).entries@,
                self.has_errors == (old(self).has_errors || any_errors(received@.subrange(0, i as int))),
            decreases received@.len() - i,
        {
            if !received[i].1.errors.is_empty() {
                self.has_errors = true;
            }
            proof {
                let s = received@.subrange(0, i + 1);
                if any_errors(received@.subrange(0, i as int)) {
                    let k = choose|k: int| 0 <= k < i && received@.subrange(0, i as int)[k].1.errors@.len() > 0;
                    assert(s[k] == received@.subrange(0, i as int)[k]);
                }
                if received@[i as int].1.errors@.len() > 0 {
                    assert(s[i as int] == received@[i as int]);
                }
                if any_errors(s) {
                    let k = choose|k: int| 0 <= k < i + 1 && s[k].1.errors@.len() > 0;
                    if k < i {
                        assert(received@.subrange(0, i as int)[k] == s[k]);
                    }
                }
            }
            i = i + 1;
        }
        assert(received@.subrange(0, received@.len() as int) =~= received@);
        received
    }

    /// Takes in what the worker delivered, keeps it when results are
    /// stored, and gives either everything kept (`only_new` false, with
    /// storing on) or just the new directories.
    pub fn results(&mut self, only_new: bool, received: Vec<(String, Toc)>) -> (r: Vec<
        (String, Toc),
    >)
        ensures
            takes_in(*old(self), *final(self), received@),
            entries_view(r@) == if !only_new && old(self).spec_store() {
                entries_view(final(self).spec_entries())
            } else {
                entries_view(received@)
            },
    {
        let entries = self.receive_all(received);
        if self.store {
            let mut copy = clone_entries(&entries);
            let ghost c0 = copy@;
            let ghost before = self.entries@;
            self.entries.append(&mut copy);
            assert(self.entries@ == before + c0);
            assert(entries_view(before + c0) =~= entries_view(before) + entries_view(c0));
            assert(entries_view(before + entries@) =~= entries_view(before) + entries_view(
                entries@,
            ));
        }
        if !only_new && self.store {
            return clone_entries(&self.entries);
        }
        entries
    }

    /// A copy of the directories kept so far.
    pub fn stored_entries(&self) -> (r: Vec<(String, Toc)>)
        ensures
            entries_view(r@) == entries_view(self.spec_entries()),
    {
        clone_entries(&self.entries)
    }

    /// Whether results are waiting (`pending`: the worker has delivered
    /// something not yet taken in) or, unless `only_new`, kept.
    pub fn has_results(&self, only_new: bool, pending: bool) -> (r: bool)
        ensures
            r == results_available(*self, only_new, pending),
    {
        if pending {
            return true;
        }
        if only_new {
            return false;
        }
        !self.entries.is_empty()
    }

    /// The number of results: those waiting (`pending`, when a worker has
    /// been started) and, unless `only_new`, those kept.
    pub fn results_cnt(&self, only_new: bool, pending: Option<usize>) -> (r: usize)
        requires
            !only_new ==> (pending matches Some(n) ==> self.spec_entries().len() + n <= usize::MAX),
        ensures
            r == results_count(*self, only_new, pending),
    {
        match pending {
            Some(n) => if only_new {
                n
            } else {
                self.entries.len() + n
            },
            None => self.entries.len(),
        }
    }

    /// Whether a delivered directory reported errors.
    pub fn has_errors(&self) -> (r: bool)
        ensures
            r == self.spec_has_errors(),
    {
        self.has_errors
    }

    /// The number of errors over the kept directories.
    pub fn errors_cnt(&self) -> (r: usize)
        requires
            total_errors(self.spec_entries()) <= usize::MAX,
        ensures
            r == total_errors(self.spec_entries()),
    {
        let mut n: usize = 0;
        for i in 0..self.entries.len()
            invariant
                n == total_errors(self.entries@.subrange(0, i as int)),
                total_errors(self.entries@) <= usize::MAX,
        {
            proof {
                let s = self.entries@.subrange(0, i + 1);
                assert(s.drop_last() =~= self.entries@.subrange(0, i as int));
                lemma_total_errors_prefix(self.entries@, i + 1);
            }
            n = n + self.entries[i].1.errors.len();
        }
        assert(self.entries@.subrange(0, self.entries@.len() as int) =~= self.entries@);
        n
    }

    /// Whether the error count of the kept directories fits a `usize`.
    pub fn errors_cnt_fits(&self) -> (r: bool)
        ensures
            r == (total_errors(self.spec_entries()) <= usize::MAX),
    {
        let mut n: u128 = 0;
        for i in 0..self.entries.len()
            invariant
                n == total_errors(self.entries@.subrange(0, i as int)),
                n <= usize::MAX,
        {
            proof {
                let s = self.entries@.subrange(0, i + 1);
                assert(s.drop_last() =~= self.entries@.subrange(0, i as int));
            }
            n = n + self.entries[i].1.errors.len() as u128;
            if n > usize::MAX as u128 {
                proof {
                    lemma_total_errors_prefix(self.entries@, i + 1);
                }
                return false;
            }
        }
        assert(self.entries@.subrange(0, self.entries@.len() as int) =~= self.entries@);
        true
    }

    /// Whether the per-kind sums of the kept directories fit the 32-bit
    /// counters of `Statistics`.
    pub fn statistics_fit(&self) -> (r: bool)
        ensures
            r == (sum_lens(self.spec_entries(), 0) <= i32::MAX && sum_lens(self.spec_entries(), 1)
                <= i32::MAX && sum_lens(self.spec_entries(), 2) <= i32::MAX && sum_lens(
                self.spec_entries(),
                3,
            ) <= i32::MAX),
    {
        let mut a: u128 = 0;
        let mut b: u128 = 0;
        let mut c: u128 = 0;
        let mut d: u128 = 0;
        for i in 0..self.entries.len()
            invariant
                a == sum_lens(self.entries@.subrange(0, i as int), 0),
                b == sum_lens(self.entries@.subrange(0, i as int), 1),
                c == sum_lens(self.entries@.subrange(0, i as int), 2),
                d == sum_lens(self.entries@.subrange(0, i as int), 3),
                a <= i32::MAX,
                b <= i32::MAX,
                c <= i32::MAX,
                d <= i32::MAX,
        {
            proof {
                let s = self.entries@.subrange(0, i + 1);
                assert(s.drop_last() =~= self.entries@.subrange(0, i as int));
                lemma_sum_lens_prefix(self.entries@, i + 1, 0);
                lemma_sum_lens_prefix(self.entries@, i + 1, 1);
                lemma_sum_lens_prefix(self.entries@, i + 1, 2);
                lemma_sum_lens_prefix(self.entries@, i + 1, 3);
            }
            let toc = &self.entries[i].1;
            a = a + toc.dirs.len() as u128;
            b = b + toc.files.len() as u128;
            c = c + toc.symlinks.len() as u128;
            d = d + toc.other.len() as u128;
            if a > i32::MAX as u128 || b > i32::MAX as u128 || c > i32::MAX as u128 || d
                > i32::MAX as u128 {
                return false;
            }
        }
        assert(self.entries@.subrange(0, self.entries@.len() as int) =~= self.entries@);
        true
    }

    /// The errors of the results as `results` gives them, each with the path
    /// of its directory.
    pub fn errors(&mut self, only_new: bool, received: Vec<(String, Toc)>) -> (r: ErrorsType)
        ensures
            takes_in(*old(self), *final(self), received@),
            r@ == flat_errors(
                if !only_new && old(self).spec_store() {
                    entries_view(final(self).spec_entries())
                } else {
                    entries_view(received@)
                },
            ),
    {
        let results = self.results(only_new, received);
        flatten_errors(&results)
    }

    /// Statistics of the kept directories: directories, files, symlinks,
    /// others (counted as devices) and the errors.
    pub fn statistics(&self) -> (r: Statistics)
        requires
            sum_lens(self.spec_entries(), 0) <= i32::MAX,
            sum_lens(self.spec_entries(), 1) <= i32::MAX,
            sum_lens(self.spec_entries(), 2) <= i32::MAX,
            sum_lens(self.spec_entries(), 3) <= i32::MAX,
        ensures
            r.dirs == sum_lens(self.spec_entries(), 0),
            r.files == sum_lens(self.spec_entries(), 1),
            r.slinks == sum_lens(self.spec_entries(), 2),
            r.devices == sum_lens(self.spec_entries(), 3),
            r.hlinks == 0,
            r.pipes == 0,
            r.size == 0,
            r.usage == 0,
            r.errors@ == all_errors(self.spec_entries()),
    {
        let mut statistics = Statistics::new();
        for i in 0..self.entries.len()
            invariant
                statistics.dirs == sum_lens(self.entries@.subrange(0, i as int), 0),
                statistics.files == sum_lens(self.entries@.subrange(0, i as int), 1),
                statistics.slinks == sum_lens(self.entries@.subrange(0, i as int), 2),
                statistics.devices == sum_lens(self.entries@.subrange(0, i as int), 3),
                statistics.hlinks == 0,
                statistics.pipes == 0,
                statistics.size == 0,
                statistics.usage == 0,
                statistics.errors@ == all_errors(self.entries@.subrange(0, i as int)),
                sum_lens(self.entries@, 0) <= i32::MAX,
                sum_lens(self.entries@, 1) <= i32::MAX,
                sum_lens(self.entries@, 2) <= i32::MAX,
                sum_lens(self.entries@, 3) <= i32::MAX,
        {
            let ghost s = self.entries@.subrange(0, i + 1);
            proof {
                assert(s.drop_last() =~= self.entries@.subrange(0, i as int));
                lemma_sum_lens_prefix(self.entries@, i + 1, 0);
                lemma_sum_lens_prefix(self.entries@, i + 1, 1);
                lemma_sum_lens_prefix(self.entries@, i + 1, 2);
                lemma_sum_lens_prefix(self.entries@, i + 1, 3);
                lemma_sum_lens_nonneg(self.entries@.subrange(0, i as int), 0);
                lemma_sum_lens_nonneg(self.entries@.subrange(0, i as int), 1);
                lemma_sum_lens_nonneg(self.entries@.subrange(0, i as int), 2);
                lemma_sum_lens_nonneg(self.entries@.subrange(0, i as int), 3);
            }
            let toc = &self.entries[i].1;
            statistics.dirs = statistics.dirs + toc.dirs.len() as i32;
            statistics.files = statistics.files + toc.files.len() as i32;
            statistics.slinks = statistics.slinks + toc.symlinks.len() as i32;
            statistics.devices = statistics.devices + toc.other.len() as i32;
            let mut errs = clone_strings(&toc.errors);
            statistics.errors.append(&mut errs);
        }
        assert(self.entries@.subrange(0, self.entries@.len() as int) =~= self.entries@);
        statistics
    }

    /// Takes in what the worker delivered and joins the new directories'
    /// tables of contents into one, each name prefixed with the path of its
    /// directory.
    pub fn collect(&mut self, received: Vec<(String, Toc)>) -> (r: Toc)
        ensures
            takes_in(*old(self), *final(self), received@),
            strings_text(r.dirs@) == joined_list(entries_view(received@), 0),
            strings_text(r.files@) == joined_list(entries_view(received@), 1),
            strings_text(r.symlinks@) == joined_list(entries_view(received@), 2),
            strings_text(r.other@) == joined_list(entries_view(received@), 3),
            strings_text(r.errors@) == joined_list(entries_view(received@), 4),
    {
        let results = self.results(true, received);
        let mut toc = Toc::new();
        assert(strings_text(toc.dirs@) =~= Seq::<Seq<char>>::empty());
        assert(strings_text(toc.files@) =~= Seq::<Seq<char>>::empty());
        assert(strings_text(toc.symlinks@) =~= Seq::<Seq<char>>::empty());
        assert(strings_text(toc.other@) =~= Seq::<Seq<char>>::empty());
        assert(strings_text(toc.errors@) =~= Seq::<Seq<char>>::empty());
        for i in 0..results.len()
            invariant
                entries_view(results@) == entries_view(received@),
                strings_text(toc.dirs@) == joined_list(entries_view(results@.subrange(0, i as int)), 0),
                strings_text(toc.files@) == joined_list(entries_view(results@.subrange(0, i as int)), 1),
                strings_text(toc.symlinks@) == joined_list(
                    entries_view(results@.subrange(0, i as int)),
                    2,
                ),
                strings_text(toc.other@) == joined_list(entries_view(results@.subrange(0, i as int)), 3),
                strings_text(toc.errors@) == joined_list(
                    entries_view(results@.subrange(0, i as int)),
                    4,
                ),
        {
            let ghost before = toc;
            let (root_dir, dir_toc) = &results[i];
            toc.extend(root_dir.as_str(), dir_toc);
            proof {
                let s = entries_view(results@.subrange(0, i + 1));
                assert(s.drop_last() =~= entries_view(results@.subrange(0, i as int)));
                assert(s.last() == entry_view(results@[i as int]));
                lemma_appended_text(before.dirs@, toc.dirs@, root_dir@, dir_toc.dirs@);
                lemma_appended_text(before.files@, toc.files@, root_dir@, dir_toc.files@);
                lemma_appended_text(before.symlinks@, toc.symlinks@, root_dir@, dir_toc.symlinks@);
                lemma_appended_text(before.other@, toc.other@, root_dir@, dir_toc.other@);
                lemma_appended_text(before.errors@, toc.errors@, root_dir@, dir_toc.errors@);
            }
        }
        assert(results@.subrange(0, results@.len() as int) =~= results@);
        toc
    }
}

/// The texts of a list of strings.
pub open spec fn strings_text(v: Seq<String>) -> Seq<Seq<char>> {
    v.map_values(|s: String| s@)
}

/// List `k` of a table of contents: 0 directories, 1 files, 2 symlinks,
/// 3 others, 4 errors.
pub open spec fn toc_list(t: TocView, k: int) -> Seq<String> {
    if k == 0 {
        t.0
    } else if k == 1 {
        t.1
    } else if k == 2 {
        t.2
    } else if k == 3 {
        t.3
    } else {
        t.4
    }
}

/// List `k` over delivered directories, each name joined onto the path of
/// its directory.
pub open spec fn joined_list(v: Seq<(String, TocView)>, k: int) -> Seq<Seq<char>>
    decreases v.len(),
{
    if v.len() == 0 {
        Seq::empty()
    } else {
        joined_list(v.drop_last(), k) + toc_list(v.last().1, k).map_values(
            |n: String| spec_path_join(v.last().0@, n@),
        )
    }
}

proof fn lemma_appended_text(
    before: Seq<String>,
    after: Seq<String>,
    root: Seq<char>,
    names: Seq<String>,
)
    requires
        crate::def::appended_joined(before, after, root, names),
    ensures
        strings_text(after) == strings_text(before) + names.map_values(
            |n: String| spec_path_join(root, n@),
        ),
{
    assert forall|k: int| 0 <= k < after.len() implies strings_text(after)[k] == (strings_text(
        before,
    ) + names.map_values(|n: String| spec_path_join(root, n@)))[k] by {
        if k >= before.len() {
            let j = k - before.len();
            assert(after[before.len() + j] == after[k]);
        }
    }
    assert(strings_text(after) =~= strings_text(before) + names.map_values(
        |n: String| spec_path_join(root, n@),
    ));
}

/// The errors of delivered directories, each with its directory's path.
pub fn flatten_errors(v: &Vec<(String, Toc)>) -> (r: ErrorsType)
    ensures
        r@ == flat_errors(entries_view(v@)),
{
    let mut r: ErrorsType = Vec::new();
    for i in 0..v.len()
        invariant
            r@ == flat_errors(entries_view(v@.subrange(0, i as int))),
    {
        let ghost s = v@.subrange(0, i + 1);
        let ghost before = r@;
        proof {
            assert(entries_view(s).drop_last() =~= entries_view(v@.subrange(0, i as int)));
            assert(entries_view(s).last() == entry_view(v@[i as int]));
        }
        let (dir, toc) = &v[i];
        for j in 0..toc.errors.len()
            invariant
                r@ == before + toc.errors@.subrange(0, j as int).map_values(
                    |err: String| (*dir, err),
                ),
        {
            r.push((dir.clone(), toc.errors[j].clone()));
            assert(r@ =~= before + toc.errors@.subrange(0, j + 1).map_values(
                |err: String| (*dir, err),
            ));
        }
        assert(toc.errors@.subrange(0, toc.errors@.len() as int) =~= toc.errors@);
        assert(s.last() == v@[i as int]);
    }
    assert(v@.subrange(0, v@.len() as int) =~= v@);
    r
}

proof fn lemma_total_errors_prefix(v: Seq<(String, Toc)>, k: int)
    requires
        0 <= k <= v.len(),
    ensures
        total_errors(v.subrange(0, k)) <= total_errors(v),
        total_errors(v.subrange(0, k)) >= 0,
    decreases v.len(),
{
    if v.len() == 0 {
        assert(v.subrange(0, k) =~= v);
    } else if k == v.len() {
        assert(v.subrange(0, k) =~= v);
        lemma_total_errors_prefix(v.drop_last(), k - 1);
    } else {
        lemma_total_errors_prefix(v.drop_last(), k);
        assert(v.drop_last().subrange(0, k) =~= v.subrange(0, k));
    }
}

proof fn lemma_sum_lens_nonneg(v: Seq<(String, Toc)>, which: int)
    ensures
        sum_lens(v, which) >= 0,
    decreases v.len(),
{
    if v.len() > 0 {
        lemma_sum_lens_nonneg(v.drop_last(), which);
    }
}

proof fn lemma_sum_lens_prefix(v: Seq<(String, Toc)>, k: int, which: int)
    requires
        0 <= k <= v.len(),
    ensures
        sum_lens(v.subrange(0, k), which) <= sum_lens(v, which),
    decreases v.len(),
{
    if v.len() == 0 {
        assert(v.subrange(0, k) =~= v);
    } else if k == v.len() {
        assert(v.subrange(0, k) =~= v);
    } else {
        lemma_sum_lens_prefix(v.drop_last(), k, which);
        assert(v.drop_last().subrange(0, k) =~= v.subrange(0, k));
        lemma_sum_lens_nonneg(v.drop_last(), which);
    }
}

/// How many children could not be read.
pub open spec fn unreadable(children: Seq<Result<TocChild, String>>) -> int
    decreases children.len(),
{
    if children.len() == 0 {
        0
    } else {
        unreadable(children.drop_last()) + if children.last() is Err {
            1int
        } else {
            0int
        }
    }
}

/// The number of names over the lists of a table of contents.
pub open spec fn toc_view_len(t: TocView) -> int {
    (t.0.len() + t.1.len() + t.2.len() + t.3.len() + t.4.len()) as int
}

/// Every child is filed exactly once: a readable one under its kind, an
/// unreadable one as an error.
pub proof fn law_toc_files_each_child_once(children: Seq<Result<TocChild, String>>)
    ensures
        toc_view_len(toc_of(children)) == children.len(),
        toc_of(children).4.len() == unreadable(children),
    decreases children.len(),
{
    if children.len() > 0 {
        law_toc_files_each_child_once(children.drop_last());
    }
}

proof fn lemma_entries_view_concat(a: Seq<(String, Toc)>, b: Seq<(String, Toc)>)
    ensures
        entries_view(a + b) == entries_view(a) + entries_view(b),
{
    assert(entries_view(a + b) =~= entries_view(a) + entries_view(b));
}

proof fn lemma_any_errors_concat(a: Seq<(String, Toc)>, b: Seq<(String, Toc)>)
    ensures
        any_errors(a + b) == (any_errors(a) || any_errors(b)),
{
    let ab = a + b;
    if any_errors(ab) {
        let i = choose|i: int| 0 <= i < ab.len() && ab[i].1.errors@.len() > 0;
        if i < a.len() {
            assert(a[i] == ab[i]);
        } else {
            assert(b[i - a.len()] == ab[i]);
        }
    }
    if any_errors(a) {
        let i = choose|i: int| 0 <= i < a.len() && a[i].1.errors@.len() > 0;
        assert(ab[i] == a[i]);
    }
    if any_errors(b) {
        let i = choose|i: int| 0 <= i < b.len() && b[i].1.errors@.len() > 0;
        assert(ab[a.len() + i] == b[i]);
    }
}

/// Lists with the same views report errors alike.
proof fn lemma_any_errors_by_view(a: Seq<(String, Toc)>, b: Seq<(String, Toc)>)
    requires
        entries_view(a) == entries_view(b),
    ensures
        any_errors(a) == any_errors(b),
{
    assert(a.len() == entries_view(a).len());
    assert(b.len() == entries_view(b).len());
    if any_errors(a) {
        let i = choose|i: int| 0 <= i < a.len() && a[i].1.errors@.len() > 0;
        assert(entries_view(a)[i] == entries_view(b)[i]);
    }
    if any_errors(b) {
        let i = choose|i: int| 0 <= i < b.len() && b[i].1.errors@.len() > 0;
        assert(entries_view(a)[i] == entries_view(b)[i]);
    }
}

/// The list a child is filed under: 0 directories, 1 files, 2 symlinks,
/// 3 others (symlinks first, as `toc_add` files them).
pub open spec fn kind_of(c: TocChild) -> int {
    if c.is_symlink {
        2
    } else if c.is_dir {
        0
    } else if c.is_file {
        1
    } else {
        3
    }
}

/// How many readable children are of kind `k`.
pub open spec fn count_kind(children: Seq<Result<TocChild, String>>, k: int) -> int
    decreases children.len(),
{
    if children.len() == 0 {
        0
    } else {
        count_kind(children.drop_last(), k) + match children.last() {
            Ok(c) => if kind_of(c) == k {
                1int
            } else {
                0int
            },
            Err(_) => 0int,
        }
    }
}

/// Each readable child's name is in the list of its kind, and each list
/// holds exactly as many names as there are children of its kind: every
/// child is filed once, under its kind alone.
pub proof fn law_toc_lists_by_kind(children: Seq<Result<TocChild, String>>)
    ensures
        forall|k: int| 0 <= k < 4 ==> #[trigger] toc_list(toc_of(children), k).len() == count_kind(
            children,
            k,
        ),
        forall|i: int|
            0 <= i < children.len() && (#[trigger] children[i]) is Ok ==> toc_list(
                toc_of(children),
                kind_of(children[i]->Ok_0),
            ).contains(children[i]->Ok_0.file_name),
    decreases children.len(),
{
    if children.len() > 0 {
        let init = children.drop_last();
        law_toc_lists_by_kind(init);
        let t = toc_of(init);
        assert forall|k: int| 0 <= k < 4 implies #[trigger] toc_list(toc_of(children), k).len()
            == count_kind(children, k) by {
            assert(toc_list(t, k).len() == count_kind(init, k));
        }
        assert forall|i: int|
            0 <= i < children.len() && (#[trigger] children[i]) is Ok implies toc_list(
                toc_of(children),
                kind_of(children[i]->Ok_0),
            ).contains(children[i]->Ok_0.file_name) by {
            let c = children[i]->Ok_0;
            let k = kind_of(c);
            if i < children.len() - 1 {
                assert(init[i] == children[i]);
                let l = toc_list(t, k);
                let j = choose|j: int| 0 <= j < l.len() && l[j] == c.file_name;
                assert(toc_list(toc_of(children), k)[j] == c.file_name);
            } else {
                let l = toc_list(toc_of(children), k);
                assert(l[l.len() - 1] == c.file_name);
            }
        }
    }
}

/// Name `j` of list `k` belongs to a readable child of kind `k`.
pub open spec fn filed_from_child(children: Seq<Result<TocChild, String>>, k: int, j: int) -> bool {
    exists|i: int|
        0 <= i < children.len() && #[trigger] children[i] is Ok && kind_of(children[i]->Ok_0) == k
            && children[i]->Ok_0.file_name == toc_list(toc_of(children), k)[j]
}

proof fn lemma_lists_hold_children(children: Seq<Result<TocChild, String>>)
    ensures
        forall|k: int, j: int|
            0 <= k < 4 && 0 <= j < toc_list(toc_of(children), k).len() ==> #[trigger] filed_from_child(
                children,
                k,
                j,
            ),
    decreases children.len(),
{
    if children.len() > 0 {
        let init = children.drop_last();
        lemma_lists_hold_children(init);
        law_toc_lists_by_kind(init);
        assert forall|k: int, j: int|
            0 <= k < 4 && 0 <= j < toc_list(toc_of(children), k).len() implies #[trigger] filed_from_child(
            children,
            k,
            j,
        ) by {
            let t = toc_of(init);
            if j < toc_list(t, k).len() {
                assert(filed_from_child(init, k, j));
                let i = choose|i: int|
                    0 <= i < init.len() && #[trigger] init[i] is Ok && kind_of(init[i]->Ok_0) == k
                        && init[i]->Ok_0.file_name == toc_list(t, k)[j];
                assert(children[i] == init[i]);
                assert(toc_list(toc_of(children), k)[j] == toc_list(t, k)[j]);
            } else {
                let i = children.len() - 1;
                assert(children[i] is Ok);
            }
        }
    }
}

/// In a directory, where names are unique, each readable child's name lies
/// in exactly one of the four lists (directories, files, symlinks, others):
/// the list of its kind.
pub proof fn law_toc_child_in_exactly_one_list(children: Seq<Result<TocChild, String>>)
    requires
        forall|a: int, b: int|
            0 <= a < children.len() && 0 <= b < children.len() && a != b && #[trigger] children[a]
                is Ok && #[trigger] children[b] is Ok ==> children[a]->Ok_0.file_name
                != children[b]->Ok_0.file_name,
    ensures
        forall|i: int, k: int|
            0 <= i < children.len() && #[trigger] children[i] is Ok && 0 <= k < 4 ==> (#[trigger] toc_list(
                toc_of(children),
                k,
            ).contains(children[i]->Ok_0.file_name) <==> k == kind_of(children[i]->Ok_0)),
{
    law_toc_lists_by_kind(children);
    lemma_lists_hold_children(children);
    assert forall|i: int, k: int|
        0 <= i < children.len() && #[trigger] children[i] is Ok && 0 <= k < 4 implies (
    #[trigger] toc_list(toc_of(children), k).contains(children[i]->Ok_0.file_name) <==> k == kind_of(
        children[i]->Ok_0,
    )) by {
        let l = toc_list(toc_of(children), k);
        if l.contains(children[i]->Ok_0.file_name) {
            let j = choose|j: int| 0 <= j < l.len() && l[j] == children[i]->Ok_0.file_name;
            assert(filed_from_child(children, k, j));
            let i2 = choose|i2: int|
                0 <= i2 < children.len() && #[trigger] children[i2] is Ok && kind_of(children[i2]->Ok_0)
                    == k && children[i2]->Ok_0.file_name == l[j];
            if i2 != i {
                assert(children[i2]->Ok_0.file_name != children[i]->Ok_0.file_name);
            }
        }
    }
}

/// With storing on, what a walk keeps is every delivered directory, in
/// order, and its error flag says whether any of them reported errors:
/// taking in two deliveries from nothing kept leaves both, as if they had
/// come at once.
pub proof fn law_kept_results_are_all_deliveries(
    s0: WalkState,
    s1: WalkState,
    s2: WalkState,
    first: Seq<(String, Toc)>,
    second: Seq<(String, Toc)>,
)
    requires
        s0.spec_store(),
        s0.spec_entries().len() == 0,
        !s0.spec_has_errors(),
        takes_in(s0, s1, first),
        takes_in(s1, s2, second),
    ensures
        entries_view(s2.spec_entries()) == entries_view(first + second),
        s2.spec_has_errors() == any_errors(first + second),
        s2.spec_has_errors() == any_errors(s2.spec_entries()),
{
    assert(s0.spec_entries() + first =~= first);
    lemma_entries_view_concat(s1.spec_entries(), second);
    lemma_entries_view_concat(first, second);
    lemma_any_errors_concat(first, second);
    lemma_any_errors_by_view(s2.spec_entries(), first + second);
}

/// The error flag, the error list and the error count agree: there are
/// errors exactly when the list is non-empty, the count is the length of
/// the list, and the errors paired with their directories are as many.
pub proof fn law_error_views_agree(v: Seq<(String, Toc)>)
    ensures
        any_errors(v) == (all_errors(v).len() > 0),
        total_errors(v) == all_errors(v).len(),
        flat_errors(entries_view(v)).len() == total_errors(v),
    decreases v.len(),
{
    if v.len() > 0 {
        let init = v.drop_last();
        law_error_views_agree(init);
        assert(entries_view(v).drop_last() =~= entries_view(init));
        lemma_any_errors_concat(init, seq![v.last()]);
        assert(init + seq![v.last()] =~= v);
        if v.last().1.errors@.len() > 0 {
            assert(seq![v.last()][0] == v.last());
        }
        if any_errors(seq![v.last()]) {
            let i = choose|i: int|
                0 <= i < seq![v.last()].len() && seq![v.last()][i].1.errors@.len() > 0;
            assert(i == 0);
        }
    }
}

/// Results are available exactly when their count is positive: the answer
/// of `has_results`, given whether a started worker has results waiting,
/// agrees with the count `results_cnt` gives for that many.
pub proof fn law_has_results_iff_count_positive(s: WalkState, only_new: bool, waiting: usize)
    ensures
        results_available(s, only_new, waiting > 0) == (results_count(s, only_new, Some(waiting))
            > 0),
{
}

/// The walk statistics count the names of the kept tables of contents list
/// by list: taking in one more directory adds its directories to `dirs`,
/// its files to `files`, its symlinks to `slinks` and its other entries to
/// `devices` (the sums that `statistics` reports), and nothing is counted
/// before any directory is kept.
pub proof fn law_statistics_count_each_list(v: Seq<(String, Toc)>, path: String, t: Toc)
    ensures
        sum_lens(Seq::empty(), 0) == 0 && sum_lens(Seq::empty(), 1) == 0 && sum_lens(
            Seq::empty(),
            2,
        ) == 0 && sum_lens(Seq::empty(), 3) == 0,
        sum_lens(v.push((path, t)), 0) == sum_lens(v, 0) + t.dirs@.len(),
        sum_lens(v.push((path, t)), 1) == sum_lens(v, 1) + t.files@.len(),
        sum_lens(v.push((path, t)), 2) == sum_lens(v, 2) + t.symlinks@.len(),
        sum_lens(v.push((path, t)), 3) == sum_lens(v, 3) + t.other@.len(),
        all_errors(v.push((path, t))) == all_errors(v) + t.errors@,
{
    assert(v.push((path, t)).drop_last() =~= v);
}

/// For a walk that kept a single directory, the statistics are that
/// directory's list lengths: its symlinks as `slinks`, its other entries as
/// `devices`.
pub proof fn law_statistics_of_one_directory(path: String, t: Toc)
    ensures
        sum_lens(seq![(path, t)], 0) == t.dirs@.len(),
        sum_lens(seq![(path, t)], 1) == t.files@.len(),
        sum_lens(seq![(path, t)], 2) == t.symlinks@.len(),
        sum_lens(seq![(path, t)], 3) == t.other@.len(),
        all_errors(seq![(path, t)]) == t.errors@,
{
    law_statistics_count_each_list(Seq::empty(), path, t);
    assert(Seq::<(String, Toc)>::empty().push((path, t)) =~= seq![(path, t)]);
    assert(Seq::<String>::empty() + t.errors@ =~= t.errors@);
}

/// Filing a child puts its name at the end of exactly one list of the
/// table of contents, chosen by its kind with symlinks first: a symlink
/// (also one to a directory) among the symlinks, else a directory among the
/// directories, else a file among the files, else among the others; every
/// other list, the errors included, is left as it was.
pub proof fn law_filing_by_kind(t: TocView, c: TocChild)
    ensures
        c.is_symlink ==> toc_add(t, c) == (t.0, t.1, t.2.push(c.file_name), t.3, t.4),
        !c.is_symlink && c.is_dir ==> toc_add(t, c) == (t.0.push(c.file_name), t.1, t.2, t.3, t.4),
        !c.is_symlink && !c.is_dir && c.is_file ==> toc_add(t, c) == (
            t.0,
            t.1.push(c.file_name),
            t.2,
            t.3,
            t.4,
        ),
        !c.is_symlink && !c.is_dir && !c.is_file ==> toc_add(t, c) == (
            t.0,
            t.1,
            t.2,
            t.3.push(c.file_name),
            t.4,
        ),
        toc_list(t, 0) == t.0 && toc_list(t, 1) == t.1 && toc_list(t, 2) == t.2 && toc_list(t, 3)
            == t.3 && toc_list(t, 4) == t.4,
{
}

} // verus!
