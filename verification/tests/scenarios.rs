//! The tree of three directory chains, each three levels deep, with 4
//! files, 5 hard links, 6 symlinks and 7 named pipes in every level, as a
//! walker reports it, run through the counting, table and entry logic.

use scandir::walk::{dir_toc, TocChild};
use scandir::{
    create_entry, get_root_path_len, CountState, EntryMetadata, EntryMetadataExt, EntryStat,
    ReturnType, ScandirResult, ScandirState, Stats, WalkState, WalkedEntry,
};

const ROOT: &str = "/tmp/scan";

#[derive(Clone, Copy, PartialEq)]
enum Kind {
    Dir,
    File,
    Symlink,
    Pipe,
}

#[derive(Clone)]
struct Node {
    name: String,
    kind: Kind,
    depth: usize,
    ino: u64,
    nlink: u64,
    size: u64,
}

/// One directory as the walker reads it: its path, depth and children.
struct ReadDir {
    path: String,
    children: Vec<Node>,
}

fn file_name(i: u64) -> String {
    if i < 3 {
        format!(".file{i}")
    } else {
        format!("file{i}")
    }
}

fn dir_node(name: String, depth: usize, ino: u64) -> Node {
    Node { name, kind: Kind::Dir, depth, ino, nlink: 2, size: 4096 }
}

/// The entries of one level: files, hard links to them, symlinks and pipes.
fn level_entries(depth: usize, base_ino: u64) -> Vec<Node> {
    let mut v = Vec::new();
    let links = |k: u64| if k == 4 { 3 } else { 2 };
    for k in 1..=4u64 {
        v.push(Node { name: file_name(k), kind: Kind::File, depth, ino: base_ino + k, nlink: links(k), size: 6 });
    }
    for j in 1..=5u64 {
        let target = j.min(4);
        v.push(Node {
            name: format!("hardlink{j}"),
            kind: Kind::File,
            depth,
            ino: base_ino + target,
            nlink: links(target),
            size: 6,
        });
    }
    for j in 1..=6u64 {
        v.push(Node { name: format!("symlink{j}"), kind: Kind::Symlink, depth, ino: base_ino + 10 + j, nlink: 1, size: 30 });
    }
    for j in 1..=7u64 {
        v.push(Node { name: format!("pipe{j}"), kind: Kind::Pipe, depth, ino: base_ino + 20 + j, nlink: 1, size: 0 });
    }
    v
}

fn tree() -> Vec<ReadDir> {
    let mut dirs = Vec::new();
    let tops: Vec<Node> = (1..=3u64).map(|i| dir_node(format!("dir{i}"), 1, i)).collect();
    dirs.push(ReadDir { path: ROOT.to_string(), children: tops });
    for i in 1..=3u64 {
        let mut path = format!("{ROOT}/dir{i}");
        dirs.push(ReadDir { path: path.clone(), children: vec![dir_node(format!("dir{i}_1"), 2, 10 * i)] });
        for d in 1..=3u64 {
            path = format!("{path}/dir{i}_{d}");
            let depth = 1 + d as usize;
            let mut children = level_entries(depth + 1, 1000 * i + 100 * d);
            if d < 3 {
                children.push(dir_node(format!("dir{i}_{}", d + 1), depth + 1, 10 * i + d));
            }
            dirs.push(ReadDir { path: path.clone(), children });
        }
    }
    dirs
}

fn visible(n: &Node, skip_hidden: bool) -> bool {
    !(skip_hidden && n.name.starts_with('.'))
}

fn stat(n: &Node, extended: bool) -> EntryStat {
    let mode: u32 = match n.kind {
        Kind::Dir => 0o040755,
        Kind::File => 0o100644,
        Kind::Symlink => 0o120777,
        Kind::Pipe => 0o010644,
    };
    EntryStat {
        depth: n.depth,
        is_dir: n.kind == Kind::Dir,
        is_file: n.kind == Kind::File,
        is_symlink: n.kind == Kind::Symlink,
        metadata: Some(EntryMetadata { size: n.size, created: None, modified: None, accessed: None }),
        metadata_ext: if extended {
            Some(EntryMetadataExt {
                st_mode: mode,
                st_ino: n.ino,
                st_dev: 1,
                st_nlink: n.nlink,
                st_blksize: 4096,
                st_blocks: 8,
                st_uid: 1000,
                st_gid: 1000,
                st_rdev: 0,
            })
        } else {
            None
        },
    }
}

fn count_tree(skip_hidden: bool, extended: bool) -> scandir::Statistics {
    let mut state = CountState::new();
    let root = dir_node(String::new(), 0, 0);
    assert!(!state.count_entry(&stat(&root, extended), usize::MAX));
    for d in tree() {
        for n in d.children.iter().filter(|n| visible(n, skip_hidden)) {
            let e = stat(n, extended);
            assert!(state.fits(&e));
            assert!(!state.count_entry(&e, usize::MAX));
        }
    }
    state.take_snapshot()
}

#[test]
fn count_generated_tree() {
    let count = count_tree(false, false);
    assert!(count.errors.is_empty());
    assert_eq!(0, count.devices);
    assert_eq!(81, count.files);
    assert_eq!(12, count.dirs);
    assert_eq!(54, count.slinks);
    assert_eq!(0, count.pipes);
    assert_eq!(0, count.hlinks);
}

#[test]
fn count_generated_tree_skip_hidden() {
    let count = count_tree(true, false);
    assert!(count.errors.is_empty());
    assert_eq!(0, count.devices);
    assert_eq!(63, count.files);
    assert_eq!(12, count.dirs);
    assert_eq!(54, count.slinks);
    assert_eq!(0, count.pipes);
    assert_eq!(0, count.hlinks);
}

#[test]
fn count_generated_tree_extended() {
    let count = count_tree(false, true);
    assert!(count.errors.is_empty());
    assert_eq!(0, count.devices);
    assert_eq!(36, count.files);
    assert_eq!(12, count.dirs);
    assert_eq!(54, count.slinks);
    assert_eq!(63, count.pipes);
    assert_eq!(45, count.hlinks);
}

#[test]
fn walk_generated_tree() {
    let rpl = get_root_path_len(ROOT);
    let mut delivered = Vec::new();
    for d in tree() {
        let children: Vec<Result<TocChild, String>> = d
            .children
            .iter()
            .filter(|n| visible(n, true))
            .map(|n| {
                Ok(TocChild {
                    is_dir: n.kind == Kind::Dir,
                    is_file: n.kind == Kind::File,
                    is_symlink: n.kind == Kind::Symlink,
                    file_name: n.name.clone(),
                })
            })
            .collect();
        if let Some(entry) = dir_toc(&d.path, rpl, &children) {
            delivered.push(entry);
        }
    }
    let mut state = WalkState::new(Some(true));
    let toc = state.collect(delivered);
    assert_eq!(63, toc.files.len());
    assert_eq!(12, toc.dirs.len());
    assert_eq!(54, toc.symlinks.len());
    assert_eq!(63, toc.other.len());
    assert_eq!(0, toc.errors.len());
    assert!(toc.dirs.contains(&"dir1/dir1_1/dir1_2".to_string()));
    assert!(!state.has_errors());
}

fn scan_tree(skip_hidden: bool, return_type: ReturnType) -> scandir::ScandirResults {
    let rpl = get_root_path_len(ROOT);
    let extended = return_type == ReturnType::Ext;
    let mut reports = Vec::new();
    for d in tree() {
        for n in d.children.iter().filter(|n| visible(n, skip_hidden)) {
            let walked = WalkedEntry {
                stat: stat(n, extended),
                parent_path: d.path.clone(),
                file_name: Ok(n.name.clone()),
            };
            let (is_file, entry) = create_entry(rpl, &return_type, &walked);
            assert_eq!(is_file, n.kind == Kind::File);
            assert!(matches!(entry.entry, Stats::ScandirResult(_)));
            reports.push(entry);
        }
    }
    let mut state = ScandirState::new(Some(true));
    state.collect(reports)
}

#[test]
fn scandir_generated_tree() {
    let entries = scan_tree(false, ReturnType::Base);
    assert_eq!(210, entries.results.len());
    assert_eq!(0, entries.errors.len());
    match entries.results.first().unwrap() {
        ScandirResult::DirEntry(d) => {
            assert_eq!("dir1", &d.path);
            assert!(d.is_dir);
            assert_eq!(4096, d.st_size);
        }
        _ => panic!("Wrong type"),
    }
}

#[test]
fn scandir_generated_tree_skip_hidden() {
    let entries = scan_tree(true, ReturnType::Base);
    assert_eq!(192, entries.results.len());
    assert_eq!(0, entries.errors.len());
    match entries.results.first().unwrap() {
        ScandirResult::DirEntry(d) => {
            assert!(vec!["dir1", "dir2", "dir3"].contains(&d.path.as_str()));
            assert!(d.is_dir);
            assert_eq!(4096, d.st_size);
        }
        _ => panic!("Wrong type"),
    }
}

#[test]
fn scandir_generated_tree_extended() {
    let entries = scan_tree(false, ReturnType::Ext);
    assert_eq!(210, entries.results.len());
    assert_eq!(0, entries.errors.len());
    match entries.results.first().unwrap() {
        ScandirResult::DirEntryExt(d) => {
            assert!(vec!["dir1", "dir2", "dir3"].contains(&d.path.as_str()));
            assert!(d.is_dir);
            assert_eq!(4096, d.st_size);
            assert_eq!(4096, d.st_blksize);
        }
        _ => panic!("Wrong type"),
    }
    let deepest = entries.results.iter().filter(|r| r.path().starts_with("dir3/dir3_1/dir3_2/dir3_3/")).count();
    assert_eq!(22, deepest);
}

#[test]
fn basic_and_extended_counts_agree() {
    let a = count_tree(false, false);
    let b = count_tree(false, true);
    assert_eq!(a.files, b.files + b.hlinks);
    assert_eq!(a.hlinks, 0);
    assert_eq!((a.dirs, a.slinks, a.size, a.usage), (b.dirs, b.slinks, b.size, b.usage));
}

#[test]
fn snapshots_grow_and_usage_covers_size() {
    let mut state = CountState::new();
    let mut last = state.take_snapshot();
    for d in tree() {
        for n in d.children.iter() {
            assert!(!state.count_entry(&stat(n, true), usize::MAX));
            let now = state.take_snapshot();
            assert!(last.dirs <= now.dirs && last.files <= now.files && last.slinks <= now.slinks);
            assert!(last.hlinks <= now.hlinks && last.pipes <= now.pipes);
            assert!(last.size <= now.size && last.usage <= now.usage);
            assert!(now.size <= now.usage && now.usage % 4096 == 0);
            last = now;
        }
    }
}

#[test]
fn file_limit_keeps_the_generated_tree_count() {
    let mut state = CountState::new();
    let mut stopped = false;
    'walk: for d in tree() {
        for n in d.children.iter() {
            if state.count_entry(&stat(n, false), 10) {
                stopped = true;
                break 'walk;
            }
        }
    }
    assert!(stopped);
    assert_eq!(state.statistics().files, 10);
}
