use scandir::count::{copy_statistics, count_single_entry, file_usage, latest_statistics};
use scandir::{CountState, EntryMetadata, EntryMetadataExt, EntryStat, Statistics};

fn meta(size: u64) -> Option<EntryMetadata> {
    Some(EntryMetadata { size, created: None, modified: None, accessed: None })
}

fn ext(nlink: u64, ino: u64, rdev: u64, mode: u32) -> Option<EntryMetadataExt> {
    Some(EntryMetadataExt {
        st_mode: mode,
        st_ino: ino,
        st_dev: 1,
        st_nlink: nlink,
        st_blksize: 4096,
        st_blocks: 0,
        st_uid: 0,
        st_gid: 0,
        st_rdev: rdev,
    })
}

fn entry(depth: usize, kind: char, metadata: Option<EntryMetadata>, metadata_ext: Option<EntryMetadataExt>) -> EntryStat {
    EntryStat {
        depth,
        is_dir: kind == 'd',
        is_file: kind == 'f',
        is_symlink: kind == 'l',
        metadata,
        metadata_ext,
    }
}

#[test]
fn file_usage_rounds_up_to_blocks() {
    assert_eq!(file_usage(0), 0);
    assert_eq!(file_usage(1), 4096);
    assert_eq!(file_usage(4095), 4096);
    assert_eq!(file_usage(4096), 4096);
    assert_eq!(file_usage(4097), 8192);
    assert_eq!(file_usage(1_000_000), 1_003_520);
    // the rounded size wraps around at the 64-bit limit
    assert_eq!(file_usage(u64::MAX), 0);
    assert_eq!(file_usage(u64::MAX - 4095), u64::MAX - 4095);
}

#[test]
fn counting_a_small_tree() {
    let mut c = CountState::new();
    let max = usize::MAX;
    assert!(!c.count_entry(&entry(0, 'd', meta(4096), None), max));
    assert!(!c.count_entry(&entry(1, 'd', meta(4096), None), max));
    assert!(!c.count_entry(&entry(2, 'f', meta(10), None), max));
    assert!(!c.count_entry(&entry(2, 'f', meta(5000), None), max));
    assert!(!c.count_entry(&entry(1, 'l', None, None), max));
    let s = c.statistics();
    assert_eq!(s.dirs, 1);
    assert_eq!(s.files, 2);
    assert_eq!(s.slinks, 1);
    assert_eq!(s.hlinks, 0);
    assert_eq!(s.size, 4096 + 10 + 5000 + 4096);
    assert_eq!(s.usage, 4096 + 4096 + 8192 + 4096);
}

#[test]
fn hardlinks_counted_once() {
    let mut c = CountState::new();
    let max = usize::MAX;
    c.count_entry(&entry(1, 'f', meta(1), ext(2, 77, 0, 0o100644)), max);
    c.count_entry(&entry(1, 'f', meta(1), ext(2, 77, 0, 0o100644)), max);
    c.count_entry(&entry(1, 'f', meta(1), ext(3, 78, 0, 0o100644)), max);
    c.count_entry(&entry(1, 'f', meta(1), ext(1, 78, 0, 0o100644)), max);
    let s = c.statistics();
    assert_eq!(s.files, 3);
    assert_eq!(s.hlinks, 1);
    assert_eq!(s.size, 4);
    assert_eq!(s.usage, 4 * 4096);
}

#[test]
fn devices_and_pipes() {
    let mut c = CountState::new();
    let max = usize::MAX;
    c.count_entry(&entry(1, 'o', None, ext(1, 1, 5, 0o20644)), max);
    c.count_entry(&entry(1, 'o', None, ext(1, 2, 0, 0o10644)), max);
    c.count_entry(&entry(1, 'o', None, ext(1, 3, 0, 0o140644)), max);
    c.count_entry(&entry(1, 'o', None, None), max);
    let s = c.statistics();
    assert_eq!(s.devices, 1);
    assert_eq!(s.pipes, 1);
    assert_eq!(s.size, 4 * 4096);
    assert_eq!(s.usage, 4 * 4096);
}

#[test]
fn file_limit_stops_the_count() {
    let mut c = CountState::new();
    assert!(!c.count_entry(&entry(1, 'f', None, None), 2));
    assert!(!c.count_entry(&entry(1, 'f', None, None), 2));
    assert!(!c.count_entry(&entry(1, 'd', None, None), 2));
    assert!(c.count_entry(&entry(1, 'f', None, None), 2));
    // the file beyond the limit is not counted
    assert_eq!(c.statistics().files, 2);
    assert_eq!(c.statistics().dirs, 1);
    // the default limit reads as negative and never stops
    let mut d = CountState::new();
    for _ in 0..5 {
        assert!(!d.count_entry(&entry(1, 'f', None, None), usize::MAX));
    }
    assert_eq!(d.statistics().files, 5);
}

#[test]
fn file_limit_never_passed() {
    for n in 1..5usize {
        let mut c = CountState::new();
        let mut stopped = false;
        for _ in 0..10 {
            if c.count_entry(&entry(1, 'f', meta(10), None), n) {
                stopped = true;
                break;
            }
        }
        assert!(stopped);
        assert_eq!(c.statistics().files as usize, n);
    }
}

#[test]
fn hardlink_of_a_counted_file_is_taken_at_the_limit() {
    let mut c = CountState::new();
    assert!(!c.count_entry(&entry(1, 'f', None, ext(2, 9, 0, 0o100644)), 1));
    // a second name for the same inode adds no file, so the limit allows it
    assert!(!c.count_entry(&entry(1, 'f', None, ext(2, 9, 0, 0o100644)), 1));
    assert!(c.count_entry(&entry(1, 'f', None, ext(1, 10, 0, 0o100644)), 1));
    assert_eq!((c.statistics().files, c.statistics().hlinks), (1, 1));
}

#[test]
fn errors_and_snapshots() {
    let mut c = CountState::new();
    c.count_entry(&entry(1, 'f', meta(3), None), usize::MAX);
    c.record_error("denied".to_string());
    assert!(!c.publish_due(0));
    assert!(c.publish_due(10));
    let snap = c.take_snapshot();
    assert_eq!(snap.files, 1);
    assert_eq!(snap.errors, vec!["denied".to_string()]);
    for _ in 0..1000 {
        c.count_entry(&entry(1, 'd', None, None), usize::MAX);
    }
    assert!(c.publish_due(0));
    let snap = c.take_snapshot();
    assert_eq!(snap.dirs, 1000);
    assert!(!c.publish_due(0));
}

#[test]
fn counting_a_single_root() {
    let s = count_single_entry(&entry(0, 'f', meta(5), None));
    assert_eq!((s.files, s.size, s.usage), (1, 5, 4096));
    let s = count_single_entry(&entry(0, 'l', meta(5), None));
    assert_eq!((s.slinks, s.files, s.size, s.usage), (1, 0, 4096, 4096));
    let s = count_single_entry(&entry(0, 'o', None, ext(1, 1, 0, 0o10000)));
    assert_eq!((s.pipes, s.devices, s.size), (1, 0, 4096));
    let s = count_single_entry(&entry(0, 'o', None, ext(1, 1, 9, 0o10000)));
    assert_eq!((s.pipes, s.devices), (0, 1));
}

#[test]
fn latest_statistics_takes_the_last() {
    let mut a = Statistics::new();
    a.dirs = 1;
    let mut b = Statistics::new();
    b.dirs = 2;
    let cur = Statistics::new();
    assert_eq!(latest_statistics(copy_statistics(&cur), vec![a, b]).dirs, 2);
    assert_eq!(latest_statistics(cur, vec![]).dirs, 0);
}

#[test]
fn statistics_clear_resets() {
    let mut s = Statistics::new();
    s.files = 3;
    s.usage = 9;
    s.errors.push("x".to_string());
    s.clear();
    assert_eq!(s, Statistics::new());
}

#[test]
fn snapshots_grow_with_errors_between_entries() {
    let mut c = CountState::new();
    let mut last = c.take_snapshot();
    let steps: Vec<Option<EntryStat>> = vec![
        Some(entry(1, 'd', None, None)),
        None,
        Some(entry(2, 'f', meta(5000), None)),
        None,
        Some(entry(2, 'l', None, None)),
        Some(entry(2, 'f', meta(1), None)),
    ];
    for (k, step) in steps.into_iter().enumerate() {
        match step {
            Some(e) => {
                assert!(c.fits(&e));
                assert!(!c.count_entry(&e, usize::MAX));
            }
            None => c.record_error(format!("error {k}")),
        }
        let now = c.take_snapshot();
        assert!(last.dirs <= now.dirs && last.files <= now.files && last.slinks <= now.slinks);
        assert!(last.size <= now.size && last.usage <= now.usage);
        assert_eq!(&now.errors[..last.errors.len()], &last.errors[..]);
        last = now;
    }
    assert_eq!(last.errors, vec!["error 1".to_string(), "error 3".to_string()]);
    assert_eq!((last.dirs, last.files, last.slinks), (1, 2, 1));
}
