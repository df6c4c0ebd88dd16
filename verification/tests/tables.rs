use scandir::walk::{dir_toc, flatten_errors, single_entry_toc, update_toc};
use scandir::{
    walk_result, FileLimit, Options, ReturnType, Toc, TocChild, WalkResult, WalkState, RETURN_TYPE_EXT,
    RETURN_TYPE_WALK,
};

fn child(kind: char, name: &str) -> TocChild {
    TocChild { is_dir: kind == 'd', is_file: kind == 'f', is_symlink: kind == 'l', file_name: name.to_string() }
}

fn toc(dirs: &[&str], files: &[&str], errors: &[&str]) -> Toc {
    let v = |l: &[&str]| l.iter().map(|s| s.to_string()).collect::<Vec<_>>();
    Toc { dirs: v(dirs), files: v(files), symlinks: vec![], other: vec![], errors: v(errors) }
}

#[test]
fn update_toc_files_by_kind() {
    let mut t = Toc::new();
    update_toc(&child('d', "d1"), &mut t);
    update_toc(&child('f', "f1"), &mut t);
    update_toc(&child('l', "l1"), &mut t);
    update_toc(&child('o', "p1"), &mut t);
    // a symlink to a directory files as a symlink
    update_toc(&TocChild { is_dir: true, is_file: false, is_symlink: true, file_name: "l2".into() }, &mut t);
    assert_eq!(t.dirs(), vec!["d1"]);
    assert_eq!(t.files(), vec!["f1"]);
    assert_eq!(t.symlinks(), vec!["l1", "l2"]);
    assert_eq!(t.other(), vec!["p1"]);
    assert!(t.errors().is_empty());
    assert!(!t.is_empty());
    t.clear();
    assert!(t.is_empty());
}

#[test]
fn dir_toc_reports_relative_key() {
    let children = vec![Ok(child('f', "a")), Err("denied".to_string()), Ok(child('d', "b"))];
    let (key, t) = dir_toc("/root/sub", 6, &children).unwrap();
    assert_eq!(key, "sub");
    assert_eq!(t.files, vec!["a"]);
    assert_eq!(t.dirs, vec!["b"]);
    assert_eq!(t.errors, vec!["denied"]);
    let (key, _) = dir_toc("/root", 6, &children).unwrap();
    assert_eq!(key, "");
    assert!(dir_toc("/root", 6, &vec![]).is_none());
    let (_, t) = dir_toc("/root/x", 6, &vec![Err("e1".to_string())]).unwrap();
    assert_eq!(t.errors, vec!["e1"]);
    assert!(t.files.is_empty());
}

#[test]
fn single_root_toc() {
    let t = single_entry_toc(&child('f', "only"));
    assert_eq!(t.files, vec!["only"]);
    assert!(t.dirs.is_empty());
}

#[test]
fn toc_extend_joins_root() {
    let mut t = toc(&["x"], &[], &[]);
    t.extend("sub", &toc(&["d"], &["f1", "f2"], &["e"]));
    t.extend("", &toc(&[], &["top"], &[]));
    assert_eq!(t.dirs, vec!["x", "sub/d"]);
    assert_eq!(t.files, vec!["sub/f1", "sub/f2", "top"]);
    assert_eq!(t.errors, vec!["sub/e"]);
}

#[test]
fn file_limit_counts_non_directories() {
    let mut l = FileLimit::new(2);
    assert!(!l.note(false));
    assert!(!l.note(true));
    assert!(!l.note(false));
    assert!(l.note(false));
    assert_eq!(l.file_cnt, 2);
    assert!(!l.note(true));
    assert_eq!(l.file_cnt, 2);
    let mut unlimited = FileLimit::new(0);
    for _ in 0..10 {
        assert!(!unlimited.note(false));
    }
}

#[test]
fn walk_state_stores_results() {
    let mut w = WalkState::new(None);
    let first = w.results(true, vec![("".to_string(), toc(&["a"], &["f"], &[]))]);
    assert_eq!(first.len(), 1);
    let all = w.results(false, vec![("a".to_string(), toc(&[], &["g"], &["oops"]))]);
    assert_eq!(all.len(), 2);
    assert_eq!(all[1].0, "a");
    assert!(w.has_errors());
    assert_eq!(w.errors_cnt(), 1);
    assert!(w.has_results(false, false));
    assert!(!w.has_results(true, false));
    assert!(w.has_results(true, true));
    assert_eq!(w.results_cnt(false, Some(3)), 5);
    assert_eq!(w.results_cnt(true, Some(3)), 3);
    assert_eq!(w.results_cnt(true, None), 2);
    let s = w.statistics();
    assert_eq!((s.dirs, s.files, s.slinks, s.devices), (1, 2, 0, 0));
    assert_eq!(s.errors, vec!["oops".to_string()]);
    let errs = w.errors(false, vec![]);
    assert_eq!(errs, vec![("a".to_string(), "oops".to_string())]);
    w.clear();
    assert!(!w.has_errors());
    assert!(!w.has_results(false, false));
}

#[test]
fn walk_state_without_storing() {
    let mut w = WalkState::new(Some(false));
    let r = w.results(false, vec![("".to_string(), toc(&["a"], &[], &[]))]);
    assert_eq!(r.len(), 1);
    assert_eq!(w.results_cnt(false, None), 0);
}

#[test]
fn walk_collect_joins_tocs() {
    let mut w = WalkState::new(Some(true));
    let t = w.collect(vec![
        ("".to_string(), toc(&["dir1"], &["top.txt"], &[])),
        ("dir1".to_string(), toc(&[], &["inner.txt"], &[])),
    ]);
    assert_eq!(t.dirs, vec!["dir1"]);
    assert_eq!(t.files, vec!["top.txt", "dir1/inner.txt"]);
}

#[test]
fn flatten_errors_pairs_with_directory() {
    let v = vec![
        ("a".to_string(), toc(&[], &[], &["e1", "e2"])),
        ("b".to_string(), toc(&[], &[], &["e3"])),
    ];
    assert_eq!(
        flatten_errors(&v),
        vec![
            ("a".to_string(), "e1".to_string()),
            ("a".to_string(), "e2".to_string()),
            ("b".to_string(), "e3".to_string())
        ]
    );
}

#[test]
fn option_builders() {
    let mut o = Options::new("/r".to_string(), true);
    assert!(o.skip_hidden);
    assert_eq!(o.max_depth, usize::MAX);
    o.set_max_depth(3);
    assert_eq!(o.max_depth, 3);
    o.set_max_depth(0);
    assert_eq!(o.max_depth, usize::MAX);
    o.set_max_file_cnt(0);
    assert_eq!(o.max_file_cnt, usize::MAX);
    o.set_max_file_cnt(7);
    assert_eq!(o.max_file_cnt, 7);
    o.set_extended(true);
    assert_eq!(o.return_type, ReturnType::Ext);
    o.set_extended(false);
    assert_eq!(o.return_type, ReturnType::Base);
}

#[test]
fn walk_kept_results_are_all_deliveries() {
    let first = vec![("".to_string(), toc(&["a"], &["f"], &[]))];
    let second = vec![("a".to_string(), toc(&[], &["g"], &["denied"]))];
    let mut in_parts = WalkState::new(None);
    in_parts.results(true, first.clone());
    assert!(!in_parts.has_errors());
    let parts = in_parts.results(false, second.clone());
    let mut at_once = WalkState::new(None);
    let mut both = first.clone();
    both.extend(second.clone());
    let once = at_once.results(false, both);
    assert_eq!(parts, once);
    assert!(in_parts.has_errors());
    assert_eq!(in_parts.has_errors(), at_once.has_errors());
}

#[test]
fn walk_error_flag_list_and_count_agree() {
    let mut w = WalkState::new(None);
    w.results(true, vec![("".to_string(), toc(&["a"], &[], &[]))]);
    assert!(!w.has_errors());
    assert!(w.statistics().errors.is_empty());
    assert_eq!(w.errors_cnt(), 0);
    w.results(true, vec![("a".to_string(), toc(&[], &[], &["e1", "e2"]))]);
    assert!(w.has_errors());
    assert_eq!(w.statistics().errors.len(), 2);
    assert_eq!(w.errors_cnt(), 2);
    assert_eq!(w.errors(false, vec![]).len(), 2);
}

#[test]
fn walk_has_results_agrees_with_count() {
    let w = WalkState::new(None);
    assert_eq!(w.has_results(false, false), w.results_cnt(false, Some(0)) > 0);
    assert_eq!(w.has_results(true, true), w.results_cnt(true, Some(2)) > 0);
    assert_eq!(w.has_results(true, false), w.results_cnt(true, Some(0)) > 0);
}

#[test]
fn defaults_are_empty() {
    assert!(Toc::default().is_empty());
    let s = scandir::Statistics::default();
    assert_eq!((s.dirs, s.files, s.size, s.usage), (0, 0, 0, 0));
    assert!(s.errors.is_empty());
    assert!(scandir::ScandirResults::default().is_empty());
}

#[test]
fn walk_result_by_return_type() {
    match walk_result("/r/a".to_string(), toc(&["d"], &["f"], &[]), RETURN_TYPE_WALK) {
        WalkResult::WalkEntry(e) => {
            assert_eq!(e.path, "/r/a");
            assert_eq!(e.toc.files, vec!["f"]);
        }
        _ => panic!("Wrong type"),
    }
    match walk_result("/r/b".to_string(), toc(&[], &[], &["e"]), RETURN_TYPE_EXT) {
        WalkResult::WalkEntryExt(e) => {
            assert_eq!(e.path, "/r/b");
            assert_eq!(e.toc.errors, vec!["e"]);
        }
        _ => panic!("Wrong type"),
    }
}

#[test]
fn each_child_filed_once_under_its_kind() {
    let children: Vec<Result<TocChild, String>> = vec![
        Ok(child('d', "a")),
        Ok(child('f', "b")),
        Err("denied".to_string()),
        Ok(child('l', "c")),
        Ok(child('o', "p")),
        Ok(child('f', "e")),
    ];
    let (key, t) = dir_toc("/r/x", 3, &children).unwrap();
    assert_eq!(key, "x");
    assert_eq!(t.dirs, vec!["a"]);
    assert_eq!(t.files, vec!["b", "e"]);
    assert_eq!(t.symlinks, vec!["c"]);
    assert_eq!(t.other, vec!["p"]);
    assert_eq!(t.errors, vec!["denied"]);
    assert_eq!(t.dirs.len() + t.files.len() + t.symlinks.len() + t.other.len() + t.errors.len(), children.len());
}

#[test]
fn admit_children_drops_files_beyond_the_limit() {
    let mut l = FileLimit::new(2);
    let mut children = vec!["d1", "f1", "err", "f2", "f3", "d2", "f4"];
    let kinds = vec![Some(true), Some(false), None, Some(false), Some(false), Some(true), Some(false)];
    assert!(l.admit_children(&mut children, &kinds));
    assert_eq!(children, vec!["d1", "f1", "err", "f2", "d2"]);
    assert_eq!(l.file_cnt, 2);
    let mut more = vec!["d3", "f5"];
    assert!(l.admit_children(&mut more, &vec![Some(true), Some(false)]));
    assert_eq!(more, vec!["d3"]);
    let mut unlimited = FileLimit::new(0);
    let mut all = vec![1, 2, 3];
    assert!(!unlimited.admit_children(&mut all, &vec![Some(false), Some(false), None]));
    assert_eq!(all, vec![1, 2, 3]);
    assert_eq!(unlimited.file_cnt, 2);
}
