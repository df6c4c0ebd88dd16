use scandir::filter::{filter_applies, filter_file, retain_by_mask, GlobPattern};
use scandir::{create_filter, filter_children, filter_dir, filter_direntry, ChildInfo, Options, PatternList};

fn options_with(
    dir_include: Option<Vec<&str>>,
    dir_exclude: Option<Vec<&str>>,
    file_include: Option<Vec<&str>>,
    file_exclude: Option<Vec<&str>>,
) -> Options {
    let conv = |v: Option<Vec<&str>>| v.map(|l| l.into_iter().map(|s| s.to_string()).collect());
    let mut o = Options::new("/root".to_string(), false);
    o.dir_include = conv(dir_include);
    o.dir_exclude = conv(dir_exclude);
    o.file_include = conv(file_include);
    o.file_exclude = conv(file_exclude);
    o
}

fn patterns(list: &[&str]) -> Vec<GlobPattern> {
    list.iter().map(|p| GlobPattern::new(p).unwrap()).collect()
}

#[test]
fn no_patterns_no_filter() {
    let o = options_with(None, None, None, None);
    assert!(create_filter(&o).unwrap().is_none());
    let o = options_with(Some(vec![]), None, Some(vec![]), None);
    assert!(create_filter(&o).unwrap().is_none());
}

#[test]
fn filter_keeps_pattern_texts() {
    let o = options_with(Some(vec!["dir*"]), None, None, Some(vec!["*.o", "*.a"]));
    let f = create_filter(&o).unwrap().unwrap();
    assert_eq!(f.dir_include.len(), 1);
    assert_eq!(f.dir_include[0].as_str(), "dir*");
    assert!(f.dir_exclude.is_empty());
    assert_eq!(f.file_exclude.iter().map(|p| p.as_str()).collect::<Vec<_>>(), vec!["*.o", "*.a"]);
    assert!(!f.case_sensitive);
}

#[test]
fn invalid_pattern_reports_its_list_and_message() {
    let o = options_with(None, Some(vec!["ok", "a**b"]), None, None);
    let e = create_filter(&o).err().unwrap();
    assert_eq!(e.list, PatternList::DirExclude);
    assert_eq!(
        e.message,
        "Pattern syntax error near position 0: recursive wildcards must form a single path component"
    );
    let o = options_with(None, None, None, Some(vec!["[abc"]));
    let e = create_filter(&o).err().unwrap();
    assert_eq!(e.list, PatternList::FileExclude);
    assert_eq!(e.message, "Pattern syntax error near position 0: invalid range pattern");
}

#[test]
fn first_failing_list_wins() {
    let o = options_with(Some(vec!["***"]), Some(vec!["[x"]), None, None);
    let e = create_filter(&o).err().unwrap();
    assert_eq!(e.list, PatternList::DirInclude);
    assert_eq!(e.message, "Pattern syntax error near position 2: wildcards are either regular `*` or recursive `**`");
}

#[test]
fn direntry_empty_list_or_key_gives_default() {
    let none: Vec<GlobPattern> = Vec::new();
    assert!(filter_direntry("x", &none, true, true));
    assert!(!filter_direntry("x", &none, true, false));
    let some = patterns(&["*"]);
    assert!(filter_direntry("", &some, true, true));
    assert!(!filter_direntry("", &some, true, false));
}

#[test]
fn direntry_matches_glob() {
    let p = patterns(&["*.txt", "data?"]);
    assert!(filter_direntry("a.txt", &p, true, false));
    assert!(filter_direntry("data1", &p, true, false));
    assert!(!filter_direntry("a.rs", &p, true, false));
    assert!(!filter_direntry("data12", &p, true, false));
}

#[test]
fn direntry_case_switch() {
    let p = patterns(&["*.TXT"]);
    assert!(filter_direntry("a.txt", &p, false, false));
    assert!(!filter_direntry("a.txt", &p, true, false));
    assert!(filter_direntry("a.TXT", &p, true, false));
}

#[test]
fn double_star_takes_in_the_directory_itself() {
    let p = patterns(&["foo/**"]);
    assert!(filter_direntry("foo", &p, true, false));
    assert!(filter_direntry("foo/bar", &p, true, false));
    assert!(filter_direntry("foo/", &p, true, false));
    assert!(!filter_direntry("food", &p, true, false));
    // without the trailing `**` no separator is added
    let q = patterns(&["foo/*"]);
    assert!(!filter_direntry("foo", &q, true, false));
}

#[test]
fn dir_key_is_relative_to_root() {
    let o = options_with(Some(vec!["sub/dir*"]), Some(vec!["sub/dir2"]), None, None);
    let f = create_filter(&o).unwrap().unwrap();
    let root_len = "/root".len() + 1;
    assert!(filter_dir(root_len, "/root/sub", "dir1", &f));
    assert!(!filter_dir(root_len, "/root/sub", "dir2", &f));
    assert!(!filter_dir(root_len, "/root/other", "dir1", &f));
}

#[test]
fn dir_exclude_wins_over_include() {
    let o = options_with(Some(vec!["a"]), Some(vec!["a"]), None, None);
    let f = create_filter(&o).unwrap().unwrap();
    assert!(!filter_dir(6, "/root", "a", &f));
}

#[test]
fn file_filter_include_and_exclude() {
    let o = options_with(None, None, Some(vec!["*.rs", "*.md"]), Some(vec!["test*"]));
    let f = create_filter(&o).unwrap().unwrap();
    assert!(filter_file("lib.rs", &f));
    assert!(filter_file("README.md", &f));
    assert!(!filter_file("test.rs", &f));
    assert!(!filter_file("lib.c", &f));
}

#[test]
fn children_filtered_in_order() {
    let o = options_with(None, Some(vec!["skip"]), None, Some(vec!["*.tmp"]));
    let f = Some(create_filter(&o).unwrap().unwrap());
    let info = |is_dir: bool, name: &str| {
        Some(ChildInfo { is_dir, parent_path: "/root".to_string(), file_name: name.to_string() })
    };
    let mut children = vec![10, 11, 12, 13, 14, 15];
    let infos = vec![
        info(true, "keep"),
        info(true, "skip"),
        info(false, "a.tmp"),
        None,
        info(false, "a.txt"),
        info(false, "skip"),
    ];
    filter_children(&mut children, &infos, &f, 6);
    assert_eq!(children, vec![10, 14, 15]);
}

#[test]
fn children_untouched_without_filter() {
    let mut children = vec!["x", "y"];
    let infos = vec![None, None];
    filter_children(&mut children, &infos, &None, 6);
    assert_eq!(children, vec!["x", "y"]);
}

#[test]
fn retain_by_mask_keeps_flagged() {
    let mut v = vec![1, 2, 3, 4, 5];
    retain_by_mask(&mut v, &vec![true, false, false, true, true]);
    assert_eq!(v, vec![1, 4, 5]);
    let mut e: Vec<u8> = Vec::new();
    retain_by_mask(&mut e, &Vec::new());
    assert!(e.is_empty());
}

#[test]
fn filter_applies_below_root_only() {
    assert!(filter_applies(Some("/root"), 6));
    assert!(filter_applies(Some("/root/a"), 6));
    assert!(!filter_applies(Some("/roo"), 6));
    assert!(!filter_applies(None, 6));
}

#[test]
fn file_include_error_names_its_list() {
    let o = options_with(None, None, Some(vec!["*.rs", "a/**b"]), None);
    let e = create_filter(&o).err().unwrap();
    assert_eq!(e.list, PatternList::FileInclude);
    assert_eq!(
        e.message,
        "Pattern syntax error near position 4: recursive wildcards must form a single path component"
    );
}

#[test]
fn lists_without_patterns_let_everything_through() {
    // only file patterns: every directory stays
    let o = options_with(None, None, Some(vec!["*.rs"]), None);
    let f = create_filter(&o).unwrap().unwrap();
    assert!(filter_dir(6, "/root", "anything", &f));
    assert!(!filter_file("x.c", &f));
    // only directory patterns: every file stays
    let o = options_with(Some(vec!["src"]), None, None, None);
    let f = create_filter(&o).unwrap().unwrap();
    assert!(filter_file("x.c", &f));
    assert!(!filter_dir(6, "/root", "other", &f));
    assert!(filter_dir(6, "/root", "src", &f));
}

#[test]
fn case_sensitive_filter() {
    let mut o = options_with(None, None, Some(vec!["*.RS"]), None);
    o.case_sensitive = true;
    let f = create_filter(&o).unwrap().unwrap();
    assert!(f.case_sensitive);
    assert!(!filter_file("lib.rs", &f));
    assert!(filter_file("lib.RS", &f));
}
