use scandir::cabi::{map_return_type, to_bool};
use scandir::path::{ends_with_separator, get_root_path_len, path_join, starts_with_separator, str_suffix_from};
use scandir::ReturnType;

#[test]
fn to_bool_reads_any_nonzero_as_true() {
    assert!(!to_bool(0));
    assert!(to_bool(1));
    assert!(to_bool(255));
}

#[test]
fn map_return_type_reads_codes() {
    assert_eq!(map_return_type(0), Ok(ReturnType::Base));
    assert_eq!(map_return_type(1), Ok(ReturnType::Ext));
    assert_eq!(
        map_return_type(2),
        Err("Invalid return_type value. Expected 0 or 1.".to_string())
    );
    assert!(map_return_type(u32::MAX).is_err());
}

#[test]
fn path_join_inserts_one_separator() {
    assert_eq!(path_join("/usr", "lib"), "/usr/lib");
    assert_eq!(path_join("/usr/", "lib"), "/usr/lib");
    assert_eq!(path_join("", "lib"), "lib");
    assert_eq!(path_join("/usr", ""), "/usr/");
    assert_eq!(path_join("dir", "a b"), "dir/a b");
}

#[test]
fn path_join_absolute_name_replaces_base() {
    assert_eq!(path_join("/usr", "/etc"), "/etc");
    assert_eq!(path_join("", "/etc"), "/etc");
}

#[test]
fn path_join_matches_pathbuf() {
    for (base, name) in [("/a", "b"), ("/a/", "b"), ("", "b"), ("/a", "/b"), ("/ä", "ö"), ("/", "x")] {
        let expected = std::path::PathBuf::from(base).join(name);
        assert_eq!(path_join(base, name), expected.to_str().unwrap());
    }
}

#[test]
fn separators_at_the_ends() {
    assert!(starts_with_separator("/x"));
    assert!(!starts_with_separator("x/"));
    assert!(!starts_with_separator(""));
    assert!(!starts_with_separator("é/"));
    assert!(ends_with_separator("x/"));
    assert!(!ends_with_separator("/x"));
    assert!(!ends_with_separator(""));
    assert!(!ends_with_separator("/é"));
}

#[test]
fn suffix_from_byte_offset() {
    assert_eq!(str_suffix_from("/root/sub", 6), Some("sub"));
    assert_eq!(str_suffix_from("/root", 5), Some(""));
    assert_eq!(str_suffix_from("/root", 6), None);
    // byte 2 falls inside the two-byte `é`
    assert_eq!(str_suffix_from("aé", 2), None);
    assert_eq!(str_suffix_from("aéb", 3), Some("b"));
    assert_eq!(str_suffix_from("abc", 0), Some("abc"));
}

#[test]
fn root_path_len_counts_bytes_and_separator() {
    assert_eq!(get_root_path_len("/root"), 6);
    assert_eq!(get_root_path_len("/é"), 4);
    assert_eq!(get_root_path_len(""), 1);
}

#[test]
fn key_below_root_is_name() {
    let root = "/tmp/ré";
    let full = path_join(root, "child");
    assert_eq!(str_suffix_from(&full, get_root_path_len(root)), Some("child"));
}
