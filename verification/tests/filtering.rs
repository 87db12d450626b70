use b2_backup::exclude::{
    exists_and_not_excluded, find_exclude, is_descendant_or_equal, split_components,
};
use b2_backup::parse::ParseError;
use b2_backup::records::list_dir;
use b2_backup::walk::{join_path, walk_dir};

#[test]
fn components_drop_empty_runs() {
    let c = split_components(&b"/a//b/".to_vec());
    assert_eq!(c, vec![b"a".to_vec(), b"b".to_vec()]);
    assert!(split_components(&b"/".to_vec()).is_empty());
    assert!(split_components(&b"".to_vec()).is_empty());
}

#[test]
fn descendant_test_is_component_wise() {
    assert!(is_descendant_or_equal(&b"/a/b".to_vec(), &b"/a".to_vec()));
    assert!(is_descendant_or_equal(&b"/a".to_vec(), &b"/a".to_vec()));
    assert!(is_descendant_or_equal(&b"/a/b/c".to_vec(), &b"/a/b".to_vec()));
    // a literal string prefix is not enough
    assert!(!is_descendant_or_equal(&b"/ab".to_vec(), &b"/a".to_vec()));
    assert!(!is_descendant_or_equal(&b"/a".to_vec(), &b"/a/b".to_vec()));
    // trailing slashes change nothing
    assert!(is_descendant_or_equal(&b"/a/b".to_vec(), &b"/a/".to_vec()));
}

#[test]
fn no_admitted_path_lies_under_an_exclude_root() {
    let excludes = vec![b"/tmp".to_vec(), b"/var/cache".to_vec()];
    for p in [
        b"/tmp".to_vec(),
        b"/tmp/x".to_vec(),
        b"/var/cache/deep/file".to_vec(),
    ] {
        assert!(find_exclude(&p, &excludes).is_some());
    }
    for p in [b"/tmpx".to_vec(), b"/var".to_vec(), b"/home/u".to_vec()] {
        let r = find_exclude(&p, &excludes);
        assert!(r.is_none());
        for e in &excludes {
            assert!(!is_descendant_or_equal(&p, e));
        }
    }
}

#[test]
fn missing_canonical_path_counts_as_gone() {
    let excludes = vec![b"/tmp".to_vec()];
    assert!(!exists_and_not_excluded(&None, &excludes));
    assert!(!exists_and_not_excluded(&Some(b"/tmp/f".to_vec()), &excludes));
    assert!(exists_and_not_excluded(&Some(b"/home/f".to_vec()), &excludes));
}

#[test]
fn listing_drops_unknown_type_codes() {
    let output = b"<item restype=\"D\" fname=\"docs\"/>\n<item restype=\"F\" fname=\"a.txt\"/>\n<item restype=\"X\" fname=\"odd\"/>\n".to_vec();
    let (entries, skipped) = list_dir(&output).unwrap();
    assert_eq!(entries.len(), 2);
    assert_eq!(entries[0].name, b"docs".to_vec());
    assert!(entries[0].is_dir);
    assert_eq!(entries[1].name, b"a.txt".to_vec());
    assert!(!entries[1].is_dir);
    assert_eq!(skipped, vec![b'X']);
}

#[test]
fn listing_without_resource_fields_lacks_a_field() {
    let missing = b"<item restype=\"D\"/>\n".to_vec();
    assert_eq!(list_dir(&missing), Err(ParseError::MissingField));
    let long_code = b"<item restype=\"DIR\" fname=\"docs\"/>\n".to_vec();
    assert_eq!(list_dir(&long_code), Err(ParseError::Malformed));
}

#[test]
fn walker_stack_is_last_in_first_out() {
    let mut w = walk_dir(b"/".to_vec());
    assert_eq!(w.pending(), 1);
    let root = w.pop_dir().unwrap();
    assert_eq!(root, b"/".to_vec());
    w.push_dir(b"/a".to_vec());
    w.push_dir(b"/b".to_vec());
    assert_eq!(w.pop_dir().unwrap(), b"/b".to_vec());
    assert_eq!(w.pop_dir().unwrap(), b"/a".to_vec());
    assert!(w.pop_dir().is_none());
}

#[test]
fn joined_paths_use_single_slashes() {
    assert_eq!(join_path(&b"/a".to_vec(), &b"b".to_vec()), b"/a/b".to_vec());
    assert_eq!(join_path(&b"/".to_vec(), &b"b".to_vec()), b"/b".to_vec());
    assert_eq!(join_path(&b"/a".to_vec(), &b"/abs".to_vec()), b"/abs".to_vec());
}
