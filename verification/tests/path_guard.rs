use hop::path_guard::validate_rel_path;
use hop::transfer::TransferError;

fn staging() -> String {
    "/tmp/stage".to_string()
}

#[test]
fn plain_relative_path_is_accepted() {
    let got = validate_rel_path(&staging(), "foo/bar.txt").unwrap();
    assert_eq!(got, "/tmp/stage/foo/bar.txt");
}

#[test]
fn parent_dir_is_rejected() {
    assert!(matches!(
        validate_rel_path(&staging(), "foo/../escape"),
        Err(TransferError::PathTraversal { .. })
    ));
}

#[test]
fn absolute_root_is_rejected() {
    assert!(matches!(
        validate_rel_path(&staging(), "/etc/passwd"),
        Err(TransferError::PathTraversal { .. })
    ));
}

#[test]
fn empty_rel_path_is_rejected() {
    assert!(matches!(validate_rel_path(&staging(), ""), Err(TransferError::PathTraversal { .. })));
}

#[test]
fn curdir_components_are_stripped() {
    let got = validate_rel_path(&staging(), "./foo/./bar").unwrap();
    assert_eq!(got, "/tmp/stage/foo/bar");
}

#[test]
fn only_curdir_components_are_rejected() {
    match validate_rel_path(&staging(), "./.") {
        Err(TransferError::PathTraversal { rel_path }) => assert_eq!(rel_path, "./."),
        other => panic!("expected PathTraversal, got {other:?}"),
    }
}

#[test]
fn repeated_and_trailing_separators_are_ignored() {
    assert_eq!(validate_rel_path("/s", "a//b/").unwrap(), "/s/a/b");
    assert_eq!(validate_rel_path("/s/", "a").unwrap(), "/s/a");
}

#[test]
fn drive_prefix_is_rejected() {
    for p in ["C:/x", "c:x", "Z:", "D:\\dir\\f"] {
        match validate_rel_path(&staging(), p) {
            Err(TransferError::PathTraversal { rel_path }) => assert_eq!(rel_path, p),
            other => panic!("expected PathTraversal for {p}, got {other:?}"),
        }
    }
}

#[test]
fn backslash_is_part_of_a_name() {
    assert_eq!(validate_rel_path("/s", "a\\b.txt").unwrap(), "/s/a\\b.txt");
    assert_eq!(validate_rel_path("/s", "..\\x").unwrap(), "/s/..\\x");
    assert_eq!(validate_rel_path("/s", "\\etc").unwrap(), "/s/\\etc");
    assert_eq!(validate_rel_path("/s", "1:x").unwrap(), "/s/1:x");
    assert!(matches!(
        validate_rel_path("/s", "a\\../../x"),
        Err(TransferError::PathTraversal { .. })
    ));
}
