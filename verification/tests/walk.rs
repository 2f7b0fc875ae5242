use hop::walk::{sort_names, ManifestWalker};

#[test]
fn names_sort_by_code_point() {
    let v = vec!["b".to_string(), "B".to_string(), "a.txt".to_string(), "a".to_string(), "é".to_string()];
    assert_eq!(sort_names(v), vec!["B", "a", "a.txt", "b", "é"]);
    assert!(sort_names(vec![]).is_empty());
}

#[test]
fn walk_is_depth_first_alphabetical() {
    // root/
    //   zeta.txt (4)
    //   docs/
    //     b.md (2)
    //     a.md (1)
    let mut w = ManifestWalker::new("/data/root");
    let root = w.next().unwrap();
    assert_eq!((root.abs.as_str(), root.rel.as_str()), ("/data/root", ""));
    w.visit_dir(root, vec!["zeta.txt".into(), "docs".into()]);

    let docs = w.next().unwrap();
    assert_eq!((docs.abs.as_str(), docs.rel.as_str()), ("/data/root/docs", "docs"));
    w.visit_dir(docs, vec!["b.md".into(), "a.md".into()]);

    let a = w.next().unwrap();
    assert_eq!(a.rel, "docs/a.md");
    w.visit_file(a, 1);
    let b = w.next().unwrap();
    assert_eq!(b.abs, "/data/root/docs/b.md");
    w.visit_file(b, 2);
    let z = w.next().unwrap();
    assert_eq!(z.rel, "zeta.txt");
    w.visit_file(z, 4);
    assert!(w.next().is_none());

    let (manifest, sources) = w.finish().expect("sizes fit");
    let rels: Vec<&str> = manifest.entries.iter().map(|e| e.rel_path.as_str()).collect();
    assert_eq!(rels, vec!["docs", "docs/a.md", "docs/b.md", "zeta.txt"]);
    assert!(manifest.entries[0].is_dir);
    assert_eq!(manifest.entries[0].size, 0);
    assert_eq!(manifest.total_bytes, 7);
    assert_eq!(sources, vec!["", "/data/root/docs/a.md", "/data/root/docs/b.md", "/data/root/zeta.txt"]);
}

#[test]
fn empty_source_tree_has_empty_manifest() {
    let mut w = ManifestWalker::new("/empty/");
    let root = w.next().unwrap();
    w.visit_dir(root, vec![]);
    assert!(w.next().is_none());
    let (m, s) = w.finish().unwrap();
    assert!(m.entries.is_empty());
    assert_eq!(m.total_bytes, 0);
    assert!(s.is_empty());
}

#[test]
fn trailing_slash_root_joins_cleanly() {
    let mut w = ManifestWalker::new("/empty/");
    let root = w.next().unwrap();
    w.visit_dir(root, vec!["x".into()]);
    let x = w.next().unwrap();
    assert_eq!(x.abs, "/empty/x");
    assert_eq!(x.rel, "x");
}

#[test]
fn overflowing_total_is_reported() {
    let mut w = ManifestWalker::new("/r");
    let root = w.next().unwrap();
    w.visit_dir(root, vec!["a".into(), "b".into()]);
    let a = w.next().unwrap();
    w.visit_file(a, u64::MAX);
    let b = w.next().unwrap();
    w.visit_file(b, 1);
    assert!(w.finish().is_none());
}
