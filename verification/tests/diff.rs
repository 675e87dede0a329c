//! Structural diff of a layer.

use std::collections::HashMap;

use draug::diff::{
    children_replaced, diff_upper, reads_base, AttrRead, BaseEntry, FileKind, FileMeta, Layer,
    LayerEntry,
};
use draug::error::{Error, IoFailure, IoKind};
use draug::types::{DiffEntry, DiffKind};

fn meta(kind: FileKind, size: u64) -> FileMeta {
    let mode = match kind {
        FileKind::Dir => 0o040755,
        FileKind::CharDevice => 0o020000,
        FileKind::Symlink => 0o120777,
        _ => 0o100644,
    };
    FileMeta { kind, size, mode, rdev: 0 }
}

fn base(name: &str, m: FileMeta, children: Vec<BaseEntry>) -> BaseEntry {
    BaseEntry { name: name.as_bytes().to_vec(), meta: m, children, failure: None }
}

fn entry(name: &str, m: FileMeta, base: Option<FileMeta>) -> LayerEntry {
    LayerEntry {
        name: name.as_bytes().to_vec(),
        meta: m,
        base,
        trusted_opaque: Ok(None),
        user_opaque: Ok(None),
        children: vec![],
        failure: None,
        covered: vec![],
        covered_failure: None,
    }
}

fn layer(children: Vec<LayerEntry>) -> Layer {
    Layer { children, failure: None }
}

fn kinds(entries: &[DiffEntry]) -> HashMap<String, DiffKind> {
    entries.iter().map(|e| (e.path.clone(), e.kind)).collect()
}

#[test]
fn added_modified_and_directory_whiteout() {
    let file = |n: u64| meta(FileKind::File, n);
    let dir = meta(FileKind::Dir, 4096);
    let edited = "brand new longer".len() as u64;
    let mut gone = entry("gonedir", meta(FileKind::CharDevice, 0), Some(dir));
    gone.covered = vec![
        base("a.txt", file(1), vec![]),
        base("nested", dir, vec![base("b.txt", file(1), vec![])]),
    ];
    let entries = diff_upper(&layer(vec![
        entry("edit.txt", file(edited), Some(file(3))),
        entry("added.txt", file(2), None),
        gone,
    ]))
    .unwrap();
    let k = kinds(&entries);
    assert_eq!(k.get("added.txt"), Some(&DiffKind::Added));
    assert_eq!(k.get("edit.txt"), Some(&DiffKind::Modified));
    // The whited-out directory and its whole subtree are deletions.
    assert_eq!(k.get("gonedir"), Some(&DiffKind::Deleted));
    assert_eq!(k.get("gonedir/a.txt"), Some(&DiffKind::Deleted));
    assert_eq!(k.get("gonedir/nested"), Some(&DiffKind::Deleted));
    assert_eq!(k.get("gonedir/nested/b.txt"), Some(&DiffKind::Deleted));
    // An unchanged base dir/file is not reported.
    assert!(!k.contains_key("keepdir"));
    assert!(!k.contains_key("keepdir/stable.txt"));

    // The modified file's size/mode reflect the upper's version.
    let edit = entries.iter().find(|e| e.path == "edit.txt").unwrap();
    assert_eq!(edit.size, Some("brand new longer".len() as u64));
    assert_eq!(edit.mode.as_deref(), Some("100644"));
    let paths: Vec<&str> = entries.iter().map(|e| e.path.as_str()).collect();
    assert_eq!(
        paths,
        vec!["added.txt", "edit.txt", "gonedir", "gonedir/a.txt", "gonedir/nested", "gonedir/nested/b.txt"]
    );
}

#[test]
fn opaque_directory_shadows_base_children() {
    let file = |n: u64| meta(FileKind::File, n);
    let dir = meta(FileKind::Dir, 4096);
    let mut d = entry("d", dir, Some(dir));
    d.children = vec![entry("new.txt", file(3), None), entry("keep.txt", file(5), Some(file(4)))];
    d.covered = vec![base("old.txt", file(3), vec![]), base("keep.txt", file(4), vec![])];
    d.user_opaque = Ok(Some(b"y".to_vec()));
    let k = kinds(&diff_upper(&layer(vec![d])).unwrap());
    assert_eq!(k.get("d/new.txt"), Some(&DiffKind::Added));
    assert_eq!(k.get("d/keep.txt"), Some(&DiffKind::Modified));
    // old.txt is present in base, absent from the opaque upper dir → gone.
    assert_eq!(k.get("d/old.txt"), Some(&DiffKind::Deleted));
    assert!(!k.contains_key("d"));
}

#[test]
fn a_merged_directory_shadows_nothing() {
    let dir = meta(FileKind::Dir, 4096);
    for mark in [Ok(None), Ok(Some(b"n".to_vec())), Ok(Some(b"yy".to_vec()))] {
        let mut d = entry("d", dir, Some(dir));
        d.trusted_opaque = mark;
        d.covered = vec![base("old", meta(FileKind::File, 1), vec![])];
        assert!(diff_upper(&layer(vec![d])).unwrap().is_empty());
    }
}

#[test]
fn bookkeeping_whiteouts_are_not_changes() {
    let white = meta(FileKind::CharDevice, 0);
    assert!(diff_upper(&layer(vec![entry("x", white, None)])).unwrap().is_empty());
    // A device with a number is a file like any other.
    let mut real = white;
    real.rdev = 0x0103;
    let v = diff_upper(&layer(vec![entry("null", real, None)])).unwrap();
    assert_eq!((v[0].path.as_str(), v[0].kind), ("null", DiffKind::Added));
}

#[test]
fn a_file_in_place_of_a_directory_deletes_what_was_in_it() {
    let dir = meta(FileKind::Dir, 4096);
    let mut e = entry("d", meta(FileKind::Symlink, 7), Some(dir));
    e.covered = vec![base("x", meta(FileKind::File, 1), vec![])];
    let v = diff_upper(&layer(vec![e])).unwrap();
    let got: Vec<(&str, DiffKind, Option<u64>)> =
        v.iter().map(|e| (e.path.as_str(), e.kind, e.size)).collect();
    assert_eq!(got, vec![("d", DiffKind::Modified, Some(7)), ("d/x", DiffKind::Deleted, Some(1))]);

    // And the other way round, and a directory that is new.
    let mut f = entry("f", dir, Some(meta(FileKind::File, 2)));
    f.children = vec![entry("y", meta(FileKind::File, 3), None)];
    let v = diff_upper(&layer(vec![f, entry("e", dir, None)])).unwrap();
    let got: Vec<(&str, DiffKind, Option<u64>)> =
        v.iter().map(|e| (e.path.as_str(), e.kind, e.size)).collect();
    assert_eq!(
        got,
        vec![
            ("e", DiffKind::Added, None),
            ("f", DiffKind::Modified, None),
            ("f/y", DiffKind::Added, Some(3)),
        ]
    );
}

#[test]
fn reports_are_sorted_by_path() {
    let file = meta(FileKind::File, 0);
    let names = ["b", "a", "é", "Z", "a.b", "a b", "ab", ""];
    let v = diff_upper(&layer(names.iter().map(|n| entry(n, file, None)).collect())).unwrap();
    let got: Vec<String> = v.into_iter().map(|e| e.path).collect();
    let mut want: Vec<String> = names.iter().map(|s| s.to_string()).collect();
    want.sort();
    assert_eq!(got, want);
}

#[test]
fn names_that_are_no_text_are_shown_as_well_as_can_be() {
    let mut e = entry("x", meta(FileKind::File, 0), None);
    e.name = vec![b'a', 0xff];
    let v = diff_upper(&layer(vec![e])).unwrap();
    assert_eq!(v[0].path, "a\u{fffd}");
}

#[test]
fn failures_end_the_walk() {
    let denied = IoFailure { kind: IoKind::PermissionDenied, message: "Permission denied".into() };
    let want = Error::Io { op: "diff upper layer", source: denied.clone() };
    assert_eq!(want.message(), "io error during diff upper layer: Permission denied");
    let dir = meta(FileKind::Dir, 4096);

    let top = Layer { children: vec![], failure: Some(denied.clone()) };
    assert_eq!(diff_upper(&top), Err(want.clone()));

    let mut inner = entry("d", dir, None);
    inner.failure = Some(denied.clone());
    assert_eq!(diff_upper(&layer(vec![inner])), Err(want.clone()));

    let unreadable: AttrRead = Err(denied.clone());
    let mut marked = entry("d", dir, Some(dir));
    marked.user_opaque = unreadable;
    assert_eq!(diff_upper(&layer(vec![marked])), Err(want.clone()));

    let mut gone = entry("d", meta(FileKind::CharDevice, 0), Some(dir));
    gone.covered_failure = Some(denied);
    assert_eq!(diff_upper(&layer(vec![gone])), Err(want));
}

#[test]
fn the_base_is_read_where_it_is_covered() {
    let dir = meta(FileKind::Dir, 0);
    let file = meta(FileKind::File, 1);
    let none: AttrRead = Ok(None);
    let opaque: AttrRead = Ok(Some(b"y".to_vec()));
    assert!(reads_base(&file, &Some(dir), &none, &none, false));
    assert!(!reads_base(&file, &Some(file), &none, &none, false));
    assert!(!reads_base(&file, &None, &none, &none, true));
    assert!(!reads_base(&dir, &Some(dir), &none, &none, false));
    assert!(reads_base(&dir, &Some(dir), &none, &none, true));
    assert!(reads_base(&dir, &Some(dir), &opaque, &none, false));
    assert!(reads_base(&dir, &Some(dir), &none, &opaque, false));
    assert!(children_replaced(&Some(dir), &none, &opaque, false));
    assert!(children_replaced(&None, &none, &none, true));
    assert!(!children_replaced(&Some(dir), &none, &none, false));
    assert!(!children_replaced(&None, &none, &opaque, false));
}

#[test]
fn nothing_shows_through_below_an_opaque_directory() {
    // The base has d/sub/x.txt and d/sub/deep/y.txt; the layer has d anew, with
    // an empty sub/deep in it.
    let dir = meta(FileKind::Dir, 0);
    let file = meta(FileKind::File, 1);
    let deep_base = base("deep", dir, vec![base("y.txt", file, vec![])]);
    let mut deep = entry("deep", dir, Some(dir));
    deep.covered = vec![base("y.txt", file, vec![])];
    let mut sub = entry("sub", dir, Some(dir));
    sub.covered = vec![base("x.txt", file, vec![]), deep_base];
    sub.children = vec![deep];
    let mut d = entry("d", dir, Some(dir));
    d.user_opaque = Ok(Some(b"y".to_vec()));
    d.covered = vec![base("sub", dir, vec![])];
    d.children = vec![sub];
    let v = diff_upper(&layer(vec![d])).unwrap();
    let found: Vec<(&str, DiffKind)> = v.iter().map(|e| (e.path.as_str(), e.kind)).collect();
    assert_eq!(
        found,
        vec![("d/sub/deep/y.txt", DiffKind::Deleted), ("d/sub/x.txt", DiffKind::Deleted)]
    );
}
