use vaultfs::Directory;
use vaultfs::File;
use vaultfs::FileKind;
use vaultfs::FileOrDir;
use vaultfs::FsError;
use vaultfs::Metadata;
use vaultfs::Timestamp;
use vaultfs::Vault;

fn ts(secs: u64) -> Timestamp {
    Timestamp { secs, nanos: 0 }
}

fn meta(ino: u64, kind: FileKind) -> Metadata {
    Metadata {
        ino,
        size: 0,
        blocks: 0,
        atime: ts(0),
        mtime: ts(0),
        ctime: ts(0),
        crtime: ts(0),
        kind,
        perm: 0o644,
        nlink: 1,
        uid: 0,
        gid: 0,
        rdev: 0,
        flags: 0,
        blksize: 512,
    }
}

fn file(ino: u64, name: &str) -> File {
    File { name: name.to_string(), data: Vec::new(), meta: meta(ino, FileKind::RegularFile) }
}

fn dir(ino: u64, name: &str, directories: Vec<Directory>, files: Vec<File>) -> Directory {
    Directory { name: name.to_string(), directories, files, meta: meta(ino, FileKind::Directory) }
}

fn seeded() -> Vault {
    Vault::seeded(ts(7), ts(0))
}

/// Root ino 1 holding file 2, then subtree [3 -> 4], then subtree [5 -> 6]:
/// a tree satisfying the resolution-order invariant.
fn nested() -> Vault {
    let d3 = dir(3, "alpha", vec![], vec![file(4, "inner.txt")]);
    let d5 = dir(5, "beta", vec![], vec![file(6, "deep.txt")]);
    Vault { root: dir(1, "", vec![d3, d5], vec![file(2, "top.txt")]) }
}

#[test]
fn resolve_root_own_ino() {
    let v = seeded();
    match v.root.find_ino(1) {
        Some(FileOrDir::Directory(d)) => assert_eq!(d.meta.ino, 1),
        _ => panic!("root did not resolve to itself"),
    }
    let n = nested();
    match n.root.find_ino(1) {
        Some(FileOrDir::Directory(d)) => assert_eq!(d.meta.ino, 1),
        _ => panic!("root did not resolve to itself"),
    }
}

#[test]
fn seeded_resolution() {
    let v = seeded();
    match v.root.find_ino(2) {
        Some(FileOrDir::File(f)) => {
            assert_eq!(f.meta.ino, 2);
            assert_eq!(f.name, "test.txt");
            assert_eq!(f.data, b"lorem ipsum dolor sit amet".to_vec());
        }
        _ => panic!("ino 2 did not resolve to the seeded file"),
    }
    for ino in [0, 3, 4, 999, u64::MAX] {
        assert!(v.root.find_ino(ino).is_none(), "ino {ino} should be absent");
    }
}

#[test]
fn lookup_found_and_missing() {
    let v = seeded();
    let entry = v.lookup(1, "test.txt".to_string()).expect("lookup should succeed");
    assert_eq!(entry.attr.ino, 2);
    assert_eq!(entry.attr.size, 4096);
    assert_eq!(entry.attr.kind, FileKind::RegularFile);
    assert_eq!(entry.attr.perm, 0o644);
    assert_eq!(entry.ttl_secs, 1);
    assert_eq!(entry.generation, 0);
    assert_eq!(v.lookup(1, "missing".to_string()), Err(FsError::NotFound));
}

#[test]
fn lookup_parent_not_a_directory() {
    let v = seeded();
    assert_eq!(v.lookup(2, "test.txt".to_string()), Err(FsError::NotFound));
    assert_eq!(v.lookup(999, "test.txt".to_string()), Err(FsError::NotFound));
}

#[test]
fn getattr_directory_and_file() {
    let v = seeded();
    let root_attr = v.getattr(1).expect("getattr(1) should succeed");
    assert_eq!(root_attr.attr.ino, 1);
    assert_eq!(root_attr.attr.kind, FileKind::Directory);
    assert_eq!(root_attr.attr.perm, 0o755);
    assert_eq!(root_attr.ttl_secs, 1);
    let file_attr = v.getattr(2).expect("getattr(2) should succeed");
    assert_eq!(file_attr.attr.ino, 2);
    assert_eq!(file_attr.attr.kind, FileKind::RegularFile);
    assert_eq!(file_attr.attr.atime, ts(7));
}

#[test]
fn getattr_unknown_ino() {
    let v = seeded();
    assert_eq!(v.getattr(999), Err(FsError::NotFound));
}

#[test]
fn readdir_first_page() {
    let v = seeded();
    let entries = v.readdir(1, 0).expect("readdir(1, 0) should succeed");
    assert_eq!(entries.len(), 3);
    assert_eq!(entries[0].ino, 1);
    assert_eq!(entries[0].kind, FileKind::Directory);
    assert_eq!(entries[0].name, ".");
    assert_eq!(entries[1].ino, 1);
    assert_eq!(entries[1].kind, FileKind::Directory);
    assert_eq!(entries[1].name, "..");
    assert_eq!(entries[2].ino, 2);
    assert_eq!(entries[2].kind, FileKind::RegularFile);
    assert_eq!(entries[2].name, "test.txt");
}

#[test]
fn readdir_positive_offset_fails() {
    let v = seeded();
    assert_eq!(v.readdir(1, 1), Err(FsError::NotFound));
    assert_eq!(v.readdir(1, i64::MAX), Err(FsError::NotFound));
}

#[test]
fn readdir_nonpositive_offset_is_first_page() {
    let v = seeded();
    assert_eq!(v.readdir(1, -3), v.readdir(1, 0));
}

#[test]
fn readdir_on_file_or_unknown_fails() {
    let v = seeded();
    assert_eq!(v.readdir(2, 0), Err(FsError::NotFound));
    assert_eq!(v.readdir(999, 0), Err(FsError::NotFound));
}

#[test]
fn repeated_queries_identical() {
    let v = seeded();
    assert_eq!(v.getattr(1), v.getattr(1));
    assert_eq!(v.getattr(999), v.getattr(999));
    assert_eq!(v.lookup(1, "test.txt".to_string()), v.lookup(1, "test.txt".to_string()));
    assert_eq!(v.readdir(1, 0), v.readdir(1, 0));
}

#[test]
fn find_file_first_match_wins() {
    let d = dir(1, "", vec![], vec![file(2, "dup.txt"), file(3, "dup.txt")]);
    let found = d.find_file("dup.txt".to_string()).expect("name should be found");
    assert_eq!(found.meta.ino, 2);
    assert!(d.find_file("absent".to_string()).is_none());
}

#[test]
fn list_items_files_then_directories() {
    let n = nested();
    let items = n.root.list_items();
    assert_eq!(items.len(), 3);
    assert_eq!(items[0], (2, FileKind::RegularFile, "top.txt".to_string()));
    assert_eq!(items[1], (3, FileKind::Directory, "alpha".to_string()));
    assert_eq!(items[2], (5, FileKind::Directory, "beta".to_string()));
}

#[test]
fn list_items_empty_directory() {
    let d = dir(1, "", vec![], vec![]);
    assert!(d.list_items().is_empty());
    let v = Vault { root: dir(1, "", vec![], vec![]) };
    let entries = v.readdir(1, 0).expect("readdir of empty root should succeed");
    assert_eq!(entries.len(), 2);
    assert_eq!(entries[0].name, ".");
    assert_eq!(entries[1].name, "..");
}

#[test]
fn nested_descend_into_earlier_sibling() {
    let n = nested();
    match n.root.find_ino(4) {
        Some(FileOrDir::File(f)) => {
            assert_eq!(f.meta.ino, 4);
            assert_eq!(f.name, "inner.txt");
        }
        _ => panic!("ino 4 should resolve inside the first subtree"),
    }
    match n.root.find_ino(3) {
        Some(FileOrDir::Directory(d)) => assert_eq!(d.meta.ino, 3),
        _ => panic!("ino 3 should resolve to the first child directory"),
    }
    let attr = n.getattr(4).expect("getattr(4) should succeed");
    assert_eq!(attr.attr.ino, 4);
}

#[test]
fn nested_last_subtree_descendants_unreachable() {
    // The scan-and-descend strategy never descends into the final child
    // directory: a descendant of the last subtree silently fails to resolve,
    // though the directory's own ino still does.
    let n = nested();
    match n.root.find_ino(5) {
        Some(FileOrDir::Directory(d)) => assert_eq!(d.meta.ino, 5),
        _ => panic!("ino 5 should resolve to the last child directory"),
    }
    assert!(n.root.find_ino(6).is_none());
    assert_eq!(n.getattr(6), Err(FsError::NotFound));
}

#[test]
fn first_child_exceeding_target_reports_not_found() {
    // With no earlier sibling to descend into, the scan reports not-found
    // rather than descending anywhere.
    let v = Vault { root: dir(1, "", vec![dir(10, "only", vec![], vec![])], vec![]) };
    assert!(v.root.find_ino(5).is_none());
    assert_eq!(v.getattr(5), Err(FsError::NotFound));
}

#[test]
fn deep_descend_two_levels() {
    // ino listing [1, 2, 3, 4, 5, 9]: the grandchild file 4 resolves because
    // both directories on its path have a later sibling to trip the scan.
    let d3 = dir(3, "inner", vec![], vec![file(4, "deep.txt")]);
    let d5 = dir(5, "pad", vec![], vec![]);
    let d2 = dir(2, "outer", vec![d3, d5], vec![]);
    let d9 = dir(9, "tail", vec![], vec![]);
    let v = Vault { root: dir(1, "", vec![d2, d9], vec![]) };
    match v.root.find_ino(4) {
        Some(FileOrDir::File(f)) => assert_eq!(f.name, "deep.txt"),
        _ => panic!("ino 4 should resolve two levels down"),
    }
    let attr = v.getattr(4).expect("getattr(4) should succeed");
    assert_eq!(attr.attr.ino, 4);
}

#[test]
fn readdir_nested_directory() {
    let n = nested();
    let entries = n.readdir(3, 0).expect("readdir(3, 0) should succeed");
    assert_eq!(entries.len(), 3);
    assert_eq!(entries[0].ino, 3);
    assert_eq!(entries[0].name, ".");
    // ".." always carries the root's fixed ino 1, whatever the parent is.
    assert_eq!(entries[1].ino, 1);
    assert_eq!(entries[1].name, "..");
    assert_eq!(entries[2].ino, 4);
    assert_eq!(entries[2].kind, FileKind::RegularFile);
    assert_eq!(entries[2].name, "inner.txt");
}

#[test]
fn lookup_in_nested_directory() {
    let n = nested();
    let entry = n.lookup(3, "inner.txt".to_string()).expect("lookup in subtree should succeed");
    assert_eq!(entry.attr.ino, 4);
    // the name exists only under ino 3, not under the root
    assert_eq!(n.lookup(1, "inner.txt".to_string()), Err(FsError::NotFound));
}

#[test]
fn seeded_metadata_fixed_fields() {
    let v = Vault::seeded(ts(123), ts(45));
    assert_eq!(v.root.meta.ino, 1);
    assert_eq!(v.root.meta.size, 4096);
    assert_eq!(v.root.meta.blocks, 1);
    assert_eq!(v.root.meta.blksize, 512);
    assert_eq!(v.root.meta.atime, ts(45));
    assert_eq!(v.root.name, "");
    assert_eq!(v.root.files.len(), 1);
    assert!(v.root.directories.is_empty());
    let f = &v.root.files[0];
    assert_eq!(f.meta.ino, 2);
    assert_eq!(f.meta.size, 4096);
    assert_eq!(f.data.len(), 26);
    assert_eq!(f.meta.atime, ts(123));
}
