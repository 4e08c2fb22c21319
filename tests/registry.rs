use hashfs::attr::{FileAttr, FileKind, HashAttr, Timestamp, DEFAULT_PERM, PLACEHOLDER_SIZE, ROOT_INO};
use hashfs::error::FsError;
use hashfs::registry::Registry;

fn names(v: &[&str]) -> Vec<String> {
    v.iter().map(|s| s.to_string()).collect()
}

fn ts() -> Timestamp {
    Timestamp { sec: 1_700_000_000, nsec: 250 }
}

fn listing(r: &Registry) -> Vec<(u64, String)> {
    r.list_root()
}

#[test]
fn attr_record_has_fixed_fields() {
    let a = HashAttr::new(FileKind::RegularFile, 9, ts(), 1000, 100);
    assert_eq!(a.ino, 9);
    assert_eq!(a.size, 500);
    assert_eq!(a.size, PLACEHOLDER_SIZE);
    assert_eq!(a.blocks, 0);
    assert_eq!(a.perm, 0o644);
    assert_eq!(a.perm, DEFAULT_PERM);
    assert_eq!(a.nlink, 0);
    assert_eq!(a.rdev, 0);
    assert_eq!(a.flags, 0);
    assert_eq!((a.uid, a.gid), (1000, 100));
    assert_eq!(a.kind, FileKind::RegularFile);
    for t in [a.atime, a.mtime, a.ctime, a.crtime] {
        assert_eq!(t, ts());
    }
}

#[test]
fn with_owner_changes_only_the_owner() {
    let a = HashAttr::new(FileKind::RegularFile, 4, ts(), 1, 2);
    let b = a.with_owner(33, 44);
    assert_eq!(b, FileAttr { uid: 33, gid: 44, ..a });
}

#[test]
fn initialize_numbers_keys_from_two() {
    let mut r = Registry::new();
    assert!(!r.is_initialized());
    r.initialize_at(&names(&["alpha", "beta"]), 10, 20, ts());
    assert!(r.is_initialized());
    assert_eq!(r.resolve(&"alpha".to_string()), Some(2));
    assert_eq!(r.resolve(&"beta".to_string()), Some(3));
    assert_eq!(listing(&r), vec![(2, "alpha".to_string()), (3, "beta".to_string())]);
    let root = r.attributes_of(ROOT_INO).unwrap();
    assert_eq!(root, HashAttr::new(FileKind::Directory, 1, ts(), 10, 20));
}

#[test]
fn initialize_with_no_keys_lists_nothing() {
    let mut r = Registry::new();
    r.initialize_at(&Vec::new(), 0, 0, ts());
    assert!(listing(&r).is_empty());
    assert!(r.attributes_of(ROOT_INO).is_some());
}

#[test]
fn every_initial_key_resolves_once() {
    let keys = names(&["k1", "k2", "k3", "k4", "k5"]);
    let mut r = Registry::new();
    r.initialize(&keys, 1, 1);
    let l = listing(&r);
    assert_eq!(l.len(), keys.len());
    for (i, k) in keys.iter().enumerate() {
        assert_eq!(r.resolve(k), Some(i as u64 + 2));
        assert_eq!(l[i], (i as u64 + 2, k.clone()));
    }
}

#[test]
fn root_not_an_attribute_before_initialize() {
    let r = Registry::new();
    assert_eq!(r.attributes_of(ROOT_INO), None);
}

#[test]
fn distinct_names_get_distinct_inodes() {
    let mut r = Registry::new();
    let a = r.allocate_at(&"n1".to_string(), FileKind::RegularFile, 0, 0, ts()).unwrap();
    let b = r.allocate_at(&"n2".to_string(), FileKind::RegularFile, 0, 0, ts()).unwrap();
    assert_ne!(a.ino, b.ino);
    assert_eq!((a.ino, b.ino), (2, 3));
}

#[test]
fn allocate_same_name_replaces_record_with_fresh_inode() {
    let mut r = Registry::new();
    r.initialize_at(&names(&["a", "b"]), 0, 0, ts());
    let again = r.allocate_at(&"a".to_string(), FileKind::RegularFile, 5, 6, ts()).unwrap();
    assert_eq!(again.ino, 4);
    assert_eq!(r.resolve(&"a".to_string()), Some(4));
    assert_eq!(r.attributes_of(2), None);
    assert_eq!(listing(&r), vec![(4, "a".to_string()), (3, "b".to_string())]);
}

#[test]
fn allocate_refuses_root_name() {
    let mut r = Registry::new();
    r.initialize_at(&Vec::new(), 0, 0, ts());
    assert_eq!(r.allocate_at(&"/".to_string(), FileKind::RegularFile, 0, 0, ts()), None);
    assert!(listing(&r).is_empty());
}

#[test]
fn release_then_resolve_is_not_found() {
    let mut r = Registry::new();
    r.initialize_at(&names(&["x", "y"]), 0, 0, ts());
    assert_eq!(r.release(&"x".to_string()), Ok(()));
    assert_eq!(r.resolve(&"x".to_string()), None);
    assert_eq!(r.attributes_of(2), None);
    assert_eq!(r.name_of(2), None);
    assert_eq!(r.release(&"x".to_string()), Err(FsError::NotFound));
}

#[test]
fn released_inode_is_never_reused() {
    let mut r = Registry::new();
    r.initialize_at(&names(&["x"]), 0, 0, ts());
    r.release(&"x".to_string()).unwrap();
    let a = r.allocate_at(&"x".to_string(), FileKind::RegularFile, 0, 0, ts()).unwrap();
    assert_eq!(a.ino, 3);
}

#[test]
fn root_never_listed_nor_released() {
    let mut r = Registry::new();
    r.initialize_at(&names(&["p", "q"]), 0, 0, ts());
    assert!(listing(&r).iter().all(|(ino, _)| *ino != ROOT_INO));
    assert_eq!(r.release(&"/".to_string()), Err(FsError::NotFound));
    assert!(r.attributes_of(ROOT_INO).is_some());
}

#[test]
fn name_of_reverses_resolve() {
    let mut r = Registry::new();
    r.initialize_at(&names(&["m", "n"]), 0, 0, ts());
    assert_eq!(r.name_of(3), Some("n".to_string()));
    assert_eq!(r.name_of(ROOT_INO), None);
    assert_eq!(r.name_of(99), None);
}

#[test]
fn allocate_stamps_current_time() {
    let mut r = Registry::new();
    let a = r.allocate(&"now".to_string(), FileKind::RegularFile, 3, 4).unwrap();
    assert!(a.atime.sec > 1_500_000_000);
    assert!(a.atime.nsec >= 0 && a.atime.nsec < 1_000_000_000);
    assert_eq!(a.atime, a.crtime);
}

#[test]
fn listing_follows_name_order() {
    let mut r = Registry::new();
    r.initialize_at(&names(&["zeta", "alpha", "mid"]), 0, 0, ts());
    assert_eq!(r.resolve(&"zeta".to_string()), Some(2));
    assert_eq!(r.resolve(&"alpha".to_string()), Some(3));
    assert_eq!(r.resolve(&"mid".to_string()), Some(4));
    assert_eq!(
        listing(&r),
        vec![(3, "alpha".to_string()), (4, "mid".to_string()), (2, "zeta".to_string())]
    );
    r.allocate_at(&"beta".to_string(), FileKind::RegularFile, 0, 0, ts()).unwrap();
    let order: Vec<String> = listing(&r).into_iter().map(|(_, n)| n).collect();
    assert_eq!(order, names(&["alpha", "beta", "mid", "zeta"]));
}

#[test]
fn duplicate_keys_keep_one_entry_with_last_inode() {
    let mut r = Registry::new();
    r.initialize_at(&names(&["a", "a"]), 0, 0, ts());
    assert_eq!(listing(&r), vec![(3, "a".to_string())]);
    assert_eq!(r.attributes_of(2), None);
}
