use hashfs::attr::{FileKind, Timestamp, DEFAULT_PERM, ROOT_INO};
use hashfs::error::FsError;
use hashfs::fs::{unquote, HashFs};
use hashfs::store::StoreRequest;
use std::collections::HashMap;

fn mounted(keys: &[&str]) -> HashFs {
    let mut fs = HashFs::new("certs".to_string(), "localhost", "6379");
    let keys: Vec<String> = keys.iter().map(|s| s.to_string()).collect();
    fs.init(&keys, 1000, 1000);
    fs
}

/// Carries out a request on a hash held in memory.
fn perform(hash: &mut HashMap<String, Vec<u8>>, q: StoreRequest) -> Option<Vec<u8>> {
    match q {
        StoreRequest::Get { field } => hash.get(&field).cloned(),
        StoreRequest::Put { field, value } => {
            hash.insert(field, value);
            None
        }
        StoreRequest::Delete { field } => {
            hash.remove(&field);
            None
        }
    }
}

#[test]
fn new_builds_store_url_without_separator() {
    let fs = HashFs::new("h".to_string(), "localhost", "6379");
    assert_eq!(fs.store_url(), "redis://localhost6379/");
    assert_eq!(fs.hash_name(), "h");
    assert!(!fs.is_initialized());
}

#[test]
fn scenario_initialize_alpha_beta() {
    let fs = mounted(&["alpha", "beta"]);
    assert_eq!(fs.lookup(ROOT_INO, &"alpha".to_string(), 1, 1).unwrap().ino, 2);
    assert_eq!(fs.lookup(ROOT_INO, &"beta".to_string(), 1, 1).unwrap().ino, 3);
    assert_eq!(fs.getattr(ROOT_INO, 1, 1).unwrap().kind, FileKind::Directory);
    let l = fs.readdir(ROOT_INO, 0).unwrap();
    let got: Vec<(u64, i64, String)> = l.into_iter().map(|e| (e.ino, e.offset, e.name)).collect();
    assert_eq!(got, vec![(2, 2, "alpha".to_string()), (3, 3, "beta".to_string())]);
}

#[test]
fn scenario_create_gamma() {
    let mut fs = mounted(&["alpha", "beta"]);
    let a = fs.create(ROOT_INO, &"gamma".to_string(), 0o644, 501, 20).unwrap();
    assert_eq!(a.ino, 4);
    assert_eq!(a.perm, DEFAULT_PERM);
    assert_eq!((a.uid, a.gid), (501, 20));
    assert_eq!(a.kind, FileKind::RegularFile);
    let mut hash: HashMap<String, Vec<u8>> = HashMap::new();
    let q = fs.read(4, 0, 4096).unwrap();
    assert_eq!(perform(&mut hash, q), None);
}

#[test]
fn scenario_unlink_alpha() {
    let mut fs = mounted(&["alpha", "beta"]);
    fs.create(ROOT_INO, &"gamma".to_string(), 0o644, 1, 1).unwrap();
    let mut hash: HashMap<String, Vec<u8>> = HashMap::new();
    hash.insert("alpha".to_string(), b"v".to_vec());
    let q = fs.unlink_request(&"alpha".to_string());
    assert!(matches!(&q, StoreRequest::Delete { field } if field == "alpha"));
    perform(&mut hash, q);
    assert!(!hash.contains_key("alpha"));
    assert_eq!(fs.unlink(ROOT_INO, &"alpha".to_string()), Ok(()));
    assert_eq!(fs.lookup(ROOT_INO, &"alpha".to_string(), 1, 1), Err(FsError::NotFound));
    assert_eq!(fs.getattr(2, 1, 1), Err(FsError::NotFound));
    let b = fs.create(ROOT_INO, &"alpha2".to_string(), 0o644, 1, 1).unwrap();
    assert_eq!(b.ino, 5);
}

#[test]
fn unlink_unknown_name_is_not_found() {
    let mut fs = mounted(&["alpha"]);
    assert_eq!(fs.unlink(ROOT_INO, &"nope".to_string()), Err(FsError::NotFound));
    assert_eq!(fs.unlink(ROOT_INO, &"/".to_string()), Err(FsError::NotFound));
    assert!(fs.getattr(ROOT_INO, 1, 1).is_ok());
}

#[test]
fn create_root_name_is_conflict() {
    let mut fs = mounted(&[]);
    assert_eq!(fs.create(ROOT_INO, &"/".to_string(), 0o644, 1, 1), Err(FsError::Conflict));
}

#[test]
fn create_at_gives_exact_record() {
    let mut fs = mounted(&["a"]);
    let t = Timestamp { sec: 42, nsec: 7 };
    let r = fs.create_at(ROOT_INO, &"b".to_string(), 0o600, 9, 8, t).unwrap();
    assert_eq!(r.ino, 3);
    assert_eq!(r.mtime, t);
    assert_eq!(r.size, 500);
    assert_eq!(fs.getattr(3, 9, 8), Ok(r));
}

#[test]
fn write_then_read_round_trips() {
    let fs = mounted(&["alpha"]);
    let mut hash: HashMap<String, Vec<u8>> = HashMap::new();
    let data = vec![0u8, 159, 146, 150, b'x'];
    let (q, n) = fs.write(2, 100, data.clone()).unwrap();
    assert_eq!(n, 5);
    assert!(matches!(&q, StoreRequest::Put { field, .. } if field == "alpha"));
    perform(&mut hash, q);
    let g = fs.read(2, 3, 1).unwrap();
    assert_eq!(perform(&mut hash, g), Some(data));
}

#[test]
fn read_and_write_unknown_inode_are_not_found() {
    let fs = mounted(&["alpha"]);
    assert!(matches!(fs.read(7, 0, 10), Err(FsError::NotFound)));
    assert!(matches!(fs.read(ROOT_INO, 0, 10), Err(FsError::NotFound)));
    assert!(matches!(fs.write(7, 0, vec![1]), Err(FsError::NotFound)));
}

#[test]
fn lookup_patches_owner_to_caller() {
    let fs = mounted(&["alpha"]);
    let a = fs.lookup(ROOT_INO, &"alpha".to_string(), 77, 88).unwrap();
    assert_eq!((a.uid, a.gid), (77, 88));
    let stored = fs.setattr(2).unwrap();
    assert_eq!((stored.uid, stored.gid), (1000, 1000));
}

#[test]
fn lookup_outside_root_is_not_found() {
    let fs = mounted(&["alpha"]);
    assert_eq!(fs.lookup(2, &"alpha".to_string(), 1, 1), Err(FsError::NotFound));
    assert_eq!(fs.lookup(ROOT_INO, &"zeta".to_string(), 1, 1), Err(FsError::NotFound));
}

#[test]
fn setattr_echoes_record() {
    let fs = mounted(&["alpha"]);
    assert_eq!(fs.setattr(2), fs.getattr(2, 1000, 1000));
    assert_eq!(fs.setattr(40), Err(FsError::NotFound));
}

#[test]
fn readdir_other_inode_or_offset() {
    let fs = mounted(&["alpha", "beta"]);
    assert!(matches!(fs.readdir(2, 0), Err(FsError::NotFound)));
    assert!(fs.readdir(ROOT_INO, 3).unwrap().is_empty());
}

#[test]
fn init_stamps_current_time() {
    let fs = mounted(&["alpha"]);
    let a = fs.getattr(2, 1, 1).unwrap();
    assert!(a.ctime.sec > 1_500_000_000);
    assert!(a.ctime.nsec >= 0 && a.ctime.nsec < 1_000_000_000);
}

#[test]
fn getattr_shows_caller_as_owner() {
    let mut fs = mounted(&["alpha"]);
    let created = fs.create(ROOT_INO, &"mine".to_string(), 0o644, 501, 20).unwrap();
    let seen = fs.getattr(created.ino, 777, 888).unwrap();
    assert_eq!((seen.uid, seen.gid), (777, 888));
    assert_eq!(seen.ino, created.ino);
    assert_eq!(seen.mtime, created.mtime);
    let root = fs.getattr(ROOT_INO, 42, 43).unwrap();
    assert_eq!((root.uid, root.gid), (42, 43));
    let other = fs.getattr(2, 5, 6).unwrap();
    assert_eq!((other.uid, other.gid), (5, 6));
}

#[test]
fn unquote_strips_every_double_quote() {
    assert_eq!(unquote("\"localhost\""), "localhost");
    assert_eq!(unquote("6379"), "6379");
    assert_eq!(unquote(""), "");
    assert_eq!(unquote("a\"b\"\"c\u{e9}"), "abc\u{e9}");
    assert_eq!(unquote("\"\""), "");
}

#[test]
fn store_url_from_quoted_config_values() {
    let host = unquote("\"redis.local\"");
    let port = unquote("6380");
    let fs = HashFs::new("h".to_string(), &host, &port);
    assert_eq!(fs.store_url(), "redis://redis.local6380/");
}
