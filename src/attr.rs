//! Synthesized file attributes.

use vstd::prelude::*;

verus! {

/// Inode number of the single directory.
pub const ROOT_INO: u64 = 1;

/// Size reported for every entry; the true length would cost a store round trip.
pub const PLACEHOLDER_SIZE: u64 = 500;

/// Permission bits of every entry (octal 644).
pub const DEFAULT_PERM: u16 = 420;

/// What an inode is.
#[derive(Clone, Copy, Debug, PartialEq, Eq, Structural)]
pub enum FileKind {
    Directory,
    RegularFile,
}

/// A point in time: seconds since the epoch and nanoseconds within the second.
#[derive(Clone, Copy, Debug, PartialEq, Eq, Structural)]
pub struct Timestamp {
    pub sec: i64,
    pub nsec: i32,
}

/// The attributes presented for one inode.
#[derive(Clone, Copy, Debug, PartialEq, Eq, Structural)]
pub struct FileAttr {
    pub ino: u64,
    pub size: u64,
    pub blocks: u64,
    pub atime: Timestamp,
    pub mtime: Timestamp,
    pub ctime: Timestamp,
    pub crtime: Timestamp,
    pub kind: FileKind,
    pub perm: u16,
    pub nlink: u32,
    pub uid: u32,
    pub gid: u32,
    pub rdev: u32,
    pub flags: u32,
}

/// The record every entry gets: fixed fields, all four timestamps set to `ts`,
/// and the given owner.
pub open spec fn synthesized(kind: FileKind, ino: u64, ts: Timestamp, uid: u32, gid: u32) -> FileAttr {
    FileAttr {
        ino,
        size: PLACEHOLDER_SIZE,
        blocks: 0,
        atime: ts,
        mtime: ts,
        ctime: ts,
        crtime: ts,
        kind,
        perm: DEFAULT_PERM,
        nlink: 0,
        uid,
        gid,
        rdev: 0,
        flags: 0,
    }
}

/// `attr` as seen by the caller `uid`/`gid`: the owner fields are replaced.
pub open spec fn owned_by(attr: FileAttr, uid: u32, gid: u32) -> FileAttr {
    FileAttr { uid, gid, ..attr }
}

/// Builder of synthesized attribute records.
pub struct HashAttr;

impl HashAttr {
    /// The attribute record of a fresh entry.
    pub fn new(kind: FileKind, ino: u64, ts: Timestamp, uid: u32, gid: u32) -> (r: FileAttr)
        ensures
            r == synthesized(kind, ino, ts, uid, gid),
    {
        FileAttr {
            ino,
            size: PLACEHOLDER_SIZE,
            blocks: 0,
            atime: ts,
            mtime: ts,
            ctime: ts,
            crtime: ts,
            kind,
            perm: DEFAULT_PERM,
            nlink: 0,
            uid,
            gid,
            rdev: 0,
            flags: 0,
        }
    }
}

impl FileAttr {
    /// A copy of this record with the owner set to the caller.
    pub fn with_owner(&self, uid: u32, gid: u32) -> (r: FileAttr)
        ensures
            r == owned_by(*self, uid, gid),
    {
        FileAttr { uid, gid, ..*self }
    }
}

} // verus!
