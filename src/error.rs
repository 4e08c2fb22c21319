//! The failure the filesystem layer reports.

use vstd::prelude::*;

verus! {

/// Why a filesystem operation failed.
#[derive(Clone, Copy, Debug, PartialEq, Eq, Structural)]
pub enum FsError {
    /// The referenced name or inode has no entry in the namespace.
    NotFound,
    /// No file can be created under this name: it is the directory's own, or
    /// the inode numbers are spent.
    Conflict,
}

} // verus!
