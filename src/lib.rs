//! A flat, single-directory filesystem over the fields of one remote hash.
//!
//! The library keeps the namespace (names, inode numbers and synthesized
//! attributes) and decides, for each filesystem operation, what to answer and
//! which request to send to the backing store. Performing those requests is
//! left to the caller.

pub mod attr;
pub mod error;
pub mod clock;
pub mod names;
pub mod registry;
pub mod store;
pub mod fs;
