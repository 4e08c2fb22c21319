//! Requests for the backing hash, and what they do to it.

use vstd::prelude::*;

verus! {

/// One request for the backing hash, addressed by field.
pub enum StoreRequest {
    /// Read the value of a field.
    Get { field: String },
    /// Store `value` under a field, replacing what was there.
    Put { field: String, value: Vec<u8> },
    /// Remove a field.
    Delete { field: String },
}

/// A request as a mathematical value.
pub enum StoreOp {
    Get(Seq<char>),
    Put(Seq<char>, Seq<u8>),
    Delete(Seq<char>),
}

impl View for StoreRequest {
    type V = StoreOp;

    open spec fn view(&self) -> StoreOp {
        match self {
            StoreRequest::Get { field } => StoreOp::Get(field@),
            StoreRequest::Put { field, value } => StoreOp::Put(field@, value@),
            StoreRequest::Delete { field } => StoreOp::Delete(field@),
        }
    }
}

/// The hash after `op`, the hash seen as a map from field to value.
pub open spec fn apply(hash: Map<Seq<char>, Seq<u8>>, op: StoreOp) -> Map<Seq<char>, Seq<u8>> {
    match op {
        StoreOp::Get(_) => hash,
        StoreOp::Put(f, v) => hash.insert(f, v),
        StoreOp::Delete(f) => hash.remove(f),
    }
}

/// What a read request gets back from the hash.
pub open spec fn answer(hash: Map<Seq<char>, Seq<u8>>, op: StoreOp) -> Option<Seq<u8>> {
    match op {
        StoreOp::Get(f) => if hash.contains_key(f) {
            Some(hash[f])
        } else {
            None
        },
        _ => None,
    }
}

} // verus!
