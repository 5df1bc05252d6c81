//! A verified identifier-interning link store.
//!
//! The crate binds long, variable-length identifiers to compact 8-byte
//! surrogate integers and maintains a forward index from link keys to target
//! surrogates together with a reverse adjacency list per target, accumulated
//! through an associative byte-level combine.
use vstd::prelude::*;

pub mod batch;
pub mod kv;
pub mod laws;
pub mod merge;
pub mod store;
pub mod table;
pub mod uri;
pub mod util;

verus! {

/// Adds two counters, as the ingestion statistics do.
pub fn add(a: u32, b: u32) -> (r: u32)
    requires
        a + b <= u32::MAX,
    ensures
        r == a + b,
{
    a + b
}

} // verus!
