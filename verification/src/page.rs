//! A plain wrapper for a list of results handed back to a caller.
use vstd::prelude::*;

verus! {

/// One page of query results.
pub struct Page<T> {
    pub content: Vec<T>,
}

} // verus!
