//! Building an insertion-ordered key/value container from a written-out list
//! of pairs.
//!
//! The container is `linked_hash_map::LinkedHashMap`: keys are unique and
//! iteration visits the entries in insertion order. The builders in
//! [`literal`] take the pair list, allocate a map with the pair count as its
//! initial capacity, and insert each pair in source order, discarding any
//! previous value; [`model`] states what the resulting entries are and proves
//! the ordering and overwrite laws of that construction.

use vstd::prelude::*;

pub mod literal;
pub mod model;

verus! {

/// Returns an owned copy of `input`; a shorthand for writing the pairs of a
/// map literal tersely.
pub fn s(input: &str) -> (r: String)
    ensures
        r@ == input@,
{
    input.to_owned()
}

} // verus!
