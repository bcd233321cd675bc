//! Builders that populate a `linked_hash_map::LinkedHashMap` from a list of
//! pairs, one builder per key/value type the literals are written with.
//!
//! Each builder allocates the map with the pair count as its initial
//! capacity, inserts the pairs in source order, and discards any previous
//! value an insertion returns. The entry sequence of the result is pinned by
//! the construction model in [`crate::model`].

use vstd::prelude::*;

use linked_hash_map::LinkedHashMap;

use crate::model::{has_key, lemma_insert_all_push, spec_insert, spec_insert_all};

verus! {

/// Declares `linked_hash_map::LinkedHashMap`, the insertion-ordered map the
/// builders populate; the map is opaque here, and what it holds is spoken of
/// through the `entries_*` names below.
#[verifier::external_type_specification]
#[verifier::external_body]
#[verifier::reject_recursive_types(K)]
#[verifier::reject_recursive_types(V)]
#[verifier::reject_recursive_types(S)]
pub struct ExLinkedHashMap<K, V, S>(LinkedHashMap<K, V, S>);

/// The entries of `m` as pairs of views, in `m`'s iteration order: its
/// insertion order, with a re-inserted key moved to the back.
pub uninterp spec fn entries_str_str(m: LinkedHashMap<String, String>) -> Seq<
    (Seq<char>, Seq<char>),
>;

/// The entries of `m` as key and view-of-value pairs, in `m`'s iteration
/// order.
pub uninterp spec fn entries_u64_str(m: LinkedHashMap<u64, String>) -> Seq<(u64, Seq<char>)>;

/// The entries of `m` as view-of-key and value pairs, in `m`'s iteration
/// order.
pub uninterp spec fn entries_str_u64(m: LinkedHashMap<String, u64>) -> Seq<(Seq<char>, u64)>;

/// Relies on `linked_hash_map::LinkedHashMap::with_capacity`: the new map has
/// no entries.
#[verifier::external_body]
fn with_capacity_str_str(capacity: usize) -> (m: LinkedHashMap<String, String>)
    ensures
        entries_str_str(m) == Seq::<(Seq<char>, Seq<char>)>::empty(),
{
    LinkedHashMap::with_capacity(capacity)
}

/// Relies on `linked_hash_map::LinkedHashMap::insert`: any entry with the
/// same key goes away and the new pair is attached at the back of the
/// iteration order; the previous value is returned exactly when the key was
/// present.
#[verifier::external_body]
fn insert_str_str(m: &mut LinkedHashMap<String, String>, k: &str, v: &str) -> (old_value: Option<
    String,
>)
    ensures
        entries_str_str(*final(m)) == spec_insert(entries_str_str(*old(m)), k@, v@),
        old_value is Some <==> has_key(entries_str_str(*old(m)), k@),
{
    m.insert(k.to_owned(), v.to_owned())
}

/// Relies on `linked_hash_map::LinkedHashMap::with_capacity`: the new map has
/// no entries.
#[verifier::external_body]
fn with_capacity_u64_str(capacity: usize) -> (m: LinkedHashMap<u64, String>)
    ensures
        entries_u64_str(m) == Seq::<(u64, Seq<char>)>::empty(),
{
    LinkedHashMap::with_capacity(capacity)
}

/// Relies on `linked_hash_map::LinkedHashMap::insert`: any entry with the
/// same key goes away and the new pair is attached at the back of the
/// iteration order; the previous value is returned exactly when the key was
/// present.
#[verifier::external_body]
fn insert_u64_str(m: &mut LinkedHashMap<u64, String>, k: u64, v: &str) -> (old_value: Option<
    String,
>)
    ensures
        entries_u64_str(*final(m)) == spec_insert(entries_u64_str(*old(m)), k, v@),
        old_value is Some <==> has_key(entries_u64_str(*old(m)), k),
{
    m.insert(k, v.to_owned())
}

/// Relies on `linked_hash_map::LinkedHashMap::with_capacity`: the new map has
/// no entries.
#[verifier::external_body]
fn with_capacity_str_u64(capacity: usize) -> (m: LinkedHashMap<String, u64>)
    ensures
        entries_str_u64(m) == Seq::<(Seq<char>, u64)>::empty(),
{
    LinkedHashMap::with_capacity(capacity)
}

/// Relies on `linked_hash_map::LinkedHashMap::insert`: any entry with the
/// same key goes away and the new pair is attached at the back of the
/// iteration order; the previous value is returned exactly when the key was
/// present.
#[verifier::external_body]
fn insert_str_u64(m: &mut LinkedHashMap<String, u64>, k: &str, v: u64) -> (old_value: Option<u64>)
    ensures
        entries_str_u64(*final(m)) == spec_insert(entries_str_u64(*old(m)), k@, v),
        old_value is Some <==> has_key(entries_str_u64(*old(m)), k@),
{
    m.insert(k.to_owned(), v)
}

/// The written pair list as the model sees it: each pair as its views.
pub open spec fn views_str_str(pairs: Seq<(String, String)>) -> Seq<(Seq<char>, Seq<char>)> {
    pairs.map_values(|p: (String, String)| (p.0@, p.1@))
}

/// The written pair list as the model sees it: each value as its view.
pub open spec fn views_u64_str(pairs: Seq<(u64, String)>) -> Seq<(u64, Seq<char>)> {
    pairs.map_values(|p: (u64, String)| (p.0, p.1@))
}

/// The written pair list as the model sees it: each key as its view.
pub open spec fn views_str_u64(pairs: Seq<(String, u64)>) -> Seq<(Seq<char>, u64)> {
    pairs.map_values(|p: (String, u64)| (p.0@, p.1))
}

/// Builds the map a literal written as `pairs` stands for: a map with
/// capacity for the pair count, populated by inserting each pair in source
/// order.
pub fn from_pairs_str_str(pairs: Vec<(String, String)>) -> (m: LinkedHashMap<String, String>)
    ensures
        entries_str_str(m) == spec_insert_all(views_str_str(pairs@)),
{
    let ghost vs = views_str_str(pairs@);
    let n: usize = pairs.len();
    let mut m = with_capacity_str_str(n);
    let mut i: usize = 0;
    while i < n
        invariant
            n == pairs.len(),
            i <= n,
            vs == views_str_str(pairs@),
            vs.len() == n,
            entries_str_str(m) == spec_insert_all(vs.subrange(0, i as int)),
        decreases n - i,
    {
        let p = &pairs[i];
        insert_str_str(&mut m, p.0.as_str(), p.1.as_str());
        proof {
            assert(vs.subrange(0, i + 1) =~= vs.subrange(0, i as int).push(vs[i as int]));
            lemma_insert_all_push(vs.subrange(0, i as int), vs[i as int]);
        }
        i = i + 1;
    }
    proof {
        assert(vs.subrange(0, n as int) =~= vs);
    }
    m
}

/// Builds the map a literal written as `pairs` stands for: a map with
/// capacity for the pair count, populated by inserting each pair in source
/// order.
pub fn from_pairs_u64_str(pairs: Vec<(u64, String)>) -> (m: LinkedHashMap<u64, String>)
    ensures
        entries_u64_str(m) == spec_insert_all(views_u64_str(pairs@)),
{
    let ghost vs = views_u64_str(pairs@);
    let n: usize = pairs.len();
    let mut m = with_capacity_u64_str(n);
    let mut i: usize = 0;
    while i < n
        invariant
            n == pairs.len(),
            i <= n,
            vs == views_u64_str(pairs@),
            vs.len() == n,
            entries_u64_str(m) == spec_insert_all(vs.subrange(0, i as int)),
        decreases n - i,
    {
        let p = &pairs[i];
        insert_u64_str(&mut m, p.0, p.1.as_str());
        proof {
            assert(vs.subrange(0, i + 1) =~= vs.subrange(0, i as int).push(vs[i as int]));
            lemma_insert_all_push(vs.subrange(0, i as int), vs[i as int]);
        }
        i = i + 1;
    }
    proof {
        assert(vs.subrange(0, n as int) =~= vs);
    }
    m
}

/// Builds the map a literal written as `pairs` stands for: a map with
/// capacity for the pair count, populated by inserting each pair in source
/// order.
pub fn from_pairs_str_u64(pairs: Vec<(String, u64)>) -> (m: LinkedHashMap<String, u64>)
    ensures
        entries_str_u64(m) == spec_insert_all(views_str_u64(pairs@)),
{
    let ghost vs = views_str_u64(pairs@);
    let n: usize = pairs.len();
    let mut m = with_capacity_str_u64(n);
    let mut i: usize = 0;
    while i < n
        invariant
            n == pairs.len(),
            i <= n,
            vs == views_str_u64(pairs@),
            vs.len() == n,
            entries_str_u64(m) == spec_insert_all(vs.subrange(0, i as int)),
        decreases n - i,
    {
        let p = &pairs[i];
        insert_str_u64(&mut m, p.0.as_str(), p.1);
        proof {
            assert(vs.subrange(0, i + 1) =~= vs.subrange(0, i as int).push(vs[i as int]));
            lemma_insert_all_push(vs.subrange(0, i as int), vs[i as int]);
        }
        i = i + 1;
    }
    proof {
        assert(vs.subrange(0, n as int) =~= vs);
    }
    m
}

} // verus!
