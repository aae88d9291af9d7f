//! The content hash and the hash index of the deduplicator, seen through
//! contracts.
//!
//! The hasher is seeded once per process, so a hash is no function of the
//! bytes alone; all that is claimed is that, within one process, equal bytes
//! get equal hashes. The index is a hash map of the
//! hashing library; what it holds is named and its methods are specified over
//! that name.

use ahash::AHashMap;
use std::hash::{Hash, Hasher};
use vstd::prelude::*;

verus! {

/// The hasher state of the hashing library, opaque to the verifier.
#[verifier::external_type_specification]
#[verifier::external_body]
pub struct ExRandomState(ahash::RandomState);

/// The hash map of the hashing library, opaque to the verifier.
#[verifier::external_type_specification]
#[verifier::external_body]
#[verifier::reject_recursive_types(K)]
#[verifier::reject_recursive_types(V)]
#[verifier::reject_recursive_types(S)]
pub struct ExAHashMap<K, V, S>(ahash::AHashMap<K, V, S>);

/// The entries of a hash index: for each hash, the position it points to.
pub uninterp spec fn index_entries(index: AHashMap<u64, usize>) -> Map<u64, usize>;

/// `AHasher::default`, fed the bytes of a buffer, and `finish`, once for
/// each buffer. The keys of the default hasher are fixed once for the
/// process, so within one call equal bytes get equal hashes; which values
/// they get is the process's own, and nothing is claimed of it.
#[verifier::external_body]
pub(crate) fn content_hashes(buffers: &Vec<Vec<u8>>) -> (hashes: Vec<u64>)
    ensures
        hashes@.len() == buffers@.len(),
        forall|i: int, j: int|
            0 <= i < buffers@.len() && 0 <= j < buffers@.len() && buffers@[i]@ == buffers@[j]@
                ==> #[trigger] hashes@[i] == #[trigger] hashes@[j],
{
    buffers.iter().map(|buffer| {
        let mut hasher = ahash::AHasher::default();
        buffer.hash(&mut hasher);
        hasher.finish()
    }).collect()
}

/// `AHashMap::new`: an index without entries.
#[verifier::external_body]
pub(crate) fn new_index() -> (index: AHashMap<u64, usize>)
    ensures
        index_entries(index) =~= Map::empty(),
{
    AHashMap::new()
}

/// `AHashMap::get`: the position stored under a hash, if any.
#[verifier::external_body]
pub(crate) fn index_get(index: &AHashMap<u64, usize>, hash: u64) -> (position: Option<usize>)
    ensures
        position is Some <==> index_entries(*index).contains_key(hash),
        position matches Some(p) ==> p == index_entries(*index)[hash],
{
    index.get(&hash).copied()
}

/// `AHashMap::insert`: stores a position under a hash, replacing what was
/// stored there.
#[verifier::external_body]
pub(crate) fn index_insert(index: &mut AHashMap<u64, usize>, hash: u64, position: usize)
    ensures
        index_entries(*final(index)) == index_entries(*old(index)).insert(hash, position),
{
    index.insert(hash, position);
}

} // verus!
