//! The hashes that tie index roots to a block commitment.

use crate::chain::block::block_ads_root::BlockADSComponents;
use crate::chain::id_tree::ObjId;
use crate::digest::{blake2, u16_be_bytes, u16_to_be_bytes, u32_le_bytes, u32_to_le_bytes, Digest};
use crate::ordered::{
    entries_u16, entries_u8, joined_along, joined_ascending, lemma_joined_along_ascending,
};
use std::collections::BTreeMap;
use vstd::prelude::*;

verus! {

/// What is hashed for the windows of a block: for each window size, its two
/// big-endian bytes and then the window's hash.
pub open spec fn window_chunks(m: Map<u16, Digest>) -> Map<int, Seq<u8>> {
    Map::new(
        |k: int| 0 <= k < 65536 && m.contains_key(k as u16),
        |k: int| u16_be_bytes(k as u16) + m[k as u16]@,
    )
}

/// The bytes hashed into a multi-window hash: the chunks of all windows in
/// ascending order of window size.
pub open spec fn multi_ads_preimage(m: Map<u16, Digest>) -> Seq<u8> {
    joined_ascending(window_chunks(m), 0, 65536)
}

/// What is hashed for the range indexes of a window: the root of each
/// dimension.
pub open spec fn dim_chunks(m: Map<u8, Digest>) -> Map<int, Seq<u8>> {
    Map::new(|k: int| 0 <= k < 256 && m.contains_key(k as u8), |k: int| m[k as u8]@)
}

/// The bytes hashed into the hash of the range-index roots of a window: the
/// roots in ascending order of dimension.
pub open spec fn bplus_roots_preimage(m: Map<u8, Digest>) -> Seq<u8> {
    joined_ascending(dim_chunks(m), 0, 256)
}

/// Hash over the per-window hashes of a block, in ascending order of window
/// size.
pub fn compute_multi_ads_hash(block_ads_hashes: &BTreeMap<u16, Digest>) -> (d: Digest)
    ensures
        d == Digest::hash_of(multi_ads_preimage(block_ads_hashes@)),
{
    let mut state = blake2();
    let entries = entries_u16(block_ads_hashes);
    let ghost chunks = window_chunks(block_ads_hashes@);
    let ghost keys = Seq::new(entries@.len(), |i: int| entries@[i].0 as int);
    let mut n: usize = 0;
    while n < entries.len()
        invariant
            n <= entries.len(),
            chunks == window_chunks(block_ads_hashes@),
            keys == Seq::new(entries@.len(), |i: int| entries@[i].0 as int),
            forall|i: int|
                0 <= i < entries@.len() ==> block_ads_hashes@.contains_key(
                    (#[trigger] entries@[i]).0,
                ) && block_ads_hashes@[entries@[i].0] == *entries@[i].1,
            state@ == joined_along(chunks, keys.take(n as int)),
        decreases entries.len() - n,
    {
        let (window_size, blk_ads_hash) = entries[n];
        let ghost before = state@;
        state.update(&u16_to_be_bytes(window_size));
        state.update(blk_ads_hash.as_bytes());
        proof {
            let done = keys.take(n + 1);
            assert(done.drop_last() =~= keys.take(n as int));
            assert(done.last() == window_size as int);
            assert(state@ =~= before + (u16_be_bytes(window_size) + blk_ads_hash@));
        }
        n += 1;
    }
    proof {
        assert(keys.take(keys.len() as int) =~= keys);
        assert forall|k: int| 0 <= k < 65536 && #[trigger] chunks.contains_key(k) implies exists|
            i: int,
        | 0 <= i < keys.len() && keys[i] == k by {
            assert(block_ads_hashes@.contains_key(k as u16));
            let i = choose|i: int| 0 <= i < entries@.len() && entries@[i].0 == k as u16;
            assert(keys[i] == k);
        }
        lemma_joined_along_ascending(chunks, keys, 0, 65536);
    }
    state.finalize()
}

/// The commitment that a block's roots give: the root of the components made
/// of the two id hashes and the hash over the windows.
pub fn merkle_proof_hash(
    id_set_root_hash: &Digest,
    id_tree_root_hash: &Digest,
    block_ads_hashes: &BTreeMap<u16, Digest>,
) -> (d: Digest)
    ensures
        d == (BlockADSComponents {
            id_set_root_hash: *id_set_root_hash,
            id_tree_root_hash: *id_tree_root_hash,
            multi_ads_hash: Digest::hash_of(multi_ads_preimage(block_ads_hashes@)),
        }).root_of(),
{
    let ads_hash = compute_multi_ads_hash(block_ads_hashes);
    let mut state = blake2();
    state.update(id_set_root_hash.as_bytes());
    state.update(id_tree_root_hash.as_bytes());
    state.update(ads_hash.as_bytes());
    proof {
        assert(state@ =~= id_set_root_hash@ + id_tree_root_hash@ + ads_hash@);
    }
    state.finalize()
}

/// Hash over the roots of the range indexes of a window, in ascending order
/// of dimension.
pub fn bplus_roots_hash(hashes: &BTreeMap<u8, Digest>) -> (d: Digest)
    ensures
        d == Digest::hash_of(bplus_roots_preimage(hashes@)),
{
    let mut state = blake2();
    let entries = entries_u8(hashes);
    let ghost chunks = dim_chunks(hashes@);
    let ghost keys = Seq::new(entries@.len(), |i: int| entries@[i].0 as int);
    let mut n: usize = 0;
    while n < entries.len()
        invariant
            n <= entries.len(),
            chunks == dim_chunks(hashes@),
            keys == Seq::new(entries@.len(), |i: int| entries@[i].0 as int),
            forall|i: int|
                0 <= i < entries@.len() ==> hashes@.contains_key((#[trigger] entries@[i]).0)
                    && hashes@[entries@[i].0] == *entries@[i].1,
            state@ == joined_along(chunks, keys.take(n as int)),
        decreases entries.len() - n,
    {
        let (dim, hash) = entries[n];
        state.update(hash.as_bytes());
        proof {
            let done = keys.take(n + 1);
            assert(done.drop_last() =~= keys.take(n as int));
            assert(done.last() == dim as int);
        }
        n += 1;
    }
    proof {
        assert(keys.take(keys.len() as int) =~= keys);
        assert forall|k: int| 0 <= k < 256 && #[trigger] chunks.contains_key(k) implies exists|
            i: int,
        | 0 <= i < keys.len() && keys[i] == k by {
            assert(hashes@.contains_key(k as u8));
            let i = choose|i: int| 0 <= i < entries@.len() && entries@[i].0 == k as u8;
            assert(keys[i] == k);
        }
        lemma_joined_along_ascending(chunks, keys, 0, 256);
    }
    state.finalize()
}

/// The hash of one window: over the hash of its range-index roots and the
/// root of its keyword index.
pub fn ads_hash(bplus_hash: Digest, trie_hash: Digest) -> (d: Digest)
    ensures
        d == Digest::hash_of(bplus_hash@ + trie_hash@),
{
    let mut state = blake2();
    state.update(bplus_hash.as_bytes());
    state.update(trie_hash.as_bytes());
    state.finalize()
}

/// The hash under which an object stands in the id tree: over the
/// little-endian bytes of its position and the digest of the object.
pub fn obj_hash(obj_digest: &Digest, id: &ObjId) -> (d: Digest)
    ensures
        d == Digest::hash_of(u32_le_bytes((id@ - 1) as u32) + obj_digest@),
{
    let mut state = blake2();
    state.update(&u32_to_le_bytes(id.to_internal_id().0));
    state.update(obj_digest.as_bytes());
    state.finalize()
}

/// The hash of the id tree of a block: over the digest of the id counter and
/// the hash of the tree's root node.
pub fn id_tree_root_hash(cur_obj_id_hash: Digest, id_tree_root_node_hash: Digest) -> (d: Digest)
    ensures
        d == Digest::hash_of(cur_obj_id_hash@ + id_tree_root_node_hash@),
{
    let mut state = blake2();
    state.update(cur_obj_id_hash.as_bytes());
    state.update(id_tree_root_node_hash.as_bytes());
    state.finalize()
}

} // verus!
