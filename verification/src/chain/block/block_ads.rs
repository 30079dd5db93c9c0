//! The index roots of a block, per time window.

use crate::chain::verify::hash::{
    ads_hash, bplus_roots_hash, bplus_roots_preimage, compute_multi_ads_hash, multi_ads_preimage,
};
use crate::digest::{Digest, Digestible};
use crate::ordered::put_u16;
use std::collections::BTreeMap;
use vstd::prelude::*;

verus! {

/// The index roots of one time window of a block.
#[derive(Debug, Clone, Eq, PartialEq)]
pub struct BlockADS {
    /// Root of the range index of each dimension.
    pub bplus_tree_roots: BTreeMap<u8, Digest>,
    /// Root of the keyword index.
    pub trie_root: Digest,
}

impl BlockADS {
    /// The hash of the window: over the hash of the range-index roots, in
    /// ascending order of dimension, and the keyword-index root.
    pub open spec fn hash_of(&self) -> Digest {
        Digest::hash_of(
            Digest::hash_of(bplus_roots_preimage(self.bplus_tree_roots@))@ + self.trie_root@,
        )
    }
}

impl Digestible for BlockADS {
    open spec fn digest_of(&self) -> Digest {
        self.hash_of()
    }

    fn to_digest(&self) -> (d: Digest) {
        ads_hash(bplus_roots_hash(&self.bplus_tree_roots), self.trie_root)
    }
}

/// The hashes of the windows of a block, by window size.
#[derive(Debug, Clone, Eq, PartialEq)]
pub struct BlockMultiADS {
    /// For each window size, the hash of that window.
    pub window_hashes: BTreeMap<u16, Digest>,
}

impl BlockMultiADS {
    /// No window.
    pub fn new() -> (m: BlockMultiADS)
        ensures
            m.window_hashes@ == Map::<u16, Digest>::empty(),
    {
        BlockMultiADS { window_hashes: BTreeMap::new() }
    }

    /// Records the hash of the window of size `window_size`.
    pub fn set_window(&mut self, window_size: u16, window: &BlockADS)
        ensures
            final(self).window_hashes@ == old(self).window_hashes@.insert(
                window_size,
                window.hash_of(),
            ),
    {
        put_u16(&mut self.window_hashes, window_size, window.to_digest());
    }
}

impl Default for BlockMultiADS {
    fn default() -> (m: BlockMultiADS)
        ensures
            m.window_hashes@ == Map::<u16, Digest>::empty(),
    {
        BlockMultiADS::new()
    }
}

impl Digestible for BlockMultiADS {
    open spec fn digest_of(&self) -> Digest {
        Digest::hash_of(multi_ads_preimage(self.window_hashes@))
    }

    fn to_digest(&self) -> (d: Digest) {
        compute_multi_ads_hash(&self.window_hashes)
    }
}

} // verus!
