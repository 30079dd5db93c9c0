//! Blocks as a full node stores them and as a light verifier sees them.

pub mod block_ads;
pub mod block_ads_root;

use crate::chain::id_tree::IdTreeRoot;
use crate::digest::{
    blake2, lemma_digest_ext, lemma_u32_le_bytes_injective, u32_from_le_bytes, u32_le_bytes,
    u32_to_le_bytes, Digest, Digestible,
};
use block_ads::BlockMultiADS;
use block_ads_root::BlockADSComponents;
use vstd::prelude::*;

verus! {

/// The height of a block in the chain.
#[derive(Debug, Default, Copy, Clone, Eq, PartialEq, Ord, PartialOrd, Hash, Structural)]
pub struct Height(pub u32);

impl From<u32> for Height {
    fn from(height: u32) -> (h: Height) {
        Height(height)
    }
}

impl vstd::std_specs::convert::FromSpecImpl<u32> for Height {
    open spec fn obeys_from_spec() -> bool {
        true
    }

    open spec fn from_spec(height: u32) -> Height {
        Height(height)
    }
}

impl From<Height> for u32 {
    fn from(height: Height) -> (h: u32) {
        height.0
    }
}

impl vstd::std_specs::convert::FromSpecImpl<Height> for u32 {
    open spec fn obeys_from_spec() -> bool {
        true
    }

    open spec fn from_spec(height: Height) -> u32 {
        height.0
    }
}

/// A block as a full node stores it.
#[derive(Debug, Clone, Eq, PartialEq)]
pub struct BlockContent {
    pub blk_height: Height,
    pub prev_hash: Digest,
    pub id_tree_root: IdTreeRoot,
    pub ads: BlockMultiADS,
    pub obj_hashes: Vec<Digest>,
    pub obj_id_nums: Vec<u32>,
    /// The roots that the block's commitment is made of.
    pub ads_components: BlockADSComponents,
}

impl BlockContent {
    /// An empty block at `blk_height` that follows the block with hash
    /// `prev_hash`.
    pub fn new(blk_height: Height, prev_hash: Digest) -> (b: BlockContent)
        ensures
            b.blk_height == blk_height,
            b.prev_hash == prev_hash,
            b.id_tree_root.id_tree_root_id is None,
            b.id_tree_root.id_tree_root_hash == Digest::zero(),
            b.ads.window_hashes@ == Map::<u16, Digest>::empty(),
            b.obj_hashes@ == Seq::<Digest>::empty(),
            b.obj_id_nums@ == Seq::<u32>::empty(),
            b.ads_components.id_set_root_hash == Digest::zero(),
            b.ads_components.id_tree_root_hash == Digest::zero(),
            b.ads_components.multi_ads_hash == Digest::zero(),
    {
        BlockContent {
            blk_height,
            prev_hash,
            id_tree_root: IdTreeRoot::default(),
            ads: BlockMultiADS::default(),
            obj_hashes: Vec::<Digest>::new(),
            obj_id_nums: Vec::<u32>::new(),
            ads_components: BlockADSComponents::default(),
        }
    }

    pub fn set_id_tree_root(&mut self, new_id_tree_root: IdTreeRoot)
        ensures
            *final(self) == (BlockContent { id_tree_root: new_id_tree_root, ..*old(self) }),
    {
        self.id_tree_root = new_id_tree_root;
    }

    pub fn set_multi_ads(&mut self, new_ads: BlockMultiADS)
        ensures
            *final(self) == (BlockContent { ads: new_ads, ..*old(self) }),
    {
        self.ads = new_ads;
    }

    pub fn set_obj_hashes(&mut self, new_hashes: Vec<Digest>)
        ensures
            *final(self) == (BlockContent { obj_hashes: new_hashes, ..*old(self) }),
    {
        self.obj_hashes = new_hashes;
    }

    pub fn set_obj_id_nums(&mut self, new_id_nums: Vec<u32>)
        ensures
            *final(self) == (BlockContent { obj_id_nums: new_id_nums, ..*old(self) }),
    {
        self.obj_id_nums = new_id_nums;
    }

    pub fn read_obj_id_nums(&self) -> (ids: Vec<u32>)
        ensures
            ids@ == self.obj_id_nums@,
    {
        self.obj_id_nums.clone()
    }

    pub fn set_ads_components(&mut self, components: BlockADSComponents)
        ensures
            *final(self) == (BlockContent { ads_components: components, ..*old(self) }),
    {
        self.ads_components = components;
    }

    pub fn get_ads_components(&self) -> (components: &BlockADSComponents)
        ensures
            *components == self.ads_components,
    {
        &self.ads_components
    }
}

impl Default for BlockContent {
    fn default() -> (b: BlockContent)
        ensures
            b.blk_height == Height(0),
            b.prev_hash == Digest::zero(),
            b.obj_hashes@ == Seq::<Digest>::empty(),
            b.obj_id_nums@ == Seq::<u32>::empty(),
    {
        BlockContent::new(Height(0), Digest::default())
    }
}

/// A block as a light verifier sees it.
#[derive(Debug, Clone, Copy, Eq, PartialEq)]
pub struct BlockHead {
    pub blk_height: Height,
    pub prev_hash: Digest,
    /// The unified commitment to the indexes of the block.
    pub ads_root: Digest,
    pub obj_root_hash: Digest,
}

impl BlockHead {
    /// The bytes of a head as they are hashed: the height in little-endian
    /// bytes, then the three digests.
    pub open spec fn wire_image(&self) -> Seq<u8> {
        u32_le_bytes(self.blk_height.0) + self.prev_hash@ + self.ads_root@ + self.obj_root_hash@
    }

    /// The head as it is sent: the 100 bytes of its wire image.
    pub fn to_bytes(&self) -> (bytes: Vec<u8>)
        ensures
            bytes@ == self.wire_image(),
    {
        let mut bytes: Vec<u8> = Vec::new();
        bytes.extend_from_slice(&u32_to_le_bytes(self.blk_height.0));
        bytes.extend_from_slice(self.prev_hash.as_bytes());
        bytes.extend_from_slice(self.ads_root.as_bytes());
        bytes.extend_from_slice(self.obj_root_hash.as_bytes());
        proof {
            assert(bytes@ =~= self.wire_image());
        }
        bytes
    }

    /// The head that `bytes` hold, if these are 100 bytes.
    pub fn from_bytes(bytes: &[u8]) -> (r: Option<BlockHead>)
        ensures
            r is Some <==> bytes@.len() == 100,
            r matches Some(h) ==> h.wire_image() == bytes@,
    {
        if bytes.len() != 100 {
            return None;
        }
        let h = BlockHead {
            blk_height: Height(u32_from_le_bytes(bytes, 0)),
            prev_hash: Digest::from_slice(bytes, 4),
            ads_root: Digest::from_slice(bytes, 36),
            obj_root_hash: Digest::from_slice(bytes, 68),
        };
        proof {
            assert(h.wire_image() =~= bytes@);
        }
        Some(h)
    }

    pub fn set_ads_root(&mut self, new_root: Digest)
        ensures
            *final(self) == (BlockHead { ads_root: new_root, ..*old(self) }),
    {
        self.ads_root = new_root;
    }

    pub fn set_obj_root_hash(&mut self, new_hash: Digest)
        ensures
            *final(self) == (BlockHead { obj_root_hash: new_hash, ..*old(self) }),
    {
        self.obj_root_hash = new_hash;
    }

    /// The unified commitment of the block.
    pub fn get_ads_root(&self) -> (root: Digest)
        ensures
            root == self.ads_root,
    {
        self.ads_root
    }

    /// The unified commitment of the block; the same as `get_ads_root`.
    pub fn get_ads_root_hash(&self) -> (root: Digest)
        ensures
            root == self.ads_root,
    {
        self.ads_root
    }

    /// Whether `components` are what the head's commitment was made of.
    pub fn verify_ads_components(&self, components: &BlockADSComponents) -> (ok: bool)
        ensures
            ok == (components.root_of() == self.ads_root),
    {
        components.compute_root() == self.ads_root
    }
}

/// Heads are told apart by their wire images: what was written is what is
/// read back.
pub proof fn lemma_wire_image_injective(a: BlockHead, b: BlockHead)
    requires
        a.wire_image() == b.wire_image(),
    ensures
        a == b,
{
    let p = a.wire_image();
    let q = b.wire_image();
    assert(u32_le_bytes(a.blk_height.0) =~= p.subrange(0, 4));
    assert(u32_le_bytes(b.blk_height.0) =~= q.subrange(0, 4));
    assert(a.prev_hash@ =~= p.subrange(4, 36));
    assert(b.prev_hash@ =~= q.subrange(4, 36));
    assert(a.ads_root@ =~= p.subrange(36, 68));
    assert(b.ads_root@ =~= q.subrange(36, 68));
    assert(a.obj_root_hash@ =~= p.subrange(68, 100));
    assert(b.obj_root_hash@ =~= q.subrange(68, 100));
    lemma_u32_le_bytes_injective(a.blk_height.0, b.blk_height.0);
    lemma_digest_ext(a.prev_hash, b.prev_hash);
    lemma_digest_ext(a.ads_root, b.ads_root);
    lemma_digest_ext(a.obj_root_hash, b.obj_root_hash);
}

impl Default for BlockHead {
    fn default() -> (h: BlockHead)
        ensures
            h.blk_height == Height(0),
            h.prev_hash == Digest::zero(),
            h.ads_root == Digest::zero(),
            h.obj_root_hash == Digest::zero(),
    {
        BlockHead {
            blk_height: Height(0),
            prev_hash: Digest::default(),
            ads_root: Digest::default(),
            obj_root_hash: Digest::default(),
        }
    }
}

impl Digestible for BlockHead {
    open spec fn digest_of(&self) -> Digest {
        Digest::hash_of(self.wire_image())
    }

    fn to_digest(&self) -> (d: Digest) {
        let mut state = blake2();
        state.update(&u32_to_le_bytes(self.blk_height.0));
        state.update(self.prev_hash.as_bytes());
        state.update(self.ads_root.as_bytes());
        state.update(self.obj_root_hash.as_bytes());
        proof {
            assert(state@ =~= self.wire_image());
        }
        state.finalize()
    }
}

} // verus!
