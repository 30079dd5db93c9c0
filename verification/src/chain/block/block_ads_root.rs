//! The unified per-block commitment: one 32-byte root that binds the roots of
//! all the indexes of a block.

use crate::digest::{blake2, is_collision, lemma_digest_ext, Digest, Digestible};
use vstd::prelude::*;

verus! {

/// The roots that a block commitment is made of.
#[derive(Debug, Clone, Eq, PartialEq)]
pub struct BlockADSComponents {
    /// Commitment to the set of object ids of the block.
    pub id_set_root_hash: Digest,
    /// Root of the id tree.
    pub id_tree_root_hash: Digest,
    /// Hash over the per-window index roots of the block.
    pub multi_ads_hash: Digest,
}

impl BlockADSComponents {
    /// The 96 bytes that are hashed into the root: the three components in
    /// their fixed order, with nothing between them.
    pub open spec fn preimage(&self) -> Seq<u8> {
        self.id_set_root_hash@ + self.id_tree_root_hash@ + self.multi_ads_hash@
    }

    /// The root that these components commit to.
    pub open spec fn root_of(&self) -> Digest {
        Digest::hash_of(self.preimage())
    }

    pub fn new(id_set_root_hash: Digest, id_tree_root_hash: Digest, multi_ads_hash: Digest) -> (c:
        BlockADSComponents)
        ensures
            c.id_set_root_hash == id_set_root_hash,
            c.id_tree_root_hash == id_tree_root_hash,
            c.multi_ads_hash == multi_ads_hash,
    {
        BlockADSComponents { id_set_root_hash, id_tree_root_hash, multi_ads_hash }
    }

    /// The components as they are stored: the 96 bytes of the three hashes.
    pub fn to_bytes(&self) -> (bytes: Vec<u8>)
        ensures
            bytes@ == self.preimage(),
    {
        let mut bytes: Vec<u8> = Vec::new();
        bytes.extend_from_slice(self.id_set_root_hash.as_bytes());
        bytes.extend_from_slice(self.id_tree_root_hash.as_bytes());
        bytes.extend_from_slice(self.multi_ads_hash.as_bytes());
        proof {
            assert(bytes@ =~= self.preimage());
        }
        bytes
    }

    /// The components that `bytes` store, if these are 96 bytes.
    pub fn from_bytes(bytes: &[u8]) -> (r: Option<BlockADSComponents>)
        ensures
            r is Some <==> bytes@.len() == 96,
            r matches Some(c) ==> c.preimage() == bytes@,
    {
        if bytes.len() != 96 {
            return None;
        }
        let c = BlockADSComponents {
            id_set_root_hash: Digest::from_slice(bytes, 0),
            id_tree_root_hash: Digest::from_slice(bytes, 32),
            multi_ads_hash: Digest::from_slice(bytes, 64),
        };
        proof {
            assert(c.preimage() =~= bytes@);
        }
        Some(c)
    }

    /// Hashes the three components, in order, into the unified root.
    pub fn compute_root(&self) -> (root: Digest)
        ensures
            root == self.root_of(),
    {
        let mut state = blake2();
        state.update(self.id_set_root_hash.as_bytes());
        state.update(self.id_tree_root_hash.as_bytes());
        state.update(self.multi_ads_hash.as_bytes());
        proof {
            assert(state@ =~= self.preimage());
        }
        state.finalize()
    }
}

impl Default for BlockADSComponents {
    fn default() -> (c: BlockADSComponents)
        ensures
            c.id_set_root_hash == Digest::zero(),
            c.id_tree_root_hash == Digest::zero(),
            c.multi_ads_hash == Digest::zero(),
    {
        BlockADSComponents {
            id_set_root_hash: Digest::default(),
            id_tree_root_hash: Digest::default(),
            multi_ads_hash: Digest::default(),
        }
    }
}

impl Digestible for BlockADSComponents {
    open spec fn digest_of(&self) -> Digest {
        self.root_of()
    }

    fn to_digest(&self) -> (d: Digest) {
        self.compute_root()
    }
}

/// The unified commitment of a block: all a light verifier keeps of its
/// indexes.
#[derive(Debug, Clone, Eq, PartialEq)]
pub struct BlockADSRoot {
    root: Digest,
}

impl View for BlockADSRoot {
    type V = Digest;

    closed spec fn view(&self) -> Digest {
        self.root
    }
}

impl BlockADSRoot {
    /// The commitment to `components`.
    pub fn from_components(components: &BlockADSComponents) -> (r: BlockADSRoot)
        ensures
            r@ == components.root_of(),
    {
        BlockADSRoot { root: components.compute_root() }
    }

    /// A commitment whose root is already known.
    pub fn from_digest(root: Digest) -> (r: BlockADSRoot)
        ensures
            r@ == root,
    {
        BlockADSRoot { root }
    }

    pub fn root(&self) -> (root: &Digest)
        ensures
            *root == self@,
    {
        &self.root
    }

    pub fn to_digest_value(&self) -> (root: Digest)
        ensures
            root == self@,
    {
        self.root
    }

    /// Whether `components` are what this root commits to.
    pub fn verify_components(&self, components: &BlockADSComponents) -> (ok: bool)
        ensures
            ok == (components.root_of() == self@),
    {
        components.compute_root() == self.root
    }
}

impl Default for BlockADSRoot {
    fn default() -> (r: BlockADSRoot)
        ensures
            r@ == Digest::zero(),
    {
        BlockADSRoot { root: Digest::default() }
    }
}

impl Digestible for BlockADSRoot {
    open spec fn digest_of(&self) -> Digest {
        self@
    }

    fn to_digest(&self) -> (d: Digest) {
        self.root
    }
}

impl From<Digest> for BlockADSRoot {
    fn from(digest: Digest) -> (r: BlockADSRoot) {
        BlockADSRoot::from_digest(digest)
    }
}

impl vstd::std_specs::convert::FromSpecImpl<Digest> for BlockADSRoot {
    open spec fn obeys_from_spec() -> bool {
        true
    }

    closed spec fn from_spec(digest: Digest) -> BlockADSRoot {
        BlockADSRoot { root: digest }
    }
}

impl From<BlockADSRoot> for Digest {
    fn from(root: BlockADSRoot) -> (d: Digest) {
        root.root
    }
}

impl vstd::std_specs::convert::FromSpecImpl<BlockADSRoot> for Digest {
    open spec fn obeys_from_spec() -> bool {
        true
    }

    open spec fn from_spec(root: BlockADSRoot) -> Digest {
        root@
    }
}

impl From<&BlockADSComponents> for BlockADSRoot {
    fn from(components: &BlockADSComponents) -> (r: BlockADSRoot) {
        BlockADSRoot::from_components(components)
    }
}

impl vstd::std_specs::convert::FromSpecImpl<&BlockADSComponents> for BlockADSRoot {
    open spec fn obeys_from_spec() -> bool {
        true
    }

    closed spec fn from_spec(components: &BlockADSComponents) -> BlockADSRoot {
        BlockADSRoot { root: components.root_of() }
    }
}

/// Components are told apart by their preimages: the three fixed-width
/// fields can be read back from the 96 bytes.
pub proof fn lemma_preimage_injective(a: BlockADSComponents, b: BlockADSComponents)
    requires
        a.preimage() == b.preimage(),
    ensures
        a == b,
{
    let p = a.preimage();
    let q = b.preimage();
    assert(a.id_set_root_hash@ =~= p.subrange(0, 32));
    assert(b.id_set_root_hash@ =~= q.subrange(0, 32));
    assert(a.id_tree_root_hash@ =~= p.subrange(32, 64));
    assert(b.id_tree_root_hash@ =~= q.subrange(32, 64));
    assert(a.multi_ads_hash@ =~= p.subrange(64, 96));
    assert(b.multi_ads_hash@ =~= q.subrange(64, 96));
    lemma_digest_ext(a.id_set_root_hash, b.id_set_root_hash);
    lemma_digest_ext(a.id_tree_root_hash, b.id_tree_root_hash);
    lemma_digest_ext(a.multi_ads_hash, b.multi_ads_hash);
}

/// Binding: a root made from `a` accepts `b` exactly when `b` is `a`, as long
/// as the two preimages are no collision of the hash.
pub proof fn lemma_root_binds_components(a: BlockADSComponents, b: BlockADSComponents)
    requires
        !is_collision(a.preimage(), b.preimage()),
    ensures
        (b.root_of() == a.root_of()) <==> a == b,
{
    if b.root_of() == a.root_of() {
        lemma_preimage_injective(a, b);
    }
}

/// Order matters: swapping two different components changes the root, as
/// long as the two preimages are no collision of the hash.
pub proof fn lemma_root_is_order_sensitive(a: Digest, b: Digest, c: Digest)
    requires
        a != b,
        !is_collision(
            (BlockADSComponents { id_set_root_hash: a, id_tree_root_hash: b, multi_ads_hash: c })
                .preimage(),
            (BlockADSComponents { id_set_root_hash: b, id_tree_root_hash: a, multi_ads_hash: c })
                .preimage(),
        ),
    ensures
        (BlockADSComponents { id_set_root_hash: a, id_tree_root_hash: b, multi_ads_hash: c })
            .root_of() != (BlockADSComponents {
            id_set_root_hash: b,
            id_tree_root_hash: a,
            multi_ads_hash: c,
        }).root_of(),
{
    let x = BlockADSComponents { id_set_root_hash: a, id_tree_root_hash: b, multi_ads_hash: c };
    let y = BlockADSComponents { id_set_root_hash: b, id_tree_root_hash: a, multi_ads_hash: c };
    if x.root_of() == y.root_of() {
        lemma_preimage_injective(x, y);
    }
}

} // verus!
