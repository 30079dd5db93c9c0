//! Object ids and the root of the id tree.

use crate::digest::{Digest, Digestible};
use vstd::prelude::*;

verus! {

/// The id of an object: a number from 1 up.
#[derive(Debug, Clone, Copy)]
pub struct ObjId {
    id: u32,
}

impl View for ObjId {
    type V = u32;

    closed spec fn view(&self) -> u32 {
        self.id
    }
}

/// The position of an object in the id tree, counted from 0.
#[derive(Debug, Clone, Copy, PartialEq, Eq, Structural)]
pub struct IdTreeInternalId(pub u32);

impl ObjId {
    /// Ids start at 1.
    #[verifier::type_invariant]
    pub closed spec fn wf(self) -> bool {
        self.id >= 1
    }

    /// The id with the number `id`.
    pub closed spec fn of(id: u32) -> ObjId {
        ObjId { id }
    }

    /// The id `id`, unless it is zero.
    pub fn new(id: u32) -> (r: Option<ObjId>)
        ensures
            r is Some <==> id >= 1,
            r matches Some(o) ==> o.wf() && o@ == id && o == ObjId::of(id),
    {
        if id >= 1 {
            Some(ObjId { id })
        } else {
            None
        }
    }

    /// The number of the id.
    pub fn get(&self) -> (id: u32)
        ensures
            id == self@,
            id >= 1,
    {
        proof {
            use_type_invariant(self);
        }
        self.id
    }

    /// The position in the id tree: one less than the id.
    pub fn to_internal_id(&self) -> (r: IdTreeInternalId)
        ensures
            r.0 == self@ - 1,
    {
        proof {
            use_type_invariant(self);
        }
        IdTreeInternalId(self.id - 1)
    }
}

impl Digestible for ObjId {
    open spec fn digest_of(&self) -> Digest {
        self@.digest_of()
    }

    fn to_digest(&self) -> (d: Digest) {
        self.get().to_digest()
    }
}

/// The root of the id tree of a block, as a full node keeps it.
#[derive(Debug, Clone, Copy, Eq, PartialEq)]
pub struct IdTreeRoot {
    /// The node that is the root, if the tree has one.
    pub id_tree_root_id: Option<u32>,
    /// The hash of the root.
    pub id_tree_root_hash: Digest,
}

impl Default for IdTreeRoot {
    fn default() -> (r: IdTreeRoot)
        ensures
            r.id_tree_root_id is None,
            r.id_tree_root_hash == Digest::zero(),
    {
        IdTreeRoot { id_tree_root_id: None, id_tree_root_hash: Digest::default() }
    }
}

impl Digestible for IdTreeRoot {
    open spec fn digest_of(&self) -> Digest {
        self.id_tree_root_hash
    }

    fn to_digest(&self) -> (d: Digest) {
        self.id_tree_root_hash
    }
}

} // verus!
