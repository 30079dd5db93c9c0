//! The verification object: what a prover sends along with a query result.

use crate::acc::acc_value::{AccPoints, AccValue};
use crate::acc::set::IdSet;
use crate::chain::id_tree::ObjId;
use crate::digest::Digest;
use std::collections::BTreeMap;
use vstd::prelude::*;

verus! {

/// What the prover supplies for one node of the query graph. `P` is the
/// proof material, which the verifier hands on to the back ends unread.
#[derive(Debug, Clone)]
pub enum VONode<P> {
    /// A range leaf: the accumulator of its answer, the range proof and the
    /// size of the block's time window.
    Range { acc: AccValue, proof: P, win_size: u16 },
    /// A keyword leaf; its proof is the keyword proof of its block.
    Keyword { acc: AccValue, win_size: u16 },
    /// A block-root leaf.
    BlkRt { acc: AccValue, win_size: u16 },
    /// A union whose result feeds another operator.
    InterUnion { acc: AccValue, proof: P },
    /// A union whose result is an output set.
    FinalUnion { proof: P },
    /// An intersection whose result feeds another operator. No proof is
    /// needed where a child is empty.
    InterIntersec { acc: AccValue, proof: Option<P> },
    /// An intersection whose result is an output set.
    FinalIntersec { proof: P },
    /// A difference whose result feeds another operator. No proof is needed
    /// where the first child is empty.
    InterDiff { acc: AccValue, proof: Option<P> },
    /// A difference whose result is an output set.
    FinalDiff { proof: P },
}

impl<P> VONode<P> {
    /// The accumulator that the node carries, as its four points. Final
    /// operators carry none.
    pub open spec fn acc_of(&self) -> Option<AccPoints> {
        match self {
            VONode::Range { acc, .. } => Some(acc@),
            VONode::Keyword { acc, .. } => Some(acc@),
            VONode::BlkRt { acc, .. } => Some(acc@),
            VONode::InterUnion { acc, .. } => Some(acc@),
            VONode::InterIntersec { acc, .. } => Some(acc@),
            VONode::InterDiff { acc, .. } => Some(acc@),
            VONode::FinalUnion { .. } => None,
            VONode::FinalIntersec { .. } => None,
            VONode::FinalDiff { .. } => None,
        }
    }

    /// The accumulator that the node carries. Final operators carry none.
    pub open spec fn acc_ref(&self) -> Option<&AccValue> {
        match self {
            VONode::Range { acc, .. } => Some(acc),
            VONode::Keyword { acc, .. } => Some(acc),
            VONode::BlkRt { acc, .. } => Some(acc),
            VONode::InterUnion { acc, .. } => Some(acc),
            VONode::InterIntersec { acc, .. } => Some(acc),
            VONode::InterDiff { acc, .. } => Some(acc),
            VONode::FinalUnion { .. } => None,
            VONode::FinalIntersec { .. } => None,
            VONode::FinalDiff { .. } => None,
        }
    }

    /// The accumulator that the node carries, if it carries one.
    pub fn get_acc(&self) -> (r: Option<&AccValue>)
        ensures
            r == self.acc_ref(),
            r is Some <==> self.acc_of() is Some,
            r matches Some(acc) ==> Some(acc@) == self.acc_of(),
    {
        match self {
            VONode::Range { acc, .. } => Some(acc),
            VONode::Keyword { acc, .. } => Some(acc),
            VONode::BlkRt { acc, .. } => Some(acc),
            VONode::InterUnion { acc, .. } => Some(acc),
            VONode::InterIntersec { acc, .. } => Some(acc),
            VONode::InterDiff { acc, .. } => Some(acc),
            VONode::FinalUnion { .. } => None,
            VONode::FinalIntersec { .. } => None,
            VONode::FinalDiff { .. } => None,
        }
    }
}

/// What ties the index roots of one block to the block's commitment.
#[derive(Debug, Clone)]
pub struct MerkleProof {
    /// The hash of the id tree, where the verifier does not compute it.
    pub id_tree_root_hash: Option<Digest>,
    /// The commitment to the set of object ids of the block.
    pub id_set_root_hash: Digest,
    /// The hashes of the block's other time windows, by window size.
    pub ads_hashes: BTreeMap<u16, Digest>,
    /// The range-index roots of the dimensions that the query did not touch.
    pub extra_bplus_rt_hashes: BTreeMap<u8, Digest>,
}

/// The per-node part of a verification object.
#[derive(Debug, Clone)]
pub struct VoDagContent<P> {
    /// The output sets, by the node that yields them.
    pub output_sets: BTreeMap<u32, IdSet>,
    /// What the prover supplies for each node, by node index.
    pub dag_content: BTreeMap<u32, VONode<P>>,
}

/// A verification object.
#[derive(Debug, Clone)]
pub struct VO<P> {
    pub vo_dag_content: VoDagContent<P>,
    /// The keyword proof of each block, by height.
    pub trie_proofs: BTreeMap<u32, P>,
    /// The proof for the ids of the result.
    pub id_tree_proof: P,
    /// The id counter of the chain.
    pub cur_obj_id: ObjId,
    /// The Merkle proof of each block, by height.
    pub merkle_proofs: BTreeMap<u32, MerkleProof>,
}

} // verus!
