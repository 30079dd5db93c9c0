//! Verification of query results against block commitments.
//!
//! The proofs themselves are checked by the index and accumulator back ends.
//! What is decided here is which checks a query calls for, and what follows
//! from their outcomes: whether the verification object is well formed,
//! whether every block that the query touched commits to the roots that the
//! proofs gave, and whether the result is exactly what the proofs vouch for.

pub mod hash;
pub mod vo;

use crate::acc::acc_value::{empty_points, AccPoints, AccValue};
use crate::acc::set::IdSet;
use crate::chain::block::block_ads_root::BlockADSComponents;
use crate::chain::block::BlockHead;
use crate::chain::id_tree::ObjId;
use crate::chain::query::query_dag::{
    children, children_of, dag_edges, dag_nodes, graph_edges, graph_node, graph_node_count,
    DagEdge, DagNode, Range,
};
use crate::digest::{u32_le_bytes, Digest, Digestible};
use crate::ordered::{
    entries_u32, joined_along, joined_ascending, lemma_joined_along_ascending,
    lemma_joined_elements, lookup_u32, lookup_u8, put_u16, put_u32, put_u8,
};
use hash::{
    ads_hash, bplus_roots_hash, bplus_roots_preimage, compute_multi_ads_hash, id_tree_root_hash,
    multi_ads_preimage, obj_hash,
};
use petgraph::graph::Graph;
use std::collections::BTreeMap;
use vo::{MerkleProof, VONode, VO};
use vstd::prelude::*;

verus! {

/// How long a verification took, in microseconds.
#[derive(Debug, Default, Clone, Copy, PartialEq, Eq, Structural)]
pub struct Time {
    pub real: u64,
    pub user: u64,
    pub sys: u64,
}

/// The outcome of a successful verification.
#[derive(Debug)]
pub struct VerifyInfo {
    pub vo_size: VOSize,
    pub verify_time: Time,
}

/// The size of a verification object in bytes, by part.
#[derive(Debug, Clone, Copy, PartialEq, Eq, Structural)]
pub struct VOSize {
    pub vo_dag_s: usize,
    pub trie_proof_s: usize,
    pub id_proof_s: usize,
    pub cur_id_s: usize,
    pub merkle_s: usize,
    pub total_s: usize,
}

impl VOSize {
    pub fn new(
        vo_dag_s: usize,
        trie_proof_s: usize,
        id_proof_s: usize,
        cur_id_s: usize,
        merkle_s: usize,
        total_s: usize,
    ) -> (size: VOSize)
        ensures
            size == (VOSize { vo_dag_s, trie_proof_s, id_proof_s, cur_id_s, merkle_s, total_s }),
    {
        VOSize { vo_dag_s, trie_proof_s, id_proof_s, cur_id_s, merkle_s, total_s }
    }

    /// Whether the sizes of `self` and `other` can be added part by part.
    pub open spec fn fits(self, other: VOSize) -> bool {
        &&& self.vo_dag_s + other.vo_dag_s <= usize::MAX
        &&& self.trie_proof_s + other.trie_proof_s <= usize::MAX
        &&& self.id_proof_s + other.id_proof_s <= usize::MAX
        &&& self.cur_id_s + other.cur_id_s <= usize::MAX
        &&& self.merkle_s + other.merkle_s <= usize::MAX
        &&& self.total_s + other.total_s <= usize::MAX
    }

    /// Adds the sizes of `other`, part by part.
    pub fn add_assign(&mut self, other: VOSize)
        requires
            old(self).fits(other),
        ensures
            final(self).vo_dag_s == old(self).vo_dag_s + other.vo_dag_s,
            final(self).trie_proof_s == old(self).trie_proof_s + other.trie_proof_s,
            final(self).id_proof_s == old(self).id_proof_s + other.id_proof_s,
            final(self).cur_id_s == old(self).cur_id_s + other.cur_id_s,
            final(self).merkle_s == old(self).merkle_s + other.merkle_s,
            final(self).total_s == old(self).total_s + other.total_s,
    {
        *self = VOSize {
            vo_dag_s: self.vo_dag_s + other.vo_dag_s,
            trie_proof_s: self.trie_proof_s + other.trie_proof_s,
            id_proof_s: self.id_proof_s + other.id_proof_s,
            cur_id_s: self.cur_id_s + other.cur_id_s,
            merkle_s: self.merkle_s + other.merkle_s,
            total_s: self.total_s + other.total_s,
        };
    }
}

/// Why a verification failed.
#[derive(Debug, Clone, Copy, PartialEq, Eq, Structural)]
pub enum VerifyError {
    /// The verification object does not fit the query graph: a node has no
    /// entry or one of the wrong kind, an operator has no two ordered
    /// children, or a proof that is called for is missing.
    VoMalformed,
    /// A proof did not verify.
    ProofFailed,
    /// The head of the block at this height could not be had.
    ChainReadError(u32),
    /// The roots that the proofs gave for the block at this height are not
    /// what the block's head commits to.
    CommitmentMismatch(u32),
    /// The result is not exactly what the output sets hold.
    ResultMismatch,
}

/// A check that a back end has to make.
#[derive(Debug, Clone, Copy, PartialEq, Eq)]
pub enum Check {
    /// The range proof of the leaf `node`, for the node's range and
    /// accumulator.
    Range { node: u32 },
    /// The keyword proof of the block of the leaf `node`, for the node's
    /// keyword and accumulator.
    Keyword { node: u32 },
    /// The proof of the operator `node`, for the accumulators of its first
    /// child `left` and its second child `right`, and for the operator's own
    /// accumulator or output set.
    SetOp { node: u32, left: u32, right: u32 },
    /// The id-tree proof, for the object `id` with the hash `target_hash`.
    IdTree { id: u32, target_hash: Digest },
}

/// What a back end found.
#[derive(Debug, Clone, Copy, PartialEq, Eq)]
pub enum Outcome {
    /// The proof did not verify.
    Failed,
    /// The proof verified.
    Passed,
    /// The range proof verified, and this is the root it is bound to.
    Root(Digest),
}

/// What a node of the query graph contributes to a verification.
pub struct NodeStep {
    /// The check that the node calls for, if any.
    pub check: Option<Check>,
    /// The block that the node touches and the size of its time window.
    pub window: Option<(u32, u16)>,
}

/// What the nodes of a query graph contribute together.
pub struct Walk {
    /// The checks to make, in the order of the nodes.
    pub checks: Seq<Check>,
    /// The blocks that the query touches, with their time windows.
    pub windows: Map<u32, u16>,
}

/// The checks to make and the blocks that the query touches.
#[derive(Debug, Clone)]
pub struct Plan {
    /// The checks, in the order in which their outcomes are expected.
    pub checks: Vec<Check>,
    /// The time window of each block that the query touches, by height.
    pub windows: BTreeMap<u32, u16>,
}

/// What the back ends and the chain report.
#[derive(Debug, Clone)]
pub struct Evidence {
    /// The outcome of each check of the plan, in the order of the plan.
    pub outcomes: Vec<Outcome>,
    /// The root of the keyword proof of each block, by height.
    pub trie_roots: BTreeMap<u32, Digest>,
    /// The root of the id-tree proof.
    pub id_tree_root: Digest,
    /// The head of each block that the query touches, by height.
    pub heads: BTreeMap<u32, BlockHead>,
}

/// The children of the operator `node` with their accumulators: the node has
/// two ordered children, both have entries, and both entries carry an
/// accumulator.
pub open spec fn child_accs<P>(edges: Seq<DagEdge>, vo: VO<P>, node: u32) -> Option<
    (u32, u32, AccPoints, AccPoints),
> {
    let content = vo.vo_dag_content.dag_content@;
    match children_of(edges, node) {
        None => None,
        Some((left, right)) => {
            if content.contains_key(left) && content.contains_key(right) {
                match (content[left].acc_of(), content[right].acc_of()) {
                    (Some(a), Some(b)) => Some((left, right, a, b)),
                    _ => None,
                }
            } else {
                None
            }
        },
    }
}

/// What an operator with a proof contributes: the check of its proof on
/// its two children.
pub open spec fn operator_step<P>(edges: Seq<DagEdge>, vo: VO<P>, node: u32) -> Result<
    NodeStep,
    VerifyError,
> {
    match child_accs(edges, vo, node) {
        None => Err(VerifyError::VoMalformed),
        Some((left, right, _, _)) => Ok(
            NodeStep { check: Some(Check::SetOp { node, left, right }), window: None },
        ),
    }
}

/// What a final operator contributes: as an operator with a proof, and its
/// output set has to be there.
pub open spec fn final_step<P>(edges: Seq<DagEdge>, vo: VO<P>, node: u32) -> Result<
    NodeStep,
    VerifyError,
> {
    if vo.vo_dag_content.output_sets@.contains_key(node) {
        operator_step(edges, vo, node)
    } else {
        Err(VerifyError::VoMalformed)
    }
}

/// What an operator contributes whose result is empty as soon as `empties`
/// says so of its children: then the operator's own accumulator has to be
/// empty, and nothing is left to check; else its proof has to be there.
pub open spec fn short_circuit_step<P>(
    edges: Seq<DagEdge>,
    vo: VO<P>,
    node: u32,
    acc: AccPoints,
    has_proof: bool,
    either: bool,
) -> Result<NodeStep, VerifyError> {
    match child_accs(edges, vo, node) {
        None => Err(VerifyError::VoMalformed),
        Some((left, right, a, b)) => {
            if a == empty_points() || (either && b == empty_points()) {
                if acc == empty_points() {
                    Ok(NodeStep { check: None, window: None })
                } else {
                    Err(VerifyError::ProofFailed)
                }
            } else if has_proof {
                Ok(NodeStep { check: Some(Check::SetOp { node, left, right }), window: None })
            } else {
                Err(VerifyError::VoMalformed)
            }
        },
    }
}

/// What the node `node` contributes, or why the verification object does
/// not fit it.
pub open spec fn node_step<P>(nodes: Seq<DagNode>, edges: Seq<DagEdge>, vo: VO<P>, node: u32)
    -> Result<NodeStep, VerifyError>
    recommends
        node < nodes.len(),
{
    let content = vo.vo_dag_content.dag_content@;
    if !content.contains_key(node) {
        Err(VerifyError::VoMalformed)
    } else {
        match (nodes[node as int], content[node]) {
            (DagNode::Range { blk_height, .. }, VONode::Range { win_size, .. }) => Ok(
                NodeStep {
                    check: Some(Check::Range { node }),
                    window: Some((blk_height.0, win_size)),
                },
            ),
            (DagNode::Keyword { blk_height, .. }, VONode::Keyword { win_size, .. }) => {
                if vo.trie_proofs@.contains_key(blk_height.0) {
                    Ok(
                        NodeStep {
                            check: Some(Check::Keyword { node }),
                            window: Some((blk_height.0, win_size)),
                        },
                    )
                } else {
                    Err(VerifyError::VoMalformed)
                }
            },
            (DagNode::BlkRt { blk_height }, VONode::BlkRt { win_size, .. }) => Ok(
                NodeStep { check: None, window: Some((blk_height.0, win_size)) },
            ),
            (DagNode::Union, VONode::InterUnion { .. }) => operator_step(edges, vo, node),
            (DagNode::Union, VONode::FinalUnion { .. }) => final_step(edges, vo, node),
            (DagNode::Intersec, VONode::InterIntersec { acc, proof }) => short_circuit_step(
                edges,
                vo,
                node,
                acc@,
                proof is Some,
                true,
            ),
            (DagNode::Intersec, VONode::FinalIntersec { .. }) => final_step(edges, vo, node),
            (DagNode::Diff, VONode::InterDiff { acc, proof }) => short_circuit_step(
                edges,
                vo,
                node,
                acc@,
                proof is Some,
                false,
            ),
            (DagNode::Diff, VONode::FinalDiff { .. }) => final_step(edges, vo, node),
            _ => Err(VerifyError::VoMalformed),
        }
    }
}

/// What the first `k` nodes contribute, or the error of the first node among
/// them that has one.
pub open spec fn walk<P>(nodes: Seq<DagNode>, edges: Seq<DagEdge>, vo: VO<P>, k: nat) -> Result<
    Walk,
    VerifyError,
>
    decreases k,
{
    if k == 0 {
        Ok(Walk { checks: Seq::empty(), windows: Map::empty() })
    } else {
        match walk(nodes, edges, vo, (k - 1) as nat) {
            Err(e) => Err(e),
            Ok(w) => match node_step(nodes, edges, vo, (k - 1) as u32) {
                Err(e) => Err(e),
                Ok(step) => Ok(
                    Walk {
                        checks: match step.check {
                            Some(c) => w.checks.push(c),
                            None => w.checks,
                        },
                        windows: match step.window {
                            Some((h, win)) => w.windows.insert(h, win),
                            None => w.windows,
                        },
                    },
                ),
            },
        }
    }
}

/// The hash under which the object `id` with the digest `obj_digest` stands
/// in the id tree.
pub open spec fn target_hash_of(id: u32, obj_digest: Digest) -> Digest {
    Digest::hash_of(u32_le_bytes((id - 1) as u32) + obj_digest@)
}

/// The id-tree check of each object of a result.
pub open spec fn id_check_chunks(res: Map<u32, Digest>) -> Map<int, Seq<Check>> {
    Map::new(
        |k: int| 1 <= k < 0x1_0000_0000 && res.contains_key(k as u32),
        |k: int| seq![Check::IdTree { id: k as u32, target_hash: target_hash_of(k as u32, res[k as u32]) }],
    )
}

/// The id-tree checks of a result, in ascending order of the ids.
pub open spec fn id_checks(res: Map<u32, Digest>) -> Seq<Check> {
    joined_ascending(id_check_chunks(res), 1, 0x1_0000_0000)
}

/// The plan of a verification: what all nodes contribute, then the id-tree
/// checks of the result. A result with the id 0 matches nothing.
pub open spec fn plan_of<P>(
    nodes: Seq<DagNode>,
    edges: Seq<DagEdge>,
    vo: VO<P>,
    res: Map<u32, Digest>,
) -> Result<Walk, VerifyError> {
    if nodes.len() > u32::MAX {
        Err(VerifyError::VoMalformed)
    } else {
        match walk(nodes, edges, vo, nodes.len()) {
            Err(e) => Err(e),
            Ok(w) => if res.contains_key(0) {
                Err(VerifyError::ResultMismatch)
            } else {
                Ok(Walk { checks: w.checks + id_checks(res), windows: w.windows })
            },
        }
    }
}

/// What a back end is handed to make a check.
pub enum CheckInputs<'a, P> {
    /// The range proof of a leaf, the range it is for and the accumulator
    /// of the leaf.
    Range { proof: &'a P, range: Range, acc: &'a AccValue },
    /// The keyword proof of a block, the keyword it is for and the
    /// accumulator of the leaf.
    Keyword { proof: &'a P, keyword: &'a String, acc: &'a AccValue },
    /// The entry of an operator with its proof, the accumulators of its
    /// first and second child, and its output set where it has one.
    SetOp {
        operator: &'a VONode<P>,
        left: &'a AccValue,
        right: &'a AccValue,
        output: Option<&'a IdSet>,
    },
    /// The id-tree proof, the id it is for and the hash that has to stand
    /// there.
    IdTree { proof: &'a P, id: ObjId, target_hash: Digest },
}

/// What the check `check` is made on, if it fits the query and the
/// verification object.
pub open spec fn inputs_of<'a, P>(nodes: Seq<DagNode>, vo: &'a VO<P>, check: Check) -> Option<
    CheckInputs<'a, P>,
> {
    let content = vo.vo_dag_content.dag_content@;
    match check {
        Check::Range { node } => {
            if node < nodes.len() && content.contains_key(node) {
                match (nodes[node as int], &content[node]) {
                    (DagNode::Range { range, .. }, VONode::Range { acc, proof, .. }) => Some(
                        CheckInputs::Range { proof, range, acc },
                    ),
                    _ => None,
                }
            } else {
                None
            }
        },
        Check::Keyword { node } => {
            if node < nodes.len() && content.contains_key(node) {
                match (&nodes[node as int], &content[node]) {
                    (DagNode::Keyword { keyword, blk_height }, VONode::Keyword { acc, .. }) => {
                        if vo.trie_proofs@.contains_key(blk_height.0) {
                            Some(
                                CheckInputs::Keyword {
                                    proof: &vo.trie_proofs@[blk_height.0],
                                    keyword,
                                    acc,
                                },
                            )
                        } else {
                            None
                        }
                    },
                    _ => None,
                }
            } else {
                None
            }
        },
        Check::SetOp { node, left, right } => {
            if content.contains_key(node) && content.contains_key(left) && content.contains_key(
                right,
            ) {
                match (content[left].acc_ref(), content[right].acc_ref()) {
                    (Some(a), Some(b)) => Some(
                        CheckInputs::SetOp {
                            operator: &content[node],
                            left: a,
                            right: b,
                            output: if vo.vo_dag_content.output_sets@.contains_key(node) {
                                Some(&vo.vo_dag_content.output_sets@[node])
                            } else {
                                None
                            },
                        },
                    ),
                    _ => None,
                }
            } else {
                None
            }
        },
        Check::IdTree { id, target_hash } => {
            if id >= 1 {
                Some(
                    CheckInputs::IdTree {
                        proof: &vo.id_tree_proof,
                        id: ObjId::of(id),
                        target_hash,
                    },
                )
            } else {
                None
            }
        },
    }
}

/// Whether `outcome` lets `check` pass: a range check has to come with the
/// root that its proof is bound to, any other check has to pass.
pub open spec fn passes(check: Check, outcome: Outcome) -> bool {
    match check {
        Check::Range { .. } => outcome is Root,
        _ => outcome is Passed,
    }
}

/// Whether there is an outcome for every check, and every check passes.
pub open spec fn all_pass(checks: Seq<Check>, outcomes: Seq<Outcome>) -> bool {
    &&& outcomes.len() == checks.len()
    &&& forall|j: int| 0 <= j < checks.len() ==> passes(#[trigger] checks[j], outcomes[j])
}

/// The roots that the range proofs among the first `k` checks gave for the
/// block at height `h`, by dimension. A later proof for a dimension takes
/// the place of an earlier one.
pub open spec fn range_roots(
    nodes: Seq<DagNode>,
    checks: Seq<Check>,
    outcomes: Seq<Outcome>,
    h: u32,
    k: nat,
) -> Map<u8, Digest>
    decreases k,
{
    if k == 0 {
        Map::empty()
    } else {
        let rest = range_roots(nodes, checks, outcomes, h, (k - 1) as nat);
        match (checks[k - 1], outcomes[k - 1]) {
            (Check::Range { node }, Outcome::Root(root)) => {
                if node < nodes.len() {
                    match nodes[node as int] {
                        DagNode::Range { dim, blk_height, .. } => {
                            if blk_height.0 == h {
                                rest.insert(dim, root)
                            } else {
                                rest
                            }
                        },
                        _ => rest,
                    }
                } else {
                    rest
                }
            },
            _ => rest,
        }
    }
}

/// The commitment that the proofs give for one block: the range-index roots
/// that the proofs gave, completed by the roots of the dimensions that the
/// query did not touch, are hashed with the keyword-index root into the hash
/// of the block's window; that hash, with the hashes of the block's other
/// windows, gives the hash over all windows; and that hash, with the two id
/// hashes, gives the root.
pub open spec fn block_root(
    proof: MerkleProof,
    roots: Map<u8, Digest>,
    trie_root: Digest,
    win: u16,
    cur_obj_id: ObjId,
    id_tree_root: Digest,
) -> Digest {
    let bplus = roots.union_prefer_right(proof.extra_bplus_rt_hashes@);
    let window_hash = Digest::hash_of(
        Digest::hash_of(bplus_roots_preimage(bplus))@ + trie_root@,
    );
    let multi = Digest::hash_of(multi_ads_preimage(proof.ads_hashes@.insert(win, window_hash)));
    let id_root = match proof.id_tree_root_hash {
        Some(d) => d,
        None => Digest::hash_of(cur_obj_id.digest_of()@ + id_tree_root@),
    };
    (BlockADSComponents {
        id_set_root_hash: proof.id_set_root_hash,
        id_tree_root_hash: id_root,
        multi_ads_hash: multi,
    }).root_of()
}

/// Whether the block at height `h`, with the time window `win`, commits to
/// what the proofs gave; if not, why.
pub open spec fn block_verdict<P>(
    vo: VO<P>,
    trie_roots: Map<u32, Digest>,
    id_tree_root: Digest,
    heads: Map<u32, BlockHead>,
    roots: Map<u8, Digest>,
    h: u32,
    win: u16,
) -> Result<(), VerifyError> {
    if !vo.merkle_proofs@.contains_key(h) || !trie_roots.contains_key(h) {
        Err(VerifyError::VoMalformed)
    } else if !heads.contains_key(h) {
        Err(VerifyError::ChainReadError(h))
    } else if block_root(
        vo.merkle_proofs@[h],
        roots,
        trie_roots[h],
        win,
        vo.cur_obj_id,
        id_tree_root,
    ) != heads[h].ads_root {
        Err(VerifyError::CommitmentMismatch(h))
    } else {
        Ok(())
    }
}

/// The verdict on the block at height `h` of a planned verification.
pub open spec fn planned_block_verdict<P>(
    nodes: Seq<DagNode>,
    vo: VO<P>,
    plan: Walk,
    outcomes: Seq<Outcome>,
    trie_roots: Map<u32, Digest>,
    id_tree_root: Digest,
    heads: Map<u32, BlockHead>,
    h: u32,
) -> Result<(), VerifyError> {
    block_verdict(
        vo,
        trie_roots,
        id_tree_root,
        heads,
        range_roots(nodes, plan.checks, outcomes, h, plan.checks.len()),
        h,
        plan.windows[h],
    )
}

/// All ids that the output sets hold.
pub open spec fn output_union(sets: Map<u32, IdSet>) -> Set<u32> {
    Set::new(|x: u32| exists|k: u32| sets.contains_key(k) && #[trigger] sets[k]@.contains(x))
}

/// Whether a verification accepts: the verification object fits the query,
/// every check passes, every block that the query touches commits to what
/// the proofs gave, and the ids of the result are exactly the ids of the
/// output sets.
pub open spec fn accepted<P>(
    nodes: Seq<DagNode>,
    edges: Seq<DagEdge>,
    vo: VO<P>,
    res: Map<u32, Digest>,
    outcomes: Seq<Outcome>,
    trie_roots: Map<u32, Digest>,
    id_tree_root: Digest,
    heads: Map<u32, BlockHead>,
) -> bool {
    match plan_of(nodes, edges, vo, res) {
        Err(_) => false,
        Ok(plan) => {
            &&& all_pass(plan.checks, outcomes)
            &&& forall|h: u32| #[trigger]
                plan.windows.contains_key(h) ==> planned_block_verdict(
                    nodes,
                    vo,
                    plan,
                    outcomes,
                    trie_roots,
                    id_tree_root,
                    heads,
                    h,
                ) is Ok
            &&& output_union(vo.vo_dag_content.output_sets@) == res.dom()
        },
    }
}

/// Whether a verification rejects with the error `e`. The plan's error
/// comes first, then a check that does not pass, then the error of the
/// lowest block that has one, then a result that does not match.
pub open spec fn rejected<P>(
    nodes: Seq<DagNode>,
    edges: Seq<DagEdge>,
    vo: VO<P>,
    res: Map<u32, Digest>,
    outcomes: Seq<Outcome>,
    trie_roots: Map<u32, Digest>,
    id_tree_root: Digest,
    heads: Map<u32, BlockHead>,
    e: VerifyError,
) -> bool {
    match plan_of(nodes, edges, vo, res) {
        Err(plan_error) => e == plan_error,
        Ok(plan) => {
            if !all_pass(plan.checks, outcomes) {
                e == VerifyError::ProofFailed
            } else if exists|h: u32| #[trigger]
                plan.windows.contains_key(h) && planned_block_verdict(
                    nodes,
                    vo,
                    plan,
                    outcomes,
                    trie_roots,
                    id_tree_root,
                    heads,
                    h,
                ) is Err {
                exists|h: u32|
                    {
                        &&& #[trigger] plan.windows.contains_key(h)
                        &&& planned_block_verdict(
                            nodes,
                            vo,
                            plan,
                            outcomes,
                            trie_roots,
                            id_tree_root,
                            heads,
                            h,
                        ) == Err::<(), VerifyError>(e)
                        &&& forall|lower: u32|
                            lower < h && #[trigger] plan.windows.contains_key(lower)
                                ==> planned_block_verdict(
                                nodes,
                                vo,
                                plan,
                                outcomes,
                                trie_roots,
                                id_tree_root,
                                heads,
                                lower,
                            ) is Ok
                    }
            } else {
                &&& output_union(vo.vo_dag_content.output_sets@) != res.dom()
                &&& e == VerifyError::ResultMismatch
            }
        },
    }
}

/// The children of the operator `node` with their accumulators.
fn child_accs_of<'a, P>(edges: &Vec<DagEdge>, vo: &'a VO<P>, node: u32) -> (r: Option<
    (u32, u32, &'a AccValue, &'a AccValue),
>)
    ensures
        match r {
            Some((left, right, a, b)) => child_accs(edges@, *vo, node) == Some(
                (left, right, a@, b@),
            ),
            None => child_accs(edges@, *vo, node) is None,
        },
{
    match children(edges, node) {
        None => None,
        Some((left, right)) => {
            let l = lookup_u32(&vo.vo_dag_content.dag_content, left);
            let r = lookup_u32(&vo.vo_dag_content.dag_content, right);
            match (l, r) {
                (Some(ln), Some(rn)) => match (ln.get_acc(), rn.get_acc()) {
                    (Some(a), Some(b)) => Some((left, right, a, b)),
                    _ => None,
                },
                _ => None,
            }
        },
    }
}

/// What an operator with a proof contributes.
fn plan_operator<P>(edges: &Vec<DagEdge>, vo: &VO<P>, node: u32) -> (r: Result<
    (Option<Check>, Option<(u32, u16)>),
    VerifyError,
>)
    ensures
        match r {
            Ok((check, window)) => operator_step(edges@, *vo, node) == Ok::<NodeStep, VerifyError>(
                NodeStep { check, window },
            ),
            Err(e) => operator_step(edges@, *vo, node) == Err::<NodeStep, VerifyError>(e),
        },
{
    match child_accs_of(edges, vo, node) {
        None => Err(VerifyError::VoMalformed),
        Some((left, right, _, _)) => Ok((Some(Check::SetOp { node, left, right }), None)),
    }
}

/// What a final operator contributes.
fn plan_final<P>(edges: &Vec<DagEdge>, vo: &VO<P>, node: u32) -> (r: Result<
    (Option<Check>, Option<(u32, u16)>),
    VerifyError,
>)
    ensures
        match r {
            Ok((check, window)) => final_step(edges@, *vo, node) == Ok::<NodeStep, VerifyError>(
                NodeStep { check, window },
            ),
            Err(e) => final_step(edges@, *vo, node) == Err::<NodeStep, VerifyError>(e),
        },
{
    if lookup_u32(&vo.vo_dag_content.output_sets, node).is_some() {
        plan_operator(edges, vo, node)
    } else {
        Err(VerifyError::VoMalformed)
    }
}

/// What an operator contributes whose result may be empty without a proof.
fn plan_short_circuit<P>(
    edges: &Vec<DagEdge>,
    vo: &VO<P>,
    node: u32,
    acc: &AccValue,
    has_proof: bool,
    either: bool,
    empty: &AccValue,
) -> (r: Result<(Option<Check>, Option<(u32, u16)>), VerifyError>)
    requires
        empty@ == empty_points(),
    ensures
        match r {
            Ok((check, window)) => short_circuit_step(edges@, *vo, node, acc@, has_proof, either)
                == Ok::<NodeStep, VerifyError>(NodeStep { check, window }),
            Err(e) => short_circuit_step(edges@, *vo, node, acc@, has_proof, either) == Err::<
                NodeStep,
                VerifyError,
            >(e),
        },
{
    match child_accs_of(edges, vo, node) {
        None => Err(VerifyError::VoMalformed),
        Some((left, right, a, b)) => {
            if a.same(empty) || (either && b.same(empty)) {
                if acc.same(empty) {
                    Ok((None, None))
                } else {
                    Err(VerifyError::ProofFailed)
                }
            } else if has_proof {
                Ok((Some(Check::SetOp { node, left, right }), None))
            } else {
                Err(VerifyError::VoMalformed)
            }
        },
    }
}

/// What the node `node` contributes.
fn plan_node<P>(
    dag_node: &DagNode,
    edges: &Vec<DagEdge>,
    vo: &VO<P>,
    empty: &AccValue,
    node: u32,
    Ghost(nodes): Ghost<Seq<DagNode>>,
) -> (r: Result<(Option<Check>, Option<(u32, u16)>), VerifyError>)
    requires
        node < nodes.len(),
        *dag_node == nodes[node as int],
        empty@ == empty_points(),
    ensures
        match r {
            Ok((check, window)) => node_step(nodes, edges@, *vo, node) == Ok::<NodeStep, VerifyError>(
                NodeStep { check, window },
            ),
            Err(e) => node_step(nodes, edges@, *vo, node) == Err::<NodeStep, VerifyError>(e),
        },
{
    let content = match lookup_u32(&vo.vo_dag_content.dag_content, node) {
        None => {
            return Err(VerifyError::VoMalformed);
        },
        Some(c) => c,
    };
    match dag_node {
        DagNode::Range { blk_height, .. } => match content {
            VONode::Range { win_size, .. } => Ok(
                (Some(Check::Range { node }), Some((blk_height.0, *win_size))),
            ),
            _ => Err(VerifyError::VoMalformed),
        },
        DagNode::Keyword { blk_height, .. } => match content {
            VONode::Keyword { win_size, .. } => {
                if lookup_u32(&vo.trie_proofs, blk_height.0).is_some() {
                    Ok((Some(Check::Keyword { node }), Some((blk_height.0, *win_size))))
                } else {
                    Err(VerifyError::VoMalformed)
                }
            },
            _ => Err(VerifyError::VoMalformed),
        },
        DagNode::BlkRt { blk_height } => match content {
            VONode::BlkRt { win_size, .. } => Ok((None, Some((blk_height.0, *win_size)))),
            _ => Err(VerifyError::VoMalformed),
        },
        DagNode::Union => match content {
            VONode::InterUnion { .. } => plan_operator(edges, vo, node),
            VONode::FinalUnion { .. } => plan_final(edges, vo, node),
            _ => Err(VerifyError::VoMalformed),
        },
        DagNode::Intersec => match content {
            VONode::InterIntersec { acc, proof } => plan_short_circuit(
                edges,
                vo,
                node,
                acc,
                proof.is_some(),
                true,
                empty,
            ),
            VONode::FinalIntersec { .. } => plan_final(edges, vo, node),
            _ => Err(VerifyError::VoMalformed),
        },
        DagNode::Diff => match content {
            VONode::InterDiff { acc, proof } => plan_short_circuit(
                edges,
                vo,
                node,
                acc,
                proof.is_some(),
                false,
                empty,
            ),
            VONode::FinalDiff { .. } => plan_final(edges, vo, node),
            _ => Err(VerifyError::VoMalformed),
        },
    }
}

/// The checks that a query calls for and the blocks that it touches, or why
/// the verification object does not fit the query.
pub fn plan_checks<P>(
    graph: &Graph<DagNode, bool>,
    vo: &VO<P>,
    res_content: &BTreeMap<u32, Digest>,
) -> (r: Result<Plan, VerifyError>)
    ensures
        match r {
            Ok(plan) => plan_of(dag_nodes(*graph), dag_edges(*graph), *vo, res_content@) == Ok::<
                Walk,
                VerifyError,
            >(
                Walk { checks: plan.checks@, windows: plan.windows@ },
            ),
            Err(e) => plan_of(dag_nodes(*graph), dag_edges(*graph), *vo, res_content@) == Err::<
                Walk,
                VerifyError,
            >(e),
        },
{
    let ghost nodes = dag_nodes(*graph);
    let n = graph_node_count(graph);
    if n > u32::MAX as usize {
        return Err(VerifyError::VoMalformed);
    }
    let edges = graph_edges(graph);
    let empty = AccValue::empty();
    let mut checks: Vec<Check> = Vec::new();
    let mut windows: BTreeMap<u32, u16> = BTreeMap::new();
    let mut i: usize = 0;
    while i < n
        invariant
            i <= n,
            n == nodes.len(),
            n <= u32::MAX,
            nodes == dag_nodes(*graph),
            edges@ == dag_edges(*graph),
            empty@ == empty_points(),
            walk(nodes, edges@, *vo, i as nat) == Ok::<Walk, VerifyError>(
                Walk { checks: checks@, windows: windows@ },
            ),
        decreases n - i,
    {
        let node = i as u32;
        let dag_node = match graph_node(graph, node) {
            Some(d) => d,
            None => {
                return Err(VerifyError::VoMalformed);
            },
        };
        match plan_node(dag_node, &edges, vo, &empty, node, Ghost(nodes)) {
            Err(e) => {
                proof {
                    lemma_walk_error(nodes, edges@, *vo, (i + 1) as nat, n as nat);
                }
                return Err(e);
            },
            Ok((check, window)) => {
                match check {
                    Some(c) => {
                        checks.push(c);
                    },
                    None => {},
                }
                match window {
                    Some((h, win)) => {
                        put_u32(&mut windows, h, win);
                    },
                    None => {},
                }
            },
        }
        i += 1;
    }
    if lookup_u32(res_content, 0).is_some() {
        return Err(VerifyError::ResultMismatch);
    }
    let entries = entries_u32(res_content);
    let ghost walked = checks@;
    let ghost chunks = id_check_chunks(res_content@);
    let ghost keys = Seq::new(entries@.len(), |j: int| entries@[j].0 as int);
    let mut k: usize = 0;
    while k < entries.len()
        invariant
            k <= entries.len(),
            !res_content@.contains_key(0),
            chunks == id_check_chunks(res_content@),
            keys == Seq::new(entries@.len(), |j: int| entries@[j].0 as int),
            forall|j: int|
                0 <= j < entries@.len() ==> res_content@.contains_key((#[trigger] entries@[j]).0)
                    && res_content@[entries@[j].0] == *entries@[j].1,
            checks@ == walked + joined_along(chunks, keys.take(k as int)),
        decreases entries.len() - k,
    {
        let (id, obj_digest) = entries[k];
        let obj_id = match ObjId::new(id) {
            Some(o) => o,
            None => {
                proof {
                    assert(res_content@.contains_key(entries@[k as int].0));
                }
                return Err(VerifyError::ResultMismatch);
            },
        };
        let target_hash = obj_hash(obj_digest, &obj_id);
        checks.push(Check::IdTree { id, target_hash });
        proof {
            let done = keys.take(k + 1);
            assert(done.drop_last() =~= keys.take(k as int));
            assert(done.last() == id as int);
            assert(chunks[id as int] == seq![Check::IdTree { id, target_hash }]);
            assert(checks@ =~= walked + joined_along(chunks, done));
        }
        k += 1;
    }
    proof {
        assert(keys.take(keys.len() as int) =~= keys);
        assert forall|x: int|
            1 <= x < 0x1_0000_0000 && #[trigger] chunks.contains_key(x) implies exists|j: int|
            0 <= j < keys.len() && keys[j] == x by {
            assert(res_content@.contains_key(x as u32));
            let j = choose|j: int| 0 <= j < entries@.len() && entries@[j].0 == x as u32;
            assert(keys[j] == x);
        }
        assert forall|j: int| 0 <= j < keys.len() implies 1 <= #[trigger] keys[j]
            < 0x1_0000_0000 by {
            assert(res_content@.contains_key(entries@[j].0));
        }
        lemma_joined_along_ascending(chunks, keys, 1, 0x1_0000_0000);
    }
    Ok(Plan { checks, windows })
}

/// What the check `check` is to be made on, if it fits the query and the
/// verification object.
pub fn check_inputs<'a, P>(graph: &'a Graph<DagNode, bool>, vo: &'a VO<P>, check: &Check) -> (r:
    Option<CheckInputs<'a, P>>)
    ensures
        r == inputs_of(dag_nodes(*graph), vo, *check),
{
    let content = &vo.vo_dag_content.dag_content;
    match check {
        Check::Range { node } => {
            match (graph_node(graph, *node), lookup_u32(content, *node)) {
                (Some(dag_node), Some(entry)) => match dag_node {
                    DagNode::Range { range, .. } => match entry {
                        VONode::Range { acc, proof, .. } => Some(
                            CheckInputs::Range { proof, range: *range, acc },
                        ),
                        _ => None,
                    },
                    _ => None,
                },
                _ => None,
            }
        },
        Check::Keyword { node } => {
            match (graph_node(graph, *node), lookup_u32(content, *node)) {
                (Some(dag_node), Some(entry)) => match dag_node {
                    DagNode::Keyword { keyword, blk_height } => match entry {
                        VONode::Keyword { acc, .. } => match lookup_u32(
                            &vo.trie_proofs,
                            blk_height.0,
                        ) {
                            Some(proof) => Some(CheckInputs::Keyword { proof, keyword, acc }),
                            None => None,
                        },
                        _ => None,
                    },
                    _ => None,
                },
                _ => None,
            }
        },
        Check::SetOp { node, left, right } => {
            match (
                lookup_u32(content, *node),
                lookup_u32(content, *left),
                lookup_u32(content, *right),
            ) {
                (Some(operator), Some(l), Some(r)) => match (l.get_acc(), r.get_acc()) {
                    (Some(a), Some(b)) => Some(
                        CheckInputs::SetOp {
                            operator,
                            left: a,
                            right: b,
                            output: lookup_u32(&vo.vo_dag_content.output_sets, *node),
                        },
                    ),
                    _ => None,
                },
                _ => None,
            }
        },
        Check::IdTree { id, target_hash } => match ObjId::new(*id) {
            Some(obj_id) => Some(
                CheckInputs::IdTree {
                    proof: &vo.id_tree_proof,
                    id: obj_id,
                    target_hash: *target_hash,
                },
            ),
            None => None,
        },
    }
}

/// Whether there is an outcome for every check, and every check passes.
pub fn check_outcomes(checks: &Vec<Check>, outcomes: &Vec<Outcome>) -> (ok: bool)
    ensures
        ok == all_pass(checks@, outcomes@),
{
    if checks.len() != outcomes.len() {
        return false;
    }
    let mut j: usize = 0;
    while j < checks.len()
        invariant
            j <= checks.len(),
            checks.len() == outcomes.len(),
            forall|i: int| 0 <= i < j ==> passes(#[trigger] checks@[i], outcomes@[i]),
        decreases checks.len() - j,
    {
        let pass = match checks[j] {
            Check::Range { .. } => match outcomes[j] {
                Outcome::Root(_) => true,
                _ => false,
            },
            _ => match outcomes[j] {
                Outcome::Passed => true,
                _ => false,
            },
        };
        if !pass {
            assert(!passes(checks@[j as int], outcomes@[j as int]));
            return false;
        }
        j += 1;
    }
    true
}

/// The roots that the range proofs gave for the block at height `h`.
fn collect_range_roots(
    graph: &Graph<DagNode, bool>,
    checks: &Vec<Check>,
    outcomes: &Vec<Outcome>,
    h: u32,
) -> (roots: BTreeMap<u8, Digest>)
    requires
        checks.len() == outcomes.len(),
    ensures
        roots@ == range_roots(dag_nodes(*graph), checks@, outcomes@, h, checks@.len()),
{
    let mut roots: BTreeMap<u8, Digest> = BTreeMap::new();
    let mut j: usize = 0;
    while j < checks.len()
        invariant
            j <= checks.len(),
            checks.len() == outcomes.len(),
            roots@ == range_roots(dag_nodes(*graph), checks@, outcomes@, h, j as nat),
        decreases checks.len() - j,
    {
        match checks[j] {
            Check::Range { node } => match outcomes[j] {
                Outcome::Root(root) => match graph_node(graph, node) {
                    Some(dag_node) => match dag_node {
                        DagNode::Range { dim, blk_height, .. } => {
                            if blk_height.0 == h {
                                put_u8(&mut roots, *dim, root);
                            }
                        },
                        _ => {},
                    },
                    None => {},
                },
                _ => {},
            },
            _ => {},
        }
        j += 1;
    }
    roots
}

/// The commitment that the proofs give for one block.
fn compute_block_root(
    proof: &MerkleProof,
    roots: BTreeMap<u8, Digest>,
    trie_root: Digest,
    win: u16,
    cur_obj_id: &ObjId,
    id_tree_root: Digest,
) -> (root: Digest)
    ensures
        root == block_root(*proof, roots@, trie_root, win, *cur_obj_id, id_tree_root),
{
    let ghost given = roots@;
    let ghost extra = proof.extra_bplus_rt_hashes@;
    let mut bplus = roots;
    let mut d: u16 = 0;
    while d < 256
        invariant
            d <= 256,
            extra == proof.extra_bplus_rt_hashes@,
            forall|k: u8|
                bplus@.contains_key(k) <==> given.contains_key(k) || (k < d && extra.contains_key(
                    k,
                )),
            forall|k: u8|
                bplus@.contains_key(k) ==> bplus@[k] == if k < d && extra.contains_key(k) {
                    extra[k]
                } else {
                    given[k]
                },
        decreases 256 - d,
    {
        match lookup_u8(&proof.extra_bplus_rt_hashes, d as u8) {
            Some(hash) => {
                put_u8(&mut bplus, d as u8, *hash);
            },
            None => {},
        }
        d += 1;
    }
    proof {
        assert(bplus@ =~= given.union_prefer_right(extra));
    }
    let window_hash = ads_hash(bplus_roots_hash(&bplus), trie_root);
    let mut ads_hashes = proof.ads_hashes.clone();
    put_u16(&mut ads_hashes, win, window_hash);
    let multi_ads_hash = compute_multi_ads_hash(&ads_hashes);
    let id_root_hash = match proof.id_tree_root_hash {
        Some(d) => d,
        None => id_tree_root_hash(cur_obj_id.to_digest(), id_tree_root),
    };
    let components = BlockADSComponents::new(proof.id_set_root_hash, id_root_hash, multi_ads_hash);
    components.compute_root()
}

/// Whether the block at height `h` commits to what the proofs gave.
fn check_block<P>(
    vo: &VO<P>,
    evidence: &Evidence,
    roots: BTreeMap<u8, Digest>,
    h: u32,
    win: u16,
) -> (r: Result<(), VerifyError>)
    ensures
        r == block_verdict(
            *vo,
            evidence.trie_roots@,
            evidence.id_tree_root,
            evidence.heads@,
            roots@,
            h,
            win,
        ),
{
    let proof = match lookup_u32(&vo.merkle_proofs, h) {
        Some(p) => p,
        None => {
            return Err(VerifyError::VoMalformed);
        },
    };
    let trie_root = match lookup_u32(&evidence.trie_roots, h) {
        Some(t) => *t,
        None => {
            return Err(VerifyError::VoMalformed);
        },
    };
    let head = match lookup_u32(&evidence.heads, h) {
        Some(head) => head,
        None => {
            return Err(VerifyError::ChainReadError(h));
        },
    };
    let computed = compute_block_root(
        proof,
        roots,
        trie_root,
        win,
        &vo.cur_obj_id,
        evidence.id_tree_root,
    );
    if computed == head.get_ads_root() {
        Ok(())
    } else {
        Err(VerifyError::CommitmentMismatch(h))
    }
}

/// All ids that the output sets hold.
pub fn union_of_outputs(sets: &BTreeMap<u32, IdSet>) -> (all: IdSet)
    ensures
        all@ == output_union(sets@),
{
    let entries = entries_u32(sets);
    let mut all = IdSet::new();
    let mut k: usize = 0;
    while k < entries.len()
        invariant
            k <= entries.len(),
            forall|i: int|
                0 <= i < entries@.len() ==> sets@.contains_key((#[trigger] entries@[i]).0)
                    && sets@[entries@[i].0] == *entries@[i].1,
            forall|x: u32|
                all@.contains(x) <==> exists|i: int|
                    0 <= i < k && (#[trigger] entries@[i]).1@.contains(x),
        decreases entries.len() - k,
    {
        let ghost before = all@;
        all = all.union(entries[k].1);
        proof {
            assert forall|x: u32|
                all@.contains(x) <==> exists|i: int|
                    0 <= i < k + 1 && (#[trigger] entries@[i]).1@.contains(x) by {
                if before.contains(x) {
                    let i = choose|i: int| 0 <= i < k && (#[trigger] entries@[i]).1@.contains(x);
                    assert(0 <= i < k + 1 && entries@[i].1@.contains(x));
                }
                if entries@[k as int].1@.contains(x) {
                    assert(0 <= k < k + 1 && entries@[k as int].1@.contains(x));
                }
                if exists|i: int| 0 <= i < k + 1 && (#[trigger] entries@[i]).1@.contains(x) {
                    let i = choose|i: int|
                        0 <= i < k + 1 && (#[trigger] entries@[i]).1@.contains(x);
                    if i < k {
                        assert(before.contains(x));
                    }
                }
            }
        }
        k += 1;
    }
    proof {
        assert forall|x: u32| all@.contains(x) <==> output_union(sets@).contains(x) by {
            if all@.contains(x) {
                let i = choose|i: int|
                    0 <= i < entries@.len() && (#[trigger] entries@[i]).1@.contains(x);
                let key = entries@[i].0;
                assert(sets@.contains_key(key) && sets@[key]@.contains(x));
            }
            if output_union(sets@).contains(x) {
                let key = choose|key: u32|
                    sets@.contains_key(key) && #[trigger] sets@[key]@.contains(x);
                let i = choose|i: int| 0 <= i < entries@.len() && entries@[i].0 == key;
                assert(entries@[i].1@.contains(x));
            }
        }
        assert(all@ =~= output_union(sets@));
    }
    all
}

/// The ids of a result.
pub fn keys_of(res_content: &BTreeMap<u32, Digest>) -> (keys: IdSet)
    ensures
        keys@ == res_content@.dom(),
{
    let entries = entries_u32(res_content);
    let mut keys = IdSet::new();
    let mut k: usize = 0;
    while k < entries.len()
        invariant
            k <= entries.len(),
            forall|x: u32|
                keys@.contains(x) <==> exists|i: int| 0 <= i < k && (#[trigger] entries@[i]).0 == x,
        decreases entries.len() - k,
    {
        let ghost before = keys@;
        keys.insert(entries[k].0);
        proof {
            assert forall|x: u32|
                keys@.contains(x) <==> exists|i: int|
                    0 <= i < k + 1 && (#[trigger] entries@[i]).0 == x by {
                if before.contains(x) {
                    let i = choose|i: int| 0 <= i < k && (#[trigger] entries@[i]).0 == x;
                    assert(0 <= i < k + 1 && entries@[i].0 == x);
                }
                if x == entries@[k as int].0 {
                    assert(0 <= k < k + 1 && entries@[k as int].0 == x);
                }
                if exists|i: int| 0 <= i < k + 1 && (#[trigger] entries@[i]).0 == x {
                    let i = choose|i: int| 0 <= i < k + 1 && (#[trigger] entries@[i]).0 == x;
                    if i < k {
                        assert(before.contains(x));
                    }
                }
            }
        }
        k += 1;
    }
    proof {
        assert forall|x: u32| keys@.contains(x) <==> res_content@.dom().contains(x) by {
            if keys@.contains(x) {
                let i = choose|i: int| 0 <= i < entries@.len() && (#[trigger] entries@[i]).0 == x;
                assert(res_content@.contains_key(entries@[i].0));
            }
            if res_content@.contains_key(x) {
                let i = choose|i: int| 0 <= i < entries@.len() && entries@[i].0 == x;
                assert(entries@[i].0 == x);
            }
        }
        assert(keys@ =~= res_content@.dom());
    }
    keys
}

/// Verifies a query result: plans the checks that the query calls for,
/// holds the outcomes that the back ends report against the plan, compares
/// the commitment of every block that the query touches with the roots that
/// the proofs gave, and compares the ids of the result with the output sets.
#[verifier::loop_isolation(false)]
pub fn inner_verify<P>(
    graph: &Graph<DagNode, bool>,
    vo: &VO<P>,
    res_content: &BTreeMap<u32, Digest>,
    evidence: &Evidence,
) -> (r: Result<(), VerifyError>)
    ensures
        match r {
            Ok(()) => accepted(
                dag_nodes(*graph),
                dag_edges(*graph),
                *vo,
                res_content@,
                evidence.outcomes@,
                evidence.trie_roots@,
                evidence.id_tree_root,
                evidence.heads@,
            ),
            Err(e) => rejected(
                dag_nodes(*graph),
                dag_edges(*graph),
                *vo,
                res_content@,
                evidence.outcomes@,
                evidence.trie_roots@,
                evidence.id_tree_root,
                evidence.heads@,
                e,
            ),
        },
{
    let ghost nodes = dag_nodes(*graph);
    let plan = match plan_checks(graph, vo, res_content) {
        Ok(plan) => plan,
        Err(e) => {
            return Err(e);
        },
    };
    let ghost planned = Walk { checks: plan.checks@, windows: plan.windows@ };
    if !check_outcomes(&plan.checks, &evidence.outcomes) {
        return Err(VerifyError::ProofFailed);
    }
    let windows = entries_u32(&plan.windows);
    let mut k: usize = 0;
    while k < windows.len()
        invariant
            k <= windows.len(),
            nodes == dag_nodes(*graph),
            planned == (Walk { checks: plan.checks@, windows: plan.windows@ }),
            plan.checks.len() == evidence.outcomes.len(),
            crate::ordered::lists_u32(plan.windows@, windows@),
            forall|i: int|
                0 <= i < k ==> planned_block_verdict(
                    nodes,
                    *vo,
                    planned,
                    evidence.outcomes@,
                    evidence.trie_roots@,
                    evidence.id_tree_root,
                    evidence.heads@,
                    (#[trigger] windows@[i]).0,
                ) is Ok,
        decreases windows.len() - k,
    {
        let (h, win) = windows[k];
        let roots = collect_range_roots(graph, &plan.checks, &evidence.outcomes, h);
        match check_block(vo, evidence, roots, h, *win) {
            Ok(()) => {},
            Err(e) => {
                proof {
                    assert(plan.windows@.contains_key(windows@[k as int].0));
                    assert forall|lower: u32|
                        lower < h && #[trigger] planned.windows.contains_key(
                            lower,
                        ) implies planned_block_verdict(
                        nodes,
                        *vo,
                        planned,
                        evidence.outcomes@,
                        evidence.trie_roots@,
                        evidence.id_tree_root,
                        evidence.heads@,
                        lower,
                    ) is Ok by {
                        let i = choose|i: int| 0 <= i < windows@.len() && windows@[i].0 == lower;
                        if i >= k {
                            if i > k {
                                assert(windows@[k as int].0 < windows@[i].0);
                            }
                        }
                    }
                    assert(planned.windows[h] == *win);
                    assert(planned.windows.contains_key(h));
                    assert(planned_block_verdict(
                        nodes,
                        *vo,
                        planned,
                        evidence.outcomes@,
                        evidence.trie_roots@,
                        evidence.id_tree_root,
                        evidence.heads@,
                        h,
                    ) == Err::<(), VerifyError>(e));
                }
                return Err(e);
            },
        }
        k += 1;
    }
    proof {
        assert forall|h: u32| #[trigger] planned.windows.contains_key(h) implies planned_block_verdict(
            nodes,
            *vo,
            planned,
            evidence.outcomes@,
            evidence.trie_roots@,
            evidence.id_tree_root,
            evidence.heads@,
            h,
        ) is Ok by {
            let i = choose|i: int| 0 <= i < windows@.len() && windows@[i].0 == h;
            assert(windows@[i].0 == h);
        }
    }
    let vo_outputs = union_of_outputs(&vo.vo_dag_content.output_sets);
    let res_outputs = keys_of(res_content);
    if vo_outputs.same(&res_outputs) {
        Ok(())
    } else {
        Err(VerifyError::ResultMismatch)
    }
}

/// The verdict is determined: a verification cannot both accept and reject,
/// and it cannot reject with two different errors.
pub proof fn lemma_verdict_is_determined<P>(
    nodes: Seq<DagNode>,
    edges: Seq<DagEdge>,
    vo: VO<P>,
    res: Map<u32, Digest>,
    outcomes: Seq<Outcome>,
    trie_roots: Map<u32, Digest>,
    id_tree_root: Digest,
    heads: Map<u32, BlockHead>,
    e1: VerifyError,
    e2: VerifyError,
)
    requires
        rejected(nodes, edges, vo, res, outcomes, trie_roots, id_tree_root, heads, e1),
    ensures
        !accepted(nodes, edges, vo, res, outcomes, trie_roots, id_tree_root, heads),
        rejected(nodes, edges, vo, res, outcomes, trie_roots, id_tree_root, heads, e2) ==> e1
            == e2,
{
    match plan_of(nodes, edges, vo, res) {
        Err(_) => {},
        Ok(plan) => {
            let verdict = |h: u32|
                planned_block_verdict(
                    nodes,
                    vo,
                    plan,
                    outcomes,
                    trie_roots,
                    id_tree_root,
                    heads,
                    h,
                );
            if all_pass(plan.checks, outcomes) && exists|h: u32| #[trigger]
                plan.windows.contains_key(h) && verdict(h) is Err {
                let h1 = choose|h: u32|
                    {
                        &&& #[trigger] plan.windows.contains_key(h)
                        &&& verdict(h) == Err::<(), VerifyError>(e1)
                        &&& forall|lower: u32|
                            lower < h && #[trigger] plan.windows.contains_key(lower) ==> verdict(
                                lower,
                            ) is Ok
                    };
                assert(plan.windows.contains_key(h1) && verdict(h1) is Err);
                if rejected(nodes, edges, vo, res, outcomes, trie_roots, id_tree_root, heads, e2) {
                    let h2 = choose|h: u32|
                        {
                            &&& #[trigger] plan.windows.contains_key(h)
                            &&& verdict(h) == Err::<(), VerifyError>(e2)
                            &&& forall|lower: u32|
                                lower < h && #[trigger] plan.windows.contains_key(lower)
                                    ==> verdict(lower) is Ok
                        };
                    if h1 < h2 {
                        assert(plan.windows.contains_key(h1));
                        assert(verdict(h1) is Ok);
                    } else if h2 < h1 {
                        assert(plan.windows.contains_key(h2));
                        assert(verdict(h2) is Ok);
                    }
                }
            }
        },
    }
}

/// Every check that the first `k` nodes call for can be made: it has its
/// inputs.
pub proof fn lemma_walked_checks_fit<P>(
    nodes: Seq<DagNode>,
    edges: Seq<DagEdge>,
    vo: &VO<P>,
    k: nat,
    j: int,
)
    requires
        k <= nodes.len() <= u32::MAX,
        walk(nodes, edges, *vo, k) is Ok,
        0 <= j < walk(nodes, edges, *vo, k)->Ok_0.checks.len(),
    ensures
        inputs_of(nodes, vo, walk(nodes, edges, *vo, k)->Ok_0.checks[j]) is Some,
    decreases k,
{
    if k > 0 {
        let before = walk(nodes, edges, *vo, (k - 1) as nat)->Ok_0;
        if j < before.checks.len() {
            lemma_walked_checks_fit(nodes, edges, vo, (k - 1) as nat, j);
        } else {
            let node = (k - 1) as u32;
            let step = node_step(nodes, edges, *vo, node)->Ok_0;
            let content = vo.vo_dag_content.dag_content@;
            assert(step.check is Some);
            assert(walk(nodes, edges, *vo, k)->Ok_0.checks[j] == step.check->Some_0);
            match step.check->Some_0 {
                Check::SetOp { node: n, left, right } => {
                    assert(child_accs(edges, *vo, node) is Some);
                    assert(content.contains_key(left) && content.contains_key(right));
                    assert(content[left].acc_of() is Some ==> content[left].acc_ref() is Some);
                    assert(content[right].acc_of() is Some ==> content[right].acc_ref() is Some);
                },
                _ => {},
            }
        }
    }
}

/// Every check of a plan can be made: it has its inputs.
pub proof fn lemma_planned_checks_fit<P>(
    nodes: Seq<DagNode>,
    edges: Seq<DagEdge>,
    vo: &VO<P>,
    res: Map<u32, Digest>,
    j: int,
)
    requires
        plan_of(nodes, edges, *vo, res) is Ok,
        0 <= j < plan_of(nodes, edges, *vo, res)->Ok_0.checks.len(),
    ensures
        inputs_of(nodes, vo, plan_of(nodes, edges, *vo, res)->Ok_0.checks[j]) is Some,
{
    let walked = walk(nodes, edges, *vo, nodes.len())->Ok_0;
    if j < walked.checks.len() {
        lemma_walked_checks_fit(nodes, edges, vo, nodes.len(), j);
    } else {
        lemma_joined_elements(id_check_chunks(res), 1, 0x1_0000_0000, j - walked.checks.len());
    }
}

/// Once a node has an error, the walk over any longer stretch has it too.
proof fn lemma_walk_error<P>(
    nodes: Seq<DagNode>,
    edges: Seq<DagEdge>,
    vo: VO<P>,
    k: nat,
    n: nat,
)
    requires
        k <= n,
        walk(nodes, edges, vo, k) is Err,
    ensures
        walk(nodes, edges, vo, n) == walk(nodes, edges, vo, k),
    decreases n - k,
{
    if k < n {
        lemma_walk_error(nodes, edges, vo, k, (n - 1) as nat);
    }
}

} // verus!
