use petgraph::graph::Graph;
use std::collections::BTreeMap;
use vchain_plus::acc::acc_value::AccValue;
use vchain_plus::acc::field::Scalar;
use vchain_plus::acc::keys::AccSecretKey;
use vchain_plus::acc::set::IdSet;
use vchain_plus::chain::block::{BlockHead, Height};
use vchain_plus::chain::id_tree::ObjId;
use vchain_plus::chain::query::query_dag::{children, DagEdge, DagNode, Range};
use vchain_plus::chain::verify::vo::{MerkleProof, VONode, VoDagContent, VO};
use vchain_plus::chain::verify::{
    check_inputs, check_outcomes, inner_verify, keys_of, plan_checks, union_of_outputs, Check,
    CheckInputs, Evidence, Outcome, VOSize, VerifyError,
};
use vchain_plus::digest::Digest;

fn blake(parts: &[&[u8]]) -> Digest {
    let mut all = Vec::new();
    for p in parts {
        all.extend_from_slice(p);
    }
    let full = <blake2::Blake2b512 as blake2::Digest>::digest(&all);
    let mut out = [0u8; 32];
    out.copy_from_slice(&full[..32]);
    Digest::from(out)
}

fn tag(t: u8) -> Digest {
    Digest::from([t; 32])
}

fn acc_of(ids: &[u32]) -> AccValue {
    let sk = AccSecretKey::new(Scalar::from_u64(5), Scalar::from_u64(9)).unwrap().into();
    AccValue::from_set_sk(&IdSet::from_slice(ids), &sk, 16).unwrap()
}

const HEIGHT: u32 = 7;
const WIN: u16 = 4;

struct Case {
    graph: Graph<DagNode, bool>,
    vo: VO<()>,
    res: BTreeMap<u32, Digest>,
    evidence: Evidence,
}

/// Two range leaves under a final union with the output set {1, 3, 5}.
fn union_case() -> Case {
    let mut graph = Graph::<DagNode, bool>::new();
    let n0 = graph.add_node(DagNode::Range {
        dim: 0,
        range: Range { lo: 1, hi: 10 },
        blk_height: Height(HEIGHT),
    });
    let n1 = graph.add_node(DagNode::Range {
        dim: 2,
        range: Range { lo: 5, hi: 6 },
        blk_height: Height(HEIGHT),
    });
    let n2 = graph.add_node(DagNode::Union);
    graph.add_edge(n2, n0, true);
    graph.add_edge(n2, n1, false);

    let mut dag_content = BTreeMap::new();
    dag_content.insert(0, VONode::Range { acc: acc_of(&[1, 3]), proof: (), win_size: WIN });
    dag_content.insert(1, VONode::Range { acc: acc_of(&[5]), proof: (), win_size: WIN });
    dag_content.insert(2, VONode::FinalUnion { proof: () });
    let mut output_sets = BTreeMap::new();
    output_sets.insert(2, IdSet::from_slice(&[1, 3, 5]));

    let mut ads_hashes = BTreeMap::new();
    ads_hashes.insert(2u16, tag(0x22));
    ads_hashes.insert(8u16, tag(0x88));
    let mut extra = BTreeMap::new();
    extra.insert(1u8, tag(0x11));
    let mut merkle_proofs = BTreeMap::new();
    merkle_proofs.insert(
        HEIGHT,
        MerkleProof {
            id_tree_root_hash: None,
            id_set_root_hash: tag(0x5e),
            ads_hashes,
            extra_bplus_rt_hashes: extra,
        },
    );
    let mut trie_proofs = BTreeMap::new();
    trie_proofs.insert(HEIGHT, ());
    let vo = VO {
        vo_dag_content: VoDagContent { output_sets, dag_content },
        trie_proofs,
        id_tree_proof: (),
        cur_obj_id: ObjId::new(6).unwrap(),
        merkle_proofs,
    };

    let mut res = BTreeMap::new();
    res.insert(1, tag(0xa1));
    res.insert(3, tag(0xa3));
    res.insert(5, tag(0xa5));

    let root0 = tag(0xd0);
    let root2 = tag(0xd2);
    let trie_root = tag(0x7e);
    let id_tree_root = tag(0x1d);

    // the commitment, put together by hand
    let bplus = blake(&[root0.as_bytes(), tag(0x11).as_bytes(), root2.as_bytes()]);
    let window = blake(&[bplus.as_bytes(), trie_root.as_bytes()]);
    let multi = blake(&[
        &[0u8, 2],
        tag(0x22).as_bytes(),
        &[0u8, 4],
        window.as_bytes(),
        &[0u8, 8],
        tag(0x88).as_bytes(),
    ]);
    let cur_id_hash = blake(&[&6u32.to_le_bytes()]);
    let id_root = blake(&[cur_id_hash.as_bytes(), id_tree_root.as_bytes()]);
    let ads_root = blake(&[tag(0x5e).as_bytes(), id_root.as_bytes(), multi.as_bytes()]);

    let mut heads = BTreeMap::new();
    heads.insert(
        HEIGHT,
        BlockHead {
            blk_height: Height(HEIGHT),
            prev_hash: Digest::default(),
            ads_root,
            obj_root_hash: Digest::default(),
        },
    );
    let mut trie_roots = BTreeMap::new();
    trie_roots.insert(HEIGHT, trie_root);
    let evidence = Evidence {
        outcomes: vec![
            Outcome::Root(root0),
            Outcome::Root(root2),
            Outcome::Passed,
            Outcome::Passed,
            Outcome::Passed,
            Outcome::Passed,
        ],
        trie_roots,
        id_tree_root,
        heads,
    };
    Case { graph, vo, res, evidence }
}

fn verdict(case: &Case) -> Result<(), VerifyError> {
    inner_verify(&case.graph, &case.vo, &case.res, &case.evidence)
}

#[test]
fn test_graph() {
    let mut dag = Graph::<u32, ()>::new();
    let idx1 = dag.add_node(1);
    let idx2 = dag.add_node(2);
    let idx3 = dag.add_node(3);
    let idx4 = dag.add_node(4);
    let idx5 = dag.add_node(5);
    let idx6 = dag.add_node(6);
    dag.extend_with_edges(&[
        (idx1, idx2),
        (idx1, idx3),
        (idx2, idx4),
        (idx2, idx5),
        (idx3, idx5),
        (idx3, idx6),
    ]);

    println!("for idx1's children: ");
    for child_idx in dag.neighbors_directed(idx1, petgraph::EdgeDirection::Outgoing) {
        println!("{:?}", child_idx);
    }
    println!("for idx2's children: ");
    for child_idx in dag.neighbors_directed(idx2, petgraph::EdgeDirection::Outgoing) {
        println!("{:?}", child_idx);
    }
    println!("for idx3's children: ");
    for child_idx in dag.neighbors_directed(idx3, petgraph::EdgeDirection::Outgoing) {
        println!("{:?}", child_idx);
    }
    assert_eq!(1, 1);
}

#[test]
fn final_union_of_two_ranges_is_accepted() {
    let case = union_case();
    let plan = plan_checks(&case.graph, &case.vo, &case.res).unwrap();
    assert_eq!(
        plan.checks,
        vec![
            Check::Range { node: 0 },
            Check::Range { node: 1 },
            Check::SetOp { node: 2, left: 0, right: 1 },
            Check::IdTree {
                id: 1,
                target_hash: blake(&[&0u32.to_le_bytes(), tag(0xa1).as_bytes()])
            },
            Check::IdTree {
                id: 3,
                target_hash: blake(&[&2u32.to_le_bytes(), tag(0xa3).as_bytes()])
            },
            Check::IdTree {
                id: 5,
                target_hash: blake(&[&4u32.to_le_bytes(), tag(0xa5).as_bytes()])
            },
        ]
    );
    assert_eq!(plan.windows.len(), 1);
    assert_eq!(plan.windows.get(&HEIGHT), Some(&WIN));
    assert!(check_outcomes(&plan.checks, &case.evidence.outcomes));
    assert_eq!(verdict(&case), Ok(()));
}

#[test]
fn result_has_to_be_exactly_the_output_set() {
    let mut missing = union_case();
    missing.res.remove(&5);
    missing.evidence.outcomes.pop();
    assert_eq!(verdict(&missing), Err(VerifyError::ResultMismatch));

    let mut added = union_case();
    added.res.insert(4, tag(0xa4));
    added.evidence.outcomes.push(Outcome::Passed);
    assert_eq!(verdict(&added), Err(VerifyError::ResultMismatch));

    let mut zero = union_case();
    zero.res.insert(0, tag(0xa0));
    assert_eq!(verdict(&zero), Err(VerifyError::ResultMismatch));
    assert_eq!(
        plan_checks(&zero.graph, &zero.vo, &zero.res).err(),
        Some(VerifyError::ResultMismatch)
    );
}

#[test]
fn a_tampered_range_root_breaks_the_commitment() {
    let mut case = union_case();
    let mut bytes = *tag(0xd0).as_bytes();
    bytes[0] ^= 1;
    case.evidence.outcomes[0] = Outcome::Root(Digest::from(bytes));
    assert_eq!(verdict(&case), Err(VerifyError::CommitmentMismatch(HEIGHT)));

    let mut other_window = union_case();
    other_window.vo.merkle_proofs.get_mut(&HEIGHT).unwrap().ads_hashes.insert(2, tag(0x23));
    assert_eq!(verdict(&other_window), Err(VerifyError::CommitmentMismatch(HEIGHT)));

    let mut other_trie = union_case();
    other_trie.evidence.trie_roots.insert(HEIGHT, tag(0x7f));
    assert_eq!(verdict(&other_trie), Err(VerifyError::CommitmentMismatch(HEIGHT)));
}

#[test]
fn the_id_tree_hash_of_the_proof_takes_the_place_of_the_computed_one() {
    let mut case = union_case();
    case.vo.merkle_proofs.get_mut(&HEIGHT).unwrap().id_tree_root_hash = Some(tag(0x99));
    assert_eq!(verdict(&case), Err(VerifyError::CommitmentMismatch(HEIGHT)));
    let cur_id_hash = blake(&[&6u32.to_le_bytes()]);
    let id_root = blake(&[cur_id_hash.as_bytes(), tag(0x1d).as_bytes()]);
    case.vo.merkle_proofs.get_mut(&HEIGHT).unwrap().id_tree_root_hash = Some(id_root);
    assert_eq!(verdict(&case), Ok(()));
}

#[test]
fn a_root_of_the_proof_takes_the_place_of_a_root_of_the_query() {
    // the Merkle proof brings a root for dimension 2 as well: it wins
    let mut case = union_case();
    case.vo
        .merkle_proofs
        .get_mut(&HEIGHT)
        .unwrap()
        .extra_bplus_rt_hashes
        .insert(2, tag(0xd2));
    case.evidence.outcomes[1] = Outcome::Root(tag(0xee));
    assert_eq!(verdict(&case), Ok(()));
}

#[test]
fn a_failed_or_missing_outcome_fails_the_proof() {
    let mut failed = union_case();
    failed.evidence.outcomes[2] = Outcome::Failed;
    assert_eq!(verdict(&failed), Err(VerifyError::ProofFailed));

    let mut no_root = union_case();
    no_root.evidence.outcomes[0] = Outcome::Passed;
    assert_eq!(verdict(&no_root), Err(VerifyError::ProofFailed));

    let mut root_for_id = union_case();
    root_for_id.evidence.outcomes[4] = Outcome::Root(tag(1));
    assert_eq!(verdict(&root_for_id), Err(VerifyError::ProofFailed));

    let mut short = union_case();
    short.evidence.outcomes.pop();
    assert_eq!(verdict(&short), Err(VerifyError::ProofFailed));
}

#[test]
fn an_unknown_head_is_a_chain_read_error() {
    let mut case = union_case();
    case.evidence.heads.clear();
    assert_eq!(verdict(&case), Err(VerifyError::ChainReadError(HEIGHT)));
}

#[test]
fn a_verification_object_that_does_not_fit_is_malformed() {
    let mut no_entry = union_case();
    no_entry.vo.vo_dag_content.dag_content.remove(&1);
    assert_eq!(verdict(&no_entry), Err(VerifyError::VoMalformed));

    let mut wrong_kind = union_case();
    wrong_kind
        .vo
        .vo_dag_content
        .dag_content
        .insert(0, VONode::BlkRt { acc: acc_of(&[1]), win_size: WIN });
    assert_eq!(verdict(&wrong_kind), Err(VerifyError::VoMalformed));

    let mut no_output = union_case();
    no_output.vo.vo_dag_content.output_sets.clear();
    assert_eq!(verdict(&no_output), Err(VerifyError::VoMalformed));

    let mut no_merkle = union_case();
    no_merkle.vo.merkle_proofs.clear();
    assert_eq!(verdict(&no_merkle), Err(VerifyError::VoMalformed));

    let mut no_trie_root = union_case();
    no_trie_root.evidence.trie_roots.clear();
    assert_eq!(verdict(&no_trie_root), Err(VerifyError::VoMalformed));

    // a malformed object is found before any outcome is looked at
    let mut both = union_case();
    both.vo.vo_dag_content.dag_content.remove(&2);
    both.evidence.outcomes[0] = Outcome::Failed;
    assert_eq!(verdict(&both), Err(VerifyError::VoMalformed));
}

fn operator_graph(op: DagNode, labels: &[(usize, bool)]) -> Graph<DagNode, bool> {
    let mut graph = Graph::<DagNode, bool>::new();
    let n0 = graph.add_node(DagNode::BlkRt { blk_height: Height(HEIGHT) });
    let n1 = graph.add_node(DagNode::BlkRt { blk_height: Height(HEIGHT) });
    let n2 = graph.add_node(op);
    let ends = [n0, n1, n2];
    for (target, first) in labels {
        graph.add_edge(n2, ends[*target], *first);
    }
    graph
}

fn operator_vo(first: AccValue, second: AccValue, op: VONode<()>) -> VO<()> {
    let mut dag_content = BTreeMap::new();
    dag_content.insert(0, VONode::BlkRt { acc: first, win_size: WIN });
    dag_content.insert(1, VONode::BlkRt { acc: second, win_size: WIN });
    dag_content.insert(2, op);
    VO {
        vo_dag_content: VoDagContent { output_sets: BTreeMap::new(), dag_content },
        trie_proofs: BTreeMap::new(),
        id_tree_proof: (),
        cur_obj_id: ObjId::new(1).unwrap(),
        merkle_proofs: BTreeMap::new(),
    }
}

fn planned(graph: &Graph<DagNode, bool>, vo: &VO<()>) -> Result<Vec<Check>, VerifyError> {
    plan_checks(graph, vo, &BTreeMap::new()).map(|p| p.checks)
}

#[test]
fn the_edge_marked_true_leads_to_the_first_child() {
    let vo = operator_vo(
        acc_of(&[1]),
        acc_of(&[2]),
        VONode::InterUnion { acc: acc_of(&[1, 2]), proof: () },
    );
    let first_then_second = operator_graph(DagNode::Union, &[(0, true), (1, false)]);
    assert_eq!(
        planned(&first_then_second, &vo),
        Ok(vec![Check::SetOp { node: 2, left: 0, right: 1 }])
    );
    let second_then_first = operator_graph(DagNode::Union, &[(0, false), (1, true)]);
    assert_eq!(
        planned(&second_then_first, &vo),
        Ok(vec![Check::SetOp { node: 2, left: 1, right: 0 }])
    );
    // the order in which the edges were added does not matter
    let added_in_reverse = operator_graph(DagNode::Union, &[(1, false), (0, true)]);
    assert_eq!(
        planned(&added_in_reverse, &vo),
        Ok(vec![Check::SetOp { node: 2, left: 0, right: 1 }])
    );
}

#[test]
fn an_operator_needs_two_ordered_children() {
    let vo = operator_vo(
        acc_of(&[1]),
        acc_of(&[2]),
        VONode::InterUnion { acc: acc_of(&[1, 2]), proof: () },
    );
    let malformed = Err(VerifyError::VoMalformed);
    assert_eq!(planned(&operator_graph(DagNode::Union, &[]), &vo), malformed);
    assert_eq!(planned(&operator_graph(DagNode::Union, &[(0, true)]), &vo), malformed);
    assert_eq!(
        planned(&operator_graph(DagNode::Union, &[(0, true), (1, true)]), &vo),
        malformed
    );
    assert_eq!(
        planned(&operator_graph(DagNode::Union, &[(0, false), (1, false)]), &vo),
        malformed
    );
    assert_eq!(
        planned(&operator_graph(DagNode::Union, &[(0, true), (0, false)]), &vo),
        malformed
    );
    assert_eq!(
        planned(&operator_graph(DagNode::Union, &[(0, true), (2, false)]), &vo),
        malformed
    );
    assert_eq!(
        planned(&operator_graph(DagNode::Union, &[(0, true), (1, false), (1, false)]), &vo),
        malformed
    );
}

#[test]
fn an_empty_child_makes_an_intersection_empty_without_a_proof() {
    let graph = operator_graph(DagNode::Intersec, &[(0, true), (1, false)]);
    let empty = AccValue::empty();
    let some = acc_of(&[1, 2]);

    let first_empty =
        operator_vo(empty, some, VONode::InterIntersec { acc: empty, proof: None });
    assert_eq!(planned(&graph, &first_empty), Ok(vec![]));
    let second_empty =
        operator_vo(some, empty, VONode::InterIntersec { acc: empty, proof: None });
    assert_eq!(planned(&graph, &second_empty), Ok(vec![]));
    let not_empty =
        operator_vo(some, empty, VONode::InterIntersec { acc: some, proof: Some(()) });
    assert_eq!(planned(&graph, &not_empty), Err(VerifyError::ProofFailed));

    let with_proof = operator_vo(
        some,
        acc_of(&[2, 3]),
        VONode::InterIntersec { acc: acc_of(&[2]), proof: Some(()) },
    );
    assert_eq!(
        planned(&graph, &with_proof),
        Ok(vec![Check::SetOp { node: 2, left: 0, right: 1 }])
    );
    let without_proof = operator_vo(
        some,
        acc_of(&[2, 3]),
        VONode::InterIntersec { acc: acc_of(&[2]), proof: None },
    );
    assert_eq!(planned(&graph, &without_proof), Err(VerifyError::VoMalformed));
}

#[test]
fn an_empty_first_child_makes_a_difference_empty_without_a_proof() {
    let graph = operator_graph(DagNode::Diff, &[(0, true), (1, false)]);
    let empty = AccValue::empty();
    let some = acc_of(&[1, 2]);

    let first_empty = operator_vo(empty, some, VONode::InterDiff { acc: empty, proof: None });
    assert_eq!(planned(&graph, &first_empty), Ok(vec![]));
    let first_empty_wrong =
        operator_vo(empty, some, VONode::InterDiff { acc: some, proof: None });
    assert_eq!(planned(&graph, &first_empty_wrong), Err(VerifyError::ProofFailed));
    // an empty second child is no short cut
    let second_empty = operator_vo(some, empty, VONode::InterDiff { acc: some, proof: None });
    assert_eq!(planned(&graph, &second_empty), Err(VerifyError::VoMalformed));
    let second_empty_proved =
        operator_vo(some, empty, VONode::InterDiff { acc: some, proof: Some(()) });
    assert_eq!(
        planned(&graph, &second_empty_proved),
        Ok(vec![Check::SetOp { node: 2, left: 0, right: 1 }])
    );
}

#[test]
fn a_child_without_an_accumulator_is_malformed() {
    let mut graph = Graph::<DagNode, bool>::new();
    let n0 = graph.add_node(DagNode::BlkRt { blk_height: Height(1) });
    let n1 = graph.add_node(DagNode::BlkRt { blk_height: Height(1) });
    let n2 = graph.add_node(DagNode::Union);
    let n3 = graph.add_node(DagNode::Diff);
    graph.add_edge(n2, n0, true);
    graph.add_edge(n2, n1, false);
    graph.add_edge(n3, n2, true);
    graph.add_edge(n3, n0, false);
    let mut vo = operator_vo(acc_of(&[1]), acc_of(&[2]), VONode::FinalUnion { proof: () });
    vo.vo_dag_content.output_sets.insert(2, IdSet::from_slice(&[1, 2]));
    vo.vo_dag_content.output_sets.insert(3, IdSet::from_slice(&[2]));
    vo.vo_dag_content.dag_content.insert(3, VONode::FinalDiff { proof: () });
    assert_eq!(planned(&graph, &vo), Err(VerifyError::VoMalformed));
    vo.vo_dag_content
        .dag_content
        .insert(2, VONode::InterUnion { acc: acc_of(&[1, 2]), proof: () });
    assert_eq!(
        planned(&graph, &vo),
        Ok(vec![
            Check::SetOp { node: 2, left: 0, right: 1 },
            Check::SetOp { node: 3, left: 2, right: 0 }
        ])
    );
}

#[test]
fn a_keyword_leaf_needs_the_keyword_proof_of_its_block() {
    let mut graph = Graph::<DagNode, bool>::new();
    graph.add_node(DagNode::Keyword { keyword: String::from("a"), blk_height: Height(3) });
    let mut dag_content = BTreeMap::new();
    dag_content.insert(0, VONode::Keyword { acc: acc_of(&[1]), win_size: 2 });
    let mut vo: VO<()> = VO {
        vo_dag_content: VoDagContent { output_sets: BTreeMap::new(), dag_content },
        trie_proofs: BTreeMap::new(),
        id_tree_proof: (),
        cur_obj_id: ObjId::new(1).unwrap(),
        merkle_proofs: BTreeMap::new(),
    };
    assert_eq!(planned(&graph, &vo), Err(VerifyError::VoMalformed));
    vo.trie_proofs.insert(3, ());
    let plan = plan_checks(&graph, &vo, &BTreeMap::new()).unwrap();
    assert_eq!(plan.checks, vec![Check::Keyword { node: 0 }]);
    assert_eq!(plan.windows.get(&3), Some(&2));
}

#[test]
fn blocks_are_checked_from_the_lowest_height_up() {
    let mut graph = Graph::<DagNode, bool>::new();
    graph.add_node(DagNode::BlkRt { blk_height: Height(9) });
    graph.add_node(DagNode::BlkRt { blk_height: Height(4) });
    let mut dag_content = BTreeMap::new();
    dag_content.insert(0, VONode::BlkRt { acc: AccValue::empty(), win_size: 2 });
    dag_content.insert(1, VONode::BlkRt { acc: AccValue::empty(), win_size: 2 });
    let proof = || MerkleProof {
        id_tree_root_hash: Some(tag(1)),
        id_set_root_hash: tag(2),
        ads_hashes: BTreeMap::new(),
        extra_bplus_rt_hashes: BTreeMap::new(),
    };
    let mut merkle_proofs = BTreeMap::new();
    merkle_proofs.insert(4, proof());
    merkle_proofs.insert(9, proof());
    let vo: VO<()> = VO {
        vo_dag_content: VoDagContent { output_sets: BTreeMap::new(), dag_content },
        trie_proofs: BTreeMap::new(),
        id_tree_proof: (),
        cur_obj_id: ObjId::new(1).unwrap(),
        merkle_proofs,
    };
    let head = |root: Digest| BlockHead {
        blk_height: Height(0),
        prev_hash: Digest::default(),
        ads_root: root,
        obj_root_hash: Digest::default(),
    };
    let mut trie_roots = BTreeMap::new();
    trie_roots.insert(4, tag(7));
    trie_roots.insert(9, tag(7));
    let bplus = blake(&[]);
    let window = blake(&[bplus.as_bytes(), tag(7).as_bytes()]);
    let multi = blake(&[&[0u8, 2], window.as_bytes()]);
    let good = blake(&[tag(2).as_bytes(), tag(1).as_bytes(), multi.as_bytes()]);
    let mut heads = BTreeMap::new();
    heads.insert(4, head(tag(0)));
    heads.insert(9, head(tag(0)));
    let mut evidence =
        Evidence { outcomes: vec![], trie_roots, id_tree_root: tag(3), heads };
    let res = BTreeMap::new();
    assert_eq!(
        inner_verify(&graph, &vo, &res, &evidence),
        Err(VerifyError::CommitmentMismatch(4))
    );
    evidence.heads.insert(4, head(good));
    assert_eq!(
        inner_verify(&graph, &vo, &res, &evidence),
        Err(VerifyError::CommitmentMismatch(9))
    );
    evidence.heads.remove(&9);
    assert_eq!(inner_verify(&graph, &vo, &res, &evidence), Err(VerifyError::ChainReadError(9)));
    evidence.heads.insert(9, head(good));
    assert_eq!(inner_verify(&graph, &vo, &res, &evidence), Ok(()));
}

#[test]
fn children_are_read_off_the_edge_list() {
    let edges = vec![
        DagEdge { source: 2, target: 1, first: true },
        DagEdge { source: 3, target: 1, first: true },
        DagEdge { source: 2, target: 0, first: false },
    ];
    assert_eq!(children(&edges, 2), Some((1, 0)));
    assert_eq!(children(&edges, 3), None);
    assert_eq!(children(&edges, 0), None);
}

#[test]
fn output_sets_are_joined_and_result_ids_collected() {
    let mut sets = BTreeMap::new();
    sets.insert(4, IdSet::from_slice(&[1, 5]));
    sets.insert(2, IdSet::from_slice(&[5, 9]));
    assert_eq!(union_of_outputs(&sets).as_slice(), &[1, 5, 9]);
    assert!(union_of_outputs(&BTreeMap::new()).is_empty());
    let mut res = BTreeMap::new();
    res.insert(8, tag(0));
    res.insert(2, tag(0));
    assert_eq!(keys_of(&res).as_slice(), &[2, 8]);
}

#[test]
fn sizes_add_part_by_part() {
    let mut total = VOSize::new(0, 0, 0, 0, 0, 0);
    total.add_assign(VOSize::new(1, 2, 3, 4, 5, 15));
    total.add_assign(VOSize::new(10, 20, 30, 40, 50, 150));
    assert_eq!(total, VOSize::new(11, 22, 33, 44, 55, 165));
}

#[test]
fn every_planned_check_has_its_inputs() {
    let case = union_case();
    let plan = plan_checks(&case.graph, &case.vo, &case.res).unwrap();
    for check in &plan.checks {
        assert!(check_inputs(&case.graph, &case.vo, check).is_some());
    }
    match check_inputs(&case.graph, &case.vo, &plan.checks[1]) {
        Some(CheckInputs::Range { range, acc, .. }) => {
            assert_eq!(range, Range { lo: 5, hi: 6 });
            assert_eq!(*acc, acc_of(&[5]));
        }
        _ => panic!("a range check has the inputs of a range check"),
    }
    match check_inputs(&case.graph, &case.vo, &plan.checks[2]) {
        Some(CheckInputs::SetOp { left, right, output, .. }) => {
            assert_eq!(*left, acc_of(&[1, 3]));
            assert_eq!(*right, acc_of(&[5]));
            assert_eq!(output.unwrap().as_slice(), &[1, 3, 5]);
        }
        _ => panic!("an operator check has the inputs of an operator check"),
    }
    match check_inputs(&case.graph, &case.vo, &plan.checks[4]) {
        Some(CheckInputs::IdTree { id, target_hash, .. }) => {
            assert_eq!(id.get(), 3);
            assert_eq!(target_hash, blake(&[&2u32.to_le_bytes(), tag(0xa3).as_bytes()]));
        }
        _ => panic!("an id check has the inputs of an id check"),
    }
    assert!(check_inputs(&case.graph, &case.vo, &Check::Range { node: 2 }).is_none());
    assert!(check_inputs(&case.graph, &case.vo, &Check::Range { node: 9 }).is_none());
    assert!(check_inputs(&case.graph, &case.vo, &Check::Keyword { node: 0 }).is_none());
    assert!(check_inputs(&case.graph, &case.vo, &Check::SetOp { node: 0, left: 0, right: 2 })
        .is_none());
    assert!(check_inputs(
        &case.graph,
        &case.vo,
        &Check::IdTree { id: 0, target_hash: tag(0) }
    )
    .is_none());

    let mut graph = Graph::<DagNode, bool>::new();
    graph.add_node(DagNode::Keyword { keyword: String::from("k"), blk_height: Height(3) });
    let mut dag_content = BTreeMap::new();
    dag_content.insert(0, VONode::Keyword { acc: acc_of(&[1]), win_size: 2 });
    let mut trie_proofs = BTreeMap::new();
    trie_proofs.insert(3, 77u8);
    let vo = VO {
        vo_dag_content: VoDagContent { output_sets: BTreeMap::new(), dag_content },
        trie_proofs,
        id_tree_proof: 0u8,
        cur_obj_id: ObjId::new(1).unwrap(),
        merkle_proofs: BTreeMap::new(),
    };
    match check_inputs(&graph, &vo, &Check::Keyword { node: 0 }) {
        Some(CheckInputs::Keyword { proof, keyword, acc }) => {
            assert_eq!(*proof, 77);
            assert_eq!(keyword, "k");
            assert_eq!(*acc, acc_of(&[1]));
        }
        _ => panic!("a keyword check has the inputs of a keyword check"),
    }
}
