use vchain_plus::chain::block::block_ads_root::{BlockADSComponents, BlockADSRoot};
use vchain_plus::chain::block::{BlockContent, BlockHead, Height};
use vchain_plus::digest::Digest;

fn mock_hash(data: &[u8]) -> Digest {
    let result = <blake2::Blake2b512 as blake2::Digest>::digest(data);
    let mut bytes = [0u8; 32];
    bytes.copy_from_slice(&result[..32]);
    Digest::from(bytes)
}

#[test]
fn test_light_node_verification_flow() {
    println!("\n=== light node verification flow ===");

    let id_set_hash = mock_hash(b"id_set_data");
    let id_tree_hash = mock_hash(b"id_tree_data");
    let multi_ads_hash = mock_hash(b"multi_ads_data");

    let ads_components = BlockADSComponents::new(id_set_hash, id_tree_hash, multi_ads_hash);

    let block_ads_root = BlockADSRoot::from_components(&ads_components);

    assert!(
        block_ads_root.verify_components(&ads_components),
        "root and components do not agree"
    );
    println!("built the root");

    let block_head = BlockHead {
        blk_height: Height(1),
        prev_hash: Digest::default(),
        ads_root: *block_ads_root.root(),
        obj_root_hash: Digest::default(),
    };

    let mut block_content = BlockContent::new(Height(1), Digest::default());
    block_content.set_ads_components(ads_components.clone());

    assert!(
        block_head.verify_ads_components(&ads_components),
        "components do not match the head's root"
    );

    println!("components match the head's root");

    assert_eq!(ads_components.id_set_root_hash, id_set_hash);
    assert_eq!(ads_components.id_tree_root_hash, id_tree_hash);
    assert_eq!(ads_components.multi_ads_hash, multi_ads_hash);

    println!("components can be read back\n");
}

#[test]
fn test_block_ads_root_lifecycle() {
    println!("\n=== life cycle of a root ===");

    let components = BlockADSComponents::new(
        mock_hash(b"component1"),
        mock_hash(b"component2"),
        mock_hash(b"component3"),
    );

    let ads_root_full = BlockADSRoot::from_components(&components);

    assert!(ads_root_full.verify_components(&components), "root and components do not agree");

    println!("built the root");

    let ads_root_digest = ads_root_full.to_digest_value();
    let stored_components = components.clone();

    println!("stored: root in the head, components in the content");

    let loaded_block_head = BlockHead {
        blk_height: Height(1),
        prev_hash: Digest::default(),
        ads_root: ads_root_digest,
        obj_root_hash: Digest::default(),
    };

    let loaded_components = stored_components;

    let reconstructed = BlockADSRoot::from_digest(loaded_block_head.ads_root);

    assert_eq!(reconstructed.root(), ads_root_full.root());
    assert_eq!(&loaded_components, &components);

    println!("rebuilt the root from what was stored");

    assert!(loaded_block_head.verify_ads_components(&loaded_components));

    println!("verified\n");
}

#[test]
fn test_malicious_components_detection() {
    println!("\n=== forged components ===");

    let correct_components = BlockADSComponents::new(
        mock_hash(b"correct1"),
        mock_hash(b"correct2"),
        mock_hash(b"correct3"),
    );

    let block_ads_root = BlockADSRoot::from_components(&correct_components);

    let block_head = BlockHead {
        blk_height: Height(1),
        prev_hash: Digest::default(),
        ads_root: *block_ads_root.root(),
        obj_root_hash: Digest::default(),
    };

    let malicious_components = BlockADSComponents::new(
        mock_hash(b"malicious1"),
        mock_hash(b"correct2"),
        mock_hash(b"correct3"),
    );

    assert!(
        !block_head.verify_ads_components(&malicious_components),
        "forged components were not found out"
    );

    println!("forged components found out");

    assert!(block_head.verify_ads_components(&correct_components));

    println!("true components accepted\n");
}

#[test]
fn test_multi_block_scenario() {
    println!("\n=== several blocks ===");

    let mut ads_roots = Vec::new();

    for i in 0..10 {
        let components = BlockADSComponents::new(
            mock_hash(format!("block{}_id_set", i).as_bytes()),
            mock_hash(format!("block{}_id_tree", i).as_bytes()),
            mock_hash(format!("block{}_multi_ads", i).as_bytes()),
        );

        let block_ads_root = BlockADSRoot::from_components(&components);

        assert!(block_ads_root.verify_components(&components));

        let ads_root = *block_ads_root.root();
        ads_roots.push(ads_root);

        assert_eq!(components.compute_root(), ads_root);
    }

    println!("made the roots of {} blocks", ads_roots.len());

    for i in 0..ads_roots.len() {
        for j in i + 1..ads_roots.len() {
            assert_ne!(ads_roots[i], ads_roots[j], "two blocks have the same root");
        }
    }

    println!("all roots differ\n");
}

#[test]
fn test_deterministic_computation() {
    println!("\n=== determinism ===");

    let components1 =
        BlockADSComponents::new(mock_hash(b"data1"), mock_hash(b"data2"), mock_hash(b"data3"));

    let components2 =
        BlockADSComponents::new(mock_hash(b"data1"), mock_hash(b"data2"), mock_hash(b"data3"));

    assert_eq!(components1.compute_root(), components2.compute_root());

    let root1 = BlockADSRoot::from_components(&components1);
    let root2 = BlockADSRoot::from_components(&components2);

    assert_eq!(root1.root(), root2.root());

    println!("same input, same output\n");
}

#[test]
fn test_component_order_matters() {
    println!("\n=== order of the components ===");

    let hash1 = mock_hash(b"hash1");
    let hash2 = mock_hash(b"hash2");
    let hash3 = mock_hash(b"hash3");

    let components_abc = BlockADSComponents::new(hash1, hash2, hash3);
    let components_bac = BlockADSComponents::new(hash2, hash1, hash3);
    let components_cab = BlockADSComponents::new(hash3, hash1, hash2);

    let root_abc = components_abc.compute_root();
    let root_bac = components_bac.compute_root();
    let root_cab = components_cab.compute_root();

    assert_ne!(root_abc, root_bac);
    assert_ne!(root_abc, root_cab);
    assert_ne!(root_bac, root_cab);

    println!("another order, another root\n");
}

#[test]
fn test_block_ads_root_creation_methods() {
    println!("\n=== ways to make a root ===");

    let components =
        BlockADSComponents::new(mock_hash(b"test1"), mock_hash(b"test2"), mock_hash(b"test3"));

    let root1 = BlockADSRoot::from_components(&components);
    println!("from_components()");

    let root2 = BlockADSRoot::from(&components);
    println!("from()");

    let root3 = BlockADSRoot::from_digest(components.compute_root());
    println!("from_digest()");

    assert_eq!(root1.root(), root2.root());
    assert_eq!(root1, root2);

    assert_eq!(root3.root(), root1.root());
    assert_ne!(BlockADSComponents::default(), components);

    println!("all ways agree\n");
}

#[test]
fn test_build_style_workflow() {
    println!("\n=== a block from building to verification ===");

    let id_set_root_hash = mock_hash(b"obj_id_nums_data");
    let id_tree_root_hash = mock_hash(b"id_tree_root_data");
    let multi_ads_hash = mock_hash(b"block_multi_ads_data");

    println!("step 1: index roots");
    println!("  - id_set_root_hash: {:?}...", &id_set_root_hash.as_bytes()[..4]);
    println!("  - id_tree_root_hash: {:?}...", &id_tree_root_hash.as_bytes()[..4]);
    println!("  - multi_ads_hash: {:?}...", &multi_ads_hash.as_bytes()[..4]);

    let ads_components =
        BlockADSComponents::new(id_set_root_hash, id_tree_root_hash, multi_ads_hash);
    println!("\nstep 2: components");

    let block_ads_root = BlockADSRoot::from_components(&ads_components);
    println!("step 3: root");

    assert!(
        block_ads_root.verify_components(&ads_components),
        "root and components do not agree"
    );
    println!("step 4: root and components agree");

    let block_head = BlockHead {
        blk_height: Height(100),
        prev_hash: mock_hash(b"prev_block"),
        ads_root: *block_ads_root.root(),
        obj_root_hash: mock_hash(b"obj_root"),
    };

    let mut block_content = BlockContent::new(Height(100), mock_hash(b"prev_block"));
    block_content.set_ads_components(ads_components.clone());

    println!("step 5: stored in head and content");
    println!("  - BlockHead.ads_root: {:?}...", &block_head.ads_root.as_bytes()[..4]);

    println!("\nstep 6: the light node verifies");

    let light_node_head = block_head.clone();

    let full_node_components = block_content.get_ads_components();

    assert!(
        light_node_head.verify_ads_components(full_node_components),
        "the light node rejects the components"
    );

    println!("  - the light node accepts the components");

    println!("\nstep 7: the components serve the queries");
    println!("  - id set: {:?}...", &full_node_components.id_set_root_hash.as_bytes()[..4]);
    println!("  - id tree: {:?}...", &full_node_components.id_tree_root_hash.as_bytes()[..4]);
    println!("  - windows: {:?}...", &full_node_components.multi_ads_hash.as_bytes()[..4]);

    println!("\ndone\n");
}
