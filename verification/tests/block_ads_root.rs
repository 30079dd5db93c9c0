use vchain_plus::chain::block::block_ads_root::{BlockADSComponents, BlockADSRoot};
use vchain_plus::digest::{Digest, Digestible};

#[test]
fn test_block_ads_root_creation() {
    let id_set_hash = Digest::default();
    let id_tree_hash = Digest::default();
    let multi_ads_hash = Digest::default();

    let components = BlockADSComponents::new(id_set_hash, id_tree_hash, multi_ads_hash);
    let ads_root = BlockADSRoot::from_components(&components);

    assert!(ads_root.verify_components(&components));
}

#[test]
fn test_block_ads_root_deterministic() {
    let components1 =
        BlockADSComponents::new(Digest::default(), Digest::default(), Digest::default());
    let components2 =
        BlockADSComponents::new(Digest::default(), Digest::default(), Digest::default());

    let root1 = BlockADSRoot::from_components(&components1);
    let root2 = BlockADSRoot::from_components(&components2);

    assert_eq!(root1.root(), root2.root());
}

#[test]
fn test_block_ads_root_different_components() {
    let components1 =
        BlockADSComponents::new(Digest::default(), Digest::default(), Digest::default());

    let mut different_bytes = [0u8; 32];
    different_bytes[0] = 1;
    let different_digest = Digest::from(different_bytes);

    let components2 =
        BlockADSComponents::new(different_digest, Digest::default(), Digest::default());

    let root1 = BlockADSRoot::from_components(&components1);
    let root2 = BlockADSRoot::from_components(&components2);

    assert_ne!(root1.root(), root2.root());
}

#[test]
fn test_verify_components_failure() {
    let components1 =
        BlockADSComponents::new(Digest::default(), Digest::default(), Digest::default());

    let root = BlockADSRoot::from_components(&components1);

    let mut different_bytes = [0u8; 32];
    different_bytes[0] = 1;
    let different_digest = Digest::from(different_bytes);

    let components2 =
        BlockADSComponents::new(different_digest, Digest::default(), Digest::default());

    assert!(!root.verify_components(&components2));
}

#[test]
fn test_digestible_trait() {
    let components =
        BlockADSComponents::new(Digest::default(), Digest::default(), Digest::default());

    let root = BlockADSRoot::from_components(&components);

    assert_eq!(root.to_digest(), *root.root());
    assert_eq!(components.to_digest(), *root.root());
}

#[test]
fn root_of_zero_components_is_the_truncated_hash_of_96_zero_bytes() {
    let components =
        BlockADSComponents::new(Digest::default(), Digest::default(), Digest::default());
    let full = <blake2::Blake2b512 as blake2::Digest>::digest([0u8; 96]);
    let mut expected = [0u8; 32];
    expected.copy_from_slice(&full[..32]);
    assert_eq!(components.compute_root(), Digest::from(expected));
    assert_ne!(components.compute_root(), Digest::default());
}

#[test]
fn swapping_any_one_component_changes_the_root() {
    let zero = Digest::default();
    let mut bytes = [0u8; 32];
    bytes[0] = 1;
    let one = Digest::from(bytes);
    let base = BlockADSComponents::new(zero, zero, zero).compute_root();
    assert_ne!(BlockADSComponents::new(one, zero, zero).compute_root(), base);
    assert_ne!(BlockADSComponents::new(zero, one, zero).compute_root(), base);
    assert_ne!(BlockADSComponents::new(zero, zero, one).compute_root(), base);
    assert_ne!(
        BlockADSComponents::new(one, zero, zero).compute_root(),
        BlockADSComponents::new(zero, one, zero).compute_root()
    );
}

#[test]
fn conversions_between_root_and_digest() {
    let mut bytes = [0u8; 32];
    bytes[31] = 7;
    let d = Digest::from(bytes);
    let root = BlockADSRoot::from(d);
    assert_eq!(root.to_digest_value(), d);
    assert_eq!(Digest::from(root.clone()), d);
    let components = BlockADSComponents::new(d, d, d);
    assert_eq!(BlockADSRoot::from(&components), BlockADSRoot::from_components(&components));
    assert_eq!(BlockADSRoot::default().to_digest_value(), Digest::default());
}
