use vchain_plus::chain::mmr::helper::{
    get_peak_map, get_peaks, leaf_index_to_mmr_size, leaf_index_to_pos, parent_offset,
    pos_height_in_tree, sibling_offset,
};

#[test]
fn leaf_positions_of_the_first_leaves() {
    assert_eq!(leaf_index_to_pos(0), 0);
    assert_eq!(leaf_index_to_pos(1), 1);
    assert_eq!(leaf_index_to_pos(2), 3);
    assert_eq!(leaf_index_to_pos(3), 4);
    assert_eq!(leaf_index_to_pos(4), 7);
}

#[test]
fn peaks_of_eleven_nodes() {
    assert_eq!(get_peaks(11), vec![6, 9, 10]);
    assert_eq!(get_peak_map(11), 0b111);
    assert_eq!(get_peaks(0), Vec::<u64>::new());
}

#[test]
fn mmr_size_is_twice_leaves_less_popcount() {
    for n in 0u64..2000 {
        let leaves = n + 1;
        assert_eq!(leaf_index_to_mmr_size(n), 2 * leaves - leaves.count_ones() as u64);
        let size = leaf_index_to_mmr_size(n);
        assert_eq!(get_peaks(size).len(), leaves.count_ones() as usize);
        assert_eq!(get_peak_map(size), leaves);
    }
}

#[test]
fn heights_and_offsets() {
    let heights = [0u8, 0, 1, 0, 0, 1, 2, 0, 0, 1, 0, 0, 1, 2, 3, 0];
    for (pos, h) in heights.iter().enumerate() {
        assert_eq!(pos_height_in_tree(pos as u64), *h);
    }
    assert_eq!(parent_offset(0), 2);
    assert_eq!(parent_offset(2), 8);
    assert_eq!(parent_offset(63), 0);
    assert_eq!(sibling_offset(0), 1);
    assert_eq!(sibling_offset(2), 7);
}

#[test]
fn a_leaf_stands_at_height_zero_and_its_parents_above_it() {
    for index in 0u64..3000 {
        let pos = leaf_index_to_pos(index);
        for k in 0..=(index + 1).trailing_zeros() as u64 {
            assert_eq!(pos_height_in_tree(pos + k) as u64, k);
        }
    }
    let far = (1u64 << 40) - 1;
    assert_eq!(pos_height_in_tree(leaf_index_to_pos(far) + 40), 40);
    assert_eq!(leaf_index_to_pos(far), 2 * far - 40);
}

#[test]
fn the_largest_indices_and_heights() {
    let last = 0x7fff_ffff_ffff_fffe_u64;
    assert_eq!(leaf_index_to_mmr_size(last), u64::MAX - 1 - 63);
    assert_eq!(leaf_index_to_pos(last), u64::MAX - 1 - 63 - 1);
    assert_eq!(parent_offset(62), 1 << 63);
    assert_eq!(sibling_offset(62), (1 << 63) - 1);
    assert_eq!(get_peak_map(u64::MAX), 1 << 63);
    assert_eq!(get_peaks(u64::MAX), vec![u64::MAX - 1]);
    assert_eq!(get_peak_map(leaf_index_to_mmr_size(last)), last + 1);
    assert_eq!(get_peaks(leaf_index_to_mmr_size(last)).len(), 63);
    assert_eq!(get_peaks(1), vec![0]);
    assert_eq!(get_peaks(3), vec![2]);
    assert_eq!(get_peaks(4), vec![2, 3]);
    assert_eq!(pos_height_in_tree(0), 0);
}
