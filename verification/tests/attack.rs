use present24_mitm::attack::generate_intermediate_states;
use present24_mitm::attack::merge_join;
use present24_mitm::attack::search_candidates;
use present24_mitm::cipher::decrypt;
use present24_mitm::cipher::double_present24;
use present24_mitm::cipher::encrypt;
use present24_mitm::key_schedule::key_schedule;

/// Build the two intermediate tables of a small synthetic key space, sorted
/// ascending on (value, key).
fn small_tables(key_count: u32, plain1: u32, cipher1: u32) -> (Vec<(u32, u32)>, Vec<(u32, u32)>) {
    let mut fwd = Vec::new();
    let mut bwd = Vec::new();
    for key in 0..key_count {
        let round_keys = key_schedule(key);
        fwd.push((encrypt(&round_keys, plain1), key));
        bwd.push((decrypt(&round_keys, cipher1), key));
    }
    fwd.sort_unstable();
    bwd.sort_unstable();
    (fwd, bwd)
}

#[test]
fn merge_join_emits_full_cross_product() {
    // Two runs of the duplicated value 5 must meet as a full cross product.
    let fwd = vec![(2u32, 20u32), (5, 1), (5, 2), (7, 9)];
    let bwd = vec![(3u32, 4u32), (5, 10), (5, 11), (9, 30)];
    let joined = merge_join(&fwd, &bwd);
    assert_eq!(joined.len(), 4);
    for pair in [(1u32, 10u32), (1, 11), (2, 10), (2, 11)] {
        assert!(joined.contains(&pair));
    }
}

#[test]
fn merge_join_empty_without_shared_values() {
    let fwd = vec![(1u32, 10u32), (2, 11)];
    let bwd = vec![(3u32, 12u32), (4, 13)];
    assert!(merge_join(&fwd, &bwd).is_empty());
}

#[test]
fn search_finds_true_pair_in_small_key_space() {
    let (true_key1, true_key2) = (3u32, 7u32);
    let (plain1, plain2) = (0x123456u32, 0x654321u32);
    let cipher1 = double_present24(true_key1, true_key2, plain1);
    let cipher2 = double_present24(true_key1, true_key2, plain2);
    let (fwd, bwd) = small_tables(256, plain1, cipher1);
    let candidates = search_candidates(&fwd, &bwd, plain2, cipher2);
    assert!(candidates.contains(&(true_key1, true_key2)));
    for &(key1, key2) in &candidates {
        assert_eq!(double_present24(key1, key2, plain1), cipher1);
        assert_eq!(double_present24(key1, key2, plain2), cipher2);
    }
}

#[test]
fn search_empty_when_verification_rejects_all() {
    let (plain1, plain2) = (0x123456u32, 0x654321u32);
    let cipher1 = double_present24(3, 7, plain1);
    // A second pair no key pair of the space is consistent with.
    let cipher2 = double_present24(3, 7, plain2) ^ 1;
    let (fwd, bwd) = small_tables(64, plain1, cipher1);
    assert!(search_candidates(&fwd, &bwd, plain2, cipher2).is_empty());
}

#[test]
fn search_empty_without_shared_values() {
    let fwd = vec![(1u32, 10u32), (2, 11)];
    let bwd = vec![(3u32, 12u32), (4, 13)];
    assert!(search_candidates(&fwd, &bwd, 0x123456, 0x654321).is_empty());
}

#[test]
fn parallel_engine_recovers_keys_over_reduced_space() {
    // The same generation, sort, join and verification as the full attack,
    // over the first 2^12 keys of the key space.
    let (true_key1, true_key2) = (0x000123u32, 0x000fedu32);
    let (plain1, plain2) = (0xd41330u32, 0x9d0af2u32);
    let cipher1 = double_present24(true_key1, true_key2, plain1);
    let cipher2 = double_present24(true_key1, true_key2, plain2);
    let (fwd, bwd) = generate_intermediate_states(plain1, cipher1, 1 << 12);
    assert_eq!(fwd.len(), 1 << 12);
    assert_eq!(bwd.len(), 1 << 12);
    assert!(fwd.windows(2).all(|w| w[0] <= w[1]));
    assert!(bwd.windows(2).all(|w| w[0] <= w[1]));
    let candidates = search_candidates(&fwd, &bwd, plain2, cipher2);
    assert!(candidates.contains(&(true_key1, true_key2)));
    for &(key1, key2) in &candidates {
        assert_eq!(double_present24(key1, key2, plain1), cipher1);
        assert_eq!(double_present24(key1, key2, plain2), cipher2);
    }
    // A rerun of the generation yields the same tables.
    let (fwd2, bwd2) = generate_intermediate_states(plain1, cipher1, 1 << 12);
    assert_eq!(fwd, fwd2);
    assert_eq!(bwd, bwd2);
}
