use present24_mitm::cipher::double_present24;
use present24_mitm::cipher::decrypt;
use present24_mitm::cipher::encrypt;
use present24_mitm::cipher::inv_permute_layer;
use present24_mitm::cipher::permute_layer;
use present24_mitm::key_schedule::key_schedule;
use present24_mitm::sbox::inv_sbox_nibble;
use present24_mitm::sbox::sbox_nibble;

#[test]
fn sbox_tables_are_mutual_inverses() {
    for v in 0u32..16 {
        assert_eq!(inv_sbox_nibble(sbox_nibble(v)), v);
        assert_eq!(sbox_nibble(inv_sbox_nibble(v)), v);
    }
}

#[test]
fn sbox_known_entries() {
    assert_eq!(sbox_nibble(0x0), 0xc);
    assert_eq!(sbox_nibble(0xf), 0x2);
    assert_eq!(inv_sbox_nibble(0xc), 0x0);
    assert_eq!(inv_sbox_nibble(0x2), 0xf);
}

#[test]
fn permutation_layers_are_mutual_inverses() {
    for bit in 0..24 {
        let x = 1u32 << bit;
        assert_eq!(inv_permute_layer(permute_layer(x)), x);
        assert_eq!(permute_layer(inv_permute_layer(x)), x);
    }
    for &x in &[0x000000u32, 0xffffff, 0xd41330, 0x2f4a58, 0x555555, 0xabcdef] {
        assert_eq!(inv_permute_layer(permute_layer(x)), x);
        assert_eq!(permute_layer(inv_permute_layer(x)), x);
    }
}

#[test]
fn permutation_moves_low_bits_and_fixes_bit_23() {
    // Bit j of the low 23 bits moves to position (6 * j) % 23.
    assert_eq!(permute_layer(1 << 1), 1 << 6);
    assert_eq!(permute_layer(1 << 4), 1 << 1);
    assert_eq!(permute_layer(1 << 22), 1 << 17);
    // Bit 23 is a fixed point in both directions.
    assert_eq!(permute_layer(0x800000), 0x800000);
    assert_eq!(inv_permute_layer(0x800000), 0x800000);
}

#[test]
fn key_schedule_is_deterministic() {
    for &key in &[0x000000u32, 0xffffff, 0xd41330, 0x123456] {
        let first = key_schedule(key);
        let second = key_schedule(key);
        assert_eq!(first, second);
        assert_eq!(first.len(), 11);
        for &round_key in &first {
            assert!(round_key < 0x1000000);
        }
    }
}

#[test]
fn key_schedule_first_key_is_initial_register_slice() {
    // With a 24-bit master key the register's bits 16..40 start at zero.
    let round_keys = key_schedule(0xffffff);
    assert_eq!(round_keys[0], 0);
}

#[test]
fn encrypt_decrypt_round_trip() {
    for &key in &[0x000000u32, 0xffffff, 0xd41330, 0x98d27c] {
        let round_keys = key_schedule(key);
        for &block in &[0x000000u32, 0xffffff, 0x9d0af2, 0x2f4a58, 0x000001] {
            let cipher = encrypt(&round_keys, block);
            assert!(cipher < 0x1000000);
            assert_eq!(decrypt(&round_keys, cipher), block);
        }
    }
}

#[test]
fn encryption_changes_the_block() {
    let round_keys = key_schedule(0xd41330);
    assert_ne!(encrypt(&round_keys, 0x123456), 0x123456);
}

#[test]
fn cascade_consistency() {
    for &(key1, key2, plain) in
        &[(0x000001u32, 0x000002u32, 0xd41330u32), (0xabcdef, 0x123456, 0x9d0af2)]
    {
        let round_keys1 = key_schedule(key1);
        let round_keys2 = key_schedule(key2);
        let expected = encrypt(&round_keys2, encrypt(&round_keys1, plain));
        assert_eq!(double_present24(key1, key2, plain), expected);
    }
}
