//! The PRESENT24 block cipher: a 24-bit substitution-permutation network with
//! ten full rounds and a final key whitening, plus the two-key cascade built
//! from it.

use vstd::prelude::*;
use crate::fits_block;
use crate::valid_schedule;
use crate::sbox::spec_sbox;
use crate::sbox::spec_inv_sbox;
use crate::sbox::sbox_nibble;
use crate::sbox::inv_sbox_nibble;
use crate::key_schedule::spec_schedule;
use crate::key_schedule::key_schedule;

verus! {

/// The substitution layer: each of the six nibbles of the 24-bit state is
/// replaced through the substitution table. Bits 24 and above are dropped.
pub open spec fn spec_substitute(x: u32) -> u32 {
    spec_sbox(x & 0xf)
        | (spec_sbox((x >> 4) & 0xf) << 4)
        | (spec_sbox((x >> 8) & 0xf) << 8)
        | (spec_sbox((x >> 12) & 0xf) << 12)
        | (spec_sbox((x >> 16) & 0xf) << 16)
        | (spec_sbox((x >> 20) & 0xf) << 20)
}

/// The inverse substitution layer.
pub open spec fn spec_inv_substitute(x: u32) -> u32 {
    spec_inv_sbox(x & 0xf)
        | (spec_inv_sbox((x >> 4) & 0xf) << 4)
        | (spec_inv_sbox((x >> 8) & 0xf) << 8)
        | (spec_inv_sbox((x >> 12) & 0xf) << 12)
        | (spec_inv_sbox((x >> 16) & 0xf) << 16)
        | (spec_inv_sbox((x >> 20) & 0xf) << 20)
}

/// The bit permutation: bit `j` of the low 23 bits moves to position
/// `(6 * j) % 23`, and bit 23 stays in place. Bits 24 and above are dropped.
pub open spec fn spec_permute(x: u32) -> u32 {
    (((x >> 0) & 1) << 0)
        | (((x >> 1) & 1) << 6)
        | (((x >> 2) & 1) << 12)
        | (((x >> 3) & 1) << 18)
        | (((x >> 4) & 1) << 1)
        | (((x >> 5) & 1) << 7)
        | (((x >> 6) & 1) << 13)
        | (((x >> 7) & 1) << 19)
        | (((x >> 8) & 1) << 2)
        | (((x >> 9) & 1) << 8)
        | (((x >> 10) & 1) << 14)
        | (((x >> 11) & 1) << 20)
        | (((x >> 12) & 1) << 3)
        | (((x >> 13) & 1) << 9)
        | (((x >> 14) & 1) << 15)
        | (((x >> 15) & 1) << 21)
        | (((x >> 16) & 1) << 4)
        | (((x >> 17) & 1) << 10)
        | (((x >> 18) & 1) << 16)
        | (((x >> 19) & 1) << 22)
        | (((x >> 20) & 1) << 5)
        | (((x >> 21) & 1) << 11)
        | (((x >> 22) & 1) << 17)
        | (x & 0x800000)
}

/// The inverse bit permutation: bit `j` of the low 23 bits moves to position
/// `(4 * j) % 23`, and bit 23 stays in place.
pub open spec fn spec_inv_permute(x: u32) -> u32 {
    (((x >> 0) & 1) << 0)
        | (((x >> 1) & 1) << 4)
        | (((x >> 2) & 1) << 8)
        | (((x >> 3) & 1) << 12)
        | (((x >> 4) & 1) << 16)
        | (((x >> 5) & 1) << 20)
        | (((x >> 6) & 1) << 1)
        | (((x >> 7) & 1) << 5)
        | (((x >> 8) & 1) << 9)
        | (((x >> 9) & 1) << 13)
        | (((x >> 10) & 1) << 17)
        | (((x >> 11) & 1) << 21)
        | (((x >> 12) & 1) << 2)
        | (((x >> 13) & 1) << 6)
        | (((x >> 14) & 1) << 10)
        | (((x >> 15) & 1) << 14)
        | (((x >> 16) & 1) << 18)
        | (((x >> 17) & 1) << 22)
        | (((x >> 18) & 1) << 3)
        | (((x >> 19) & 1) << 7)
        | (((x >> 20) & 1) << 11)
        | (((x >> 21) & 1) << 15)
        | (((x >> 22) & 1) << 19)
        | (x & 0x800000)
}

/// One forward round: key addition, substitution, then permutation.
pub open spec fn spec_round(state: u32, round_key: u32) -> u32 {
    spec_permute(spec_substitute(state ^ round_key))
}

/// One inverse round: inverse permutation, inverse substitution, then key
/// addition.
pub open spec fn spec_inv_round(state: u32, round_key: u32) -> u32 {
    spec_inv_substitute(spec_inv_permute(state)) ^ round_key
}

/// The first `n` forward rounds applied to `x` under `keys`.
pub open spec fn spec_rounds(keys: Seq<u32>, x: u32, n: nat) -> u32
    decreases n,
{
    if n == 0 {
        x
    } else {
        spec_round(spec_rounds(keys, x, (n - 1) as nat), keys[n - 1])
    }
}

/// The inverse rounds for indices `n - 1` down to `0` applied to `x`.
pub open spec fn spec_inv_rounds(keys: Seq<u32>, x: u32, n: nat) -> u32
    decreases n,
{
    if n == 0 {
        x
    } else {
        spec_inv_rounds(keys, spec_inv_round(x, keys[n - 1]), (n - 1) as nat)
    }
}

/// Encryption: ten forward rounds, then whitening with the last round key.
pub open spec fn spec_encrypt(keys: Seq<u32>, plaintext: u32) -> u32 {
    spec_rounds(keys, plaintext, 10) ^ keys[10]
}

/// Decryption: undo the whitening, then the ten rounds in reverse.
pub open spec fn spec_decrypt(keys: Seq<u32>, ciphertext: u32) -> u32 {
    spec_inv_rounds(keys, ciphertext ^ keys[10], 10)
}

/// The two-key cascade: encrypt under `key1`, then under `key2`.
pub open spec fn spec_double(key1: u32, key2: u32, plaintext: u32) -> u32 {
    spec_encrypt(spec_schedule(key2), spec_encrypt(spec_schedule(key1), plaintext))
}

/// The exclusive or of two 24-bit values fits in 24 bits.
pub proof fn lemma_xor_fits(a: u32, b: u32)
    requires
        fits_block(a),
        fits_block(b),
    ensures
        fits_block(a ^ b),
{
    assert(a < 0x1000000 && b < 0x1000000 ==> (a ^ b) < 0x1000000) by (bit_vector);
}

/// Adding the same round key twice restores the state.
pub proof fn lemma_xor_cancel(a: u32, b: u32)
    ensures
        (a ^ b) ^ b == a,
{
    assert((a ^ b) ^ b == a) by (bit_vector);
}

/// Both substitution layers keep the state within 24 bits.
pub proof fn lemma_substitute_fits(x: u32)
    ensures
        fits_block(spec_substitute(x)),
        fits_block(spec_inv_substitute(x)),
{
    assert(spec_substitute(x) < 0x1000000 && spec_inv_substitute(x) < 0x1000000)
        by (bit_vector);
}

/// Both permutation layers keep the state within 24 bits.
pub proof fn lemma_permute_fits(x: u32)
    ensures
        fits_block(spec_permute(x)),
        fits_block(spec_inv_permute(x)),
{
    assert(spec_permute(x) < 0x1000000 && spec_inv_permute(x) < 0x1000000)
        by (bit_vector);
}

/// The substitution layers are mutual inverses on 24-bit states.
pub proof fn lemma_substitute_inverse(x: u32)
    requires
        fits_block(x),
    ensures
        spec_inv_substitute(spec_substitute(x)) == x,
        spec_substitute(spec_inv_substitute(x)) == x,
{
    assert(x < 0x1000000 ==> spec_inv_substitute(spec_substitute(x)) == x
        && spec_substitute(spec_inv_substitute(x)) == x) by (bit_vector);
}

/// The permutation layers are mutual inverses on 24-bit states, and bit 23 is
/// a fixed point of both.
pub proof fn lemma_permutation_inverse(x: u32)
    requires
        fits_block(x),
    ensures
        spec_inv_permute(spec_permute(x)) == x,
        spec_permute(spec_inv_permute(x)) == x,
        spec_permute(x) & 0x800000 == x & 0x800000,
        spec_inv_permute(x) & 0x800000 == x & 0x800000,
{
    assert(x < 0x1000000 ==> spec_inv_permute(spec_permute(x)) == x
        && spec_permute(spec_inv_permute(x)) == x
        && spec_permute(x) & 0x800000 == x & 0x800000
        && spec_inv_permute(x) & 0x800000 == x & 0x800000) by (bit_vector);
}

/// One inverse round undoes one forward round on 24-bit states and keys.
pub proof fn lemma_round_inverse(state: u32, round_key: u32)
    requires
        fits_block(state),
        fits_block(round_key),
    ensures
        fits_block(spec_round(state, round_key)),
        spec_inv_round(spec_round(state, round_key), round_key) == state,
{
    let keyed = state ^ round_key;
    lemma_xor_fits(state, round_key);
    lemma_substitute_fits(keyed);
    lemma_permute_fits(spec_substitute(keyed));
    lemma_permutation_inverse(spec_substitute(keyed));
    lemma_substitute_inverse(keyed);
    lemma_xor_cancel(state, round_key);
}

/// One forward round undoes one inverse round on 24-bit states and keys.
pub proof fn lemma_inv_round_inverse(state: u32, round_key: u32)
    requires
        fits_block(state),
        fits_block(round_key),
    ensures
        fits_block(spec_inv_round(state, round_key)),
        spec_round(spec_inv_round(state, round_key), round_key) == state,
{
    let unpermuted = spec_inv_permute(state);
    lemma_permute_fits(state);
    lemma_substitute_fits(unpermuted);
    lemma_xor_fits(spec_inv_substitute(unpermuted), round_key);
    lemma_xor_cancel(spec_inv_substitute(unpermuted), round_key);
    lemma_substitute_inverse(unpermuted);
    lemma_permutation_inverse(state);
}

/// The first `n` inverse rounds undo the first `n` forward rounds.
proof fn lemma_rounds_round_trip(keys: Seq<u32>, x: u32, n: nat)
    requires
        valid_schedule(keys),
        n <= 10,
        fits_block(x),
    ensures
        fits_block(spec_rounds(keys, x, n)),
        spec_inv_rounds(keys, spec_rounds(keys, x, n), n) == x,
    decreases n,
{
    if n > 0 {
        let prev = spec_rounds(keys, x, (n - 1) as nat);
        lemma_rounds_round_trip(keys, x, (n - 1) as nat);
        lemma_round_inverse(prev, keys[n - 1]);
    }
}

/// The first `n` forward rounds undo the first `n` inverse rounds.
proof fn lemma_inv_rounds_round_trip(keys: Seq<u32>, x: u32, n: nat)
    requires
        valid_schedule(keys),
        n <= 10,
        fits_block(x),
    ensures
        fits_block(spec_inv_rounds(keys, x, n)),
        spec_rounds(keys, spec_inv_rounds(keys, x, n), n) == x,
    decreases n,
{
    if n > 0 {
        let peeled = spec_inv_round(x, keys[n - 1]);
        lemma_inv_round_inverse(x, keys[n - 1]);
        lemma_inv_rounds_round_trip(keys, peeled, (n - 1) as nat);
    }
}

/// Decryption under a valid schedule undoes encryption, for every 24-bit
/// block.
pub proof fn lemma_encrypt_decrypt_round_trip(keys: Seq<u32>, x: u32)
    requires
        valid_schedule(keys),
        fits_block(x),
    ensures
        spec_decrypt(keys, spec_encrypt(keys, x)) == x,
        fits_block(spec_encrypt(keys, x)),
{
    lemma_rounds_round_trip(keys, x, 10);
    let rounds = spec_rounds(keys, x, 10);
    lemma_xor_cancel(rounds, keys[10]);
    lemma_xor_fits(rounds, keys[10]);
}

/// Encryption under a valid schedule undoes decryption, for every 24-bit
/// block.
pub proof fn lemma_decrypt_encrypt_round_trip(keys: Seq<u32>, x: u32)
    requires
        valid_schedule(keys),
        fits_block(x),
    ensures
        spec_encrypt(keys, spec_decrypt(keys, x)) == x,
        fits_block(spec_decrypt(keys, x)),
{
    let unwhitened = x ^ keys[10];
    lemma_xor_fits(x, keys[10]);
    lemma_inv_rounds_round_trip(keys, unwhitened, 10);
    lemma_xor_cancel(x, keys[10]);
}

/// Every nibble extracted from a 32-bit word by a 4-bit mask is below 16.
proof fn lemma_nibble_bounds(x: u32)
    ensures
        x & 0xf < 16,
        (x >> 4) & 0xf < 16,
        (x >> 8) & 0xf < 16,
        (x >> 12) & 0xf < 16,
        (x >> 16) & 0xf < 16,
        (x >> 20) & 0xf < 16,
{
    assert(x & 0xf < 16 && (x >> 4) & 0xf < 16 && (x >> 8) & 0xf < 16
        && (x >> 12) & 0xf < 16 && (x >> 16) & 0xf < 16 && (x >> 20) & 0xf < 16)
        by (bit_vector);
}

/// Apply the substitution table to each nibble of the state.
pub fn substitute_layer(x: u32) -> (r: u32)
    ensures
        r == spec_substitute(x),
{
    proof {
        lemma_nibble_bounds(x);
    }
    sbox_nibble(x & 0xf)
        | (sbox_nibble((x >> 4) & 0xf) << 4)
        | (sbox_nibble((x >> 8) & 0xf) << 8)
        | (sbox_nibble((x >> 12) & 0xf) << 12)
        | (sbox_nibble((x >> 16) & 0xf) << 16)
        | (sbox_nibble((x >> 20) & 0xf) << 20)
}

/// Apply the inverse substitution table to each nibble of the state.
pub fn inv_substitute_layer(x: u32) -> (r: u32)
    ensures
        r == spec_inv_substitute(x),
{
    proof {
        lemma_nibble_bounds(x);
    }
    inv_sbox_nibble(x & 0xf)
        | (inv_sbox_nibble((x >> 4) & 0xf) << 4)
        | (inv_sbox_nibble((x >> 8) & 0xf) << 8)
        | (inv_sbox_nibble((x >> 12) & 0xf) << 12)
        | (inv_sbox_nibble((x >> 16) & 0xf) << 16)
        | (inv_sbox_nibble((x >> 20) & 0xf) << 20)
}

/// Apply the forward bit permutation to the state.
pub fn permute_layer(x: u32) -> (r: u32)
    ensures
        r == spec_permute(x),
{
    (((x >> 0) & 1) << 0)
        | (((x >> 1) & 1) << 6)
        | (((x >> 2) & 1) << 12)
        | (((x >> 3) & 1) << 18)
        | (((x >> 4) & 1) << 1)
        | (((x >> 5) & 1) << 7)
        | (((x >> 6) & 1) << 13)
        | (((x >> 7) & 1) << 19)
        | (((x >> 8) & 1) << 2)
        | (((x >> 9) & 1) << 8)
        | (((x >> 10) & 1) << 14)
        | (((x >> 11) & 1) << 20)
        | (((x >> 12) & 1) << 3)
        | (((x >> 13) & 1) << 9)
        | (((x >> 14) & 1) << 15)
        | (((x >> 15) & 1) << 21)
        | (((x >> 16) & 1) << 4)
        | (((x >> 17) & 1) << 10)
        | (((x >> 18) & 1) << 16)
        | (((x >> 19) & 1) << 22)
        | (((x >> 20) & 1) << 5)
        | (((x >> 21) & 1) << 11)
        | (((x >> 22) & 1) << 17)
        | (x & 0x800000)
}

/// Apply the inverse bit permutation to the state.
pub fn inv_permute_layer(x: u32) -> (r: u32)
    ensures
        r == spec_inv_permute(x),
{
    (((x >> 0) & 1) << 0)
        | (((x >> 1) & 1) << 4)
        | (((x >> 2) & 1) << 8)
        | (((x >> 3) & 1) << 12)
        | (((x >> 4) & 1) << 16)
        | (((x >> 5) & 1) << 20)
        | (((x >> 6) & 1) << 1)
        | (((x >> 7) & 1) << 5)
        | (((x >> 8) & 1) << 9)
        | (((x >> 9) & 1) << 13)
        | (((x >> 10) & 1) << 17)
        | (((x >> 11) & 1) << 21)
        | (((x >> 12) & 1) << 2)
        | (((x >> 13) & 1) << 6)
        | (((x >> 14) & 1) << 10)
        | (((x >> 15) & 1) << 14)
        | (((x >> 16) & 1) << 18)
        | (((x >> 17) & 1) << 22)
        | (((x >> 18) & 1) << 3)
        | (((x >> 19) & 1) << 7)
        | (((x >> 20) & 1) << 11)
        | (((x >> 21) & 1) << 15)
        | (((x >> 22) & 1) << 19)
        | (x & 0x800000)
}

/// PRESENT24 encryption of a 24-bit plaintext under an expanded schedule.
pub fn encrypt(round_keys: &Vec<u32>, plaintext: u32) -> (r: u32)
    requires
        valid_schedule(round_keys@),
        fits_block(plaintext),
    ensures
        r == spec_encrypt(round_keys@, plaintext),
        fits_block(r),
{
    let mut state: u32 = plaintext;
    let mut i: usize = 0;
    while i < 10
        invariant
            i <= 10,
            valid_schedule(round_keys@),
            fits_block(plaintext),
            fits_block(state),
            state == spec_rounds(round_keys@, plaintext, i as nat),
        decreases 10 - i,
    {
        let keyed: u32 = state ^ round_keys[i];
        let substituted: u32 = substitute_layer(keyed);
        proof {
            lemma_round_inverse(state, round_keys@[i as int]);
        }
        state = permute_layer(substituted);
        i = i + 1;
    }
    proof {
        lemma_xor_fits(state, round_keys@[10]);
    }
    state ^ round_keys[10]
}

/// PRESENT24 decryption of a 24-bit ciphertext under an expanded schedule.
pub fn decrypt(round_keys: &Vec<u32>, ciphertext: u32) -> (r: u32)
    requires
        valid_schedule(round_keys@),
        fits_block(ciphertext),
    ensures
        r == spec_decrypt(round_keys@, ciphertext),
        fits_block(r),
{
    proof {
        lemma_xor_fits(ciphertext, round_keys@[10]);
    }
    let mut state: u32 = ciphertext ^ round_keys[10];
    let mut i: usize = 10;
    while i > 0
        invariant
            i <= 10,
            valid_schedule(round_keys@),
            fits_block(state),
            spec_inv_rounds(round_keys@, state, i as nat)
                == spec_decrypt(round_keys@, ciphertext),
        decreases i,
    {
        i = i - 1;
        let unpermuted: u32 = inv_permute_layer(state);
        let unsubstituted: u32 = inv_substitute_layer(unpermuted);
        proof {
            lemma_substitute_fits(unpermuted);
            lemma_xor_fits(unsubstituted, round_keys@[i as int]);
        }
        state = unsubstituted ^ round_keys[i];
    }
    state
}

/// Cascade encryption of a 24-bit plaintext under the key pair
/// `(key1, key2)`: one full encryption under each key in turn.
pub fn double_present24(key1: u32, key2: u32, plaintext: u32) -> (r: u32)
    requires
        fits_block(key1),
        fits_block(key2),
        fits_block(plaintext),
    ensures
        r == spec_double(key1, key2, plaintext),
        fits_block(r),
{
    let round_keys1 = key_schedule(key1);
    let round_keys2 = key_schedule(key2);
    let middle = encrypt(&round_keys1, plaintext);
    encrypt(&round_keys2, middle)
}

} // verus!
