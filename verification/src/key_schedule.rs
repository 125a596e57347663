//! The PRESENT24 key schedule: a 24-bit master key, widened into an 80-bit
//! register, yields the eleven 24-bit round keys.

use vstd::prelude::*;
use crate::fits_block;
use crate::valid_schedule;
use crate::sbox::spec_sbox;
use crate::sbox::sbox_nibble;

verus! {

/// One step of the schedule: rotate the 80-bit register left by 61 bits,
/// substitute its top nibble, and mix in the round counter at bit 15.
pub open spec fn spec_schedule_step(key: u128, round: u128) -> u128 {
    let rotated = ((key & 0x7ffff) << 61) | (key >> 19);
    let substituted = ((spec_sbox((rotated >> 76) as u32) as u128) << 76)
        | (rotated & 0x0fff_ffff_ffff_ffff_ffff);
    substituted ^ (round << 15)
}

/// The 80-bit register after `n` schedule steps, starting from the master key
/// left-aligned in the register.
pub open spec fn spec_register(master_key: u32, n: nat) -> u128
    decreases n,
{
    if n == 0 {
        (master_key as u128) << 56
    } else {
        spec_schedule_step(spec_register(master_key, (n - 1) as nat), n as u128)
    }
}

/// Round key `n`: bits 16 to 39 of the register after `n` steps. Round key 0
/// is the register's initial slice there, which is zero for a 24-bit master
/// key.
pub open spec fn spec_round_key(master_key: u32, n: nat) -> u32 {
    ((spec_register(master_key, n) >> 16) & 0xffffff) as u32
}

/// The full schedule: the eleven round keys in order.
pub open spec fn spec_schedule(master_key: u32) -> Seq<u32> {
    Seq::new(11, |i: int| spec_round_key(master_key, i as nat))
}

/// An 80-bit register stays an 80-bit register across one schedule step, and
/// its top nibble is a valid substitution input.
proof fn lemma_register_step_bounds(key: u128, round: u128)
    requires
        key < 0x1_0000_0000_0000_0000_0000,
        round < 16,
    ensures
        ((key & 0x7ffff) << 61) | (key >> 19) < 0x1_0000_0000_0000_0000_0000,
        (((key & 0x7ffff) << 61) | (key >> 19)) >> 76 < 16,
        spec_schedule_step(key, round) < 0x1_0000_0000_0000_0000_0000,
{
    let rotated = ((key & 0x7ffff) << 61) | (key >> 19);
    assert(rotated < 0x1_0000_0000_0000_0000_0000 && rotated >> 76 < 16) by (bit_vector)
        requires
            key < 0x1_0000_0000_0000_0000_0000,
            rotated == ((key & 0x7ffff) << 61) | (key >> 19),
    ;
    let s = spec_sbox((rotated >> 76) as u32);
    assert(s < 16) by {
        crate::sbox::lemma_sbox_inverse((rotated >> 76) as u32);
    }
    let substituted = ((s as u128) << 76) | (rotated & 0x0fff_ffff_ffff_ffff_ffff);
    assert(substituted ^ (round << 15) < 0x1_0000_0000_0000_0000_0000) by (bit_vector)
        requires
            s < 16,
            round < 16,
            substituted == ((s as u128) << 76) | (rotated & 0x0fff_ffff_ffff_ffff_ffff),
    ;
}

/// Every round key fits in 24 bits.
proof fn lemma_round_key_fits(master_key: u32, n: nat)
    ensures
        fits_block(spec_round_key(master_key, n)),
{
    let register = spec_register(master_key, n);
    assert((((register >> 16) & 0xffffff) as u32) < 0x1000000) by (bit_vector);
}

/// The schedule of any master key is a valid schedule: eleven round keys,
/// each a 24-bit value.
pub proof fn lemma_schedule_valid(master_key: u32)
    ensures
        valid_schedule(spec_schedule(master_key)),
{
    assert forall|i: int| 0 <= i < 11 implies fits_block(spec_schedule(master_key)[i]) by {
        lemma_round_key_fits(master_key, i as nat);
    }
}

/// Expand a 24-bit master key into the eleven round keys of PRESENT24.
pub fn key_schedule(master_key: u32) -> (r: Vec<u32>)
    requires
        fits_block(master_key),
    ensures
        r@ == spec_schedule(master_key),
        valid_schedule(r@),
{
    let mut round_keys: Vec<u32> = Vec::new();
    round_keys.push(0);
    proof {
        assert((master_key as u128) << 56 < 0x1_0000_0000_0000_0000_0000
            && (((master_key as u128) << 56) >> 16) & 0xffffff == 0) by (bit_vector)
            requires
                master_key < 0x1000000,
        ;
    }
    let mut key: u128 = (master_key as u128) << 56;
    let mut i: u32 = 1;
    while i < 11
        invariant
            1 <= i <= 11,
            fits_block(master_key),
            key == spec_register(master_key, (i - 1) as nat),
            key < 0x1_0000_0000_0000_0000_0000,
            round_keys@.len() == i,
            forall|j: int| 0 <= j < i ==> round_keys@[j] == spec_round_key(master_key, j as nat),
        decreases 11 - i,
    {
        proof {
            lemma_register_step_bounds(key, i as u128);
        }
        key = ((key & 0x7ffff) << 61) | (key >> 19);
        let top = (key >> 76) as u32;
        let substituted = sbox_nibble(top);
        key = ((substituted as u128) << 76) | (key & 0x0fff_ffff_ffff_ffff_ffff);
        key = key ^ ((i as u128) << 15);
        let round_key = ((key >> 16) & 0xffffff) as u32;
        round_keys.push(round_key);
        i = i + 1;
    }
    proof {
        assert(round_keys@ =~= spec_schedule(master_key));
        lemma_schedule_valid(master_key);
    }
    round_keys
}

} // verus!
