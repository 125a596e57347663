//! A meet-in-the-middle key-recovery attack on PRESENT24, a reduced
//! substitution-permutation block cipher with 24-bit blocks and 24-bit keys,
//! cascaded twice under two independent keys.

use vstd::prelude::*;

pub mod sbox;
pub mod key_schedule;
pub mod cipher;
pub mod attack;

verus! {

/// Every block, key and intermediate state of the cipher fits in 24 bits.
pub open spec fn fits_block(x: u32) -> bool {
    x < 0x1000000
}

/// A round key schedule is valid when it holds eleven round keys, each a
/// 24-bit value.
pub open spec fn valid_schedule(keys: Seq<u32>) -> bool {
    &&& keys.len() == 11
    &&& forall|i: int| 0 <= i < 11 ==> fits_block(keys[i])
}

} // verus!
