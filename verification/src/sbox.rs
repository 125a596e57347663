//! The fixed 4-bit substitution table of PRESENT24 and its inverse.

use vstd::prelude::*;

verus! {

/// The nibble substitution table, as a function from 4-bit values to 4-bit
/// values. Arguments outside `0..16` are mapped to 0; the cipher only ever
/// applies it to masked nibbles.
pub open spec fn spec_sbox(x: u32) -> u32 {
    if x == 0x0 { 0xc }
    else if x == 0x1 { 0x5 }
    else if x == 0x2 { 0x6 }
    else if x == 0x3 { 0xb }
    else if x == 0x4 { 0x9 }
    else if x == 0x5 { 0x0 }
    else if x == 0x6 { 0xa }
    else if x == 0x7 { 0xd }
    else if x == 0x8 { 0x3 }
    else if x == 0x9 { 0xe }
    else if x == 0xa { 0xf }
    else if x == 0xb { 0x8 }
    else if x == 0xc { 0x4 }
    else if x == 0xd { 0x7 }
    else if x == 0xe { 0x1 }
    else if x == 0xf { 0x2 }
    else { 0 }
}

/// The inverse nibble substitution table.
pub open spec fn spec_inv_sbox(x: u32) -> u32 {
    if x == 0x0 { 0x5 }
    else if x == 0x1 { 0xe }
    else if x == 0x2 { 0xf }
    else if x == 0x3 { 0x8 }
    else if x == 0x4 { 0xc }
    else if x == 0x5 { 0x1 }
    else if x == 0x6 { 0x2 }
    else if x == 0x7 { 0xd }
    else if x == 0x8 { 0xb }
    else if x == 0x9 { 0x4 }
    else if x == 0xa { 0x6 }
    else if x == 0xb { 0x3 }
    else if x == 0xc { 0x0 }
    else if x == 0xd { 0x7 }
    else if x == 0xe { 0x9 }
    else if x == 0xf { 0xa }
    else { 0 }
}

/// The two tables are mutual inverses on 4-bit values, and both stay within
/// 4 bits.
pub proof fn lemma_sbox_inverse(v: u32)
    requires
        v < 16,
    ensures
        spec_inv_sbox(spec_sbox(v)) == v,
        spec_sbox(spec_inv_sbox(v)) == v,
        spec_sbox(v) < 16,
        spec_inv_sbox(v) < 16,
{
}

/// Look one nibble up in the substitution table.
pub fn sbox_nibble(x: u32) -> (r: u32)
    requires
        x < 16,
    ensures
        r == spec_sbox(x),
        r < 16,
{
    match x {
        0x0 => 0xc,
        0x1 => 0x5,
        0x2 => 0x6,
        0x3 => 0xb,
        0x4 => 0x9,
        0x5 => 0x0,
        0x6 => 0xa,
        0x7 => 0xd,
        0x8 => 0x3,
        0x9 => 0xe,
        0xa => 0xf,
        0xb => 0x8,
        0xc => 0x4,
        0xd => 0x7,
        0xe => 0x1,
        _ => 0x2,
    }
}

/// Look one nibble up in the inverse substitution table.
pub fn inv_sbox_nibble(x: u32) -> (r: u32)
    requires
        x < 16,
    ensures
        r == spec_inv_sbox(x),
        r < 16,
{
    match x {
        0x0 => 0x5,
        0x1 => 0xe,
        0x2 => 0xf,
        0x3 => 0x8,
        0x4 => 0xc,
        0x5 => 0x1,
        0x6 => 0x2,
        0x7 => 0xd,
        0x8 => 0xb,
        0x9 => 0x4,
        0xa => 0x6,
        0xb => 0x3,
        0xc => 0x0,
        0xd => 0x7,
        0xe => 0x9,
        _ => 0xa,
    }
}

} // verus!
