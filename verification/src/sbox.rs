use vstd::prelude::*;

verus! {

/// The fixed 4-bit substitution box (the PRESENT cipher's S-box): a
/// bijection on the nibbles 0..16. Inputs outside 0..16 fall into the
/// final branch and are never used by this library.
pub open spec fn spec_sbox(n: u16) -> u16
    recommends
        n < 16,
{
    if n == 0x0 {
        0xC
    } else if n == 0x1 {
        0x5
    } else if n == 0x2 {
        0x6
    } else if n == 0x3 {
        0xB
    } else if n == 0x4 {
        0x9
    } else if n == 0x5 {
        0x0
    } else if n == 0x6 {
        0xA
    } else if n == 0x7 {
        0xD
    } else if n == 0x8 {
        0x3
    } else if n == 0x9 {
        0xE
    } else if n == 0xA {
        0xF
    } else if n == 0xB {
        0x8
    } else if n == 0xC {
        0x4
    } else if n == 0xD {
        0x7
    } else if n == 0xE {
        0x1
    } else {
        0x2
    }
}

/// The exact inverse of `spec_sbox` on the nibbles 0..16.
pub open spec fn spec_sbox_inv(n: u16) -> u16
    recommends
        n < 16,
{
    if n == 0x0 {
        0x5
    } else if n == 0x1 {
        0xE
    } else if n == 0x2 {
        0xF
    } else if n == 0x3 {
        0x8
    } else if n == 0x4 {
        0xC
    } else if n == 0x5 {
        0x1
    } else if n == 0x6 {
        0x2
    } else if n == 0x7 {
        0xD
    } else if n == 0x8 {
        0xB
    } else if n == 0x9 {
        0x4
    } else if n == 0xA {
        0x6
    } else if n == 0xB {
        0x3
    } else if n == 0xC {
        0x0
    } else if n == 0xD {
        0x7
    } else if n == 0xE {
        0x9
    } else {
        0xA
    }
}

/// Substitution-box lookup.
pub fn sbox_lookup(n: u16) -> (r: u16)
    ensures
        r == spec_sbox(n),
        r < 16,
{
    match n {
        0x0 => 0xC,
        0x1 => 0x5,
        0x2 => 0x6,
        0x3 => 0xB,
        0x4 => 0x9,
        0x5 => 0x0,
        0x6 => 0xA,
        0x7 => 0xD,
        0x8 => 0x3,
        0x9 => 0xE,
        0xA => 0xF,
        0xB => 0x8,
        0xC => 0x4,
        0xD => 0x7,
        0xE => 0x1,
        _ => 0x2,
    }
}

/// Inverse substitution-box lookup.
pub fn sbox_inv_lookup(n: u16) -> (r: u16)
    ensures
        r == spec_sbox_inv(n),
        r < 16,
{
    match n {
        0x0 => 0x5,
        0x1 => 0xE,
        0x2 => 0xF,
        0x3 => 0x8,
        0x4 => 0xC,
        0x5 => 0x1,
        0x6 => 0x2,
        0x7 => 0xD,
        0x8 => 0xB,
        0x9 => 0x4,
        0xA => 0x6,
        0xB => 0x3,
        0xC => 0x0,
        0xD => 0x7,
        0xE => 0x9,
        _ => 0xA,
    }
}

/// The two tables are exact inverses of one another on every nibble: the
/// substitution box is a bijection on 0..16.
pub proof fn lemma_sbox_bijective(n: u16)
    requires
        n < 16,
    ensures
        spec_sbox_inv(spec_sbox(n)) == n,
        spec_sbox(spec_sbox_inv(n)) == n,
{
}

} // verus!
