use vstd::prelude::*;

use crate::errors::SpnError;
use crate::sbox::{sbox_inv_lookup, sbox_lookup, spec_sbox, spec_sbox_inv};

verus! {

/// Nibble-wise substitution over a 16-bit block: the substitution box is
/// applied independently to each of the four 4-bit chunks.
pub open spec fn spec_sbox_layer(s: u16) -> u16 {
    spec_sbox(s & 0xF) | (spec_sbox((s >> 4) & 0xF) << 4) | (spec_sbox((s >> 8) & 0xF) << 8) | (
    spec_sbox((s >> 12) & 0xF) << 12)
}

/// Nibble-wise inverse substitution over a 16-bit block.
pub open spec fn spec_sbox_inv_layer(s: u16) -> u16 {
    spec_sbox_inv(s & 0xF) | (spec_sbox_inv((s >> 4) & 0xF) << 4) | (spec_sbox_inv(
        (s >> 8) & 0xF,
    ) << 8) | (spec_sbox_inv((s >> 12) & 0xF) << 12)
}

/// The bit permutation: the 16 bits are read as a 4x4 matrix and
/// transposed, so the bit at position i moves to position
/// (i % 4) * 4 + i / 4.
pub open spec fn spec_pbox(s: u16) -> u16 {
    ((s & 1) << 0) | (((s >> 1) & 1) << 4) | (((s >> 2) & 1) << 8) | (((s >> 3) & 1) << 12) | (((s
        >> 4) & 1) << 1) | (((s >> 5) & 1) << 5) | (((s >> 6) & 1) << 9) | (((s >> 7) & 1) << 13)
        | (((s >> 8) & 1) << 2) | (((s >> 9) & 1) << 6) | (((s >> 10) & 1) << 10) | (((s >> 11) & 1)
        << 14) | (((s >> 12) & 1) << 3) | (((s >> 13) & 1) << 7) | (((s >> 14) & 1) << 11) | (((s
        >> 15) & 1) << 15)
}

/// Round key i of a master key: bits [80 - 16(i+1), 80 - 16i) of the
/// 80-bit master key, most significant chunk first.
pub open spec fn spec_round_key(master_key: u128, i: int) -> u16
    recommends
        0 <= i <= 4,
{
    (master_key >> ((64 - 16 * i) as u128)) as u16
}

/// The full schedule: consecutive 16-bit chunks of the master key, from
/// most to least significant.
pub open spec fn spec_expand_key(master_key: u128, rounds: int) -> Seq<u16>
    recommends
        0 <= rounds <= 5,
{
    Seq::new(rounds as nat, |i: int| spec_round_key(master_key, i))
}

/// One whitening XOR, three full rounds (substitute, permute, XOR round
/// key), then a final round that substitutes and XORs the last key but —
/// deliberately — skips the permutation.
pub open spec fn spec_encrypt(p: u16, k: Seq<u16>) -> u16
    recommends
        k.len() == 5,
{
    let s0 = p ^ k[0];
    let s1 = spec_pbox(spec_sbox_layer(s0)) ^ k[1];
    let s2 = spec_pbox(spec_sbox_layer(s1)) ^ k[2];
    let s3 = spec_pbox(spec_sbox_layer(s2)) ^ k[3];
    spec_sbox_layer(s3) ^ k[4]
}

/// The exact algebraic inverse of `spec_encrypt`, reusing the
/// self-inverse permutation.
pub open spec fn spec_decrypt(c: u16, k: Seq<u16>) -> u16
    recommends
        k.len() == 5,
{
    let s3 = spec_sbox_inv_layer(c ^ k[4]);
    let s2 = spec_sbox_inv_layer(spec_pbox(s3 ^ k[3]));
    let s1 = spec_sbox_inv_layer(spec_pbox(s2 ^ k[2]));
    let s0 = spec_sbox_inv_layer(spec_pbox(s1 ^ k[1]));
    s0 ^ k[0]
}

/// Applies the substitution box to each nibble of a 16-bit word.
pub fn sbox_layer(state: u16) -> (r: u16)
    ensures
        r == spec_sbox_layer(state),
{
    let n0 = sbox_lookup(state & 0xF);
    let n1 = sbox_lookup((state >> 4) & 0xF);
    let n2 = sbox_lookup((state >> 8) & 0xF);
    let n3 = sbox_lookup((state >> 12) & 0xF);
    n0 | (n1 << 4) | (n2 << 8) | (n3 << 12)
}

/// Applies the inverse substitution box to each nibble of a 16-bit word.
pub fn sbox_inv_layer(state: u16) -> (r: u16)
    ensures
        r == spec_sbox_inv_layer(state),
{
    let n0 = sbox_inv_lookup(state & 0xF);
    let n1 = sbox_inv_lookup((state >> 4) & 0xF);
    let n2 = sbox_inv_lookup((state >> 8) & 0xF);
    let n3 = sbox_inv_lookup((state >> 12) & 0xF);
    n0 | (n1 << 4) | (n2 << 8) | (n3 << 12)
}

/// Transposes the 16 bits of the block read as a 4x4 matrix.
pub fn pbox(state: u16) -> (r: u16)
    ensures
        r == spec_pbox(state),
{
    ((state & 1) << 0) | (((state >> 1) & 1) << 4) | (((state >> 2) & 1) << 8) | (((state >> 3)
        & 1) << 12) | (((state >> 4) & 1) << 1) | (((state >> 5) & 1) << 5) | (((state >> 6) & 1)
        << 9) | (((state >> 7) & 1) << 13) | (((state >> 8) & 1) << 2) | (((state >> 9) & 1) << 6)
        | (((state >> 10) & 1) << 10) | (((state >> 11) & 1) << 14) | (((state >> 12) & 1) << 3) | (
    ((state >> 13) & 1) << 7) | (((state >> 14) & 1) << 11) | (((state >> 15) & 1) << 15)
}

/// Derives the round-key schedule: `rounds` consecutive 16-bit chunks of
/// the 80-bit master key, from most to least significant. Reading past
/// the key's 80 bits is rejected as an invalid configuration rather than
/// silently wrapping or truncating.
pub fn expand_key(master_key: u128, rounds: usize) -> (r: Result<Vec<u16>, SpnError>)
    ensures
        16 * rounds <= 80 ==> r is Ok && (r->Ok_0)@ == spec_expand_key(master_key, rounds as int),
        16 * rounds > 80 ==> r == Err::<Vec<u16>, SpnError>(SpnError::InvalidConfiguration),
{
    if rounds > 5 {
        return Err(SpnError::InvalidConfiguration);
    }
    let mut keys: Vec<u16> = Vec::new();
    let mut i: usize = 0;
    while i < rounds
        invariant
            rounds <= 5,
            i <= rounds,
            keys@.len() == i as int,
            forall|j: int| 0 <= j < i ==> keys@[j] == spec_round_key(master_key, j),
        decreases rounds - i,
    {
        let sh: u128 = (64 - 16 * i) as u128;
        let k = #[verifier::truncate] ((master_key >> sh) as u16);
        keys.push(k);
        i = i + 1;
    }
    proof {
        assert(keys@ =~= spec_expand_key(master_key, rounds as int));
    }
    Ok(keys)
}

/// Encrypts one 16-bit block under a schedule of exactly five round keys:
/// whitening with key 0, three substitute-permute-XOR rounds, then a
/// final substitute-and-XOR round with no permutation.
pub fn encrypt(plaintext: u16, round_keys: &[u16]) -> (r: Result<u16, SpnError>)
    ensures
        round_keys@.len() == 5 ==> r == Ok::<u16, SpnError>(spec_encrypt(plaintext, round_keys@)),
        round_keys@.len() != 5 ==> r == Err::<u16, SpnError>(SpnError::InvalidKeySchedule),
{
    if round_keys.len() != 5 {
        return Err(SpnError::InvalidKeySchedule);
    }
    let mut state = plaintext ^ round_keys[0];
    state = pbox(sbox_layer(state)) ^ round_keys[1];
    state = pbox(sbox_layer(state)) ^ round_keys[2];
    state = pbox(sbox_layer(state)) ^ round_keys[3];
    state = sbox_layer(state) ^ round_keys[4];
    Ok(state)
}

/// Decrypts one 16-bit block: the exact algebraic inverse of `encrypt`
/// under the same five-entry schedule.
pub fn decrypt(ciphertext: u16, round_keys: &[u16]) -> (r: Result<u16, SpnError>)
    ensures
        round_keys@.len() == 5 ==> r == Ok::<u16, SpnError>(spec_decrypt(ciphertext, round_keys@)),
        round_keys@.len() != 5 ==> r == Err::<u16, SpnError>(SpnError::InvalidKeySchedule),
{
    if round_keys.len() != 5 {
        return Err(SpnError::InvalidKeySchedule);
    }
    let mut state = sbox_inv_layer(ciphertext ^ round_keys[4]);
    state = sbox_inv_layer(pbox(state ^ round_keys[3]));
    state = sbox_inv_layer(pbox(state ^ round_keys[2]));
    state = sbox_inv_layer(pbox(state ^ round_keys[1]));
    Ok(state ^ round_keys[0])
}

/// XORing the same value twice restores the original word.
proof fn lemma_xor_cancel(x: u16, a: u16)
    ensures
        (x ^ a) ^ a == x,
{
    assert((x ^ a) ^ a == x) by (bit_vector);
}

/// Inverse substitution undoes substitution on every 16-bit block, and
/// vice versa.
pub proof fn lemma_substitution_round_trip(x: u16)
    ensures
        spec_sbox_inv_layer(spec_sbox_layer(x)) == x,
        spec_sbox_layer(spec_sbox_inv_layer(x)) == x,
{
    assert(spec_sbox_inv_layer(spec_sbox_layer(x)) == x) by (bit_vector);
    assert(spec_sbox_layer(spec_sbox_inv_layer(x)) == x) by (bit_vector);
}

/// The bit permutation is an involution: applying it twice restores
/// every 16-bit block.
pub proof fn lemma_permute_involutive(x: u16)
    ensures
        spec_pbox(spec_pbox(x)) == x,
{
    assert(spec_pbox(spec_pbox(x)) == x) by (bit_vector);
}

/// Decryption inverts encryption: for every 16-bit plaintext and every
/// five-entry round-key schedule, decrypting the ciphertext under the
/// same schedule restores the plaintext.
pub proof fn lemma_decrypt_inverts_encrypt(p: u16, k: Seq<u16>)
    requires
        k.len() == 5,
    ensures
        spec_decrypt(spec_encrypt(p, k), k) == p,
{
    let s0 = p ^ k[0];
    let s1 = spec_pbox(spec_sbox_layer(s0)) ^ k[1];
    let s2 = spec_pbox(spec_sbox_layer(s1)) ^ k[2];
    let s3 = spec_pbox(spec_sbox_layer(s2)) ^ k[3];
    let c = spec_sbox_layer(s3) ^ k[4];
    lemma_xor_cancel(spec_sbox_layer(s3), k[4]);
    lemma_substitution_round_trip(s3);
    lemma_xor_cancel(spec_pbox(spec_sbox_layer(s2)), k[3]);
    lemma_permute_involutive(spec_sbox_layer(s2));
    lemma_substitution_round_trip(s2);
    lemma_xor_cancel(spec_pbox(spec_sbox_layer(s1)), k[2]);
    lemma_permute_involutive(spec_sbox_layer(s1));
    lemma_substitution_round_trip(s1);
    lemma_xor_cancel(spec_pbox(spec_sbox_layer(s0)), k[1]);
    lemma_permute_involutive(spec_sbox_layer(s0));
    lemma_substitution_round_trip(s0);
    lemma_xor_cancel(p, k[0]);
}

} // verus!
