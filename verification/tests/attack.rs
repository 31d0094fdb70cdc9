use spn_cipher::attack::{differential_attack, linear_attack};
use spn_cipher::cipher::{encrypt, expand_key};
use spn_cipher::errors::SpnError;

fn demo_schedule() -> Vec<u16> {
    expand_key(0x1234_5678_90AB_CDEF_1234, 5).unwrap()
}

#[test]
fn linear_attack_recovers_final_round_key_nibble() {
    let keys = demo_schedule();
    let mut pairs = Vec::new();
    for i in 0..10000u32 {
        let p = i as u16;
        pairs.push((p, encrypt(p, &keys).unwrap()));
    }
    // a plaintext mask and a last-round input mask with a large observed
    // bias over the three permuted rounds of this cipher, aimed at
    // nibble 1 of the final round key
    let recovered = linear_attack(&pairs, 0x2000, 0x0080, 1).unwrap();
    assert_eq!(recovered as u16, (keys[4] >> 4) & 0xF);
    assert_eq!(recovered, 3);
}

#[test]
fn differential_attack_recovers_final_round_key_nibble() {
    let keys = demo_schedule();
    let delta_p = 0x0700;
    let mut quads = Vec::new();
    for i in 0..5000u32 {
        let p1 = i as u16;
        let p2 = p1 ^ delta_p;
        quads.push((p1, p2, encrypt(p1, &keys).unwrap(), encrypt(p2, &keys).unwrap()));
    }
    // a chosen-plaintext difference whose dominant propagation through
    // the three permuted rounds reaches nibble 0 of the last-round input
    // as difference 5
    let recovered = differential_attack(&quads, delta_p, 0x0005, 0).unwrap();
    assert_eq!(recovered as u16, keys[4] & 0xF);
    assert_eq!(recovered, 4);
}

#[test]
fn attacks_reject_empty_pair_sets() {
    assert_eq!(linear_attack(&[], 0x2000, 0x0080, 1), Err(SpnError::EmptyPairSet));
    assert_eq!(differential_attack(&[], 1, 1, 0), Err(SpnError::EmptyPairSet));
}

#[test]
fn differential_attack_reports_no_surviving_pairs() {
    // no plaintext pair differs by delta_p, so the right-pair filter
    // removes every quadruple: distinguished from an empty input
    let quads = vec![(0u16, 1u16, 2u16, 3u16), (5, 9, 1, 1)];
    assert_eq!(differential_attack(&quads, 0x0700, 0x0005, 0), Err(SpnError::NoSurvivingPairs));
}

#[test]
fn linear_attack_breaks_ties_by_lowest_candidate() {
    // a single pair gives every candidate deviation 1, so the lowest
    // candidate value wins
    let pairs = vec![(0x1111u16, 0x2222u16)];
    assert_eq!(linear_attack(&pairs, 0x2000, 0x0080, 1), Ok(0));
}

#[test]
fn differential_attack_breaks_ties_by_lowest_candidate() {
    // equal ciphertext nibbles vote for every candidate under a zero
    // expected difference, so the lowest candidate value wins
    let quads = vec![(0u16, 5u16, 0x0033u16, 0x0033u16)];
    assert_eq!(differential_attack(&quads, 5, 0, 0), Ok(0));
}
