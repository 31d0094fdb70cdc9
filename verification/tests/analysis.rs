use spn_cipher::analysis::{
    diff_prob_sbox, find_best_differential, find_best_linear_approximation, linear_bias_sbox,
    parity,
};

#[test]
fn parity_is_the_xor_of_all_bits() {
    assert_eq!(parity(0), 0);
    assert_eq!(parity(1), 1);
    assert_eq!(parity(0b11), 0);
    assert_eq!(parity(0xFFFF), 0);
    assert_eq!(parity(0x8001), 0);
    assert_eq!(parity(0x8000), 1);
    for x in 0..=u16::MAX {
        assert_eq!(parity(x), (x.count_ones() % 2) as u16);
    }
}

#[test]
fn sbox_bias_exact_values() {
    // the returned value is the bias scaled by 16
    assert_eq!(linear_bias_sbox(1, 5), -4); // bias -1/4
    assert_eq!(linear_bias_sbox(2, 3), 2); // bias 1/8
    assert_eq!(linear_bias_sbox(15, 15), 0); // perfectly balanced
    assert_eq!(linear_bias_sbox(0, 0), 8); // trivial masks always agree: bias 1/2
}

#[test]
fn sbox_differential_exact_values() {
    // the returned value is the probability scaled by 16
    assert_eq!(diff_prob_sbox(1, 3), 4); // probability 1/4
    assert_eq!(diff_prob_sbox(15, 15), 4);
    assert_eq!(diff_prob_sbox(4, 4), 0);
    assert_eq!(diff_prob_sbox(1, 0), 0); // a bijection never collapses a nonzero difference
}

#[test]
fn bias_magnitude_bounded_by_half() {
    for a in 0..16u8 {
        for b in 0..16u8 {
            let s = linear_bias_sbox(a, b);
            assert!(-8 <= s && s <= 8);
        }
    }
}

#[test]
fn differential_probabilities_bounded_by_one() {
    for din in 0..16u8 {
        for dout in 0..16u8 {
            assert!(diff_prob_sbox(din, dout) <= 16);
        }
    }
}

#[test]
fn best_linear_approximation_is_fixed() {
    let (a, b, d) = find_best_linear_approximation();
    assert_eq!((a, b, d), (1, 5, 4));
    assert!(0 < d && d <= 8);
    let bias = d as f32 / 16.0;
    assert!(0.0 < bias && bias <= 0.5);
    // no randomness: a second scan returns the identical triple
    assert_eq!(find_best_linear_approximation(), (a, b, d));
}

#[test]
fn best_differential_is_fixed() {
    let (din, dout, m) = find_best_differential();
    assert_eq!((din, dout, m), (1, 3, 4));
    // input differences scanned start at 1, so the trivial zero/zero
    // differential is excluded
    assert!(din >= 1);
    assert!(m <= 16);
    let prob = m as f32 / 16.0;
    assert!(0.0 <= prob && prob <= 1.0);
    assert_eq!(find_best_differential(), (din, dout, m));
}
