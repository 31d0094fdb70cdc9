use spn_cipher::cipher::{decrypt, encrypt, expand_key, pbox, sbox_inv_layer, sbox_layer};
use spn_cipher::errors::SpnError;

#[test]
fn substitution_round_trip_all_blocks() {
    for x in 0..=u16::MAX {
        assert_eq!(sbox_inv_layer(sbox_layer(x)), x);
        assert_eq!(sbox_layer(sbox_inv_layer(x)), x);
    }
}

#[test]
fn permutation_is_involutive_all_blocks() {
    for x in 0..=u16::MAX {
        assert_eq!(pbox(pbox(x)), x);
    }
}

#[test]
fn permutation_transposes_bits() {
    for i in 0..16u32 {
        let j = (i % 4) * 4 + i / 4;
        assert_eq!(pbox(1u16 << i), 1u16 << j);
    }
}

#[test]
fn schedule_slices_master_key() {
    let keys = expand_key(0x1234_5678_90AB_CDEF_1234, 5).unwrap();
    assert_eq!(keys, vec![0x1234, 0x5678, 0x90AB, 0xCDEF, 0x1234]);
    let three = expand_key(0x1234_5678_90AB_CDEF_1234, 3).unwrap();
    assert_eq!(three, vec![0x1234, 0x5678, 0x90AB]);
    assert_eq!(expand_key(7, 0).unwrap(), Vec::<u16>::new());
}

#[test]
fn schedule_rejects_reading_past_the_key() {
    assert_eq!(expand_key(1, 6), Err(SpnError::InvalidConfiguration));
    assert_eq!(expand_key(0, 1000), Err(SpnError::InvalidConfiguration));
}

#[test]
fn known_block_round_trip() {
    let keys = expand_key(0x1234_5678_90AB_CDEF_1234, 5).unwrap();
    let c = encrypt(0xABCD, &keys).unwrap();
    assert_eq!(c, 0x3A83);
    assert_eq!(decrypt(c, &keys).unwrap(), 0xABCD);
}

#[test]
fn decrypt_inverts_encrypt_all_blocks() {
    let keys = expand_key(0xFFEE_DDCC_BBAA_0099_8877, 5).unwrap();
    let mut p: u16 = 0;
    loop {
        let c = encrypt(p, &keys).unwrap();
        assert_eq!(decrypt(c, &keys).unwrap(), p);
        if p == u16::MAX {
            break;
        }
        p += 1;
    }
}

#[test]
fn wrong_schedule_length_is_rejected() {
    let four = vec![1u16, 2, 3, 4];
    assert_eq!(encrypt(0, &four), Err(SpnError::InvalidKeySchedule));
    assert_eq!(decrypt(0, &four), Err(SpnError::InvalidKeySchedule));
    let six = vec![0u16, 0, 0, 0, 0, 0];
    assert_eq!(encrypt(0xABCD, &six), Err(SpnError::InvalidKeySchedule));
    assert_eq!(decrypt(0xABCD, &six), Err(SpnError::InvalidKeySchedule));
}
