//! Host-side cryptography, PIN session and batch arithmetic of the crypto
//! service.

use mini_hsm::atecc::slot::Slot;
use mini_hsm::service::encrypted_write::{
    CHIP_SERIAL_LEN, SLOT_VALUE_LEN, build_encrypted_write_payload, derive_session_key, encrypt_payload, write_mac,
};
use mini_hsm::service::pin::{
    FormatError, HASH_LEN, checkmac_other_data, checkmac_response, pin_hash, pin_salt, puk_hash, puk_salt,
    validate_digits,
};
use mini_hsm::service::service::{
    can_write_block_in_one_transfer, config_block_from_config, counter_bumps, provisioned_from_config,
    puk_from_random, retries_remaining, serial_from_config, slot_config_from_config, writable_words_in_block,
};
use mini_hsm::service::session::{SESSION_TIMEOUT_MS, Session};

// ---------------------------------------------------------------- encrypted write

#[test]
fn session_key_is_deterministic() {
    let io_key = [0x11u8; SLOT_VALUE_LEN];
    let nonce = [0x22u8; SLOT_VALUE_LEN];
    let serial = [0x33u8; CHIP_SERIAL_LEN];
    let k1 = derive_session_key(&io_key, &nonce, 8, &serial);
    let k2 = derive_session_key(&io_key, &nonce, 8, &serial);
    assert_eq!(k1, k2);
}

#[test]
fn session_key_changes_with_each_input() {
    let io_key = [0x11u8; SLOT_VALUE_LEN];
    let nonce = [0x22u8; SLOT_VALUE_LEN];
    let serial = [0x33u8; CHIP_SERIAL_LEN];
    let base = derive_session_key(&io_key, &nonce, 8, &serial);

    let mut io_key2 = io_key;
    io_key2[0] ^= 0xFF;
    assert_ne!(derive_session_key(&io_key2, &nonce, 8, &serial), base);

    let mut nonce2 = nonce;
    nonce2[0] ^= 0xFF;
    assert_ne!(derive_session_key(&io_key, &nonce2, 8, &serial), base);

    assert_ne!(derive_session_key(&io_key, &nonce, 9, &serial), base);

    let mut serial2 = serial;
    serial2[0] ^= 0xFF;
    assert_ne!(derive_session_key(&io_key, &nonce, 8, &serial2), base);
}

#[test]
fn session_key_matches_sha256_of_gendig_message() {
    let io_key = [0x11u8; SLOT_VALUE_LEN];
    let nonce = [0x22u8; SLOT_VALUE_LEN];
    let serial = [0x33u8; CHIP_SERIAL_LEN];
    let expected: [u8; 32] = [
        0x8b, 0x43, 0x5b, 0xcc, 0x48, 0x51, 0xef, 0x92, 0xb4, 0x8a, 0x10, 0x0e, 0x97, 0xdf, 0x51, 0x32, 0x3b, 0x21,
        0x19, 0x33, 0xcc, 0xa7, 0x23, 0x7c, 0xd6, 0x57, 0xf6, 0xa1, 0x26, 0xfe, 0xc1, 0x50,
    ];
    assert_eq!(derive_session_key(&io_key, &nonce, 8, &serial), expected);
}

#[test]
fn encrypt_is_xor_and_self_inverse() {
    let plaintext = [0xAAu8; SLOT_VALUE_LEN];
    let key = [0x55u8; SLOT_VALUE_LEN];
    let ciphertext = encrypt_payload(&plaintext, &key);
    assert!(ciphertext.iter().all(|&b| b == 0xFF));
    let recovered = encrypt_payload(&ciphertext, &key);
    assert_eq!(recovered, plaintext);
}

#[test]
fn write_mac_is_deterministic() {
    let session = [0x22u8; SLOT_VALUE_LEN];
    let plaintext = [0x33u8; SLOT_VALUE_LEN];
    let serial = [0x44u8; CHIP_SERIAL_LEN];
    let slot = Slot::new(5).unwrap();
    let m1 = write_mac(&session, &plaintext, slot, 0, &serial);
    let m2 = write_mac(&session, &plaintext, slot, 0, &serial);
    assert_eq!(m1, m2);
}

#[test]
fn write_mac_changes_with_target_slot() {
    let session = [0x22u8; SLOT_VALUE_LEN];
    let plaintext = [0x33u8; SLOT_VALUE_LEN];
    let serial = [0x44u8; CHIP_SERIAL_LEN];
    let m_slot_5 = write_mac(&session, &plaintext, Slot::new(5).unwrap(), 0, &serial);
    let m_slot_6 = write_mac(&session, &plaintext, Slot::new(6).unwrap(), 0, &serial);
    assert_ne!(m_slot_5, m_slot_6);
}

#[test]
fn build_payload_concatenates_correctly() {
    let c = [0xAAu8; SLOT_VALUE_LEN];
    let m = [0xBBu8; SLOT_VALUE_LEN];
    let payload = build_encrypted_write_payload(&c, &m);
    assert!(payload[0..32].iter().all(|&b| b == 0xAA));
    assert!(payload[32..64].iter().all(|&b| b == 0xBB));
}

// ---------------------------------------------------------------- PIN hashing

#[test]
fn validate_digits_accepts_ascii_digits() {
    assert!(validate_digits(b"0000").is_ok());
    assert!(validate_digits(b"1234").is_ok());
    assert!(validate_digits(b"99999999").is_ok());
}

#[test]
fn validate_digits_rejects_non_digit() {
    assert_eq!(validate_digits(b"12A4"), Err(FormatError::NonDigit { position: 2 }));
    assert_eq!(validate_digits(b" 234"), Err(FormatError::NonDigit { position: 0 }));
}

#[test]
fn validate_digits_reports_first_offender_and_accepts_empty() {
    assert_eq!(validate_digits(b"1/:9"), Err(FormatError::NonDigit { position: 1 }));
    assert!(validate_digits(b"").is_ok());
}

#[test]
fn pin_salt_is_deterministic() {
    let serial = [0u8; 9];
    assert_eq!(pin_salt(&serial), pin_salt(&serial));
}

#[test]
fn pin_salt_changes_with_serial() {
    assert_ne!(pin_salt(&[1u8; 9]), pin_salt(&[2u8; 9]));
}

#[test]
fn pin_salt_and_puk_salt_differ() {
    let serial = [0xAB; 9];
    assert_ne!(pin_salt(&serial), puk_salt(&serial));
}

#[test]
fn pin_salt_matches_sha256_of_domain_and_serial() {
    let expected: [u8; 32] = [
        0xbe, 0xea, 0x4c, 0xb6, 0x2b, 0xff, 0x0b, 0xd9, 0x3c, 0x0a, 0x4d, 0x48, 0x9b, 0x6c, 0x6b, 0x7b, 0x75, 0xfc,
        0x43, 0x8c, 0x61, 0xad, 0xc2, 0x43, 0xb5, 0x56, 0x1b, 0x36, 0xc4, 0xab, 0x10, 0x5a,
    ];
    assert_eq!(pin_salt(&[0u8; 9]), expected);
}

#[test]
fn pin_hash_is_deterministic() {
    let pin = *b"0000";
    let salt = [0u8; HASH_LEN];
    assert_eq!(pin_hash(pin, &salt), pin_hash(pin, &salt));
}

#[test]
fn pin_hash_changes_with_pin() {
    let salt = [0u8; HASH_LEN];
    assert_ne!(pin_hash(*b"0000", &salt), pin_hash(*b"1234", &salt));
}

#[test]
fn pin_hash_changes_with_salt() {
    let pin = *b"0000";
    assert_ne!(pin_hash(pin, &[0u8; HASH_LEN]), pin_hash(pin, &[1u8; HASH_LEN]));
}

#[test]
fn pin_hash_matches_sha256_of_pin_and_salt() {
    let expected: [u8; 32] = [
        0x0b, 0xbc, 0x2d, 0xc1, 0x90, 0x75, 0x4a, 0x4f, 0xa2, 0x25, 0xfd, 0x18, 0xf6, 0x2c, 0xab, 0x10, 0xb8, 0x53,
        0xb3, 0xa5, 0xf3, 0xa5, 0x68, 0x1d, 0xb5, 0xab, 0x48, 0x9e, 0x5f, 0xa9, 0xe5, 0xc5,
    ];
    assert_eq!(pin_hash(*b"1234", &[0u8; HASH_LEN]), expected);
}

#[test]
fn puk_hash_differs_from_pin_hash_of_its_prefix() {
    let salt = [7u8; HASH_LEN];
    assert_ne!(puk_hash(*b"12345678", &salt), pin_hash(*b"1234", &salt));
}

#[test]
fn checkmac_response_is_deterministic() {
    let slot_value = [0xAAu8; HASH_LEN];
    let challenge = [0xBBu8; HASH_LEN];
    let other_data = [0xCCu8; 13];
    let serial = [0xDDu8; 9];
    let r1 = checkmac_response(&slot_value, &challenge, &other_data, &serial);
    let r2 = checkmac_response(&slot_value, &challenge, &other_data, &serial);
    assert_eq!(r1, r2);
}

#[test]
fn checkmac_response_matches_cryptoauthlib_oracle_v1_uniform() {
    let got = checkmac_response(&[0xAAu8; HASH_LEN], &[0xBBu8; HASH_LEN], &[0xCCu8; 13], &[0xDDu8; 9]);
    let expected: [u8; HASH_LEN] = [
        0xe6, 0x70, 0x6b, 0xdf, 0x1f, 0x6b, 0x55, 0x3f, 0xce, 0x61, 0xbb, 0x4c, 0xfe, 0x90, 0xa9, 0x2e, 0x19, 0x9e,
        0x80, 0x04, 0x04, 0x87, 0x88, 0x34, 0xe5, 0xcc, 0x3c, 0x73, 0xde, 0xba, 0x24, 0xe9,
    ];
    assert_eq!(got, expected, "host CheckMac formula diverges from CryptoAuthLib (v1)");
}

#[test]
fn checkmac_response_matches_cryptoauthlib_oracle_v2_linear() {
    let slot_value: [u8; HASH_LEN] = core::array::from_fn(|i| u8::try_from(i).unwrap());
    let challenge: [u8; HASH_LEN] = core::array::from_fn(|i| u8::try_from(i + 32).unwrap());
    let other_data: [u8; 13] = core::array::from_fn(|i| 0x80 + u8::try_from(i).unwrap());
    let serial: [u8; 9] = core::array::from_fn(|i| 0xE0 + u8::try_from(i).unwrap());
    let got = checkmac_response(&slot_value, &challenge, &other_data, &serial);
    let expected: [u8; HASH_LEN] = [
        0x06, 0x78, 0x0a, 0x56, 0x55, 0x68, 0x0c, 0x31, 0x23, 0x89, 0x3d, 0xd3, 0x9b, 0x7f, 0x3f, 0x71, 0xfa, 0x8d,
        0x37, 0x81, 0x98, 0x34, 0xfd, 0xf5, 0xf2, 0xe7, 0xf1, 0x1e, 0x26, 0xed, 0xad, 0xa8,
    ];
    assert_eq!(got, expected, "host CheckMac formula diverges from CryptoAuthLib (v2)");
}

#[test]
fn checkmac_response_matches_cryptoauthlib_oracle_v3_realistic() {
    let slot_value: [u8; HASH_LEN] = [
        0x9b, 0x87, 0x1d, 0x4f, 0x3c, 0x2c, 0xa9, 0x2f, 0x14, 0xbd, 0xc3, 0xa6, 0xa6, 0x36, 0xa6, 0xa0, 0x4d, 0xaf,
        0xfb, 0xc0, 0xff, 0x7c, 0xc2, 0x55, 0x68, 0xea, 0xf4, 0x36, 0x55, 0xb6, 0xa3, 0xe9,
    ];
    let challenge: [u8; HASH_LEN] = [
        0x10, 0xd6, 0xf5, 0xc8, 0xb2, 0xa8, 0x60, 0xc5, 0x9a, 0xf7, 0xe7, 0x40, 0x4c, 0x21, 0x4a, 0x10, 0x6f, 0x07,
        0xa7, 0x9d, 0x67, 0xeb, 0xfc, 0xee, 0xa6, 0xaf, 0xc9, 0x65, 0x88, 0x4f, 0x40, 0x12,
    ];
    let other_data: [u8; 13] = [0x28, 0x00, 0x05, 0x00, 0x00, 0x00, 0x00, 0x00, 0x00, 0x00, 0x00, 0x00, 0x00];
    let serial: [u8; 9] = [0x01, 0x23, 0xa1, 0xb2, 0xc3, 0xd4, 0xe5, 0xf6, 0xee];
    let got = checkmac_response(&slot_value, &challenge, &other_data, &serial);
    let expected: [u8; HASH_LEN] = [
        0xd8, 0xab, 0x16, 0xa7, 0x5d, 0xc3, 0xbc, 0x16, 0xca, 0xd1, 0xd9, 0x55, 0x4d, 0x24, 0xbb, 0x95, 0x47, 0x6f,
        0x55, 0x90, 0x5e, 0x91, 0xb8, 0x1d, 0x86, 0x60, 0x4c, 0x32, 0x77, 0x18, 0x4d, 0x1f,
    ];
    assert_eq!(got, expected, "host CheckMac formula diverges from CryptoAuthLib (v3)");
}

#[test]
fn checkmac_response_changes_with_each_input() {
    let slot_value = [0xAAu8; HASH_LEN];
    let challenge = [0xBBu8; HASH_LEN];
    let other_data = [0xCCu8; 13];
    let serial = [0xDDu8; 9];
    let base = checkmac_response(&slot_value, &challenge, &other_data, &serial);

    let mut v = slot_value;
    v[0] ^= 0xFF;
    assert_ne!(checkmac_response(&v, &challenge, &other_data, &serial), base);
    let mut c = challenge;
    c[0] ^= 0xFF;
    assert_ne!(checkmac_response(&slot_value, &c, &other_data, &serial), base);
    let mut o = other_data;
    o[0] ^= 0xFF;
    assert_ne!(checkmac_response(&slot_value, &challenge, &o, &serial), base);
    let mut s = serial;
    s[8] ^= 0xFF;
    assert_ne!(checkmac_response(&slot_value, &challenge, &other_data, &s), base);
}

#[test]
fn checkmac_response_uses_every_other_data_byte() {
    let slot_value = [0xAAu8; HASH_LEN];
    let challenge = [0xBBu8; HASH_LEN];
    let other_data = [0xCCu8; 13];
    let serial = [0xDDu8; 9];
    let base = checkmac_response(&slot_value, &challenge, &other_data, &serial);
    for index in 0..13 {
        let mut o = other_data;
        o[index] ^= 0xFF;
        assert_ne!(
            checkmac_response(&slot_value, &challenge, &o, &serial),
            base,
            "other_data byte {} should affect the MAC",
            index,
        );
    }
}

#[test]
fn checkmac_response_only_uses_serial_bytes_0_1_8() {
    let slot_value = [0xAAu8; HASH_LEN];
    let challenge = [0xBBu8; HASH_LEN];
    let other_data = [0xCCu8; 13];
    let serial = [0xDDu8; 9];
    let base = checkmac_response(&slot_value, &challenge, &other_data, &serial);
    for ignored_index in 2..=7 {
        let mut s = serial;
        s[ignored_index] ^= 0xFF;
        assert_eq!(
            checkmac_response(&slot_value, &challenge, &other_data, &s),
            base,
            "serial byte {} should NOT affect the MAC",
            ignored_index,
        );
    }
    for used_index in [0, 1, 8] {
        let mut s = serial;
        s[used_index] ^= 0xFF;
        assert_ne!(
            checkmac_response(&slot_value, &challenge, &other_data, &s),
            base,
            "serial byte {} should affect the MAC",
            used_index,
        );
    }
}

#[test]
fn checkmac_other_data_populates_known_bytes() {
    let serial = [0x01, 0x23, 0x45, 0x67, 0x89, 0xAB, 0xCD, 0xEF, 0x00];
    let data = checkmac_other_data(5, &serial);
    assert_eq!(data[0], 0x28);
    assert_eq!(data[1], 0x00);
    assert_eq!(data[2], 5);
    assert_eq!(data[3], 0x00);
}

// ---------------------------------------------------------------- session

#[test]
fn fresh_session_is_inactive() {
    let s = Session::new();
    assert!(!s.is_active(0));
    assert!(!s.is_active(1_000_000));
}

#[test]
fn opened_session_is_active_at_open_time() {
    let mut s = Session::new();
    s.open(100);
    assert!(s.is_active(100));
}

#[test]
fn session_active_within_timeout() {
    let mut s = Session::new();
    s.open(0);
    assert!(s.is_active(SESSION_TIMEOUT_MS - 1));
}

#[test]
fn session_expires_at_timeout() {
    let mut s = Session::new();
    s.open(0);
    assert!(!s.is_active(SESSION_TIMEOUT_MS));
}

#[test]
fn touch_extends_session() {
    let mut s = Session::new();
    s.open(0);
    s.touch(15_000);
    assert!(s.is_active(30_000));
    assert!(!s.is_active(45_000));
}

#[test]
fn touch_on_closed_session_is_noop() {
    let mut s = Session::new();
    s.touch(100);
    assert!(!s.is_active(100));
}

#[test]
fn close_drops_active_session() {
    let mut s = Session::new();
    s.open(0);
    s.close();
    assert!(!s.is_active(0));
}

#[test]
fn session_opened_near_the_end_of_time_does_not_wrap() {
    let mut s = Session::new();
    s.open(u64::MAX - 10);
    assert!(s.is_active(u64::MAX));
}

// ---------------------------------------------------------------- batches

#[test]
fn retries_remaining_zero_returns_full_batch() {
    assert_eq!(retries_remaining(0, 5), 5);
    assert_eq!(retries_remaining(0, 10), 10);
}

#[test]
fn retries_remaining_remainder_one_returns_batch_minus_one() {
    assert_eq!(retries_remaining(1, 5), 4);
    assert_eq!(retries_remaining(6, 5), 4);
    assert_eq!(retries_remaining(11, 5), 4);
    assert_eq!(retries_remaining(1, 10), 9);
    assert_eq!(retries_remaining(11, 10), 9);
}

#[test]
fn retries_remaining_mid_batch_counts_down() {
    assert_eq!(retries_remaining(2, 5), 3);
    assert_eq!(retries_remaining(3, 5), 2);
    assert_eq!(retries_remaining(4, 5), 1);
}

#[test]
fn retries_remaining_saturation_at_multiple_returns_zero() {
    assert_eq!(retries_remaining(5, 5), 0);
    assert_eq!(retries_remaining(10, 5), 0);
    assert_eq!(retries_remaining(15, 5), 0);
    assert_eq!(retries_remaining(10, 10), 0);
    assert_eq!(retries_remaining(20, 10), 0);
}

#[test]
fn each_attempt_consumes_one_try_and_a_refresh_restores_the_batch() {
    // From a fresh batch (count ≡ 1), every failed attempt costs one try.
    let mut count: u32 = 11;
    let mut left = retries_remaining(count, 5);
    assert_eq!(left, 4);
    while left > 0 {
        count += 1;
        let next = retries_remaining(count, 5);
        assert_eq!(next, left - 1);
        left = next;
    }
    // A refresh bumps the counter to the start of the next batch.
    let bumps = counter_bumps(count, 5);
    assert_eq!(bumps, 1);
    assert_eq!(retries_remaining(count + bumps, 5), 4);
}

#[test]
fn counter_bumps_reach_next_batch_start() {
    assert_eq!(counter_bumps(0, 5), 1);
    assert_eq!(counter_bumps(1, 5), 0);
    assert_eq!(counter_bumps(3, 5), 3);
    assert_eq!(retries_remaining(3 + 3, 5), 4);
    assert_eq!(counter_bumps(12, 10), 9);
    assert_eq!(retries_remaining(12 + 9, 10), 9);
}

#[test]
fn one_transfer_blocks_are_1_and_3_only() {
    assert!(!can_write_block_in_one_transfer(0));
    assert!(can_write_block_in_one_transfer(1));
    assert!(!can_write_block_in_one_transfer(2));
    assert!(can_write_block_in_one_transfer(3));
}

#[test]
fn writable_words_block_0_skips_factory_area() {
    assert_eq!(writable_words_in_block(0), &[4, 5, 6, 7]);
}

#[test]
fn writable_words_block_2_skips_word_5() {
    assert_eq!(writable_words_in_block(2), &[0, 1, 2, 3, 4, 6, 7]);
}

#[test]
fn writable_words_blocks_1_and_3_are_empty_word_lists() {
    assert!(writable_words_in_block(1).is_empty());
    assert!(writable_words_in_block(3).is_empty());
}

#[test]
fn writable_words_one_transfer_and_word_list_are_disjoint() {
    for block in 0u8..=3u8 {
        let one_shot = can_write_block_in_one_transfer(block);
        let words = writable_words_in_block(block);
        assert_eq!(one_shot, words.is_empty(), "block {}: one_transfer={}", block, one_shot);
    }
}

// ---------------------------------------------------------------- config zone images

fn config_image() -> [u8; 128] {
    let mut config = [0u8; 128];
    for (i, byte) in config.iter_mut().enumerate() {
        *byte = i as u8;
    }
    config
}

#[test]
fn serial_comes_from_bytes_0_to_4_and_8_to_13() {
    assert_eq!(serial_from_config(&config_image()), [0, 1, 2, 3, 8, 9, 10, 11, 12]);
}

#[test]
fn provisioned_needs_both_lock_bytes_zero() {
    let mut config = config_image();
    assert!(!provisioned_from_config(&config));
    config[87] = 0x00;
    assert!(!provisioned_from_config(&config));
    config[86] = 0x00;
    assert!(provisioned_from_config(&config));
    config[87] = 0x55;
    assert!(!provisioned_from_config(&config));
}

#[test]
fn slot_config_reads_slot_and_key_config() {
    let config = config_image();
    assert_eq!(slot_config_from_config(&config, Slot::const_new(0)), [20, 21, 96, 97]);
    assert_eq!(slot_config_from_config(&config, Slot::const_new(15)), [50, 51, 126, 127]);
}

#[test]
fn config_block_is_a_32_byte_window() {
    let config = config_image();
    let block = config_block_from_config(&config, 2);
    assert_eq!(block[0], 64);
    assert_eq!(block[31], 95);
}

#[test]
fn puk_digits_are_random_bytes_mod_ten() {
    let mut random = [0u8; 32];
    random[..8].copy_from_slice(&[0, 9, 10, 255, 123, 47, 200, 99]);
    random[8] = 7;
    assert_eq!(&puk_from_random(&random), b"09053709");
}
