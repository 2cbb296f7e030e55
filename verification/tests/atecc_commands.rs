//! Command constants, parameter encodings and addresses of the ATECC608B
//! driver.

use mini_hsm::atecc::command::checkmac::{CHECKMAC_DATA_SIZE, CHECKMAC_MODE_CHALLENGE};
use mini_hsm::atecc::command::counter::{COUNTER_MODE_INCREMENT, COUNTER_MODE_READ, CounterId};
use mini_hsm::atecc::command::gendig::GenDigZone;
use mini_hsm::atecc::command::genkey::{GENKEY_MODE_CREATE, GENKEY_MODE_PUBLIC, PUBLIC_KEY_SIZE};
use mini_hsm::atecc::command::lock::lock_slot_mode;
use mini_hsm::atecc::command::nonce::NonceTarget;
use mini_hsm::atecc::command::privwrite::{PRIVWRITE_CLEARTEXT_SIZE, PRIVWRITE_MODE_CLEARTEXT};
use mini_hsm::atecc::command::read_write::{
    ENCRYPTED_WRITE_DATA_SIZE, Zone, config_or_otp_address, data_address, read_param1, write_param1,
};
use mini_hsm::atecc::command::sign::{SIGNATURE_SIZE, SIGN_MODE_EXTERNAL_FROM_MSGDIGBUF};
use mini_hsm::atecc::command::verify::{VERIFY_EXTERNAL_DATA_SIZE, VERIFY_KEY_P256, VERIFY_MODE_EXTERNAL};
use mini_hsm::atecc::slot::Slot;

#[test]
fn data_size_is_77() {
    assert_eq!(CHECKMAC_DATA_SIZE, 77);
}

#[test]
fn challenge_mode_matches_cryptoauthlib_constant() {
    assert_eq!(CHECKMAC_MODE_CHALLENGE, 0x00);
}

#[test]
fn counter_modes_match_cryptoauthlib_constants() {
    assert_eq!(COUNTER_MODE_READ, 0x00);
    assert_eq!(COUNTER_MODE_INCREMENT, 0x01);
}

#[test]
fn counter_id_encodes_as_param2() {
    assert_eq!(CounterId::Counter0.as_param2(), 0x0000);
    assert_eq!(CounterId::Counter1.as_param2(), 0x0001);
}

#[test]
fn zone_encoding_matches_cryptoauthlib_constants() {
    assert_eq!(GenDigZone::Config.as_param1(), 0x00);
    assert_eq!(GenDigZone::Otp.as_param1(), 0x01);
    assert_eq!(GenDigZone::Data.as_param1(), 0x02);
}

#[test]
fn modes_match_cryptoauthlib_constants() {
    assert_eq!(GENKEY_MODE_CREATE, 0x04);
    assert_eq!(GENKEY_MODE_PUBLIC, 0x00);
}

#[test]
fn public_key_size_is_64() {
    assert_eq!(PUBLIC_KEY_SIZE, 64);
}

#[test]
fn cleartext_payload_size_is_36() {
    assert_eq!(PRIVWRITE_CLEARTEXT_SIZE, 36);
}

#[test]
fn cleartext_mode_is_zero() {
    assert_eq!(PRIVWRITE_MODE_CLEARTEXT, 0x00);
}

#[test]
fn sign_external_mode_matches_cryptoauthlib_constant() {
    assert_eq!(SIGN_MODE_EXTERNAL_FROM_MSGDIGBUF, 0xA0);
}

#[test]
fn signature_size_is_64() {
    assert_eq!(SIGNATURE_SIZE, 64);
}

#[test]
fn verify_external_mode_matches_cryptoauthlib_constant() {
    assert_eq!(VERIFY_MODE_EXTERNAL, 0x02);
}

#[test]
fn p256_key_id_matches_cryptoauthlib_constant() {
    assert_eq!(VERIFY_KEY_P256, 0x0004);
}

#[test]
fn external_data_size_is_128() {
    assert_eq!(VERIFY_EXTERNAL_DATA_SIZE, 128);
}

#[test]
fn read_param1_config_4_bytes_is_zero() {
    assert_eq!(read_param1(Zone::Config, false), 0x00);
}

#[test]
fn read_param1_config_32_bytes_sets_flag() {
    assert_eq!(read_param1(Zone::Config, true), 0x80);
}

#[test]
fn read_param1_data_4_bytes() {
    assert_eq!(read_param1(Zone::Data, false), 0x02);
}

#[test]
fn read_param1_data_32_bytes() {
    assert_eq!(read_param1(Zone::Data, true), 0x82);
}

#[test]
fn read_param1_otp_variants() {
    assert_eq!(read_param1(Zone::Otp, false), 0x01);
    assert_eq!(read_param1(Zone::Otp, true), 0x81);
}

#[test]
fn write_param1_cleartext_variants_match_read_param1() {
    assert_eq!(write_param1(Zone::Config, false, false), 0x00);
    assert_eq!(write_param1(Zone::Data, true, false), 0x82);
    assert_eq!(write_param1(Zone::Otp, true, false), 0x81);
}

#[test]
fn write_param1_encrypted_sets_bit_6() {
    assert_eq!(write_param1(Zone::Data, true, true), 0xC2);
    assert_eq!(write_param1(Zone::Config, true, true), 0xC0);
}

#[test]
fn config_address_block_0_offset_0_is_zero() {
    assert_eq!(config_or_otp_address(0, 0), 0x0000);
}

#[test]
fn config_address_block_index_in_bits_3_4() {
    assert_eq!(config_or_otp_address(1, 0), 0x0008);
    assert_eq!(config_or_otp_address(2, 0), 0x0010);
    assert_eq!(config_or_otp_address(3, 0), 0x0018);
}

#[test]
fn config_address_offset_in_low_bits() {
    assert_eq!(config_or_otp_address(0, 1), 0x0001);
    assert_eq!(config_or_otp_address(0, 7), 0x0007);
    assert_eq!(config_or_otp_address(2, 3), 0x0013);
}

#[test]
fn config_address_truncates_oversized_fields() {
    assert_eq!(config_or_otp_address(0xFF, 0xFF), 0x001F);
}

#[test]
fn data_address_slot_5_block_0_offset_0() {
    let slot = Slot::const_new(5);
    assert_eq!(data_address(slot, 0, 0), 0x0028);
}

#[test]
fn data_address_slot_8_block_0_offset_0() {
    let slot = Slot::const_new(8);
    assert_eq!(data_address(slot, 0, 0), 0x0040);
}

#[test]
fn data_address_slot_0_block_1_offset_0() {
    let slot = Slot::const_new(0);
    assert_eq!(data_address(slot, 1, 0), 0x0100);
}

#[test]
fn data_address_slot_15_block_0_offset_7() {
    let slot = Slot::const_new(15);
    assert_eq!(data_address(slot, 0, 7), 0x007F);
}

#[test]
fn encrypted_data_size_is_64_bytes() {
    assert_eq!(ENCRYPTED_WRITE_DATA_SIZE, 64);
}

#[test]
fn data_address_keeps_block_and_masks_offset() {
    let slot = Slot::const_new(3);
    // The block fills the high byte; the offset keeps 3 bits.
    assert_eq!(data_address(slot, 0xFF, 0xFF), 0xFF1F);
}

#[test]
fn lock_slot_mode_puts_slot_in_bits_2_to_5() {
    assert_eq!(lock_slot_mode(Slot::const_new(0)), 0x82);
    assert_eq!(lock_slot_mode(Slot::const_new(5)), 0x82 | (5 << 2));
    assert_eq!(lock_slot_mode(Slot::const_new(15)), 0xBE);
}

#[test]
fn nonce_passthrough_targets() {
    assert_eq!(NonceTarget::TempKey.passthrough_param1(), 0x03);
    assert_eq!(NonceTarget::MsgDigBuf.passthrough_param1(), 0x43);
}

#[test]
fn slot_new_accepts_only_sixteen_slots() {
    assert_eq!(Slot::new(15).map(|s| s.as_u8()), Some(15));
    assert!(Slot::new(16).is_none());
    assert!(Slot::new(0xFF).is_none());
}
