//! The USB-HID protocol: opcodes, status codes, report framing, payload
//! parsing and the HID report descriptor.

use mini_hsm::protocol::commands::{
    CommandOpcode, DIGEST_LEN, EMERGENCY_RESET_MAGIC, LOCK_CONFIG_MAGIC, LOCK_DATA_MAGIC, LOCK_SLOT_MAGIC, PIN_LEN,
    PUK_LEN, PayloadError, parse_emergency_reset, parse_lock_config_zone, parse_lock_data_zone, parse_lock_slot,
    parse_provision_slot, parse_set_pin, parse_set_puk, parse_sign, parse_slot_only, parse_unblock_pin,
    parse_verify_pin, parse_write_config_zone, require_len,
};
use mini_hsm::protocol::frame::{Frame, FrameBuildError, FrameParseError};
use mini_hsm::protocol::hid_descriptor::HID_REPORT_DESCRIPTOR;
use mini_hsm::protocol::responses::ResponseStatus;
use mini_hsm::protocol::{HEADER_SIZE, HID_REPORT_SIZE, MAX_PAYLOAD_SIZE, USB_PID, USB_VID};

const ALL_OPCODES: [CommandOpcode; 20] = [
    CommandOpcode::Info,
    CommandOpcode::GetPubkey,
    CommandOpcode::Sign,
    CommandOpcode::GenKey,
    CommandOpcode::ReadConfigZone,
    CommandOpcode::ReadConfigSlot,
    CommandOpcode::VerifyPin,
    CommandOpcode::SetPin,
    CommandOpcode::UnblockPin,
    CommandOpcode::GetPinStatus,
    CommandOpcode::SetPuk,
    CommandOpcode::EmergencyReset,
    CommandOpcode::WriteConfigZone,
    CommandOpcode::ProvisionSlot,
    CommandOpcode::ProvisionInitialPin,
    CommandOpcode::ProvisionInitialPuk,
    CommandOpcode::ProvisionIoKey,
    CommandOpcode::LockConfigZone,
    CommandOpcode::LockDataZone,
    CommandOpcode::LockSlot,
];

// ---------------------------------------------------------------- opcodes

#[test]
fn commands_from_byte_round_trips() {
    for op in ALL_OPCODES {
        assert_eq!(CommandOpcode::from_byte(op.as_u8()), Some(op));
    }
}

#[test]
fn commands_from_byte_returns_none_for_unknown() {
    assert!(CommandOpcode::from_byte(0x00).is_none());
    assert!(CommandOpcode::from_byte(0xFF).is_none());
    assert!(CommandOpcode::from_byte(0x42).is_none());
}

#[test]
fn commands_try_from_returns_error_with_byte() {
    let err = CommandOpcode::try_from(0x42u8).unwrap_err();
    assert_eq!(err.byte, 0x42);
}

#[test]
fn every_byte_decodes_to_at_most_one_opcode() {
    let mut decoded = 0;
    for byte in 0u8..=255 {
        if let Some(op) = CommandOpcode::from_byte(byte) {
            assert_eq!(op.as_u8(), byte);
            decoded += 1;
        }
    }
    assert_eq!(decoded, ALL_OPCODES.len());
}

#[test]
fn opcode_bytes_are_stable() {
    assert_eq!(CommandOpcode::Info.as_u8(), 0x01);
    assert_eq!(CommandOpcode::Sign.as_u8(), 0x03);
}

// ---------------------------------------------------------------- status codes

#[test]
fn responses_from_byte_round_trips() {
    for status in [
        ResponseStatus::Success,
        ResponseStatus::InvalidCommand,
        ResponseStatus::InvalidPayload,
        ResponseStatus::InvalidSlot,
        ResponseStatus::AteccCommunicationError,
        ResponseStatus::AteccChipError,
        ResponseStatus::TouchTimeout,
        ResponseStatus::NotProvisioned,
        ResponseStatus::LockMagicMismatch,
        ResponseStatus::LockCrcMismatch,
        ResponseStatus::Busy,
        ResponseStatus::WrongPin,
        ResponseStatus::PinRequired,
        ResponseStatus::PinBlocked,
        ResponseStatus::WrongPuk,
        ResponseStatus::Bricked,
        ResponseStatus::EmergencyResetNotPermitted,
    ] {
        assert_eq!(ResponseStatus::from_byte(status.as_u8()), Some(status));
    }
}

#[test]
fn responses_try_from_returns_error_with_byte() {
    let err = ResponseStatus::try_from(0x99u8).unwrap_err();
    assert_eq!(err.byte, 0x99);
}

#[test]
fn responses_from_byte_returns_none_for_unknown() {
    assert!(ResponseStatus::from_byte(0x11).is_none());
    assert!(ResponseStatus::from_byte(0x42).is_none());
    assert!(ResponseStatus::from_byte(0x99).is_none());
    assert!(ResponseStatus::from_byte(0xFF).is_none());
}

#[test]
fn success_status_is_zero() {
    assert_eq!(ResponseStatus::Success.as_u8(), 0x00);
}

// ---------------------------------------------------------------- payloads

#[test]
fn parse_slot_only_accepts_one_byte() {
    assert_eq!(parse_slot_only(&[5]).unwrap(), 5);
    assert!(parse_slot_only(&[]).is_err());
    assert!(parse_slot_only(&[1, 2]).is_err());
}

#[test]
fn parse_sign_extracts_slot_and_digest() {
    let expected_digest: [u8; DIGEST_LEN] = core::array::from_fn(|i| u8::try_from(i).unwrap());
    let mut payload = [0u8; 1 + DIGEST_LEN];
    payload[0] = 7;
    payload[1..].copy_from_slice(&expected_digest);
    let (slot, digest) = parse_sign(&payload).unwrap();
    assert_eq!(slot, 7);
    assert_eq!(digest, expected_digest);
}

#[test]
fn parse_sign_rejects_short_payload() {
    let err = parse_sign(&[0u8; 10]).unwrap_err();
    assert_eq!(err, PayloadError::WrongLen { expected: 33, actual: 10 });
}

#[test]
fn parse_verify_pin_extracts_4_bytes() {
    let pin = parse_verify_pin(b"1234").unwrap();
    assert_eq!(&pin, b"1234");
}

#[test]
fn parse_set_pin_extracts_old_new_and_io_key() {
    let mut payload = [0u8; PIN_LEN * 2 + 32];
    payload[..4].copy_from_slice(b"0000");
    payload[4..8].copy_from_slice(b"1234");
    for i in 0u8..32 {
        payload[8 + usize::from(i)] = 0xA0 + i;
    }
    let (old, new, io_key) = parse_set_pin(&payload).unwrap();
    assert_eq!(&old, b"0000");
    assert_eq!(&new, b"1234");
    for i in 0u8..32 {
        assert_eq!(io_key[usize::from(i)], 0xA0 + i);
    }
}

#[test]
fn parse_set_pin_rejects_short_payload() {
    let err = parse_set_pin(b"0000123").unwrap_err();
    assert_eq!(err, PayloadError::WrongLen { expected: 40, actual: 7 });
}

#[test]
fn parse_unblock_pin_extracts_puk_new_pin_and_io_key() {
    let mut payload = [0u8; PUK_LEN + PIN_LEN + 32];
    payload[..8].copy_from_slice(b"01234567");
    payload[8..12].copy_from_slice(b"1234");
    for i in 0u8..32 {
        payload[12 + usize::from(i)] = 0xB0 + i;
    }
    let (puk, new, io_key) = parse_unblock_pin(&payload).unwrap();
    assert_eq!(&puk, b"01234567");
    assert_eq!(&new, b"1234");
    for i in 0u8..32 {
        assert_eq!(io_key[usize::from(i)], 0xB0 + i);
    }
}

#[test]
fn parse_unblock_pin_rejects_short_payload() {
    let err = parse_unblock_pin(b"01234567").unwrap_err();
    assert_eq!(err, PayloadError::WrongLen { expected: 44, actual: 8 });
}

#[test]
fn parse_set_puk_extracts_old_new_and_io_key() {
    let mut payload = [0u8; PUK_LEN * 2 + 32];
    payload[..8].copy_from_slice(b"00000000");
    payload[8..16].copy_from_slice(b"99999999");
    for i in 0u8..32 {
        payload[16 + usize::from(i)] = 0xC0 + i;
    }
    let (old, new, io_key) = parse_set_puk(&payload).unwrap();
    assert_eq!(&old, b"00000000");
    assert_eq!(&new, b"99999999");
    for i in 0u8..32 {
        assert_eq!(io_key[usize::from(i)], 0xC0 + i);
    }
}

#[test]
fn parse_set_puk_rejects_short_payload() {
    let err = parse_set_puk(b"012345670000").unwrap_err();
    assert_eq!(err, PayloadError::WrongLen { expected: 48, actual: 12 });
}

#[test]
fn parse_emergency_reset_accepts_valid_magic_and_extracts_io_key() {
    let mut payload = [0u8; 4 + 32];
    payload[..4].copy_from_slice(&EMERGENCY_RESET_MAGIC);
    for i in 0u8..32 {
        payload[4 + usize::from(i)] = 0xE0u8.wrapping_add(i);
    }
    let io_key = parse_emergency_reset(&payload).unwrap();
    for i in 0u8..32 {
        assert_eq!(io_key[usize::from(i)], 0xE0u8.wrapping_add(i));
    }
}

#[test]
fn parse_emergency_reset_rejects_wrong_magic() {
    let mut payload = [0u8; 4 + 32];
    payload[..4].copy_from_slice(&[0xDE, 0xAD, 0xBE, 0xEF]);
    let err = parse_emergency_reset(&payload).unwrap_err();
    assert_eq!(err, PayloadError::MagicMismatch);
}

#[test]
fn parse_emergency_reset_rejects_short_payload() {
    let err = parse_emergency_reset(&[0u8; 8]).unwrap_err();
    assert_eq!(err, PayloadError::WrongLen { expected: 36, actual: 8 });
}

#[test]
fn parse_write_config_zone_extracts_block_index_and_data() {
    let mut payload = [0u8; 1 + 32];
    payload[0] = 2;
    for i in 0u8..32 {
        payload[1 + usize::from(i)] = 0x10 + i;
    }
    let (block, data) = parse_write_config_zone(&payload).unwrap();
    assert_eq!(block, 2);
    for i in 0u8..32 {
        assert_eq!(data[usize::from(i)], 0x10 + i);
    }
}

#[test]
fn lock_requests_check_magic_then_read_little_endian_crc_or_slot() {
    let mut p = [0u8; 6];
    p[..4].copy_from_slice(&LOCK_CONFIG_MAGIC);
    p[4] = 0x34;
    p[5] = 0x12;
    assert_eq!(parse_lock_config_zone(&p), Ok(0x1234));
    assert_eq!(parse_lock_data_zone(&p), Err(PayloadError::MagicMismatch));
    p[..4].copy_from_slice(&LOCK_DATA_MAGIC);
    assert_eq!(parse_lock_data_zone(&p), Ok(0x1234));
    let mut s = [0u8; 5];
    s[..4].copy_from_slice(&LOCK_SLOT_MAGIC);
    s[4] = 9;
    assert_eq!(parse_lock_slot(&s), Ok(9));
    assert_eq!(parse_lock_slot(&p), Err(PayloadError::WrongLen { expected: 5, actual: 6 }));
}

#[test]
fn provision_slot_takes_slot_and_value() {
    let mut p = [0u8; 33];
    p[0] = 8;
    p[32] = 0x77;
    let (slot, value) = parse_provision_slot(&p).unwrap();
    assert_eq!(slot, 8);
    assert_eq!(value[31], 0x77);
    assert_eq!(parse_provision_slot(&p[..32]), Err(PayloadError::WrongLen { expected: 33, actual: 32 }));
}

#[test]
fn require_len_reports_both_lengths() {
    assert_eq!(require_len(&[1, 2, 3], 3), Ok(()));
    assert_eq!(require_len(&[1, 2, 3], 4), Err(PayloadError::WrongLen { expected: 4, actual: 3 }));
}

// ---------------------------------------------------------------- frames

#[test]
fn write_then_parse_round_trip_with_empty_payload() {
    let report = Frame::to_report(0x01, &[]).unwrap();
    let frame = Frame::parse(&report).unwrap();
    assert_eq!(frame.opcode, 0x01);
    assert_eq!(frame.payload.len(), 0);
}

#[test]
fn write_then_parse_round_trip_with_typical_payload() {
    let payload = [0xDE, 0xAD, 0xBE, 0xEF, 0xCA, 0xFE];
    let report = Frame::to_report(0x03, &payload).unwrap();
    let frame = Frame::parse(&report).unwrap();
    assert_eq!(frame.opcode, 0x03);
    assert_eq!(frame.payload, &payload);
}

#[test]
fn write_pads_with_zeros() {
    let report = Frame::to_report(0xAA, &[0x11, 0x22, 0x33]).unwrap();
    assert_eq!(report[0], 0xAA);
    assert_eq!(report[1], 3);
    assert_eq!(report[2], 0);
    assert_eq!(&report[3..6], &[0x11, 0x22, 0x33]);
    assert!(report[6..].iter().all(|b| *b == 0));
}

#[test]
fn write_at_max_payload_succeeds() {
    let payload = [0x42u8; MAX_PAYLOAD_SIZE];
    let report = Frame::to_report(0x10, &payload).unwrap();
    let frame = Frame::parse(&report).unwrap();
    assert_eq!(frame.payload.len(), MAX_PAYLOAD_SIZE);
    assert_eq!(frame.payload, &payload);
}

#[test]
fn write_rejects_oversized_payload() {
    let oversized = [0u8; MAX_PAYLOAD_SIZE + 1];
    let mut out = [0u8; HID_REPORT_SIZE];
    let err = Frame::write(0x00, &oversized, &mut out).unwrap_err();
    assert_eq!(err, FrameBuildError::PayloadTooLarge { len: MAX_PAYLOAD_SIZE + 1 });
}

#[test]
fn write_rejects_wrong_output_size() {
    let mut out = [0u8; 63];
    let err = Frame::write(0x00, &[], &mut out).unwrap_err();
    assert_eq!(err, FrameBuildError::WrongOutputSize { actual: 63 });
}

#[test]
fn parse_rejects_wrong_report_size() {
    let short = [0u8; 32];
    let err = Frame::parse(&short).unwrap_err();
    assert_eq!(err, FrameParseError::WrongReportSize { actual: 32 });
}

#[test]
fn parse_rejects_oversized_payload_len() {
    let mut report = [0u8; HID_REPORT_SIZE];
    report[0] = 0x42;
    let oversized = u16::try_from(MAX_PAYLOAD_SIZE + 1).unwrap();
    let [lo, hi] = oversized.to_le_bytes();
    report[1] = lo;
    report[2] = hi;
    let err = Frame::parse(&report).unwrap_err();
    assert_eq!(err, FrameParseError::PayloadLenTooLarge { declared: MAX_PAYLOAD_SIZE + 1 });
}

#[test]
fn parse_ignores_padding_bytes() {
    let mut report = [0u8; HID_REPORT_SIZE];
    report[0] = 0x01;
    report[1] = 2;
    report[2] = 0;
    report[3] = 0xAB;
    report[4] = 0xCD;
    for byte in report.iter_mut().skip(5) {
        *byte = 0xFF;
    }
    let frame = Frame::parse(&report).unwrap();
    assert_eq!(frame.opcode, 0x01);
    assert_eq!(frame.payload, &[0xAB, 0xCD]);
}

#[test]
fn len_uses_little_endian_encoding() {
    let mut report = [0u8; HID_REPORT_SIZE];
    report[0] = 0x00;
    report[1] = 0x02;
    report[2] = 0x01;
    let err = Frame::parse(&report).unwrap_err();
    assert_eq!(err, FrameParseError::PayloadLenTooLarge { declared: 258 });
}

#[test]
fn a_parsed_report_builds_back_to_itself() {
    let mut report = [0u8; HID_REPORT_SIZE];
    report[0] = 0x07;
    report[1] = 4;
    report[3..7].copy_from_slice(b"4321");
    let frame = Frame::parse(&report).unwrap();
    let rebuilt = Frame::to_report(frame.opcode, frame.payload).unwrap();
    assert_eq!(rebuilt, report);
}

#[test]
fn protocol_constants() {
    assert_eq!(HEADER_SIZE + MAX_PAYLOAD_SIZE, HID_REPORT_SIZE);
    assert_eq!(USB_VID, 0xCAFE);
    assert_eq!(USB_PID, 0x1312);
}

// ---------------------------------------------------------------- HID descriptor

#[test]
fn descriptor_length_is_34() {
    assert_eq!(HID_REPORT_DESCRIPTOR.len(), 34);
}

#[test]
fn descriptor_starts_with_vendor_usage_page_ff00() {
    assert_eq!(&HID_REPORT_DESCRIPTOR[..3], &[0x06, 0x00, 0xFF]);
}

#[test]
fn descriptor_ends_with_end_collection() {
    assert_eq!(*HID_REPORT_DESCRIPTOR.last().unwrap(), 0xC0);
}

fn count_pairs(a: u8, b: u8) -> usize {
    HID_REPORT_DESCRIPTOR.windows(2).filter(|w| w[0] == a && w[1] == b).count()
}

#[test]
fn descriptor_declares_128_byte_reports() {
    assert_eq!(count_pairs(0x95, 0x80), 2);
}

#[test]
fn descriptor_declares_8_bit_report_size() {
    assert_eq!(count_pairs(0x75, 0x08), 2);
}

// ---------------------------------------------------------------- host and token

#[test]
fn host_builds_sign_request_and_token_parses_it() {
    let mut digest = [0u8; DIGEST_LEN];
    for (i, byte) in digest.iter_mut().enumerate() {
        *byte = i as u8;
    }
    let mut payload = [0u8; 1 + DIGEST_LEN];
    payload[0] = 0;
    payload[1..].copy_from_slice(&digest);

    let report = Frame::to_report(CommandOpcode::Sign.as_u8(), &payload).unwrap();
    assert_eq!(report.len(), HID_REPORT_SIZE);
    let frame = Frame::parse(&report).unwrap();
    let opcode = CommandOpcode::try_from(frame.opcode).unwrap();
    assert_eq!(opcode, CommandOpcode::Sign);
    let (parsed_slot, parsed_digest) = parse_sign(frame.payload).unwrap();
    assert_eq!(parsed_slot, 0);
    assert_eq!(parsed_digest, digest);
}

#[test]
fn token_returns_pubkey_response_and_host_parses_it() {
    let mut pubkey = [0u8; 64];
    for (i, byte) in pubkey.iter_mut().enumerate() {
        *byte = 0x40 + i as u8;
    }
    let report = Frame::to_report(ResponseStatus::Success.as_u8(), &pubkey).unwrap();
    let frame = Frame::parse(&report).unwrap();
    let status = ResponseStatus::try_from(frame.opcode).unwrap();
    assert_eq!(status, ResponseStatus::Success);
    assert_eq!(frame.payload, &pubkey);
}

#[test]
fn token_returns_wrong_pin_with_tries_remaining() {
    let report = Frame::to_report(ResponseStatus::WrongPin.as_u8(), &[3]).unwrap();
    let frame = Frame::parse(&report).unwrap();
    assert_eq!(ResponseStatus::try_from(frame.opcode).unwrap(), ResponseStatus::WrongPin);
    assert_eq!(frame.payload, &[3]);
}

#[test]
fn unblock_pin_round_trip() {
    let puk = *b"12345678";
    let new_pin = *b"4242";
    let io_key: [u8; 32] = core::array::from_fn(|i| 0xA0u8.wrapping_add(i as u8));
    let mut payload = [0u8; PUK_LEN + PIN_LEN + 32];
    payload[..PUK_LEN].copy_from_slice(&puk);
    payload[PUK_LEN..PUK_LEN + PIN_LEN].copy_from_slice(&new_pin);
    payload[PUK_LEN + PIN_LEN..].copy_from_slice(&io_key);

    let report = Frame::to_report(CommandOpcode::UnblockPin.as_u8(), &payload).unwrap();
    let frame = Frame::parse(&report).unwrap();
    assert_eq!(CommandOpcode::try_from(frame.opcode).unwrap(), CommandOpcode::UnblockPin);
    let (parsed_puk, parsed_pin, parsed_io_key) = parse_unblock_pin(frame.payload).unwrap();
    assert_eq!(parsed_puk, puk);
    assert_eq!(parsed_pin, new_pin);
    assert_eq!(parsed_io_key, io_key);
}

#[test]
fn empty_payload_command_uses_zero_length_payload() {
    let report = Frame::to_report(CommandOpcode::Info.as_u8(), &[]).unwrap();
    assert_eq!(report[1], 0);
    assert_eq!(report[2], 0);
    let frame = Frame::parse(&report).unwrap();
    assert_eq!(frame.payload.len(), 0);
    assert_eq!(CommandOpcode::try_from(frame.opcode).unwrap(), CommandOpcode::Info);
}
