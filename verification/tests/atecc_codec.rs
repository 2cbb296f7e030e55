//! CRC, error codes and packet framing of the ATECC608B driver.

use mini_hsm::atecc::crc::{crc16, crc16_to_bytes, verify_trailing_crc};
use mini_hsm::atecc::error::{AteccError, AteccErrorKind, ChipError};
use mini_hsm::atecc::opcodes::{MAX_COMMAND_DATA_LEN, OP_INFO, OP_RANDOM};
use mini_hsm::atecc::packet::{
    PacketBuildError, PacketParseError, ResponseFrame, build_command_frame, parse_response_frame,
};

const INFO_FRAME_NO_CRC: [u8; 5] = [0x07, 0x30, 0x00, 0x00, 0x00];
const INFO_FRAME_CRC: u16 = 0x5D03;
const RANDOM_FRAME_NO_CRC: [u8; 5] = [0x07, 0x1B, 0x00, 0x00, 0x00];
const RANDOM_FRAME_CRC: u16 = 0xCD24;
const WAKE_RESPONSE_PREFIX: [u8; 2] = [0x04, 0x11];
const WAKE_RESPONSE_CRC: u16 = 0x4333;

#[test]
fn empty_input_yields_zero() {
    assert_eq!(crc16(&[]), 0x0000);
}

#[test]
fn single_zero_byte() {
    assert_eq!(crc16(&[0x00]), 0x0000);
}

#[test]
fn info_command_frame() {
    assert_eq!(crc16(&INFO_FRAME_NO_CRC), INFO_FRAME_CRC);
}

#[test]
fn random_command_frame() {
    assert_eq!(crc16(&RANDOM_FRAME_NO_CRC), RANDOM_FRAME_CRC);
}

#[test]
fn wake_response_crc() {
    assert_eq!(crc16(&WAKE_RESPONSE_PREFIX), WAKE_RESPONSE_CRC);
}

#[test]
fn crc_to_bytes_is_little_endian() {
    assert_eq!(crc16_to_bytes(0x5D03), [0x03, 0x5D]);
    assert_eq!(crc16_to_bytes(0x0000), [0x00, 0x00]);
    assert_eq!(crc16_to_bytes(0xFFFF), [0xFF, 0xFF]);
}

#[test]
fn verify_accepts_valid_info_frame() {
    let mut full = [0u8; 7];
    full[..5].copy_from_slice(&INFO_FRAME_NO_CRC);
    full[5..].copy_from_slice(&crc16_to_bytes(INFO_FRAME_CRC));
    assert!(verify_trailing_crc(&full));
}

#[test]
fn verify_rejects_corrupted_frame() {
    let mut full = [0u8; 7];
    full[..5].copy_from_slice(&INFO_FRAME_NO_CRC);
    full[5..].copy_from_slice(&crc16_to_bytes(INFO_FRAME_CRC));
    full[1] ^= 0x01;
    assert!(!verify_trailing_crc(&full));
}

#[test]
fn verify_rejects_too_short_frame() {
    assert!(!verify_trailing_crc(&[]));
    assert!(!verify_trailing_crc(&[0xAB]));
    assert!(!verify_trailing_crc(&[0xAB, 0xCD]));
}

#[test]
fn crc_is_deterministic() {
    let bytes = [0xDE, 0xAD, 0xBE, 0xEF];
    let a = crc16(&bytes);
    let b = crc16(&bytes);
    let c = crc16(&bytes);
    assert_eq!(a, b);
    assert_eq!(b, c);
}

#[test]
fn crc_of_single_nonzero_byte() {
    assert_eq!(crc16(&[0x01]), 0x8303);
}

#[test]
fn kind_strips_hal_payload() {
    let err: AteccError<&'static str> = AteccError::Hal("nack");
    assert_eq!(err.kind(), AteccErrorKind::Hal);
}

#[test]
fn kind_preserves_chip_variant() {
    let err: AteccError<()> = AteccError::Chip(ChipError::ParseError);
    assert_eq!(err.kind(), AteccErrorKind::Chip(ChipError::ParseError));
}

#[test]
fn sub_codes_are_distinct_and_stable() {
    let codes = [
        AteccErrorKind::Hal.as_sub_code(),
        AteccErrorKind::WakeFailed.as_sub_code(),
        AteccErrorKind::SelfTestFailure.as_sub_code(),
        AteccErrorKind::BadCrc.as_sub_code(),
        AteccErrorKind::Timeout.as_sub_code(),
        AteccErrorKind::MalformedResponse.as_sub_code(),
        AteccErrorKind::BufferTooSmall.as_sub_code(),
    ];
    for c in codes {
        assert_ne!(c, 0x00);
    }
    for (i, a) in codes.iter().enumerate() {
        for b in &codes[i + 1..] {
            assert_ne!(a, b);
        }
    }
}

#[test]
fn sub_code_round_trip() {
    for kind in [
        AteccErrorKind::Hal,
        AteccErrorKind::WakeFailed,
        AteccErrorKind::SelfTestFailure,
        AteccErrorKind::BadCrc,
        AteccErrorKind::Timeout,
        AteccErrorKind::MalformedResponse,
        AteccErrorKind::BufferTooSmall,
    ] {
        assert_eq!(AteccErrorKind::from_sub_code(kind.as_sub_code()), Some(kind));
    }
}

#[test]
fn sub_code_zero_is_reserved_for_chip() {
    assert_eq!(AteccErrorKind::from_sub_code(0x00), None);
    assert_eq!(AteccErrorKind::Chip(ChipError::ParseError).as_sub_code(), 0x00);
}

#[test]
fn chip_error_status_byte_round_trip() {
    for byte in [0x01u8, 0x03, 0x05, 0x07, 0x08, 0x0F, 0xEE, 0xFF, 0x42] {
        let err = ChipError::from_status_byte(byte).unwrap();
        assert_eq!(err.as_status_byte(), byte);
    }
    assert!(ChipError::from_status_byte(0x00).is_none());
}

#[test]
fn chip_error_known_and_unknown_bytes() {
    assert_eq!(ChipError::from_status_byte(0x0F), Some(ChipError::ExecutionError));
    assert_eq!(ChipError::from_status_byte(0x42), Some(ChipError::Unknown(0x42)));
    assert_eq!(AteccErrorKind::from_sub_code(0x08), None);
}

#[test]
fn build_info_command() {
    let mut buf = [0u8; 32];
    let written = build_command_frame(OP_INFO, 0x00, 0x0000, &[], &mut buf).unwrap();
    assert_eq!(written, 7);
    assert_eq!(&buf[..7], &[0x07, 0x30, 0x00, 0x00, 0x00, 0x03, 0x5D]);
}

#[test]
fn build_random_command() {
    let mut buf = [0u8; 32];
    let written = build_command_frame(OP_RANDOM, 0x00, 0x0000, &[], &mut buf).unwrap();
    assert_eq!(written, 7);
    assert_eq!(buf[0], 0x07);
    assert_eq!(buf[1], OP_RANDOM);
    assert_eq!(buf[5], 0x24);
    assert_eq!(buf[6], 0xCD);
}

#[test]
fn build_with_data_payload() {
    let mut buf = [0u8; 32];
    let data: [u8; 4] = [0xDE, 0xAD, 0xBE, 0xEF];
    let written = build_command_frame(OP_INFO, 0xAA, 0x1234, &data, &mut buf).unwrap();
    assert_eq!(written, 11);
    assert_eq!(buf[0], 11);
    assert_eq!(buf[1], OP_INFO);
    assert_eq!(buf[2], 0xAA);
    assert_eq!(buf[3], 0x34);
    assert_eq!(buf[4], 0x12);
    assert_eq!(&buf[5..9], &data);
    assert!(verify_trailing_crc(&buf[..11]));
}

#[test]
fn build_rejects_oversized_data() {
    let mut buf = [0u8; 256];
    let huge = [0xFFu8; MAX_COMMAND_DATA_LEN + 1];
    let err = build_command_frame(OP_INFO, 0, 0, &huge, &mut buf).unwrap_err();
    assert_eq!(
        err,
        PacketBuildError::DataTooLong { attempted: MAX_COMMAND_DATA_LEN + 1, max: MAX_COMMAND_DATA_LEN },
    );
}

#[test]
fn build_rejects_small_output_buffer() {
    let mut buf = [0u8; 5];
    let err = build_command_frame(OP_INFO, 0, 0, &[], &mut buf).unwrap_err();
    assert_eq!(err, PacketBuildError::OutputBufferTooSmall { required: 7, provided: 5 });
}

#[test]
fn build_then_parse_payload() {
    let mut buf = [0u8; 32];
    let count = 5u8;
    buf[0] = count;
    buf[1] = 0x12;
    buf[2] = 0x34;
    let crc = crc16(&buf[..3]);
    let crc_bytes = crc16_to_bytes(crc);
    buf[3] = crc_bytes[0];
    buf[4] = crc_bytes[1];
    let parsed = parse_response_frame(&buf[..5]).unwrap();
    match parsed {
        ResponseFrame::Payload(p) => assert_eq!(p, &[0x12, 0x34]),
        ResponseFrame::Status(_) => panic!("expected payload, got status"),
    }
}

#[test]
fn parse_status_response() {
    let mut buf = [0u8; 4];
    buf[0] = 0x04;
    buf[1] = 0x03;
    let crc = crc16(&buf[..2]);
    let crc_bytes = crc16_to_bytes(crc);
    buf[2] = crc_bytes[0];
    buf[3] = crc_bytes[1];
    let parsed = parse_response_frame(&buf).unwrap();
    match parsed {
        ResponseFrame::Status(s) => assert_eq!(s, 0x03),
        ResponseFrame::Payload(_) => panic!("expected status, got payload"),
    }
}

#[test]
fn parse_wake_response() {
    let wake = [0x04, 0x11, 0x33, 0x43];
    let parsed = parse_response_frame(&wake).unwrap();
    assert_eq!(parsed, ResponseFrame::Status(0x11));
}

#[test]
fn parse_rejects_too_short() {
    assert_eq!(parse_response_frame(&[0x04, 0x11, 0x33]).unwrap_err(), PacketParseError::TooShort);
}

#[test]
fn parse_rejects_length_mismatch() {
    let bad = [0x06, 0x11, 0x33, 0x43];
    let err = parse_response_frame(&bad).unwrap_err();
    assert_eq!(err, PacketParseError::LengthMismatch { declared: 6, actual: 4 });
}

#[test]
fn parse_rejects_bad_crc() {
    let bad = [0x04, 0x11, 0xFF, 0xFF];
    assert_eq!(parse_response_frame(&bad).unwrap_err(), PacketParseError::BadCrc);
}

#[test]
fn build_then_parse_command_frame_round_trips_crc() {
    let mut buf = [0u8; 16];
    let n = build_command_frame(OP_RANDOM, 0x01, 0xBEEF, &[1, 2, 3], &mut buf).unwrap();
    assert_eq!(n, 10);
    assert!(verify_trailing_crc(&buf[..n]));
    buf[7] ^= 0x80;
    assert!(!verify_trailing_crc(&buf[..n]));
}
