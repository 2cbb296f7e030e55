//! The crypto service and the USB request dispatcher against a scripted
//! chip.

use std::collections::VecDeque;

use mini_hsm::atecc::crc::{crc16, crc16_to_bytes};
use mini_hsm::atecc::driver::Atecc;
use mini_hsm::atecc::error::{AteccError, ChipError};
use mini_hsm::atecc::hal::AteccHal;
use mini_hsm::atecc::opcodes::{WAKE_DELAY_US, WAKE_LOW_DURATION_US};
use mini_hsm::atecc::slot::Slot;
use mini_hsm::firmware::dispatch::{
    Dispatch, REPORT_SIZE, finish_sign, handle_one_request, handle_verify_pin, write_error, write_lock_error,
};
use mini_hsm::firmware::state_machine::Event;
use mini_hsm::protocol::commands::CommandOpcode;
use mini_hsm::protocol::frame::Frame;
use mini_hsm::protocol::responses::ResponseStatus;
use mini_hsm::service::error::CryptoServiceError;
use mini_hsm::service::pin::FormatError;
use mini_hsm::service::service::{CryptoService, PinStatus};
use mini_hsm::service::session::Clock;

#[derive(Debug, PartialEq, Eq, Clone)]
enum MockOp {
    I2cWrite { addr: u8, data: Vec<u8> },
    I2cRead { addr: u8, len: usize },
    I2cReadNack { addr: u8, len: usize },
    PulseSdaLow { duration_us: u32 },
    DelayUs { duration_us: u32 },
    DelayMs { duration_ms: u32 },
}

#[derive(Debug, PartialEq, Eq)]
struct MockHalError;

#[derive(Debug, Default)]
struct MockHal {
    expectations: VecDeque<MockOp>,
    read_data: VecDeque<Vec<u8>>,
}

impl MockHal {
    fn expect_i2c_write(&mut self, addr: u8, data: &[u8]) {
        self.expectations.push_back(MockOp::I2cWrite { addr, data: data.to_vec() });
    }

    fn expect_i2c_read(&mut self, addr: u8, response: &[u8]) {
        self.expectations.push_back(MockOp::I2cRead { addr, len: response.len() });
        self.read_data.push_back(response.to_vec());
    }

    fn expect_i2c_read_nack(&mut self, addr: u8, len: usize) {
        self.expectations.push_back(MockOp::I2cReadNack { addr, len });
    }

    fn expect_pulse_sda_low(&mut self, duration_us: u32) {
        self.expectations.push_back(MockOp::PulseSdaLow { duration_us });
    }

    fn expect_delay_us(&mut self, duration_us: u32) {
        self.expectations.push_back(MockOp::DelayUs { duration_us });
    }

    fn expect_delay_ms(&mut self, duration_ms: u32) {
        self.expectations.push_back(MockOp::DelayMs { duration_ms });
    }

    fn verify(&self) {
        assert!(self.expectations.is_empty(), "unfulfilled: {:?}", self.expectations);
    }

    fn next(&mut self, actual: &MockOp) -> MockOp {
        match self.expectations.pop_front() {
            Some(e) => e,
            None => panic!("MockHal received unexpected call: {:?}", actual),
        }
    }
}

impl AteccHal for MockHal {
    type Error = MockHalError;

    fn i2c_write(&mut self, device_addr: u8, data: &[u8]) -> Result<(), MockHalError> {
        let actual = MockOp::I2cWrite { addr: device_addr, data: data.to_vec() };
        let expected = self.next(&actual);
        assert_eq!(actual, expected);
        Ok(())
    }

    fn i2c_read(&mut self, device_addr: u8, buf: &mut [u8]) -> Result<(), MockHalError> {
        let actual = MockOp::I2cRead { addr: device_addr, len: buf.len() };
        match self.next(&actual) {
            MockOp::I2cReadNack { addr, len } => {
                assert_eq!((addr, len), (device_addr, buf.len()));
                Err(MockHalError)
            },
            MockOp::I2cRead { addr, len } => {
                assert_eq!((addr, len), (device_addr, buf.len()));
                let canned = self.read_data.pop_front().expect("no canned response");
                buf.copy_from_slice(&canned);
                Ok(())
            },
            other => panic!("expected {:?}, driver called {:?}", other, actual),
        }
    }

    fn pulse_sda_low(&mut self, duration_us: u32) -> Result<(), MockHalError> {
        let actual = MockOp::PulseSdaLow { duration_us };
        let expected = self.next(&actual);
        assert_eq!(actual, expected);
        Ok(())
    }

    fn delay_us(&mut self, duration_us: u32) {
        let actual = MockOp::DelayUs { duration_us };
        let expected = self.next(&actual);
        assert_eq!(actual, expected);
    }

    fn delay_ms(&mut self, duration_ms: u32) {
        let actual = MockOp::DelayMs { duration_ms };
        let expected = self.next(&actual);
        assert_eq!(actual, expected);
    }
}

struct FixedClock(u64);

impl Clock for FixedClock {
    fn now_ms(&self) -> u64 {
        self.0
    }
}

const ADDR: u8 = 0x60;

fn expect_wake(hal: &mut MockHal) {
    hal.expect_pulse_sda_low(WAKE_LOW_DURATION_US);
    hal.expect_delay_us(WAKE_DELAY_US);
    hal.expect_i2c_read(ADDR, &[0x04, 0x11, 0x33, 0x43]);
}

fn expect_idle(hal: &mut MockHal) {
    hal.expect_i2c_write(ADDR, &[0x02]);
}

fn wire(opcode: u8, p1: u8, p2: u16, data: &[u8]) -> Vec<u8> {
    let mut body = vec![(7 + data.len()) as u8, opcode, p1, (p2 & 0xFF) as u8, (p2 >> 8) as u8];
    body.extend_from_slice(data);
    let crc_bytes = crc16_to_bytes(crc16(&body));
    let mut out = vec![0x03];
    out.extend_from_slice(&body);
    out.extend_from_slice(&crc_bytes);
    out
}

fn response_frame(payload: &[u8]) -> Vec<u8> {
    let mut out = vec![(payload.len() + 3) as u8];
    out.extend_from_slice(payload);
    let crc_bytes = crc16_to_bytes(crc16(&out));
    out.extend_from_slice(&crc_bytes);
    out
}

fn status_response(status: u8) -> Vec<u8> {
    let mut out = vec![0x04, status];
    let crc_bytes = crc16_to_bytes(crc16(&out));
    out.extend_from_slice(&crc_bytes);
    out
}

fn expect_round_trip(hal: &mut MockHal, command: &[u8], exec_ms: u32, response: &[u8]) {
    hal.expect_i2c_write(ADDR, command);
    hal.expect_delay_ms(exec_ms);
    hal.expect_i2c_read(ADDR, &response[0..1]);
    hal.expect_i2c_read(ADDR, &response[1..]);
}

fn expect_counter_read(hal: &mut MockHal, counter: u16, value: u32) {
    expect_round_trip(hal, &wire(0x24, 0x00, counter, &[]), 25, &response_frame(&value.to_le_bytes()));
}

fn service(hal: MockHal, now: u64) -> CryptoService<MockHal, FixedClock> {
    CryptoService::new(Atecc::new(hal), FixedClock(now))
}

fn request(opcode: CommandOpcode, payload: &[u8]) -> [u8; REPORT_SIZE] {
    Frame::to_report(opcode.as_u8(), payload).unwrap()
}

fn reply(tx: &[u8]) -> (Option<ResponseStatus>, Vec<u8>) {
    let frame = Frame::parse(tx).unwrap();
    (ResponseStatus::from_byte(frame.opcode), frame.payload.to_vec())
}

// ---------------------------------------------------------------- service

#[test]
fn get_pubkey_wakes_reads_and_idles() {
    let pubkey = [0x42u8; 64];
    let mut hal = MockHal::default();
    expect_wake(&mut hal);
    expect_round_trip(&mut hal, &wire(0x40, 0x00, 0x0003, &[]), 215, &response_frame(&pubkey));
    expect_idle(&mut hal);

    let mut svc = service(hal, 0);
    let got = svc.get_pubkey(Slot::const_new(3)).expect("get_pubkey");
    assert_eq!(got, pubkey);
}

#[test]
fn get_pin_status_reads_both_counters() {
    let mut hal = MockHal::default();
    expect_wake(&mut hal);
    expect_counter_read(&mut hal, 0, 7);
    expect_counter_read(&mut hal, 1, 0);
    expect_idle(&mut hal);

    let mut svc = service(hal, 0);
    let status = svc.get_pin_status().expect("get_pin_status");
    assert_eq!(status, PinStatus { pin_tries_remaining: 3, puk_tries_remaining: 10, session_active: false });
}

#[test]
fn verify_pin_refuses_a_malformed_pin_without_touching_the_chip() {
    let hal = MockHal::default();
    let mut svc = service(hal, 0);
    match svc.verify_pin(b"12a4") {
        Err(CryptoServiceError::InvalidFormat(FormatError::NonDigit { position: 2 })) => {},
        other => panic!("expected InvalidFormat, got {:?}", other),
    }
    assert!(!svc.is_session_active());
}

#[test]
fn verify_pin_refuses_a_blocked_pin_after_reading_its_counter() {
    let mut hal = MockHal::default();
    expect_wake(&mut hal);
    expect_counter_read(&mut hal, 0, 10);
    expect_idle(&mut hal);

    let mut svc = service(hal, 0);
    match svc.verify_pin(b"1234") {
        Err(CryptoServiceError::PinBlocked) => {},
        other => panic!("expected PinBlocked, got {:?}", other),
    }
    assert!(!svc.is_session_active());
}

#[test]
fn write_config_block_refuses_a_block_above_3() {
    let hal = MockHal::default();
    let mut svc = service(hal, 0);
    match svc.write_config_block(4, &[0u8; 32]) {
        Err(CryptoServiceError::InvalidFormat(FormatError::OutOfRange)) => {},
        other => panic!("expected OutOfRange, got {:?}", other),
    }
}

#[test]
fn write_config_block_1_is_one_32_byte_write() {
    let data = [0x5Au8; 32];
    let mut hal = MockHal::default();
    expect_wake(&mut hal);
    expect_round_trip(&mut hal, &wire(0x12, 0x80, 0x0008, &data), 45, &status_response(0x00));
    expect_idle(&mut hal);

    let mut svc = service(hal, 0);
    svc.write_config_block(1, &data).expect("write_config_block");
}

#[test]
fn close_session_without_session_is_harmless() {
    let mut svc = service(MockHal::default(), 0);
    svc.close_session();
    assert!(!svc.is_session_active());
}

// ---------------------------------------------------------------- dispatcher

#[test]
fn a_report_of_the_wrong_size_is_an_invalid_payload() {
    let mut svc = service(MockHal::default(), 0);
    let mut tx = [0u8; REPORT_SIZE];
    let d = handle_one_request(&mut svc, &[0u8; 10], &mut tx);
    assert!(matches!(d, Dispatch::Done { len: REPORT_SIZE, event: None }));
    assert_eq!(reply(&tx), (Some(ResponseStatus::InvalidPayload), vec![]));
}

#[test]
fn an_unknown_opcode_is_an_invalid_command() {
    let mut svc = service(MockHal::default(), 0);
    let mut tx = [0u8; REPORT_SIZE];
    let rx = Frame::to_report(0x42, &[]).unwrap();
    let d = handle_one_request(&mut svc, &rx, &mut tx);
    assert!(matches!(d, Dispatch::Done { len: REPORT_SIZE, event: None }));
    assert_eq!(reply(&tx), (Some(ResponseStatus::InvalidCommand), vec![]));
}

#[test]
fn get_pubkey_request_answers_the_key() {
    let pubkey: [u8; 64] = core::array::from_fn(|i| i as u8);
    let mut hal = MockHal::default();
    expect_wake(&mut hal);
    expect_round_trip(&mut hal, &wire(0x40, 0x00, 0x0000, &[]), 215, &response_frame(&pubkey));
    expect_idle(&mut hal);

    let mut svc = service(hal, 0);
    let mut tx = [0u8; REPORT_SIZE];
    let d = handle_one_request(&mut svc, &request(CommandOpcode::GetPubkey, &[0]), &mut tx);
    assert!(matches!(d, Dispatch::Done { len: REPORT_SIZE, event: None }));
    assert_eq!(reply(&tx), (Some(ResponseStatus::Success), pubkey.to_vec()));
}

#[test]
fn get_pubkey_request_with_a_bad_slot_or_length() {
    let mut svc = service(MockHal::default(), 0);
    let mut tx = [0u8; REPORT_SIZE];
    handle_one_request(&mut svc, &request(CommandOpcode::GetPubkey, &[16]), &mut tx);
    assert_eq!(reply(&tx), (Some(ResponseStatus::InvalidSlot), vec![]));
    handle_one_request(&mut svc, &request(CommandOpcode::GetPubkey, &[1, 2]), &mut tx);
    assert_eq!(reply(&tx), (Some(ResponseStatus::InvalidPayload), vec![]));
}

#[test]
fn a_chip_that_does_not_answer_the_wake_is_a_communication_error() {
    let mut hal = MockHal::default();
    hal.expect_pulse_sda_low(WAKE_LOW_DURATION_US);
    hal.expect_delay_us(WAKE_DELAY_US);
    hal.expect_i2c_read_nack(ADDR, 4);

    let mut svc = service(hal, 0);
    let mut tx = [0u8; REPORT_SIZE];
    handle_one_request(&mut svc, &request(CommandOpcode::GenKey, &[2]), &mut tx);
    assert_eq!(reply(&tx), (Some(ResponseStatus::AteccCommunicationError), vec![0x01]));
}

#[test]
fn pin_status_request_answers_tries_and_session_flag() {
    let mut hal = MockHal::default();
    expect_wake(&mut hal);
    expect_counter_read(&mut hal, 0, 1);
    expect_counter_read(&mut hal, 1, 20);
    expect_idle(&mut hal);

    let mut svc = service(hal, 0);
    let mut tx = [0u8; REPORT_SIZE];
    handle_one_request(&mut svc, &request(CommandOpcode::GetPinStatus, &[]), &mut tx);
    assert_eq!(reply(&tx), (Some(ResponseStatus::Success), vec![4, 0, 0]));
}

#[test]
fn sign_without_a_session_needs_the_pin() {
    let mut svc = service(MockHal::default(), 0);
    let mut tx = [0u8; REPORT_SIZE];
    let mut payload = [0u8; 33];
    payload[0] = 1;
    let d = handle_one_request(&mut svc, &request(CommandOpcode::Sign, &payload), &mut tx);
    assert!(matches!(d, Dispatch::Done { len: REPORT_SIZE, event: None }));
    assert_eq!(reply(&tx), (Some(ResponseStatus::PinRequired), vec![]));
}

#[test]
fn sign_with_a_bad_slot_or_a_short_digest() {
    let mut svc = service(MockHal::default(), 0);
    let mut tx = [0u8; REPORT_SIZE];
    let mut payload = [0u8; 33];
    payload[0] = 16;
    handle_one_request(&mut svc, &request(CommandOpcode::Sign, &payload), &mut tx);
    assert_eq!(reply(&tx), (Some(ResponseStatus::InvalidSlot), vec![]));
    handle_one_request(&mut svc, &request(CommandOpcode::Sign, &payload[..32]), &mut tx);
    assert_eq!(reply(&tx), (Some(ResponseStatus::InvalidPayload), vec![]));
}

#[test]
fn an_untouched_signature_times_out() {
    let mut svc = service(MockHal::default(), 0);
    let mut tx = [0u8; REPORT_SIZE];
    let (len, events) = finish_sign(&mut svc, Slot::const_new(0), &[0u8; 32], false, &mut tx);
    assert_eq!(len, REPORT_SIZE);
    assert_eq!(events, vec![Event::TouchTimeout]);
    assert_eq!(reply(&tx), (Some(ResponseStatus::TouchTimeout), vec![]));
}

#[test]
fn verify_pin_request_with_a_blocked_pin() {
    let mut hal = MockHal::default();
    expect_wake(&mut hal);
    expect_counter_read(&mut hal, 0, 5);
    expect_idle(&mut hal);

    let mut svc = service(hal, 0);
    let mut tx = [0u8; REPORT_SIZE];
    let (len, event) = handle_verify_pin(&mut svc, b"0000", &mut tx);
    assert_eq!(len, REPORT_SIZE);
    assert_eq!(event, None);
    assert_eq!(reply(&tx), (Some(ResponseStatus::PinBlocked), vec![]));
}

#[test]
fn lock_requests_check_their_magic_before_the_chip() {
    let mut svc = service(MockHal::default(), 0);
    let mut tx = [0u8; REPORT_SIZE];
    handle_one_request(&mut svc, &request(CommandOpcode::LockConfigZone, &[0, 0, 0, 0, 0, 0]), &mut tx);
    assert_eq!(reply(&tx), (Some(ResponseStatus::LockMagicMismatch), vec![]));
    handle_one_request(&mut svc, &request(CommandOpcode::LockSlot, &[0xF0, 0x0D, 0xCA, 0xFE]), &mut tx);
    assert_eq!(reply(&tx), (Some(ResponseStatus::InvalidPayload), vec![]));
}

#[test]
fn a_response_buffer_of_another_size_is_left_alone() {
    let mut svc = service(MockHal::default(), 0);
    let mut tx = [0xEEu8; 64];
    handle_one_request(&mut svc, &[0u8; 3], &mut tx);
    assert!(tx.iter().all(|b| *b == 0xEE));
}

#[test]
fn service_errors_map_to_status_and_payload() {
    let mut tx = [0u8; REPORT_SIZE];
    let e: CryptoServiceError<MockHalError> = CryptoServiceError::Atecc(AteccError::Chip(ChipError::ExecutionError));
    write_error(&mut tx, &e);
    assert_eq!(reply(&tx), (Some(ResponseStatus::AteccChipError), vec![0x0F]));
    write_lock_error(&mut tx, &e);
    assert_eq!(reply(&tx), (Some(ResponseStatus::LockCrcMismatch), vec![]));

    let e: CryptoServiceError<MockHalError> = CryptoServiceError::Atecc(AteccError::Timeout);
    write_error(&mut tx, &e);
    assert_eq!(reply(&tx), (Some(ResponseStatus::AteccCommunicationError), vec![0x05]));

    let e: CryptoServiceError<MockHalError> = CryptoServiceError::PinIncorrect { tries_remaining: 3 };
    write_error(&mut tx, &e);
    assert_eq!(reply(&tx), (Some(ResponseStatus::WrongPin), vec![3]));

    let e: CryptoServiceError<MockHalError> =
        CryptoServiceError::EmergencyResetNotPermitted { pin_tries_remaining: 2, puk_tries_remaining: 9 };
    write_error(&mut tx, &e);
    assert_eq!(reply(&tx), (Some(ResponseStatus::EmergencyResetNotPermitted), vec![2, 9]));

    let e: CryptoServiceError<MockHalError> = CryptoServiceError::InvalidSlot { slot: Slot::const_new(7) };
    write_error(&mut tx, &e);
    assert_eq!(reply(&tx), (Some(ResponseStatus::InvalidSlot), vec![7]));
}
