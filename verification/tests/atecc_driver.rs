//! The ATECC608B driver against a scripted HAL: wake, command round trips,
//! polling, and each command's wire bytes.

use std::collections::VecDeque;

use mini_hsm::atecc::command::checkmac::{
    CHECKMAC_CHALLENGE_SIZE, CHECKMAC_CLIENT_RESPONSE_SIZE, CHECKMAC_DATA_SIZE, CHECKMAC_OTHER_DATA_SIZE,
};
use mini_hsm::atecc::command::counter::CounterId;
use mini_hsm::atecc::command::gendig::GenDigZone;
use mini_hsm::atecc::command::genkey::PUBLIC_KEY_SIZE;
use mini_hsm::atecc::command::nonce::{NONCE_NUMIN_SIZE, NONCE_NUMOUT_SIZE, NONCE_PASSTHROUGH_SIZE, NonceTarget};
use mini_hsm::atecc::command::privwrite::PRIVWRITE_CLEARTEXT_SIZE;
use mini_hsm::atecc::command::read_write::{
    BLOCK_SIZE, ENCRYPTED_WRITE_DATA_SIZE, WORD_SIZE, Zone, config_or_otp_address, data_address,
};
use mini_hsm::atecc::command::sign::SIGNATURE_SIZE;
use mini_hsm::atecc::crc::{crc16, crc16_to_bytes};
use mini_hsm::atecc::driver::Atecc;
use mini_hsm::atecc::error::{AteccError, ChipError};
use mini_hsm::atecc::hal::AteccHal;
use mini_hsm::atecc::opcodes::{WAKE_DELAY_US, WAKE_LOW_DURATION_US};
use mini_hsm::atecc::slot::Slot;

#[derive(Debug, PartialEq, Eq, Clone)]
enum MockOp {
    I2cWrite { addr: u8, data: Vec<u8> },
    I2cRead { addr: u8, len: usize },
    I2cReadNack { addr: u8, len: usize },
    PulseSdaLow { duration_us: u32 },
    DelayUs { duration_us: u32 },
    DelayMs { duration_ms: u32 },
}

#[derive(Debug, PartialEq, Eq)]
struct MockHalError;

#[derive(Debug, Default)]
struct MockHal {
    expectations: VecDeque<MockOp>,
    read_data: VecDeque<Vec<u8>>,
}

impl MockHal {
    fn new() -> Self {
        Self::default()
    }

    fn expect_i2c_write(&mut self, addr: u8, data: &[u8]) {
        self.expectations.push_back(MockOp::I2cWrite { addr, data: data.to_vec() });
    }

    fn expect_i2c_read(&mut self, addr: u8, response: &[u8]) {
        self.expectations.push_back(MockOp::I2cRead { addr, len: response.len() });
        self.read_data.push_back(response.to_vec());
    }

    fn expect_i2c_read_nack(&mut self, addr: u8, len: usize) {
        self.expectations.push_back(MockOp::I2cReadNack { addr, len });
    }

    fn expect_pulse_sda_low(&mut self, duration_us: u32) {
        self.expectations.push_back(MockOp::PulseSdaLow { duration_us });
    }

    fn expect_delay_us(&mut self, duration_us: u32) {
        self.expectations.push_back(MockOp::DelayUs { duration_us });
    }

    fn expect_delay_ms(&mut self, duration_ms: u32) {
        self.expectations.push_back(MockOp::DelayMs { duration_ms });
    }

    fn verify(&self) {
        assert!(
            self.expectations.is_empty(),
            "{} expectation(s) remain unfulfilled: {:?}",
            self.expectations.len(),
            self.expectations,
        );
    }

    fn next(&mut self, actual: &MockOp) -> MockOp {
        match self.expectations.pop_front() {
            Some(e) => e,
            None => panic!("MockHal received unexpected call: {:?}", actual),
        }
    }
}

impl AteccHal for MockHal {
    type Error = MockHalError;

    fn i2c_write(&mut self, device_addr: u8, data: &[u8]) -> Result<(), MockHalError> {
        let actual = MockOp::I2cWrite { addr: device_addr, data: data.to_vec() };
        let expected = self.next(&actual);
        assert_eq!(actual, expected, "MockHal: i2c_write mismatch");
        Ok(())
    }

    fn i2c_read(&mut self, device_addr: u8, buf: &mut [u8]) -> Result<(), MockHalError> {
        let actual = MockOp::I2cRead { addr: device_addr, len: buf.len() };
        match self.next(&actual) {
            MockOp::I2cReadNack { addr, len } => {
                assert_eq!(addr, device_addr, "MockHal: i2c_read_nack address mismatch");
                assert_eq!(len, buf.len(), "MockHal: i2c_read_nack length mismatch");
                Err(MockHalError)
            },
            MockOp::I2cRead { addr, len } => {
                assert_eq!(addr, device_addr, "MockHal: i2c_read address mismatch");
                assert_eq!(len, buf.len(), "MockHal: i2c_read length mismatch");
                let canned = self.read_data.pop_front().expect("MockHal: no canned response queued");
                buf.copy_from_slice(&canned);
                Ok(())
            },
            other => panic!("MockHal: expected {:?} but driver called {:?}", other, actual),
        }
    }

    fn pulse_sda_low(&mut self, duration_us: u32) -> Result<(), MockHalError> {
        let actual = MockOp::PulseSdaLow { duration_us };
        let expected = self.next(&actual);
        assert_eq!(actual, expected, "MockHal: pulse_sda_low mismatch");
        Ok(())
    }

    fn delay_us(&mut self, duration_us: u32) {
        let actual = MockOp::DelayUs { duration_us };
        let expected = self.next(&actual);
        assert_eq!(actual, expected, "MockHal: delay_us mismatch");
    }

    fn delay_ms(&mut self, duration_ms: u32) {
        let actual = MockOp::DelayMs { duration_ms };
        let expected = self.next(&actual);
        assert_eq!(actual, expected, "MockHal: delay_ms mismatch");
    }
}

const WAKE_RESPONSE: [u8; 4] = [0x04, 0x11, 0x33, 0x43];
const ADDR: u8 = 0x60;
const INFO_COMMAND_WIRE: [u8; 8] = [0x03, 0x07, 0x30, 0x00, 0x00, 0x00, 0x03, 0x5D];
const INFO_RESPONSE_M0: [u8; 7] = [0x07, 0x00, 0x00, 0x60, 0x02, 0x80, 0x38];

fn expect_wake(hal: &mut MockHal) {
    hal.expect_pulse_sda_low(WAKE_LOW_DURATION_US);
    hal.expect_delay_us(WAKE_DELAY_US);
    hal.expect_i2c_read(ADDR, &WAKE_RESPONSE);
}

fn expect_idle(hal: &mut MockHal) {
    hal.expect_i2c_write(ADDR, &[0x02]);
}

fn expect_info_revision_m0(hal: &mut MockHal) {
    hal.expect_i2c_write(ADDR, &INFO_COMMAND_WIRE);
    hal.expect_delay_ms(5);
    hal.expect_i2c_read(ADDR, &INFO_RESPONSE_M0[0..1]);
    hal.expect_i2c_read(ADDR, &INFO_RESPONSE_M0[1..7]);
}

fn status_response(status: u8) -> [u8; 4] {
    let mut out = [0u8; 4];
    out[0] = 0x04;
    out[1] = status;
    let crc_bytes = crc16_to_bytes(crc16(&out[..2]));
    out[2] = crc_bytes[0];
    out[3] = crc_bytes[1];
    out
}

fn response_frame(payload: &[u8]) -> Vec<u8> {
    let mut out = vec![(payload.len() + 3) as u8];
    out.extend_from_slice(payload);
    let crc_bytes = crc16_to_bytes(crc16(&out));
    out.extend_from_slice(&crc_bytes);
    out
}

fn expect_command_round_trip(hal: &mut MockHal, command_wire: &[u8], exec_ms: u32, response: &[u8]) {
    hal.expect_i2c_write(ADDR, command_wire);
    hal.expect_delay_ms(exec_ms);
    hal.expect_i2c_read(ADDR, &response[0..1]);
    hal.expect_i2c_read(ADDR, &response[1..]);
}

/// The command as it goes on the wire: word address, then the frame with
/// its CRC.
fn wire(opcode: u8, p1: u8, p2: u16, data: &[u8]) -> Vec<u8> {
    let mut body = vec![(7 + data.len()) as u8, opcode, p1, (p2 & 0xFF) as u8, (p2 >> 8) as u8];
    body.extend_from_slice(data);
    let crc_bytes = crc16_to_bytes(crc16(&body));
    let mut out = vec![0x03];
    out.extend_from_slice(&body);
    out.extend_from_slice(&crc_bytes);
    out
}

// ---------------------------------------------------------------- Info

#[test]
fn info_revision_full_pipeline() {
    let mut hal = MockHal::new();
    expect_wake(&mut hal);
    expect_info_revision_m0(&mut hal);
    expect_idle(&mut hal);

    let mut atecc = Atecc::new(hal);
    let mut channel = atecc.open_channel().expect("open_channel");
    let revision = channel.info_revision().expect("info_revision");
    channel.close().expect("close");

    assert_eq!(revision, [0x00, 0x00, 0x60, 0x02]);
    atecc.into_hal().verify();
}

#[test]
fn two_commands_in_one_channel_share_a_single_wake() {
    let mut hal = MockHal::new();
    expect_wake(&mut hal);
    expect_info_revision_m0(&mut hal);
    expect_info_revision_m0(&mut hal);
    expect_idle(&mut hal);

    let mut atecc = Atecc::new(hal);
    let mut channel = atecc.open_channel().expect("open_channel");
    let _ = channel.info_revision().expect("first info_revision");
    let revision2 = channel.info_revision().expect("second info_revision");
    channel.close().expect("close");

    assert_eq!(revision2, [0x00, 0x00, 0x60, 0x02]);
    atecc.into_hal().verify();
}

#[test]
fn closing_then_reopening_triggers_fresh_wake() {
    let mut hal = MockHal::new();
    expect_wake(&mut hal);
    expect_info_revision_m0(&mut hal);
    expect_idle(&mut hal);
    expect_wake(&mut hal);
    expect_info_revision_m0(&mut hal);
    expect_idle(&mut hal);

    let mut atecc = Atecc::new(hal);
    let mut channel = atecc.open_channel().expect("open_channel 1");
    let _ = channel.info_revision().expect("info_revision 1");
    channel.close().expect("close 1");
    let mut channel = atecc.open_channel().expect("open_channel 2");
    let _ = channel.info_revision().expect("info_revision 2");
    channel.close().expect("close 2");

    atecc.into_hal().verify();
}

#[test]
fn polling_handles_chip_busy_then_ready() {
    let mut hal = MockHal::new();
    expect_wake(&mut hal);
    hal.expect_i2c_write(ADDR, &INFO_COMMAND_WIRE);
    hal.expect_delay_ms(5);
    hal.expect_i2c_read_nack(ADDR, 1);
    hal.expect_delay_ms(2);
    hal.expect_i2c_read_nack(ADDR, 1);
    hal.expect_delay_ms(2);
    hal.expect_i2c_read_nack(ADDR, 1);
    hal.expect_delay_ms(2);
    hal.expect_i2c_read(ADDR, &INFO_RESPONSE_M0[0..1]);
    hal.expect_i2c_read(ADDR, &INFO_RESPONSE_M0[1..7]);
    expect_idle(&mut hal);

    let mut atecc = Atecc::new(hal);
    let mut channel = atecc.open_channel().expect("open_channel");
    let revision = channel.info_revision().expect("info_revision under polling");
    channel.close().expect("close");
    assert_eq!(revision, [0x00, 0x00, 0x60, 0x02]);
    atecc.into_hal().verify();
}

#[test]
fn wake_with_wrong_response_fails() {
    let mut hal = MockHal::new();
    hal.expect_pulse_sda_low(WAKE_LOW_DURATION_US);
    hal.expect_delay_us(WAKE_DELAY_US);
    hal.expect_i2c_read(ADDR, &[0x04, 0x07, 0xC4, 0x40]);

    let mut atecc = Atecc::new(hal);
    match atecc.open_channel() {
        Err(AteccError::SelfTestFailure) => {},
        Err(other) => panic!("expected SelfTestFailure, got {:?}", other),
        Ok(_) => panic!("expected SelfTestFailure, got a channel"),
    }
    atecc.into_hal().verify();
}

#[test]
fn wake_nack_is_a_hal_error() {
    let mut hal = MockHal::new();
    hal.expect_pulse_sda_low(WAKE_LOW_DURATION_US);
    hal.expect_delay_us(WAKE_DELAY_US);
    hal.expect_i2c_read_nack(ADDR, 4);

    let mut atecc = Atecc::new(hal);
    match atecc.open_channel() {
        Err(AteccError::Hal(MockHalError)) => {},
        Err(other) => panic!("expected Hal, got {:?}", other),
        Ok(_) => panic!("expected Hal, got a channel"),
    }
    atecc.into_hal().verify();
}

#[test]
fn response_with_bad_crc_is_rejected() {
    let mut hal = MockHal::new();
    expect_wake(&mut hal);
    hal.expect_i2c_write(ADDR, &INFO_COMMAND_WIRE);
    hal.expect_delay_ms(5);
    hal.expect_i2c_read(ADDR, &[0x07]);
    hal.expect_i2c_read(ADDR, &[0x00, 0x00, 0x60, 0x02, 0x00, 0x00]);
    expect_idle(&mut hal);

    let mut atecc = Atecc::new(hal);
    let mut channel = atecc.open_channel().expect("open_channel");
    match channel.info_revision() {
        Err(AteccError::BadCrc) => {},
        other => panic!("expected BadCrc, got {:?}", other),
    }
    channel.close().expect("close");
    atecc.into_hal().verify();
}

// ---------------------------------------------------------------- CheckMac

fn build_checkmac_command(
    slot: u8,
    challenge: &[u8; CHECKMAC_CHALLENGE_SIZE],
    client_resp: &[u8; CHECKMAC_CLIENT_RESPONSE_SIZE],
    other_data: &[u8; CHECKMAC_OTHER_DATA_SIZE],
) -> [u8; 85] {
    let mut cmd = [0u8; 85];
    cmd[0] = 0x03;
    cmd[1] = (7 + CHECKMAC_DATA_SIZE) as u8;
    cmd[2] = 0x28;
    cmd[3] = 0x00;
    cmd[4] = slot;
    cmd[5] = 0x00;
    cmd[6..38].copy_from_slice(challenge);
    cmd[38..70].copy_from_slice(client_resp);
    cmd[70..83].copy_from_slice(other_data);
    let crc_bytes = crc16_to_bytes(crc16(&cmd[1..83]));
    cmd[83] = crc_bytes[0];
    cmd[84] = crc_bytes[1];
    cmd
}

#[test]
fn checkmac_match_returns_true() {
    let mut challenge = [0u8; CHECKMAC_CHALLENGE_SIZE];
    for (i, byte) in challenge.iter_mut().enumerate() {
        *byte = i as u8;
    }
    let mut client_resp = [0u8; CHECKMAC_CLIENT_RESPONSE_SIZE];
    for (i, byte) in client_resp.iter_mut().enumerate() {
        *byte = (i as u8) ^ 0xFF;
    }
    let other_data = [0u8; CHECKMAC_OTHER_DATA_SIZE];

    let command = build_checkmac_command(5, &challenge, &client_resp, &other_data);
    assert_eq!(command[83..85], [0x33, 0x0E]);
    let response = status_response(0x00);

    let mut hal = MockHal::new();
    expect_wake(&mut hal);
    expect_command_round_trip(&mut hal, &command, 40, &response);

    let mut atecc = Atecc::new(hal);
    let ok = atecc.checkmac(Slot::const_new(5), &challenge, &client_resp, &other_data).expect("checkmac");
    assert!(ok);
    atecc.into_hal().verify();
}

#[test]
fn checkmac_miscompare_returns_false() {
    let challenge = [0u8; CHECKMAC_CHALLENGE_SIZE];
    let client_resp = [0u8; CHECKMAC_CLIENT_RESPONSE_SIZE];
    let other_data = [0u8; CHECKMAC_OTHER_DATA_SIZE];

    let command = build_checkmac_command(5, &challenge, &client_resp, &other_data);
    assert_eq!(command[83..85], [0xBA, 0x95]);
    let response = status_response(0x01);

    let mut hal = MockHal::new();
    expect_wake(&mut hal);
    expect_command_round_trip(&mut hal, &command, 40, &response);

    let mut atecc = Atecc::new(hal);
    let ok = atecc.checkmac(Slot::const_new(5), &challenge, &client_resp, &other_data).expect("checkmac");
    assert!(!ok);
    atecc.into_hal().verify();
}

// ---------------------------------------------------------------- Counter

fn response_frame_u32(value: u32) -> Vec<u8> {
    response_frame(&value.to_le_bytes())
}

fn run_counter(command: &[u8], response: &[u8], increment: bool, id: CounterId) -> u32 {
    let mut hal = MockHal::new();
    expect_wake(&mut hal);
    expect_command_round_trip(&mut hal, command, 25, response);
    expect_idle(&mut hal);

    let mut atecc = Atecc::new(hal);
    let mut channel = atecc.open_channel().expect("open_channel");
    let value = if increment {
        channel.counter_increment(id).expect("counter_increment")
    } else {
        channel.counter_read(id).expect("counter_read")
    };
    channel.close().expect("close");
    atecc.into_hal().verify();
    value
}

#[test]
fn counter_read_counter0_returns_value() {
    const COMMAND: [u8; 8] = [0x03, 0x07, 0x24, 0x00, 0x00, 0x00, 0x0C, 0xFD];
    let value = run_counter(&COMMAND, &response_frame_u32(5), false, CounterId::Counter0);
    assert_eq!(value, 5);
}

#[test]
fn counter_increment_counter0_returns_new_value() {
    const COMMAND: [u8; 8] = [0x03, 0x07, 0x24, 0x01, 0x00, 0x00, 0x0F, 0x77];
    let value = run_counter(&COMMAND, &response_frame_u32(6), true, CounterId::Counter0);
    assert_eq!(value, 6);
}

#[test]
fn counter_read_counter1_uses_param2_one() {
    const COMMAND: [u8; 8] = [0x03, 0x07, 0x24, 0x00, 0x01, 0x00, 0x05, 0x7D];
    let value = run_counter(&COMMAND, &response_frame_u32(123_456), false, CounterId::Counter1);
    assert_eq!(value, 123_456);
}

#[test]
fn counter_value_is_little_endian() {
    const COMMAND: [u8; 8] = [0x03, 0x07, 0x24, 0x00, 0x00, 0x00, 0x0C, 0xFD];
    let mut response = [0u8; 7];
    response[0] = 7;
    response[1] = 0x00;
    response[2] = 0x01;
    response[3] = 0x00;
    response[4] = 0x00;
    let crc_bytes = crc16_to_bytes(crc16(&response[..5]));
    response[5] = crc_bytes[0];
    response[6] = crc_bytes[1];
    let value = run_counter(&COMMAND, &response, false, CounterId::Counter0);
    assert_eq!(value, 256);
}

// ---------------------------------------------------------------- GenDig

fn run_gendig(command: &[u8], zone: GenDigZone, key_id: u16) {
    let response = status_response(0x00);
    let mut hal = MockHal::new();
    expect_wake(&mut hal);
    expect_command_round_trip(&mut hal, command, 25, &response);
    expect_idle(&mut hal);

    let mut atecc = Atecc::new(hal);
    let mut channel = atecc.open_channel().expect("open_channel");
    channel.gendig(zone, key_id).expect("gendig");
    channel.close().expect("close");
    atecc.into_hal().verify();
}

#[test]
fn gendig_data_slot_8_uses_zone_data() {
    const COMMAND: [u8; 8] = [0x03, 0x07, 0x15, 0x02, 0x08, 0x00, 0x33, 0xE8];
    run_gendig(&COMMAND, GenDigZone::Data, 0x0008);
}

#[test]
fn gendig_config_block_0() {
    const COMMAND: [u8; 8] = [0x03, 0x07, 0x15, 0x00, 0x00, 0x00, 0x33, 0x8D];
    run_gendig(&COMMAND, GenDigZone::Config, 0x0000);
}

#[test]
fn gendig_data_slot_0() {
    const COMMAND: [u8; 8] = [0x03, 0x07, 0x15, 0x02, 0x00, 0x00, 0x30, 0x08];
    run_gendig(&COMMAND, GenDigZone::Data, 0x0000);
}

// ---------------------------------------------------------------- GenKey

#[test]
fn genkey_create_slot_0_returns_pubkey() {
    const COMMAND: [u8; 8] = [0x03, 0x07, 0x40, 0x04, 0x00, 0x00, 0x83, 0x87];
    let mut pubkey = [0u8; PUBLIC_KEY_SIZE];
    for (i, byte) in pubkey.iter_mut().enumerate() {
        *byte = i as u8;
    }
    let response = response_frame(&pubkey);

    let mut hal = MockHal::new();
    expect_wake(&mut hal);
    expect_command_round_trip(&mut hal, &COMMAND, 215, &response);

    let mut atecc = Atecc::new(hal);
    let result = atecc.genkey_create(Slot::const_new(0)).expect("genkey_create");
    assert_eq!(result, pubkey);
    atecc.into_hal().verify();
}

#[test]
fn genkey_public_slot_0_uses_mode_zero() {
    const COMMAND: [u8; 8] = [0x03, 0x07, 0x40, 0x00, 0x00, 0x00, 0x00, 0x05];
    let pubkey = [0x42u8; PUBLIC_KEY_SIZE];
    let response = response_frame(&pubkey);

    let mut hal = MockHal::new();
    expect_wake(&mut hal);
    expect_command_round_trip(&mut hal, &COMMAND, 215, &response);

    let mut atecc = Atecc::new(hal);
    let result = atecc.genkey_public(Slot::const_new(0)).expect("genkey_public");
    assert_eq!(result, pubkey);
    atecc.into_hal().verify();
}

#[test]
fn genkey_create_slot_1_changes_param2() {
    const COMMAND: [u8; 8] = [0x03, 0x07, 0x40, 0x00, 0x01, 0x00, 0x09, 0x85];
    let pubkey = [0xAAu8; PUBLIC_KEY_SIZE];
    let response = response_frame(&pubkey);

    let mut hal = MockHal::new();
    expect_wake(&mut hal);
    expect_command_round_trip(&mut hal, &COMMAND, 215, &response);

    let mut atecc = Atecc::new(hal);
    let result = atecc.genkey_public(Slot::const_new(1)).expect("genkey_public slot 1");
    assert_eq!(result, pubkey);
    atecc.into_hal().verify();
}

// ---------------------------------------------------------------- Nonce

#[test]
fn nonce_random_returns_chip_num_out() {
    let mut num_in = [0u8; NONCE_NUMIN_SIZE];
    for (i, byte) in num_in.iter_mut().enumerate() {
        *byte = i as u8;
    }
    let command = wire(0x16, 0x00, 0x0000, &num_in);
    assert_eq!(command.len(), 28);
    assert_eq!(command[26..28], [0x53, 0xB5]);

    let mut num_out = [0u8; NONCE_NUMOUT_SIZE];
    for (i, byte) in num_out.iter_mut().enumerate() {
        *byte = 0x80 + i as u8;
    }
    let response = response_frame(&num_out);

    let mut hal = MockHal::new();
    expect_wake(&mut hal);
    expect_command_round_trip(&mut hal, &command, 20, &response);
    expect_idle(&mut hal);

    let mut atecc = Atecc::new(hal);
    let mut channel = atecc.open_channel().expect("open_channel");
    let result = channel.nonce_random(&num_in).expect("nonce_random");
    assert_eq!(result, num_out);
    channel.close().expect("close");
    atecc.into_hal().verify();
}

#[test]
fn nonce_passthrough_tempkey_loads_value_verbatim() {
    let mut value = [0u8; NONCE_PASSTHROUGH_SIZE];
    for (i, byte) in value.iter_mut().enumerate() {
        *byte = 0x20 + i as u8;
    }
    let command = wire(0x16, 0x03, 0x0000, &value);
    assert_eq!(command[38..40], [0x8B, 0xE0]);
    let response = status_response(0x00);

    let mut hal = MockHal::new();
    expect_wake(&mut hal);
    expect_command_round_trip(&mut hal, &command, 20, &response);
    expect_idle(&mut hal);

    let mut atecc = Atecc::new(hal);
    let mut channel = atecc.open_channel().expect("open_channel");
    channel.nonce_passthrough(NonceTarget::TempKey, &value).expect("nonce_passthrough TempKey");
    channel.close().expect("close");
    atecc.into_hal().verify();
}

#[test]
fn nonce_passthrough_msgdigbuf_sets_target_bit() {
    let value = [0xAAu8; NONCE_PASSTHROUGH_SIZE];
    let command = wire(0x16, 0x43, 0x0000, &value);
    assert_eq!(command[38..40], [0xF7, 0x45]);
    let response = status_response(0x00);

    let mut hal = MockHal::new();
    expect_wake(&mut hal);
    expect_command_round_trip(&mut hal, &command, 20, &response);
    expect_idle(&mut hal);

    let mut atecc = Atecc::new(hal);
    let mut channel = atecc.open_channel().expect("open_channel");
    channel.nonce_passthrough(NonceTarget::MsgDigBuf, &value).expect("nonce_passthrough MsgDigBuf");
    channel.close().expect("close");
    atecc.into_hal().verify();
}

#[test]
fn nonce_passthrough_propagates_chip_parse_error() {
    let value = [0x11u8; NONCE_PASSTHROUGH_SIZE];
    let command = wire(0x16, 0x03, 0x0000, &value);
    let response = status_response(0x03);

    let mut hal = MockHal::new();
    expect_wake(&mut hal);
    expect_command_round_trip(&mut hal, &command, 20, &response);
    expect_idle(&mut hal);

    let mut atecc = Atecc::new(hal);
    let mut channel = atecc.open_channel().expect("open_channel");
    let err = channel.nonce_passthrough(NonceTarget::TempKey, &value).unwrap_err();
    match err {
        AteccError::Chip(ChipError::ParseError) => {},
        other => panic!("expected Chip(ParseError), got {:?}", other),
    }
    channel.close().expect("close");
    atecc.into_hal().verify();
}

#[test]
fn nonce_random_then_passthrough_share_one_wake() {
    let num_in = [0xCCu8; NONCE_NUMIN_SIZE];
    let cmd1 = wire(0x16, 0x00, 0x0000, &num_in);
    let num_out = [0x55u8; NONCE_NUMOUT_SIZE];
    let resp1 = response_frame(&num_out);
    let value = [0x00u8; NONCE_PASSTHROUGH_SIZE];
    let cmd2 = wire(0x16, 0x03, 0x0000, &value);
    let resp2 = status_response(0x00);

    let mut hal = MockHal::new();
    expect_wake(&mut hal);
    expect_command_round_trip(&mut hal, &cmd1, 20, &resp1);
    expect_command_round_trip(&mut hal, &cmd2, 20, &resp2);
    expect_idle(&mut hal);

    let mut atecc = Atecc::new(hal);
    let mut channel = atecc.open_channel().expect("open_channel");
    let returned = channel.nonce_random(&num_in).expect("nonce_random");
    assert_eq!(returned, num_out);
    channel.nonce_passthrough(NonceTarget::TempKey, &value).expect("nonce_passthrough");
    channel.close().expect("close");
    atecc.into_hal().verify();
}

// ---------------------------------------------------------------- PrivWrite

fn privwrite_command(priv_key: &[u8; 32]) -> Vec<u8> {
    let mut data = [0u8; PRIVWRITE_CLEARTEXT_SIZE];
    data[4..].copy_from_slice(priv_key);
    wire(0x46, 0x00, 0x0000, &data)
}

#[test]
fn privwrite_cleartext_slot_0_zero_key() {
    let priv_key = [0u8; 32];
    let command = privwrite_command(&priv_key);
    assert_eq!(command.len(), 44);
    assert_eq!(command[42..44], [0xCC, 0x80]);
    let response = status_response(0x00);

    let mut hal = MockHal::new();
    expect_wake(&mut hal);
    expect_command_round_trip(&mut hal, &command, 50, &response);
    expect_idle(&mut hal);

    let mut atecc = Atecc::new(hal);
    let mut channel = atecc.open_channel().expect("open_channel");
    channel.privwrite_cleartext(Slot::const_new(0), &priv_key).expect("privwrite_cleartext");
    channel.close().expect("close");
    atecc.into_hal().verify();
}

#[test]
fn privwrite_cleartext_propagates_chip_execution_error() {
    let priv_key = [0xAAu8; 32];
    let command = privwrite_command(&priv_key);
    let response = status_response(0x0F);

    let mut hal = MockHal::new();
    expect_wake(&mut hal);
    expect_command_round_trip(&mut hal, &command, 50, &response);
    expect_idle(&mut hal);

    let mut atecc = Atecc::new(hal);
    let mut channel = atecc.open_channel().expect("open_channel");
    let err = channel.privwrite_cleartext(Slot::const_new(0), &priv_key).unwrap_err();
    match err {
        AteccError::Chip(ChipError::ExecutionError) => {},
        other => panic!("expected Chip(ExecutionError), got {:?}", other),
    }
    channel.close().expect("close");
    atecc.into_hal().verify();
}

#[test]
fn privwrite_cleartext_payload_size_constant() {
    assert_eq!(PRIVWRITE_CLEARTEXT_SIZE, 36);
}

// ---------------------------------------------------------------- Sign

#[test]
fn sign_external_slot_0_returns_64_byte_signature() {
    const COMMAND: [u8; 8] = [0x03, 0x07, 0x41, 0xA0, 0x00, 0x00, 0x7B, 0x85];
    let mut sig = [0u8; SIGNATURE_SIZE];
    for (i, byte) in sig.iter_mut().enumerate() {
        *byte = 0x40 + i as u8;
    }
    let response = response_frame(&sig);

    let mut hal = MockHal::new();
    expect_wake(&mut hal);
    expect_command_round_trip(&mut hal, &COMMAND, 220, &response);
    expect_idle(&mut hal);

    let mut atecc = Atecc::new(hal);
    let mut channel = atecc.open_channel().expect("open_channel");
    let result = channel.sign_external(Slot::const_new(0)).expect("sign_external");
    assert_eq!(result, sig);
    channel.close().expect("close");
    atecc.into_hal().verify();
}

// ---------------------------------------------------------------- Verify

fn build_verify_command(signature: &[u8; SIGNATURE_SIZE], public_key: &[u8; PUBLIC_KEY_SIZE]) -> Vec<u8> {
    let mut data = Vec::new();
    data.extend_from_slice(signature);
    data.extend_from_slice(public_key);
    wire(0x45, 0x02, 0x0004, &data)
}

fn run_verify(signature: &[u8; SIGNATURE_SIZE], public_key: &[u8; PUBLIC_KEY_SIZE], status: u8) -> bool {
    let command = build_verify_command(signature, public_key);
    let response = status_response(status);

    let mut hal = MockHal::new();
    expect_wake(&mut hal);
    expect_command_round_trip(&mut hal, &command, 295, &response);
    expect_idle(&mut hal);

    let mut atecc = Atecc::new(hal);
    let mut channel = atecc.open_channel().expect("open_channel");
    let ok = channel.verify_external(signature, public_key).expect("verify_external");
    channel.close().expect("close");
    atecc.into_hal().verify();
    ok
}

#[test]
fn verify_external_success_returns_true() {
    let signature = [0x11u8; SIGNATURE_SIZE];
    let public_key = [0x22u8; PUBLIC_KEY_SIZE];
    let command = build_verify_command(&signature, &public_key);
    assert_eq!(command.len(), 136);
    assert_eq!(command[134..136], [0xB6, 0x87]);
    assert!(run_verify(&signature, &public_key, 0x00));
}

#[test]
fn verify_external_miscompare_returns_false() {
    let signature = [0x33u8; SIGNATURE_SIZE];
    let public_key = [0x44u8; PUBLIC_KEY_SIZE];
    assert!(!run_verify(&signature, &public_key, 0x01));
}

// ---------------------------------------------------------------- Write

fn build_write_4_config_word(block: u8, word_offset: u8, data: &[u8; WORD_SIZE]) -> Vec<u8> {
    wire(0x12, 0x00, config_or_otp_address(block, word_offset), data)
}

#[test]
fn write_4_config_block_2_offset_5_cleartext() {
    const COMMAND: [u8; 12] = [0x03, 0x0B, 0x12, 0x00, 0x15, 0x00, 0xCA, 0xFE, 0xBA, 0xBE, 0x18, 0x3A];
    let response = status_response(0x00);

    let mut hal = MockHal::new();
    expect_wake(&mut hal);
    expect_command_round_trip(&mut hal, &COMMAND, 45, &response);
    expect_idle(&mut hal);

    let mut atecc = Atecc::new(hal);
    let mut channel = atecc.open_channel().expect("open_channel");
    let payload = [0xCA, 0xFE, 0xBA, 0xBE];
    channel.write_4(Zone::Config, config_or_otp_address(2, 5), &payload).expect("write_4");
    channel.close().expect("close");
    atecc.into_hal().verify();
}

#[test]
fn write_slot_word_uses_data_zone_address() {
    let payload = [0x11u8, 0x22, 0x33, 0x44];
    let command = wire(0x12, 0x02, 0x0000, &payload);
    let response = status_response(0x00);

    let mut hal = MockHal::new();
    expect_wake(&mut hal);
    expect_command_round_trip(&mut hal, &command, 45, &response);
    expect_idle(&mut hal);

    let mut atecc = Atecc::new(hal);
    let mut channel = atecc.open_channel().expect("open_channel");
    channel.write_slot_word(Slot::const_new(0), 0, 0, &payload).expect("write_slot_word");
    channel.close().expect("close");
    atecc.into_hal().verify();
}

fn incrementing_block() -> [u8; BLOCK_SIZE] {
    let mut data = [0u8; BLOCK_SIZE];
    for (i, byte) in data.iter_mut().enumerate() {
        *byte = 0x10 + i as u8;
    }
    data
}

#[test]
fn write_32_data_slot_8_block_0_cleartext() {
    let data = incrementing_block();
    let command = wire(0x12, 0x82, 0x0040, &data);
    assert_eq!(command[38..40], [0x43, 0xD8]);
    let response = status_response(0x00);

    let mut hal = MockHal::new();
    expect_wake(&mut hal);
    expect_command_round_trip(&mut hal, &command, 45, &response);
    expect_idle(&mut hal);

    let mut atecc = Atecc::new(hal);
    let mut channel = atecc.open_channel().expect("open_channel");
    channel.write_slot_block(Slot::const_new(8), 0, &data).expect("write_slot_block");
    channel.close().expect("close");
    atecc.into_hal().verify();
}

#[test]
fn write_32_uses_raw_address_api() {
    let slot = Slot::const_new(8);
    let data = incrementing_block();
    let command = wire(0x12, 0x82, 0x0040, &data);
    let response = status_response(0x00);

    let mut hal = MockHal::new();
    expect_wake(&mut hal);
    expect_command_round_trip(&mut hal, &command, 45, &response);
    expect_idle(&mut hal);

    let mut atecc = Atecc::new(hal);
    let mut channel = atecc.open_channel().expect("open_channel");
    channel.write_32(Zone::Data, data_address(slot, 0, 0), &data).expect("write_32");
    channel.close().expect("close");
    atecc.into_hal().verify();
}

fn run_config_word_writes(block: u8, payload: &[u8; BLOCK_SIZE], offsets: &[u8]) {
    let response = status_response(0x00);
    let mut hal = MockHal::new();
    expect_wake(&mut hal);
    for &word_offset in offsets {
        let off = usize::from(word_offset) * 4;
        let chunk = [payload[off], payload[off + 1], payload[off + 2], payload[off + 3]];
        expect_command_round_trip(&mut hal, &build_write_4_config_word(block, word_offset, &chunk), 45, &response);
    }
    expect_idle(&mut hal);

    let mut atecc = Atecc::new(hal);
    let mut channel = atecc.open_channel().expect("open_channel");
    for &word_offset in offsets {
        let off = usize::from(word_offset) * 4;
        let chunk: [u8; WORD_SIZE] = [payload[off], payload[off + 1], payload[off + 2], payload[off + 3]];
        channel.write_4(Zone::Config, config_or_otp_address(block, word_offset), &chunk).expect("write_4");
    }
    channel.close().expect("close");
    atecc.into_hal().verify();
}

#[test]
fn write_config_block_0_sequence_is_four_4byte_writes_at_words_4_to_7() {
    let mut payload = [0u8; BLOCK_SIZE];
    for (i, byte) in payload.iter_mut().enumerate() {
        *byte = if i < 16 { 0xA0 | (i as u8) } else { 0xB0 | ((i - 16) as u8) };
    }
    let frames: Vec<Vec<u8>> = (4u8..=7)
        .map(|w| {
            let off = usize::from(w) * 4;
            build_write_4_config_word(0, w, &[payload[off], payload[off + 1], payload[off + 2], payload[off + 3]])
        })
        .collect();
    for frame in &frames {
        assert!(frame[6..10].iter().all(|b| b & 0xF0 == 0xB0));
    }
    run_config_word_writes(0, &payload, &[4, 5, 6, 7]);
}

#[test]
fn write_config_block_0_addresses_are_0x0004_through_0x0007() {
    assert_eq!(config_or_otp_address(0, 4), 0x0004);
    assert_eq!(config_or_otp_address(0, 5), 0x0005);
    assert_eq!(config_or_otp_address(0, 6), 0x0006);
    assert_eq!(config_or_otp_address(0, 7), 0x0007);
}

#[test]
fn write_config_block_2_sequence_skips_word_5() {
    let mut payload = [0u8; BLOCK_SIZE];
    for (i, byte) in payload.iter_mut().enumerate() {
        *byte = 0xC0 | (i as u8 & 0x1F);
    }
    let writable_offsets: [u8; 7] = [0, 1, 2, 3, 4, 6, 7];
    assert_eq!(writable_offsets.len(), 7);
    run_config_word_writes(2, &payload, &writable_offsets);
}

#[test]
fn write_config_block_2_addresses_skip_0x0015() {
    assert_eq!(config_or_otp_address(2, 0), 0x0010);
    assert_eq!(config_or_otp_address(2, 4), 0x0014);
    assert_eq!(config_or_otp_address(2, 5), 0x0015);
    assert_eq!(config_or_otp_address(2, 6), 0x0016);
    assert_eq!(config_or_otp_address(2, 7), 0x0017);
}

#[test]
fn write_32_encrypted_data_slot_5() {
    let mut data = [0u8; ENCRYPTED_WRITE_DATA_SIZE];
    data[..32].fill(0xAA);
    data[32..].fill(0x55);
    let command = wire(0x12, 0xC2, 0x0028, &data);
    assert_eq!(command.len(), 72);
    assert_eq!(command[70..72], [0x40, 0xED]);
    let response = status_response(0x00);

    let mut hal = MockHal::new();
    expect_wake(&mut hal);
    expect_command_round_trip(&mut hal, &command, 45, &response);
    expect_idle(&mut hal);

    let mut atecc = Atecc::new(hal);
    let mut channel = atecc.open_channel().expect("open_channel");
    channel
        .write_32_encrypted(Zone::Data, data_address(Slot::const_new(5), 0, 0), &data)
        .expect("write_32_encrypted");
    channel.close().expect("close");
    atecc.into_hal().verify();
}

#[test]
fn write_propagates_chip_execution_error() {
    let command = wire(0x12, 0x00, 0x0000, &[0x01, 0x02, 0x03, 0x04]);
    let response = status_response(0x0F);
    let mut hal = MockHal::new();
    expect_wake(&mut hal);
    expect_command_round_trip(&mut hal, &command, 45, &response);
    expect_idle(&mut hal);

    let mut atecc = Atecc::new(hal);
    let mut channel = atecc.open_channel().expect("open_channel");
    let payload: [u8; WORD_SIZE] = [0x01, 0x02, 0x03, 0x04];
    let err = channel.write_4(Zone::Config, 0, &payload).unwrap_err();
    match err {
        AteccError::Chip(ChipError::ExecutionError) => {},
        other => panic!("expected Chip(ExecutionError), got {:?}", other),
    }
    channel.close().expect("close");
    atecc.into_hal().verify();
}

#[test]
fn write_rejects_payload_response_as_malformed() {
    let command = wire(0x12, 0x00, 0x0000, &[0xAA, 0xBB, 0xCC, 0xDD]);
    let mut hal = MockHal::new();
    expect_wake(&mut hal);
    hal.expect_i2c_write(ADDR, &command);
    hal.expect_delay_ms(45);
    hal.expect_i2c_read(ADDR, &[0x05]);
    expect_idle(&mut hal);

    let mut atecc = Atecc::new(hal);
    let mut channel = atecc.open_channel().expect("open_channel");
    let payload: [u8; WORD_SIZE] = [0xAA, 0xBB, 0xCC, 0xDD];
    let err = channel.write_4(Zone::Config, 0, &payload).unwrap_err();
    match err {
        AteccError::MalformedResponse => {},
        other => panic!("expected MalformedResponse, got {:?}", other),
    }
    channel.close().expect("close");
    atecc.into_hal().verify();
}

// ---------------------------------------------------------------- Read and lock

#[test]
fn read_4_returns_the_word() {
    let command = wire(0x02, 0x00, config_or_otp_address(0, 1), &[]);
    let response = response_frame(&[0xDE, 0xAD, 0xBE, 0xEF]);
    let mut hal = MockHal::new();
    expect_wake(&mut hal);
    expect_command_round_trip(&mut hal, &command, 5, &response);
    expect_idle(&mut hal);

    let mut atecc = Atecc::new(hal);
    let mut channel = atecc.open_channel().expect("open_channel");
    let word = channel.read_4(Zone::Config, config_or_otp_address(0, 1)).expect("read_4");
    assert_eq!(word, [0xDE, 0xAD, 0xBE, 0xEF]);
    channel.close().expect("close");
    atecc.into_hal().verify();
}

#[test]
fn read_32_of_a_slot_block() {
    let data = incrementing_block();
    let command = wire(0x02, 0x82, data_address(Slot::const_new(8), 0, 0), &[]);
    let response = response_frame(&data);
    let mut hal = MockHal::new();
    expect_wake(&mut hal);
    expect_command_round_trip(&mut hal, &command, 5, &response);
    expect_idle(&mut hal);

    let mut atecc = Atecc::new(hal);
    let mut channel = atecc.open_channel().expect("open_channel");
    let block = channel.read_slot_block(Slot::const_new(8), 0).expect("read_slot_block");
    assert_eq!(block, data);
    channel.close().expect("close");
    atecc.into_hal().verify();
}

#[test]
fn lock_slot_sends_mode_with_slot_bits() {
    let command = wire(0x17, 0x82 | (6 << 2), 0x0000, &[]);
    let response = status_response(0x00);
    let mut hal = MockHal::new();
    expect_wake(&mut hal);
    expect_command_round_trip(&mut hal, &command, 35, &response);
    expect_idle(&mut hal);

    let mut atecc = Atecc::new(hal);
    let mut channel = atecc.open_channel().expect("open_channel");
    channel.lock_slot(Slot::const_new(6)).expect("lock_slot");
    channel.close().expect("close");
    atecc.into_hal().verify();
}

#[test]
fn random_without_channel_wakes_and_returns_bytes() {
    let command = wire(0x1B, 0x00, 0x0000, &[]);
    let bytes = [0x5Au8; 32];
    let response = response_frame(&bytes);
    let mut hal = MockHal::new();
    expect_wake(&mut hal);
    expect_command_round_trip(&mut hal, &command, 23, &response);

    let mut atecc = Atecc::new(hal);
    let out = atecc.random().expect("random");
    assert_eq!(out, bytes);
    atecc.into_hal().verify();
}
