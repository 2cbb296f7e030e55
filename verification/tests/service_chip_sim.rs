//! The PIN, PUK and reset operations of the crypto service against a small
//! simulated chip that answers every command by its opcode and keeps the
//! two attempt counters.

use std::cell::{Cell, RefCell};
use std::collections::VecDeque;
use std::rc::Rc;

use mini_hsm::atecc::crc::{crc16, crc16_to_bytes};
use mini_hsm::atecc::driver::Atecc;
use mini_hsm::atecc::hal::AteccHal;
use mini_hsm::service::error::CryptoServiceError;
use mini_hsm::service::service::CryptoService;
use mini_hsm::service::session::Clock;

#[derive(Debug, PartialEq, Eq)]
struct SimError;

/// A command the simulated chip received: opcode, param1, param2.
#[derive(Debug, Clone, Copy, PartialEq, Eq)]
struct Received {
    opcode: u8,
    p1: u8,
    p2: u16,
}

#[derive(Debug, Default)]
struct SimState {
    counters: [u32; 2],
    increments_fail: bool,
    checkmac_matches: bool,
    received: Vec<Received>,
    pending: VecDeque<u8>,
    wake_pending: bool,
}

/// The chip as the driver sees it; the test keeps a handle on its state.
struct SimChip(Rc<RefCell<SimState>>);

fn frame(payload: &[u8]) -> Vec<u8> {
    let mut out = vec![(payload.len() + 3) as u8];
    out.extend_from_slice(payload);
    out.extend_from_slice(&crc16_to_bytes(crc16(&out)));
    out
}

impl SimState {
    fn answer(&mut self, cmd: Received) -> Vec<u8> {
        match cmd.opcode {
            0x02 => if cmd.p1 & 0x80 != 0 { vec![0u8; 32] } else { vec![0u8; 4] },
            0x40 => vec![0x11u8; 64],
            0x1B => (0..32u8).collect(),
            0x16 => if cmd.p1 & 0x03 == 0x03 { vec![0x00] } else { vec![0x22u8; 32] },
            0x30 => vec![0x00, 0x00, 0x60, 0x03],
            0x28 => {
                let counter = if cmd.p2 == 6 { 1 } else { 0 };
                self.counters[counter] += 1;
                vec![if self.checkmac_matches { 0x00 } else { 0x01 }]
            },
            0x24 => {
                let counter = (cmd.p2 & 1) as usize;
                if cmd.p1 == 0x01 {
                    if self.increments_fail {
                        return vec![0x0F];
                    }
                    self.counters[counter] += 1;
                }
                self.counters[counter].to_le_bytes().to_vec()
            },
            _ => vec![0x00],
        }
    }

    fn opcodes(&self) -> Vec<u8> {
        self.received.iter().map(|c| c.opcode).collect()
    }

    fn increments_of(&self, counter: u16) -> usize {
        self.received.iter().filter(|c| c.opcode == 0x24 && c.p1 == 0x01 && c.p2 == counter).count()
    }
}

impl AteccHal for SimChip {
    type Error = SimError;

    fn i2c_write(&mut self, _device_addr: u8, data: &[u8]) -> Result<(), SimError> {
        let mut st = self.0.borrow_mut();
        if data.first() == Some(&0x03) && data.len() >= 8 {
            let cmd = Received { opcode: data[2], p1: data[3], p2: u16::from_le_bytes([data[4], data[5]]) };
            st.received.push(cmd);
            let payload = st.answer(cmd);
            st.pending = frame(&payload).into();
        }
        Ok(())
    }

    fn i2c_read(&mut self, _device_addr: u8, buf: &mut [u8]) -> Result<(), SimError> {
        let mut st = self.0.borrow_mut();
        if st.wake_pending {
            st.wake_pending = false;
            buf.copy_from_slice(&[0x04, 0x11, 0x33, 0x43]);
            return Ok(());
        }
        for b in buf.iter_mut() {
            *b = st.pending.pop_front().ok_or(SimError)?;
        }
        Ok(())
    }

    fn pulse_sda_low(&mut self, _duration_us: u32) -> Result<(), SimError> {
        self.0.borrow_mut().wake_pending = true;
        Ok(())
    }

    fn delay_us(&mut self, _duration_us: u32) {}

    fn delay_ms(&mut self, _duration_ms: u32) {}
}

struct FixedClock(u64);

impl Clock for FixedClock {
    fn now_ms(&self) -> u64 {
        self.0
    }
}

fn service(state: &Rc<RefCell<SimState>>) -> CryptoService<SimChip, FixedClock> {
    CryptoService::new(Atecc::new(SimChip(Rc::clone(state))), FixedClock(1_000))
}

fn chip(c0: u32, c1: u32) -> Rc<RefCell<SimState>> {
    Rc::new(RefCell::new(SimState { counters: [c0, c1], checkmac_matches: true, ..SimState::default() }))
}

#[test]
fn emergency_reset_with_attempts_left_reads_the_counters_and_stops() {
    let sim = chip(7, 0);
    let mut svc = service(&sim);
    match svc.emergency_reset(&[0u8; 32]) {
        Err(CryptoServiceError::EmergencyResetNotPermitted { pin_tries_remaining: 3, puk_tries_remaining: 10 }) => {},
        other => panic!("expected a refusal, got {:?}", other),
    }
    let chip = sim.borrow();
    assert_eq!(chip.opcodes(), vec![0x24, 0x24]);
    assert_eq!(chip.counters, [7, 0]);
}

#[test]
fn emergency_reset_refuses_while_puk_attempts_remain() {
    let sim = chip(5, 13);
    let mut svc = service(&sim);
    match svc.emergency_reset(&[0u8; 32]) {
        Err(CryptoServiceError::EmergencyResetNotPermitted { pin_tries_remaining: 0, puk_tries_remaining: 7 }) => {},
        other => panic!("expected a refusal, got {:?}", other),
    }
}

#[test]
fn emergency_reset_at_the_counter_limit_is_bricked() {
    let sim = chip(5, 10);
    sim.borrow_mut().increments_fail = true;
    let mut svc = service(&sim);
    match svc.emergency_reset(&[0u8; 32]) {
        Err(CryptoServiceError::Bricked) => {},
        other => panic!("expected Bricked, got {:?}", other),
    }
    let chip = sim.borrow();
    assert_eq!(chip.received.iter().filter(|c| c.opcode == 0x40).count(), 6);
    assert_eq!(chip.increments_of(0), 0);
    let last = chip.received.last().copied().unwrap();
    assert_eq!((last.opcode, last.p1, last.p2), (0x24, 0x01, 1));
}

#[test]
fn emergency_reset_with_both_batches_exhausted_gives_a_new_puk() {
    let sim = chip(5, 10);
    let mut svc = service(&sim);
    let puk = svc.emergency_reset(&[0u8; 32]).expect("emergency_reset");
    assert!(puk.iter().all(|b| b.is_ascii_digit()));
    let chip = sim.borrow();
    assert_eq!(chip.increments_of(1), 1);
    assert_eq!(chip.increments_of(0), 1);
    assert_eq!(chip.counters, [6, 11]);
}

#[test]
fn set_puk_without_a_session_sends_nothing() {
    let sim = chip(0, 0);
    let mut svc = service(&sim);
    match svc.set_puk(b"12345678", b"87654321", &[0u8; 32]) {
        Err(CryptoServiceError::PinRequired) => {},
        other => panic!("expected PinRequired, got {:?}", other),
    }
    assert!(sim.borrow().received.is_empty());
    assert!(!svc.is_session_active());
}

#[test]
fn verify_pin_success_refreshes_the_batch_and_opens_a_session() {
    let sim = chip(2, 0);
    let mut svc = service(&sim);
    svc.verify_pin(b"0000").expect("verify_pin");
    assert!(svc.is_session_active());
    let chip = sim.borrow();
    assert_eq!(chip.counters[0], 6);
    assert_eq!(chip.increments_of(0), 3);
}

#[test]
fn verify_pin_miscompare_reports_the_attempts_left_and_writes_nothing() {
    let sim = chip(2, 0);
    sim.borrow_mut().checkmac_matches = false;
    let mut svc = service(&sim);
    match svc.verify_pin(b"0000") {
        Err(CryptoServiceError::PinIncorrect { tries_remaining: 2 }) => {},
        other => panic!("expected PinIncorrect, got {:?}", other),
    }
    assert!(!svc.is_session_active());
    let chip = sim.borrow();
    assert_eq!(chip.increments_of(0), 0);
    assert!(!chip.opcodes().contains(&0x12));
}

#[test]
fn unblock_pin_with_an_exhausted_puk_batch_is_bricked_after_one_read() {
    let sim = chip(5, 20);
    let mut svc = service(&sim);
    match svc.unblock_pin(b"12345678", b"1111", &[0u8; 32]) {
        Err(CryptoServiceError::Bricked) => {},
        other => panic!("expected Bricked, got {:?}", other),
    }
    assert_eq!(sim.borrow().opcodes(), vec![0x24]);
}

/// A clock the test moves by hand.
struct HandClock(Rc<Cell<u64>>);

impl Clock for HandClock {
    fn now_ms(&self) -> u64 {
        self.0.get()
    }
}

#[test]
fn verify_pin_opens_the_session_at_the_clock_reading() {
    let sim = chip(2, 0);
    let time = Rc::new(Cell::new(50_000u64));
    let mut svc = CryptoService::new(Atecc::new(SimChip(Rc::clone(&sim))), HandClock(Rc::clone(&time)));
    svc.verify_pin(b"0000").expect("verify_pin");
    time.set(79_999);
    assert!(svc.is_session_active());
    time.set(80_000);
    assert!(!svc.is_session_active());
}
