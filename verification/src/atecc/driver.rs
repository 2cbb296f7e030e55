//! The driver handle ([`Atecc`], chip asleep) and the channel handle
//! ([`AteccChannel`], chip awake) that together model the chip's wake and
//! idle lifecycle, plus the command round trip shared by every command.
use vstd::prelude::*;
use crate::atecc::error::{AteccError, AteccErrorKind, ChipError, spec_error_kind, spec_chip_error_from_byte};
use crate::atecc::hal::{AteccHal, HalOp};
use crate::atecc::opcodes::{
    I2C_ADDRESS, MAX_COMMAND_DATA_LEN, MAX_PACKET_SIZE, MAX_RESPONSE_SIZE, POLLING_MAX_MS,
    POLLING_PERIOD_MS, WORD_ADDRESS_COMMAND,
};
use crate::atecc::packet::{
    build_command_frame, parse_response_frame, PacketBuildError, PacketParseError, ResponseFrame,
    SpecResponse, spec_command_frame, spec_parse_response,
};
use crate::atecc::wake::{idle, sleep, wake, spec_wake_outcome, spec_token_outcome};
use crate::atecc::opcodes::{WORD_ADDRESS_IDLE, WORD_ADDRESS_SLEEP};

verus! {

/// Length of a status-only response frame.
pub const STATUS_RESPONSE_LEN: usize = 4;

/// The driver: a HAL, the chip's I2C address, and the record of every HAL
/// call made so far.
pub struct Atecc<H: AteccHal> {
    hal: H,
    device_addr: u8,
    log: Ghost<Seq<HalOp>>,
}

/// An open channel to an awake chip. It borrows the driver for as long as
/// it lives, so two channels cannot be open at once.
pub struct AteccChannel<'a, H: AteccHal> {
    /// The driver the channel talks through.
    pub driver: &'a mut Atecc<H>,
    /// Proof that the channel was opened by a successful wake: only
    /// [`Atecc::open_channel`] can make one.
    pub woken: Woken,
}

/// Marks a channel opened by a successful wake. It has no public
/// constructor.
pub struct Woken(());

/// Outcome of an operation returning bytes, with the HAL payload dropped.
pub open spec fn spec_bytes_outcome<T: View<V = Seq<u8>>, E>(r: Result<T, AteccError<E>>) -> Result<Seq<u8>, AteccErrorKind> {
    match r {
        Ok(v) => Ok(v@),
        Err(e) => Err(spec_error_kind(e)),
    }
}

/// Outcome of an operation returning nothing, with the HAL payload dropped.
pub open spec fn spec_unit_outcome<E>(r: Result<(), AteccError<E>>) -> Result<(), AteccErrorKind> {
    match r {
        Ok(_) => Ok(()),
        Err(e) => Err(spec_error_kind(e)),
    }
}

/// The HAL calls of a poll loop that saw only busy reads so far: pairs of a
/// refused one-byte read and a [`POLLING_PERIOD_MS`] delay.
pub open spec fn spec_busy_polls(addr: u8, d: Seq<HalOp>) -> bool {
    &&& d.len() % 2 == 0
    &&& forall|i: int| 0 <= i < d.len() / 2 ==> {
        &&& #[trigger] d[2 * i] matches HalOp::I2cRead { addr: a, data, ok }
        &&& a == addr && data.len() == 1 && !ok
        &&& d[2 * i + 1] == HalOp::DelayMs { duration_ms: POLLING_PERIOD_MS }
    }
}

/// What the poll loop returns, given the HAL calls it made after `elapsed`
/// milliseconds of polling; `None` when `d` is not a trace the loop can
/// produce. Responses longer than `max_len` or shorter than four bytes are
/// malformed.
pub open spec fn spec_poll(addr: u8, max_len: nat, elapsed: nat, d: Seq<HalOp>) -> Option<Result<Seq<u8>, AteccErrorKind>>
    decreases d.len(),
{
    if d.len() == 0 {
        None
    } else {
        match d[0] {
            HalOp::I2cRead { addr: a, data, ok } => {
                if a != addr || data.len() != 1 {
                    None
                } else if ok {
                    let total = data[0] as nat;
                    if total < 4 || total > max_len {
                        if d.len() == 1 { Some(Err(AteccErrorKind::MalformedResponse)) } else { None }
                    } else if d.len() == 2 {
                        match d[1] {
                            HalOp::I2cRead { addr: a2, data: rest, ok: ok2 } => {
                                if a2 != addr || rest.len() + 1 != total {
                                    None
                                } else if ok2 {
                                    Some(Ok(seq![data[0]] + rest))
                                } else {
                                    Some(Err(AteccErrorKind::Hal))
                                }
                            },
                            _ => None,
                        }
                    } else {
                        None
                    }
                } else if elapsed >= POLLING_MAX_MS {
                    if d.len() == 1 { Some(Err(AteccErrorKind::Timeout)) } else { None }
                } else if d.len() >= 2 && d[1] == (HalOp::DelayMs { duration_ms: POLLING_PERIOD_MS }) {
                    spec_poll(addr, max_len, elapsed + 2, d.skip(2))
                } else {
                    None
                }
            },
            _ => None,
        }
    }
}

/// The bytes written on the bus for a command: the command word address,
/// then the frame.
pub open spec fn spec_command_wire(opcode: u8, param1: u8, param2: u16, data: Seq<u8>) -> Seq<u8> {
    seq![WORD_ADDRESS_COMMAND] + spec_command_frame(opcode, param1, param2, data)
}

/// What a command round trip (send, wait `exec_ms`, poll) returns, given the
/// HAL calls it made: the raw response frame, or an error.
pub open spec fn spec_exchange(
    addr: u8,
    opcode: u8,
    param1: u8,
    param2: u16,
    data: Seq<u8>,
    exec_ms: u32,
    max_len: nat,
    d: Seq<HalOp>,
) -> Option<Result<Seq<u8>, AteccErrorKind>> {
    if data.len() > MAX_COMMAND_DATA_LEN {
        if d.len() == 0 { Some(Err(AteccErrorKind::BufferTooSmall)) } else { None }
    } else if d.len() == 0 {
        None
    } else {
        match d[0] {
            HalOp::I2cWrite { addr: a, data: w, ok } => {
                if a != addr || w != spec_command_wire(opcode, param1, param2, data) {
                    None
                } else if !ok {
                    if d.len() == 1 { Some(Err(AteccErrorKind::Hal)) } else { None }
                } else if d.len() >= 2 && d[1] == (HalOp::DelayMs { duration_ms: exec_ms }) {
                    spec_poll(addr, max_len, 0, d.skip(2))
                } else {
                    None
                }
            },
            _ => None,
        }
    }
}

/// How a data-returning command interprets its response frame.
pub open spec fn spec_data_response(resp: Seq<u8>) -> Result<Seq<u8>, AteccErrorKind> {
    match spec_parse_response(resp) {
        Ok(SpecResponse::Payload(p)) => Ok(p),
        Ok(SpecResponse::Status(b)) => match spec_chip_error_from_byte(b) {
            Some(c) => Err(AteccErrorKind::Chip(c)),
            None => Err(AteccErrorKind::MalformedResponse),
        },
        Err(PacketParseError::BadCrc) => Err(AteccErrorKind::BadCrc),
        Err(_) => Err(AteccErrorKind::MalformedResponse),
    }
}

/// How a status-only command interprets its response frame.
pub open spec fn spec_status_response(resp: Seq<u8>) -> Result<(), AteccErrorKind> {
    if resp.len() != STATUS_RESPONSE_LEN {
        Err(AteccErrorKind::MalformedResponse)
    } else {
        match spec_parse_response(resp) {
            Ok(SpecResponse::Status(b)) => if b == 0 {
                Ok(())
            } else {
                Err(AteccErrorKind::Chip(spec_chip_error_from_byte(b).unwrap()))
            },
            Ok(SpecResponse::Payload(_)) => Err(AteccErrorKind::MalformedResponse),
            Err(PacketParseError::BadCrc) => Err(AteccErrorKind::BadCrc),
            Err(_) => Err(AteccErrorKind::MalformedResponse),
        }
    }
}

/// Outcome of a data-returning command given its HAL calls: the payload.
pub open spec fn spec_data_command(
    addr: u8,
    opcode: u8,
    param1: u8,
    param2: u16,
    data: Seq<u8>,
    exec_ms: u32,
    max_len: nat,
    d: Seq<HalOp>,
) -> Option<Result<Seq<u8>, AteccErrorKind>> {
    match spec_exchange(addr, opcode, param1, param2, data, exec_ms, max_len, d) {
        Some(Ok(resp)) => Some(spec_data_response(resp)),
        Some(Err(e)) => Some(Err(e)),
        None => None,
    }
}

/// Outcome of a status-only command given its HAL calls.
pub open spec fn spec_status_command(
    addr: u8,
    opcode: u8,
    param1: u8,
    param2: u16,
    data: Seq<u8>,
    exec_ms: u32,
    d: Seq<HalOp>,
) -> Option<Result<(), AteccErrorKind>> {
    match spec_exchange(addr, opcode, param1, param2, data, exec_ms, STATUS_RESPONSE_LEN as nat, d) {
        Some(Ok(resp)) => Some(spec_status_response(resp)),
        Some(Err(e)) => Some(Err(e)),
        None => None,
    }
}

/// A payload of exactly `n` bytes, or a malformed-response error.
pub open spec fn spec_fixed_len(o: Result<Seq<u8>, AteccErrorKind>, n: nat) -> Result<Seq<u8>, AteccErrorKind> {
    match o {
        Ok(p) => if p.len() == n { Ok(p) } else { Err(AteccErrorKind::MalformedResponse) },
        Err(e) => Err(e),
    }
}

/// `log` extends `before`; `delta` is what was appended.
pub open spec fn spec_extends(before: Seq<HalOp>, after: Seq<HalOp>) -> bool {
    after.len() >= before.len() && after.take(before.len() as int) == before
}

/// The calls appended to `before` to get `after`.
pub open spec fn spec_delta(before: Seq<HalOp>, after: Seq<HalOp>) -> Seq<HalOp> {
    after.skip(before.len() as int)
}

/// Busy polls at the head of a poll trace only advance the elapsed time.
pub proof fn lemma_poll_after_busy(addr: u8, max_len: nat, elapsed: nat, busy: Seq<HalOp>, rest: Seq<HalOp>)
    requires
        spec_busy_polls(addr, busy),
        elapsed + busy.len() <= POLLING_MAX_MS,
    ensures
        spec_poll(addr, max_len, elapsed, busy + rest) == spec_poll(addr, max_len, elapsed + busy.len(), rest),
    decreases busy.len(),
{
    if busy.len() == 0 {
        assert(busy + rest =~= rest);
    } else {
        let d = busy + rest;
        assert(d[0] == busy[2 * 0int]);
        assert(d[1] == busy[2 * 0int + 1]);
        let tail = busy.skip(2);
        assert forall|i: int| 0 <= i < tail.len() / 2 implies {
            &&& #[trigger] tail[2 * i] matches HalOp::I2cRead { addr: a, data, ok }
            &&& a == addr && data.len() == 1 && !ok
            &&& tail[2 * i + 1] == HalOp::DelayMs { duration_ms: POLLING_PERIOD_MS }
        } by {
            assert(tail[2 * i] == busy[2 * (i + 1)]);
            assert(tail[2 * i + 1] == busy[2 * (i + 1) + 1]);
        }
        assert(d.skip(2) =~= tail + rest);
        lemma_poll_after_busy(addr, max_len, elapsed + 2, tail, rest);
    }
}

/// Appending one busy poll keeps a trace of busy polls.
proof fn lemma_busy_polls_push(addr: u8, busy: Seq<HalOp>, read: HalOp)
    requires
        spec_busy_polls(addr, busy),
        read matches HalOp::I2cRead { addr: a, data, ok } && a == addr && data.len() == 1 && !ok,
    ensures
        spec_busy_polls(addr, busy.push(read).push(HalOp::DelayMs { duration_ms: POLLING_PERIOD_MS })),
{
    let nb = busy.push(read).push(HalOp::DelayMs { duration_ms: POLLING_PERIOD_MS });
    assert forall|i: int| 0 <= i < nb.len() / 2 implies {
        &&& #[trigger] nb[2 * i] matches HalOp::I2cRead { addr: a, data, ok }
        &&& a == addr && data.len() == 1 && !ok
        &&& nb[2 * i + 1] == HalOp::DelayMs { duration_ms: POLLING_PERIOD_MS }
    } by {
        if i < busy.len() / 2 {
            assert(nb[2 * i] == busy[2 * i]);
            assert(nb[2 * i + 1] == busy[2 * i + 1]);
        }
    }
}

/// Pushing onto an extension of `a` keeps it an extension of `a`, with the
/// pushed call at the end of the appended part.
pub proof fn lemma_extends_push(a: Seq<HalOp>, b: Seq<HalOp>, x: HalOp)
    requires
        spec_extends(a, b),
    ensures
        spec_extends(a, b.push(x)),
        spec_delta(a, b.push(x)) == spec_delta(a, b).push(x),
{
    assert(b.push(x).take(a.len() as int) =~= b.take(a.len() as int));
    assert(spec_delta(a, b.push(x)) =~= spec_delta(a, b).push(x));
}

/// Extension is reflexive, with nothing appended.
pub proof fn lemma_extends_refl(a: Seq<HalOp>)
    ensures
        spec_extends(a, a),
        spec_delta(a, a) == Seq::<HalOp>::empty(),
{
    assert(a.take(a.len() as int) =~= a);
    assert(spec_delta(a, a) =~= Seq::<HalOp>::empty());
}

/// Extension is transitive, and the appended parts concatenate.
pub proof fn lemma_extends_trans(a: Seq<HalOp>, b: Seq<HalOp>, c: Seq<HalOp>)
    requires
        spec_extends(a, b),
        spec_extends(b, c),
    ensures
        spec_extends(a, c),
        spec_delta(a, c) == spec_delta(a, b) + spec_delta(b, c),
{
    assert(c.take(a.len() as int) =~= b.take(a.len() as int));
    assert(spec_delta(a, c) =~= spec_delta(a, b) + spec_delta(b, c));
}

impl<H: AteccHal> Atecc<H> {
    /// The chip's I2C address.
    pub closed spec fn address(&self) -> u8 {
        self.device_addr
    }

    /// Every HAL call made through this driver, oldest first.
    pub closed spec fn bus_log(&self) -> Seq<HalOp> {
        self.log@
    }

    /// The HAL the driver owns.
    pub closed spec fn hal(&self) -> H {
        self.hal
    }

    /// A driver for a chip at the default I2C address.
    pub fn new(hal: H) -> (r: Self)
        ensures
            r.address() == I2C_ADDRESS,
            r.bus_log() == Seq::<HalOp>::empty(),
            r.hal() == hal,
    {
        Self::with_address(hal, I2C_ADDRESS)
    }

    /// A driver for a chip at a non-default I2C address.
    pub fn with_address(hal: H, addr: u8) -> (r: Self)
        ensures
            r.address() == addr,
            r.bus_log() == Seq::<HalOp>::empty(),
            r.hal() == hal,
    {
        Atecc { hal, device_addr: addr, log: Ghost(Seq::empty()) }
    }

    /// Give the HAL back.
    pub fn into_hal(self) -> (h: H)
        ensures
            h == self.hal(),
    {
        self.hal
    }

    /// Write `data` to the chip and record the call.
    pub(crate) fn bus_write(&mut self, data: &[u8]) -> (r: Result<(), H::Error>)
        ensures
            final(self).address() == old(self).address(),
            final(self).bus_log() == old(self).bus_log().push(
                HalOp::I2cWrite { addr: old(self).address(), data: data@, ok: r is Ok },
            ),
    {
        let r = self.hal.i2c_write(self.device_addr, data);
        proof {
            self.log@ = self.log@.push(HalOp::I2cWrite { addr: self.device_addr, data: data@, ok: r is Ok });
        }
        r
    }

    /// Read `buf.len()` bytes from the chip and record the call.
    pub(crate) fn bus_read(&mut self, buf: &mut [u8]) -> (r: Result<(), H::Error>)
        ensures
            final(self).address() == old(self).address(),
            final(buf)@.len() == old(buf)@.len(),
            final(self).bus_log() == old(self).bus_log().push(
                HalOp::I2cRead { addr: old(self).address(), data: final(buf)@, ok: r is Ok },
            ),
    {
        let r = self.hal.i2c_read(self.device_addr, buf);
        proof {
            self.log@ = self.log@.push(HalOp::I2cRead { addr: self.device_addr, data: buf@, ok: r is Ok });
        }
        r
    }

    /// Send the wake pulse and record the call.
    pub(crate) fn bus_pulse(&mut self, duration_us: u32) -> (r: Result<(), H::Error>)
        ensures
            final(self).address() == old(self).address(),
            final(self).bus_log() == old(self).bus_log().push(
                HalOp::PulseSdaLow { duration_us, ok: r is Ok },
            ),
    {
        let r = self.hal.pulse_sda_low(duration_us);
        proof {
            self.log@ = self.log@.push(HalOp::PulseSdaLow { duration_us, ok: r is Ok });
        }
        r
    }

    /// Sleep for microseconds and record the call.
    pub(crate) fn bus_delay_us(&mut self, duration_us: u32)
        ensures
            final(self).address() == old(self).address(),
            final(self).bus_log() == old(self).bus_log().push(HalOp::DelayUs { duration_us }),
    {
        self.hal.delay_us(duration_us);
        proof {
            self.log@ = self.log@.push(HalOp::DelayUs { duration_us });
        }
    }

    /// Sleep for milliseconds and record the call.
    pub(crate) fn bus_delay_ms(&mut self, duration_ms: u32)
        ensures
            final(self).address() == old(self).address(),
            final(self).bus_log() == old(self).bus_log().push(HalOp::DelayMs { duration_ms }),
    {
        self.hal.delay_ms(duration_ms);
        proof {
            self.log@ = self.log@.push(HalOp::DelayMs { duration_ms });
        }
    }

    /// Wake the chip and open a channel to it.
    pub fn open_channel(&mut self) -> (r: Result<AteccChannel<'_, H>, AteccError<H::Error>>)
        ensures
            r matches Ok(ch) ==> {
                &&& ch.address() == old(self).address()
                &&& spec_extends(old(self).bus_log(), ch.bus_log())
                &&& spec_wake_outcome(old(self).address(), spec_delta(old(self).bus_log(), ch.bus_log()))
                    == Some(Ok::<(), AteccErrorKind>(()))
            },
            r matches Err(e) ==> {
                &&& final(self).address() == old(self).address()
                &&& spec_extends(old(self).bus_log(), final(self).bus_log())
                &&& spec_wake_outcome(old(self).address(), spec_delta(old(self).bus_log(), final(self).bus_log()))
                    == Some(Err::<(), AteccErrorKind>(spec_error_kind(e)))
            },
    {
        match wake(self) {
            Ok(()) => Ok(AteccChannel { driver: self, woken: Woken(()) }),
            Err(e) => Err(e),
        }
    }
}

impl<'a, H: AteccHal> AteccChannel<'a, H> {
    /// The chip's I2C address.
    pub closed spec fn address(&self) -> u8 {
        self.driver.address()
    }

    /// Every HAL call made through the underlying driver, oldest first.
    pub closed spec fn bus_log(&self) -> Seq<HalOp> {
        self.driver.bus_log()
    }

    /// The channel's view of the chip is the underlying driver's.
    pub(crate) proof fn lemma_view(&self)
        ensures
            self.address() == old(self.driver).address(),
            self.bus_log() == old(self.driver).bus_log(),
    {
    }

    /// Close the channel with the idle token, which keeps the chip's
    /// volatile state.
    pub fn close(self) -> (r: Result<(), AteccError<H::Error>>)
        ensures
            r is Err ==> spec_unit_outcome(r) == Err::<(), AteccErrorKind>(AteccErrorKind::Hal),
            final(self.driver).address() == self.address(),
            spec_extends(self.bus_log(), final(self.driver).bus_log()),
            spec_token_outcome(self.address(), WORD_ADDRESS_IDLE, spec_delta(self.bus_log(), final(self.driver).bus_log()))
                == Some(spec_unit_outcome(r)),
    {
        let driver = self.driver;
        idle(driver)
    }

    /// Close the channel with the sleep token, which clears the chip's
    /// volatile state and brings it to its lowest power level.
    pub fn close_to_sleep(self) -> (r: Result<(), AteccError<H::Error>>)
        ensures
            r is Err ==> spec_unit_outcome(r) == Err::<(), AteccErrorKind>(AteccErrorKind::Hal),
            final(self.driver).address() == self.address(),
            spec_extends(self.bus_log(), final(self.driver).bus_log()),
            spec_token_outcome(self.address(), WORD_ADDRESS_SLEEP, spec_delta(self.bus_log(), final(self.driver).bus_log()))
                == Some(spec_unit_outcome(r)),
    {
        let driver = self.driver;
        sleep(driver)
    }

    /// Wake the chip again without closing the channel.
    pub fn refresh(&mut self) -> (r: Result<(), AteccError<H::Error>>)
        ensures
            final(self).address() == old(self).address(),
            spec_extends(old(self).bus_log(), final(self).bus_log()),
            spec_wake_outcome(old(self).address(), spec_delta(old(self).bus_log(), final(self).bus_log()))
                == Some(spec_unit_outcome(r)),
    {
        wake(self.driver)
    }
}

impl<H: AteccHal> Atecc<H> {
    /// Poll the chip until it returns a frame or the polling budget is
    /// spent. A refused read means the chip is still busy. Returns the raw
    /// frame, count byte and CRC included; frames longer than `capacity`
    /// (or than the protocol maximum) are malformed.
    pub(crate) fn poll_for_response(&mut self, capacity: usize) -> (r: Result<Vec<u8>, AteccError<H::Error>>)
        ensures
            final(self).address() == old(self).address(),
            spec_extends(old(self).bus_log(), final(self).bus_log()),
            spec_poll(
                old(self).address(),
                (if capacity < MAX_RESPONSE_SIZE { capacity } else { MAX_RESPONSE_SIZE }) as nat,
                0,
                spec_delta(old(self).bus_log(), final(self).bus_log()),
            ) == Some(spec_bytes_outcome(r)),
    {
        let max_buf_len: usize = if capacity < MAX_RESPONSE_SIZE { capacity } else { MAX_RESPONSE_SIZE };
        let ghost start = self.bus_log();
        let ghost addr = self.address();
        let mut elapsed: u32 = 0;
        proof {
            lemma_extends_refl(start);
        }
        loop
            invariant
                self.address() == addr,
                addr == old(self).address(),
                start == old(self).bus_log(),
                spec_extends(start, self.bus_log()),
                spec_delta(start, self.bus_log()).len() == elapsed,
                spec_busy_polls(addr, spec_delta(start, self.bus_log())),
                elapsed <= POLLING_MAX_MS,
                max_buf_len == (if capacity < MAX_RESPONSE_SIZE { capacity } else { MAX_RESPONSE_SIZE }),
            decreases POLLING_MAX_MS - elapsed,
        {
            let ghost busy = spec_delta(start, self.bus_log());
            let ghost before = self.bus_log();
            let mut count = [0u8; 1];
            let rr = self.bus_read(&mut count);
            let ghost read_op = HalOp::I2cRead { addr, data: count@, ok: rr is Ok };
            proof {
                lemma_extends_push(start, before, read_op);
            }
            if rr.is_ok() {
                let total: usize = count[0] as usize;
                if total < 4 || total > max_buf_len {
                    proof {
                        assert(spec_delta(start, self.bus_log()) == busy + seq![read_op]);
                        lemma_poll_after_busy(addr, max_buf_len as nat, 0, busy, seq![read_op]);
                    }
                    return Err(AteccError::MalformedResponse);
                }
                let ghost mid = self.bus_log();
                let mut rest: Vec<u8> = vec![0u8; total - 1];
                let r2 = self.bus_read(rest.as_mut_slice());
                let ghost rest_op = HalOp::I2cRead { addr, data: rest@, ok: r2 is Ok };
                proof {
                    lemma_extends_push(start, mid, rest_op);
                    assert(spec_delta(start, self.bus_log()) =~= busy + seq![read_op, rest_op]);
                    lemma_poll_after_busy(addr, max_buf_len as nat, 0, busy, seq![read_op, rest_op]);
                }
                match r2 {
                    Ok(()) => {},
                    Err(e) => return Err(AteccError::Hal(e)),
                }
                let mut response: Vec<u8> = Vec::new();
                response.push(count[0]);
                let mut i: usize = 0;
                while i < rest.len()
                    invariant
                        i <= rest@.len(),
                        response@ == seq![count@[0]] + rest@.take(i as int),
                    decreases rest@.len() - i,
                {
                    response.push(rest[i]);
                    proof {
                        assert(rest@.take(i as int + 1) =~= rest@.take(i as int).push(rest@[i as int]));
                        assert(seq![count@[0]] + rest@.take(i as int + 1) =~= (seq![count@[0]] + rest@.take(i as int)).push(rest@[i as int]));
                    }
                    i = i + 1;
                }
                proof {
                    assert(rest@.take(rest@.len() as int) =~= rest@);
                }
                return Ok(response);
            }
            if elapsed >= POLLING_MAX_MS {
                proof {
                    assert(spec_delta(start, self.bus_log()) == busy + seq![read_op]);
                    lemma_poll_after_busy(addr, max_buf_len as nat, 0, busy, seq![read_op]);
                }
                return Err(AteccError::Timeout);
            }
            let ghost mid2 = self.bus_log();
            self.bus_delay_ms(POLLING_PERIOD_MS);
            proof {
                lemma_extends_push(start, mid2, HalOp::DelayMs { duration_ms: POLLING_PERIOD_MS });
                lemma_busy_polls_push(addr, busy, read_op);
            }
            elapsed = elapsed + POLLING_PERIOD_MS;
        }
    }

    /// Send a command frame, wait its nominal execution time, then poll for
    /// the raw response frame.
    pub(crate) fn run_command(
        &mut self,
        opcode: u8,
        param1: u8,
        param2: u16,
        data: &[u8],
        expected_exec_ms: u32,
        capacity: usize,
    ) -> (r: Result<Vec<u8>, AteccError<H::Error>>)
        ensures
            final(self).address() == old(self).address(),
            spec_extends(old(self).bus_log(), final(self).bus_log()),
            spec_exchange(
                old(self).address(), opcode, param1, param2, data@, expected_exec_ms,
                (if capacity < MAX_RESPONSE_SIZE { capacity } else { MAX_RESPONSE_SIZE }) as nat,
                spec_delta(old(self).bus_log(), final(self).bus_log()),
            ) == Some(spec_bytes_outcome(r)),
    {
        let ghost start = self.bus_log();
        let ghost addr = self.address();
        proof {
            lemma_extends_refl(start);
        }
        let mut tx = [0u8; MAX_PACKET_SIZE];
        tx[0] = WORD_ADDRESS_COMMAND;
        let built = build_command_frame_at_one(opcode, param1, param2, data, &mut tx);
        let frame_len: usize = match built {
            Ok(n) => n,
            Err(e) => return Err(map_build_error(e)),
        };
        let total_tx: usize = 1 + frame_len;
        proof {
            assert(tx@.take(total_tx as int) =~= spec_command_wire(opcode, param1, param2, data@));
        }
        let wr = self.bus_write(&tx[0..total_tx]);
        let ghost wop = HalOp::I2cWrite { addr, data: tx@.subrange(0, total_tx as int), ok: wr is Ok };
        proof {
            assert(tx@.subrange(0, total_tx as int) =~= tx@.take(total_tx as int));
            lemma_extends_push(start, start, wop);
        }
        match wr {
            Ok(()) => {},
            Err(e) => {
                assert(spec_delta(start, self.bus_log()) =~= seq![wop]);
                return Err(AteccError::Hal(e));
            },
        }
        let ghost mid = self.bus_log();
        self.bus_delay_ms(expected_exec_ms);
        let ghost mid2 = self.bus_log();
        proof {
            lemma_extends_push(start, mid, HalOp::DelayMs { duration_ms: expected_exec_ms });
        }
        let r = self.poll_for_response(capacity);
        proof {
            lemma_extends_trans(start, mid2, self.bus_log());
            let d = spec_delta(start, self.bus_log());
            assert(spec_delta(start, mid2) =~= seq![wop, HalOp::DelayMs { duration_ms: expected_exec_ms }]);
            assert(d.skip(2) =~= spec_delta(mid2, self.bus_log()));
        }
        r
    }

    /// One command round trip for a command that returns data: the payload
    /// between the count byte and the CRC.
    pub(crate) fn execute_command(
        &mut self,
        opcode: u8,
        param1: u8,
        param2: u16,
        data: &[u8],
        expected_exec_ms: u32,
        capacity: usize,
    ) -> (r: Result<Vec<u8>, AteccError<H::Error>>)
        ensures
            final(self).address() == old(self).address(),
            spec_extends(old(self).bus_log(), final(self).bus_log()),
            spec_data_command(
                old(self).address(), opcode, param1, param2, data@, expected_exec_ms,
                (if capacity < MAX_RESPONSE_SIZE { capacity } else { MAX_RESPONSE_SIZE }) as nat,
                spec_delta(old(self).bus_log(), final(self).bus_log()),
            ) == Some(spec_bytes_outcome(r)),
    {
        let response = self.run_command(opcode, param1, param2, data, expected_exec_ms, capacity)?;
        match parse_response_frame(response.as_slice()) {
            Ok(ResponseFrame::Payload(p)) => {
                let mut out: Vec<u8> = Vec::new();
                let mut i: usize = 0;
                while i < p.len()
                    invariant
                        i <= p@.len(),
                        out@ == p@.take(i as int),
                    decreases p@.len() - i,
                {
                    out.push(p[i]);
                    proof {
                        assert(p@.take(i as int + 1) =~= p@.take(i as int).push(p@[i as int]));
                    }
                    i = i + 1;
                }
                proof {
                    assert(p@.take(p@.len() as int) =~= p@);
                }
                Ok(out)
            },
            Ok(ResponseFrame::Status(status_byte)) => match ChipError::from_status_byte(status_byte) {
                Some(err) => Err(AteccError::Chip(err)),
                None => Err(AteccError::MalformedResponse),
            },
            Err(e) => Err(map_parse_error(e)),
        }
    }

    /// One command round trip for a command that answers with a status
    /// frame only; status `0x00` is success.
    pub(crate) fn execute_command_status(
        &mut self,
        opcode: u8,
        param1: u8,
        param2: u16,
        data: &[u8],
        expected_exec_ms: u32,
    ) -> (r: Result<(), AteccError<H::Error>>)
        ensures
            final(self).address() == old(self).address(),
            spec_extends(old(self).bus_log(), final(self).bus_log()),
            spec_status_command(
                old(self).address(), opcode, param1, param2, data@, expected_exec_ms,
                spec_delta(old(self).bus_log(), final(self).bus_log()),
            ) == Some(spec_unit_outcome(r)),
    {
        let response = self.run_command(opcode, param1, param2, data, expected_exec_ms, STATUS_RESPONSE_LEN)?;
        if response.len() != STATUS_RESPONSE_LEN {
            return Err(AteccError::MalformedResponse);
        }
        match parse_response_frame(response.as_slice()) {
            Ok(ResponseFrame::Status(status_byte)) => {
                if status_byte == 0x00 {
                    Ok(())
                } else {
                    match ChipError::from_status_byte(status_byte) {
                        Some(err) => Err(AteccError::Chip(err)),
                        None => Err(AteccError::Chip(ChipError::Unknown(status_byte))),
                    }
                }
            },
            Ok(ResponseFrame::Payload(_)) => Err(AteccError::MalformedResponse),
            Err(e) => Err(map_parse_error(e)),
        }
    }
}

/// Build a command frame after the command word address already stored at
/// `tx[0]`.
fn build_command_frame_at_one(
    opcode: u8,
    param1: u8,
    param2: u16,
    data: &[u8],
    tx: &mut [u8; MAX_PACKET_SIZE],
) -> (r: Result<usize, PacketBuildError>)
    requires
        old(tx)@[0] == WORD_ADDRESS_COMMAND,
    ensures
        data@.len() > MAX_COMMAND_DATA_LEN <==> r is Err,
        r matches Ok(n) ==> {
            &&& n == 7 + data@.len()
            &&& final(tx)@.take(1 + n) == seq![WORD_ADDRESS_COMMAND] + spec_command_frame(opcode, param1, param2, data@)
        },
{
    let mut frame = [0u8; 162];
    let built = build_command_frame(opcode, param1, param2, data, &mut frame);
    match built {
        Ok(n) => {
            let mut i: usize = 0;
            while i < n
                invariant
                    n == 7 + data@.len(),
                    n <= 162,
                    i <= n,
                    frame@.take(n as int) == spec_command_frame(opcode, param1, param2, data@),
                    tx@[0] == WORD_ADDRESS_COMMAND,
                    forall|k: int| 0 <= k < i ==> tx@[1 + k] == frame@[k],
                decreases n - i,
            {
                tx[1 + i] = frame[i];
                i = i + 1;
            }
            proof {
                let want = seq![WORD_ADDRESS_COMMAND] + spec_command_frame(opcode, param1, param2, data@);
                assert forall|k: int| 0 <= k < 1 + n implies #[trigger] tx@.take(1 + n)[k] == want[k] by {
                    if k > 0 {
                        assert(frame@.take(n as int)[k - 1] == frame@[k - 1]);
                    }
                }
                assert(tx@.take(1 + n) =~= want);
            }
            Ok(n)
        },
        Err(e) => Err(e),
    }
}

/// Packet-level parse failures, as driver errors.
fn map_parse_error<E>(err: PacketParseError) -> (r: AteccError<E>)
    ensures
        spec_error_kind(r) == (match err {
            PacketParseError::BadCrc => AteccErrorKind::BadCrc,
            _ => AteccErrorKind::MalformedResponse,
        }),
{
    match err {
        PacketParseError::TooShort => AteccError::MalformedResponse,
        PacketParseError::LengthMismatch { .. } => AteccError::MalformedResponse,
        PacketParseError::BadCrc => AteccError::BadCrc,
    }
}

/// Frame build failures, as driver errors.
fn map_build_error<E>(err: PacketBuildError) -> (r: AteccError<E>)
    ensures
        spec_error_kind(r) == AteccErrorKind::BufferTooSmall,
{
    match err {
        PacketBuildError::DataTooLong { .. } => AteccError::BufferTooSmall,
        PacketBuildError::OutputBufferTooSmall { .. } => AteccError::BufferTooSmall,
    }
}

} // verus!
