//! `Read` and `Write` commands on the config, OTP and data zones, in 4-byte
//! and 32-byte transfers, and the address and `param1` encodings they use.
//!
//! Config and OTP addresses put the block in bits 3..=4 and the word offset
//! in bits 0..=2; data addresses put the block in bits 8..=15, the slot in
//! bits 3..=7 and the word offset in bits 0..=2. `param1` carries the zone
//! in bits 0..=1, the encryption flag in bit 6 and the 32-byte flag in
//! bit 7.
use vstd::prelude::*;
use crate::atecc::command::{copy_bytes, spec_fixed_command};
use crate::atecc::driver::{
    Atecc, AteccChannel, spec_bytes_outcome, spec_delta, spec_extends, spec_status_command, spec_unit_outcome,
    lemma_extends_refl, lemma_extends_trans,
};
use crate::atecc::error::{AteccError, AteccErrorKind, spec_error_kind};
use crate::atecc::hal::{AteccHal, HalOp};
use crate::atecc::opcodes::{EXEC_TIME_READ_MS, EXEC_TIME_WRITE_MS, OP_READ, OP_WRITE};
use crate::atecc::slot::Slot;

verus! {

/// One of the three addressable zones of the chip.
#[derive(Debug, Clone, Copy, PartialEq, Eq, Structural)]
pub enum Zone {
    /// The 128-byte configuration zone.
    Config,
    /// The 64-byte one-time-programmable zone.
    Otp,
    /// The sixteen data slots.
    Data,
}

impl Zone {
    /// The zone's code in the low bits of `param1`.
    pub open spec fn spec_bits(self) -> u8 {
        match self {
            Zone::Config => 0x00,
            Zone::Otp => 0x01,
            Zone::Data => 0x02,
        }
    }

    /// The zone's code in the low bits of `param1`.
    pub fn as_param1_bits(self) -> (r: u8)
        ensures
            r == self.spec_bits(),
    {
        match self {
            Zone::Config => 0x00,
            Zone::Otp => 0x01,
            Zone::Data => 0x02,
        }
    }
}

/// Number of 32-byte blocks in the config zone.
pub const CONFIG_ZONE_BLOCK_COUNT: u8 = 4;

/// Size of the config zone in bytes.
pub const CONFIG_ZONE_SIZE: usize = 128;

/// Size of one 32-byte transfer.
pub const BLOCK_SIZE: usize = 32;

/// Size of one 4-byte transfer.
pub const WORD_SIZE: usize = 4;

/// Size of the MAC that follows the ciphertext of an encrypted write.
pub const ENCRYPTED_WRITE_MAC_SIZE: usize = 32;

/// Data field of an encrypted 32-byte write: ciphertext then MAC.
pub const ENCRYPTED_WRITE_DATA_SIZE: usize = 64;

/// `param1` flag of a 32-byte transfer.
pub const PARAM1_FLAG_32_BYTES: u8 = 0x80;

/// `param1` flag of an encrypted write.
pub const PARAM1_FLAG_ENCRYPTED: u8 = 0x40;

/// Config or OTP address of word `offset_words` of block `block`; the
/// block is taken modulo 4 and the offset modulo 8.
pub open spec fn spec_config_or_otp_address(block: u8, offset_words: u8) -> u16 {
    ((block % 4) * 8 + offset_words % 8) as u16
}

/// Data-zone address of word `offset_words` of block `block` of slot
/// `slot`; the offset is taken modulo 8.
pub open spec fn spec_data_address(slot: u8, block: u8, offset_words: u8) -> u16 {
    (block * 256 + (slot % 32) * 8 + offset_words % 8) as u16
}

/// `param1` of a Read.
pub open spec fn spec_read_param1(zone: Zone, is_32_bytes: bool) -> u8 {
    (zone.spec_bits() + if is_32_bytes { 0x80u8 } else { 0u8 }) as u8
}

/// `param1` of a Write.
pub open spec fn spec_write_param1(zone: Zone, is_32_bytes: bool, encrypted: bool) -> u8 {
    (zone.spec_bits() + (if is_32_bytes { 0x80u8 } else { 0u8 }) + (if encrypted { 0x40u8 } else { 0u8 })) as u8
}

/// Build the address of a config or OTP zone access.
pub fn config_or_otp_address(block: u8, offset_words: u8) -> (r: u16)
    ensures
        r == spec_config_or_otp_address(block, offset_words),
{
    let block_bits: u16 = ((block & 0x03) as u16) << 3;
    let offset_bits: u16 = (offset_words & 0x07) as u16;
    assert(((((block & 0x03) as u16) << 3) | ((offset_words & 0x07) as u16))
        == ((block % 4) * 8 + offset_words % 8) as u16) by (bit_vector);
    block_bits | offset_bits
}

/// Build the address of a data zone access.
pub fn data_address(slot: Slot, block: u8, offset_words: u8) -> (r: u16)
    ensures
        r == spec_data_address(slot.index(), block, offset_words),
{
    let s = slot.as_u8();
    let block_bits: u16 = (block as u16) << 8;
    let slot_bits: u16 = ((s & 0x1F) as u16) << 3;
    let offset_bits: u16 = (offset_words & 0x07) as u16;
    assert((((block as u16) << 8) | (((s & 0x1F) as u16) << 3) | ((offset_words & 0x07) as u16))
        == (block * 256 + (s % 32) * 8 + offset_words % 8) as u16) by (bit_vector);
    block_bits | slot_bits | offset_bits
}

/// Compose `param1` for a Read.
pub fn read_param1(zone: Zone, is_32_bytes: bool) -> (r: u8)
    ensures
        r == spec_read_param1(zone, is_32_bytes),
{
    let flag: u8 = if is_32_bytes { PARAM1_FLAG_32_BYTES } else { 0 };
    let bits = zone.as_param1_bits();
    assert(bits < 4 && (flag == 0 || flag == 0x80) ==> (bits | flag) == (bits + flag) as u8) by (bit_vector);
    bits | flag
}

/// Compose `param1` for a Write. The encryption flag is only meaningful
/// for 32-byte transfers.
pub fn write_param1(zone: Zone, is_32_bytes: bool, encrypted: bool) -> (r: u8)
    ensures
        r == spec_write_param1(zone, is_32_bytes, encrypted),
{
    let bits = zone.as_param1_bits();
    let mut p1 = bits;
    if is_32_bytes {
        assert(bits < 4 ==> (bits | 0x80u8) == bits + 0x80u8) by (bit_vector);
        p1 = p1 | PARAM1_FLAG_32_BYTES;
    }
    if encrypted {
        let q = p1;
        assert((q < 4 || (0x80 <= q < 0x84)) ==> (q | 0x40u8) == q + 0x40u8) by (bit_vector);
        p1 = p1 | PARAM1_FLAG_ENCRYPTED;
    }
    p1
}

/// Trace and outcome of the 32-byte read of config block `block`.
pub open spec fn spec_config_block_read(addr: u8, block: nat, d: Seq<HalOp>) -> Option<Result<Seq<u8>, AteccErrorKind>> {
    spec_fixed_command(
        addr, OP_READ, spec_read_param1(Zone::Config, true), spec_config_or_otp_address(block as u8, 0),
        Seq::empty(), EXEC_TIME_READ_MS, BLOCK_SIZE as nat, d,
    )
}

/// `d` is the trace of the successful reads of config blocks `0..n`, in
/// order, and `data` their concatenated contents.
pub open spec fn spec_config_reads(addr: u8, n: nat, d: Seq<HalOp>, data: Seq<u8>) -> bool
    decreases n,
{
    if n == 0 {
        d.len() == 0 && data.len() == 0
    } else {
        &&& data.len() == n * 32
        &&& exists|k: int|
            0 <= k <= d.len() && spec_config_reads(addr, (n - 1) as nat, #[trigger] d.take(k), data.take((n - 1) * 32))
                && spec_config_block_read(addr, (n - 1) as nat, d.skip(k)) == Some(Ok::<Seq<u8>, AteccErrorKind>(data.skip((n - 1) * 32)))
    }
}

/// What reading the whole config zone returns, given its trace: the 128
/// bytes of the four block reads, or the error of the first failing one.
pub open spec fn spec_config_zone_read(addr: u8, d: Seq<HalOp>, outcome: Result<Seq<u8>, AteccErrorKind>) -> bool {
    match outcome {
        Ok(data) => spec_config_reads(addr, 4, d, data),
        Err(e) => exists|n: nat, k: int, data: Seq<u8>|
            n < 4 && 0 <= k <= d.len() && #[trigger] spec_config_reads(addr, n, d.take(k), data)
                && spec_config_block_read(addr, n, d.skip(k)) == Some(Err::<Seq<u8>, AteccErrorKind>(e)),
    }
}

impl<H: AteccHal> Atecc<H> {
    /// Read a 4-byte word at the raw address `address` of `zone`.
    pub(crate) fn read_4_command(&mut self, zone: Zone, address: u16) -> (r: Result<[u8; WORD_SIZE], AteccError<H::Error>>)
        ensures
            final(self).address() == old(self).address(),
            spec_extends(old(self).bus_log(), final(self).bus_log()),
            spec_fixed_command(
                old(self).address(), OP_READ, spec_read_param1(zone, false), address, Seq::empty(),
                EXEC_TIME_READ_MS, WORD_SIZE as nat, spec_delta(old(self).bus_log(), final(self).bus_log()),
            ) == Some(spec_bytes_outcome(r)),
    {
        let p1 = read_param1(zone, false);
        let empty: [u8; 0] = [];
        assert(empty@ =~= Seq::<u8>::empty());
        let payload = self.execute_fixed(OP_READ, p1, address, &empty, EXEC_TIME_READ_MS, WORD_SIZE)?;
        let mut out = [0u8; WORD_SIZE];
        copy_bytes(&mut out, payload.as_slice());
        Ok(out)
    }

    /// Read a 32-byte block at the raw address `address` of `zone`; the
    /// offset bits of `address` must be zero.
    pub(crate) fn read_32_command(&mut self, zone: Zone, address: u16) -> (r: Result<[u8; BLOCK_SIZE], AteccError<H::Error>>)
        ensures
            final(self).address() == old(self).address(),
            spec_extends(old(self).bus_log(), final(self).bus_log()),
            spec_fixed_command(
                old(self).address(), OP_READ, spec_read_param1(zone, true), address, Seq::empty(),
                EXEC_TIME_READ_MS, BLOCK_SIZE as nat, spec_delta(old(self).bus_log(), final(self).bus_log()),
            ) == Some(spec_bytes_outcome(r)),
    {
        let p1 = read_param1(zone, true);
        let empty: [u8; 0] = [];
        assert(empty@ =~= Seq::<u8>::empty());
        let payload = self.execute_fixed(OP_READ, p1, address, &empty, EXEC_TIME_READ_MS, BLOCK_SIZE)?;
        let mut out = [0u8; BLOCK_SIZE];
        copy_bytes(&mut out, payload.as_slice());
        Ok(out)
    }

    /// Read the whole 128-byte config zone into `out`, block by block. The
    /// first failing block aborts; the blocks read before it are in `out`
    /// and the rest of `out` is untouched.
    pub(crate) fn read_config_zone_command(&mut self, out: &mut [u8; CONFIG_ZONE_SIZE]) -> (r: Result<(), AteccError<H::Error>>)
        ensures
            final(self).address() == old(self).address(),
            spec_extends(old(self).bus_log(), final(self).bus_log()),
            r is Ok ==> spec_config_reads(
                old(self).address(), 4, spec_delta(old(self).bus_log(), final(self).bus_log()), final(out)@,
            ),
            r matches Err(e) ==> exists|n: nat, k: int|
                n < 4 && 0 <= k <= spec_delta(old(self).bus_log(), final(self).bus_log()).len()
                && #[trigger] spec_config_reads(
                    old(self).address(), n, spec_delta(old(self).bus_log(), final(self).bus_log()).take(k),
                    final(out)@.take(n as int * 32),
                )
                && spec_config_block_read(
                    old(self).address(), n, spec_delta(old(self).bus_log(), final(self).bus_log()).skip(k),
                ) == Some(Err::<Seq<u8>, AteccErrorKind>(spec_error_kind(e)))
                && final(out)@.skip(n as int * 32) == old(out)@.skip(n as int * 32),
    {
        let ghost start = self.bus_log();
        let ghost addr = self.address();
        let ghost orig = out@;
        proof {
            lemma_extends_refl(start);
            assert(out@.take(0) =~= Seq::<u8>::empty());
        }
        let mut block: u8 = 0;
        while block < CONFIG_ZONE_BLOCK_COUNT
            invariant
                block <= 4,
                self.address() == addr,
                addr == old(self).address(),
                start == old(self).bus_log(),
                orig == old(out)@,
                out@.len() == 128,
                spec_extends(start, self.bus_log()),
                spec_config_reads(addr, block as nat, spec_delta(start, self.bus_log()), out@.take(block * 32)),
                out@.skip(block * 32) == orig.skip(block * 32),
            decreases 4 - block,
        {
            let ghost before = self.bus_log();
            let ghost out_before = out@;
            let address = config_or_otp_address(block, 0);
            let res = self.read_32_command(Zone::Config, address);
            proof {
                lemma_extends_trans(start, before, self.bus_log());
                let d = spec_delta(start, self.bus_log());
                let k = spec_delta(start, before).len() as int;
                assert(d.take(k) =~= spec_delta(start, before));
                assert(d.skip(k) =~= spec_delta(before, self.bus_log()));
            }
            let chunk = match res {
                Ok(c) => c,
                Err(e) => {
                    proof {
                        let d = spec_delta(start, self.bus_log());
                        let k = spec_delta(start, before).len() as int;
                        assert(spec_config_reads(addr, block as nat, d.take(k), out@.take(block * 32)));
                    }
                    return Err(e);
                },
            };
            let start_idx: usize = (block as usize) * BLOCK_SIZE;
            let mut i: usize = 0;
            while i < BLOCK_SIZE
                invariant
                    start_idx == block * 32,
                    block < 4,
                    i <= 32,
                    out@.len() == 128,
                    forall|j: int| 0 <= j < start_idx ==> out@[j] == out_before[j],
                    forall|j: int| start_idx + i <= j < 128 ==> out@[j] == out_before[j],
                    forall|j: int| start_idx <= j < start_idx + i ==> out@[j] == chunk@[j - start_idx],
                decreases 32 - i,
            {
                out[start_idx + i] = chunk[i];
                i = i + 1;
            }
            proof {
                let d = spec_delta(start, self.bus_log());
                let k = spec_delta(start, before).len() as int;
                let nb: int = block + 1;
                let data = out@.take(nb * 32);
                assert(data.take(block * 32) =~= out_before.take(block * 32));
                assert(data.skip(block * 32) =~= chunk@);
                assert(spec_config_reads(addr, block as nat, d.take(k), data.take(block * 32)));
                assert(spec_config_reads(addr, nb as nat, d, data));
                assert(out@.skip(nb * 32) =~= orig.skip(nb * 32)) by {
                    assert(out@.skip(nb * 32) =~= out_before.skip(nb * 32));
                    assert(out_before.skip(block * 32).skip(32) =~= out_before.skip(nb * 32));
                    assert(orig.skip(block * 32).skip(32) =~= orig.skip(nb * 32));
                }
            }
            block = block + 1;
        }
        proof {
            assert(out@.take(128) =~= out@);
        }
        Ok(())
    }

    /// Read a 4-byte word of a data slot.
    pub(crate) fn read_slot_word_command(&mut self, slot: Slot, block: u8, offset_words: u8) -> (r: Result<[u8; WORD_SIZE], AteccError<H::Error>>)
        ensures
            final(self).address() == old(self).address(),
            spec_extends(old(self).bus_log(), final(self).bus_log()),
            spec_fixed_command(
                old(self).address(), OP_READ, spec_read_param1(Zone::Data, false),
                spec_data_address(slot.index(), block, offset_words), Seq::empty(),
                EXEC_TIME_READ_MS, WORD_SIZE as nat, spec_delta(old(self).bus_log(), final(self).bus_log()),
            ) == Some(spec_bytes_outcome(r)),
    {
        let address = data_address(slot, block, offset_words);
        self.read_4_command(Zone::Data, address)
    }

    /// Read a 32-byte block of a data slot.
    pub(crate) fn read_slot_block_command(&mut self, slot: Slot, block: u8) -> (r: Result<[u8; BLOCK_SIZE], AteccError<H::Error>>)
        ensures
            final(self).address() == old(self).address(),
            spec_extends(old(self).bus_log(), final(self).bus_log()),
            spec_fixed_command(
                old(self).address(), OP_READ, spec_read_param1(Zone::Data, true),
                spec_data_address(slot.index(), block, 0), Seq::empty(),
                EXEC_TIME_READ_MS, BLOCK_SIZE as nat, spec_delta(old(self).bus_log(), final(self).bus_log()),
            ) == Some(spec_bytes_outcome(r)),
    {
        let address = data_address(slot, block, 0);
        self.read_32_command(Zone::Data, address)
    }

    /// Write a 4-byte word in cleartext at the raw address `address` of
    /// `zone`.
    pub(crate) fn write_4_command(&mut self, zone: Zone, address: u16, data: &[u8; WORD_SIZE]) -> (r: Result<(), AteccError<H::Error>>)
        ensures
            final(self).address() == old(self).address(),
            spec_extends(old(self).bus_log(), final(self).bus_log()),
            spec_status_command(
                old(self).address(), OP_WRITE, spec_write_param1(zone, false, false), address, data@,
                EXEC_TIME_WRITE_MS, spec_delta(old(self).bus_log(), final(self).bus_log()),
            ) == Some(spec_unit_outcome(r)),
    {
        let p1 = write_param1(zone, false, false);
        self.execute_command_status(OP_WRITE, p1, address, data, EXEC_TIME_WRITE_MS)
    }

    /// Write a 32-byte block in cleartext at the raw address `address` of
    /// `zone`.
    pub(crate) fn write_32_command(&mut self, zone: Zone, address: u16, data: &[u8; BLOCK_SIZE]) -> (r: Result<(), AteccError<H::Error>>)
        ensures
            final(self).address() == old(self).address(),
            spec_extends(old(self).bus_log(), final(self).bus_log()),
            spec_status_command(
                old(self).address(), OP_WRITE, spec_write_param1(zone, true, false), address, data@,
                EXEC_TIME_WRITE_MS, spec_delta(old(self).bus_log(), final(self).bus_log()),
            ) == Some(spec_unit_outcome(r)),
    {
        let p1 = write_param1(zone, true, false);
        self.execute_command_status(OP_WRITE, p1, address, data, EXEC_TIME_WRITE_MS)
    }

    /// Write a 32-byte block encrypted: `ciphertext_and_mac` is the
    /// ciphertext followed by its MAC, both derived by the caller from the
    /// chip's current `TempKey`.
    pub(crate) fn write_32_encrypted_command(
        &mut self,
        zone: Zone,
        address: u16,
        ciphertext_and_mac: &[u8; ENCRYPTED_WRITE_DATA_SIZE],
    ) -> (r: Result<(), AteccError<H::Error>>)
        ensures
            final(self).address() == old(self).address(),
            spec_extends(old(self).bus_log(), final(self).bus_log()),
            spec_status_command(
                old(self).address(), OP_WRITE, spec_write_param1(zone, true, true), address, ciphertext_and_mac@,
                EXEC_TIME_WRITE_MS, spec_delta(old(self).bus_log(), final(self).bus_log()),
            ) == Some(spec_unit_outcome(r)),
    {
        let p1 = write_param1(zone, true, true);
        self.execute_command_status(OP_WRITE, p1, address, ciphertext_and_mac, EXEC_TIME_WRITE_MS)
    }

    /// Write a 4-byte word of a data slot in cleartext.
    pub(crate) fn write_slot_word_command(
        &mut self,
        slot: Slot,
        block: u8,
        offset_words: u8,
        data: &[u8; WORD_SIZE],
    ) -> (r: Result<(), AteccError<H::Error>>)
        ensures
            final(self).address() == old(self).address(),
            spec_extends(old(self).bus_log(), final(self).bus_log()),
            spec_status_command(
                old(self).address(), OP_WRITE, spec_write_param1(Zone::Data, false, false),
                spec_data_address(slot.index(), block, offset_words), data@,
                EXEC_TIME_WRITE_MS, spec_delta(old(self).bus_log(), final(self).bus_log()),
            ) == Some(spec_unit_outcome(r)),
    {
        let address = data_address(slot, block, offset_words);
        self.write_4_command(Zone::Data, address, data)
    }

    /// Write a 32-byte block of a data slot in cleartext.
    pub(crate) fn write_slot_block_command(&mut self, slot: Slot, block: u8, data: &[u8; BLOCK_SIZE]) -> (r: Result<(), AteccError<H::Error>>)
        ensures
            final(self).address() == old(self).address(),
            spec_extends(old(self).bus_log(), final(self).bus_log()),
            spec_status_command(
                old(self).address(), OP_WRITE, spec_write_param1(Zone::Data, true, false),
                spec_data_address(slot.index(), block, 0), data@,
                EXEC_TIME_WRITE_MS, spec_delta(old(self).bus_log(), final(self).bus_log()),
            ) == Some(spec_unit_outcome(r)),
    {
        let address = data_address(slot, block, 0);
        self.write_32_command(Zone::Data, address, data)
    }
}

impl<'a, H: AteccHal> AteccChannel<'a, H> {
    /// Read a 4-byte word at the raw address `address` of `zone`.
    pub fn read_4(&mut self, zone: Zone, address: u16) -> (r: Result<[u8; WORD_SIZE], AteccError<H::Error>>)
        ensures
            final(self).address() == old(self).address(),
            spec_extends(old(self).bus_log(), final(self).bus_log()),
            spec_fixed_command(
                old(self).address(), OP_READ, spec_read_param1(zone, false), address, Seq::empty(),
                EXEC_TIME_READ_MS, WORD_SIZE as nat, spec_delta(old(self).bus_log(), final(self).bus_log()),
            ) == Some(spec_bytes_outcome(r)),
    {
        proof { self.lemma_view(); }
        let r = self.driver.read_4_command(zone, address);
        proof { self.lemma_view(); }
        r
    }

    /// Read a 32-byte block at the raw address `address` of `zone`; the
    /// offset bits of `address` must be zero.
    pub fn read_32(&mut self, zone: Zone, address: u16) -> (r: Result<[u8; BLOCK_SIZE], AteccError<H::Error>>)
        ensures
            final(self).address() == old(self).address(),
            spec_extends(old(self).bus_log(), final(self).bus_log()),
            spec_fixed_command(
                old(self).address(), OP_READ, spec_read_param1(zone, true), address, Seq::empty(),
                EXEC_TIME_READ_MS, BLOCK_SIZE as nat, spec_delta(old(self).bus_log(), final(self).bus_log()),
            ) == Some(spec_bytes_outcome(r)),
    {
        proof { self.lemma_view(); }
        let r = self.driver.read_32_command(zone, address);
        proof { self.lemma_view(); }
        r
    }

    /// Read the whole 128-byte config zone into `out`, block by block. The
    /// first failing block aborts; the blocks read before it are in `out`
    /// and the rest of `out` is untouched.
    pub fn read_config_zone(&mut self, out: &mut [u8; CONFIG_ZONE_SIZE]) -> (r: Result<(), AteccError<H::Error>>)
        ensures
            final(self).address() == old(self).address(),
            spec_extends(old(self).bus_log(), final(self).bus_log()),
            r is Ok ==> spec_config_reads(
                old(self).address(), 4, spec_delta(old(self).bus_log(), final(self).bus_log()), final(out)@,
            ),
            r matches Err(e) ==> exists|n: nat, k: int|
                n < 4 && 0 <= k <= spec_delta(old(self).bus_log(), final(self).bus_log()).len()
                && #[trigger] spec_config_reads(
                    old(self).address(), n, spec_delta(old(self).bus_log(), final(self).bus_log()).take(k),
                    final(out)@.take(n as int * 32),
                )
                && spec_config_block_read(
                    old(self).address(), n, spec_delta(old(self).bus_log(), final(self).bus_log()).skip(k),
                ) == Some(Err::<Seq<u8>, AteccErrorKind>(spec_error_kind(e)))
                && final(out)@.skip(n as int * 32) == old(out)@.skip(n as int * 32),
    {
        proof { self.lemma_view(); }
        let r = self.driver.read_config_zone_command(out);
        proof { self.lemma_view(); }
        r
    }

    /// Read a 4-byte word of a data slot.
    pub fn read_slot_word(&mut self, slot: Slot, block: u8, offset_words: u8) -> (r: Result<[u8; WORD_SIZE], AteccError<H::Error>>)
        ensures
            final(self).address() == old(self).address(),
            spec_extends(old(self).bus_log(), final(self).bus_log()),
            spec_fixed_command(
                old(self).address(), OP_READ, spec_read_param1(Zone::Data, false),
                spec_data_address(slot.index(), block, offset_words), Seq::empty(),
                EXEC_TIME_READ_MS, WORD_SIZE as nat, spec_delta(old(self).bus_log(), final(self).bus_log()),
            ) == Some(spec_bytes_outcome(r)),
    {
        proof { self.lemma_view(); }
        let r = self.driver.read_slot_word_command(slot, block, offset_words);
        proof { self.lemma_view(); }
        r
    }

    /// Read a 32-byte block of a data slot.
    pub fn read_slot_block(&mut self, slot: Slot, block: u8) -> (r: Result<[u8; BLOCK_SIZE], AteccError<H::Error>>)
        ensures
            final(self).address() == old(self).address(),
            spec_extends(old(self).bus_log(), final(self).bus_log()),
            spec_fixed_command(
                old(self).address(), OP_READ, spec_read_param1(Zone::Data, true),
                spec_data_address(slot.index(), block, 0), Seq::empty(),
                EXEC_TIME_READ_MS, BLOCK_SIZE as nat, spec_delta(old(self).bus_log(), final(self).bus_log()),
            ) == Some(spec_bytes_outcome(r)),
    {
        proof { self.lemma_view(); }
        let r = self.driver.read_slot_block_command(slot, block);
        proof { self.lemma_view(); }
        r
    }

    /// Write a 4-byte word in cleartext at the raw address `address` of
    /// `zone`.
    pub fn write_4(&mut self, zone: Zone, address: u16, data: &[u8; WORD_SIZE]) -> (r: Result<(), AteccError<H::Error>>)
        ensures
            final(self).address() == old(self).address(),
            spec_extends(old(self).bus_log(), final(self).bus_log()),
            spec_status_command(
                old(self).address(), OP_WRITE, spec_write_param1(zone, false, false), address, data@,
                EXEC_TIME_WRITE_MS, spec_delta(old(self).bus_log(), final(self).bus_log()),
            ) == Some(spec_unit_outcome(r)),
    {
        proof { self.lemma_view(); }
        let r = self.driver.write_4_command(zone, address, data);
        proof { self.lemma_view(); }
        r
    }

    /// Write a 32-byte block in cleartext at the raw address `address` of
    /// `zone`.
    pub fn write_32(&mut self, zone: Zone, address: u16, data: &[u8; BLOCK_SIZE]) -> (r: Result<(), AteccError<H::Error>>)
        ensures
            final(self).address() == old(self).address(),
            spec_extends(old(self).bus_log(), final(self).bus_log()),
            spec_status_command(
                old(self).address(), OP_WRITE, spec_write_param1(zone, true, false), address, data@,
                EXEC_TIME_WRITE_MS, spec_delta(old(self).bus_log(), final(self).bus_log()),
            ) == Some(spec_unit_outcome(r)),
    {
        proof { self.lemma_view(); }
        let r = self.driver.write_32_command(zone, address, data);
        proof { self.lemma_view(); }
        r
    }

    /// Write a 32-byte block encrypted: `ciphertext_and_mac` is the
    /// ciphertext followed by its MAC, both derived by the caller from the
    /// chip's current `TempKey`.
    pub fn write_32_encrypted(
        &mut self,
        zone: Zone,
        address: u16,
        ciphertext_and_mac: &[u8; ENCRYPTED_WRITE_DATA_SIZE],
    ) -> (r: Result<(), AteccError<H::Error>>)
        ensures
            final(self).address() == old(self).address(),
            spec_extends(old(self).bus_log(), final(self).bus_log()),
            spec_status_command(
                old(self).address(), OP_WRITE, spec_write_param1(zone, true, true), address, ciphertext_and_mac@,
                EXEC_TIME_WRITE_MS, spec_delta(old(self).bus_log(), final(self).bus_log()),
            ) == Some(spec_unit_outcome(r)),
    {
        proof { self.lemma_view(); }
        let r = self.driver.write_32_encrypted_command(zone, address, ciphertext_and_mac);
        proof { self.lemma_view(); }
        r
    }

    /// Write a 4-byte word of a data slot in cleartext.
    pub fn write_slot_word(
        &mut self,
        slot: Slot,
        block: u8,
        offset_words: u8,
        data: &[u8; WORD_SIZE],
    ) -> (r: Result<(), AteccError<H::Error>>)
        ensures
            final(self).address() == old(self).address(),
            spec_extends(old(self).bus_log(), final(self).bus_log()),
            spec_status_command(
                old(self).address(), OP_WRITE, spec_write_param1(Zone::Data, false, false),
                spec_data_address(slot.index(), block, offset_words), data@,
                EXEC_TIME_WRITE_MS, spec_delta(old(self).bus_log(), final(self).bus_log()),
            ) == Some(spec_unit_outcome(r)),
    {
        proof { self.lemma_view(); }
        let r = self.driver.write_slot_word_command(slot, block, offset_words, data);
        proof { self.lemma_view(); }
        r
    }

    /// Write a 32-byte block of a data slot in cleartext.
    pub fn write_slot_block(&mut self, slot: Slot, block: u8, data: &[u8; BLOCK_SIZE]) -> (r: Result<(), AteccError<H::Error>>)
        ensures
            final(self).address() == old(self).address(),
            spec_extends(old(self).bus_log(), final(self).bus_log()),
            spec_status_command(
                old(self).address(), OP_WRITE, spec_write_param1(Zone::Data, true, false),
                spec_data_address(slot.index(), block, 0), data@,
                EXEC_TIME_WRITE_MS, spec_delta(old(self).bus_log(), final(self).bus_log()),
            ) == Some(spec_unit_outcome(r)),
    {
        proof { self.lemma_view(); }
        let r = self.driver.write_slot_block_command(slot, block, data);
        proof { self.lemma_view(); }
        r
    }
}

} // verus!
