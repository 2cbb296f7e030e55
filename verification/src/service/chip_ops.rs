//! Command sequences the service runs inside one channel: signing a
//! digest, the encrypted write, counter increments, key regeneration and
//! the paired counter read. Each is stated over its bus trace.
use vstd::prelude::*;
use crate::atecc::command::counter::{COUNTER_MODE_INCREMENT, COUNTER_MODE_READ, CounterId, spec_counter_command};
use crate::atecc::command::gendig::{GenDigZone, spec_gendig_command};
use crate::atecc::command::genkey::{GENKEY_MODE_CREATE, spec_genkey_command};
use crate::atecc::command::nonce::{NonceTarget, spec_nonce_passthrough_command};
use crate::atecc::command::random::spec_random_command;
use crate::atecc::command::read_write::{Zone, config_or_otp_address, data_address, spec_config_or_otp_address, spec_data_address, spec_write_param1};
use crate::atecc::command::sign::{SIGNATURE_SIZE, spec_sign_command};
use crate::atecc::command::{spec_bool_outcome, spec_then};
use crate::atecc::command::{lemma_then, lemma_then_first_failed, lemma_then_rel, lemma_then_rel_first_failed, spec_then_rel};
use crate::atecc::driver::{
    Atecc, lemma_extends_refl, lemma_extends_trans, spec_bytes_outcome, spec_delta, spec_extends, spec_status_command,
    spec_unit_outcome,
};
use crate::atecc::error::{AteccError, AteccErrorKind, ChipError, spec_error_kind};
use crate::atecc::hal::{AteccHal, HalOp};
use crate::atecc::opcodes::{EXEC_TIME_WRITE_MS, OP_WRITE};
use crate::atecc::slot::Slot;
use crate::service::encrypted_write::{
    CHIP_SERIAL_LEN, SLOT_VALUE_LEN, build_encrypted_write_payload, derive_session_key, encrypt_payload,
    spec_session_key, spec_write_mac, spec_xor, write_mac,
};
use crate::service::slots::{SLOT_IO_KEY_INDEX, slot_io_key};
use crate::service::service::{can_write_block_in_one_transfer, spec_writable_words, writable_words_in_block};

verus! {

/// The passthrough of `digest` to the message digest buffer, then the
/// external Sign with the key of `slot`.
pub open spec fn spec_sign_digest(addr: u8, digest: Seq<u8>, slot: u8, d: Seq<HalOp>, o: Result<Seq<u8>, AteccErrorKind>) -> bool {
    spec_then(
        d,
        |d: Seq<HalOp>| spec_nonce_passthrough_command(addr, NonceTarget::MsgDigBuf, digest, d),
        |d: Seq<HalOp>| spec_sign_command(addr, slot, d),
        o,
    )
}

/// The data field of the encrypted write of `plaintext` to block 0 of
/// `slot`, for the `TempKey` that GenDig derived from `nonce`.
pub open spec fn spec_encrypted_payload(plaintext: Seq<u8>, io_key: Seq<u8>, nonce: Seq<u8>, slot: u8, serial: Seq<u8>) -> Seq<u8> {
    let key = spec_session_key(io_key, nonce, SLOT_IO_KEY_INDEX, serial);
    spec_xor(plaintext, key) + spec_write_mac(key, plaintext, slot, 0, serial)
}

/// The encrypted write command itself.
pub open spec fn spec_encrypted_write_command(addr: u8, slot: u8, payload: Seq<u8>, d: Seq<HalOp>) -> Option<Result<(), AteccErrorKind>> {
    spec_status_command(addr, OP_WRITE, spec_write_param1(Zone::Data, true, true), spec_data_address(slot, 0, 0), payload, EXEC_TIME_WRITE_MS, d)
}

/// The encrypted write of `plaintext` to block 0 of `slot`: Random gives
/// the nonce, a passthrough Nonce loads it into `TempKey`, GenDig on the
/// I/O key slot turns it into the session key, and the Write carries the
/// ciphertext and MAC under that key. The first error ends the sequence.
pub open spec fn spec_encrypted_write(
    addr: u8,
    slot: u8,
    plaintext: Seq<u8>,
    io_key: Seq<u8>,
    serial: Seq<u8>,
    d: Seq<HalOp>,
    o: Result<(), AteccErrorKind>,
) -> bool {
    ||| (match o {
        Err(e) => spec_random_command(addr, d) == Some(Err::<Seq<u8>, AteccErrorKind>(e)),
        Ok(_) => false,
    })
    ||| exists|k: int, nonce: Seq<u8>|
        #![trigger spec_random_command(addr, d.take(k)), spec_encrypted_payload(plaintext, io_key, nonce, slot, serial)]
        0 <= k <= d.len() && spec_random_command(addr, d.take(k)) == Some(Ok::<Seq<u8>, AteccErrorKind>(nonce))
            && spec_then_rel(
                d.skip(k),
                |d: Seq<HalOp>| spec_nonce_passthrough_command(addr, NonceTarget::TempKey, nonce, d),
                spec_gendig_then_write(addr, slot, spec_encrypted_payload(plaintext, io_key, nonce, slot, serial)),
                o,
            )
}

/// GenDig on the I/O key slot, then the encrypted write of `payload`.
pub open spec fn spec_gendig_then_write(addr: u8, slot: u8, payload: Seq<u8>) -> spec_fn(Seq<HalOp>, Result<(), AteccErrorKind>) -> bool {
    |d: Seq<HalOp>, o: Result<(), AteccErrorKind>| spec_then(
        d,
        |d: Seq<HalOp>| spec_gendig_command(addr, GenDigZone::Data, SLOT_IO_KEY_INDEX as u16, d),
        |d: Seq<HalOp>| spec_encrypted_write_command(addr, slot, payload, d),
        o,
    )
}

/// Up to `n` counter increments: each success goes on to the next; the
/// chip's execution error (the counter at its maximum) ends the sequence
/// with `Ok(false)`; any other error ends it with that error. All `n`
/// done gives `Ok(true)`.
pub open spec fn spec_increments(addr: u8, counter: CounterId, n: nat, d: Seq<HalOp>, o: Result<bool, AteccErrorKind>) -> bool
    decreases n,
{
    if n == 0 {
        d.len() == 0 && o == Ok::<bool, AteccErrorKind>(true)
    } else {
        exists|k: int|
            0 <= k <= d.len() && match #[trigger] spec_counter_command(addr, COUNTER_MODE_INCREMENT, counter, d.take(k)) {
                Some(Ok(_)) => spec_increments(addr, counter, (n - 1) as nat, d.skip(k), o),
                Some(Err(AteccErrorKind::Chip(ChipError::ExecutionError))) => k == d.len() && o == Ok::<bool, AteccErrorKind>(false),
                Some(Err(e)) => k == d.len() && o == Err::<bool, AteccErrorKind>(e),
                None => false,
            }
    }
}

/// New keys generated, in order, in each slot of `slots`; the first error
/// ends the sequence.
pub open spec fn spec_genkeys(addr: u8, slots: Seq<u8>, d: Seq<HalOp>, o: Result<(), AteccErrorKind>) -> bool
    decreases slots.len(),
{
    if slots.len() == 0 {
        d.len() == 0 && o == Ok::<(), AteccErrorKind>(())
    } else {
        exists|k: int|
            0 <= k <= d.len() && match #[trigger] spec_genkey_command(addr, GENKEY_MODE_CREATE, slots[0], d.take(k)) {
                Some(Ok(_)) => spec_genkeys(addr, slots.skip(1), d.skip(k), o),
                Some(Err(e)) => k == d.len() && o == Err::<(), AteccErrorKind>(e),
                None => false,
            }
    }
}

/// The slots whose keys an emergency reset regenerates: the five user
/// identity slots and slot 7.
pub open spec fn spec_reset_key_slots() -> Seq<u8> {
    seq![0u8, 1u8, 2u8, 3u8, 4u8, 7u8]
}

/// Counter0 then Counter1 read in a row.
pub open spec fn spec_two_counters(addr: u8, d: Seq<HalOp>, o: Result<(u32, u32), AteccErrorKind>) -> bool {
    ||| (match o {
        Err(e) => spec_counter_command(addr, COUNTER_MODE_READ, CounterId::Counter0, d) == Some(Err::<u32, AteccErrorKind>(e)),
        Ok(_) => false,
    })
    ||| exists|k: int|
        0 <= k <= d.len() && match #[trigger] spec_counter_command(addr, COUNTER_MODE_READ, CounterId::Counter0, d.take(k)) {
            Some(Ok(c0)) => match spec_counter_command(addr, COUNTER_MODE_READ, CounterId::Counter1, d.skip(k)) {
                Some(Ok(c1)) => o == Ok::<(u32, u32), AteccErrorKind>((c0, c1)),
                Some(Err(e)) => o == Err::<(u32, u32), AteccErrorKind>(e),
                None => false,
            },
            _ => false,
        }
}

/// The 4-byte writes of the words `words` of config block `block`, each
/// taking its bytes from `data` at the word's offset; the first error ends
/// the sequence.
pub open spec fn spec_config_words(addr: u8, block: u8, data: Seq<u8>, words: Seq<u8>, d: Seq<HalOp>, o: Result<(), AteccErrorKind>) -> bool
    decreases words.len(),
{
    if words.len() == 0 {
        d.len() == 0 && o == Ok::<(), AteccErrorKind>(())
    } else {
        exists|k: int|
            0 <= k <= d.len() && match #[trigger] spec_status_command(
                addr, OP_WRITE, spec_write_param1(Zone::Config, false, false), spec_config_or_otp_address(block, words[0]),
                data.subrange(words[0] * 4, words[0] * 4 + 4), EXEC_TIME_WRITE_MS, d.take(k),
            ) {
                Some(Ok(_)) => spec_config_words(addr, block, data, words.skip(1), d.skip(k), o),
                Some(Err(e)) => k == d.len() && o == Err::<(), AteccErrorKind>(e),
                None => false,
            }
    }
}

/// The write of config block `block` with `data`: one 32-byte write for a
/// block without read-only bytes, else its writable words one by one.
pub open spec fn spec_config_block_write(addr: u8, block: u8, data: Seq<u8>, d: Seq<HalOp>, o: Result<(), AteccErrorKind>) -> bool {
    if block == 1 || block == 3 {
        spec_status_command(
            addr, OP_WRITE, spec_write_param1(Zone::Config, true, false), spec_config_or_otp_address(block, 0), data,
            EXEC_TIME_WRITE_MS, d,
        ) == Some(o)
    } else {
        spec_config_words(addr, block, data, spec_writable_words(block), d, o)
    }
}

/// A pair of counter values with the HAL payload of its error dropped.
pub open spec fn spec_pair_outcome<E>(r: Result<(u32, u32), AteccError<E>>) -> Result<(u32, u32), AteccErrorKind> {
    match r {
        Ok(v) => Ok(v),
        Err(e) => Err(spec_error_kind(e)),
    }
}

/// The delta between two marks of a chain, inside the delta of the chain.
pub proof fn lemma_delta_within(a: Seq<HalOp>, b: Seq<HalOp>, c: Seq<HalOp>, e: Seq<HalOp>)
    requires
        spec_extends(a, b),
        spec_extends(b, c),
        spec_extends(c, e),
    ensures
        spec_extends(a, e),
        spec_delta(a, e).subrange(spec_delta(a, b).len() as int, spec_delta(a, c).len() as int) == spec_delta(b, c),
        spec_delta(a, e).skip(spec_delta(a, b).len() as int) == spec_delta(b, e),
        spec_delta(a, e).take(spec_delta(a, b).len() as int) == spec_delta(a, b),
{
    lemma_extends_trans(a, b, c);
    lemma_extends_trans(b, c, e);
    lemma_extends_trans(a, c, e);
    lemma_extends_trans(a, b, e);
    assert(spec_delta(a, e).subrange(spec_delta(a, b).len() as int, spec_delta(a, c).len() as int) =~= spec_delta(b, c));
    assert(spec_delta(a, e).skip(spec_delta(a, b).len() as int) =~= spec_delta(b, e));
    assert(spec_delta(a, e).take(spec_delta(a, b).len() as int) =~= spec_delta(a, b));
}

impl<H: AteccHal> Atecc<H> {
    /// Load `digest` into the message digest buffer and sign it with the
    /// key of `slot`.
    pub(crate) fn sign_digest_command(&mut self, slot: Slot, digest: &[u8; 32]) -> (r: Result<[u8; SIGNATURE_SIZE], AteccError<H::Error>>)
        ensures
            final(self).address() == old(self).address(),
            spec_extends(old(self).bus_log(), final(self).bus_log()),
            spec_sign_digest(old(self).address(), digest@, slot.index(), spec_delta(old(self).bus_log(), final(self).bus_log()), spec_bytes_outcome(r)),
    {
        let ghost start = self.bus_log();
        let ghost addr = self.address();
        let ghost first = |d: Seq<HalOp>| spec_nonce_passthrough_command(addr, NonceTarget::MsgDigBuf, digest@, d);
        let ghost second = |d: Seq<HalOp>| spec_sign_command(addr, slot.index(), d);
        match self.nonce_passthrough_command(NonceTarget::MsgDigBuf, digest) {
            Ok(()) => {},
            Err(e) => {
                proof { lemma_then_first_failed(start, self.bus_log(), first, second, spec_error_kind(e)); }
                return Err(e);
            },
        }
        let ghost mid = self.bus_log();
        let r = self.sign_external_command(slot);
        proof { lemma_then(start, mid, self.bus_log(), first, second, spec_bytes_outcome(r)); }
        r
    }

    /// GenDig on the I/O key slot, then the encrypted write of `payload` to
    /// block 0 of `slot`.
    fn gendig_then_write(&mut self, slot: Slot, payload: &[u8; 64]) -> (r: Result<(), AteccError<H::Error>>)
        ensures
            final(self).address() == old(self).address(),
            spec_extends(old(self).bus_log(), final(self).bus_log()),
            spec_gendig_then_write(old(self).address(), slot.index(), payload@)(
                spec_delta(old(self).bus_log(), final(self).bus_log()), spec_unit_outcome(r)),
    {
        let ghost start = self.bus_log();
        let ghost addr = self.address();
        let ghost first = |d: Seq<HalOp>| spec_gendig_command(addr, GenDigZone::Data, SLOT_IO_KEY_INDEX as u16, d);
        let ghost second = |d: Seq<HalOp>| spec_encrypted_write_command(addr, slot.index(), payload@, d);
        let io_slot: u16 = slot_io_key().as_u8() as u16;
        let r = match self.gendig_command(GenDigZone::Data, io_slot) {
            Ok(()) => {
                let ghost mid = self.bus_log();
                let address = data_address(slot, 0, 0);
                let w = self.write_32_encrypted_command(Zone::Data, address, payload);
                proof { lemma_then(start, mid, self.bus_log(), first, second, spec_unit_outcome(w)); }
                w
            },
            Err(e) => {
                proof { lemma_then_first_failed(start, self.bus_log(), first, second, spec_error_kind(e)); }
                Err(e)
            },
        };
        r
    }

    /// The encrypted write of `plaintext` to block 0 of `target_slot`,
    /// keyed by the I/O protection key `io_key` of the chip with serial
    /// `chip_serial`.
    pub(crate) fn encrypted_write_command(
        &mut self,
        target_slot: Slot,
        plaintext: &[u8; SLOT_VALUE_LEN],
        io_key: &[u8; SLOT_VALUE_LEN],
        chip_serial: &[u8; CHIP_SERIAL_LEN],
    ) -> (r: Result<(), AteccError<H::Error>>)
        ensures
            final(self).address() == old(self).address(),
            spec_extends(old(self).bus_log(), final(self).bus_log()),
            spec_encrypted_write(
                old(self).address(), target_slot.index(), plaintext@, io_key@, chip_serial@,
                spec_delta(old(self).bus_log(), final(self).bus_log()), spec_unit_outcome(r),
            ),
    {
        let ghost start = self.bus_log();
        let ghost addr = self.address();
        let nonce_input = match self.random_command() {
            Ok(n) => n,
            Err(e) => return Err(e),
        };
        let ghost mid = self.bus_log();
        let ghost payload_spec = spec_encrypted_payload(plaintext@, io_key@, nonce_input@, target_slot.index(), chip_serial@);
        let ghost first = |d: Seq<HalOp>| spec_nonce_passthrough_command(addr, NonceTarget::TempKey, nonce_input@, d);
        let ghost second = spec_gendig_then_write(addr, target_slot.index(), payload_spec);
        let r = match self.nonce_passthrough_command(NonceTarget::TempKey, &nonce_input) {
            Ok(()) => {
                let ghost mid2 = self.bus_log();
                let session_key = derive_session_key(io_key, &nonce_input, SLOT_IO_KEY_INDEX, chip_serial);
                let ciphertext = encrypt_payload(plaintext, &session_key);
                let mac = write_mac(&session_key, plaintext, target_slot, 0, chip_serial);
                let payload = build_encrypted_write_payload(&ciphertext, &mac);
                assert(payload@ == payload_spec);
                let w = self.gendig_then_write(target_slot, &payload);
                proof { lemma_then_rel(mid, mid2, self.bus_log(), first, second, spec_unit_outcome(w)); }
                w
            },
            Err(e) => {
                proof { lemma_then_rel_first_failed(mid, self.bus_log(), first, second, spec_error_kind(e)); }
                Err(e)
            },
        };
        proof {
            lemma_extends_trans(start, mid, self.bus_log());
            let d = spec_delta(start, self.bus_log());
            let k = spec_delta(start, mid).len() as int;
            assert(d.take(k) =~= spec_delta(start, mid));
            assert(d.skip(k) =~= spec_delta(mid, self.bus_log()));
        }
        r
    }

    /// Increment `counter` up to `n` times; `Ok(false)` when the chip
    /// reported the counter at its maximum and the increments stopped.
    pub(crate) fn increment_times(&mut self, counter: CounterId, n: u32) -> (r: Result<bool, AteccError<H::Error>>)
        ensures
            final(self).address() == old(self).address(),
            spec_extends(old(self).bus_log(), final(self).bus_log()),
            spec_increments(old(self).address(), counter, n as nat, spec_delta(old(self).bus_log(), final(self).bus_log()), spec_bool_outcome(r)),
        decreases n,
    {
        let ghost start = self.bus_log();
        let ghost addr = self.address();
        if n == 0 {
            proof {
                lemma_extends_refl(start);
            }
            return Ok(true);
        }
        let res = self.counter_internal(COUNTER_MODE_INCREMENT, counter);
        let ghost mid = self.bus_log();
        let r = match res {
            Ok(_) => self.increment_times(counter, n - 1),
            Err(AteccError::Chip(ChipError::ExecutionError)) => Ok(false),
            Err(other) => Err(other),
        };
        proof {
            if res is Ok {
                lemma_extends_trans(start, mid, self.bus_log());
            } else {
                lemma_extends_refl(mid);
            }
            let d = spec_delta(start, self.bus_log());
            let k = spec_delta(start, mid).len() as int;
            assert(d.take(k) =~= spec_delta(start, mid));
            assert(d.skip(k) =~= spec_delta(mid, self.bus_log()));
        }
        r
    }

    /// Generate new keys in each of `slots`, in order.
    pub(crate) fn genkeys_command(&mut self, slots: &[u8], from: usize) -> (r: Result<(), AteccError<H::Error>>)
        requires
            from <= slots@.len(),
            forall|i: int| 0 <= i < slots@.len() ==> slots@[i] < 16,
        ensures
            final(self).address() == old(self).address(),
            spec_extends(old(self).bus_log(), final(self).bus_log()),
            spec_genkeys(old(self).address(), slots@.skip(from as int), spec_delta(old(self).bus_log(), final(self).bus_log()), spec_unit_outcome(r)),
        decreases slots@.len() - from,
    {
        let ghost start = self.bus_log();
        if from == slots.len() {
            proof {
                lemma_extends_refl(start);
                assert(slots@.skip(from as int).len() == 0);
            }
            return Ok(());
        }
        let slot = Slot::const_new(slots[from]);
        let res = self.genkey_internal(GENKEY_MODE_CREATE, slot);
        let ghost mid = self.bus_log();
        let r = match res {
            Ok(_) => self.genkeys_command(slots, from + 1),
            Err(e) => Err(e),
        };
        proof {
            if res is Ok {
                lemma_extends_trans(start, mid, self.bus_log());
            } else {
                lemma_extends_refl(mid);
            }
            let d = spec_delta(start, self.bus_log());
            let k = spec_delta(start, mid).len() as int;
            assert(d.take(k) =~= spec_delta(start, mid));
            assert(d.skip(k) =~= spec_delta(mid, self.bus_log()));
            assert(slots@.skip(from as int).skip(1) =~= slots@.skip(from as int + 1));
            assert(slots@.skip(from as int)[0] == slots@[from as int]);
        }
        r
    }

    /// Read Counter0 then Counter1.
    pub(crate) fn two_counters_command(&mut self) -> (r: Result<(u32, u32), AteccError<H::Error>>)
        ensures
            final(self).address() == old(self).address(),
            spec_extends(old(self).bus_log(), final(self).bus_log()),
            spec_two_counters(old(self).address(), spec_delta(old(self).bus_log(), final(self).bus_log()), spec_pair_outcome(r)),
    {
        let ghost start = self.bus_log();
        let c0 = match self.counter_internal(COUNTER_MODE_READ, CounterId::Counter0) {
            Ok(v) => v,
            Err(e) => return Err(e),
        };
        let ghost mid = self.bus_log();
        let c1 = self.counter_internal(COUNTER_MODE_READ, CounterId::Counter1);
        proof {
            lemma_extends_trans(start, mid, self.bus_log());
            let d = spec_delta(start, self.bus_log());
            let k = spec_delta(start, mid).len() as int;
            assert(d.take(k) =~= spec_delta(start, mid));
            assert(d.skip(k) =~= spec_delta(mid, self.bus_log()));
        }
        match c1 {
            Ok(v) => Ok((c0, v)),
            Err(e) => Err(e),
        }
    }

    /// Write the words `words[from..]` of config block `block` from `data`.
    pub(crate) fn config_words_command(&mut self, block: u8, data: &[u8; 32], words: &Vec<u8>, from: usize) -> (r: Result<(), AteccError<H::Error>>)
        requires
            from <= words@.len(),
            forall|i: int| 0 <= i < words@.len() ==> words@[i] < 8,
        ensures
            final(self).address() == old(self).address(),
            spec_extends(old(self).bus_log(), final(self).bus_log()),
            spec_config_words(old(self).address(), block, data@, words@.skip(from as int),
                spec_delta(old(self).bus_log(), final(self).bus_log()), spec_unit_outcome(r)),
        decreases words@.len() - from,
    {
        let ghost start = self.bus_log();
        if from == words.len() {
            proof {
                lemma_extends_refl(start);
                assert(words@.skip(from as int).len() == 0);
            }
            return Ok(());
        }
        let w = words[from];
        let address = config_or_otp_address(block, w);
        let off: usize = (w as usize) * 4;
        let chunk: [u8; 4] = [data[off], data[off + 1], data[off + 2], data[off + 3]];
        proof { assert(chunk@ =~= data@.subrange(w * 4, w * 4 + 4)); }
        let res = self.write_4_command(Zone::Config, address, &chunk);
        let ghost mid = self.bus_log();
        let r = match res {
            Ok(()) => self.config_words_command(block, data, words, from + 1),
            Err(e) => Err(e),
        };
        proof {
            if res is Ok {
                lemma_extends_trans(start, mid, self.bus_log());
            } else {
                lemma_extends_refl(mid);
            }
            let d = spec_delta(start, self.bus_log());
            let k = spec_delta(start, mid).len() as int;
            assert(d.take(k) =~= spec_delta(start, mid));
            assert(d.skip(k) =~= spec_delta(mid, self.bus_log()));
            assert(words@.skip(from as int).skip(1) =~= words@.skip(from as int + 1));
            assert(words@.skip(from as int)[0] == words@[from as int]);
        }
        r
    }

    /// Write config block `block` with `data`.
    pub(crate) fn config_block_write_command(&mut self, block: u8, data: &[u8; 32]) -> (r: Result<(), AteccError<H::Error>>)
        ensures
            final(self).address() == old(self).address(),
            spec_extends(old(self).bus_log(), final(self).bus_log()),
            spec_config_block_write(old(self).address(), block, data@, spec_delta(old(self).bus_log(), final(self).bus_log()),
                spec_unit_outcome(r)),
    {
        if can_write_block_in_one_transfer(block) {
            let address = config_or_otp_address(block, 0);
            self.write_32_command(Zone::Config, address, data)
        } else {
            let words = writable_words_in_block(block);
            proof {
                assert(words@.skip(0) =~= words@);
                assert forall|i: int| 0 <= i < words@.len() implies words@[i] < 8 by {}
            }
            self.config_words_command(block, data, &words, 0)
        }
    }
}

} // verus!
