//! The crypto service: every operation opens a channel to the chip (wake),
//! runs its commands, and closes it with the idle token. Each contract
//! states the bus trace of the operation and how the result follows from
//! what the chip answered.
use vstd::prelude::*;
use crate::atecc::command::{
    lemma_session_closed, lemma_session_command_failed, lemma_session_wake_failed, spec_session,
};
use crate::atecc::command::counter::{COUNTER_MODE_READ, CounterId, spec_counter_command};
use crate::atecc::command::genkey::{GENKEY_MODE_CREATE, GENKEY_MODE_PUBLIC, PUBLIC_KEY_SIZE, spec_genkey_command};
use crate::atecc::command::lock::{
    LOCK_MODE_CONFIG_ZONE_VERIFY_CRC, LOCK_MODE_DATA_ZONE_NO_CRC, lock_slot_mode, spec_lock_command, spec_lock_slot_mode,
};
use crate::atecc::command::random::{RANDOM_OUTPUT_LEN, spec_random_command};
use crate::atecc::command::read_write::{
    BLOCK_SIZE, WORD_SIZE, Zone, data_address, spec_config_zone_read, spec_data_address, spec_read_param1,
    spec_write_param1,
};
use crate::atecc::command::{spec_bool_outcome, spec_fixed_command};
use crate::atecc::driver::{Atecc, lemma_extends_refl, lemma_extends_trans, spec_delta, spec_extends, spec_status_command, spec_unit_outcome};
use crate::atecc::error::{AteccError, AteccErrorKind, spec_error_kind};
use crate::atecc::hal::{AteccHal, HalOp};
use crate::atecc::opcodes::{EXEC_TIME_READ_MS, EXEC_TIME_WRITE_MS, OP_READ, OP_WRITE, WORD_ADDRESS_IDLE};
use crate::atecc::slot::Slot;
use crate::atecc::wake::{idle, spec_token_outcome, spec_wake_outcome, wake};
use crate::service::chip_ops::{lemma_delta_within, spec_config_block_write, spec_reset_key_slots, spec_genkeys, spec_increments, spec_sign_digest, spec_encrypted_write, spec_two_counters};
use crate::atecc::command::sign::SIGNATURE_SIZE;
use crate::atecc::command::info::{INFO_MODE_REVISION, spec_info_command};
use crate::service::encrypted_write::{CHIP_SERIAL_LEN, SLOT_VALUE_LEN};
use crate::service::error::CryptoServiceError;
use crate::service::pin::{validate_digits, spec_format_rejection, FormatError, PIN_LEN, PUK_LEN, all_digits, pin_hash, pin_salt, puk_hash, puk_salt, spec_code_hash, spec_pin_salt, spec_puk_salt, HASH_LEN, checkmac_other_data, checkmac_response, spec_checkmac_other_data, spec_checkmac_response};
use crate::atecc::command::checkmac::spec_checkmac_command;
use crate::service::session::{Clock, Session, spec_active_at};
use crate::service::runs::{
    k_ok, k_ok_any, k_pin_wrong, k_refresh_then_ok, k_set_pin_check, k_set_pin_count, k_set_pin_serial, run_set_pin, k_puk_wrong, k_unblock_check, k_unblock_count, k_unblock_serial, k_unblock_written, run_unblock_pin, k_set_puk_check, k_set_puk_count, k_set_puk_serial, run_set_puk, k_reset_c0, k_reset_c1, k_reset_serial, k_reset_keys, k_reset_puk, k_reset_puk_written, k_reset_c1_refreshed, k_reset_pin_written, k_reset_done, run_emergency_reset, k_verify_check, k_verify_count, k_verify_serial, lemma_bind_err, lemma_bind_last,
    lemma_bind_ok, run_verify_pin, spec_fails_with, step_checkmac, step_counter, step_genkeys, step_random_puk,
    step_refresh, step_serial, step_write, k_ok_bytes, k_provision_pin, k_provision_puk, k_provision_puk_serial,
    k_provision_io_key, run_provision_pin, run_provision_puk, run_provision_io_key, step_random, step_write_block,
    k_info_revision, k_info_serial, k_info_done, run_info, step_info_revision, step_provisioned,
};
use crate::service::slots::{PIN_MAX_RETRIES, PUK_MAX_RETRIES, SLOT_IO_KEY_INDEX, SLOT_PIN_HASH_INDEX, SLOT_PUK_HASH_INDEX, pin_default, slot_io_key, slot_pin_hash, slot_puk_hash, spec_pin_default};

verus! {


/// What [`CryptoService::info`] reports.
#[derive(Debug, Clone, Copy, PartialEq, Eq)]
pub struct DeviceInfo {
    /// The chip's four revision bytes.
    pub revision: [u8; 4],
    /// The chip's serial number.
    pub serial: [u8; CHIP_SERIAL_LEN],
    /// Both the config zone and the data zone are locked.
    pub is_provisioned: bool,
}

/// What [`CryptoService::get_pin_status`] reports.
#[derive(Debug, Clone, Copy, PartialEq, Eq, Structural)]
pub struct PinStatus {
    /// PIN attempts left in the current batch.
    pub pin_tries_remaining: u8,
    /// PUK attempts left in the current batch.
    pub puk_tries_remaining: u8,
    /// A PIN session is active.
    pub session_active: bool,
}

/// Attempts left in a batch of `batch` when the attempt counter reads
/// `count`: a fresh counter has the whole batch, a counter on a multiple
/// of the batch has none, otherwise the batch minus the counter's position
/// in it.
pub open spec fn spec_retries_remaining(count: u32, batch: u8) -> u8 {
    if count == 0 {
        batch
    } else if count % (batch as u32) == 0 {
        0
    } else {
        (batch - count % (batch as u32)) as u8
    }
}

/// Attempts left in the batch of `batch_size` when the counter reads
/// `count`.
pub fn retries_remaining(count: u32, batch_size: u8) -> (r: u8)
    requires
        batch_size > 0,
    ensures
        r == spec_retries_remaining(count, batch_size),
{
    let batch: u32 = batch_size as u32;
    let remainder: u32 = count % batch;
    if count == 0 {
        return batch_size;
    }
    if remainder == 0 {
        return 0;
    }
    if remainder == 1 {
        return batch_size - 1;
    }
    let remainder_u8: u8 = remainder as u8;
    batch_size - remainder_u8
}

/// Counter increments that bring a counter to the first position of its
/// batch: one from a multiple of the batch, none when already there, else
/// up to the next batch.
pub open spec fn spec_counter_bumps(current: u32, batch: u8) -> u32 {
    let rem = current % (batch as u32);
    if rem == 0 {
        1
    } else if rem == 1 {
        0
    } else {
        (batch - rem + 1) as u32
    }
}

/// Number of increments that give the counter `current` a new batch of
/// `batch_size` attempts.
pub fn counter_bumps(current: u32, batch_size: u8) -> (r: u32)
    requires
        batch_size > 0,
    ensures
        r == spec_counter_bumps(current, batch_size),
        r <= batch_size,
{
    let batch: u32 = batch_size as u32;
    let remainder: u32 = current % batch;
    if remainder == 0 {
        1
    } else if remainder == 1 {
        0
    } else {
        batch - remainder + 1
    }
}

/// A refresh bumps the counter no further than needed: no position
/// before the one it reaches starts a batch, and it never bumps more than
/// a whole batch.
pub proof fn lemma_refresh_is_least(current: u32, batch: u8)
    requires
        batch >= 2,
    ensures
        spec_counter_bumps(current, batch) <= batch,
        forall|w: int| current <= w < current + spec_counter_bumps(current, batch) ==> #[trigger] (w % (batch as int)) != 1,
{
    let b = batch as int;
    let c = current as int;
    let rem = c % b;
    assert(0 <= rem < b) by (nonlinear_arith)
        requires b > 0, rem == c % b;
    assert(c == b * (c / b) + rem) by (nonlinear_arith)
        requires b > 0, rem == c % b;
    assert(spec_counter_bumps(current, batch) as int == if rem == 0 { 1 } else if rem == 1 { 0 } else { b - rem + 1 });
    assert forall|w: int| c <= w < c + spec_counter_bumps(current, batch) implies #[trigger] (w % b) != 1 by {
        let q = c / b;
        if w - c + rem < b {
            assert(w % b == rem + (w - c)) by (nonlinear_arith)
                requires c == b * q + rem, 0 <= rem < b, c <= w, w - c + rem < b, b > 0;
        } else {
            assert(w - c + rem == b);
            assert(w % b == 0) by (nonlinear_arith)
                requires c == b * q + rem, w - c + rem == b, b > 0;
        }
    }
}

/// Every attempt counts: while a batch has attempts left, one more use of
/// the counter takes exactly one attempt away.
pub proof fn lemma_attempt_consumes_one(count: u32, batch: u8)
    requires
        batch > 0,
        count < u32::MAX,
        spec_retries_remaining(count, batch) > 0,
    ensures
        spec_retries_remaining((count + 1) as u32, batch) == spec_retries_remaining(count, batch) - 1,
{
    let b = batch as int;
    let c = count as int;
    if count == 0 {
        if b > 1 {
            assert(1int % b == 1) by (nonlinear_arith)
                requires b > 1;
        }
    } else {
        let rem = c % b;
        assert(0 <= rem < b) by (nonlinear_arith)
            requires b > 0, rem == c % b;
        assert((c + 1) % b == if rem + 1 == b { 0 } else { rem + 1 }) by (nonlinear_arith)
            requires b > 0, rem == c % b, 0 <= rem < b;
    }
}

/// Attempts left never exceed the batch.
pub proof fn lemma_retries_at_most_batch(count: u32, batch: u8)
    requires
        batch > 0,
    ensures
        spec_retries_remaining(count, batch) <= batch,
{
}

/// After a refresh the counter sits at the first position of a batch, so
/// the user has the whole batch but the attempt that position stands for.
pub proof fn lemma_refresh_gives_fresh_batch(current: u32, batch: u8)
    requires
        batch >= 2,
        current as int + batch as int <= u32::MAX,
    ensures
        (current + spec_counter_bumps(current, batch)) % (batch as int) == 1,
        spec_retries_remaining((current + spec_counter_bumps(current, batch)) as u32, batch) == batch - 1,
{
    let b = batch as int;
    let c = current as int;
    let rem = c % b;
    assert(0 <= rem < b) by (nonlinear_arith)
        requires b > 0, rem == c % b;
    let bumps = spec_counter_bumps(current, batch) as int;
    assert(c == b * (c / b) + rem) by (nonlinear_arith)
        requires b > 0, rem == c % b;
    if rem == 0 {
        assert((c + 1) % b == 1) by (nonlinear_arith)
            requires c == b * (c / b), b >= 2;
    } else if rem == 1 {
    } else {
        assert(bumps == b - rem + 1);
        assert((c + b - rem + 1) % b == 1) by (nonlinear_arith)
            requires c == b * (c / b) + rem, b >= 2, 0 <= rem < b;
    }
}

/// A config block (0 to 3) that can be written in one 32-byte transfer:
/// blocks 1 and 3 hold no read-only bytes.
pub open spec fn spec_one_transfer_block(block: u8) -> bool {
    block == 1 || block == 3
}

/// The writable 4-byte words of config blocks 0 and 2, which also hold
/// read-only bytes; the other blocks have none listed.
pub open spec fn spec_writable_words(block: u8) -> Seq<u8> {
    if block == 0 {
        seq![4u8, 5u8, 6u8, 7u8]
    } else if block == 2 {
        seq![0u8, 1u8, 2u8, 3u8, 4u8, 6u8, 7u8]
    } else {
        Seq::empty()
    }
}

/// Whether a config block can be written in one 32-byte transfer.
pub fn can_write_block_in_one_transfer(block: u8) -> (r: bool)
    ensures
        r == spec_one_transfer_block(block),
{
    block == 1 || block == 3
}

/// The 4-byte words of a config block to write one by one, skipping the
/// factory area of block 0 and the read-only word 5 of block 2.
pub fn writable_words_in_block(block: u8) -> (r: Vec<u8>)
    ensures
        r@ == spec_writable_words(block),
{
    let mut v: Vec<u8> = Vec::new();
    if block == 0 {
        v.push(4);
        v.push(5);
        v.push(6);
        v.push(7);
        assert(v@ =~= spec_writable_words(block));
    } else if block == 2 {
        v.push(0);
        v.push(1);
        v.push(2);
        v.push(3);
        v.push(4);
        v.push(6);
        v.push(7);
        assert(v@ =~= spec_writable_words(block));
    } else {
        assert(v@ =~= spec_writable_words(block));
    }
    v
}

/// Every config block is written one way: in one transfer exactly when it
/// has no word list.
pub proof fn lemma_config_block_write_plans_disjoint(block: u8)
    requires
        block <= 3,
    ensures
        spec_one_transfer_block(block) <==> spec_writable_words(block).len() == 0,
{
}

/// The chip serial number inside the config zone: bytes 0..4 and 8..13.
pub open spec fn spec_serial_from_config(config: Seq<u8>) -> Seq<u8> {
    config.subrange(0, 4) + config.subrange(8, 13)
}

/// Extract the serial number from a config zone image.
pub fn serial_from_config(config: &[u8; 128]) -> (r: [u8; CHIP_SERIAL_LEN])
    ensures
        r@ == spec_serial_from_config(config@),
{
    let mut serial = [0u8; CHIP_SERIAL_LEN];
    serial[0] = config[0];
    serial[1] = config[1];
    serial[2] = config[2];
    serial[3] = config[3];
    serial[4] = config[8];
    serial[5] = config[9];
    serial[6] = config[10];
    serial[7] = config[11];
    serial[8] = config[12];
    assert(serial@ =~= spec_serial_from_config(config@));
    serial
}

/// Both lock bytes of a config zone image read "locked" (0x00): byte 87
/// for the config zone, byte 86 for the data zone.
pub open spec fn spec_provisioned(config: Seq<u8>) -> bool {
    config[87] == 0x00 && config[86] == 0x00
}

/// A config zone image shows the token provisioned exactly when both
/// lock bytes, 86 (data zone) and 87 (config zone), read 0x00.
pub proof fn lemma_provisioned_iff_both_locks(config: Seq<u8>)
    requires
        config.len() == 128,
    ensures
        spec_provisioned(config) <==> (config[86] == 0x00 && config[87] == 0x00),
        config[86] != 0x00 ==> !spec_provisioned(config),
        config[87] != 0x00 ==> !spec_provisioned(config),
{
}

/// Whether a config zone image shows both zones locked.
pub fn provisioned_from_config(config: &[u8; 128]) -> (r: bool)
    ensures
        r == spec_provisioned(config@),
{
    config[87] == 0x00 && config[86] == 0x00
}

/// The `SlotConfig` and `KeyConfig` bytes of slot `n` in a config zone
/// image: bytes `20 + 2n`, `21 + 2n`, `96 + 2n`, `97 + 2n`.
pub open spec fn spec_slot_config(config: Seq<u8>, n: int) -> Seq<u8> {
    seq![config[20 + 2 * n], config[21 + 2 * n], config[96 + 2 * n], config[97 + 2 * n]]
}

/// Extract the configuration bytes of a slot from a config zone image.
pub fn slot_config_from_config(config: &[u8; 128], slot: Slot) -> (r: [u8; 4])
    ensures
        r@ == spec_slot_config(config@, slot.index() as int),
{
    let n: usize = slot.as_u8() as usize;
    let sc_off: usize = 20 + 2 * n;
    let kc_off: usize = 96 + 2 * n;
    let r = [config[sc_off], config[sc_off + 1], config[kc_off], config[kc_off + 1]];
    assert(r@ =~= spec_slot_config(config@, slot.index() as int));
    r
}

/// Extract block `block` (0 to 3) from a config zone image.
pub fn config_block_from_config(config: &[u8; 128], block: u8) -> (r: [u8; 32])
    requires
        block <= 3,
    ensures
        r@ == config@.subrange(block * 32, block * 32 + 32),
{
    let start: usize = (block as usize) * 32;
    let mut out = [0u8; 32];
    let mut i: usize = 0;
    while i < 32
        invariant
            start == block * 32,
            block <= 3,
            i <= 32,
            forall|j: int| 0 <= j < i ==> out@[j] == config@[start + j],
        decreases 32 - i,
    {
        out[i] = config[start + i];
        i = i + 1;
    }
    assert(out@ =~= config@.subrange(block * 32, block * 32 + 32));
    out
}

/// Decimal digits from random bytes: digit `i` is `'0' + random[i] % 10`.
pub open spec fn spec_puk_from_random(random: Seq<u8>) -> Seq<u8> {
    Seq::new(8, |i: int| (0x30 + random[i] % 10) as u8)
}

/// Turn chip randomness into an 8-digit PUK.
pub fn puk_from_random(random: &[u8; RANDOM_OUTPUT_LEN]) -> (r: [u8; 8])
    ensures
        r@ == spec_puk_from_random(random@),
{
    let mut puk = [0x30u8; 8];
    let mut i: usize = 0;
    while i < 8
        invariant
            i <= 8,
            forall|j: int| 0 <= j < i ==> puk@[j] == (0x30 + random@[j] % 10) as u8,
        decreases 8 - i,
    {
        puk[i] = 0x30 + random[i] % 10;
        i = i + 1;
    }
    assert(puk@ =~= spec_puk_from_random(random@));
    puk
}

} // verus!

verus! {

/// The crypto service: the chip driver, a clock, the PIN session and the
/// chip serial number once read.
pub struct CryptoService<H: AteccHal, C: Clock> {
    atecc: Atecc<H>,
    clock: C,
    session: Session,
    serial: Option<[u8; CHIP_SERIAL_LEN]>,
    readings: Ghost<Seq<u64>>,
}

/// A service result with the HAL payload of a driver error dropped; other
/// errors are not driver errors and map to nothing meaningful.
pub open spec fn spec_driver_outcome<T, E>(r: Result<T, CryptoServiceError<E>>) -> Result<T, AteccErrorKind> {
    match r {
        Ok(v) => Ok(v),
        Err(CryptoServiceError::Atecc(e)) => Err(spec_error_kind(e)),
        Err(_) => Err(AteccErrorKind::Hal),
    }
}

/// [`spec_driver_outcome`] for a byte-array result, taken by its view.
pub open spec fn spec_driver_bytes<T: View<V = Seq<u8>>, E>(r: Result<T, CryptoServiceError<E>>) -> Result<Seq<u8>, AteccErrorKind> {
    match r {
        Ok(v) => Ok(v@),
        Err(CryptoServiceError::Atecc(e)) => Err(spec_error_kind(e)),
        Err(_) => Err(AteccErrorKind::Hal),
    }
}

/// `after` is `before` with one more clock reading.
pub open spec fn spec_read_once(before: Seq<u64>, after: Seq<u64>) -> bool {
    after.len() == before.len() + 1 && after.drop_last() == before
}

/// The error is a driver error.
pub open spec fn spec_is_driver_error<T, E>(r: Result<T, CryptoServiceError<E>>) -> bool {
    r matches Err(e) ==> e is Atecc
}

/// Relation of a single command: its trace gives this outcome.
pub open spec fn spec_rel<T>(cmd: spec_fn(Seq<HalOp>) -> Option<Result<T, AteccErrorKind>>) -> spec_fn(Seq<HalOp>, Result<T, AteccErrorKind>) -> bool {
    |d: Seq<HalOp>, o: Result<T, AteccErrorKind>| cmd(d) == Some(o)
}

/// `d` is a wake, a command whose outcome is `res` whatever it was, and
/// then the idle token in every case; `outcome` is the wake's error, else
/// the idle token's error, else `res`.
pub open spec fn spec_closing_session(
    addr: u8,
    d: Seq<HalOp>,
    cmd: spec_fn(Seq<HalOp>) -> Option<Result<(), AteccErrorKind>>,
    outcome: Result<(), AteccErrorKind>,
) -> bool {
    ||| (match outcome {
        Err(e) => spec_wake_outcome(addr, d) == Some(Err::<(), AteccErrorKind>(e)),
        Ok(_) => false,
    })
    ||| exists|k1: int, k2: int|
        0 <= k1 <= k2 <= d.len() && spec_wake_outcome(addr, #[trigger] d.take(k1)) == Some(Ok::<(), AteccErrorKind>(()))
            && (match (cmd(#[trigger] d.subrange(k1, k2)), spec_token_outcome(addr, WORD_ADDRESS_IDLE, d.skip(k2))) {
                (Some(res), Some(Ok(()))) => outcome == res,
                (Some(_), Some(Err(e))) => outcome == Err::<(), AteccErrorKind>(e),
                _ => false,
            })
}

/// The single-command relation of a GenKey.
pub open spec fn rel_genkey(addr: u8, mode: u8, slot: u8) -> spec_fn(Seq<HalOp>, Result<Seq<u8>, AteccErrorKind>) -> bool {
    |d: Seq<HalOp>, o: Result<Seq<u8>, AteccErrorKind>| spec_genkey_command(addr, mode, slot, d) == Some(o)
}

/// The single-command relation of a 32-byte read of a data slot block.
pub open spec fn rel_read_slot_block(addr: u8, slot: u8, block: u8) -> spec_fn(Seq<HalOp>, Result<Seq<u8>, AteccErrorKind>) -> bool {
    |d: Seq<HalOp>, o: Result<Seq<u8>, AteccErrorKind>| spec_fixed_command(
        addr, OP_READ, spec_read_param1(Zone::Data, true), spec_data_address(slot, block, 0), Seq::empty(),
        EXEC_TIME_READ_MS, BLOCK_SIZE as nat, d,
    ) == Some(o)
}

/// The single-command relation of a 4-byte read of a data slot word.
pub open spec fn rel_read_slot_word(addr: u8, slot: u8, block: u8, offset_words: u8) -> spec_fn(Seq<HalOp>, Result<Seq<u8>, AteccErrorKind>) -> bool {
    |d: Seq<HalOp>, o: Result<Seq<u8>, AteccErrorKind>| spec_fixed_command(
        addr, OP_READ, spec_read_param1(Zone::Data, false), spec_data_address(slot, block, offset_words), Seq::empty(),
        EXEC_TIME_READ_MS, WORD_SIZE as nat, d,
    ) == Some(o)
}

/// The single-command relation of a counter read.
pub open spec fn rel_counter_read(addr: u8, counter: CounterId) -> spec_fn(Seq<HalOp>, Result<u32, AteccErrorKind>) -> bool {
    |d: Seq<HalOp>, o: Result<u32, AteccErrorKind>| spec_counter_command(addr, COUNTER_MODE_READ, counter, d) == Some(o)
}

/// The single-command relation of a Random.
pub open spec fn rel_random(addr: u8) -> spec_fn(Seq<HalOp>, Result<Seq<u8>, AteccErrorKind>) -> bool {
    |d: Seq<HalOp>, o: Result<Seq<u8>, AteccErrorKind>| spec_random_command(addr, d) == Some(o)
}

/// The relation of a whole config zone read.
pub open spec fn rel_config_zone(addr: u8) -> spec_fn(Seq<HalOp>, Result<Seq<u8>, AteccErrorKind>) -> bool {
    |d: Seq<HalOp>, o: Result<Seq<u8>, AteccErrorKind>| spec_config_zone_read(addr, d, o)
}

/// The relation of signing a digest.
pub open spec fn rel_sign(addr: u8, digest: Seq<u8>, slot: u8) -> spec_fn(Seq<HalOp>, Result<Seq<u8>, AteccErrorKind>) -> bool {
    |d: Seq<HalOp>, o: Result<Seq<u8>, AteccErrorKind>| spec_sign_digest(addr, digest, slot, d, o)
}

/// The relation of the encrypted write.
pub open spec fn rel_encrypted_write(addr: u8, slot: u8, plaintext: Seq<u8>, io_key: Seq<u8>, serial: Seq<u8>) -> spec_fn(Seq<HalOp>, Result<(), AteccErrorKind>) -> bool {
    |d: Seq<HalOp>, o: Result<(), AteccErrorKind>| spec_encrypted_write(addr, slot, plaintext, io_key, serial, d, o)
}

/// The relation of reading both counters.
pub open spec fn rel_two_counters(addr: u8) -> spec_fn(Seq<HalOp>, Result<(u32, u32), AteccErrorKind>) -> bool {
    |d: Seq<HalOp>, o: Result<(u32, u32), AteccErrorKind>| spec_two_counters(addr, d, o)
}

/// The relation of a cleartext write of block 0 of a data slot.
pub open spec fn rel_write_data_block(addr: u8, slot: u8, value: Seq<u8>) -> spec_fn(Seq<HalOp>, Result<(), AteccErrorKind>) -> bool {
    |d: Seq<HalOp>, o: Result<(), AteccErrorKind>| spec_status_command(
        addr, OP_WRITE, spec_write_param1(Zone::Data, true, false), spec_data_address(slot, 0, 0), value, EXEC_TIME_WRITE_MS, d,
    ) == Some(o)
}

/// The relation of regenerating the keys of `slots`.
pub open spec fn rel_genkeys(addr: u8, slots: Seq<u8>) -> spec_fn(Seq<HalOp>, Result<(), AteccErrorKind>) -> bool {
    |d: Seq<HalOp>, o: Result<(), AteccErrorKind>| spec_genkeys(addr, slots, d, o)
}

/// The CheckMac that proves knowledge of `hash` for `slot`, as the
/// service runs it: a wake, a Random for the challenge (an error there
/// ends the session), the CheckMac with the response computed from `hash`,
/// then the idle token whatever the CheckMac answered. `o` is the wake's
/// or Random's error, else the idle token's error, else the CheckMac's
/// result.
pub open spec fn spec_checkmac_with_hash(addr: u8, slot: u8, hash: Seq<u8>, serial: Seq<u8>, d: Seq<HalOp>, o: Result<bool, AteccErrorKind>) -> bool {
    ||| (match o {
        Err(e) => spec_wake_outcome(addr, d) == Some(Err::<(), AteccErrorKind>(e)),
        Ok(_) => false,
    })
    ||| exists|k: int|
        0 <= k <= d.len() && spec_wake_outcome(addr, #[trigger] d.take(k)) == Some(Ok::<(), AteccErrorKind>(()))
            && (match o {
                Err(e) => spec_random_command(addr, d.skip(k)) == Some(Err::<Seq<u8>, AteccErrorKind>(e)),
                Ok(_) => false,
            })
    ||| exists|k1: int, k2: int, k3: int|
        #![trigger spec_random_command(addr, d.subrange(k1, k2)), d.skip(k3)]
        0 <= k1 <= k2 <= k3 <= d.len() && spec_wake_outcome(addr, d.take(k1)) == Some(Ok::<(), AteccErrorKind>(()))
            && match spec_random_command(addr, d.subrange(k1, k2)) {
                Some(Ok(ch)) => {
                    let other = spec_checkmac_other_data(slot, serial);
                    match (
                        spec_checkmac_command(addr, slot, ch, spec_checkmac_response(hash, ch, other, serial), other, d.subrange(k2, k3)),
                        spec_token_outcome(addr, WORD_ADDRESS_IDLE, d.skip(k3)),
                    ) {
                        (Some(res), Some(Ok(()))) => o == res,
                        (Some(_), Some(Err(e))) => o == Err::<bool, AteccErrorKind>(e),
                        _ => false,
                    }
                },
                _ => false,
            }
}

/// `Ok(b)` with the idle token's success, else its error.
pub open spec fn spec_closed_with(cl: Result<(), AteccErrorKind>, b: bool) -> Result<bool, AteccErrorKind> {
    match cl {
        Ok(()) => Ok(b),
        Err(e) => Err(e),
    }
}

/// The counter refresh as the service runs it: a wake, a counter read (an
/// error there ends the session), [`spec_counter_bumps`] increments of the
/// value read, then the idle token. `o` is the first error met, the idle
/// token's counting only when the increments did not fail; else `Ok(true)`
/// when every increment was made, `Ok(false)` when the chip reported the
/// counter at its maximum.
pub open spec fn spec_refresh(addr: u8, counter: CounterId, batch: u8, d: Seq<HalOp>, o: Result<bool, AteccErrorKind>) -> bool {
    ||| (match o {
        Err(e) => spec_wake_outcome(addr, d) == Some(Err::<(), AteccErrorKind>(e)),
        Ok(_) => false,
    })
    ||| exists|k: int|
        0 <= k <= d.len() && spec_wake_outcome(addr, #[trigger] d.take(k)) == Some(Ok::<(), AteccErrorKind>(()))
            && (match o {
                Err(e) => spec_counter_command(addr, COUNTER_MODE_READ, counter, d.skip(k)) == Some(Err::<u32, AteccErrorKind>(e)),
                Ok(_) => false,
            })
    ||| exists|k1: int, k2: int, k3: int|
        #![trigger spec_counter_command(addr, COUNTER_MODE_READ, counter, d.subrange(k1, k2)), d.skip(k3)]
        0 <= k1 <= k2 <= k3 <= d.len() && spec_wake_outcome(addr, d.take(k1)) == Some(Ok::<(), AteccErrorKind>(()))
            && match spec_counter_command(addr, COUNTER_MODE_READ, counter, d.subrange(k1, k2)) {
                Some(Ok(c)) => match spec_token_outcome(addr, WORD_ADDRESS_IDLE, d.skip(k3)) {
                    Some(cl) => {
                        ||| (spec_increments(addr, counter, spec_counter_bumps(c, batch) as nat, d.subrange(k2, k3), Ok::<bool, AteccErrorKind>(true))
                            && o == spec_closed_with(cl, true))
                        ||| (spec_increments(addr, counter, spec_counter_bumps(c, batch) as nat, d.subrange(k2, k3), Ok::<bool, AteccErrorKind>(false))
                            && o == spec_closed_with(cl, false))
                        ||| (o is Err && spec_increments(addr, counter, spec_counter_bumps(c, batch) as nat, d.subrange(k2, k3), o))
                    },
                    None => false,
                },
                _ => false,
            }
}

/// `d` ends with a trace that `p` accepts.
pub open spec fn spec_ends_with(d: Seq<HalOp>, p: spec_fn(Seq<HalOp>) -> bool) -> bool {
    exists|k: int| 0 <= k <= d.len() && p(#[trigger] d.skip(k))
}

/// `d` contains a contiguous trace that `p` accepts.
pub open spec fn spec_contains(d: Seq<HalOp>, p: spec_fn(Seq<HalOp>) -> bool) -> bool {
    exists|a: int, b: int| 0 <= a <= b <= d.len() && p(#[trigger] d.subrange(a, b))
}

/// A counter read session that returned `c`.
pub open spec fn spec_counter_session(addr: u8, counter: CounterId, d: Seq<HalOp>, c: u32) -> bool {
    spec_session(addr, d, rel_counter_read(addr, counter), Ok::<u32, AteccErrorKind>(c))
}

/// The part of `a`..`e` between the marks `b` and `c` is a trace `p`
/// accepts, so the whole contains one.
pub proof fn lemma_contains(a: Seq<HalOp>, b: Seq<HalOp>, c: Seq<HalOp>, e: Seq<HalOp>, p: spec_fn(Seq<HalOp>) -> bool)
    requires
        spec_extends(a, b),
        spec_extends(b, c),
        spec_extends(c, e),
        p(spec_delta(b, c)),
    ensures
        spec_extends(a, e),
        spec_contains(spec_delta(a, e), p),
{
    lemma_delta_within(a, b, c, e);
    lemma_extends_trans(a, b, c);
    let d = spec_delta(a, e);
    let x = spec_delta(a, b).len() as int;
    let y = spec_delta(a, c).len() as int;
    assert(p(d.subrange(x, y)));
}

/// The part of `a`..`e` after the mark `b` is a trace `p` accepts.
pub proof fn lemma_ends_with(a: Seq<HalOp>, b: Seq<HalOp>, e: Seq<HalOp>, p: spec_fn(Seq<HalOp>) -> bool)
    requires
        spec_extends(a, b),
        spec_extends(b, e),
        p(spec_delta(b, e)),
    ensures
        spec_extends(a, e),
        spec_ends_with(spec_delta(a, e), p),
{
    lemma_extends_refl(e);
    lemma_delta_within(a, b, e, e);
    let d = spec_delta(a, e);
    let x = spec_delta(a, b).len() as int;
    assert(p(d.skip(x)));
}

/// The slots the service provisions in cleartext: PIN, PUK and I/O key.
pub open spec fn spec_provisionable(slot: u8) -> bool {
    slot == SLOT_PIN_HASH_INDEX || slot == SLOT_PUK_HASH_INDEX || slot == SLOT_IO_KEY_INDEX
}

/// A PUK drawn from random bytes is all digits.
pub proof fn lemma_puk_digits(random: Seq<u8>)
    requires
        random.len() >= 8,
    ensures
        all_digits(spec_puk_from_random(random)),
{
    assert forall|i: int| 0 <= i < 8 implies crate::service::pin::is_digit(#[trigger] spec_puk_from_random(random)[i]) by {
        assert(random[i] % 10 < 10);
    }
}

/// A CheckMac session that confirmed knowledge of `hash` for `slot`.
pub open spec fn spec_confirmed(addr: u8, slot: u8, hash: Seq<u8>, serial: Seq<u8>) -> spec_fn(Seq<HalOp>) -> bool {
    |d: Seq<HalOp>| spec_checkmac_with_hash(addr, slot, hash, serial, d, Ok::<bool, AteccErrorKind>(true))
}

/// A successful encrypted write of `plaintext` to `slot` under `io_key`.
pub open spec fn spec_written(addr: u8, slot: u8, plaintext: Seq<u8>, io_key: Seq<u8>, serial: Seq<u8>) -> spec_fn(Seq<HalOp>) -> bool {
    |d: Seq<HalOp>| spec_session(addr, d, rel_encrypted_write(addr, slot, plaintext, io_key, serial), Ok::<(), AteccErrorKind>(()))
}

/// A counter read session that returned a value with which `p` holds.
pub open spec fn spec_counter_then(addr: u8, counter: CounterId, d: Seq<HalOp>, p: spec_fn(u32) -> bool) -> bool {
    exists|c: u32| #[trigger] spec_counter_session(addr, counter, d, c) && p(c)
}

/// The single-command relation of an Info.
pub open spec fn rel_info(addr: u8, mode: u8) -> spec_fn(Seq<HalOp>, Result<Seq<u8>, AteccErrorKind>) -> bool {
    |d: Seq<HalOp>, o: Result<Seq<u8>, AteccErrorKind>| spec_info_command(addr, mode, d) == Some(o)
}

/// The relation of writing a config block.
pub open spec fn rel_config_block_write(addr: u8, block: u8, data: Seq<u8>) -> spec_fn(Seq<HalOp>, Result<(), AteccErrorKind>) -> bool {
    |d: Seq<HalOp>, o: Result<(), AteccErrorKind>| spec_config_block_write(addr, block, data, d, o)
}

/// `d` starts with a trace that `p` accepts.
pub open spec fn spec_starts_with(d: Seq<HalOp>, p: spec_fn(Seq<HalOp>) -> bool) -> bool {
    exists|k: int| 0 <= k <= d.len() && p(#[trigger] d.take(k))
}

/// A closing session whose wake failed.
pub proof fn lemma_closing_wake_failed(
    addr: u8,
    start: Seq<HalOp>,
    end: Seq<HalOp>,
    cmd: spec_fn(Seq<HalOp>) -> Option<Result<(), AteccErrorKind>>,
    e: AteccErrorKind,
)
    requires
        spec_extends(start, end),
        spec_wake_outcome(addr, spec_delta(start, end)) == Some(Err::<(), AteccErrorKind>(e)),
    ensures
        spec_closing_session(addr, spec_delta(start, end), cmd, Err::<(), AteccErrorKind>(e)),
{
}

/// A closing session past its wake: the command, then the idle token.
pub proof fn lemma_closing_done(
    addr: u8,
    start: Seq<HalOp>,
    mid: Seq<HalOp>,
    mid2: Seq<HalOp>,
    end: Seq<HalOp>,
    cmd: spec_fn(Seq<HalOp>) -> Option<Result<(), AteccErrorKind>>,
    res: Result<(), AteccErrorKind>,
    close: Result<(), AteccErrorKind>,
)
    requires
        spec_extends(start, mid),
        spec_extends(mid, mid2),
        spec_extends(mid2, end),
        spec_wake_outcome(addr, spec_delta(start, mid)) == Some(Ok::<(), AteccErrorKind>(())),
        cmd(spec_delta(mid, mid2)) == Some(res),
        spec_token_outcome(addr, WORD_ADDRESS_IDLE, spec_delta(mid2, end)) == Some(close),
    ensures
        spec_extends(start, end),
        spec_closing_session(addr, spec_delta(start, end), cmd, match close {
            Ok(()) => res,
            Err(e) => Err::<(), AteccErrorKind>(e),
        }),
{
    lemma_extends_trans(start, mid, mid2);
    lemma_extends_trans(start, mid2, end);
    let d = spec_delta(start, end);
    let k1 = spec_delta(start, mid).len() as int;
    let k2 = spec_delta(start, mid2).len() as int;
    assert(d.take(k1) =~= spec_delta(start, mid));
    assert(d.subrange(k1, k2) =~= spec_delta(mid, mid2));
    assert(d.skip(k2) =~= spec_delta(mid2, end));
}

/// The lock command of a service lock operation.
pub open spec fn cmd_lock(addr: u8, mode: u8, param2: u16) -> spec_fn(Seq<HalOp>) -> Option<Result<(), AteccErrorKind>> {
    |d: Seq<HalOp>| spec_lock_command(addr, mode, param2, d)
}

impl<H: AteccHal, C: Clock> CryptoService<H, C> {
    /// The chip's I2C address.
    pub closed spec fn address(&self) -> u8 {
        self.atecc.address()
    }

    /// Every HAL call the service made, oldest first.
    pub closed spec fn bus_log(&self) -> Seq<HalOp> {
        self.atecc.bus_log()
    }

    /// The PIN session: the time of its last activity, or `None`.
    pub closed spec fn session_state(&self) -> Option<u64> {
        self.session@
    }

    /// The clock readings the service acted on, oldest first.
    pub closed spec fn clock_readings(&self) -> Seq<u64> {
        self.readings@
    }

    /// Read the clock, and record the reading.
    fn read_clock(&mut self) -> (t: u64)
        ensures
            final(self).clock_readings() == old(self).clock_readings().push(t),
            spec_read_once(old(self).clock_readings(), final(self).clock_readings()),
            final(self).clock_readings().last() == t,
            final(self).atecc == old(self).atecc,
            final(self).session == old(self).session,
            final(self).serial == old(self).serial,
    {
        let t = self.clock.now_ms();
        proof {
            self.readings@ = self.readings@.push(t);
            assert(self.readings@.drop_last() =~= old(self).readings@);
        }
        t
    }

    /// The cached chip serial number, once read.
    pub closed spec fn serial_cache(&self) -> Option<Seq<u8>> {
        match self.serial {
            Some(s) => Some(s@),
            None => None,
        }
    }

    /// A service over a driver and a clock, with no session and no serial
    /// number read yet.
    pub fn new(atecc: Atecc<H>, clock: C) -> (r: Self)
        ensures
            r.address() == atecc.address(),
            r.bus_log() == atecc.bus_log(),
            r.session_state() == None::<u64>,
            r.serial_cache() == None::<Seq<u8>>,
            r.clock_readings() == Seq::<u64>::empty(),
    {
        CryptoService { atecc, clock, session: Session::new(), serial: None, readings: Ghost(Seq::empty()) }
    }
    /// Read the public key of the private key in `slot`.
    pub fn get_pubkey(&mut self, slot: Slot) -> (r: Result<[u8; PUBLIC_KEY_SIZE], CryptoServiceError<H::Error>>)
        ensures
            final(self).clock_readings() == old(self).clock_readings(),
            Self::post_get_pubkey(*old(self), *final(self), slot, r),
    {
        let ghost start = self.atecc.bus_log();
        let ghost addr = self.atecc.address();
        let ghost cmd = rel_genkey(addr, GENKEY_MODE_PUBLIC, slot.index());
        match wake(&mut self.atecc) {
            Ok(()) => {},
            Err(e) => {
                proof { lemma_session_wake_failed(addr, start, self.atecc.bus_log(), cmd, spec_error_kind(e)); }
                return Err(CryptoServiceError::Atecc(e));
            },
        }
        let ghost mid = self.atecc.bus_log();
        let v = match self.atecc.genkey_internal(GENKEY_MODE_PUBLIC, slot) {
            Ok(v) => v,
            Err(e) => {
                proof { lemma_session_command_failed(addr, start, mid, self.atecc.bus_log(), cmd, spec_error_kind(e)); }
                return Err(CryptoServiceError::Atecc(e));
            },
        };
        let ghost mid2 = self.atecc.bus_log();
        let c = idle(&mut self.atecc);
        proof { lemma_session_closed(addr, start, mid, mid2, self.atecc.bus_log(), cmd, v@, spec_unit_outcome(c)); }
        match c {
            Ok(()) => Ok(v),
            Err(e) => Err(CryptoServiceError::Atecc(e)),
        }
    }

    /// Generate a new private key in `slot`; returns its public key.
    pub fn genkey_create(&mut self, slot: Slot) -> (r: Result<[u8; PUBLIC_KEY_SIZE], CryptoServiceError<H::Error>>)
        ensures
            final(self).clock_readings() == old(self).clock_readings(),
            Self::post_genkey_create(*old(self), *final(self), slot, r),
    {
        let ghost start = self.atecc.bus_log();
        let ghost addr = self.atecc.address();
        let ghost cmd = rel_genkey(addr, GENKEY_MODE_CREATE, slot.index());
        match wake(&mut self.atecc) {
            Ok(()) => {},
            Err(e) => {
                proof { lemma_session_wake_failed(addr, start, self.atecc.bus_log(), cmd, spec_error_kind(e)); }
                return Err(CryptoServiceError::Atecc(e));
            },
        }
        let ghost mid = self.atecc.bus_log();
        let v = match self.atecc.genkey_internal(GENKEY_MODE_CREATE, slot) {
            Ok(v) => v,
            Err(e) => {
                proof { lemma_session_command_failed(addr, start, mid, self.atecc.bus_log(), cmd, spec_error_kind(e)); }
                return Err(CryptoServiceError::Atecc(e));
            },
        };
        let ghost mid2 = self.atecc.bus_log();
        let c = idle(&mut self.atecc);
        proof { lemma_session_closed(addr, start, mid, mid2, self.atecc.bus_log(), cmd, v@, spec_unit_outcome(c)); }
        match c {
            Ok(()) => Ok(v),
            Err(e) => Err(CryptoServiceError::Atecc(e)),
        }
    }

    /// Read block `block` of data slot `slot`.
    pub fn read_slot_block(&mut self, slot: Slot, block: u8) -> (r: Result<[u8; BLOCK_SIZE], CryptoServiceError<H::Error>>)
        ensures
            final(self).clock_readings() == old(self).clock_readings(),
            Self::post_read_slot_block(*old(self), *final(self), slot, block, r),
    {
        let ghost start = self.atecc.bus_log();
        let ghost addr = self.atecc.address();
        let ghost cmd = rel_read_slot_block(addr, slot.index(), block);
        match wake(&mut self.atecc) {
            Ok(()) => {},
            Err(e) => {
                proof { lemma_session_wake_failed(addr, start, self.atecc.bus_log(), cmd, spec_error_kind(e)); }
                return Err(CryptoServiceError::Atecc(e));
            },
        }
        let ghost mid = self.atecc.bus_log();
        let v = match self.atecc.read_slot_block_command(slot, block) {
            Ok(v) => v,
            Err(e) => {
                proof { lemma_session_command_failed(addr, start, mid, self.atecc.bus_log(), cmd, spec_error_kind(e)); }
                return Err(CryptoServiceError::Atecc(e));
            },
        };
        let ghost mid2 = self.atecc.bus_log();
        let c = idle(&mut self.atecc);
        proof { lemma_session_closed(addr, start, mid, mid2, self.atecc.bus_log(), cmd, v@, spec_unit_outcome(c)); }
        match c {
            Ok(()) => Ok(v),
            Err(e) => Err(CryptoServiceError::Atecc(e)),
        }
    }

    /// Read word `offset_words` of block `block` of data slot `slot`.
    pub fn read_slot_word(&mut self, slot: Slot, block: u8, offset_words: u8) -> (r: Result<[u8; WORD_SIZE], CryptoServiceError<H::Error>>)
        ensures
            final(self).clock_readings() == old(self).clock_readings(),
            Self::post_read_slot_word(*old(self), *final(self), slot, block, offset_words, r),
    {
        let ghost start = self.atecc.bus_log();
        let ghost addr = self.atecc.address();
        let ghost cmd = rel_read_slot_word(addr, slot.index(), block, offset_words);
        match wake(&mut self.atecc) {
            Ok(()) => {},
            Err(e) => {
                proof { lemma_session_wake_failed(addr, start, self.atecc.bus_log(), cmd, spec_error_kind(e)); }
                return Err(CryptoServiceError::Atecc(e));
            },
        }
        let ghost mid = self.atecc.bus_log();
        let v = match self.atecc.read_slot_word_command(slot, block, offset_words) {
            Ok(v) => v,
            Err(e) => {
                proof { lemma_session_command_failed(addr, start, mid, self.atecc.bus_log(), cmd, spec_error_kind(e)); }
                return Err(CryptoServiceError::Atecc(e));
            },
        };
        let ghost mid2 = self.atecc.bus_log();
        let c = idle(&mut self.atecc);
        proof { lemma_session_closed(addr, start, mid, mid2, self.atecc.bus_log(), cmd, v@, spec_unit_outcome(c)); }
        match c {
            Ok(()) => Ok(v),
            Err(e) => Err(CryptoServiceError::Atecc(e)),
        }
    }

    /// Read one of the chip's monotonic counters.
    pub fn read_counter(&mut self, counter: CounterId) -> (r: Result<u32, CryptoServiceError<H::Error>>)
        ensures
            final(self).clock_readings() == old(self).clock_readings(),
            Self::post_read_counter(*old(self), *final(self), counter, r),
    {
        let ghost start = self.atecc.bus_log();
        let ghost addr = self.atecc.address();
        let ghost cmd = rel_counter_read(addr, counter);
        match wake(&mut self.atecc) {
            Ok(()) => {},
            Err(e) => {
                proof { lemma_session_wake_failed(addr, start, self.atecc.bus_log(), cmd, spec_error_kind(e)); }
                return Err(CryptoServiceError::Atecc(e));
            },
        }
        let ghost mid = self.atecc.bus_log();
        let v = match self.atecc.counter_internal(COUNTER_MODE_READ, counter) {
            Ok(v) => v,
            Err(e) => {
                proof { lemma_session_command_failed(addr, start, mid, self.atecc.bus_log(), cmd, spec_error_kind(e)); }
                return Err(CryptoServiceError::Atecc(e));
            },
        };
        let ghost mid2 = self.atecc.bus_log();
        let c = idle(&mut self.atecc);
        proof { lemma_session_closed(addr, start, mid, mid2, self.atecc.bus_log(), cmd, v, spec_unit_outcome(c)); }
        match c {
            Ok(()) => Ok(v),
            Err(e) => Err(CryptoServiceError::Atecc(e)),
        }
    }

    /// Ask the chip for 32 random bytes.
    fn session_random(&mut self) -> (r: Result<[u8; RANDOM_OUTPUT_LEN], CryptoServiceError<H::Error>>)
        ensures
            final(self).clock_readings() == old(self).clock_readings(),
            final(self).address() == old(self).address(),
            final(self).session_state() == old(self).session_state(),
            final(self).serial_cache() == old(self).serial_cache(),
            spec_extends(old(self).bus_log(), final(self).bus_log()),
            spec_is_driver_error(r),
            spec_session(old(self).address(), spec_delta(old(self).bus_log(), final(self).bus_log()),
                rel_random(old(self).address()), spec_driver_bytes(r)),
    {
        let ghost start = self.atecc.bus_log();
        let ghost addr = self.atecc.address();
        let ghost cmd = rel_random(addr);
        match wake(&mut self.atecc) {
            Ok(()) => {},
            Err(e) => {
                proof { lemma_session_wake_failed(addr, start, self.atecc.bus_log(), cmd, spec_error_kind(e)); }
                return Err(CryptoServiceError::Atecc(e));
            },
        }
        let ghost mid = self.atecc.bus_log();
        let v = match self.atecc.random_command() {
            Ok(v) => v,
            Err(e) => {
                proof { lemma_session_command_failed(addr, start, mid, self.atecc.bus_log(), cmd, spec_error_kind(e)); }
                return Err(CryptoServiceError::Atecc(e));
            },
        };
        let ghost mid2 = self.atecc.bus_log();
        let c = idle(&mut self.atecc);
        proof { lemma_session_closed(addr, start, mid, mid2, self.atecc.bus_log(), cmd, v@, spec_unit_outcome(c)); }
        match c {
            Ok(()) => Ok(v),
            Err(e) => Err(CryptoServiceError::Atecc(e)),
        }
    }

    /// Permanently lock the config zone; `expected_crc` is the zone's CRC as the caller
    /// read it. The channel is closed whether or not the chip accepted.
    pub fn lock_config_zone(&mut self, expected_crc: u16) -> (r: Result<(), CryptoServiceError<H::Error>>)
        ensures
            final(self).clock_readings() == old(self).clock_readings(),
            Self::post_lock_config_zone(*old(self), *final(self), expected_crc, r),
    {
        let ghost start = self.atecc.bus_log();
        let ghost addr = self.atecc.address();
        let ghost cmd = cmd_lock(addr, LOCK_MODE_CONFIG_ZONE_VERIFY_CRC, expected_crc);
        match wake(&mut self.atecc) {
            Ok(()) => {},
            Err(e) => {
                proof { lemma_closing_wake_failed(addr, start, self.atecc.bus_log(), cmd, spec_error_kind(e)); }
                return Err(CryptoServiceError::Atecc(e));
            },
        }
        let ghost mid = self.atecc.bus_log();
        let result = self.atecc.lock_command(LOCK_MODE_CONFIG_ZONE_VERIFY_CRC, expected_crc);
        let ghost mid2 = self.atecc.bus_log();
        let c = idle(&mut self.atecc);
        proof { lemma_closing_done(addr, start, mid, mid2, self.atecc.bus_log(), cmd, spec_unit_outcome(result), spec_unit_outcome(c)); }
        match c {
            Ok(()) => {},
            Err(e) => return Err(CryptoServiceError::Atecc(e)),
        }
        match result {
            Ok(()) => Ok(()),
            Err(e) => Err(CryptoServiceError::Atecc(e)),
        }
    }

    /// Permanently lock the data zone. The chip is asked to lock without a CRC
    /// check, so `_expected_crc` is not sent.
    pub fn lock_data_zone(&mut self, _expected_crc: u16) -> (r: Result<(), CryptoServiceError<H::Error>>)
        ensures
            final(self).clock_readings() == old(self).clock_readings(),
            Self::post_lock_data_zone(*old(self), *final(self), _expected_crc, r),
    {
        let ghost start = self.atecc.bus_log();
        let ghost addr = self.atecc.address();
        let ghost cmd = cmd_lock(addr, LOCK_MODE_DATA_ZONE_NO_CRC, 0);
        match wake(&mut self.atecc) {
            Ok(()) => {},
            Err(e) => {
                proof { lemma_closing_wake_failed(addr, start, self.atecc.bus_log(), cmd, spec_error_kind(e)); }
                return Err(CryptoServiceError::Atecc(e));
            },
        }
        let ghost mid = self.atecc.bus_log();
        let result = self.atecc.lock_command(LOCK_MODE_DATA_ZONE_NO_CRC, 0x0000);
        let ghost mid2 = self.atecc.bus_log();
        let c = idle(&mut self.atecc);
        proof { lemma_closing_done(addr, start, mid, mid2, self.atecc.bus_log(), cmd, spec_unit_outcome(result), spec_unit_outcome(c)); }
        match c {
            Ok(()) => {},
            Err(e) => return Err(CryptoServiceError::Atecc(e)),
        }
        match result {
            Ok(()) => Ok(()),
            Err(e) => Err(CryptoServiceError::Atecc(e)),
        }
    }

    /// Permanently lock one data slot.
    pub fn lock_slot(&mut self, slot: Slot) -> (r: Result<(), CryptoServiceError<H::Error>>)
        ensures
            final(self).clock_readings() == old(self).clock_readings(),
            Self::post_lock_slot(*old(self), *final(self), slot, r),
    {
        let ghost start = self.atecc.bus_log();
        let ghost addr = self.atecc.address();
        let ghost cmd = cmd_lock(addr, spec_lock_slot_mode(slot.index()), 0);
        match wake(&mut self.atecc) {
            Ok(()) => {},
            Err(e) => {
                proof { lemma_closing_wake_failed(addr, start, self.atecc.bus_log(), cmd, spec_error_kind(e)); }
                return Err(CryptoServiceError::Atecc(e));
            },
        }
        let ghost mid = self.atecc.bus_log();
        let mode = lock_slot_mode(slot);
        let result = self.atecc.lock_command(mode, 0x0000);
        let ghost mid2 = self.atecc.bus_log();
        let c = idle(&mut self.atecc);
        proof { lemma_closing_done(addr, start, mid, mid2, self.atecc.bus_log(), cmd, spec_unit_outcome(result), spec_unit_outcome(c)); }
        match c {
            Ok(()) => {},
            Err(e) => return Err(CryptoServiceError::Atecc(e)),
        }
        match result {
            Ok(()) => Ok(()),
            Err(e) => Err(CryptoServiceError::Atecc(e)),
        }
    }
    /// Read the whole config zone.
    fn session_config(&mut self) -> (r: Result<[u8; 128], CryptoServiceError<H::Error>>)
        ensures
            final(self).clock_readings() == old(self).clock_readings(),
            final(self).address() == old(self).address(),
            final(self).session_state() == old(self).session_state(),
            final(self).serial_cache() == old(self).serial_cache(),
            spec_extends(old(self).bus_log(), final(self).bus_log()),
            spec_is_driver_error(r),
            spec_session(old(self).address(), spec_delta(old(self).bus_log(), final(self).bus_log()),
                rel_config_zone(old(self).address()), spec_driver_bytes(r)),
    {
        let ghost start = self.atecc.bus_log();
        let ghost addr = self.atecc.address();
        let ghost cmd = rel_config_zone(addr);
        match wake(&mut self.atecc) {
            Ok(()) => {},
            Err(e) => {
                proof { lemma_session_wake_failed(addr, start, self.atecc.bus_log(), cmd, spec_error_kind(e)); }
                return Err(CryptoServiceError::Atecc(e));
            },
        }
        let ghost mid = self.atecc.bus_log();
        let v = match { let mut zone = [0u8; 128]; match self.atecc.read_config_zone_command(&mut zone) { Ok(()) => Ok(zone), Err(e) => Err(e) } } {
            Ok(v) => v,
            Err(e) => {
                proof { lemma_session_command_failed(addr, start, mid, self.atecc.bus_log(), cmd, spec_error_kind(e)); }
                return Err(CryptoServiceError::Atecc(e));
            },
        };
        let ghost mid2 = self.atecc.bus_log();
        let c = idle(&mut self.atecc);
        proof { lemma_session_closed(addr, start, mid, mid2, self.atecc.bus_log(), cmd, v@, spec_unit_outcome(c)); }
        match c {
            Ok(()) => Ok(v),
            Err(e) => Err(CryptoServiceError::Atecc(e)),
        }
    }

    /// Load `digest` and sign it with the key of `slot`.
    fn session_sign(&mut self, slot: Slot, digest: &[u8; 32]) -> (r: Result<[u8; SIGNATURE_SIZE], CryptoServiceError<H::Error>>)
        ensures
            final(self).clock_readings() == old(self).clock_readings(),
            final(self).address() == old(self).address(),
            final(self).session_state() == old(self).session_state(),
            final(self).serial_cache() == old(self).serial_cache(),
            spec_extends(old(self).bus_log(), final(self).bus_log()),
            spec_is_driver_error(r),
            spec_session(old(self).address(), spec_delta(old(self).bus_log(), final(self).bus_log()),
                rel_sign(old(self).address(), digest@, slot.index()), spec_driver_bytes(r)),
    {
        let ghost start = self.atecc.bus_log();
        let ghost addr = self.atecc.address();
        let ghost cmd = rel_sign(addr, digest@, slot.index());
        match wake(&mut self.atecc) {
            Ok(()) => {},
            Err(e) => {
                proof { lemma_session_wake_failed(addr, start, self.atecc.bus_log(), cmd, spec_error_kind(e)); }
                return Err(CryptoServiceError::Atecc(e));
            },
        }
        let ghost mid = self.atecc.bus_log();
        let v = match self.atecc.sign_digest_command(slot, digest) {
            Ok(v) => v,
            Err(e) => {
                proof { lemma_session_command_failed(addr, start, mid, self.atecc.bus_log(), cmd, spec_error_kind(e)); }
                return Err(CryptoServiceError::Atecc(e));
            },
        };
        let ghost mid2 = self.atecc.bus_log();
        let c = idle(&mut self.atecc);
        proof { lemma_session_closed(addr, start, mid, mid2, self.atecc.bus_log(), cmd, v@, spec_unit_outcome(c)); }
        match c {
            Ok(()) => Ok(v),
            Err(e) => Err(CryptoServiceError::Atecc(e)),
        }
    }

    /// Encrypted write of `plaintext` to block 0 of `target_slot`.
    fn session_write_encrypted(&mut self, target_slot: Slot, plaintext: &[u8; SLOT_VALUE_LEN], io_key: &[u8; SLOT_VALUE_LEN], chip_serial: &[u8; CHIP_SERIAL_LEN]) -> (r: Result<(), CryptoServiceError<H::Error>>)
        ensures
            final(self).clock_readings() == old(self).clock_readings(),
            final(self).address() == old(self).address(),
            final(self).session_state() == old(self).session_state(),
            final(self).serial_cache() == old(self).serial_cache(),
            spec_extends(old(self).bus_log(), final(self).bus_log()),
            spec_is_driver_error(r),
            spec_session(old(self).address(), spec_delta(old(self).bus_log(), final(self).bus_log()),
                rel_encrypted_write(old(self).address(), target_slot.index(), plaintext@, io_key@, chip_serial@), spec_driver_outcome(r)),
    {
        let ghost start = self.atecc.bus_log();
        let ghost addr = self.atecc.address();
        let ghost cmd = rel_encrypted_write(addr, target_slot.index(), plaintext@, io_key@, chip_serial@);
        match wake(&mut self.atecc) {
            Ok(()) => {},
            Err(e) => {
                proof { lemma_session_wake_failed(addr, start, self.atecc.bus_log(), cmd, spec_error_kind(e)); }
                return Err(CryptoServiceError::Atecc(e));
            },
        }
        let ghost mid = self.atecc.bus_log();
        let v = match self.atecc.encrypted_write_command(target_slot, plaintext, io_key, chip_serial) {
            Ok(v) => v,
            Err(e) => {
                proof { lemma_session_command_failed(addr, start, mid, self.atecc.bus_log(), cmd, spec_error_kind(e)); }
                return Err(CryptoServiceError::Atecc(e));
            },
        };
        let ghost mid2 = self.atecc.bus_log();
        let c = idle(&mut self.atecc);
        proof { lemma_session_closed(addr, start, mid, mid2, self.atecc.bus_log(), cmd, v, spec_unit_outcome(c)); }
        match c {
            Ok(()) => Ok(v),
            Err(e) => Err(CryptoServiceError::Atecc(e)),
        }
    }

    /// Read Counter0 and Counter1.
    fn session_two_counters(&mut self) -> (r: Result<(u32, u32), CryptoServiceError<H::Error>>)
        ensures
            final(self).clock_readings() == old(self).clock_readings(),
            final(self).address() == old(self).address(),
            final(self).session_state() == old(self).session_state(),
            final(self).serial_cache() == old(self).serial_cache(),
            spec_extends(old(self).bus_log(), final(self).bus_log()),
            spec_is_driver_error(r),
            spec_session(old(self).address(), spec_delta(old(self).bus_log(), final(self).bus_log()),
                rel_two_counters(old(self).address()), spec_driver_outcome(r)),
    {
        let ghost start = self.atecc.bus_log();
        let ghost addr = self.atecc.address();
        let ghost cmd = rel_two_counters(addr);
        match wake(&mut self.atecc) {
            Ok(()) => {},
            Err(e) => {
                proof { lemma_session_wake_failed(addr, start, self.atecc.bus_log(), cmd, spec_error_kind(e)); }
                return Err(CryptoServiceError::Atecc(e));
            },
        }
        let ghost mid = self.atecc.bus_log();
        let v = match self.atecc.two_counters_command() {
            Ok(v) => v,
            Err(e) => {
                proof { lemma_session_command_failed(addr, start, mid, self.atecc.bus_log(), cmd, spec_error_kind(e)); }
                return Err(CryptoServiceError::Atecc(e));
            },
        };
        let ghost mid2 = self.atecc.bus_log();
        let c = idle(&mut self.atecc);
        proof { lemma_session_closed(addr, start, mid, mid2, self.atecc.bus_log(), cmd, v, spec_unit_outcome(c)); }
        match c {
            Ok(()) => Ok(v),
            Err(e) => Err(CryptoServiceError::Atecc(e)),
        }
    }

    /// Cleartext write of `value` to block 0 of data slot `slot`.
    fn session_write_block(&mut self, slot: Slot, value: &[u8; 32]) -> (r: Result<(), CryptoServiceError<H::Error>>)
        ensures
            final(self).clock_readings() == old(self).clock_readings(),
            final(self).address() == old(self).address(),
            final(self).session_state() == old(self).session_state(),
            final(self).serial_cache() == old(self).serial_cache(),
            spec_extends(old(self).bus_log(), final(self).bus_log()),
            spec_is_driver_error(r),
            spec_session(old(self).address(), spec_delta(old(self).bus_log(), final(self).bus_log()),
                rel_write_data_block(old(self).address(), slot.index(), value@), spec_driver_outcome(r)),
    {
        let ghost start = self.atecc.bus_log();
        let ghost addr = self.atecc.address();
        let ghost cmd = rel_write_data_block(addr, slot.index(), value@);
        match wake(&mut self.atecc) {
            Ok(()) => {},
            Err(e) => {
                proof { lemma_session_wake_failed(addr, start, self.atecc.bus_log(), cmd, spec_error_kind(e)); }
                return Err(CryptoServiceError::Atecc(e));
            },
        }
        let ghost mid = self.atecc.bus_log();
        let v = match self.atecc.write_slot_block_command(slot, 0, value) {
            Ok(v) => v,
            Err(e) => {
                proof { lemma_session_command_failed(addr, start, mid, self.atecc.bus_log(), cmd, spec_error_kind(e)); }
                return Err(CryptoServiceError::Atecc(e));
            },
        };
        let ghost mid2 = self.atecc.bus_log();
        let c = idle(&mut self.atecc);
        proof { lemma_session_closed(addr, start, mid, mid2, self.atecc.bus_log(), cmd, v, spec_unit_outcome(c)); }
        match c {
            Ok(()) => Ok(v),
            Err(e) => Err(CryptoServiceError::Atecc(e)),
        }
    }

    /// Generate new keys in each of `slots`.
    fn session_genkeys(&mut self, slots: &[u8]) -> (r: Result<(), CryptoServiceError<H::Error>>)
        requires
            forall|i: int| 0 <= i < slots@.len() ==> slots@[i] < 16,
        ensures
            final(self).clock_readings() == old(self).clock_readings(),
            final(self).address() == old(self).address(),
            final(self).session_state() == old(self).session_state(),
            final(self).serial_cache() == old(self).serial_cache(),
            spec_extends(old(self).bus_log(), final(self).bus_log()),
            spec_is_driver_error(r),
            spec_session(old(self).address(), spec_delta(old(self).bus_log(), final(self).bus_log()),
                rel_genkeys(old(self).address(), slots@), spec_driver_outcome(r)),
    {
        let ghost start = self.atecc.bus_log();
        let ghost addr = self.atecc.address();
        let ghost cmd = rel_genkeys(addr, slots@);
        assert(slots@.skip(0) =~= slots@);
        match wake(&mut self.atecc) {
            Ok(()) => {},
            Err(e) => {
                proof { lemma_session_wake_failed(addr, start, self.atecc.bus_log(), cmd, spec_error_kind(e)); }
                return Err(CryptoServiceError::Atecc(e));
            },
        }
        let ghost mid = self.atecc.bus_log();
        let v = match self.atecc.genkeys_command(slots, 0) {
            Ok(v) => v,
            Err(e) => {
                proof { lemma_session_command_failed(addr, start, mid, self.atecc.bus_log(), cmd, spec_error_kind(e)); }
                return Err(CryptoServiceError::Atecc(e));
            },
        };
        let ghost mid2 = self.atecc.bus_log();
        let c = idle(&mut self.atecc);
        proof { lemma_session_closed(addr, start, mid, mid2, self.atecc.bus_log(), cmd, v, spec_unit_outcome(c)); }
        match c {
            Ok(()) => Ok(v),
            Err(e) => Err(CryptoServiceError::Atecc(e)),
        }
    }


    /// Prove to the chip knowledge of `expected_slot_value` for `slot`:
    /// fetch a challenge, compute the response, and have the chip check it.
    fn checkmac_with_hash(
        &mut self,
        slot: Slot,
        expected_slot_value: &[u8; HASH_LEN],
        serial: &[u8; CHIP_SERIAL_LEN],
    ) -> (r: Result<bool, CryptoServiceError<H::Error>>)
        ensures
            final(self).clock_readings() == old(self).clock_readings(),
            final(self).address() == old(self).address(),
            final(self).session_state() == old(self).session_state(),
            final(self).serial_cache() == old(self).serial_cache(),
            spec_extends(old(self).bus_log(), final(self).bus_log()),
            spec_is_driver_error(r),
            spec_checkmac_with_hash(old(self).address(), slot.index(), expected_slot_value@, serial@,
                spec_delta(old(self).bus_log(), final(self).bus_log()), spec_driver_outcome(r)),
    {
        let ghost start = self.atecc.bus_log();
        let ghost addr = self.atecc.address();
        match wake(&mut self.atecc) {
            Ok(()) => {},
            Err(e) => return Err(CryptoServiceError::Atecc(e)),
        }
        let ghost mid = self.atecc.bus_log();
        let challenge = match self.atecc.random_command() {
            Ok(c) => c,
            Err(e) => {
                proof {
                    lemma_extends_trans(start, mid, self.atecc.bus_log());
                    let d = spec_delta(start, self.atecc.bus_log());
                    let k = spec_delta(start, mid).len() as int;
                    assert(d.take(k) =~= spec_delta(start, mid));
                    assert(d.skip(k) =~= spec_delta(mid, self.atecc.bus_log()));
                }
                return Err(CryptoServiceError::Atecc(e));
            },
        };
        let ghost mid2 = self.atecc.bus_log();
        let other_data = checkmac_other_data(slot.as_u8(), serial);
        let response = checkmac_response(expected_slot_value, &challenge, &other_data, serial);
        let result = self.atecc.checkmac_command(slot, &challenge, &response, &other_data);
        let ghost mid3 = self.atecc.bus_log();
        let c = idle(&mut self.atecc);
        proof {
            lemma_extends_trans(start, mid, mid2);
            lemma_extends_trans(start, mid2, mid3);
            lemma_extends_trans(mid, mid2, mid3);
            lemma_delta_within(start, mid, mid2, mid3);
            lemma_delta_within(start, mid2, mid3, self.atecc.bus_log());
            lemma_delta_within(start, mid, mid3, self.atecc.bus_log());
            let d = spec_delta(start, self.atecc.bus_log());
            let k1 = spec_delta(start, mid).len() as int;
            let k2 = spec_delta(start, mid2).len() as int;
            let k3 = spec_delta(start, mid3).len() as int;
            assert(d.take(k1) =~= spec_delta(start, mid));
            assert(d.subrange(k1, k2) =~= spec_delta(mid, mid2));
            assert(d.subrange(k2, k3) =~= spec_delta(mid2, mid3));
            assert(d.skip(k3) =~= spec_delta(mid3, self.atecc.bus_log()));
        }
        match c {
            Ok(()) => {},
            Err(e) => return Err(CryptoServiceError::Atecc(e)),
        }
        match result {
            Ok(b) => Ok(b),
            Err(e) => Err(CryptoServiceError::Atecc(e)),
        }
    }

    /// Give `counter` a fresh batch of `batch_size` attempts: read it and
    /// increment it to the first position of the next batch. A counter at
    /// its maximum is left there, and the result is then `Ok(false)`.
    fn refresh_counter_batch(&mut self, counter: CounterId, batch_size: u8) -> (r: Result<bool, CryptoServiceError<H::Error>>)
        requires
            batch_size > 0,
        ensures
            final(self).clock_readings() == old(self).clock_readings(),
            final(self).address() == old(self).address(),
            final(self).session_state() == old(self).session_state(),
            final(self).serial_cache() == old(self).serial_cache(),
            spec_extends(old(self).bus_log(), final(self).bus_log()),
            spec_is_driver_error(r),
            spec_refresh(old(self).address(), counter, batch_size, spec_delta(old(self).bus_log(), final(self).bus_log()),
                spec_driver_outcome(r)),
    {
        let ghost start = self.atecc.bus_log();
        let ghost addr = self.atecc.address();
        match wake(&mut self.atecc) {
            Ok(()) => {},
            Err(e) => return Err(CryptoServiceError::Atecc(e)),
        }
        let ghost mid = self.atecc.bus_log();
        let current = match self.atecc.counter_internal(COUNTER_MODE_READ, counter) {
            Ok(c) => c,
            Err(e) => {
                proof {
                    lemma_extends_trans(start, mid, self.atecc.bus_log());
                    let d = spec_delta(start, self.atecc.bus_log());
                    let k = spec_delta(start, mid).len() as int;
                    assert(d.take(k) =~= spec_delta(start, mid));
                    assert(d.skip(k) =~= spec_delta(mid, self.atecc.bus_log()));
                }
                return Err(CryptoServiceError::Atecc(e));
            },
        };
        let ghost mid2 = self.atecc.bus_log();
        let bumps = counter_bumps(current, batch_size);
        let inc = self.atecc.increment_times(counter, bumps);
        let ghost mid3 = self.atecc.bus_log();
        let c = idle(&mut self.atecc);
        proof {
            lemma_extends_trans(start, mid, mid2);
            lemma_extends_trans(start, mid2, mid3);
            lemma_extends_trans(mid, mid2, mid3);
            lemma_delta_within(start, mid, mid2, mid3);
            lemma_delta_within(start, mid2, mid3, self.atecc.bus_log());
            lemma_delta_within(start, mid, mid3, self.atecc.bus_log());
            let d = spec_delta(start, self.atecc.bus_log());
            let k1 = spec_delta(start, mid).len() as int;
            let k2 = spec_delta(start, mid2).len() as int;
            let k3 = spec_delta(start, mid3).len() as int;
            assert(d.take(k1) =~= spec_delta(start, mid));
            assert(d.subrange(k1, k2) =~= spec_delta(mid, mid2));
            assert(d.subrange(k2, k3) =~= spec_delta(mid2, mid3));
            assert(d.skip(k3) =~= spec_delta(mid3, self.atecc.bus_log()));
            assert(spec_increments(addr, counter, spec_counter_bumps(current, batch_size) as nat, d.subrange(k2, k3), spec_bool_outcome(inc)));
        }
        match inc {
            Ok(full) => match c {
                Ok(()) => Ok(full),
                Err(e) => Err(CryptoServiceError::Atecc(e)),
            },
            Err(e) => Err(CryptoServiceError::Atecc(e)),
        }
    }

    /// The chip serial number: from the cache, or read from the config
    /// zone once and cached.
    fn cached_serial(&mut self) -> (r: Result<[u8; CHIP_SERIAL_LEN], CryptoServiceError<H::Error>>)
        ensures
            final(self).clock_readings() == old(self).clock_readings(),
            final(self).address() == old(self).address(),
            final(self).session_state() == old(self).session_state(),
            spec_extends(old(self).bus_log(), final(self).bus_log()),
            spec_is_driver_error(r),
            r matches Ok(v) ==> final(self).serial_cache() == Some(v@),
            r is Err ==> final(self).serial_cache() == old(self).serial_cache(),
            old(self).serial_cache() matches Some(s) ==> (r matches Ok(v) && v@ == s
                && spec_delta(old(self).bus_log(), final(self).bus_log()).len() == 0),
            old(self).serial_cache() is None ==> exists|o: Result<Seq<u8>, AteccErrorKind>|
                #[trigger] spec_session(old(self).address(), spec_delta(old(self).bus_log(), final(self).bus_log()),
                    rel_config_zone(old(self).address()), o)
                && match o {
                    Ok(cfg) => r matches Ok(v) && v@ == spec_serial_from_config(cfg),
                    Err(e) => spec_driver_outcome(r) == Err::<[u8; CHIP_SERIAL_LEN], AteccErrorKind>(e),
                },
            step_serial(old(self).address(), old(self).serial_cache())(
                spec_delta(old(self).bus_log(), final(self).bus_log()), spec_driver_bytes(r)),
    {
        proof { lemma_extends_refl(self.atecc.bus_log()); }
        if let Some(serial) = self.serial {
            return Ok(serial);
        }
        let ghost start = self.atecc.bus_log();
        let ghost addr = self.atecc.address();
        let res = self.session_config();
        proof {
            assert(spec_session(addr, spec_delta(start, self.atecc.bus_log()), rel_config_zone(addr), spec_driver_bytes(res)));
        }
        let config = match res {
            Ok(c) => c,
            Err(e) => return Err(e),
        };
        let serial = serial_from_config(&config);
        self.serial = Some(serial);
        proof {
            assert(spec_session(addr, spec_delta(start, self.atecc.bus_log()), rel_config_zone(addr),
                Ok::<Seq<u8>, AteccErrorKind>(config@)));
            assert(old(self).address() == addr);
            assert(old(self).bus_log() == start);
            assert(self.bus_log() == self.atecc.bus_log());
            assert(serial@ == spec_serial_from_config(config@));
        }
        Ok(serial)
    }

    /// Whether both the config zone and the data zone are locked.
    fn is_provisioned(&mut self) -> (r: Result<bool, CryptoServiceError<H::Error>>)
        ensures
            final(self).clock_readings() == old(self).clock_readings(),
            final(self).address() == old(self).address(),
            final(self).session_state() == old(self).session_state(),
            final(self).serial_cache() == old(self).serial_cache(),
            spec_extends(old(self).bus_log(), final(self).bus_log()),
            spec_is_driver_error(r),
            exists|o: Result<Seq<u8>, AteccErrorKind>|
                #[trigger] spec_session(old(self).address(), spec_delta(old(self).bus_log(), final(self).bus_log()),
                    rel_config_zone(old(self).address()), o)
                && match o {
                    Ok(cfg) => r == Ok::<bool, CryptoServiceError<H::Error>>(spec_provisioned(cfg)),
                    Err(e) => spec_driver_outcome(r) == Err::<bool, AteccErrorKind>(e),
                },
            step_provisioned(old(self).address())(spec_delta(old(self).bus_log(), final(self).bus_log()), spec_driver_outcome(r)),
    {
        let config = match self.session_config() {
            Ok(c) => c,
            Err(e) => return Err(e),
        };
        Ok(provisioned_from_config(&config))
    }

    /// The configuration bytes of `slot`: its `SlotConfig` and
    /// `KeyConfig` words, read from the config zone.
    pub fn read_config_slot(&mut self, slot: Slot) -> (r: Result<[u8; 4], CryptoServiceError<H::Error>>)
        ensures
            final(self).clock_readings() == old(self).clock_readings(),
            Self::post_read_config_slot(*old(self), *final(self), slot, r),
    {
        let config = match self.session_config() {
            Ok(c) => c,
            Err(e) => return Err(e),
        };
        Ok(slot_config_from_config(&config, slot))
    }

    /// Config block `block` (0 to 3), read from the config zone. A block
    /// above 3 is refused without touching the chip.
    pub fn read_config_block(&mut self, block: u8) -> (r: Result<[u8; 32], CryptoServiceError<H::Error>>)
        ensures
            final(self).clock_readings() == old(self).clock_readings(),
            Self::post_read_config_block(*old(self), *final(self), block, r),
    {
        if block > 3 {
            proof { lemma_extends_refl(self.atecc.bus_log()); }
            return Err(CryptoServiceError::InvalidFormat(FormatError::OutOfRange));
        }
        let config = match self.session_config() {
            Ok(c) => c,
            Err(e) => return Err(e),
        };
        Ok(config_block_from_config(&config, block))
    }

    /// Eight decimal digits drawn from the chip's RNG.
    fn generate_random_puk(&mut self) -> (r: Result<[u8; 8], CryptoServiceError<H::Error>>)
        ensures
            final(self).clock_readings() == old(self).clock_readings(),
            final(self).address() == old(self).address(),
            final(self).session_state() == old(self).session_state(),
            final(self).serial_cache() == old(self).serial_cache(),
            spec_extends(old(self).bus_log(), final(self).bus_log()),
            spec_is_driver_error(r),
            exists|o: Result<Seq<u8>, AteccErrorKind>|
                #[trigger] spec_session(old(self).address(), spec_delta(old(self).bus_log(), final(self).bus_log()),
                    rel_random(old(self).address()), o)
                && match o {
                    Ok(rnd) => r matches Ok(v) && v@ == spec_puk_from_random(rnd),
                    Err(e) => spec_driver_outcome(r) == Err::<[u8; 8], AteccErrorKind>(e),
                },
            r matches Ok(v) ==> all_digits(v@),
            step_random_puk(old(self).address())(spec_delta(old(self).bus_log(), final(self).bus_log()), spec_driver_bytes(r)),
    {
        let random = match self.session_random() {
            Ok(v) => v,
            Err(e) => return Err(e),
        };
        proof { lemma_puk_digits(random@); }
        Ok(puk_from_random(&random))
    }

    /// Write `value` in cleartext into block 0 of `slot`, which must be
    /// the PIN, PUK or I/O key slot; any other slot is refused without
    /// touching the chip.
    pub fn provision_slot(&mut self, slot: Slot, value: &[u8; 32]) -> (r: Result<(), CryptoServiceError<H::Error>>)
        ensures
            final(self).clock_readings() == old(self).clock_readings(),
            Self::post_provision_slot(*old(self), *final(self), slot, value, r),
    {
        let s = slot.as_u8();
        let allowed = s == SLOT_PIN_HASH_INDEX || s == SLOT_PUK_HASH_INDEX || s == SLOT_IO_KEY_INDEX;
        if !allowed {
            proof { lemma_extends_refl(self.atecc.bus_log()); }
            return Err(CryptoServiceError::InvalidSlot { slot });
        }
        self.session_write_block(slot, value)
    }

    /// Provision a random PUK: its hash goes into the PUK slot, and the
    /// PUK itself is returned once, to be shown to the user.
    pub fn provision_initial_puk(&mut self) -> (r: Result<[u8; PUK_LEN], CryptoServiceError<H::Error>>)
        ensures
            final(self).clock_readings() == old(self).clock_readings(),
            Self::post_provision_initial_puk(*old(self), *final(self), r),
    {
        let ghost start = self.atecc.bus_log();
        let ghost addr = self.atecc.address();
        let ghost cache = self.serial_cache();
        let serial = match self.cached_serial() {
            Ok(s) => s,
            Err(e) => {
                let res: Result<[u8; PUK_LEN], CryptoServiceError<H::Error>> = Err(e);
                proof {
                    lemma_bind_err(start, self.atecc.bus_log(), step_serial(addr, cache), spec_fails_with(res),
                        k_provision_puk_serial(addr, res), spec_error_kind(e->Atecc_0));
                }
                return res;
            },
        };
        let ghost m1 = self.atecc.bus_log();
        let new_puk = match self.generate_random_puk() {
            Ok(p) => p,
            Err(e) => {
                let res: Result<[u8; PUK_LEN], CryptoServiceError<H::Error>> = Err(e);
                proof {
                    let end = self.atecc.bus_log();
                    lemma_extends_trans(start, m1, end);
                    lemma_bind_err(m1, end, step_random_puk(addr), spec_fails_with(res),
                        k_provision_puk(addr, serial@, res), spec_error_kind(e->Atecc_0));
                    lemma_bind_ok(start, m1, end, step_serial(addr, cache), spec_fails_with(res),
                        k_provision_puk_serial(addr, res), serial@);
                }
                return res;
            },
        };
        let ghost m2 = self.atecc.bus_log();
        proof { lemma_extends_trans(start, m1, m2); }
        let salt = puk_salt(&serial);
        let hash = puk_hash(new_puk, &salt);
        let w = self.provision_slot(slot_puk_hash(), &hash);
        let ghost wv = w;
        let res: Result<[u8; PUK_LEN], CryptoServiceError<H::Error>> = match w {
            Ok(()) => Ok(new_puk),
            Err(e) => Err(e),
        };
        proof {
            let end = self.atecc.bus_log();
            lemma_extends_trans(start, m2, end);
            lemma_extends_trans(m1, m2, end);
            let wstep = step_write_block(addr, SLOT_PUK_HASH_INDEX, spec_code_hash(new_puk@, spec_puk_salt(serial@)));
            if wv is Ok {
                lemma_ends_with(start, m2, end, |d: Seq<HalOp>| spec_session(addr, d,
                    rel_write_data_block(addr, SLOT_PUK_HASH_INDEX, spec_code_hash(new_puk@, spec_puk_salt(serial@))),
                    Ok::<(), AteccErrorKind>(())));
                lemma_bind_last(m2, end, wstep, spec_fails_with(res), k_ok_bytes(new_puk@, res), ());
            } else {
                lemma_bind_err(m2, end, wstep, spec_fails_with(res), k_ok_bytes(new_puk@, res), spec_error_kind(wv->Err_0->Atecc_0));
            }
            lemma_bind_ok(m1, m2, end, step_random_puk(addr), spec_fails_with(res), k_provision_puk(addr, serial@, res), new_puk@);
            lemma_bind_ok(start, m1, end, step_serial(addr, cache), spec_fails_with(res), k_provision_puk_serial(addr, res), serial@);
        }
        res
    }

    /// Provision the factory PIN `"0000"`: its hash goes into the PIN slot.
    pub fn provision_initial_pin(&mut self) -> (r: Result<(), CryptoServiceError<H::Error>>)
        ensures
            final(self).clock_readings() == old(self).clock_readings(),
            Self::post_provision_initial_pin(*old(self), *final(self), r),
    {
        let ghost start = self.atecc.bus_log();
        let ghost addr = self.atecc.address();
        let ghost cache = self.serial_cache();
        let serial = match self.cached_serial() {
            Ok(s) => s,
            Err(e) => {
                let res: Result<(), CryptoServiceError<H::Error>> = Err(e);
                proof {
                    lemma_bind_err(start, self.atecc.bus_log(), step_serial(addr, cache), spec_fails_with(res),
                        k_provision_pin(addr, res), spec_error_kind(e->Atecc_0));
                }
                return res;
            },
        };
        let salt = pin_salt(&serial);
        let hash = pin_hash(pin_default(), &salt);
        let ghost mid = self.atecc.bus_log();
        let r = self.provision_slot(slot_pin_hash(), &hash);
        proof {
            let end = self.atecc.bus_log();
            lemma_extends_trans(start, mid, end);
            let wstep = step_write_block(addr, SLOT_PIN_HASH_INDEX, spec_code_hash(spec_pin_default(), spec_pin_salt(serial@)));
            if r is Ok {
                lemma_ends_with(start, mid, end, |d: Seq<HalOp>| spec_session(addr, d,
                    rel_write_data_block(addr, SLOT_PIN_HASH_INDEX, spec_code_hash(spec_pin_default(), spec_pin_salt(serial@))),
                    Ok::<(), AteccErrorKind>(())));
                lemma_bind_last(mid, end, wstep, spec_fails_with(r), k_ok_any::<(), (), H::Error>(r), ());
            } else {
                lemma_bind_err(mid, end, wstep, spec_fails_with(r), k_ok_any::<(), (), H::Error>(r), spec_error_kind(r->Err_0->Atecc_0));
            }
            lemma_bind_ok(start, mid, end, step_serial(addr, cache), spec_fails_with(r), k_provision_pin(addr, r), serial@);
        }
        r
    }

    /// Provision a random I/O protection key into its slot; the key is
    /// returned once, for the host to keep.
    pub fn provision_initial_io_key(&mut self) -> (r: Result<[u8; SLOT_VALUE_LEN], CryptoServiceError<H::Error>>)
        ensures
            final(self).clock_readings() == old(self).clock_readings(),
            Self::post_provision_initial_io_key(*old(self), *final(self), r),
    {
        let ghost start = self.atecc.bus_log();
        let ghost addr = self.atecc.address();
        let io_key = match self.session_random() {
            Ok(k) => k,
            Err(e) => {
                let res: Result<[u8; SLOT_VALUE_LEN], CryptoServiceError<H::Error>> = Err(e);
                proof {
                    lemma_bind_err(start, self.atecc.bus_log(), step_random(addr), spec_fails_with(res),
                        k_provision_io_key(addr, res), spec_error_kind(e->Atecc_0));
                }
                return res;
            },
        };
        let ghost mid = self.atecc.bus_log();
        let w = self.provision_slot(slot_io_key(), &io_key);
        let ghost wv = w;
        let res: Result<[u8; SLOT_VALUE_LEN], CryptoServiceError<H::Error>> = match w {
            Ok(()) => Ok(io_key),
            Err(e) => Err(e),
        };
        proof {
            let end = self.atecc.bus_log();
            lemma_extends_trans(start, mid, end);
            let wstep = step_write_block(addr, SLOT_IO_KEY_INDEX, io_key@);
            if wv is Ok {
                lemma_ends_with(start, mid, end, |d: Seq<HalOp>| spec_session(addr, d,
                    rel_write_data_block(addr, SLOT_IO_KEY_INDEX, io_key@), Ok::<(), AteccErrorKind>(())));
                lemma_bind_last(mid, end, wstep, spec_fails_with(res), k_ok_bytes(io_key@, res), ());
            } else {
                lemma_bind_err(mid, end, wstep, spec_fails_with(res), k_ok_bytes(io_key@, res), spec_error_kind(wv->Err_0->Atecc_0));
            }
            lemma_bind_ok(start, mid, end, step_random(addr), spec_fails_with(res), k_provision_io_key(addr, res), io_key@);
        }
        res
    }

    /// Close the PIN session.
    pub fn close_session(&mut self)
        ensures
            final(self).clock_readings() == old(self).clock_readings(),
            final(self).address() == old(self).address(),
            final(self).bus_log() == old(self).bus_log(),
            final(self).serial_cache() == old(self).serial_cache(),
            final(self).session_state() == None::<u64>,
    {
        self.session.close();
    }

    /// Whether the PIN session is active now, by the service's clock.
    pub fn is_session_active(&self) -> (r: bool)
        ensures
            exists|now: u64| r == spec_active_at(self.session_state(), now),
    {
        let now = self.clock.now_ms();
        self.session.is_active(now)
    }

    /// Check `pin` against the PIN hash on the chip. On success the PIN
    /// attempts get a fresh batch and a session opens. A malformed PIN is
    /// refused before any chip access; a blocked PIN is refused after
    /// reading its counter; a wrong PIN reports the attempts left.
    pub fn verify_pin(&mut self, pin: &[u8; PIN_LEN]) -> (r: Result<(), CryptoServiceError<H::Error>>)
        ensures
            Self::post_verify_pin(*old(self), *final(self), pin, r),
    {
        let ghost start = self.atecc.bus_log();
        let ghost addr = self.atecc.address();
        let ghost cache = self.serial_cache();
        proof { lemma_extends_refl(start); }
        match validate_digits(pin) {
            Ok(()) => {},
            Err(e) => return Err(CryptoServiceError::InvalidFormat(e)),
        }
        let count = match self.read_counter(CounterId::Counter0) {
            Ok(c) => c,
            Err(e) => {
                let res: Result<(), CryptoServiceError<H::Error>> = Err(e);
                proof {
                    lemma_bind_err(start, self.atecc.bus_log(), step_counter(addr, CounterId::Counter0), spec_fails_with(res),
                        k_verify_count(addr, pin@, self.serial_cache(), res), spec_error_kind(e->Atecc_0));
                }
                return res;
            },
        };
        let ghost m1 = self.atecc.bus_log();
        let tries_left = retries_remaining(count, PIN_MAX_RETRIES);
        if tries_left == 0 {
            let res: Result<(), CryptoServiceError<H::Error>> = Err(CryptoServiceError::PinBlocked);
            proof {
                assert(spec_counter_session(addr, CounterId::Counter0, spec_delta(start, self.atecc.bus_log()), count));
                lemma_bind_last(start, m1, step_counter(addr, CounterId::Counter0), spec_fails_with(res),
                    k_verify_count(addr, pin@, self.serial_cache(), res), count);
            }
            return res;
        }
        let serial = match self.cached_serial() {
            Ok(s) => s,
            Err(e) => {
                let res: Result<(), CryptoServiceError<H::Error>> = Err(e);
                proof {
                    lemma_extends_trans(start, m1, self.atecc.bus_log());
                    lemma_bind_err(m1, self.atecc.bus_log(), step_serial(addr, cache), spec_fails_with(res),
                        k_verify_serial(addr, pin@, res), spec_error_kind(e->Atecc_0));
                    lemma_bind_ok(start, m1, self.atecc.bus_log(), step_counter(addr, CounterId::Counter0), spec_fails_with(res),
                        k_verify_count(addr, pin@, cache, res), count);
                }
                return res;
            },
        };
        let ghost m2 = self.atecc.bus_log();
        proof { lemma_extends_trans(start, m1, m2); }
        let salt = pin_salt(&serial);
        let computed = pin_hash(*pin, &salt);
        let ok = match self.checkmac_with_hash(slot_pin_hash(), &computed, &serial) {
            Ok(b) => b,
            Err(e) => {
                let res: Result<(), CryptoServiceError<H::Error>> = Err(e);
                proof {
                    let end = self.atecc.bus_log();
                    lemma_extends_trans(start, m2, end);
                    lemma_extends_trans(m1, m2, end);
                    lemma_bind_err(m2, end, step_checkmac(addr, SLOT_PIN_HASH_INDEX, computed@, serial@), spec_fails_with(res),
                        k_verify_check(addr, res), spec_error_kind(e->Atecc_0));
                    lemma_bind_ok(m1, m2, end, step_serial(addr, cache), spec_fails_with(res), k_verify_serial(addr, pin@, res), serial@);
                    lemma_bind_ok(start, m1, end, step_counter(addr, CounterId::Counter0), spec_fails_with(res),
                        k_verify_count(addr, pin@, cache, res), count);
                }
                return res;
            },
        };
        let ghost m3 = self.atecc.bus_log();
        proof { lemma_extends_trans(start, m2, m3); lemma_extends_trans(m1, m2, m3); }
        if !ok {
            let new_count = match self.read_counter(CounterId::Counter0) {
                Ok(c) => c,
                Err(e) => {
                    let res: Result<(), CryptoServiceError<H::Error>> = Err(e);
                    proof {
                        let end = self.atecc.bus_log();
                        lemma_extends_trans(start, m3, end);
                        lemma_extends_trans(m2, m3, end);
                        lemma_extends_trans(m1, m3, end);
                        lemma_bind_err(m3, end, step_counter(addr, CounterId::Counter0), spec_fails_with(res), k_pin_wrong(res),
                            spec_error_kind(e->Atecc_0));
                        lemma_bind_ok(m2, m3, end, step_checkmac(addr, SLOT_PIN_HASH_INDEX, computed@, serial@), spec_fails_with(res),
                            k_verify_check(addr, res), false);
                        lemma_bind_ok(m1, m2, end, step_serial(addr, cache), spec_fails_with(res), k_verify_serial(addr, pin@, res), serial@);
                        lemma_bind_ok(start, m1, end, step_counter(addr, CounterId::Counter0), spec_fails_with(res),
                            k_verify_count(addr, pin@, cache, res), count);
                    }
                    return res;
                },
            };
            let remaining = retries_remaining(new_count, PIN_MAX_RETRIES);
            let res: Result<(), CryptoServiceError<H::Error>> = Err(CryptoServiceError::PinIncorrect { tries_remaining: remaining });
            proof {
                let end = self.atecc.bus_log();
                assert(spec_counter_session(addr, CounterId::Counter0, spec_delta(m3, end), new_count));
                lemma_ends_with(start, m3, end, |d: Seq<HalOp>| spec_counter_then(addr, CounterId::Counter0, d,
                    |c: u32| remaining == spec_retries_remaining(c, PIN_MAX_RETRIES)));
                lemma_extends_trans(m2, m3, end);
                lemma_extends_trans(m1, m3, end);
                lemma_bind_last(m3, end, step_counter(addr, CounterId::Counter0), spec_fails_with(res), k_pin_wrong(res), new_count);
                lemma_bind_ok(m2, m3, end, step_checkmac(addr, SLOT_PIN_HASH_INDEX, computed@, serial@), spec_fails_with(res),
                    k_verify_check(addr, res), false);
                lemma_bind_ok(m1, m2, end, step_serial(addr, cache), spec_fails_with(res), k_verify_serial(addr, pin@, res), serial@);
                lemma_bind_ok(start, m1, end, step_counter(addr, CounterId::Counter0), spec_fails_with(res),
                    k_verify_count(addr, pin@, cache, res), count);
            }
            return res;
        }
        let full = match self.refresh_counter_batch(CounterId::Counter0, PIN_MAX_RETRIES) {
            Ok(f) => f,
            Err(e) => {
                let res: Result<(), CryptoServiceError<H::Error>> = Err(e);
                proof {
                    let end = self.atecc.bus_log();
                    lemma_extends_trans(start, m3, end);
                    lemma_extends_trans(m2, m3, end);
                    lemma_extends_trans(m1, m3, end);
                    lemma_bind_err(m3, end, step_refresh(addr, CounterId::Counter0, PIN_MAX_RETRIES), spec_fails_with(res),
                        k_ok::<bool, H::Error>(res), spec_error_kind(e->Atecc_0));
                    lemma_bind_ok(m2, m3, end, step_checkmac(addr, SLOT_PIN_HASH_INDEX, computed@, serial@), spec_fails_with(res),
                        k_verify_check(addr, res), true);
                    lemma_bind_ok(m1, m2, end, step_serial(addr, cache), spec_fails_with(res), k_verify_serial(addr, pin@, res), serial@);
                    lemma_bind_ok(start, m1, end, step_counter(addr, CounterId::Counter0), spec_fails_with(res),
                        k_verify_count(addr, pin@, cache, res), count);
                }
                return res;
            },
        };
        let now = self.read_clock();
        self.session.open(now);
        let res: Result<(), CryptoServiceError<H::Error>> = Ok(());
        proof {
            let end = self.atecc.bus_log();
            lemma_contains(start, m2, m3, end,
                spec_confirmed(addr, SLOT_PIN_HASH_INDEX, spec_code_hash(pin@, spec_pin_salt(serial@)), serial@));
            lemma_extends_trans(m2, m3, end);
            lemma_extends_trans(m1, m3, end);
            lemma_bind_last(m3, end, step_refresh(addr, CounterId::Counter0, PIN_MAX_RETRIES), spec_fails_with(res),
                k_ok::<bool, H::Error>(res), full);
            lemma_bind_ok(m2, m3, end, step_checkmac(addr, SLOT_PIN_HASH_INDEX, computed@, serial@), spec_fails_with(res),
                k_verify_check(addr, res), true);
            lemma_bind_ok(m1, m2, end, step_serial(addr, cache), spec_fails_with(res), k_verify_serial(addr, pin@, res), serial@);
            lemma_bind_ok(start, m1, end, step_counter(addr, CounterId::Counter0), spec_fails_with(res),
                k_verify_count(addr, pin@, cache, res), count);
        }
        res
    }

    /// Change the PIN: `old_pin` must check out on the chip; then the hash
    /// of `new_pin` is written to the PIN slot by an encrypted write under
    /// `io_key`, the PIN attempts get a fresh batch and a session opens.
    pub fn set_pin(
        &mut self,
        old_pin: &[u8; PIN_LEN],
        new_pin: &[u8; PIN_LEN],
        io_key: &[u8; SLOT_VALUE_LEN],
    ) -> (r: Result<(), CryptoServiceError<H::Error>>)
        ensures
            Self::post_set_pin(*old(self), *final(self), old_pin, new_pin, io_key, r),
    {
        let ghost start = self.atecc.bus_log();
        let ghost addr = self.atecc.address();
        let ghost cache = self.serial_cache();
        proof { lemma_extends_refl(start); }
        match validate_digits(old_pin) {
            Ok(()) => {},
            Err(e) => return Err(CryptoServiceError::InvalidFormat(e)),
        }
        match validate_digits(new_pin) {
            Ok(()) => {},
            Err(e) => return Err(CryptoServiceError::InvalidFormat(e)),
        }
        let count = match self.read_counter(CounterId::Counter0) {
            Ok(c) => c,
            Err(e) => {
                let res: Result<(), CryptoServiceError<H::Error>> = Err(e);
                proof {
                    let end = self.atecc.bus_log();
                    lemma_bind_err(start, end, step_counter(addr, CounterId::Counter0), spec_fails_with(res), k_set_pin_count(addr, old_pin@, new_pin@, io_key@, cache, res), spec_error_kind(e->Atecc_0));
                }
                return res;
            },
        };
        let ghost m1 = self.atecc.bus_log();
        if retries_remaining(count, PIN_MAX_RETRIES) == 0 {
            let res: Result<(), CryptoServiceError<H::Error>> = Err(CryptoServiceError::PinBlocked);
            proof {
                let end = self.atecc.bus_log();
                assert(spec_counter_session(addr, CounterId::Counter0, spec_delta(start, end), count));
                    lemma_bind_last(start, end, step_counter(addr, CounterId::Counter0), spec_fails_with(res), k_set_pin_count(addr, old_pin@, new_pin@, io_key@, cache, res), count);
            }
            return res;
        }
        let serial = match self.cached_serial() {
            Ok(s) => s,
            Err(e) => {
                let res: Result<(), CryptoServiceError<H::Error>> = Err(e);
                proof {
                    let end = self.atecc.bus_log();
                    lemma_extends_trans(start, m1, end);
                    lemma_bind_err(m1, end, step_serial(addr, cache), spec_fails_with(res), k_set_pin_serial(addr, old_pin@, new_pin@, io_key@, res), spec_error_kind(e->Atecc_0));
                    lemma_bind_ok(start, m1, end, step_counter(addr, CounterId::Counter0), spec_fails_with(res), k_set_pin_count(addr, old_pin@, new_pin@, io_key@, cache, res), count);
                }
                return res;
            },
        };
        let ghost m2 = self.atecc.bus_log();
        proof { lemma_extends_trans(start, m1, m2); }
        let old_hash = pin_hash(*old_pin, &pin_salt(&serial));
        let ok = match self.checkmac_with_hash(slot_pin_hash(), &old_hash, &serial) {
            Ok(b) => b,
            Err(e) => {
                let res: Result<(), CryptoServiceError<H::Error>> = Err(e);
                proof {
                    let end = self.atecc.bus_log();
                    lemma_extends_trans(m1, m2, end);
                    lemma_extends_trans(start, m1, end);
                    lemma_bind_err(m2, end, step_checkmac(addr, SLOT_PIN_HASH_INDEX, old_hash@, serial@), spec_fails_with(res), k_set_pin_check(addr, new_pin@, io_key@, serial@, res), spec_error_kind(e->Atecc_0));
                    lemma_bind_ok(m1, m2, end, step_serial(addr, cache), spec_fails_with(res), k_set_pin_serial(addr, old_pin@, new_pin@, io_key@, res), serial@);
                    lemma_bind_ok(start, m1, end, step_counter(addr, CounterId::Counter0), spec_fails_with(res), k_set_pin_count(addr, old_pin@, new_pin@, io_key@, cache, res), count);
                }
                return res;
            },
        };
        let ghost m3 = self.atecc.bus_log();
        proof { lemma_extends_trans(start, m2, m3); }
        if !ok {
            let new_count = match self.read_counter(CounterId::Counter0) {
                Ok(c) => c,
                Err(e) => {
                    let res: Result<(), CryptoServiceError<H::Error>> = Err(e);
                    proof {
                        let end = self.atecc.bus_log();
                    lemma_extends_trans(m2, m3, end);
                    lemma_extends_trans(m1, m2, end);
                    lemma_extends_trans(start, m1, end);
                    lemma_bind_err(m3, end, step_counter(addr, CounterId::Counter0), spec_fails_with(res), k_pin_wrong(res), spec_error_kind(e->Atecc_0));
                    lemma_bind_ok(m2, m3, end, step_checkmac(addr, SLOT_PIN_HASH_INDEX, old_hash@, serial@), spec_fails_with(res), k_set_pin_check(addr, new_pin@, io_key@, serial@, res), false);
                    lemma_bind_ok(m1, m2, end, step_serial(addr, cache), spec_fails_with(res), k_set_pin_serial(addr, old_pin@, new_pin@, io_key@, res), serial@);
                    lemma_bind_ok(start, m1, end, step_counter(addr, CounterId::Counter0), spec_fails_with(res), k_set_pin_count(addr, old_pin@, new_pin@, io_key@, cache, res), count);
                    }
                    return res;
                },
            };
            let remaining = retries_remaining(new_count, PIN_MAX_RETRIES);
            let res: Result<(), CryptoServiceError<H::Error>> = Err(CryptoServiceError::PinIncorrect { tries_remaining: remaining });
            proof {
                let end = self.atecc.bus_log();
                assert(spec_counter_session(addr, CounterId::Counter0, spec_delta(m3, end), new_count));
                lemma_ends_with(start, m3, end, |d: Seq<HalOp>| spec_counter_then(addr, CounterId::Counter0, d,
                    |c: u32| remaining == spec_retries_remaining(c, PIN_MAX_RETRIES)));
                    lemma_extends_trans(m2, m3, end);
                    lemma_extends_trans(m1, m2, end);
                    lemma_extends_trans(start, m1, end);
                    lemma_bind_last(m3, end, step_counter(addr, CounterId::Counter0), spec_fails_with(res), k_pin_wrong(res), new_count);
                    lemma_bind_ok(m2, m3, end, step_checkmac(addr, SLOT_PIN_HASH_INDEX, old_hash@, serial@), spec_fails_with(res), k_set_pin_check(addr, new_pin@, io_key@, serial@, res), false);
                    lemma_bind_ok(m1, m2, end, step_serial(addr, cache), spec_fails_with(res), k_set_pin_serial(addr, old_pin@, new_pin@, io_key@, res), serial@);
                    lemma_bind_ok(start, m1, end, step_counter(addr, CounterId::Counter0), spec_fails_with(res), k_set_pin_count(addr, old_pin@, new_pin@, io_key@, cache, res), count);
            }
            return res;
        }
        let new_hash = pin_hash(*new_pin, &pin_salt(&serial));
        match self.session_write_encrypted(slot_pin_hash(), &new_hash, io_key, &serial) {
            Ok(()) => {},
            Err(e) => {
                let res: Result<(), CryptoServiceError<H::Error>> = Err(e);
                proof {
                    let end = self.atecc.bus_log();
                    lemma_extends_trans(m2, m3, end);
                    lemma_extends_trans(m1, m2, end);
                    lemma_extends_trans(start, m1, end);
                    lemma_bind_err(m3, end, step_write(addr, SLOT_PIN_HASH_INDEX, new_hash@, io_key@, serial@), spec_fails_with(res), k_refresh_then_ok::<(), (), H::Error>(addr, CounterId::Counter0, PIN_MAX_RETRIES, res), spec_error_kind(e->Atecc_0));
                    lemma_bind_ok(m2, m3, end, step_checkmac(addr, SLOT_PIN_HASH_INDEX, old_hash@, serial@), spec_fails_with(res), k_set_pin_check(addr, new_pin@, io_key@, serial@, res), true);
                    lemma_bind_ok(m1, m2, end, step_serial(addr, cache), spec_fails_with(res), k_set_pin_serial(addr, old_pin@, new_pin@, io_key@, res), serial@);
                    lemma_bind_ok(start, m1, end, step_counter(addr, CounterId::Counter0), spec_fails_with(res), k_set_pin_count(addr, old_pin@, new_pin@, io_key@, cache, res), count);
                }
                return res;
            },
        }
        let ghost m4 = self.atecc.bus_log();
        proof { lemma_extends_trans(start, m3, m4); }
        let full = match self.refresh_counter_batch(CounterId::Counter0, PIN_MAX_RETRIES) {
            Ok(f) => f,
            Err(e) => {
                let res: Result<(), CryptoServiceError<H::Error>> = Err(e);
                proof {
                    let end = self.atecc.bus_log();
                    lemma_extends_trans(m3, m4, end);
                    lemma_extends_trans(m2, m3, end);
                    lemma_extends_trans(m1, m2, end);
                    lemma_extends_trans(start, m1, end);
                    lemma_bind_err(m4, end, step_refresh(addr, CounterId::Counter0, PIN_MAX_RETRIES), spec_fails_with(res), k_ok_any::<bool, (), H::Error>(res), spec_error_kind(e->Atecc_0));
                    lemma_bind_ok(m3, m4, end, step_write(addr, SLOT_PIN_HASH_INDEX, new_hash@, io_key@, serial@), spec_fails_with(res), k_refresh_then_ok::<(), (), H::Error>(addr, CounterId::Counter0, PIN_MAX_RETRIES, res), ());
                    lemma_bind_ok(m2, m3, end, step_checkmac(addr, SLOT_PIN_HASH_INDEX, old_hash@, serial@), spec_fails_with(res), k_set_pin_check(addr, new_pin@, io_key@, serial@, res), true);
                    lemma_bind_ok(m1, m2, end, step_serial(addr, cache), spec_fails_with(res), k_set_pin_serial(addr, old_pin@, new_pin@, io_key@, res), serial@);
                    lemma_bind_ok(start, m1, end, step_counter(addr, CounterId::Counter0), spec_fails_with(res), k_set_pin_count(addr, old_pin@, new_pin@, io_key@, cache, res), count);
                }
                return res;
            },
        };
        let now = self.read_clock();
        self.session.open(now);
        let res: Result<(), CryptoServiceError<H::Error>> = Ok(());
        proof {
            let end = self.atecc.bus_log();
            lemma_extends_trans(m3, m4, end);
            lemma_contains(start, m2, m3, end,
                spec_confirmed(addr, SLOT_PIN_HASH_INDEX, spec_code_hash(old_pin@, spec_pin_salt(serial@)), serial@));
            lemma_contains(start, m3, m4, end,
                spec_written(addr, SLOT_PIN_HASH_INDEX, spec_code_hash(new_pin@, spec_pin_salt(serial@)), io_key@, serial@));
                    lemma_extends_trans(m3, m4, end);
                    lemma_extends_trans(m2, m3, end);
                    lemma_extends_trans(m1, m2, end);
                    lemma_extends_trans(start, m1, end);
                    lemma_bind_last(m4, end, step_refresh(addr, CounterId::Counter0, PIN_MAX_RETRIES), spec_fails_with(res), k_ok_any::<bool, (), H::Error>(res), full);
                    lemma_bind_ok(m3, m4, end, step_write(addr, SLOT_PIN_HASH_INDEX, new_hash@, io_key@, serial@), spec_fails_with(res), k_refresh_then_ok::<(), (), H::Error>(addr, CounterId::Counter0, PIN_MAX_RETRIES, res), ());
                    lemma_bind_ok(m2, m3, end, step_checkmac(addr, SLOT_PIN_HASH_INDEX, old_hash@, serial@), spec_fails_with(res), k_set_pin_check(addr, new_pin@, io_key@, serial@, res), true);
                    lemma_bind_ok(m1, m2, end, step_serial(addr, cache), spec_fails_with(res), k_set_pin_serial(addr, old_pin@, new_pin@, io_key@, res), serial@);
                    lemma_bind_ok(start, m1, end, step_counter(addr, CounterId::Counter0), spec_fails_with(res), k_set_pin_count(addr, old_pin@, new_pin@, io_key@, cache, res), count);
        }
        res
    }

    /// Unblock the PIN with the PUK: `puk` must check out on the chip;
    /// then the hash of `new_pin` is written to the PIN slot, and both the
    /// PUK and the PIN attempts get a fresh batch. No session opens.
    pub fn unblock_pin(
        &mut self,
        puk: &[u8; PUK_LEN],
        new_pin: &[u8; PIN_LEN],
        io_key: &[u8; SLOT_VALUE_LEN],
    ) -> (r: Result<(), CryptoServiceError<H::Error>>)
        ensures
            final(self).clock_readings() == old(self).clock_readings(),
            Self::post_unblock_pin(*old(self), *final(self), puk, new_pin, io_key, r),
    {
        let ghost start = self.atecc.bus_log();
        let ghost addr = self.atecc.address();
        let ghost cache = self.serial_cache();
        proof { lemma_extends_refl(start); }
        match validate_digits(puk) {
            Ok(()) => {},
            Err(e) => return Err(CryptoServiceError::InvalidFormat(e)),
        }
        match validate_digits(new_pin) {
            Ok(()) => {},
            Err(e) => return Err(CryptoServiceError::InvalidFormat(e)),
        }
        let count = match self.read_counter(CounterId::Counter1) {
            Ok(c) => c,
            Err(e) => {
                let res: Result<(), CryptoServiceError<H::Error>> = Err(e);
                proof {
                    let end = self.atecc.bus_log();
                    lemma_bind_err(start, end, step_counter(addr, CounterId::Counter1), spec_fails_with(res), k_unblock_count(addr, puk@, new_pin@, io_key@, cache, res), spec_error_kind(e->Atecc_0));
                }
                return res;
            },
        };
        let ghost m1 = self.atecc.bus_log();
        if retries_remaining(count, PUK_MAX_RETRIES) == 0 {
            let res: Result<(), CryptoServiceError<H::Error>> = Err(CryptoServiceError::Bricked);
            proof {
                let end = self.atecc.bus_log();
                assert(spec_counter_session(addr, CounterId::Counter1, spec_delta(start, end), count));
                    lemma_bind_last(start, end, step_counter(addr, CounterId::Counter1), spec_fails_with(res), k_unblock_count(addr, puk@, new_pin@, io_key@, cache, res), count);
            }
            return res;
        }
        let serial = match self.cached_serial() {
            Ok(s) => s,
            Err(e) => {
                let res: Result<(), CryptoServiceError<H::Error>> = Err(e);
                proof {
                    let end = self.atecc.bus_log();
                    lemma_extends_trans(start, m1, end);
                    lemma_bind_err(m1, end, step_serial(addr, cache), spec_fails_with(res), k_unblock_serial(addr, puk@, new_pin@, io_key@, res), spec_error_kind(e->Atecc_0));
                    lemma_bind_ok(start, m1, end, step_counter(addr, CounterId::Counter1), spec_fails_with(res), k_unblock_count(addr, puk@, new_pin@, io_key@, cache, res), count);
                }
                return res;
            },
        };
        let ghost m2 = self.atecc.bus_log();
        proof { lemma_extends_trans(start, m1, m2); }
        let puk_h = puk_hash(*puk, &puk_salt(&serial));
        let ok = match self.checkmac_with_hash(slot_puk_hash(), &puk_h, &serial) {
            Ok(b) => b,
            Err(e) => {
                let res: Result<(), CryptoServiceError<H::Error>> = Err(e);
                proof {
                    let end = self.atecc.bus_log();
                    lemma_extends_trans(m1, m2, end);
                    lemma_extends_trans(start, m1, end);
                    lemma_bind_err(m2, end, step_checkmac(addr, SLOT_PUK_HASH_INDEX, puk_h@, serial@), spec_fails_with(res), k_unblock_check(addr, new_pin@, io_key@, serial@, res), spec_error_kind(e->Atecc_0));
                    lemma_bind_ok(m1, m2, end, step_serial(addr, cache), spec_fails_with(res), k_unblock_serial(addr, puk@, new_pin@, io_key@, res), serial@);
                    lemma_bind_ok(start, m1, end, step_counter(addr, CounterId::Counter1), spec_fails_with(res), k_unblock_count(addr, puk@, new_pin@, io_key@, cache, res), count);
                }
                return res;
            },
        };
        let ghost m3 = self.atecc.bus_log();
        proof { lemma_extends_trans(start, m2, m3); }
        if !ok {
            let new_count = match self.read_counter(CounterId::Counter1) {
                Ok(c) => c,
                Err(e) => {
                    let res: Result<(), CryptoServiceError<H::Error>> = Err(e);
                    proof {
                        let end = self.atecc.bus_log();
                    lemma_extends_trans(m2, m3, end);
                    lemma_extends_trans(m1, m2, end);
                    lemma_extends_trans(start, m1, end);
                    lemma_bind_err(m3, end, step_counter(addr, CounterId::Counter1), spec_fails_with(res), k_puk_wrong(res), spec_error_kind(e->Atecc_0));
                    lemma_bind_ok(m2, m3, end, step_checkmac(addr, SLOT_PUK_HASH_INDEX, puk_h@, serial@), spec_fails_with(res), k_unblock_check(addr, new_pin@, io_key@, serial@, res), false);
                    lemma_bind_ok(m1, m2, end, step_serial(addr, cache), spec_fails_with(res), k_unblock_serial(addr, puk@, new_pin@, io_key@, res), serial@);
                    lemma_bind_ok(start, m1, end, step_counter(addr, CounterId::Counter1), spec_fails_with(res), k_unblock_count(addr, puk@, new_pin@, io_key@, cache, res), count);
                    }
                    return res;
                },
            };
            let remaining = retries_remaining(new_count, PUK_MAX_RETRIES);
            let res: Result<(), CryptoServiceError<H::Error>> = Err(CryptoServiceError::PukIncorrect { tries_remaining: remaining });
            proof {
                let end = self.atecc.bus_log();
                assert(spec_counter_session(addr, CounterId::Counter1, spec_delta(m3, end), new_count));
                lemma_ends_with(start, m3, end, |d: Seq<HalOp>| spec_counter_then(addr, CounterId::Counter1, d,
                    |c: u32| remaining == spec_retries_remaining(c, PUK_MAX_RETRIES)));
                    lemma_extends_trans(m2, m3, end);
                    lemma_extends_trans(m1, m2, end);
                    lemma_extends_trans(start, m1, end);
                    lemma_bind_last(m3, end, step_counter(addr, CounterId::Counter1), spec_fails_with(res), k_puk_wrong(res), new_count);
                    lemma_bind_ok(m2, m3, end, step_checkmac(addr, SLOT_PUK_HASH_INDEX, puk_h@, serial@), spec_fails_with(res), k_unblock_check(addr, new_pin@, io_key@, serial@, res), false);
                    lemma_bind_ok(m1, m2, end, step_serial(addr, cache), spec_fails_with(res), k_unblock_serial(addr, puk@, new_pin@, io_key@, res), serial@);
                    lemma_bind_ok(start, m1, end, step_counter(addr, CounterId::Counter1), spec_fails_with(res), k_unblock_count(addr, puk@, new_pin@, io_key@, cache, res), count);
            }
            return res;
        }
        let new_hash = pin_hash(*new_pin, &pin_salt(&serial));
        match self.session_write_encrypted(slot_pin_hash(), &new_hash, io_key, &serial) {
            Ok(()) => {},
            Err(e) => {
                let res: Result<(), CryptoServiceError<H::Error>> = Err(e);
                proof {
                    let end = self.atecc.bus_log();
                    lemma_extends_trans(m2, m3, end);
                    lemma_extends_trans(m1, m2, end);
                    lemma_extends_trans(start, m1, end);
                    lemma_bind_err(m3, end, step_write(addr, SLOT_PIN_HASH_INDEX, new_hash@, io_key@, serial@), spec_fails_with(res), k_unblock_written(addr, res), spec_error_kind(e->Atecc_0));
                    lemma_bind_ok(m2, m3, end, step_checkmac(addr, SLOT_PUK_HASH_INDEX, puk_h@, serial@), spec_fails_with(res), k_unblock_check(addr, new_pin@, io_key@, serial@, res), true);
                    lemma_bind_ok(m1, m2, end, step_serial(addr, cache), spec_fails_with(res), k_unblock_serial(addr, puk@, new_pin@, io_key@, res), serial@);
                    lemma_bind_ok(start, m1, end, step_counter(addr, CounterId::Counter1), spec_fails_with(res), k_unblock_count(addr, puk@, new_pin@, io_key@, cache, res), count);
                }
                return res;
            },
        }
        let ghost m4 = self.atecc.bus_log();
        proof { lemma_extends_trans(start, m3, m4); }
        let full1 = match self.refresh_counter_batch(CounterId::Counter1, PUK_MAX_RETRIES) {
            Ok(f) => f,
            Err(e) => {
                let res: Result<(), CryptoServiceError<H::Error>> = Err(e);
                proof {
                    let end = self.atecc.bus_log();
                    lemma_extends_trans(m3, m4, end);
                    lemma_extends_trans(m2, m3, end);
                    lemma_extends_trans(m1, m2, end);
                    lemma_extends_trans(start, m1, end);
                    lemma_bind_err(m4, end, step_refresh(addr, CounterId::Counter1, PUK_MAX_RETRIES), spec_fails_with(res), k_refresh_then_ok::<bool, (), H::Error>(addr, CounterId::Counter0, PIN_MAX_RETRIES, res), spec_error_kind(e->Atecc_0));
                    lemma_bind_ok(m3, m4, end, step_write(addr, SLOT_PIN_HASH_INDEX, new_hash@, io_key@, serial@), spec_fails_with(res), k_unblock_written(addr, res), ());
                    lemma_bind_ok(m2, m3, end, step_checkmac(addr, SLOT_PUK_HASH_INDEX, puk_h@, serial@), spec_fails_with(res), k_unblock_check(addr, new_pin@, io_key@, serial@, res), true);
                    lemma_bind_ok(m1, m2, end, step_serial(addr, cache), spec_fails_with(res), k_unblock_serial(addr, puk@, new_pin@, io_key@, res), serial@);
                    lemma_bind_ok(start, m1, end, step_counter(addr, CounterId::Counter1), spec_fails_with(res), k_unblock_count(addr, puk@, new_pin@, io_key@, cache, res), count);
                }
                return res;
            },
        };
        let ghost m5 = self.atecc.bus_log();
        proof { lemma_extends_trans(start, m4, m5); }
        let full0 = match self.refresh_counter_batch(CounterId::Counter0, PIN_MAX_RETRIES) {
            Ok(f) => f,
            Err(e) => {
                let res: Result<(), CryptoServiceError<H::Error>> = Err(e);
                proof {
                    let end = self.atecc.bus_log();
                    lemma_extends_trans(m4, m5, end);
                    lemma_extends_trans(m3, m4, end);
                    lemma_extends_trans(m2, m3, end);
                    lemma_extends_trans(m1, m2, end);
                    lemma_extends_trans(start, m1, end);
                    lemma_bind_err(m5, end, step_refresh(addr, CounterId::Counter0, PIN_MAX_RETRIES), spec_fails_with(res), k_ok_any::<bool, (), H::Error>(res), spec_error_kind(e->Atecc_0));
                    lemma_bind_ok(m4, m5, end, step_refresh(addr, CounterId::Counter1, PUK_MAX_RETRIES), spec_fails_with(res), k_refresh_then_ok::<bool, (), H::Error>(addr, CounterId::Counter0, PIN_MAX_RETRIES, res), full1);
                    lemma_bind_ok(m3, m4, end, step_write(addr, SLOT_PIN_HASH_INDEX, new_hash@, io_key@, serial@), spec_fails_with(res), k_unblock_written(addr, res), ());
                    lemma_bind_ok(m2, m3, end, step_checkmac(addr, SLOT_PUK_HASH_INDEX, puk_h@, serial@), spec_fails_with(res), k_unblock_check(addr, new_pin@, io_key@, serial@, res), true);
                    lemma_bind_ok(m1, m2, end, step_serial(addr, cache), spec_fails_with(res), k_unblock_serial(addr, puk@, new_pin@, io_key@, res), serial@);
                    lemma_bind_ok(start, m1, end, step_counter(addr, CounterId::Counter1), spec_fails_with(res), k_unblock_count(addr, puk@, new_pin@, io_key@, cache, res), count);
                }
                return res;
            },
        };
        let res: Result<(), CryptoServiceError<H::Error>> = Ok(());
        proof {
            let end = self.atecc.bus_log();
            lemma_extends_trans(m4, m5, end);
            lemma_extends_trans(m3, m4, end);
            lemma_contains(start, m2, m3, end,
                spec_confirmed(addr, SLOT_PUK_HASH_INDEX, spec_code_hash(puk@, spec_puk_salt(serial@)), serial@));
            lemma_contains(start, m3, m4, end,
                spec_written(addr, SLOT_PIN_HASH_INDEX, spec_code_hash(new_pin@, spec_pin_salt(serial@)), io_key@, serial@));
                    lemma_extends_trans(m4, m5, end);
                    lemma_extends_trans(m3, m4, end);
                    lemma_extends_trans(m2, m3, end);
                    lemma_extends_trans(m1, m2, end);
                    lemma_extends_trans(start, m1, end);
                    lemma_bind_last(m5, end, step_refresh(addr, CounterId::Counter0, PIN_MAX_RETRIES), spec_fails_with(res), k_ok_any::<bool, (), H::Error>(res), full0);
                    lemma_bind_ok(m4, m5, end, step_refresh(addr, CounterId::Counter1, PUK_MAX_RETRIES), spec_fails_with(res), k_refresh_then_ok::<bool, (), H::Error>(addr, CounterId::Counter0, PIN_MAX_RETRIES, res), full1);
                    lemma_bind_ok(m3, m4, end, step_write(addr, SLOT_PIN_HASH_INDEX, new_hash@, io_key@, serial@), spec_fails_with(res), k_unblock_written(addr, res), ());
                    lemma_bind_ok(m2, m3, end, step_checkmac(addr, SLOT_PUK_HASH_INDEX, puk_h@, serial@), spec_fails_with(res), k_unblock_check(addr, new_pin@, io_key@, serial@, res), true);
                    lemma_bind_ok(m1, m2, end, step_serial(addr, cache), spec_fails_with(res), k_unblock_serial(addr, puk@, new_pin@, io_key@, res), serial@);
                    lemma_bind_ok(start, m1, end, step_counter(addr, CounterId::Counter1), spec_fails_with(res), k_unblock_count(addr, puk@, new_pin@, io_key@, cache, res), count);
        }
        res
    }

    /// Change the PUK, within an active PIN session: `old_puk` must check
    /// out on the chip; then the hash of `new_puk` is written to the PUK
    /// slot, the PUK attempts get a fresh batch, and the session is
    /// touched.
    #[verifier::rlimit(60)]
    #[verifier::spinoff_prover]
    pub fn set_puk(
        &mut self,
        old_puk: &[u8; PUK_LEN],
        new_puk: &[u8; PUK_LEN],
        io_key: &[u8; SLOT_VALUE_LEN],
    ) -> (r: Result<(), CryptoServiceError<H::Error>>)
        ensures
            Self::post_set_puk(*old(self), *final(self), old_puk, new_puk, io_key, r),
    {
        let ghost start = self.atecc.bus_log();
        let ghost addr = self.atecc.address();
        let ghost cache = self.serial_cache();
        proof { lemma_extends_refl(start); }
        match validate_digits(old_puk) {
            Ok(()) => {},
            Err(e) => return Err(CryptoServiceError::InvalidFormat(e)),
        }
        match validate_digits(new_puk) {
            Ok(()) => {},
            Err(e) => return Err(CryptoServiceError::InvalidFormat(e)),
        }
        let now = self.read_clock();
        if !self.session.is_active(now) {
            let res: Result<(), CryptoServiceError<H::Error>> = Err(CryptoServiceError::PinRequired);
            proof {
                let end = self.atecc.bus_log();
                assert(spec_delta(start, end) =~= Seq::<HalOp>::empty());
                assert(run_set_puk(addr, old_puk@, new_puk@, io_key@, cache, false, res)(spec_delta(start, end)));
            }
            return res;
        }
        let count = match self.read_counter(CounterId::Counter1) {
            Ok(c) => c,
            Err(e) => {
                let res: Result<(), CryptoServiceError<H::Error>> = Err(e);
                proof {
                    let end = self.atecc.bus_log();
                    lemma_bind_err(start, end, step_counter(addr, CounterId::Counter1), spec_fails_with(res), k_set_puk_count(addr, old_puk@, new_puk@, io_key@, cache, res), spec_error_kind(e->Atecc_0));
                    assert(run_set_puk(addr, old_puk@, new_puk@, io_key@, cache, true, res)(spec_delta(start, end)));
                }
                return res;
            },
        };
        let ghost m1 = self.atecc.bus_log();
        if retries_remaining(count, PUK_MAX_RETRIES) == 0 {
            let res: Result<(), CryptoServiceError<H::Error>> = Err(CryptoServiceError::Bricked);
            proof {
                let end = self.atecc.bus_log();
                assert(spec_counter_session(addr, CounterId::Counter1, spec_delta(start, end), count));
                    lemma_bind_last(start, end, step_counter(addr, CounterId::Counter1), spec_fails_with(res), k_set_puk_count(addr, old_puk@, new_puk@, io_key@, cache, res), count);
                    assert(run_set_puk(addr, old_puk@, new_puk@, io_key@, cache, true, res)(spec_delta(start, end)));
            }
            return res;
        }
        let serial = match self.cached_serial() {
            Ok(s) => s,
            Err(e) => {
                let res: Result<(), CryptoServiceError<H::Error>> = Err(e);
                proof {
                    let end = self.atecc.bus_log();
                    lemma_extends_trans(start, m1, end);
                    lemma_bind_err(m1, end, step_serial(addr, cache), spec_fails_with(res), k_set_puk_serial(addr, old_puk@, new_puk@, io_key@, res), spec_error_kind(e->Atecc_0));
                    lemma_bind_ok(start, m1, end, step_counter(addr, CounterId::Counter1), spec_fails_with(res), k_set_puk_count(addr, old_puk@, new_puk@, io_key@, cache, res), count);
                    assert(run_set_puk(addr, old_puk@, new_puk@, io_key@, cache, true, res)(spec_delta(start, end)));
                }
                return res;
            },
        };
        let ghost m2 = self.atecc.bus_log();
        proof { lemma_extends_trans(start, m1, m2); }
        let old_hash = puk_hash(*old_puk, &puk_salt(&serial));
        let ok = match self.checkmac_with_hash(slot_puk_hash(), &old_hash, &serial) {
            Ok(b) => b,
            Err(e) => {
                let res: Result<(), CryptoServiceError<H::Error>> = Err(e);
                proof {
                    let end = self.atecc.bus_log();
                    lemma_extends_trans(m1, m2, end);
                    lemma_extends_trans(start, m1, end);
                    lemma_bind_err(m2, end, step_checkmac(addr, SLOT_PUK_HASH_INDEX, old_hash@, serial@), spec_fails_with(res), k_set_puk_check(addr, new_puk@, io_key@, serial@, res), spec_error_kind(e->Atecc_0));
                    lemma_bind_ok(m1, m2, end, step_serial(addr, cache), spec_fails_with(res), k_set_puk_serial(addr, old_puk@, new_puk@, io_key@, res), serial@);
                    lemma_bind_ok(start, m1, end, step_counter(addr, CounterId::Counter1), spec_fails_with(res), k_set_puk_count(addr, old_puk@, new_puk@, io_key@, cache, res), count);
                    assert(run_set_puk(addr, old_puk@, new_puk@, io_key@, cache, true, res)(spec_delta(start, end)));
                }
                return res;
            },
        };
        let ghost m3 = self.atecc.bus_log();
        proof { lemma_extends_trans(start, m2, m3); }
        if !ok {
            let new_count = match self.read_counter(CounterId::Counter1) {
                Ok(c) => c,
                Err(e) => {
                    let res: Result<(), CryptoServiceError<H::Error>> = Err(e);
                    proof {
                        let end = self.atecc.bus_log();
                    lemma_extends_trans(m2, m3, end);
                    lemma_extends_trans(m1, m2, end);
                    lemma_extends_trans(start, m1, end);
                    lemma_bind_err(m3, end, step_counter(addr, CounterId::Counter1), spec_fails_with(res), k_puk_wrong(res), spec_error_kind(e->Atecc_0));
                    lemma_bind_ok(m2, m3, end, step_checkmac(addr, SLOT_PUK_HASH_INDEX, old_hash@, serial@), spec_fails_with(res), k_set_puk_check(addr, new_puk@, io_key@, serial@, res), false);
                    lemma_bind_ok(m1, m2, end, step_serial(addr, cache), spec_fails_with(res), k_set_puk_serial(addr, old_puk@, new_puk@, io_key@, res), serial@);
                    lemma_bind_ok(start, m1, end, step_counter(addr, CounterId::Counter1), spec_fails_with(res), k_set_puk_count(addr, old_puk@, new_puk@, io_key@, cache, res), count);
                    assert(run_set_puk(addr, old_puk@, new_puk@, io_key@, cache, true, res)(spec_delta(start, end)));
                    }
                    return res;
                },
            };
            let remaining = retries_remaining(new_count, PUK_MAX_RETRIES);
            let res: Result<(), CryptoServiceError<H::Error>> = Err(CryptoServiceError::PukIncorrect { tries_remaining: remaining });
            proof {
                let end = self.atecc.bus_log();
                assert(spec_counter_session(addr, CounterId::Counter1, spec_delta(m3, end), new_count));
                lemma_ends_with(start, m3, end, |d: Seq<HalOp>| spec_counter_then(addr, CounterId::Counter1, d,
                    |c: u32| remaining == spec_retries_remaining(c, PUK_MAX_RETRIES)));
                    lemma_extends_trans(m2, m3, end);
                    lemma_extends_trans(m1, m2, end);
                    lemma_extends_trans(start, m1, end);
                    lemma_bind_last(m3, end, step_counter(addr, CounterId::Counter1), spec_fails_with(res), k_puk_wrong(res), new_count);
                    lemma_bind_ok(m2, m3, end, step_checkmac(addr, SLOT_PUK_HASH_INDEX, old_hash@, serial@), spec_fails_with(res), k_set_puk_check(addr, new_puk@, io_key@, serial@, res), false);
                    lemma_bind_ok(m1, m2, end, step_serial(addr, cache), spec_fails_with(res), k_set_puk_serial(addr, old_puk@, new_puk@, io_key@, res), serial@);
                    lemma_bind_ok(start, m1, end, step_counter(addr, CounterId::Counter1), spec_fails_with(res), k_set_puk_count(addr, old_puk@, new_puk@, io_key@, cache, res), count);
                    assert(run_set_puk(addr, old_puk@, new_puk@, io_key@, cache, true, res)(spec_delta(start, end)));
            }
            return res;
        }
        let new_hash = puk_hash(*new_puk, &puk_salt(&serial));
        match self.session_write_encrypted(slot_puk_hash(), &new_hash, io_key, &serial) {
            Ok(()) => {},
            Err(e) => {
                let res: Result<(), CryptoServiceError<H::Error>> = Err(e);
                proof {
                    let end = self.atecc.bus_log();
                    lemma_extends_trans(m2, m3, end);
                    lemma_extends_trans(m1, m2, end);
                    lemma_extends_trans(start, m1, end);
                    lemma_bind_err(m3, end, step_write(addr, SLOT_PUK_HASH_INDEX, new_hash@, io_key@, serial@), spec_fails_with(res), k_refresh_then_ok::<(), (), H::Error>(addr, CounterId::Counter1, PUK_MAX_RETRIES, res), spec_error_kind(e->Atecc_0));
                    lemma_bind_ok(m2, m3, end, step_checkmac(addr, SLOT_PUK_HASH_INDEX, old_hash@, serial@), spec_fails_with(res), k_set_puk_check(addr, new_puk@, io_key@, serial@, res), true);
                    lemma_bind_ok(m1, m2, end, step_serial(addr, cache), spec_fails_with(res), k_set_puk_serial(addr, old_puk@, new_puk@, io_key@, res), serial@);
                    lemma_bind_ok(start, m1, end, step_counter(addr, CounterId::Counter1), spec_fails_with(res), k_set_puk_count(addr, old_puk@, new_puk@, io_key@, cache, res), count);
                    assert(run_set_puk(addr, old_puk@, new_puk@, io_key@, cache, true, res)(spec_delta(start, end)));
                }
                return res;
            },
        }
        let ghost m4 = self.atecc.bus_log();
        proof { lemma_extends_trans(start, m3, m4); }
        let full = match self.refresh_counter_batch(CounterId::Counter1, PUK_MAX_RETRIES) {
            Ok(f) => f,
            Err(e) => {
                let res: Result<(), CryptoServiceError<H::Error>> = Err(e);
                proof {
                    let end = self.atecc.bus_log();
                    lemma_extends_trans(m3, m4, end);
                    lemma_extends_trans(m2, m3, end);
                    lemma_extends_trans(m1, m2, end);
                    lemma_extends_trans(start, m1, end);
                    lemma_bind_err(m4, end, step_refresh(addr, CounterId::Counter1, PUK_MAX_RETRIES), spec_fails_with(res), k_ok_any::<bool, (), H::Error>(res), spec_error_kind(e->Atecc_0));
                    lemma_bind_ok(m3, m4, end, step_write(addr, SLOT_PUK_HASH_INDEX, new_hash@, io_key@, serial@), spec_fails_with(res), k_refresh_then_ok::<(), (), H::Error>(addr, CounterId::Counter1, PUK_MAX_RETRIES, res), ());
                    lemma_bind_ok(m2, m3, end, step_checkmac(addr, SLOT_PUK_HASH_INDEX, old_hash@, serial@), spec_fails_with(res), k_set_puk_check(addr, new_puk@, io_key@, serial@, res), true);
                    lemma_bind_ok(m1, m2, end, step_serial(addr, cache), spec_fails_with(res), k_set_puk_serial(addr, old_puk@, new_puk@, io_key@, res), serial@);
                    lemma_bind_ok(start, m1, end, step_counter(addr, CounterId::Counter1), spec_fails_with(res), k_set_puk_count(addr, old_puk@, new_puk@, io_key@, cache, res), count);
                    assert(run_set_puk(addr, old_puk@, new_puk@, io_key@, cache, true, res)(spec_delta(start, end)));
                }
                return res;
            },
        };
        self.session.touch(now);
        let res: Result<(), CryptoServiceError<H::Error>> = Ok(());
        proof {
            let end = self.atecc.bus_log();
            lemma_extends_trans(m3, m4, end);
            lemma_contains(start, m2, m3, end,
                spec_confirmed(addr, SLOT_PUK_HASH_INDEX, spec_code_hash(old_puk@, spec_puk_salt(serial@)), serial@));
            lemma_contains(start, m3, m4, end,
                spec_written(addr, SLOT_PUK_HASH_INDEX, spec_code_hash(new_puk@, spec_puk_salt(serial@)), io_key@, serial@));
                    lemma_extends_trans(m3, m4, end);
                    lemma_extends_trans(m2, m3, end);
                    lemma_extends_trans(m1, m2, end);
                    lemma_extends_trans(start, m1, end);
                    lemma_bind_last(m4, end, step_refresh(addr, CounterId::Counter1, PUK_MAX_RETRIES), spec_fails_with(res), k_ok_any::<bool, (), H::Error>(res), full);
                    lemma_bind_ok(m3, m4, end, step_write(addr, SLOT_PUK_HASH_INDEX, new_hash@, io_key@, serial@), spec_fails_with(res), k_refresh_then_ok::<(), (), H::Error>(addr, CounterId::Counter1, PUK_MAX_RETRIES, res), ());
                    lemma_bind_ok(m2, m3, end, step_checkmac(addr, SLOT_PUK_HASH_INDEX, old_hash@, serial@), spec_fails_with(res), k_set_puk_check(addr, new_puk@, io_key@, serial@, res), true);
                    lemma_bind_ok(m1, m2, end, step_serial(addr, cache), spec_fails_with(res), k_set_puk_serial(addr, old_puk@, new_puk@, io_key@, res), serial@);
                    lemma_bind_ok(start, m1, end, step_counter(addr, CounterId::Counter1), spec_fails_with(res), k_set_puk_count(addr, old_puk@, new_puk@, io_key@, cache, res), count);
                    assert(run_set_puk(addr, old_puk@, new_puk@, io_key@, cache, true, res)(spec_delta(start, end)));
        }
        res
    }

    /// Last-resort reset once both the PIN and the PUK batches are
    /// exhausted: regenerate every user key, write a fresh random PUK and
    /// the factory PIN, and give both fresh batches. Returns the new PUK.
    #[verifier::rlimit(80)]
    #[verifier::spinoff_prover]
    pub fn emergency_reset(&mut self, io_key: &[u8; SLOT_VALUE_LEN]) -> (r: Result<[u8; PUK_LEN], CryptoServiceError<H::Error>>)
        ensures
            final(self).clock_readings() == old(self).clock_readings(),
            Self::post_emergency_reset(*old(self), *final(self), io_key, r),
    {
        let ghost start = self.atecc.bus_log();
        let ghost addr = self.atecc.address();
        let ghost cache = self.serial_cache();
        let c0 = match self.read_counter(CounterId::Counter0) {
            Ok(c) => c,
            Err(e) => {
                let res: Result<[u8; PUK_LEN], CryptoServiceError<H::Error>> = Err(e);
                proof {
                    let end = self.atecc.bus_log();
                    lemma_bind_err(start, end, step_counter(addr, CounterId::Counter0), spec_fails_with(res), k_reset_c0(addr, io_key@, cache, res), spec_error_kind(e->Atecc_0));
                }
                return res;
            },
        };
        let ghost mA = self.atecc.bus_log();
        let c1 = match self.read_counter(CounterId::Counter1) {
            Ok(c) => c,
            Err(e) => {
                let res: Result<[u8; PUK_LEN], CryptoServiceError<H::Error>> = Err(e);
                proof {
                    let end = self.atecc.bus_log();
                    lemma_extends_trans(start, mA, end);
                    lemma_bind_err(mA, end, step_counter(addr, CounterId::Counter1), spec_fails_with(res), k_reset_c1(addr, io_key@, cache, c0, res), spec_error_kind(e->Atecc_0));
                    lemma_bind_ok(start, mA, end, step_counter(addr, CounterId::Counter0), spec_fails_with(res), k_reset_c0(addr, io_key@, cache, res), c0);
                }
                return res;
            },
        };
        let ghost mB = self.atecc.bus_log();
        proof { lemma_extends_trans(start, mA, mB); }
        let pin_left = retries_remaining(c0, PIN_MAX_RETRIES);
        let puk_left = retries_remaining(c1, PUK_MAX_RETRIES);
        if pin_left != 0 || puk_left != 0 {
            let res: Result<[u8; PUK_LEN], CryptoServiceError<H::Error>> = Err(CryptoServiceError::EmergencyResetNotPermitted {
                pin_tries_remaining: pin_left,
                puk_tries_remaining: puk_left,
            });
            proof {
                let end = self.atecc.bus_log();
                let d = spec_delta(start, end);
                lemma_extends_refl(end);
                lemma_delta_within(start, mA, end, end);
                let k = spec_delta(start, mA).len() as int;
                assert(spec_counter_session(addr, CounterId::Counter0, d.take(k), c0));
                assert(spec_counter_session(addr, CounterId::Counter1, d.skip(k), c1));
                assert(spec_counter_then(addr, CounterId::Counter0, d.take(k),
                    |c: u32| pin_left == spec_retries_remaining(c, PIN_MAX_RETRIES)));
                    lemma_extends_trans(start, mA, end);
                    lemma_bind_last(mA, end, step_counter(addr, CounterId::Counter1), spec_fails_with(res), k_reset_c1(addr, io_key@, cache, c0, res), c1);
                    lemma_bind_ok(start, mA, end, step_counter(addr, CounterId::Counter0), spec_fails_with(res), k_reset_c0(addr, io_key@, cache, res), c0);
            }
            return res;
        }
        let serial = match self.cached_serial() {
            Ok(s) => s,
            Err(e) => {
                let res: Result<[u8; PUK_LEN], CryptoServiceError<H::Error>> = Err(e);
                proof {
                    let end = self.atecc.bus_log();
                    lemma_extends_trans(mA, mB, end);
                    lemma_extends_trans(start, mA, end);
                    lemma_bind_err(mB, end, step_serial(addr, cache), spec_fails_with(res), k_reset_serial(addr, io_key@, res), spec_error_kind(e->Atecc_0));
                    lemma_bind_ok(mA, mB, end, step_counter(addr, CounterId::Counter1), spec_fails_with(res), k_reset_c1(addr, io_key@, cache, c0, res), c1);
                    lemma_bind_ok(start, mA, end, step_counter(addr, CounterId::Counter0), spec_fails_with(res), k_reset_c0(addr, io_key@, cache, res), c0);
                }
                return res;
            },
        };
        let ghost m2 = self.atecc.bus_log();
        proof { lemma_extends_trans(start, mB, m2); }
        let slots: [u8; 6] = [0, 1, 2, 3, 4, 7];
        proof { assert(slots@ =~= spec_reset_key_slots()); }
        match self.session_genkeys(&slots) {
            Ok(()) => {},
            Err(e) => {
                let res: Result<[u8; PUK_LEN], CryptoServiceError<H::Error>> = Err(e);
                proof {
                    let end = self.atecc.bus_log();
                    lemma_extends_trans(mB, m2, end);
                    lemma_extends_trans(mA, mB, end);
                    lemma_extends_trans(start, mA, end);
                    lemma_bind_err(m2, end, step_genkeys(addr, spec_reset_key_slots()), spec_fails_with(res), k_reset_keys(addr, io_key@, serial@, res), spec_error_kind(e->Atecc_0));
                    lemma_bind_ok(mB, m2, end, step_serial(addr, cache), spec_fails_with(res), k_reset_serial(addr, io_key@, res), serial@);
                    lemma_bind_ok(mA, mB, end, step_counter(addr, CounterId::Counter1), spec_fails_with(res), k_reset_c1(addr, io_key@, cache, c0, res), c1);
                    lemma_bind_ok(start, mA, end, step_counter(addr, CounterId::Counter0), spec_fails_with(res), k_reset_c0(addr, io_key@, cache, res), c0);
                }
                return res;
            },
        }
        let ghost m3 = self.atecc.bus_log();
        proof { lemma_extends_trans(start, m2, m3); }
        let new_puk = match self.generate_random_puk() {
            Ok(p) => p,
            Err(e) => {
                let res: Result<[u8; PUK_LEN], CryptoServiceError<H::Error>> = Err(e);
                proof {
                    let end = self.atecc.bus_log();
                    lemma_extends_trans(m2, m3, end);
                    lemma_extends_trans(mB, m2, end);
                    lemma_extends_trans(mA, mB, end);
                    lemma_extends_trans(start, mA, end);
                    lemma_bind_err(m3, end, step_random_puk(addr), spec_fails_with(res), k_reset_puk(addr, io_key@, serial@, res), spec_error_kind(e->Atecc_0));
                    lemma_bind_ok(m2, m3, end, step_genkeys(addr, spec_reset_key_slots()), spec_fails_with(res), k_reset_keys(addr, io_key@, serial@, res), ());
                    lemma_bind_ok(mB, m2, end, step_serial(addr, cache), spec_fails_with(res), k_reset_serial(addr, io_key@, res), serial@);
                    lemma_bind_ok(mA, mB, end, step_counter(addr, CounterId::Counter1), spec_fails_with(res), k_reset_c1(addr, io_key@, cache, c0, res), c1);
                    lemma_bind_ok(start, mA, end, step_counter(addr, CounterId::Counter0), spec_fails_with(res), k_reset_c0(addr, io_key@, cache, res), c0);
                }
                return res;
            },
        };
        let ghost m4 = self.atecc.bus_log();
        proof { lemma_extends_trans(start, m3, m4); }
        let new_puk_hash = puk_hash(new_puk, &puk_salt(&serial));
        match self.session_write_encrypted(slot_puk_hash(), &new_puk_hash, io_key, &serial) {
            Ok(()) => {},
            Err(e) => {
                let res: Result<[u8; PUK_LEN], CryptoServiceError<H::Error>> = Err(e);
                proof {
                    let end = self.atecc.bus_log();
                    lemma_extends_trans(m3, m4, end);
                    lemma_extends_trans(m2, m3, end);
                    lemma_extends_trans(mB, m2, end);
                    lemma_extends_trans(mA, mB, end);
                    lemma_extends_trans(start, mA, end);
                    lemma_bind_err(m4, end, step_write(addr, SLOT_PUK_HASH_INDEX, new_puk_hash@, io_key@, serial@), spec_fails_with(res), k_reset_puk_written(addr, io_key@, serial@, new_puk@, res), spec_error_kind(e->Atecc_0));
                    lemma_bind_ok(m3, m4, end, step_random_puk(addr), spec_fails_with(res), k_reset_puk(addr, io_key@, serial@, res), new_puk@);
                    lemma_bind_ok(m2, m3, end, step_genkeys(addr, spec_reset_key_slots()), spec_fails_with(res), k_reset_keys(addr, io_key@, serial@, res), ());
                    lemma_bind_ok(mB, m2, end, step_serial(addr, cache), spec_fails_with(res), k_reset_serial(addr, io_key@, res), serial@);
                    lemma_bind_ok(mA, mB, end, step_counter(addr, CounterId::Counter1), spec_fails_with(res), k_reset_c1(addr, io_key@, cache, c0, res), c1);
                    lemma_bind_ok(start, mA, end, step_counter(addr, CounterId::Counter0), spec_fails_with(res), k_reset_c0(addr, io_key@, cache, res), c0);
                }
                return res;
            },
        }
        let ghost m5 = self.atecc.bus_log();
        proof { lemma_extends_trans(start, m4, m5); }
        let full1 = match self.refresh_counter_batch(CounterId::Counter1, PUK_MAX_RETRIES) {
            Ok(f) => f,
            Err(e) => {
                let res: Result<[u8; PUK_LEN], CryptoServiceError<H::Error>> = Err(e);
                proof {
                    let end = self.atecc.bus_log();
                    lemma_extends_trans(m4, m5, end);
                    lemma_extends_trans(m3, m4, end);
                    lemma_extends_trans(m2, m3, end);
                    lemma_extends_trans(mB, m2, end);
                    lemma_extends_trans(mA, mB, end);
                    lemma_extends_trans(start, mA, end);
                    lemma_bind_err(m5, end, step_refresh(addr, CounterId::Counter1, PUK_MAX_RETRIES), spec_fails_with(res), k_reset_c1_refreshed(addr, io_key@, serial@, new_puk@, res), spec_error_kind(e->Atecc_0));
                    lemma_bind_ok(m4, m5, end, step_write(addr, SLOT_PUK_HASH_INDEX, new_puk_hash@, io_key@, serial@), spec_fails_with(res), k_reset_puk_written(addr, io_key@, serial@, new_puk@, res), ());
                    lemma_bind_ok(m3, m4, end, step_random_puk(addr), spec_fails_with(res), k_reset_puk(addr, io_key@, serial@, res), new_puk@);
                    lemma_bind_ok(m2, m3, end, step_genkeys(addr, spec_reset_key_slots()), spec_fails_with(res), k_reset_keys(addr, io_key@, serial@, res), ());
                    lemma_bind_ok(mB, m2, end, step_serial(addr, cache), spec_fails_with(res), k_reset_serial(addr, io_key@, res), serial@);
                    lemma_bind_ok(mA, mB, end, step_counter(addr, CounterId::Counter1), spec_fails_with(res), k_reset_c1(addr, io_key@, cache, c0, res), c1);
                    lemma_bind_ok(start, mA, end, step_counter(addr, CounterId::Counter0), spec_fails_with(res), k_reset_c0(addr, io_key@, cache, res), c0);
                }
                return res;
            },
        };
        if !full1 {
            let res: Result<[u8; PUK_LEN], CryptoServiceError<H::Error>> = Err(CryptoServiceError::Bricked);
            proof {
                let end = self.atecc.bus_log();
                    lemma_extends_trans(m4, m5, end);
                    lemma_extends_trans(m3, m4, end);
                    lemma_extends_trans(m2, m3, end);
                    lemma_extends_trans(mB, m2, end);
                    lemma_extends_trans(mA, mB, end);
                    lemma_extends_trans(start, mA, end);
                    lemma_bind_last(m5, end, step_refresh(addr, CounterId::Counter1, PUK_MAX_RETRIES), spec_fails_with(res), k_reset_c1_refreshed(addr, io_key@, serial@, new_puk@, res), false);
                    lemma_bind_ok(m4, m5, end, step_write(addr, SLOT_PUK_HASH_INDEX, new_puk_hash@, io_key@, serial@), spec_fails_with(res), k_reset_puk_written(addr, io_key@, serial@, new_puk@, res), ());
                    lemma_bind_ok(m3, m4, end, step_random_puk(addr), spec_fails_with(res), k_reset_puk(addr, io_key@, serial@, res), new_puk@);
                    lemma_bind_ok(m2, m3, end, step_genkeys(addr, spec_reset_key_slots()), spec_fails_with(res), k_reset_keys(addr, io_key@, serial@, res), ());
                    lemma_bind_ok(mB, m2, end, step_serial(addr, cache), spec_fails_with(res), k_reset_serial(addr, io_key@, res), serial@);
                    lemma_bind_ok(mA, mB, end, step_counter(addr, CounterId::Counter1), spec_fails_with(res), k_reset_c1(addr, io_key@, cache, c0, res), c1);
                    lemma_bind_ok(start, mA, end, step_counter(addr, CounterId::Counter0), spec_fails_with(res), k_reset_c0(addr, io_key@, cache, res), c0);
            }
            return res;
        }
        let ghost m6 = self.atecc.bus_log();
        proof { lemma_extends_trans(start, m5, m6); }
        let default_hash = pin_hash(pin_default(), &pin_salt(&serial));
        match self.session_write_encrypted(slot_pin_hash(), &default_hash, io_key, &serial) {
            Ok(()) => {},
            Err(e) => {
                let res: Result<[u8; PUK_LEN], CryptoServiceError<H::Error>> = Err(e);
                proof {
                    let end = self.atecc.bus_log();
                    lemma_extends_trans(m5, m6, end);
                    lemma_extends_trans(m4, m5, end);
                    lemma_extends_trans(m3, m4, end);
                    lemma_extends_trans(m2, m3, end);
                    lemma_extends_trans(mB, m2, end);
                    lemma_extends_trans(mA, mB, end);
                    lemma_extends_trans(start, mA, end);
                    lemma_bind_err(m6, end, step_write(addr, SLOT_PIN_HASH_INDEX, default_hash@, io_key@, serial@), spec_fails_with(res), k_reset_pin_written(addr, new_puk@, res), spec_error_kind(e->Atecc_0));
                    lemma_bind_ok(m5, m6, end, step_refresh(addr, CounterId::Counter1, PUK_MAX_RETRIES), spec_fails_with(res), k_reset_c1_refreshed(addr, io_key@, serial@, new_puk@, res), true);
                    lemma_bind_ok(m4, m5, end, step_write(addr, SLOT_PUK_HASH_INDEX, new_puk_hash@, io_key@, serial@), spec_fails_with(res), k_reset_puk_written(addr, io_key@, serial@, new_puk@, res), ());
                    lemma_bind_ok(m3, m4, end, step_random_puk(addr), spec_fails_with(res), k_reset_puk(addr, io_key@, serial@, res), new_puk@);
                    lemma_bind_ok(m2, m3, end, step_genkeys(addr, spec_reset_key_slots()), spec_fails_with(res), k_reset_keys(addr, io_key@, serial@, res), ());
                    lemma_bind_ok(mB, m2, end, step_serial(addr, cache), spec_fails_with(res), k_reset_serial(addr, io_key@, res), serial@);
                    lemma_bind_ok(mA, mB, end, step_counter(addr, CounterId::Counter1), spec_fails_with(res), k_reset_c1(addr, io_key@, cache, c0, res), c1);
                    lemma_bind_ok(start, mA, end, step_counter(addr, CounterId::Counter0), spec_fails_with(res), k_reset_c0(addr, io_key@, cache, res), c0);
                }
                return res;
            },
        }
        let ghost m7 = self.atecc.bus_log();
        proof { lemma_extends_trans(start, m6, m7); }
        let full0 = match self.refresh_counter_batch(CounterId::Counter0, PIN_MAX_RETRIES) {
            Ok(f) => f,
            Err(e) => {
                let res: Result<[u8; PUK_LEN], CryptoServiceError<H::Error>> = Err(e);
                proof {
                    let end = self.atecc.bus_log();
                    lemma_extends_trans(m6, m7, end);
                    lemma_extends_trans(m5, m6, end);
                    lemma_extends_trans(m4, m5, end);
                    lemma_extends_trans(m3, m4, end);
                    lemma_extends_trans(m2, m3, end);
                    lemma_extends_trans(mB, m2, end);
                    lemma_extends_trans(mA, mB, end);
                    lemma_extends_trans(start, mA, end);
                    lemma_bind_err(m7, end, step_refresh(addr, CounterId::Counter0, PIN_MAX_RETRIES), spec_fails_with(res), k_reset_done(new_puk@, res), spec_error_kind(e->Atecc_0));
                    lemma_bind_ok(m6, m7, end, step_write(addr, SLOT_PIN_HASH_INDEX, default_hash@, io_key@, serial@), spec_fails_with(res), k_reset_pin_written(addr, new_puk@, res), ());
                    lemma_bind_ok(m5, m6, end, step_refresh(addr, CounterId::Counter1, PUK_MAX_RETRIES), spec_fails_with(res), k_reset_c1_refreshed(addr, io_key@, serial@, new_puk@, res), true);
                    lemma_bind_ok(m4, m5, end, step_write(addr, SLOT_PUK_HASH_INDEX, new_puk_hash@, io_key@, serial@), spec_fails_with(res), k_reset_puk_written(addr, io_key@, serial@, new_puk@, res), ());
                    lemma_bind_ok(m3, m4, end, step_random_puk(addr), spec_fails_with(res), k_reset_puk(addr, io_key@, serial@, res), new_puk@);
                    lemma_bind_ok(m2, m3, end, step_genkeys(addr, spec_reset_key_slots()), spec_fails_with(res), k_reset_keys(addr, io_key@, serial@, res), ());
                    lemma_bind_ok(mB, m2, end, step_serial(addr, cache), spec_fails_with(res), k_reset_serial(addr, io_key@, res), serial@);
                    lemma_bind_ok(mA, mB, end, step_counter(addr, CounterId::Counter1), spec_fails_with(res), k_reset_c1(addr, io_key@, cache, c0, res), c1);
                    lemma_bind_ok(start, mA, end, step_counter(addr, CounterId::Counter0), spec_fails_with(res), k_reset_c0(addr, io_key@, cache, res), c0);
                }
                return res;
            },
        };
        if !full0 {
            let res: Result<[u8; PUK_LEN], CryptoServiceError<H::Error>> = Err(CryptoServiceError::Bricked);
            proof {
                let end = self.atecc.bus_log();
                    lemma_extends_trans(m6, m7, end);
                    lemma_extends_trans(m5, m6, end);
                    lemma_extends_trans(m4, m5, end);
                    lemma_extends_trans(m3, m4, end);
                    lemma_extends_trans(m2, m3, end);
                    lemma_extends_trans(mB, m2, end);
                    lemma_extends_trans(mA, mB, end);
                    lemma_extends_trans(start, mA, end);
                    lemma_bind_last(m7, end, step_refresh(addr, CounterId::Counter0, PIN_MAX_RETRIES), spec_fails_with(res), k_reset_done(new_puk@, res), false);
                    lemma_bind_ok(m6, m7, end, step_write(addr, SLOT_PIN_HASH_INDEX, default_hash@, io_key@, serial@), spec_fails_with(res), k_reset_pin_written(addr, new_puk@, res), ());
                    lemma_bind_ok(m5, m6, end, step_refresh(addr, CounterId::Counter1, PUK_MAX_RETRIES), spec_fails_with(res), k_reset_c1_refreshed(addr, io_key@, serial@, new_puk@, res), true);
                    lemma_bind_ok(m4, m5, end, step_write(addr, SLOT_PUK_HASH_INDEX, new_puk_hash@, io_key@, serial@), spec_fails_with(res), k_reset_puk_written(addr, io_key@, serial@, new_puk@, res), ());
                    lemma_bind_ok(m3, m4, end, step_random_puk(addr), spec_fails_with(res), k_reset_puk(addr, io_key@, serial@, res), new_puk@);
                    lemma_bind_ok(m2, m3, end, step_genkeys(addr, spec_reset_key_slots()), spec_fails_with(res), k_reset_keys(addr, io_key@, serial@, res), ());
                    lemma_bind_ok(mB, m2, end, step_serial(addr, cache), spec_fails_with(res), k_reset_serial(addr, io_key@, res), serial@);
                    lemma_bind_ok(mA, mB, end, step_counter(addr, CounterId::Counter1), spec_fails_with(res), k_reset_c1(addr, io_key@, cache, c0, res), c1);
                    lemma_bind_ok(start, mA, end, step_counter(addr, CounterId::Counter0), spec_fails_with(res), k_reset_c0(addr, io_key@, cache, res), c0);
            }
            return res;
        }
        let res: Result<[u8; PUK_LEN], CryptoServiceError<H::Error>> = Ok(new_puk);
        proof {
            let end = self.atecc.bus_log();
            lemma_extends_trans(m6, m7, end);
            lemma_extends_trans(m5, m6, end);
            lemma_extends_trans(m4, m5, end);
            lemma_extends_trans(m3, m4, end);
            lemma_contains(start, m2, m3, end,
                |d: Seq<HalOp>| spec_session(addr, d, rel_genkeys(addr, spec_reset_key_slots()), Ok::<(), AteccErrorKind>(())));
            lemma_contains(start, m4, m5, end,
                spec_written(addr, SLOT_PUK_HASH_INDEX, spec_code_hash(new_puk@, spec_puk_salt(serial@)), io_key@, serial@));
            lemma_contains(start, m6, m7, end,
                spec_written(addr, SLOT_PIN_HASH_INDEX, spec_code_hash(spec_pin_default(), spec_pin_salt(serial@)), io_key@, serial@));
                    lemma_extends_trans(m6, m7, end);
                    lemma_extends_trans(m5, m6, end);
                    lemma_extends_trans(m4, m5, end);
                    lemma_extends_trans(m3, m4, end);
                    lemma_extends_trans(m2, m3, end);
                    lemma_extends_trans(mB, m2, end);
                    lemma_extends_trans(mA, mB, end);
                    lemma_extends_trans(start, mA, end);
                    lemma_bind_last(m7, end, step_refresh(addr, CounterId::Counter0, PIN_MAX_RETRIES), spec_fails_with(res), k_reset_done(new_puk@, res), true);
                    lemma_bind_ok(m6, m7, end, step_write(addr, SLOT_PIN_HASH_INDEX, default_hash@, io_key@, serial@), spec_fails_with(res), k_reset_pin_written(addr, new_puk@, res), ());
                    lemma_bind_ok(m5, m6, end, step_refresh(addr, CounterId::Counter1, PUK_MAX_RETRIES), spec_fails_with(res), k_reset_c1_refreshed(addr, io_key@, serial@, new_puk@, res), true);
                    lemma_bind_ok(m4, m5, end, step_write(addr, SLOT_PUK_HASH_INDEX, new_puk_hash@, io_key@, serial@), spec_fails_with(res), k_reset_puk_written(addr, io_key@, serial@, new_puk@, res), ());
                    lemma_bind_ok(m3, m4, end, step_random_puk(addr), spec_fails_with(res), k_reset_puk(addr, io_key@, serial@, res), new_puk@);
                    lemma_bind_ok(m2, m3, end, step_genkeys(addr, spec_reset_key_slots()), spec_fails_with(res), k_reset_keys(addr, io_key@, serial@, res), ());
                    lemma_bind_ok(mB, m2, end, step_serial(addr, cache), spec_fails_with(res), k_reset_serial(addr, io_key@, res), serial@);
                    lemma_bind_ok(mA, mB, end, step_counter(addr, CounterId::Counter1), spec_fails_with(res), k_reset_c1(addr, io_key@, cache, c0, res), c1);
                    lemma_bind_ok(start, mA, end, step_counter(addr, CounterId::Counter0), spec_fails_with(res), k_reset_c0(addr, io_key@, cache, res), c0);
        }
        res
    }

    /// Read the chip's revision bytes.
    fn session_info_revision(&mut self) -> (r: Result<[u8; 4], CryptoServiceError<H::Error>>)
        ensures
            final(self).clock_readings() == old(self).clock_readings(),
            final(self).address() == old(self).address(),
            final(self).session_state() == old(self).session_state(),
            final(self).serial_cache() == old(self).serial_cache(),
            spec_extends(old(self).bus_log(), final(self).bus_log()),
            spec_is_driver_error(r),
            spec_session(old(self).address(), spec_delta(old(self).bus_log(), final(self).bus_log()),
                rel_info(old(self).address(), INFO_MODE_REVISION), spec_driver_bytes(r)),
    {
        let ghost start = self.atecc.bus_log();
        let ghost addr = self.atecc.address();
        let ghost cmd = rel_info(addr, INFO_MODE_REVISION);
        match wake(&mut self.atecc) {
            Ok(()) => {},
            Err(e) => {
                proof { lemma_session_wake_failed(addr, start, self.atecc.bus_log(), cmd, spec_error_kind(e)); }
                return Err(CryptoServiceError::Atecc(e));
            },
        }
        let ghost mid = self.atecc.bus_log();
        let v = match self.atecc.info_command(INFO_MODE_REVISION) {
            Ok(v) => v,
            Err(e) => {
                proof { lemma_session_command_failed(addr, start, mid, self.atecc.bus_log(), cmd, spec_error_kind(e)); }
                return Err(CryptoServiceError::Atecc(e));
            },
        };
        let ghost mid2 = self.atecc.bus_log();
        let c = idle(&mut self.atecc);
        proof { lemma_session_closed(addr, start, mid, mid2, self.atecc.bus_log(), cmd, v@, spec_unit_outcome(c)); }
        match c {
            Ok(()) => Ok(v),
            Err(e) => Err(CryptoServiceError::Atecc(e)),
        }
    }

    /// Write config block `block` with `data`.
    fn session_config_block_write(&mut self, block: u8, data: &[u8; 32]) -> (r: Result<(), CryptoServiceError<H::Error>>)
        ensures
            final(self).clock_readings() == old(self).clock_readings(),
            final(self).address() == old(self).address(),
            final(self).session_state() == old(self).session_state(),
            final(self).serial_cache() == old(self).serial_cache(),
            spec_extends(old(self).bus_log(), final(self).bus_log()),
            spec_is_driver_error(r),
            spec_session(old(self).address(), spec_delta(old(self).bus_log(), final(self).bus_log()),
                rel_config_block_write(old(self).address(), block, data@), spec_driver_outcome(r)),
    {
        let ghost start = self.atecc.bus_log();
        let ghost addr = self.atecc.address();
        let ghost cmd = rel_config_block_write(addr, block, data@);
        match wake(&mut self.atecc) {
            Ok(()) => {},
            Err(e) => {
                proof { lemma_session_wake_failed(addr, start, self.atecc.bus_log(), cmd, spec_error_kind(e)); }
                return Err(CryptoServiceError::Atecc(e));
            },
        }
        let ghost mid = self.atecc.bus_log();
        let v = match self.atecc.config_block_write_command(block, data) {
            Ok(v) => v,
            Err(e) => {
                proof { lemma_session_command_failed(addr, start, mid, self.atecc.bus_log(), cmd, spec_error_kind(e)); }
                return Err(CryptoServiceError::Atecc(e));
            },
        };
        let ghost mid2 = self.atecc.bus_log();
        let c = idle(&mut self.atecc);
        proof { lemma_session_closed(addr, start, mid, mid2, self.atecc.bus_log(), cmd, v, spec_unit_outcome(c)); }
        match c {
            Ok(()) => Ok(v),
            Err(e) => Err(CryptoServiceError::Atecc(e)),
        }
    }


    /// The chip's revision, serial number and provisioning state.
    pub fn info(&mut self) -> (r: Result<DeviceInfo, CryptoServiceError<H::Error>>)
        ensures
            final(self).clock_readings() == old(self).clock_readings(),
            Self::post_info(*old(self), *final(self), r),
    {
        let ghost start = self.atecc.bus_log();
        let ghost addr = self.atecc.address();
        let ghost cache = self.serial_cache();
        let revision = match self.session_info_revision() {
            Ok(v) => v,
            Err(e) => {
                let res: Result<DeviceInfo, CryptoServiceError<H::Error>> = Err(e);
                proof {
                    lemma_bind_err(start, self.atecc.bus_log(), step_info_revision(addr), spec_fails_with(res),
                        k_info_revision(addr, cache, res), spec_error_kind(e->Atecc_0));
                }
                return res;
            },
        };
        let ghost m1 = self.atecc.bus_log();
        let serial = match self.cached_serial() {
            Ok(s) => s,
            Err(e) => {
                let res: Result<DeviceInfo, CryptoServiceError<H::Error>> = Err(e);
                proof {
                    let end = self.atecc.bus_log();
                    lemma_extends_trans(start, m1, end);
                    lemma_bind_err(m1, end, step_serial(addr, cache), spec_fails_with(res),
                        k_info_serial(addr, revision@, res), spec_error_kind(e->Atecc_0));
                    lemma_bind_ok(start, m1, end, step_info_revision(addr), spec_fails_with(res),
                        k_info_revision(addr, cache, res), revision@);
                }
                return res;
            },
        };
        let ghost m2 = self.atecc.bus_log();
        proof { lemma_extends_trans(start, m1, m2); }
        let is_provisioned = match self.is_provisioned() {
            Ok(b) => b,
            Err(e) => {
                let res: Result<DeviceInfo, CryptoServiceError<H::Error>> = Err(e);
                proof {
                    let end = self.atecc.bus_log();
                    lemma_extends_trans(start, m2, end);
                    lemma_extends_trans(m1, m2, end);
                    lemma_bind_err(m2, end, step_provisioned(addr), spec_fails_with(res),
                        k_info_done(revision@, serial@, res), spec_error_kind(e->Atecc_0));
                    lemma_bind_ok(m1, m2, end, step_serial(addr, cache), spec_fails_with(res),
                        k_info_serial(addr, revision@, res), serial@);
                    lemma_bind_ok(start, m1, end, step_info_revision(addr), spec_fails_with(res),
                        k_info_revision(addr, cache, res), revision@);
                }
                return res;
            },
        };
        let res: Result<DeviceInfo, CryptoServiceError<H::Error>> = Ok(DeviceInfo { revision, serial, is_provisioned });
        proof {
            let end = self.atecc.bus_log();
            lemma_extends_trans(m1, m2, end);
            lemma_extends_refl(end);
            lemma_delta_within(start, m1, end, end);
            let d = spec_delta(start, end);
            let k = spec_delta(start, m1).len() as int;
            assert(d.take(k) == spec_delta(start, m1));
            lemma_ends_with(start, m2, end, |d: Seq<HalOp>| exists|cfg: Seq<u8>| #[trigger] spec_session(addr, d,
                rel_config_zone(addr), Ok::<Seq<u8>, AteccErrorKind>(cfg)) && is_provisioned == spec_provisioned(cfg));
            lemma_bind_last(m2, end, step_provisioned(addr), spec_fails_with(res),
                k_info_done(revision@, serial@, res), is_provisioned);
            lemma_bind_ok(m1, m2, end, step_serial(addr, cache), spec_fails_with(res),
                k_info_serial(addr, revision@, res), serial@);
            lemma_bind_ok(start, m1, end, step_info_revision(addr), spec_fails_with(res),
                k_info_revision(addr, cache, res), revision@);
        }
        res
    }

    /// Sign `digest` with the key of `slot`, within an active PIN session,
    /// which the signature then touches.
    pub fn sign(&mut self, slot: Slot, digest: &[u8; 32]) -> (r: Result<[u8; SIGNATURE_SIZE], CryptoServiceError<H::Error>>)
        ensures
            Self::post_sign(*old(self), *final(self), slot, digest, r),
    {
        let now = self.read_clock();
        if !self.session.is_active(now) {
            proof { lemma_extends_refl(self.atecc.bus_log()); }
            return Err(CryptoServiceError::PinRequired);
        }
        let signature = self.session_sign(slot, digest)?;
        self.session.touch(now);
        Ok(signature)
    }

    /// Attempts left for the PIN and the PUK, and whether a session is
    /// active.
    pub fn get_pin_status(&mut self) -> (r: Result<PinStatus, CryptoServiceError<H::Error>>)
        ensures
            Self::post_get_pin_status(*old(self), *final(self), r),
    {
        let ghost start = self.atecc.bus_log();
        let ghost addr = self.atecc.address();
        let res = self.session_two_counters();
        proof {
            assert(spec_session(addr, spec_delta(start, self.atecc.bus_log()), rel_two_counters(addr), spec_driver_outcome(res)));
        }
        let (c0, c1) = match res {
            Ok(p) => p,
            Err(e) => return Err(e),
        };
        let now = self.read_clock();
        let active = self.session.is_active(now);
        Ok(PinStatus {
            pin_tries_remaining: retries_remaining(c0, PIN_MAX_RETRIES),
            puk_tries_remaining: retries_remaining(c1, PUK_MAX_RETRIES),
            session_active: active,
        })
    }

    /// Write config block `block` (0 to 3) with `data`, skipping the
    /// read-only words of blocks 0 and 2. A block above 3 is refused
    /// without touching the chip.
    pub fn write_config_block(&mut self, block: u8, data: &[u8; 32]) -> (r: Result<(), CryptoServiceError<H::Error>>)
        ensures
            final(self).clock_readings() == old(self).clock_readings(),
            Self::post_write_config_block(*old(self), *final(self), block, data, r),
    {
        if block > 3 {
            proof { lemma_extends_refl(self.atecc.bus_log()); }
            return Err(CryptoServiceError::InvalidFormat(FormatError::OutOfRange));
        }
        self.session_config_block_write(block, data)
    }
}

impl<H: AteccHal, C: Clock> CryptoService<H, C> {
    /// What `info` guarantees, relating the service before and after
    /// the call and the result.
    pub open spec fn post_info(before: Self, after: Self, r: Result<DeviceInfo, CryptoServiceError<H::Error>>) -> bool {
        &&& (after.address() == before.address())
        &&& (after.session_state() == before.session_state())
        &&& (spec_extends(before.bus_log(), after.bus_log()))
        &&& (spec_is_driver_error(r))
        &&& (r matches Ok(di) ==> spec_starts_with(spec_delta(before.bus_log(), after.bus_log()),
                    |d: Seq<HalOp>| spec_session(before.address(), d, rel_info(before.address(), INFO_MODE_REVISION),
                        Ok::<Seq<u8>, AteccErrorKind>(di.revision@))))
        &&& (r matches Ok(di) ==> after.serial_cache() == Some(di.serial@))
        &&& (r matches Ok(di) ==> spec_ends_with(spec_delta(before.bus_log(), after.bus_log()),
                    |d: Seq<HalOp>| exists|cfg: Seq<u8>| #[trigger] spec_session(before.address(), d,
                        rel_config_zone(before.address()), Ok::<Seq<u8>, AteccErrorKind>(cfg))
                        && di.is_provisioned == spec_provisioned(cfg)))
        &&& (before.serial_cache() is Some ==> after.serial_cache() == before.serial_cache())
        &&& run_info(before.address(), before.serial_cache(), r)(spec_delta(before.bus_log(), after.bus_log()))
    }

    /// What `get_pubkey` guarantees, relating the service before and after
    /// the call and the result.
    pub open spec fn post_get_pubkey(before: Self, after: Self, slot: Slot, r: Result<[u8; PUBLIC_KEY_SIZE], CryptoServiceError<H::Error>>) -> bool {
        &&& (after.address() == before.address())
        &&& (after.session_state() == before.session_state())
        &&& (after.serial_cache() == before.serial_cache())
        &&& (spec_extends(before.bus_log(), after.bus_log()))
        &&& (spec_is_driver_error(r))
        &&& (spec_session(before.address(), spec_delta(before.bus_log(), after.bus_log()),
                    rel_genkey(before.address(), GENKEY_MODE_PUBLIC, slot.index()), spec_driver_bytes(r)))
    }

    /// What `genkey_create` guarantees, relating the service before and after
    /// the call and the result.
    pub open spec fn post_genkey_create(before: Self, after: Self, slot: Slot, r: Result<[u8; PUBLIC_KEY_SIZE], CryptoServiceError<H::Error>>) -> bool {
        &&& (after.address() == before.address())
        &&& (after.session_state() == before.session_state())
        &&& (after.serial_cache() == before.serial_cache())
        &&& (spec_extends(before.bus_log(), after.bus_log()))
        &&& (spec_is_driver_error(r))
        &&& (spec_session(before.address(), spec_delta(before.bus_log(), after.bus_log()),
                    rel_genkey(before.address(), GENKEY_MODE_CREATE, slot.index()), spec_driver_bytes(r)))
    }

    /// What `read_config_slot` guarantees, relating the service before and after
    /// the call and the result.
    pub open spec fn post_read_config_slot(before: Self, after: Self, slot: Slot, r: Result<[u8; 4], CryptoServiceError<H::Error>>) -> bool {
        &&& (after.address() == before.address())
        &&& (after.session_state() == before.session_state())
        &&& (after.serial_cache() == before.serial_cache())
        &&& (spec_extends(before.bus_log(), after.bus_log()))
        &&& (spec_is_driver_error(r))
        &&& (exists|o: Result<Seq<u8>, AteccErrorKind>|
                    #[trigger] spec_session(before.address(), spec_delta(before.bus_log(), after.bus_log()),
                        rel_config_zone(before.address()), o)
                    && match o {
                        Ok(cfg) => r matches Ok(v) && v@ == spec_slot_config(cfg, slot.index() as int),
                        Err(e) => spec_driver_outcome(r) == Err::<[u8; 4], AteccErrorKind>(e),
                    })
    }

    /// What `read_config_block` guarantees, relating the service before and after
    /// the call and the result.
    pub open spec fn post_read_config_block(before: Self, after: Self, block: u8, r: Result<[u8; 32], CryptoServiceError<H::Error>>) -> bool {
        &&& (after.address() == before.address())
        &&& (after.session_state() == before.session_state())
        &&& (after.serial_cache() == before.serial_cache())
        &&& (spec_extends(before.bus_log(), after.bus_log()))
        &&& (block > 3 <==> r matches Err(CryptoServiceError::InvalidFormat(FormatError::OutOfRange)))
        &&& (block > 3 ==> spec_delta(before.bus_log(), after.bus_log()).len() == 0)
        &&& (block <= 3 ==> spec_is_driver_error(r) && exists|o: Result<Seq<u8>, AteccErrorKind>|
                    #[trigger] spec_session(before.address(), spec_delta(before.bus_log(), after.bus_log()),
                        rel_config_zone(before.address()), o)
                    && match o {
                        Ok(cfg) => r matches Ok(v) && v@ == cfg.subrange(block * 32, block * 32 + 32),
                        Err(e) => spec_driver_outcome(r) == Err::<[u8; 32], AteccErrorKind>(e),
                    })
    }

    /// What `write_config_block` guarantees, relating the service before and after
    /// the call and the result.
    pub open spec fn post_write_config_block(before: Self, after: Self, block: u8, data: &[u8; 32], r: Result<(), CryptoServiceError<H::Error>>) -> bool {
        &&& (after.address() == before.address())
        &&& (after.session_state() == before.session_state())
        &&& (after.serial_cache() == before.serial_cache())
        &&& (spec_extends(before.bus_log(), after.bus_log()))
        &&& (block > 3 <==> r matches Err(CryptoServiceError::InvalidFormat(FormatError::OutOfRange)))
        &&& (block > 3 ==> spec_delta(before.bus_log(), after.bus_log()).len() == 0)
        &&& (block <= 3 ==> spec_is_driver_error(r) && spec_session(
                    before.address(), spec_delta(before.bus_log(), after.bus_log()),
                    rel_config_block_write(before.address(), block, data@), spec_driver_outcome(r),
                ))
    }

    /// What `verify_pin` guarantees, relating the service before and after
    /// the call and the result.
    pub open spec fn post_verify_pin(before: Self, after: Self, pin: &[u8; PIN_LEN], r: Result<(), CryptoServiceError<H::Error>>) -> bool {
        &&& (after.address() == before.address())
        &&& (spec_extends(before.bus_log(), after.bus_log()))
        &&& (r matches Err(CryptoServiceError::InvalidFormat(e)) <==> !all_digits(pin@))
        &&& (r matches Err(CryptoServiceError::InvalidFormat(e)) ==> spec_format_rejection(pin@, e)
                    && spec_delta(before.bus_log(), after.bus_log()).len() == 0)
        &&& (r == Err::<(), CryptoServiceError<H::Error>>(CryptoServiceError::PinBlocked) ==> spec_counter_then(
                    before.address(), CounterId::Counter0, spec_delta(before.bus_log(), after.bus_log()),
                    |c: u32| spec_retries_remaining(c, PIN_MAX_RETRIES) == 0))
        &&& (r matches Err(CryptoServiceError::PinIncorrect { tries_remaining }) ==> spec_ends_with(
                    spec_delta(before.bus_log(), after.bus_log()),
                    |d: Seq<HalOp>| spec_counter_then(before.address(), CounterId::Counter0, d,
                        |c: u32| tries_remaining == spec_retries_remaining(c, PIN_MAX_RETRIES))))
        &&& (r is Ok ==> after.session_state() is Some)
        &&& (r is Ok ==> (after.serial_cache() matches Some(s) && spec_contains(
                    spec_delta(before.bus_log(), after.bus_log()),
                    spec_confirmed(before.address(), SLOT_PIN_HASH_INDEX, spec_code_hash(pin@, spec_pin_salt(s)), s))))
        &&& (r is Err ==> after.session_state() == before.session_state())
        &&& (before.serial_cache() is Some ==> after.serial_cache() == before.serial_cache())
        &&& (r matches Err(e) ==> (e is Atecc || e is InvalidFormat || e is PinBlocked || e is PinIncorrect))
        &&& (all_digits(pin@) ==> run_verify_pin(before.address(), pin@, before.serial_cache(), r)(
                    spec_delta(before.bus_log(), after.bus_log())))
        &&& (r is Ok ==> exists|now: u64| after.session_state() == Some(now))
        &&& (r is Ok ==> spec_read_once(before.clock_readings(), after.clock_readings())
                    && after.session_state() == Some(after.clock_readings().last()))
        &&& (r is Err ==> after.clock_readings() == before.clock_readings())
    }

    /// What `set_pin` guarantees, relating the service before and after
    /// the call and the result.
    pub open spec fn post_set_pin(before: Self, after: Self, old_pin: &[u8; PIN_LEN], new_pin: &[u8; PIN_LEN], io_key: &[u8; SLOT_VALUE_LEN], r: Result<(), CryptoServiceError<H::Error>>) -> bool {
        &&& (after.address() == before.address())
        &&& (spec_extends(before.bus_log(), after.bus_log()))
        &&& (r matches Err(CryptoServiceError::InvalidFormat(e)) <==> !all_digits(old_pin@) || !all_digits(new_pin@))
        &&& (r matches Err(CryptoServiceError::InvalidFormat(e)) ==> (if !all_digits(old_pin@) {
                    spec_format_rejection(old_pin@, e)
                } else {
                    spec_format_rejection(new_pin@, e)
                }) && spec_delta(before.bus_log(), after.bus_log()).len() == 0)
        &&& (r == Err::<(), CryptoServiceError<H::Error>>(CryptoServiceError::PinBlocked) ==> spec_counter_then(
                    before.address(), CounterId::Counter0, spec_delta(before.bus_log(), after.bus_log()),
                    |c: u32| spec_retries_remaining(c, PIN_MAX_RETRIES) == 0))
        &&& (r matches Err(CryptoServiceError::PinIncorrect { tries_remaining }) ==> spec_ends_with(
                    spec_delta(before.bus_log(), after.bus_log()),
                    |d: Seq<HalOp>| spec_counter_then(before.address(), CounterId::Counter0, d,
                        |c: u32| tries_remaining == spec_retries_remaining(c, PIN_MAX_RETRIES))))
        &&& (r is Ok ==> after.session_state() is Some)
        &&& (r is Ok ==> (after.serial_cache() matches Some(s)
                    && spec_contains(spec_delta(before.bus_log(), after.bus_log()),
                        spec_confirmed(before.address(), SLOT_PIN_HASH_INDEX, spec_code_hash(old_pin@, spec_pin_salt(s)), s))
                    && spec_contains(spec_delta(before.bus_log(), after.bus_log()),
                        spec_written(before.address(), SLOT_PIN_HASH_INDEX, spec_code_hash(new_pin@, spec_pin_salt(s)), io_key@, s))))
        &&& (r is Err ==> after.session_state() == before.session_state())
        &&& (before.serial_cache() is Some ==> after.serial_cache() == before.serial_cache())
        &&& (r matches Err(e) ==> (e is Atecc || e is InvalidFormat || e is PinBlocked || e is PinIncorrect))
        &&& (all_digits(old_pin@) && all_digits(new_pin@) ==> run_set_pin(before.address(), old_pin@, new_pin@, io_key@,
                    before.serial_cache(), r)(spec_delta(before.bus_log(), after.bus_log())))
        &&& (r is Ok ==> spec_read_once(before.clock_readings(), after.clock_readings())
                    && after.session_state() == Some(after.clock_readings().last()))
        &&& (r is Err ==> after.clock_readings() == before.clock_readings())
    }

    /// What `unblock_pin` guarantees, relating the service before and after
    /// the call and the result.
    pub open spec fn post_unblock_pin(before: Self, after: Self, puk: &[u8; PUK_LEN], new_pin: &[u8; PIN_LEN], io_key: &[u8; SLOT_VALUE_LEN], r: Result<(), CryptoServiceError<H::Error>>) -> bool {
        &&& (after.address() == before.address())
        &&& (after.session_state() == before.session_state())
        &&& (spec_extends(before.bus_log(), after.bus_log()))
        &&& (r matches Err(CryptoServiceError::InvalidFormat(e)) <==> !all_digits(puk@) || !all_digits(new_pin@))
        &&& (r matches Err(CryptoServiceError::InvalidFormat(e)) ==> (if !all_digits(puk@) {
                    spec_format_rejection(puk@, e)
                } else {
                    spec_format_rejection(new_pin@, e)
                }) && spec_delta(before.bus_log(), after.bus_log()).len() == 0)
        &&& (r == Err::<(), CryptoServiceError<H::Error>>(CryptoServiceError::Bricked) ==> spec_counter_then(
                    before.address(), CounterId::Counter1, spec_delta(before.bus_log(), after.bus_log()),
                    |c: u32| spec_retries_remaining(c, PUK_MAX_RETRIES) == 0))
        &&& (r matches Err(CryptoServiceError::PukIncorrect { tries_remaining }) ==> spec_ends_with(
                    spec_delta(before.bus_log(), after.bus_log()),
                    |d: Seq<HalOp>| spec_counter_then(before.address(), CounterId::Counter1, d,
                        |c: u32| tries_remaining == spec_retries_remaining(c, PUK_MAX_RETRIES))))
        &&& (r is Ok ==> (after.serial_cache() matches Some(s)
                    && spec_contains(spec_delta(before.bus_log(), after.bus_log()),
                        spec_confirmed(before.address(), SLOT_PUK_HASH_INDEX, spec_code_hash(puk@, spec_puk_salt(s)), s))
                    && spec_contains(spec_delta(before.bus_log(), after.bus_log()),
                        spec_written(before.address(), SLOT_PIN_HASH_INDEX, spec_code_hash(new_pin@, spec_pin_salt(s)), io_key@, s))))
        &&& (before.serial_cache() is Some ==> after.serial_cache() == before.serial_cache())
        &&& (r matches Err(e) ==> (e is Atecc || e is InvalidFormat || e is Bricked || e is PukIncorrect))
        &&& (all_digits(puk@) && all_digits(new_pin@) ==> run_unblock_pin(before.address(), puk@, new_pin@, io_key@,
                    before.serial_cache(), r)(spec_delta(before.bus_log(), after.bus_log())))
    }

    /// What `set_puk` guarantees, relating the service before and after
    /// the call and the result.
    pub open spec fn post_set_puk(before: Self, after: Self, old_puk: &[u8; PUK_LEN], new_puk: &[u8; PUK_LEN], io_key: &[u8; SLOT_VALUE_LEN], r: Result<(), CryptoServiceError<H::Error>>) -> bool {
        &&& (after.address() == before.address())
        &&& (spec_extends(before.bus_log(), after.bus_log()))
        &&& (r matches Err(CryptoServiceError::InvalidFormat(e)) <==> !all_digits(old_puk@) || !all_digits(new_puk@))
        &&& (r matches Err(CryptoServiceError::InvalidFormat(e)) ==> (if !all_digits(old_puk@) {
                    spec_format_rejection(old_puk@, e)
                } else {
                    spec_format_rejection(new_puk@, e)
                }) && spec_delta(before.bus_log(), after.bus_log()).len() == 0)
        &&& (r == Err::<(), CryptoServiceError<H::Error>>(CryptoServiceError::PinRequired) ==> (
                    spec_delta(before.bus_log(), after.bus_log()).len() == 0
                    && !spec_active_at(before.session_state(), after.clock_readings().last())))
        &&& (r == Err::<(), CryptoServiceError<H::Error>>(CryptoServiceError::Bricked) ==> spec_counter_then(
                    before.address(), CounterId::Counter1, spec_delta(before.bus_log(), after.bus_log()),
                    |c: u32| spec_retries_remaining(c, PUK_MAX_RETRIES) == 0))
        &&& (r matches Err(CryptoServiceError::PukIncorrect { tries_remaining }) ==> spec_ends_with(
                    spec_delta(before.bus_log(), after.bus_log()),
                    |d: Seq<HalOp>| spec_counter_then(before.address(), CounterId::Counter1, d,
                        |c: u32| tries_remaining == spec_retries_remaining(c, PUK_MAX_RETRIES))))
        &&& (r is Ok ==> spec_active_at(before.session_state(), after.clock_readings().last()))
        &&& (r is Ok ==> (after.serial_cache() matches Some(s)
                    && spec_contains(spec_delta(before.bus_log(), after.bus_log()),
                        spec_confirmed(before.address(), SLOT_PUK_HASH_INDEX, spec_code_hash(old_puk@, spec_puk_salt(s)), s))
                    && spec_contains(spec_delta(before.bus_log(), after.bus_log()),
                        spec_written(before.address(), SLOT_PUK_HASH_INDEX, spec_code_hash(new_puk@, spec_puk_salt(s)), io_key@, s))))
        &&& (r is Err ==> after.session_state() == before.session_state())
        &&& (before.serial_cache() is Some ==> after.serial_cache() == before.serial_cache())
        &&& (r matches Err(e) ==> (e is Atecc || e is InvalidFormat || e is PinRequired || e is Bricked || e is PukIncorrect))
        &&& (!all_digits(old_puk@) || !all_digits(new_puk@) ==> after.clock_readings() == before.clock_readings())
        &&& (all_digits(old_puk@) && all_digits(new_puk@) ==> spec_read_once(before.clock_readings(), after.clock_readings())
                    && run_set_puk(before.address(), old_puk@, new_puk@, io_key@, before.serial_cache(),
                        spec_active_at(before.session_state(), after.clock_readings().last()), r)(
                        spec_delta(before.bus_log(), after.bus_log())))
        &&& (r is Ok ==> after.session_state() == Some(after.clock_readings().last()))
    }

    /// What `emergency_reset` guarantees, relating the service before and after
    /// the call and the result.
    pub open spec fn post_emergency_reset(before: Self, after: Self, io_key: &[u8; SLOT_VALUE_LEN], r: Result<[u8; PUK_LEN], CryptoServiceError<H::Error>>) -> bool {
        &&& (after.address() == before.address())
        &&& (after.session_state() == before.session_state())
        &&& (spec_extends(before.bus_log(), after.bus_log()))
        &&& (r matches Err(CryptoServiceError::EmergencyResetNotPermitted { pin_tries_remaining, puk_tries_remaining }) ==> (
                    (pin_tries_remaining != 0 || puk_tries_remaining != 0)
                    && exists|k: int| 0 <= k <= spec_delta(before.bus_log(), after.bus_log()).len()
                        && spec_counter_then(before.address(), CounterId::Counter0,
                            #[trigger] spec_delta(before.bus_log(), after.bus_log()).take(k),
                            |c: u32| pin_tries_remaining == spec_retries_remaining(c, PIN_MAX_RETRIES))
                        && spec_counter_then(before.address(), CounterId::Counter1,
                            spec_delta(before.bus_log(), after.bus_log()).skip(k),
                            |c: u32| puk_tries_remaining == spec_retries_remaining(c, PUK_MAX_RETRIES))))
        &&& (r matches Ok(puk) ==> all_digits(puk@))
        &&& (r matches Ok(puk) ==> (after.serial_cache() matches Some(s)
                    && spec_contains(spec_delta(before.bus_log(), after.bus_log()),
                        |d: Seq<HalOp>| spec_session(before.address(), d, rel_genkeys(before.address(), spec_reset_key_slots()),
                            Ok::<(), AteccErrorKind>(())))
                    && spec_contains(spec_delta(before.bus_log(), after.bus_log()),
                        spec_written(before.address(), SLOT_PUK_HASH_INDEX, spec_code_hash(puk@, spec_puk_salt(s)), io_key@, s))
                    && spec_contains(spec_delta(before.bus_log(), after.bus_log()),
                        spec_written(before.address(), SLOT_PIN_HASH_INDEX, spec_code_hash(spec_pin_default(), spec_pin_salt(s)), io_key@, s))))
        &&& (before.serial_cache() is Some ==> after.serial_cache() == before.serial_cache())
        &&& (r matches Err(e) ==> (e is Atecc || e is EmergencyResetNotPermitted || e is Bricked))
        &&& run_emergency_reset(before.address(), io_key@, before.serial_cache(), r)(spec_delta(before.bus_log(), after.bus_log()))
    }

    /// What `provision_slot` guarantees, relating the service before and after
    /// the call and the result.
    pub open spec fn post_provision_slot(before: Self, after: Self, slot: Slot, value: &[u8; 32], r: Result<(), CryptoServiceError<H::Error>>) -> bool {
        &&& (after.address() == before.address())
        &&& (after.session_state() == before.session_state())
        &&& (after.serial_cache() == before.serial_cache())
        &&& (spec_extends(before.bus_log(), after.bus_log()))
        &&& (spec_provisionable(slot.index()) <==> !(r matches Err(CryptoServiceError::InvalidSlot { .. })))
        &&& (r matches Err(CryptoServiceError::InvalidSlot { slot: s }) ==> s == slot)
        &&& (!spec_provisionable(slot.index()) ==> spec_delta(before.bus_log(), after.bus_log()).len() == 0)
        &&& (spec_provisionable(slot.index()) ==> spec_is_driver_error(r) && spec_session(
                    before.address(), spec_delta(before.bus_log(), after.bus_log()),
                    rel_write_data_block(before.address(), slot.index(), value@), spec_driver_outcome(r),
                ))
    }

    /// What `provision_initial_pin` guarantees, relating the service before and after
    /// the call and the result.
    pub open spec fn post_provision_initial_pin(before: Self, after: Self, r: Result<(), CryptoServiceError<H::Error>>) -> bool {
        &&& (after.address() == before.address())
        &&& (after.session_state() == before.session_state())
        &&& (spec_extends(before.bus_log(), after.bus_log()))
        &&& (spec_is_driver_error(r))
        &&& (r is Ok ==> (after.serial_cache() matches Some(s)
                    && spec_ends_with(spec_delta(before.bus_log(), after.bus_log()),
                        |d: Seq<HalOp>| spec_session(before.address(), d,
                            rel_write_data_block(before.address(), SLOT_PIN_HASH_INDEX, spec_code_hash(spec_pin_default(), spec_pin_salt(s))),
                            Ok::<(), AteccErrorKind>(())))))
        &&& run_provision_pin(before.address(), before.serial_cache(), r)(spec_delta(before.bus_log(), after.bus_log()))
    }

    /// What `provision_initial_puk` guarantees, relating the service before and after
    /// the call and the result.
    pub open spec fn post_provision_initial_puk(before: Self, after: Self, r: Result<[u8; PUK_LEN], CryptoServiceError<H::Error>>) -> bool {
        &&& (after.address() == before.address())
        &&& (after.session_state() == before.session_state())
        &&& (spec_extends(before.bus_log(), after.bus_log()))
        &&& (spec_is_driver_error(r))
        &&& (r matches Ok(puk) ==> all_digits(puk@))
        &&& (r matches Ok(puk) ==> (after.serial_cache() matches Some(s)
                    && spec_ends_with(spec_delta(before.bus_log(), after.bus_log()),
                        |d: Seq<HalOp>| spec_session(before.address(), d,
                            rel_write_data_block(before.address(), SLOT_PUK_HASH_INDEX, spec_code_hash(puk@, spec_puk_salt(s))),
                            Ok::<(), AteccErrorKind>(())))))
        &&& run_provision_puk(before.address(), before.serial_cache(), r)(spec_delta(before.bus_log(), after.bus_log()))
    }

    /// What `provision_initial_io_key` guarantees, relating the service before and after
    /// the call and the result.
    pub open spec fn post_provision_initial_io_key(before: Self, after: Self, r: Result<[u8; SLOT_VALUE_LEN], CryptoServiceError<H::Error>>) -> bool {
        &&& (after.address() == before.address())
        &&& (after.session_state() == before.session_state())
        &&& (after.serial_cache() == before.serial_cache())
        &&& (spec_extends(before.bus_log(), after.bus_log()))
        &&& (spec_is_driver_error(r))
        &&& (r matches Ok(key) ==> spec_ends_with(spec_delta(before.bus_log(), after.bus_log()),
                    |d: Seq<HalOp>| spec_session(before.address(), d,
                        rel_write_data_block(before.address(), SLOT_IO_KEY_INDEX, key@), Ok::<(), AteccErrorKind>(()))))
        &&& run_provision_io_key(before.address(), r)(spec_delta(before.bus_log(), after.bus_log()))
    }

    /// What `sign` guarantees, relating the service before and after
    /// the call and the result.
    pub open spec fn post_sign(before: Self, after: Self, slot: Slot, digest: &[u8; 32], r: Result<[u8; SIGNATURE_SIZE], CryptoServiceError<H::Error>>) -> bool {
        &&& (after.address() == before.address())
        &&& (after.serial_cache() == before.serial_cache())
        &&& (spec_extends(before.bus_log(), after.bus_log()))
        &&& (spec_read_once(before.clock_readings(), after.clock_readings()))
        &&& ({
                    let now = after.clock_readings().last();
                    &&& spec_active_at(before.session_state(), now) ==> spec_is_driver_error(r)
                        && spec_session(before.address(), spec_delta(before.bus_log(), after.bus_log()),
                            rel_sign(before.address(), digest@, slot.index()), spec_driver_bytes(r))
                    &&& !spec_active_at(before.session_state(), now) ==> (r matches Err(CryptoServiceError::PinRequired)
                        && spec_delta(before.bus_log(), after.bus_log()).len() == 0)
                    &&& r is Ok ==> after.session_state() == Some(now)
                    &&& r is Err ==> after.session_state() == before.session_state()
                })
    }

    /// What `get_pin_status` guarantees, relating the service before and after
    /// the call and the result.
    pub open spec fn post_get_pin_status(before: Self, after: Self, r: Result<PinStatus, CryptoServiceError<H::Error>>) -> bool {
        &&& (after.address() == before.address())
        &&& (after.session_state() == before.session_state())
        &&& (after.serial_cache() == before.serial_cache())
        &&& (spec_extends(before.bus_log(), after.bus_log()))
        &&& (spec_is_driver_error(r))
        &&& (exists|o: Result<(u32, u32), AteccErrorKind>|
                    #[trigger] spec_session(before.address(), spec_delta(before.bus_log(), after.bus_log()),
                        rel_two_counters(before.address()), o)
                    && match o {
                        Ok((c0, c1)) => r matches Ok(st) && st.pin_tries_remaining == spec_retries_remaining(c0, PIN_MAX_RETRIES)
                            && st.puk_tries_remaining == spec_retries_remaining(c1, PUK_MAX_RETRIES)
                            && st.session_active == spec_active_at(before.session_state(), after.clock_readings().last()),
                        Err(e) => spec_driver_outcome(r) == Err::<PinStatus, AteccErrorKind>(e),
                    })
        &&& (r is Ok ==> spec_read_once(before.clock_readings(), after.clock_readings()))
        &&& (r is Err ==> after.clock_readings() == before.clock_readings())
    }

    /// What `lock_config_zone` guarantees, relating the service before and after
    /// the call and the result.
    pub open spec fn post_lock_config_zone(before: Self, after: Self, expected_crc: u16, r: Result<(), CryptoServiceError<H::Error>>) -> bool {
        &&& (after.address() == before.address())
        &&& (after.session_state() == before.session_state())
        &&& (after.serial_cache() == before.serial_cache())
        &&& (spec_extends(before.bus_log(), after.bus_log()))
        &&& (spec_is_driver_error(r))
        &&& (spec_closing_session(before.address(), spec_delta(before.bus_log(), after.bus_log()),
                    cmd_lock(before.address(), LOCK_MODE_CONFIG_ZONE_VERIFY_CRC, expected_crc), spec_driver_outcome(r)))
    }

    /// What `lock_data_zone` guarantees, relating the service before and after
    /// the call and the result.
    pub open spec fn post_lock_data_zone(before: Self, after: Self, _expected_crc: u16, r: Result<(), CryptoServiceError<H::Error>>) -> bool {
        &&& (after.address() == before.address())
        &&& (after.session_state() == before.session_state())
        &&& (after.serial_cache() == before.serial_cache())
        &&& (spec_extends(before.bus_log(), after.bus_log()))
        &&& (spec_is_driver_error(r))
        &&& (spec_closing_session(before.address(), spec_delta(before.bus_log(), after.bus_log()),
                    cmd_lock(before.address(), LOCK_MODE_DATA_ZONE_NO_CRC, 0), spec_driver_outcome(r)))
    }

    /// What `lock_slot` guarantees, relating the service before and after
    /// the call and the result.
    pub open spec fn post_lock_slot(before: Self, after: Self, slot: Slot, r: Result<(), CryptoServiceError<H::Error>>) -> bool {
        &&& (after.address() == before.address())
        &&& (after.session_state() == before.session_state())
        &&& (after.serial_cache() == before.serial_cache())
        &&& (spec_extends(before.bus_log(), after.bus_log()))
        &&& (spec_is_driver_error(r))
        &&& (spec_closing_session(before.address(), spec_delta(before.bus_log(), after.bus_log()),
                    cmd_lock(before.address(), spec_lock_slot_mode(slot.index()), 0), spec_driver_outcome(r)))
    }

    /// What `read_slot_block` guarantees, relating the service before and after
    /// the call and the result.
    pub open spec fn post_read_slot_block(before: Self, after: Self, slot: Slot, block: u8, r: Result<[u8; BLOCK_SIZE], CryptoServiceError<H::Error>>) -> bool {
        &&& (after.address() == before.address())
        &&& (after.session_state() == before.session_state())
        &&& (after.serial_cache() == before.serial_cache())
        &&& (spec_extends(before.bus_log(), after.bus_log()))
        &&& (spec_is_driver_error(r))
        &&& (spec_session(before.address(), spec_delta(before.bus_log(), after.bus_log()),
                    rel_read_slot_block(before.address(), slot.index(), block), spec_driver_bytes(r)))
    }

    /// What `read_slot_word` guarantees, relating the service before and after
    /// the call and the result.
    pub open spec fn post_read_slot_word(before: Self, after: Self, slot: Slot, block: u8, offset_words: u8, r: Result<[u8; WORD_SIZE], CryptoServiceError<H::Error>>) -> bool {
        &&& (after.address() == before.address())
        &&& (after.session_state() == before.session_state())
        &&& (after.serial_cache() == before.serial_cache())
        &&& (spec_extends(before.bus_log(), after.bus_log()))
        &&& (spec_is_driver_error(r))
        &&& (spec_session(before.address(), spec_delta(before.bus_log(), after.bus_log()),
                    rel_read_slot_word(before.address(), slot.index(), block, offset_words), spec_driver_bytes(r)))
    }

    /// What `read_counter` guarantees, relating the service before and after
    /// the call and the result.
    pub open spec fn post_read_counter(before: Self, after: Self, counter: CounterId, r: Result<u32, CryptoServiceError<H::Error>>) -> bool {
        &&& (after.address() == before.address())
        &&& (after.session_state() == before.session_state())
        &&& (after.serial_cache() == before.serial_cache())
        &&& (spec_extends(before.bus_log(), after.bus_log()))
        &&& (spec_is_driver_error(r))
        &&& (spec_session(before.address(), spec_delta(before.bus_log(), after.bus_log()),
                    rel_counter_read(before.address(), counter), spec_driver_outcome(r)))
    }
}

} // verus!
