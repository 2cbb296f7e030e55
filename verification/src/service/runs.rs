//! Whole runs of the PIN and PUK operations over the bus trace: the
//! sessions each operation opens, in order, and the result that each
//! answer of the chip leads to.
use vstd::prelude::*;
use crate::atecc::command::counter::CounterId;
use crate::atecc::command::spec_session;
use crate::atecc::driver::{lemma_extends_refl, lemma_extends_trans, spec_delta, spec_extends};
use crate::atecc::error::{AteccErrorKind, spec_error_kind};
use crate::atecc::hal::HalOp;
use crate::service::error::CryptoServiceError;
use crate::service::pin::{spec_code_hash, spec_pin_salt, spec_puk_salt};
use crate::service::slots::{PIN_MAX_RETRIES, PUK_MAX_RETRIES, SLOT_IO_KEY_INDEX, SLOT_PIN_HASH_INDEX, SLOT_PUK_HASH_INDEX, spec_pin_default};
use crate::service::chip_ops::spec_reset_key_slots;
use crate::atecc::command::info::INFO_MODE_REVISION;
use crate::service::service::{
    DeviceInfo, rel_info, rel_write_data_block, spec_provisioned, rel_config_zone, rel_counter_read, rel_encrypted_write, rel_genkeys, rel_random, spec_checkmac_with_hash,
    spec_puk_from_random, spec_refresh, spec_retries_remaining, spec_serial_from_config,
};

verus! {

/// `d` is a step that `step` relates to its outcome, then: on an error the
/// trace ends there and `on_err` holds of the error; on a value `v` the
/// rest of the trace is one that `rest(v)` accepts.
pub open spec fn spec_bind<T>(
    d: Seq<HalOp>,
    step: spec_fn(Seq<HalOp>, Result<T, AteccErrorKind>) -> bool,
    on_err: spec_fn(AteccErrorKind) -> bool,
    rest: spec_fn(T) -> spec_fn(Seq<HalOp>) -> bool,
) -> bool {
    exists|k: int, o: Result<T, AteccErrorKind>|
        0 <= k <= d.len() && #[trigger] step(d.take(k), o) && match o {
            Err(e) => k == d.len() && on_err(e),
            Ok(v) => rest(v)(d.skip(k)),
        }
}

/// The traces [`spec_bind`] accepts with these arguments.
pub open spec fn spec_and_then<T>(
    step: spec_fn(Seq<HalOp>, Result<T, AteccErrorKind>) -> bool,
    on_err: spec_fn(AteccErrorKind) -> bool,
    rest: spec_fn(T) -> spec_fn(Seq<HalOp>) -> bool,
) -> spec_fn(Seq<HalOp>) -> bool {
    |d: Seq<HalOp>| spec_bind(d, step, on_err, rest)
}

/// The empty trace, when `p` holds.
pub open spec fn spec_done(p: bool) -> spec_fn(Seq<HalOp>) -> bool {
    |d: Seq<HalOp>| d.len() == 0 && p
}

/// `r` is the driver error of kind `k`.
pub open spec fn spec_fails_with<T, E>(r: Result<T, CryptoServiceError<E>>) -> spec_fn(AteccErrorKind) -> bool {
    |k: AteccErrorKind| r matches Err(CryptoServiceError::Atecc(x)) && spec_error_kind(x) == k
}

/// A step that succeeded, then the rest.
pub proof fn lemma_bind_ok<T>(
    a: Seq<HalOp>,
    b: Seq<HalOp>,
    e: Seq<HalOp>,
    step: spec_fn(Seq<HalOp>, Result<T, AteccErrorKind>) -> bool,
    on_err: spec_fn(AteccErrorKind) -> bool,
    rest: spec_fn(T) -> spec_fn(Seq<HalOp>) -> bool,
    v: T,
)
    requires
        spec_extends(a, b),
        spec_extends(b, e),
        step(spec_delta(a, b), Ok::<T, AteccErrorKind>(v)),
        rest(v)(spec_delta(b, e)),
    ensures
        spec_extends(a, e),
        spec_bind(spec_delta(a, e), step, on_err, rest),
{
    lemma_extends_trans(a, b, e);
    let d = spec_delta(a, e);
    let k = spec_delta(a, b).len() as int;
    assert(d.take(k) =~= spec_delta(a, b));
    assert(d.skip(k) =~= spec_delta(b, e));
    assert(step(d.take(k), Ok::<T, AteccErrorKind>(v)));
}

/// A step that failed, ending the trace.
pub proof fn lemma_bind_err<T>(
    a: Seq<HalOp>,
    b: Seq<HalOp>,
    step: spec_fn(Seq<HalOp>, Result<T, AteccErrorKind>) -> bool,
    on_err: spec_fn(AteccErrorKind) -> bool,
    rest: spec_fn(T) -> spec_fn(Seq<HalOp>) -> bool,
    x: AteccErrorKind,
)
    requires
        spec_extends(a, b),
        step(spec_delta(a, b), Err::<T, AteccErrorKind>(x)),
        on_err(x),
    ensures
        spec_bind(spec_delta(a, b), step, on_err, rest),
{
    let d = spec_delta(a, b);
    assert(d.take(d.len() as int) =~= d);
    assert(step(d.take(d.len() as int), Err::<T, AteccErrorKind>(x)));
}

/// The last step of a run: it succeeded and nothing follows.
pub proof fn lemma_bind_last<T>(
    a: Seq<HalOp>,
    b: Seq<HalOp>,
    step: spec_fn(Seq<HalOp>, Result<T, AteccErrorKind>) -> bool,
    on_err: spec_fn(AteccErrorKind) -> bool,
    rest: spec_fn(T) -> spec_fn(Seq<HalOp>) -> bool,
    v: T,
)
    requires
        spec_extends(a, b),
        step(spec_delta(a, b), Ok::<T, AteccErrorKind>(v)),
        rest(v)(Seq::<HalOp>::empty()),
    ensures
        spec_bind(spec_delta(a, b), step, on_err, rest),
{
    lemma_extends_refl(b);
    assert(spec_delta(b, b) =~= Seq::<HalOp>::empty());
    lemma_bind_ok(a, b, b, step, on_err, rest, v);
}

/// A counter read session.
pub open spec fn step_counter(addr: u8, counter: CounterId) -> spec_fn(Seq<HalOp>, Result<u32, AteccErrorKind>) -> bool {
    |d: Seq<HalOp>, o: Result<u32, AteccErrorKind>| spec_session(addr, d, rel_counter_read(addr, counter), o)
}

/// The serial number from a config zone read.
pub open spec fn spec_serial_outcome(o: Result<Seq<u8>, AteccErrorKind>) -> Result<Seq<u8>, AteccErrorKind> {
    match o {
        Ok(cfg) => Ok(spec_serial_from_config(cfg)),
        Err(e) => Err(e),
    }
}

/// Getting the serial number: from the cache without a bus call, or from a
/// config zone read session.
pub open spec fn step_serial(addr: u8, cache: Option<Seq<u8>>) -> spec_fn(Seq<HalOp>, Result<Seq<u8>, AteccErrorKind>) -> bool {
    |d: Seq<HalOp>, o: Result<Seq<u8>, AteccErrorKind>| match cache {
        Some(s) => d.len() == 0 && o == Ok::<Seq<u8>, AteccErrorKind>(s),
        None => exists|oc: Result<Seq<u8>, AteccErrorKind>|
            #[trigger] spec_session(addr, d, rel_config_zone(addr), oc) && o == spec_serial_outcome(oc),
    }
}

/// The CheckMac session proving knowledge of `hash` for `slot`.
pub open spec fn step_checkmac(addr: u8, slot: u8, hash: Seq<u8>, serial: Seq<u8>) -> spec_fn(Seq<HalOp>, Result<bool, AteccErrorKind>) -> bool {
    |d: Seq<HalOp>, o: Result<bool, AteccErrorKind>| spec_checkmac_with_hash(addr, slot, hash, serial, d, o)
}

/// The session refreshing `counter` to a fresh batch of `batch`.
pub open spec fn step_refresh(addr: u8, counter: CounterId, batch: u8) -> spec_fn(Seq<HalOp>, Result<bool, AteccErrorKind>) -> bool {
    |d: Seq<HalOp>, o: Result<bool, AteccErrorKind>| spec_refresh(addr, counter, batch, d, o)
}

/// The session writing `plaintext` to `slot` by an encrypted write.
pub open spec fn step_write(addr: u8, slot: u8, plaintext: Seq<u8>, io_key: Seq<u8>, serial: Seq<u8>) -> spec_fn(Seq<HalOp>, Result<(), AteccErrorKind>) -> bool {
    |d: Seq<HalOp>, o: Result<(), AteccErrorKind>| spec_session(addr, d, rel_encrypted_write(addr, slot, plaintext, io_key, serial), o)
}

/// The session regenerating the keys of `slots`.
pub open spec fn step_genkeys(addr: u8, slots: Seq<u8>) -> spec_fn(Seq<HalOp>, Result<(), AteccErrorKind>) -> bool {
    |d: Seq<HalOp>, o: Result<(), AteccErrorKind>| spec_session(addr, d, rel_genkeys(addr, slots), o)
}

/// A PUK from a Random session.
pub open spec fn spec_puk_outcome(o: Result<Seq<u8>, AteccErrorKind>) -> Result<Seq<u8>, AteccErrorKind> {
    match o {
        Ok(rnd) => Ok(spec_puk_from_random(rnd)),
        Err(e) => Err(e),
    }
}

/// A Random session, its bytes made into a PUK.
pub open spec fn step_random_puk(addr: u8) -> spec_fn(Seq<HalOp>, Result<Seq<u8>, AteccErrorKind>) -> bool {
    |d: Seq<HalOp>, o: Result<Seq<u8>, AteccErrorKind>| exists|orand: Result<Seq<u8>, AteccErrorKind>|
        #[trigger] spec_session(addr, d, rel_random(addr), orand) && o == spec_puk_outcome(orand)
}

/// After the second read of Counter0: nothing more, and `r` is the wrong
/// PIN error with the attempts that read shows.
pub open spec fn k_pin_wrong<E>(r: Result<(), CryptoServiceError<E>>) -> spec_fn(u32) -> spec_fn(Seq<HalOp>) -> bool {
    |c: u32| spec_done(r == Err::<(), CryptoServiceError<E>>(
        CryptoServiceError::PinIncorrect { tries_remaining: spec_retries_remaining(c, PIN_MAX_RETRIES) }))
}

/// After the second read of Counter1: nothing more, and `r` is the wrong
/// PUK error with the attempts that read shows.
pub open spec fn k_puk_wrong<E>(r: Result<(), CryptoServiceError<E>>) -> spec_fn(u32) -> spec_fn(Seq<HalOp>) -> bool {
    |c: u32| spec_done(r == Err::<(), CryptoServiceError<E>>(
        CryptoServiceError::PukIncorrect { tries_remaining: spec_retries_remaining(c, PUK_MAX_RETRIES) }))
}

/// After a last step: nothing more, and `r` is `Ok`.
pub open spec fn k_ok<T, E>(r: Result<(), CryptoServiceError<E>>) -> spec_fn(T) -> spec_fn(Seq<HalOp>) -> bool {
    |v: T| spec_done(r is Ok)
}

/// A whole PIN check: read Counter0 (an exhausted batch answers
/// `PinBlocked`), get the serial number, run the CheckMac of the PIN hash;
/// a miscompare reads Counter0 again and answers the attempts left, a match
/// refreshes Counter0 and answers `Ok`. Any failed session ends the run
/// with its error.
pub open spec fn run_verify_pin<E>(addr: u8, pin: Seq<u8>, cache: Option<Seq<u8>>, r: Result<(), CryptoServiceError<E>>) -> spec_fn(Seq<HalOp>) -> bool {
    spec_and_then(step_counter(addr, CounterId::Counter0), spec_fails_with(r), k_verify_count(addr, pin, cache, r))
}

/// [`run_verify_pin`] after the first counter read.
pub open spec fn k_verify_count<E>(addr: u8, pin: Seq<u8>, cache: Option<Seq<u8>>, r: Result<(), CryptoServiceError<E>>) -> spec_fn(u32) -> spec_fn(Seq<HalOp>) -> bool {
    |c: u32| if spec_retries_remaining(c, PIN_MAX_RETRIES) == 0 {
        spec_done(r == Err::<(), CryptoServiceError<E>>(CryptoServiceError::PinBlocked))
    } else {
        spec_and_then(step_serial(addr, cache), spec_fails_with(r), k_verify_serial(addr, pin, r))
    }
}

/// [`run_verify_pin`] once the serial number is known.
pub open spec fn k_verify_serial<E>(addr: u8, pin: Seq<u8>, r: Result<(), CryptoServiceError<E>>) -> spec_fn(Seq<u8>) -> spec_fn(Seq<HalOp>) -> bool {
    |s: Seq<u8>| spec_and_then(step_checkmac(addr, SLOT_PIN_HASH_INDEX, spec_code_hash(pin, spec_pin_salt(s)), s),
        spec_fails_with(r), k_verify_check(addr, r))
}

/// [`run_verify_pin`] after the CheckMac.
pub open spec fn k_verify_check<E>(addr: u8, r: Result<(), CryptoServiceError<E>>) -> spec_fn(bool) -> spec_fn(Seq<HalOp>) -> bool {
    |ok: bool| if ok {
        spec_and_then(step_refresh(addr, CounterId::Counter0, PIN_MAX_RETRIES), spec_fails_with(r), k_ok::<bool, E>(r))
    } else {
        spec_and_then(step_counter(addr, CounterId::Counter0), spec_fails_with(r), k_pin_wrong(r))
    }
}


/// After a step of any value: refresh `counter` to a fresh batch of
/// `batch`, and answer `Ok`.
pub open spec fn k_refresh_then_ok<T, U, E>(addr: u8, counter: CounterId, batch: u8, r: Result<U, CryptoServiceError<E>>) -> spec_fn(T) -> spec_fn(Seq<HalOp>) -> bool {
    |v: T| spec_and_then(step_refresh(addr, counter, batch), spec_fails_with(r), k_ok_any::<bool, U, E>(r))
}

/// After a last step: nothing more, and `r` is `Ok`.
pub open spec fn k_ok_any<T, U, E>(r: Result<U, CryptoServiceError<E>>) -> spec_fn(T) -> spec_fn(Seq<HalOp>) -> bool {
    |v: T| spec_done(r is Ok)
}

/// A whole PIN change: as [`run_verify_pin`] up to the CheckMac of the old
/// PIN; a match writes the new PIN hash by an encrypted write, then
/// refreshes Counter0 and answers `Ok`.
pub open spec fn run_set_pin<E>(addr: u8, old_pin: Seq<u8>, new_pin: Seq<u8>, io_key: Seq<u8>, cache: Option<Seq<u8>>, r: Result<(), CryptoServiceError<E>>) -> spec_fn(Seq<HalOp>) -> bool {
    spec_and_then(step_counter(addr, CounterId::Counter0), spec_fails_with(r), k_set_pin_count(addr, old_pin, new_pin, io_key, cache, r))
}

/// [`run_set_pin`] after the first counter read.
pub open spec fn k_set_pin_count<E>(addr: u8, old_pin: Seq<u8>, new_pin: Seq<u8>, io_key: Seq<u8>, cache: Option<Seq<u8>>, r: Result<(), CryptoServiceError<E>>) -> spec_fn(u32) -> spec_fn(Seq<HalOp>) -> bool {
    |c: u32| if spec_retries_remaining(c, PIN_MAX_RETRIES) == 0 {
        spec_done(r == Err::<(), CryptoServiceError<E>>(CryptoServiceError::PinBlocked))
    } else {
        spec_and_then(step_serial(addr, cache), spec_fails_with(r), k_set_pin_serial(addr, old_pin, new_pin, io_key, r))
    }
}

/// [`run_set_pin`] once the serial number is known.
pub open spec fn k_set_pin_serial<E>(addr: u8, old_pin: Seq<u8>, new_pin: Seq<u8>, io_key: Seq<u8>, r: Result<(), CryptoServiceError<E>>) -> spec_fn(Seq<u8>) -> spec_fn(Seq<HalOp>) -> bool {
    |s: Seq<u8>| spec_and_then(step_checkmac(addr, SLOT_PIN_HASH_INDEX, spec_code_hash(old_pin, spec_pin_salt(s)), s),
        spec_fails_with(r), k_set_pin_check(addr, new_pin, io_key, s, r))
}

/// [`run_set_pin`] after the CheckMac.
pub open spec fn k_set_pin_check<E>(addr: u8, new_pin: Seq<u8>, io_key: Seq<u8>, s: Seq<u8>, r: Result<(), CryptoServiceError<E>>) -> spec_fn(bool) -> spec_fn(Seq<HalOp>) -> bool {
    |ok: bool| if ok {
        spec_and_then(step_write(addr, SLOT_PIN_HASH_INDEX, spec_code_hash(new_pin, spec_pin_salt(s)), io_key, s), spec_fails_with(r),
            k_refresh_then_ok::<(), (), E>(addr, CounterId::Counter0, PIN_MAX_RETRIES, r))
    } else {
        spec_and_then(step_counter(addr, CounterId::Counter0), spec_fails_with(r), k_pin_wrong(r))
    }
}

/// A whole PIN unblock: read Counter1 (an exhausted batch answers
/// `Bricked`), get the serial number, run the CheckMac of the PUK hash; a
/// miscompare reads Counter1 again and answers the attempts left; a match
/// writes the new PIN hash, refreshes Counter1, then Counter0, and answers
/// `Ok`. Any failed session ends the run with its error.
pub open spec fn run_unblock_pin<E>(addr: u8, puk: Seq<u8>, new_pin: Seq<u8>, io_key: Seq<u8>, cache: Option<Seq<u8>>, r: Result<(), CryptoServiceError<E>>) -> spec_fn(Seq<HalOp>) -> bool {
    spec_and_then(step_counter(addr, CounterId::Counter1), spec_fails_with(r), k_unblock_count(addr, puk, new_pin, io_key, cache, r))
}

/// [`run_unblock_pin`] after the first counter read.
pub open spec fn k_unblock_count<E>(addr: u8, puk: Seq<u8>, new_pin: Seq<u8>, io_key: Seq<u8>, cache: Option<Seq<u8>>, r: Result<(), CryptoServiceError<E>>) -> spec_fn(u32) -> spec_fn(Seq<HalOp>) -> bool {
    |c: u32| if spec_retries_remaining(c, PUK_MAX_RETRIES) == 0 {
        spec_done(r == Err::<(), CryptoServiceError<E>>(CryptoServiceError::Bricked))
    } else {
        spec_and_then(step_serial(addr, cache), spec_fails_with(r), k_unblock_serial(addr, puk, new_pin, io_key, r))
    }
}

/// [`run_unblock_pin`] once the serial number is known.
pub open spec fn k_unblock_serial<E>(addr: u8, puk: Seq<u8>, new_pin: Seq<u8>, io_key: Seq<u8>, r: Result<(), CryptoServiceError<E>>) -> spec_fn(Seq<u8>) -> spec_fn(Seq<HalOp>) -> bool {
    |s: Seq<u8>| spec_and_then(step_checkmac(addr, SLOT_PUK_HASH_INDEX, spec_code_hash(puk, spec_puk_salt(s)), s),
        spec_fails_with(r), k_unblock_check(addr, new_pin, io_key, s, r))
}

/// [`run_unblock_pin`] after the CheckMac.
pub open spec fn k_unblock_check<E>(addr: u8, new_pin: Seq<u8>, io_key: Seq<u8>, s: Seq<u8>, r: Result<(), CryptoServiceError<E>>) -> spec_fn(bool) -> spec_fn(Seq<HalOp>) -> bool {
    |ok: bool| if ok {
        spec_and_then(step_write(addr, SLOT_PIN_HASH_INDEX, spec_code_hash(new_pin, spec_pin_salt(s)), io_key, s), spec_fails_with(r),
            k_unblock_written(addr, r))
    } else {
        spec_and_then(step_counter(addr, CounterId::Counter1), spec_fails_with(r), k_puk_wrong(r))
    }
}

/// [`run_unblock_pin`] after the write: refresh Counter1, then Counter0.
pub open spec fn k_unblock_written<E>(addr: u8, r: Result<(), CryptoServiceError<E>>) -> spec_fn(()) -> spec_fn(Seq<HalOp>) -> bool {
    |u: ()| spec_and_then(step_refresh(addr, CounterId::Counter1, PUK_MAX_RETRIES), spec_fails_with(r),
        k_refresh_then_ok::<bool, (), E>(addr, CounterId::Counter0, PIN_MAX_RETRIES, r))
}

/// A whole PUK change: without an active session at the clock's reading
/// `now`, nothing is sent and the answer is `PinRequired`; else read
/// Counter1 (an exhausted batch answers `Bricked`), get the serial number,
/// run the CheckMac of the old PUK hash; a miscompare reads Counter1 again
/// and answers the attempts left; a match writes the new PUK hash,
/// refreshes Counter1 and answers `Ok`.
pub open spec fn run_set_puk<E>(addr: u8, old_puk: Seq<u8>, new_puk: Seq<u8>, io_key: Seq<u8>, cache: Option<Seq<u8>>, active: bool, r: Result<(), CryptoServiceError<E>>) -> spec_fn(Seq<HalOp>) -> bool {
    if !active {
        spec_done(r == Err::<(), CryptoServiceError<E>>(CryptoServiceError::PinRequired))
    } else {
        spec_and_then(step_counter(addr, CounterId::Counter1), spec_fails_with(r), k_set_puk_count(addr, old_puk, new_puk, io_key, cache, r))
    }
}

/// [`run_set_puk`] after the first counter read.
pub open spec fn k_set_puk_count<E>(addr: u8, old_puk: Seq<u8>, new_puk: Seq<u8>, io_key: Seq<u8>, cache: Option<Seq<u8>>, r: Result<(), CryptoServiceError<E>>) -> spec_fn(u32) -> spec_fn(Seq<HalOp>) -> bool {
    |c: u32| if spec_retries_remaining(c, PUK_MAX_RETRIES) == 0 {
        spec_done(r == Err::<(), CryptoServiceError<E>>(CryptoServiceError::Bricked))
    } else {
        spec_and_then(step_serial(addr, cache), spec_fails_with(r), k_set_puk_serial(addr, old_puk, new_puk, io_key, r))
    }
}

/// [`run_set_puk`] once the serial number is known.
pub open spec fn k_set_puk_serial<E>(addr: u8, old_puk: Seq<u8>, new_puk: Seq<u8>, io_key: Seq<u8>, r: Result<(), CryptoServiceError<E>>) -> spec_fn(Seq<u8>) -> spec_fn(Seq<HalOp>) -> bool {
    |s: Seq<u8>| spec_and_then(step_checkmac(addr, SLOT_PUK_HASH_INDEX, spec_code_hash(old_puk, spec_puk_salt(s)), s),
        spec_fails_with(r), k_set_puk_check(addr, new_puk, io_key, s, r))
}

/// [`run_set_puk`] after the CheckMac.
pub open spec fn k_set_puk_check<E>(addr: u8, new_puk: Seq<u8>, io_key: Seq<u8>, s: Seq<u8>, r: Result<(), CryptoServiceError<E>>) -> spec_fn(bool) -> spec_fn(Seq<HalOp>) -> bool {
    |ok: bool| if ok {
        spec_and_then(step_write(addr, SLOT_PUK_HASH_INDEX, spec_code_hash(new_puk, spec_puk_salt(s)), io_key, s), spec_fails_with(r),
            k_refresh_then_ok::<(), (), E>(addr, CounterId::Counter1, PUK_MAX_RETRIES, r))
    } else {
        spec_and_then(step_counter(addr, CounterId::Counter1), spec_fails_with(r), k_puk_wrong(r))
    }
}

/// A whole emergency reset: read Counter0, then Counter1; unless both
/// batches are exhausted, nothing more is sent and the answer is the
/// refusal with both attempt counts. Else get the serial number,
/// regenerate the keys of the reset slots, draw a PUK from a Random, write
/// its hash to the PUK slot, refresh Counter1, write the factory PIN's
/// hash to the PIN slot, refresh Counter0, and answer the PUK. A refresh
/// that finds its counter at the chip's maximum answers `Bricked`; any
/// failed session ends the run with its error.
pub open spec fn run_emergency_reset<E>(addr: u8, io_key: Seq<u8>, cache: Option<Seq<u8>>, r: Result<[u8; 8], CryptoServiceError<E>>) -> spec_fn(Seq<HalOp>) -> bool {
    spec_and_then(step_counter(addr, CounterId::Counter0), spec_fails_with(r), k_reset_c0(addr, io_key, cache, r))
}

/// [`run_emergency_reset`] after reading Counter0.
pub open spec fn k_reset_c0<E>(addr: u8, io_key: Seq<u8>, cache: Option<Seq<u8>>, r: Result<[u8; 8], CryptoServiceError<E>>) -> spec_fn(u32) -> spec_fn(Seq<HalOp>) -> bool {
    |c0: u32| spec_and_then(step_counter(addr, CounterId::Counter1), spec_fails_with(r), k_reset_c1(addr, io_key, cache, c0, r))
}

/// [`run_emergency_reset`] after reading both counters.
pub open spec fn k_reset_c1<E>(addr: u8, io_key: Seq<u8>, cache: Option<Seq<u8>>, c0: u32, r: Result<[u8; 8], CryptoServiceError<E>>) -> spec_fn(u32) -> spec_fn(Seq<HalOp>) -> bool {
    |c1: u32| if spec_retries_remaining(c0, PIN_MAX_RETRIES) != 0 || spec_retries_remaining(c1, PUK_MAX_RETRIES) != 0 {
        spec_done(r == Err::<[u8; 8], CryptoServiceError<E>>(CryptoServiceError::EmergencyResetNotPermitted {
            pin_tries_remaining: spec_retries_remaining(c0, PIN_MAX_RETRIES),
            puk_tries_remaining: spec_retries_remaining(c1, PUK_MAX_RETRIES),
        }))
    } else {
        spec_and_then(step_serial(addr, cache), spec_fails_with(r), k_reset_serial(addr, io_key, r))
    }
}

/// [`run_emergency_reset`] once the serial number is known.
pub open spec fn k_reset_serial<E>(addr: u8, io_key: Seq<u8>, r: Result<[u8; 8], CryptoServiceError<E>>) -> spec_fn(Seq<u8>) -> spec_fn(Seq<HalOp>) -> bool {
    |s: Seq<u8>| spec_and_then(step_genkeys(addr, spec_reset_key_slots()), spec_fails_with(r), k_reset_keys(addr, io_key, s, r))
}

/// [`run_emergency_reset`] after the new keys.
pub open spec fn k_reset_keys<E>(addr: u8, io_key: Seq<u8>, s: Seq<u8>, r: Result<[u8; 8], CryptoServiceError<E>>) -> spec_fn(()) -> spec_fn(Seq<HalOp>) -> bool {
    |u: ()| spec_and_then(step_random_puk(addr), spec_fails_with(r), k_reset_puk(addr, io_key, s, r))
}

/// [`run_emergency_reset`] once the new PUK is drawn.
pub open spec fn k_reset_puk<E>(addr: u8, io_key: Seq<u8>, s: Seq<u8>, r: Result<[u8; 8], CryptoServiceError<E>>) -> spec_fn(Seq<u8>) -> spec_fn(Seq<HalOp>) -> bool {
    |puk: Seq<u8>| spec_and_then(step_write(addr, SLOT_PUK_HASH_INDEX, spec_code_hash(puk, spec_puk_salt(s)), io_key, s),
        spec_fails_with(r), k_reset_puk_written(addr, io_key, s, puk, r))
}

/// [`run_emergency_reset`] after writing the PUK hash.
pub open spec fn k_reset_puk_written<E>(addr: u8, io_key: Seq<u8>, s: Seq<u8>, puk: Seq<u8>, r: Result<[u8; 8], CryptoServiceError<E>>) -> spec_fn(()) -> spec_fn(Seq<HalOp>) -> bool {
    |u: ()| spec_and_then(step_refresh(addr, CounterId::Counter1, PUK_MAX_RETRIES), spec_fails_with(r),
        k_reset_c1_refreshed(addr, io_key, s, puk, r))
}

/// [`run_emergency_reset`] after refreshing Counter1.
pub open spec fn k_reset_c1_refreshed<E>(addr: u8, io_key: Seq<u8>, s: Seq<u8>, puk: Seq<u8>, r: Result<[u8; 8], CryptoServiceError<E>>) -> spec_fn(bool) -> spec_fn(Seq<HalOp>) -> bool {
    |full: bool| if !full {
        spec_done(r == Err::<[u8; 8], CryptoServiceError<E>>(CryptoServiceError::Bricked))
    } else {
        spec_and_then(step_write(addr, SLOT_PIN_HASH_INDEX, spec_code_hash(spec_pin_default(), spec_pin_salt(s)), io_key, s),
            spec_fails_with(r), k_reset_pin_written(addr, puk, r))
    }
}

/// [`run_emergency_reset`] after writing the factory PIN's hash.
pub open spec fn k_reset_pin_written<E>(addr: u8, puk: Seq<u8>, r: Result<[u8; 8], CryptoServiceError<E>>) -> spec_fn(()) -> spec_fn(Seq<HalOp>) -> bool {
    |u: ()| spec_and_then(step_refresh(addr, CounterId::Counter0, PIN_MAX_RETRIES), spec_fails_with(r), k_reset_done(puk, r))
}

/// [`run_emergency_reset`] after refreshing Counter0.
pub open spec fn k_reset_done<E>(puk: Seq<u8>, r: Result<[u8; 8], CryptoServiceError<E>>) -> spec_fn(bool) -> spec_fn(Seq<HalOp>) -> bool {
    |full: bool| if !full {
        spec_done(r == Err::<[u8; 8], CryptoServiceError<E>>(CryptoServiceError::Bricked))
    } else {
        spec_done(r matches Ok(p) && p@ == puk)
    }
}

/// A cleartext write session of block 0 of data slot `slot`.
pub open spec fn step_write_block(addr: u8, slot: u8, value: Seq<u8>) -> spec_fn(Seq<HalOp>, Result<(), AteccErrorKind>) -> bool {
    |d: Seq<HalOp>, o: Result<(), AteccErrorKind>| spec_session(addr, d, rel_write_data_block(addr, slot, value), o)
}

/// A Random session.
pub open spec fn step_random(addr: u8) -> spec_fn(Seq<HalOp>, Result<Seq<u8>, AteccErrorKind>) -> bool {
    |d: Seq<HalOp>, o: Result<Seq<u8>, AteccErrorKind>| spec_session(addr, d, rel_random(addr), o)
}

/// An Info session reading the revision.
pub open spec fn step_info_revision(addr: u8) -> spec_fn(Seq<HalOp>, Result<Seq<u8>, AteccErrorKind>) -> bool {
    |d: Seq<HalOp>, o: Result<Seq<u8>, AteccErrorKind>| spec_session(addr, d, rel_info(addr, INFO_MODE_REVISION), o)
}

/// Whether a config zone read shows both zones locked.
pub open spec fn spec_provisioned_outcome(o: Result<Seq<u8>, AteccErrorKind>) -> Result<bool, AteccErrorKind> {
    match o {
        Ok(cfg) => Ok(spec_provisioned(cfg)),
        Err(e) => Err(e),
    }
}

/// A config zone read session, read as the provisioning state.
pub open spec fn step_provisioned(addr: u8) -> spec_fn(Seq<HalOp>, Result<bool, AteccErrorKind>) -> bool {
    |d: Seq<HalOp>, o: Result<bool, AteccErrorKind>| exists|oc: Result<Seq<u8>, AteccErrorKind>|
        #[trigger] spec_session(addr, d, rel_config_zone(addr), oc) && o == spec_provisioned_outcome(oc)
}

/// After a last step: nothing more, and `r` is `Ok` of the bytes `v`.
pub open spec fn k_ok_bytes<U: View<V = Seq<u8>>, E>(v: Seq<u8>, r: Result<U, CryptoServiceError<E>>) -> spec_fn(()) -> spec_fn(Seq<HalOp>) -> bool {
    |u: ()| spec_done(r matches Ok(p) && p@ == v)
}

/// Provisioning the factory PIN: get the serial number, then write the
/// hash of `"0000"` under its PIN salt to the PIN slot in cleartext.
pub open spec fn run_provision_pin<E>(addr: u8, cache: Option<Seq<u8>>, r: Result<(), CryptoServiceError<E>>) -> spec_fn(Seq<HalOp>) -> bool {
    spec_and_then(step_serial(addr, cache), spec_fails_with(r), k_provision_pin(addr, r))
}

/// [`run_provision_pin`] once the serial number is known.
pub open spec fn k_provision_pin<E>(addr: u8, r: Result<(), CryptoServiceError<E>>) -> spec_fn(Seq<u8>) -> spec_fn(Seq<HalOp>) -> bool {
    |s: Seq<u8>| spec_and_then(step_write_block(addr, SLOT_PIN_HASH_INDEX, spec_code_hash(spec_pin_default(), spec_pin_salt(s))),
        spec_fails_with(r), k_ok_any::<(), (), E>(r))
}

/// Provisioning the first PUK: get the serial number, draw a PUK from a
/// Random, write its hash under the PUK salt to the PUK slot in cleartext,
/// and answer the PUK.
pub open spec fn run_provision_puk<E>(addr: u8, cache: Option<Seq<u8>>, r: Result<[u8; 8], CryptoServiceError<E>>) -> spec_fn(Seq<HalOp>) -> bool {
    spec_and_then(step_serial(addr, cache), spec_fails_with(r), k_provision_puk_serial(addr, r))
}

/// [`run_provision_puk`] once the serial number is known.
pub open spec fn k_provision_puk_serial<E>(addr: u8, r: Result<[u8; 8], CryptoServiceError<E>>) -> spec_fn(Seq<u8>) -> spec_fn(Seq<HalOp>) -> bool {
    |s: Seq<u8>| spec_and_then(step_random_puk(addr), spec_fails_with(r), k_provision_puk(addr, s, r))
}

/// [`run_provision_puk`] once the PUK is drawn.
pub open spec fn k_provision_puk<E>(addr: u8, s: Seq<u8>, r: Result<[u8; 8], CryptoServiceError<E>>) -> spec_fn(Seq<u8>) -> spec_fn(Seq<HalOp>) -> bool {
    |puk: Seq<u8>| spec_and_then(step_write_block(addr, SLOT_PUK_HASH_INDEX, spec_code_hash(puk, spec_puk_salt(s))),
        spec_fails_with(r), k_ok_bytes(puk, r))
}

/// Provisioning the I/O key: draw it from a Random, write it to its slot
/// in cleartext, and answer it.
pub open spec fn run_provision_io_key<E>(addr: u8, r: Result<[u8; 32], CryptoServiceError<E>>) -> spec_fn(Seq<HalOp>) -> bool {
    spec_and_then(step_random(addr), spec_fails_with(r), k_provision_io_key(addr, r))
}

/// [`run_provision_io_key`] once the key is drawn.
pub open spec fn k_provision_io_key<E>(addr: u8, r: Result<[u8; 32], CryptoServiceError<E>>) -> spec_fn(Seq<u8>) -> spec_fn(Seq<HalOp>) -> bool {
    |key: Seq<u8>| spec_and_then(step_write_block(addr, SLOT_IO_KEY_INDEX, key), spec_fails_with(r), k_ok_bytes(key, r))
}

/// Reading the device information: the revision, the serial number, then
/// the config zone for the lock state.
pub open spec fn run_info<E>(addr: u8, cache: Option<Seq<u8>>, r: Result<DeviceInfo, CryptoServiceError<E>>) -> spec_fn(Seq<HalOp>) -> bool {
    spec_and_then(step_info_revision(addr), spec_fails_with(r), k_info_revision(addr, cache, r))
}

/// [`run_info`] after the revision.
pub open spec fn k_info_revision<E>(addr: u8, cache: Option<Seq<u8>>, r: Result<DeviceInfo, CryptoServiceError<E>>) -> spec_fn(Seq<u8>) -> spec_fn(Seq<HalOp>) -> bool {
    |rev: Seq<u8>| spec_and_then(step_serial(addr, cache), spec_fails_with(r), k_info_serial(addr, rev, r))
}

/// [`run_info`] after the serial number.
pub open spec fn k_info_serial<E>(addr: u8, rev: Seq<u8>, r: Result<DeviceInfo, CryptoServiceError<E>>) -> spec_fn(Seq<u8>) -> spec_fn(Seq<HalOp>) -> bool {
    |s: Seq<u8>| spec_and_then(step_provisioned(addr), spec_fails_with(r), k_info_done(rev, s, r))
}

/// [`run_info`] after the lock state: answer all three.
pub open spec fn k_info_done<E>(rev: Seq<u8>, s: Seq<u8>, r: Result<DeviceInfo, CryptoServiceError<E>>) -> spec_fn(bool) -> spec_fn(Seq<HalOp>) -> bool {
    |p: bool| spec_done(r matches Ok(di) && di.revision@ == rev && di.serial@ == s && di.is_provisioned == p)
}

} // verus!
