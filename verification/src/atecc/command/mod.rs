//! Typed commands of the ATECC608B protocol, one module per command.
//!
//! Every command sends one frame through the channel's round trip and
//! interprets the answer. Each contract states the command's whole bus
//! trace: which frame went out, and how the answer became the result.
use vstd::prelude::*;
use crate::atecc::driver::{Atecc, lemma_extends_trans, spec_bytes_outcome, spec_data_command, spec_delta, spec_extends, spec_fixed_len};
use crate::atecc::hal::AteccHal;
use crate::atecc::error::{AteccError, AteccErrorKind, ChipError, spec_error_kind};
use crate::atecc::hal::HalOp;
use crate::atecc::wake::{spec_token_outcome, spec_wake_outcome};
use crate::atecc::opcodes::WORD_ADDRESS_IDLE;

pub mod checkmac;
pub mod counter;
pub mod gendig;
pub mod genkey;
pub mod info;
pub mod lock;
pub mod nonce;
pub mod privwrite;
pub mod random;
pub mod read_write;
pub mod sign;
pub mod verify;

verus! {

/// Outcome of a command that must answer with exactly `n` payload bytes,
/// read into a response buffer of `n + 3` bytes (count byte and CRC).
pub open spec fn spec_fixed_command(
    addr: u8,
    opcode: u8,
    param1: u8,
    param2: u16,
    data: Seq<u8>,
    exec_ms: u32,
    n: nat,
    d: Seq<HalOp>,
) -> Option<Result<Seq<u8>, AteccErrorKind>> {
    match spec_data_command(addr, opcode, param1, param2, data, exec_ms, n + 3, d) {
        Some(o) => Some(spec_fixed_len(o, n)),
        None => None,
    }
}

/// Outcome of a comparing command (CheckMac, Verify): status `0x00` is a
/// match, the miscompare status is a clean "no", anything else an error.
pub open spec fn spec_compare_outcome(o: Option<Result<(), AteccErrorKind>>) -> Option<Result<bool, AteccErrorKind>> {
    match o {
        Some(Ok(())) => Some(Ok(true)),
        Some(Err(AteccErrorKind::Chip(ChipError::CheckMacOrVerifyFailed))) => Some(Ok(false)),
        Some(Err(e)) => Some(Err(e)),
        None => None,
    }
}

/// A boolean result with the HAL payload of its error dropped.
pub open spec fn spec_bool_outcome<E>(r: Result<bool, AteccError<E>>) -> Result<bool, AteccErrorKind> {
    match r {
        Ok(b) => Ok(b),
        Err(e) => Err(spec_error_kind(e)),
    }
}

/// `d` is a wake sequence followed by one command whose trace `cmd`
/// interprets, and `outcome` is what the pair returns: the wake's error if
/// the wake failed, else the command's outcome.
pub open spec fn spec_wake_then<T>(
    addr: u8,
    d: Seq<HalOp>,
    cmd: spec_fn(Seq<HalOp>) -> Option<Result<T, AteccErrorKind>>,
    outcome: Result<T, AteccErrorKind>,
) -> bool {
    ||| (match outcome {
        Err(e) => spec_wake_outcome(addr, d) == Some(Err::<(), AteccErrorKind>(e)),
        Ok(_) => false,
    })
    ||| exists|k: int|
        0 <= k <= d.len() && spec_wake_outcome(addr, #[trigger] d.take(k)) == Some(Ok::<(), AteccErrorKind>(()))
            && cmd(d.skip(k)) == Some(outcome)
}

impl<H: AteccHal> Atecc<H> {
    /// One round trip of a command that must answer with exactly `n`
    /// payload bytes.
    pub(crate) fn execute_fixed(
        &mut self,
        opcode: u8,
        param1: u8,
        param2: u16,
        data: &[u8],
        expected_exec_ms: u32,
        n: usize,
    ) -> (r: Result<Vec<u8>, AteccError<H::Error>>)
        requires
            n <= 64,
        ensures
            final(self).address() == old(self).address(),
            spec_extends(old(self).bus_log(), final(self).bus_log()),
            spec_fixed_command(
                old(self).address(), opcode, param1, param2, data@, expected_exec_ms, n as nat,
                spec_delta(old(self).bus_log(), final(self).bus_log()),
            ) == Some(spec_bytes_outcome(r)),
            r matches Ok(v) ==> v@.len() == n,
    {
        let payload = self.execute_command(opcode, param1, param2, data, expected_exec_ms, n + 3)?;
        if payload.len() != n {
            return Err(AteccError::MalformedResponse);
        }
        Ok(payload)
    }
}

/// `d` is one open-command-close session: a wake, then a command whose
/// traces and outcomes `cmd` relates, then, if the command succeeded, the
/// idle token. `outcome` is what the session returns: the first error met,
/// else the command's result.
pub open spec fn spec_session<T>(
    addr: u8,
    d: Seq<HalOp>,
    cmd: spec_fn(Seq<HalOp>, Result<T, AteccErrorKind>) -> bool,
    outcome: Result<T, AteccErrorKind>,
) -> bool {
    ||| (match outcome {
        Err(e) => spec_wake_outcome(addr, d) == Some(Err::<(), AteccErrorKind>(e)),
        Ok(_) => false,
    })
    ||| exists|k: int|
        0 <= k <= d.len() && spec_wake_outcome(addr, #[trigger] d.take(k)) == Some(Ok::<(), AteccErrorKind>(()))
            && outcome is Err && cmd(d.skip(k), outcome)
    ||| exists|k1: int, k2: int, v: T|
        0 <= k1 <= k2 <= d.len() && spec_wake_outcome(addr, d.take(k1)) == Some(Ok::<(), AteccErrorKind>(()))
            && #[trigger] cmd(d.subrange(k1, k2), Ok::<T, AteccErrorKind>(v))
            && (match spec_token_outcome(addr, WORD_ADDRESS_IDLE, d.skip(k2)) {
                Some(Ok(())) => outcome == Ok::<T, AteccErrorKind>(v),
                Some(Err(e)) => outcome == Err::<T, AteccErrorKind>(e),
                None => false,
            })
}

/// `d` is a first command that returns nothing, then, if it succeeded, a
/// second one; `outcome` is the first error met, else the second result.
pub open spec fn spec_then<T>(
    d: Seq<HalOp>,
    first: spec_fn(Seq<HalOp>) -> Option<Result<(), AteccErrorKind>>,
    second: spec_fn(Seq<HalOp>) -> Option<Result<T, AteccErrorKind>>,
    outcome: Result<T, AteccErrorKind>,
) -> bool {
    ||| (match outcome {
        Err(e) => first(d) == Some(Err::<(), AteccErrorKind>(e)),
        Ok(_) => false,
    })
    ||| exists|k: int|
        0 <= k <= d.len() && first(#[trigger] d.take(k)) == Some(Ok::<(), AteccErrorKind>(()))
            && second(d.skip(k)) == Some(outcome)
}

/// `d` is a first command that returns nothing, then, if it succeeded, a
/// sequence that `rest` relates to its outcome; `outcome` is the first
/// error met, else the sequence's outcome.
pub open spec fn spec_then_rel<T>(
    d: Seq<HalOp>,
    first: spec_fn(Seq<HalOp>) -> Option<Result<(), AteccErrorKind>>,
    rest: spec_fn(Seq<HalOp>, Result<T, AteccErrorKind>) -> bool,
    outcome: Result<T, AteccErrorKind>,
) -> bool {
    ||| (match outcome {
        Err(e) => first(d) == Some(Err::<(), AteccErrorKind>(e)),
        Ok(_) => false,
    })
    ||| exists|k: int|
        0 <= k <= d.len() && first(#[trigger] d.take(k)) == Some(Ok::<(), AteccErrorKind>(())) && rest(d.skip(k), outcome)
}

/// A first command that failed, then nothing.
pub proof fn lemma_then_rel_first_failed<T>(
    start: Seq<HalOp>,
    end: Seq<HalOp>,
    first: spec_fn(Seq<HalOp>) -> Option<Result<(), AteccErrorKind>>,
    rest: spec_fn(Seq<HalOp>, Result<T, AteccErrorKind>) -> bool,
    e: AteccErrorKind,
)
    requires
        first(spec_delta(start, end)) == Some(Err::<(), AteccErrorKind>(e)),
    ensures
        spec_then_rel(spec_delta(start, end), first, rest, Err::<T, AteccErrorKind>(e)),
{
}

/// A first command that succeeded, then the rest.
pub proof fn lemma_then_rel<T>(
    start: Seq<HalOp>,
    mid: Seq<HalOp>,
    end: Seq<HalOp>,
    first: spec_fn(Seq<HalOp>) -> Option<Result<(), AteccErrorKind>>,
    rest: spec_fn(Seq<HalOp>, Result<T, AteccErrorKind>) -> bool,
    outcome: Result<T, AteccErrorKind>,
)
    requires
        spec_extends(start, mid),
        spec_extends(mid, end),
        first(spec_delta(start, mid)) == Some(Ok::<(), AteccErrorKind>(())),
        rest(spec_delta(mid, end), outcome),
    ensures
        spec_extends(start, end),
        spec_then_rel(spec_delta(start, end), first, rest, outcome),
{
    lemma_extends_trans(start, mid, end);
    let d = spec_delta(start, end);
    let k = spec_delta(start, mid).len() as int;
    assert(d.take(k) =~= spec_delta(start, mid));
    assert(d.skip(k) =~= spec_delta(mid, end));
}

/// A session whose wake failed.
pub proof fn lemma_session_wake_failed<T>(
    addr: u8,
    start: Seq<HalOp>,
    end: Seq<HalOp>,
    cmd: spec_fn(Seq<HalOp>, Result<T, AteccErrorKind>) -> bool,
    e: AteccErrorKind,
)
    requires
        spec_extends(start, end),
        spec_wake_outcome(addr, spec_delta(start, end)) == Some(Err::<(), AteccErrorKind>(e)),
    ensures
        spec_session(addr, spec_delta(start, end), cmd, Err::<T, AteccErrorKind>(e)),
{
}

/// A session whose command failed after a successful wake.
pub proof fn lemma_session_command_failed<T>(
    addr: u8,
    start: Seq<HalOp>,
    mid: Seq<HalOp>,
    end: Seq<HalOp>,
    cmd: spec_fn(Seq<HalOp>, Result<T, AteccErrorKind>) -> bool,
    e: AteccErrorKind,
)
    requires
        spec_extends(start, mid),
        spec_extends(mid, end),
        spec_wake_outcome(addr, spec_delta(start, mid)) == Some(Ok::<(), AteccErrorKind>(())),
        cmd(spec_delta(mid, end), Err::<T, AteccErrorKind>(e)),
    ensures
        spec_extends(start, end),
        spec_session(addr, spec_delta(start, end), cmd, Err::<T, AteccErrorKind>(e)),
{
    lemma_extends_trans(start, mid, end);
    let d = spec_delta(start, end);
    let k = spec_delta(start, mid).len() as int;
    assert(d.take(k) =~= spec_delta(start, mid));
    assert(d.skip(k) =~= spec_delta(mid, end));
}

/// A session whose command succeeded, closed by the idle token.
pub proof fn lemma_session_closed<T>(
    addr: u8,
    start: Seq<HalOp>,
    mid: Seq<HalOp>,
    mid2: Seq<HalOp>,
    end: Seq<HalOp>,
    cmd: spec_fn(Seq<HalOp>, Result<T, AteccErrorKind>) -> bool,
    v: T,
    close: Result<(), AteccErrorKind>,
)
    requires
        spec_extends(start, mid),
        spec_extends(mid, mid2),
        spec_extends(mid2, end),
        spec_wake_outcome(addr, spec_delta(start, mid)) == Some(Ok::<(), AteccErrorKind>(())),
        cmd(spec_delta(mid, mid2), Ok::<T, AteccErrorKind>(v)),
        spec_token_outcome(addr, WORD_ADDRESS_IDLE, spec_delta(mid2, end)) == Some(close),
    ensures
        spec_extends(start, end),
        spec_session(addr, spec_delta(start, end), cmd, match close {
            Ok(()) => Ok::<T, AteccErrorKind>(v),
            Err(e) => Err::<T, AteccErrorKind>(e),
        }),
{
    lemma_extends_trans(start, mid, mid2);
    lemma_extends_trans(start, mid2, end);
    let d = spec_delta(start, end);
    let k1 = spec_delta(start, mid).len() as int;
    let k2 = spec_delta(start, mid2).len() as int;
    assert(d.take(k1) =~= spec_delta(start, mid));
    assert(d.subrange(k1, k2) =~= spec_delta(mid, mid2));
    assert(d.skip(k2) =~= spec_delta(mid2, end));
}

/// Two commands in a row, the first of which failed.
pub proof fn lemma_then_first_failed<T>(
    start: Seq<HalOp>,
    end: Seq<HalOp>,
    first: spec_fn(Seq<HalOp>) -> Option<Result<(), AteccErrorKind>>,
    second: spec_fn(Seq<HalOp>) -> Option<Result<T, AteccErrorKind>>,
    e: AteccErrorKind,
)
    requires
        first(spec_delta(start, end)) == Some(Err::<(), AteccErrorKind>(e)),
    ensures
        spec_then(spec_delta(start, end), first, second, Err::<T, AteccErrorKind>(e)),
{
}

/// Two commands in a row, the first of which succeeded.
pub proof fn lemma_then<T>(
    start: Seq<HalOp>,
    mid: Seq<HalOp>,
    end: Seq<HalOp>,
    first: spec_fn(Seq<HalOp>) -> Option<Result<(), AteccErrorKind>>,
    second: spec_fn(Seq<HalOp>) -> Option<Result<T, AteccErrorKind>>,
    outcome: Result<T, AteccErrorKind>,
)
    requires
        spec_extends(start, mid),
        spec_extends(mid, end),
        first(spec_delta(start, mid)) == Some(Ok::<(), AteccErrorKind>(())),
        second(spec_delta(mid, end)) == Some(outcome),
    ensures
        spec_extends(start, end),
        spec_then(spec_delta(start, end), first, second, outcome),
{
    lemma_extends_trans(start, mid, end);
    let d = spec_delta(start, end);
    let k = spec_delta(start, mid).len() as int;
    assert(d.take(k) =~= spec_delta(start, mid));
    assert(d.skip(k) =~= spec_delta(mid, end));
}

/// A wake whose trace ends at `mid`, then a command whose trace ends at
/// `end`, make one wake-then-command trace.
pub proof fn lemma_wake_then<T>(
    addr: u8,
    start: Seq<HalOp>,
    mid: Seq<HalOp>,
    end: Seq<HalOp>,
    cmd: spec_fn(Seq<HalOp>) -> Option<Result<T, AteccErrorKind>>,
    outcome: Result<T, AteccErrorKind>,
)
    requires
        spec_extends(start, mid),
        spec_extends(mid, end),
        spec_wake_outcome(addr, spec_delta(start, mid)) == Some(Ok::<(), AteccErrorKind>(())),
        cmd(spec_delta(mid, end)) == Some(outcome),
    ensures
        spec_extends(start, end),
        spec_wake_then(addr, spec_delta(start, end), cmd, outcome),
{
    lemma_extends_trans(start, mid, end);
    let d = spec_delta(start, end);
    let k = spec_delta(start, mid).len() as int;
    assert(d.take(k) =~= spec_delta(start, mid));
    assert(d.skip(k) =~= spec_delta(mid, end));
}

/// Copy `src` into `dst` starting at index `at`; the rest of `dst` is
/// unchanged.
pub(crate) fn write_at(dst: &mut [u8], at: usize, src: &[u8])
    requires
        at + src@.len() <= old(dst)@.len(),
    ensures
        final(dst)@.len() == old(dst)@.len(),
        forall|i: int| 0 <= i < at ==> final(dst)@[i] == old(dst)@[i],
        forall|i: int| at <= i < at + src@.len() ==> final(dst)@[i] == src@[i - at],
        forall|i: int| at + src@.len() <= i < old(dst)@.len() ==> final(dst)@[i] == old(dst)@[i],
{
    let ghost orig = dst@;
    let n: usize = dst.len();
    let mut i: usize = 0;
    while i < src.len()
        invariant
            n == orig.len(),
            at + src@.len() <= orig.len(),
            dst@.len() == orig.len(),
            i <= src@.len(),
            forall|j: int| 0 <= j < at ==> dst@[j] == orig[j],
            forall|j: int| at <= j < at + i ==> dst@[j] == src@[j - at],
            forall|j: int| at + i <= j < orig.len() ==> dst@[j] == orig[j],
        decreases src@.len() - i,
    {
        dst[at + i] = src[i];
        i = i + 1;
    }
}

/// Copy `src` into `dst`, which has the same length.
pub(crate) fn copy_bytes(dst: &mut [u8], src: &[u8])
    requires
        old(dst)@.len() == src@.len(),
    ensures
        final(dst)@ == src@,
{
    let mut i: usize = 0;
    while i < src.len()
        invariant
            dst@.len() == src@.len(),
            i <= src@.len(),
            forall|k: int| 0 <= k < i ==> dst@[k] == src@[k],
        decreases src@.len() - i,
    {
        dst[i] = src[i];
        i = i + 1;
    }
    assert(dst@ =~= src@);
}

} // verus!
