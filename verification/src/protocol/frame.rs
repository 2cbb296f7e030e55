//! Framing of one HID report: byte 0 is the opcode (requests) or status
//! (responses), bytes 1..3 the payload length little-endian, then the
//! payload, then zero padding up to the report size.
use vstd::prelude::*;
use crate::protocol::{HEADER_SIZE, HID_REPORT_SIZE, MAX_PAYLOAD_SIZE};

verus! {

/// One decoded report: its first byte and its payload.
#[derive(Debug, Clone, Copy, PartialEq, Eq)]
pub struct Frame<'a> {
    /// Opcode of a request, or status of a response.
    pub opcode: u8,
    /// The payload, borrowed from the report.
    pub payload: &'a [u8],
}

/// Why a report could not be decoded.
#[derive(Debug, Clone, Copy, PartialEq, Eq, Structural)]
pub enum FrameParseError {
    /// The buffer is not one report long.
    WrongReportSize { actual: usize },
    /// The declared payload length exceeds the report.
    PayloadLenTooLarge { declared: usize },
}

/// Why a report could not be built.
#[derive(Debug, Clone, Copy, PartialEq, Eq, Structural)]
pub enum FrameBuildError {
    /// The output buffer is not one report long.
    WrongOutputSize { actual: usize },
    /// The payload does not fit in a report.
    PayloadTooLarge { len: usize },
}

/// The report carrying `opcode` and `payload`: header, payload, zeros.
pub open spec fn spec_report(opcode: u8, payload: Seq<u8>) -> Seq<u8> {
    seq![opcode, (payload.len() % 256) as u8, (payload.len() / 256) as u8] + payload
        + Seq::new((MAX_PAYLOAD_SIZE - payload.len()) as nat, |i: int| 0u8)
}

/// The payload length a report declares.
pub open spec fn spec_declared_len(buf: Seq<u8>) -> nat {
    (buf[1] as nat) + (buf[2] as nat) * 256
}

/// What decoding `buf` gives: its opcode and payload, or the error.
pub open spec fn spec_parse(buf: Seq<u8>) -> Result<(u8, Seq<u8>), FrameParseError> {
    if buf.len() != HID_REPORT_SIZE {
        Err(FrameParseError::WrongReportSize { actual: buf.len() as usize })
    } else if spec_declared_len(buf) > MAX_PAYLOAD_SIZE {
        Err(FrameParseError::PayloadLenTooLarge { declared: spec_declared_len(buf) as usize })
    } else {
        Ok((buf[0], buf.subrange(HEADER_SIZE as int, HEADER_SIZE + spec_declared_len(buf))))
    }
}

impl<'a> Frame<'a> {
    /// Decode one report. Bytes after the declared payload are ignored.
    pub fn parse(buf: &'a [u8]) -> (r: Result<Self, FrameParseError>)
        ensures
            match spec_parse(buf@) {
                Ok((op, p)) => r matches Ok(f) && f.opcode == op && f.payload@ == p,
                Err(e) => r == Err::<Self, FrameParseError>(e),
            },
    {
        if buf.len() != HID_REPORT_SIZE {
            return Err(FrameParseError::WrongReportSize { actual: buf.len() });
        }
        let opcode = buf[0];
        let len: usize = (buf[1] as usize) + (buf[2] as usize) * 256;
        if len > MAX_PAYLOAD_SIZE {
            return Err(FrameParseError::PayloadLenTooLarge { declared: len });
        }
        Ok(Frame { opcode, payload: slice_range(buf, HEADER_SIZE, HEADER_SIZE + len) })
    }

    /// Encode `opcode` and `payload` into the report buffer `out`, padding
    /// with zeros. On error `out` is left as it was.
    pub fn write(opcode: u8, payload: &[u8], out: &mut [u8]) -> (r: Result<(), FrameBuildError>)
        ensures
            old(out)@.len() != HID_REPORT_SIZE ==> r == Err::<(), FrameBuildError>(
                FrameBuildError::WrongOutputSize { actual: old(out)@.len() as usize }),
            old(out)@.len() == HID_REPORT_SIZE && payload@.len() > MAX_PAYLOAD_SIZE ==> r == Err::<(), FrameBuildError>(
                FrameBuildError::PayloadTooLarge { len: payload@.len() as usize }),
            r is Ok <==> old(out)@.len() == HID_REPORT_SIZE && payload@.len() <= MAX_PAYLOAD_SIZE,
            r is Ok ==> final(out)@ == spec_report(opcode, payload@),
            r is Err ==> final(out)@ == old(out)@,
    {
        if out.len() != HID_REPORT_SIZE {
            return Err(FrameBuildError::WrongOutputSize { actual: out.len() });
        }
        if payload.len() > MAX_PAYLOAD_SIZE {
            return Err(FrameBuildError::PayloadTooLarge { len: payload.len() });
        }
        let n = payload.len();
        let mut i: usize = 0;
        while i < HID_REPORT_SIZE
            invariant
                out@.len() == HID_REPORT_SIZE,
                i <= HID_REPORT_SIZE,
                forall|j: int| 0 <= j < i ==> out@[j] == 0u8,
            decreases HID_REPORT_SIZE - i,
        {
            out[i] = 0;
            i = i + 1;
        }
        out[0] = opcode;
        out[1] = (n % 256) as u8;
        out[2] = (n / 256) as u8;
        let mut k: usize = 0;
        while k < n
            invariant
                n == payload@.len(),
                n <= MAX_PAYLOAD_SIZE,
                out@.len() == HID_REPORT_SIZE,
                k <= n,
                out@[0] == opcode,
                out@[1] == (n % 256) as u8,
                out@[2] == (n / 256) as u8,
                forall|j: int| 0 <= j < k ==> out@[HEADER_SIZE + j] == payload@[j],
                forall|j: int| HEADER_SIZE + k <= j < HID_REPORT_SIZE ==> out@[j] == 0u8,
            decreases n - k,
        {
            out[HEADER_SIZE + k] = payload[k];
            k = k + 1;
        }
        assert(out@ =~= spec_report(opcode, payload@));
        Ok(())
    }

    /// A fresh report carrying `opcode` and `payload`.
    pub fn to_report(opcode: u8, payload: &[u8]) -> (r: Result<[u8; HID_REPORT_SIZE], FrameBuildError>)
        ensures
            payload@.len() > MAX_PAYLOAD_SIZE <==> r is Err,
            r matches Err(e) ==> e == (FrameBuildError::PayloadTooLarge { len: payload@.len() as usize }),
            r matches Ok(rep) ==> rep@ == spec_report(opcode, payload@),
    {
        let mut report = [0u8; HID_REPORT_SIZE];
        match Frame::write(opcode, payload, &mut report) {
            Ok(()) => Ok(report),
            Err(e) => Err(e),
        }
    }
}

/// The subslice `buf[start..end]`.
fn slice_range<'a>(buf: &'a [u8], start: usize, end: usize) -> (r: &'a [u8])
    requires
        start <= end <= buf@.len(),
    ensures
        r@ == buf@.subrange(start as int, end as int),
{
    &buf[start..end]
}

/// Decoding a report built from an opcode and a payload that fits gives
/// them back.
pub proof fn lemma_report_round_trip(opcode: u8, payload: Seq<u8>)
    requires
        payload.len() <= MAX_PAYLOAD_SIZE,
    ensures
        spec_parse(spec_report(opcode, payload)) == Ok::<(u8, Seq<u8>), FrameParseError>((opcode, payload)),
{
    let rep = spec_report(opcode, payload);
    assert(rep.len() == HID_REPORT_SIZE);
    assert(spec_declared_len(rep) == payload.len());
    assert(rep.subrange(3, 3 + payload.len() as int) =~= payload);
}

} // verus!
