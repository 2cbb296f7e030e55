//! Command and response frames.
//!
//! A command frame is `count, opcode, param1, param2 (LE), data.., crc (LE)`
//! where `count` covers the whole frame. A response frame is
//! `count, payload.., crc (LE)`; a four-byte response carries a single
//! status byte instead of a payload.
use vstd::prelude::*;
use crate::atecc::crc::{crc16, crc16_to_bytes, verify_trailing_crc, spec_crc16, spec_crc_bytes, spec_trailing_crc_ok};
use crate::atecc::opcodes::{COMMAND_FRAME_OVERHEAD, MAX_COMMAND_DATA_LEN};

verus! {

/// Why a response frame was rejected.
#[derive(Debug, Clone, Copy, PartialEq, Eq, Structural)]
pub enum PacketParseError {
    /// Shorter than the minimal four-byte response.
    TooShort,
    /// The count byte does not match the frame length.
    LengthMismatch {
        /// Count byte advertised by the chip.
        declared: u8,
        /// Number of bytes actually received.
        actual: usize,
    },
    /// The trailing CRC does not match.
    BadCrc,
}

/// Why a command frame could not be built.
#[derive(Debug, Clone, Copy, PartialEq, Eq, Structural)]
pub enum PacketBuildError {
    /// The data block is longer than a packet can carry.
    DataTooLong {
        /// Length the caller asked for.
        attempted: usize,
        /// Largest length the protocol allows.
        max: usize,
    },
    /// The output buffer cannot hold the frame.
    OutputBufferTooSmall {
        /// Size the frame needs.
        required: usize,
        /// Size of the buffer provided.
        provided: usize,
    },
}

/// Everything of a command frame but its CRC.
pub open spec fn spec_command_body(opcode: u8, param1: u8, param2: u16, data: Seq<u8>) -> Seq<u8> {
    seq![(7 + data.len()) as u8, opcode, param1, (param2 % 256) as u8, (param2 / 256) as u8] + data
}

/// The complete command frame, CRC included.
pub open spec fn spec_command_frame(opcode: u8, param1: u8, param2: u16, data: Seq<u8>) -> Seq<u8> {
    let body = spec_command_body(opcode, param1, param2, data);
    body + spec_crc_bytes(spec_crc16(body))
}

/// Serialize a command frame into `out`, returning its length.
///
/// Fails, leaving `out` untouched, when `data` exceeds the protocol limit or
/// when `out` is shorter than the frame.
pub fn build_command_frame(
    opcode: u8,
    param1: u8,
    param2: u16,
    data: &[u8],
    out: &mut [u8],
) -> (r: Result<usize, PacketBuildError>)
    ensures
        final(out)@.len() == old(out)@.len(),
        data@.len() > MAX_COMMAND_DATA_LEN ==> r == Err::<usize, PacketBuildError>(
            PacketBuildError::DataTooLong { attempted: data@.len() as usize, max: MAX_COMMAND_DATA_LEN },
        ),
        data@.len() <= MAX_COMMAND_DATA_LEN && old(out)@.len() < COMMAND_FRAME_OVERHEAD + data@.len()
            ==> r == Err::<usize, PacketBuildError>(PacketBuildError::OutputBufferTooSmall {
                required: (COMMAND_FRAME_OVERHEAD + data@.len()) as usize,
                provided: old(out)@.len() as usize,
            }),
        r is Err ==> final(out)@ == old(out)@,
        data@.len() <= MAX_COMMAND_DATA_LEN && old(out)@.len() >= COMMAND_FRAME_OVERHEAD + data@.len()
            ==> r == Ok::<usize, PacketBuildError>((COMMAND_FRAME_OVERHEAD + data@.len()) as usize),
        r matches Ok(n) ==> {
            &&& final(out)@.take(n as int) == spec_command_frame(opcode, param1, param2, data@)
            &&& final(out)@.skip(n as int) == old(out)@.skip(n as int)
        },
{
    if data.len() > MAX_COMMAND_DATA_LEN {
        return Err(PacketBuildError::DataTooLong { attempted: data.len(), max: MAX_COMMAND_DATA_LEN });
    }
    let total_len: usize = COMMAND_FRAME_OVERHEAD + data.len();
    if out.len() < total_len {
        return Err(PacketBuildError::OutputBufferTooSmall { required: total_len, provided: out.len() });
    }
    let ghost old_out = out@;
    out[0] = total_len as u8;
    out[1] = opcode;
    out[2] = param1;
    let p2_lo: u8 = (param2 % 256) as u8;
    let p2_hi: u8 = (param2 / 256) as u8;
    out[3] = p2_lo;
    out[4] = p2_hi;
    let mut i: usize = 0;
    while i < data.len()
        invariant
            total_len == COMMAND_FRAME_OVERHEAD + data@.len(),
            data@.len() <= MAX_COMMAND_DATA_LEN,
            out@.len() == old_out.len(),
            out@.len() >= total_len,
            i <= data@.len(),
            out@.take(5 + i) == spec_command_body(opcode, param1, param2, data@).take(5 + i),
            out@.skip(5 + i) == old_out.skip(5 + i),
        decreases data@.len() - i,
    {
        let ghost before = out@;
        out[5 + i] = data[i];
        proof {
            let body = spec_command_body(opcode, param1, param2, data@);
            assert(out@.take(5 + i + 1) =~= before.take(5 + i).push(data@[i as int]));
            assert(body.take(5 + i + 1) =~= body.take(5 + i).push(body[5 + i]));
            assert forall|k: int| 0 <= k < out@.skip(5 + i + 1).len()
                implies #[trigger] out@.skip(5 + i + 1)[k] == old_out.skip(5 + i + 1)[k] by {
                assert(before.skip(5 + i)[k + 1] == old_out.skip(5 + i)[k + 1]);
            }
            assert(out@.skip(5 + i + 1) =~= old_out.skip(5 + i + 1));
        }
        i = i + 1;
    }
    let body_len: usize = 5 + data.len();
    let crc: u16 = crc16(&out[0..body_len]);
    proof {
        let body = spec_command_body(opcode, param1, param2, data@);
        assert(out@.subrange(0, body_len as int) =~= out@.take(body_len as int));
        assert(body.take(body_len as int) =~= body);
    }
    let crc_bytes = crc16_to_bytes(crc);
    let ghost mid = out@;
    out[body_len] = crc_bytes[0];
    out[body_len + 1] = crc_bytes[1];
    proof {
        let body = spec_command_body(opcode, param1, param2, data@);
        assert(out@.take(total_len as int) =~= body + spec_crc_bytes(spec_crc16(body)));
        assert forall|k: int| 0 <= k < out@.skip(total_len as int).len()
            implies #[trigger] out@.skip(total_len as int)[k] == old_out.skip(total_len as int)[k] by {
            assert(mid.skip(body_len as int)[k + 2] == old_out.skip(body_len as int)[k + 2]);
        }
        assert(out@.skip(total_len as int) =~= old_out.skip(total_len as int));
    }
    Ok(total_len)
}

/// A decoded response frame, borrowing its payload from the received bytes.
#[derive(Debug, PartialEq, Eq)]
pub enum ResponseFrame<'a> {
    /// Bytes between the count byte and the CRC.
    Payload(&'a [u8]),
    /// Status byte of a four-byte response.
    Status(u8),
}

/// Mathematical view of a decoded response.
pub enum SpecResponse {
    /// Payload bytes.
    Payload(Seq<u8>),
    /// Status byte.
    Status(u8),
}

impl<'a> View for ResponseFrame<'a> {
    type V = SpecResponse;

    open spec fn view(&self) -> SpecResponse {
        match self {
            ResponseFrame::Payload(p) => SpecResponse::Payload(p@),
            ResponseFrame::Status(s) => SpecResponse::Status(*s),
        }
    }
}

/// How a received frame decodes.
pub open spec fn spec_parse_response(frame: Seq<u8>) -> Result<SpecResponse, PacketParseError> {
    if frame.len() < 4 {
        Err(PacketParseError::TooShort)
    } else if frame[0] as int != frame.len() {
        Err(PacketParseError::LengthMismatch { declared: frame[0], actual: frame.len() as usize })
    } else if !spec_trailing_crc_ok(frame) {
        Err(PacketParseError::BadCrc)
    } else if frame.len() == 4 {
        Ok(SpecResponse::Status(frame[1]))
    } else {
        Ok(SpecResponse::Payload(frame.subrange(1, frame.len() - 2)))
    }
}

/// Decode a received response frame.
pub fn parse_response_frame(frame: &[u8]) -> (r: Result<ResponseFrame<'_>, PacketParseError>)
    ensures
        match r {
            Ok(f) => spec_parse_response(frame@) == Ok::<SpecResponse, PacketParseError>(f@),
            Err(e) => spec_parse_response(frame@) == Err::<SpecResponse, PacketParseError>(e),
        },
{
    if frame.len() < 4 {
        return Err(PacketParseError::TooShort);
    }
    let declared: u8 = frame[0];
    if declared as usize != frame.len() {
        return Err(PacketParseError::LengthMismatch { declared, actual: frame.len() });
    }
    if !verify_trailing_crc(frame) {
        return Err(PacketParseError::BadCrc);
    }
    if frame.len() == 4 {
        return Ok(ResponseFrame::Status(frame[1]));
    }
    Ok(ResponseFrame::Payload(&frame[1..frame.len() - 2]))
}

/// A built command frame announces its own length in its count byte and
/// carries a CRC that verifies.
pub proof fn lemma_command_frame_well_formed(opcode: u8, param1: u8, param2: u16, data: Seq<u8>)
    requires
        data.len() <= MAX_COMMAND_DATA_LEN,
    ensures
        spec_command_frame(opcode, param1, param2, data).len() == COMMAND_FRAME_OVERHEAD + data.len(),
        spec_command_frame(opcode, param1, param2, data)[0] as int == COMMAND_FRAME_OVERHEAD + data.len(),
        spec_trailing_crc_ok(spec_command_frame(opcode, param1, param2, data)),
{
    let body = spec_command_body(opcode, param1, param2, data);
    crate::atecc::crc::lemma_append_crc_verifies(body);
}

/// A response frame made of a count byte, a payload of at least two bytes
/// and the CRC decodes to that payload; with a single byte it decodes to a
/// status.
pub proof fn lemma_response_round_trip(payload: Seq<u8>)
    requires
        1 <= payload.len() <= 252,
    ensures
        ({
            let body = seq![(payload.len() + 3) as u8] + payload;
            let frame = body + spec_crc_bytes(spec_crc16(body));
            &&& payload.len() == 1 ==> spec_parse_response(frame) == Ok::<SpecResponse, PacketParseError>(SpecResponse::Status(payload[0]))
            &&& payload.len() >= 2 ==> spec_parse_response(frame) == Ok::<SpecResponse, PacketParseError>(SpecResponse::Payload(payload))
        }),
{
    let body = seq![(payload.len() + 3) as u8] + payload;
    let frame = body + spec_crc_bytes(spec_crc16(body));
    crate::atecc::crc::lemma_append_crc_verifies(body);
    assert(frame[0] == body[0]);
    assert(frame.subrange(1, frame.len() - 2) =~= payload);
    assert(frame[1] == payload[0]);
}

} // verus!
