//! CRC-16 of the ATECC608B protocol.
//!
//! Polynomial `0x8005`, initial value `0`, input and output not reflected,
//! no final XOR; the two CRC bytes travel low byte first.
use vstd::prelude::*;

verus! {

/// Generator polynomial of the chip's CRC.
pub const CRC_POLY: u16 = 0x8005;

/// One step of the bit-serial CRC: bit `bit` of `byte` enters the register.
pub open spec fn crc_bit_step(crc: u16, byte: u8, bit: u8) -> u16 {
    let data_bit: u8 = (byte >> bit) & 1u8;
    let crc_bit: u8 = ((crc >> 15u16) & 1u16) as u8;
    let shifted: u16 = crc << 1u16;
    if data_bit != crc_bit {
        shifted ^ CRC_POLY
    } else {
        shifted
    }
}

/// The register after the first `n` bits of `byte` (least significant
/// first) have entered it.
pub open spec fn crc_byte_bits(crc: u16, byte: u8, n: nat) -> u16
    decreases n,
{
    if n == 0 {
        crc
    } else {
        crc_bit_step(crc_byte_bits(crc, byte, (n - 1) as nat), byte, (n - 1) as u8)
    }
}

/// The register after a whole byte has entered it.
pub open spec fn crc_update(crc: u16, byte: u8) -> u16 {
    crc_byte_bits(crc, byte, 8)
}

/// CRC-16 of a byte sequence.
pub open spec fn spec_crc16(data: Seq<u8>) -> u16
    decreases data.len(),
{
    if data.len() == 0 {
        0
    } else {
        crc_update(spec_crc16(data.drop_last()), data.last())
    }
}

/// The two wire bytes of a CRC value, low byte first.
pub open spec fn spec_crc_bytes(crc: u16) -> Seq<u8> {
    seq![(crc % 256) as u8, (crc / 256) as u8]
}

/// Whether the last two bytes of `frame` are the CRC of the bytes before
/// them (a frame needs at least one byte besides the CRC).
pub open spec fn spec_trailing_crc_ok(frame: Seq<u8>) -> bool {
    &&& frame.len() >= 3
    &&& spec_crc_bytes(spec_crc16(frame.take(frame.len() - 2))) == frame.skip(frame.len() - 2)
}

/// Compute the CRC-16 over `data`.
pub fn crc16(data: &[u8]) -> (crc: u16)
    ensures
        crc == spec_crc16(data@),
{
    let mut crc: u16 = 0x0000;
    let mut i: usize = 0;
    while i < data.len()
        invariant
            i <= data@.len(),
            crc == spec_crc16(data@.take(i as int)),
        decreases data@.len() - i,
    {
        let byte: u8 = data[i];
        let ghost start: u16 = crc;
        let mut bit_index: u8 = 0;
        while bit_index < 8
            invariant
                bit_index <= 8,
                crc == crc_byte_bits(start, byte, bit_index as nat),
            decreases 8 - bit_index,
        {
            let data_bit: u8 = (byte >> bit_index) & 0x01;
            let crc_bit: u8 = ((crc >> 15) & 0x0001) as u8;
            crc = crc << 1;
            if data_bit != crc_bit {
                crc = crc ^ CRC_POLY;
            }
            bit_index = bit_index + 1;
        }
        proof {
            assert(data@.take(i as int + 1).drop_last() =~= data@.take(i as int));
        }
        i = i + 1;
    }
    proof {
        assert(data@.take(data@.len() as int) =~= data@);
    }
    crc
}

/// Serialize a CRC into its two wire bytes, low byte first.
pub fn crc16_to_bytes(crc: u16) -> (bytes: [u8; 2])
    ensures
        bytes@ == spec_crc_bytes(crc),
{
    let lo: u8 = (crc & 0xFF) as u8;
    let hi: u8 = ((crc >> 8) & 0xFF) as u8;
    assert(crc & 0xFF == crc % 256) by (bit_vector);
    assert((crc >> 8) & 0xFF == crc / 256) by (bit_vector);
    let bytes = [lo, hi];
    assert(bytes@ =~= spec_crc_bytes(crc));
    bytes
}

/// Check the trailing two CRC bytes of `frame` against the CRC of the rest.
/// A frame shorter than three bytes never passes.
pub fn verify_trailing_crc(frame: &[u8]) -> (ok: bool)
    ensures
        ok == spec_trailing_crc_ok(frame@),
{
    if frame.len() < 3 {
        return false;
    }
    let split: usize = frame.len() - 2;
    let computed: u16 = crc16(&frame[0..split]);
    assert(frame@.subrange(0, split as int) =~= frame@.take(split as int));
    let expected = crc16_to_bytes(computed);
    let ok = expected[0] == frame[split] && expected[1] == frame[split + 1];
    proof {
        let tail = frame@.skip(split as int);
        if ok {
            assert(expected@ =~= tail);
        } else {
            if expected@ == tail {
                assert(expected@[0] == tail[0]);
                assert(expected@[1] == tail[1]);
            }
        }
    }
    ok
}

/// Appending the CRC of a non-empty sequence yields a frame whose trailing
/// CRC verifies.
pub proof fn lemma_append_crc_verifies(body: Seq<u8>)
    requires
        body.len() >= 1,
    ensures
        spec_trailing_crc_ok(body + spec_crc_bytes(spec_crc16(body))),
{
    let frame = body + spec_crc_bytes(spec_crc16(body));
    assert(frame.take(frame.len() - 2) =~= body);
    assert(frame.skip(frame.len() - 2) =~= spec_crc_bytes(spec_crc16(body)));
}

} // verus!
