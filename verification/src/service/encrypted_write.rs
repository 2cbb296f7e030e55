//! Host side of the chip's encrypted write: the session key a GenDig
//! derives on the chip, the XOR encryption of the plaintext, and the MAC
//! that authenticates the write.
use vstd::prelude::*;
use crate::atecc::command::read_write::{data_address, spec_data_address};
use crate::atecc::slot::Slot;
use crate::service::sha::{push_all, push_zeros, sha256, spec_sha256};

verus! {

/// Length of a chip serial number.
pub const CHIP_SERIAL_LEN: usize = 9;

/// Length of a slot value, a key, a digest.
pub const SLOT_VALUE_LEN: usize = 32;

/// Opcode of GenDig, as hashed into the session key.
pub const OP_GENDIG: u8 = 0x15;

/// Opcode of Write, as hashed into the write MAC.
pub const OP_WRITE: u8 = 0x12;

/// `param1` of a GenDig on the data zone.
pub const ZONE_DATA: u8 = 0x02;

/// `param1` of an encrypted 32-byte data-zone write.
pub const WRITE_PARAM1_ENCRYPTED_DATA: u8 = 0xC2;

/// `n` zero bytes.
pub open spec fn spec_zeros(n: nat) -> Seq<u8> {
    Seq::new(n, |i: int| 0u8)
}

/// The message the chip hashes in a GenDig of the data slot `io_slot`:
/// `io_key || 15 02 io_slot 00 || sn[8] || sn[0..2] || 0^25 || nonce`.
pub open spec fn spec_session_key_message(io_key: Seq<u8>, nonce: Seq<u8>, io_slot: u8, serial: Seq<u8>) -> Seq<u8> {
    io_key + seq![OP_GENDIG, ZONE_DATA, io_slot, 0u8] + seq![serial[8]] + serial.subrange(0, 2) + spec_zeros(25) + nonce
}

/// The session key, the new `TempKey` after that GenDig.
pub open spec fn spec_session_key(io_key: Seq<u8>, nonce: Seq<u8>, io_slot: u8, serial: Seq<u8>) -> Seq<u8> {
    spec_sha256(spec_session_key_message(io_key, nonce, io_slot, serial))
}

/// Compute on the host the session key the chip holds after a GenDig on
/// the I/O key slot `io_slot` with `TempKey` set to `nonce_input`.
pub fn derive_session_key(
    io_key: &[u8; SLOT_VALUE_LEN],
    nonce_input: &[u8; SLOT_VALUE_LEN],
    io_slot: u8,
    chip_serial: &[u8; CHIP_SERIAL_LEN],
) -> (r: [u8; SLOT_VALUE_LEN])
    ensures
        r@ == spec_session_key(io_key@, nonce_input@, io_slot, chip_serial@),
{
    let params: [u8; 4] = [OP_GENDIG, ZONE_DATA, io_slot, 0x00];
    let mut msg: Vec<u8> = Vec::new();
    push_all(&mut msg, io_key);
    push_all(&mut msg, &params);
    push_all(&mut msg, &chip_serial[8..9]);
    push_all(&mut msg, &chip_serial[0..2]);
    push_zeros(&mut msg, 25);
    push_all(&mut msg, nonce_input);
    proof {
        assert(params@ =~= seq![OP_GENDIG, ZONE_DATA, io_slot, 0u8]);
        assert(chip_serial@.subrange(8, 9) =~= seq![chip_serial@[8]]);
        assert(msg@ =~= spec_session_key_message(io_key@, nonce_input@, io_slot, chip_serial@));
    }
    sha256(msg.as_slice())
}

/// Bytewise XOR of two 32-byte strings.
pub open spec fn spec_xor(a: Seq<u8>, b: Seq<u8>) -> Seq<u8> {
    Seq::new(32, |i: int| a[i] ^ b[i])
}

/// Encrypt (or decrypt) a slot value with the session key: bytewise XOR.
pub fn encrypt_payload(plaintext: &[u8; SLOT_VALUE_LEN], session_key: &[u8; SLOT_VALUE_LEN]) -> (r: [u8; SLOT_VALUE_LEN])
    ensures
        r@ == spec_xor(plaintext@, session_key@),
{
    let mut ciphertext = [0u8; SLOT_VALUE_LEN];
    let mut i: usize = 0;
    while i < SLOT_VALUE_LEN
        invariant
            i <= 32,
            forall|j: int| 0 <= j < i ==> ciphertext@[j] == plaintext@[j] ^ session_key@[j],
        decreases 32 - i,
    {
        ciphertext[i] = plaintext[i] ^ session_key[i];
        i = i + 1;
    }
    assert(ciphertext@ =~= spec_xor(plaintext@, session_key@));
    ciphertext
}

/// Encrypting twice with the same key gives the plaintext back.
pub proof fn lemma_encrypt_self_inverse(plaintext: Seq<u8>, key: Seq<u8>)
    requires
        plaintext.len() == 32,
        key.len() == 32,
    ensures
        spec_xor(spec_xor(plaintext, key), key) == plaintext,
{
    assert forall|i: int| 0 <= i < 32 implies #[trigger] spec_xor(spec_xor(plaintext, key), key)[i] == plaintext[i] by {
        let a = plaintext[i];
        let b = key[i];
        assert((a ^ b) ^ b == a) by (bit_vector);
    }
    assert(spec_xor(spec_xor(plaintext, key), key) =~= plaintext);
}

/// The message the chip hashes to check an encrypted write of
/// `plaintext` to block `block` of slot `slot`:
/// `session_key || 12 C2 addr_lo addr_hi || sn[8] || sn[0..2] || 0^25 ||
/// plaintext`.
pub open spec fn spec_write_mac_message(session_key: Seq<u8>, plaintext: Seq<u8>, slot: u8, block: u8, serial: Seq<u8>) -> Seq<u8> {
    let address = spec_data_address(slot, block, 0);
    session_key + seq![OP_WRITE, WRITE_PARAM1_ENCRYPTED_DATA, (address % 256) as u8, (address / 256) as u8]
        + seq![serial[8]] + serial.subrange(0, 2) + spec_zeros(25) + plaintext
}

/// The MAC of an encrypted write.
pub open spec fn spec_write_mac(session_key: Seq<u8>, plaintext: Seq<u8>, slot: u8, block: u8, serial: Seq<u8>) -> Seq<u8> {
    spec_sha256(spec_write_mac_message(session_key, plaintext, slot, block, serial))
}

/// Compute the MAC the chip checks for an encrypted write of `plaintext`
/// to block `target_block` of `target_slot`.
pub fn write_mac(
    session_key: &[u8; SLOT_VALUE_LEN],
    plaintext: &[u8; SLOT_VALUE_LEN],
    target_slot: Slot,
    target_block: u8,
    chip_serial: &[u8; CHIP_SERIAL_LEN],
) -> (r: [u8; SLOT_VALUE_LEN])
    ensures
        r@ == spec_write_mac(session_key@, plaintext@, target_slot.index(), target_block, chip_serial@),
{
    let address = data_address(target_slot, target_block, 0);
    let param2_lo: u8 = (address & 0xFF) as u8;
    let param2_hi: u8 = (address >> 8) as u8;
    assert((address & 0xFF) as u8 == (address % 256) as u8 && (address >> 8) as u8 == (address / 256) as u8) by (bit_vector);
    let params: [u8; 4] = [OP_WRITE, WRITE_PARAM1_ENCRYPTED_DATA, param2_lo, param2_hi];
    let mut msg: Vec<u8> = Vec::new();
    push_all(&mut msg, session_key);
    push_all(&mut msg, &params);
    push_all(&mut msg, &chip_serial[8..9]);
    push_all(&mut msg, &chip_serial[0..2]);
    push_zeros(&mut msg, 25);
    push_all(&mut msg, plaintext);
    proof {
        assert(chip_serial@.subrange(8, 9) =~= seq![chip_serial@[8]]);
        assert(msg@ =~= spec_write_mac_message(session_key@, plaintext@, target_slot.index(), target_block, chip_serial@));
    }
    sha256(msg.as_slice())
}

/// Data field of an encrypted write: ciphertext then MAC.
pub fn build_encrypted_write_payload(ciphertext: &[u8; SLOT_VALUE_LEN], mac: &[u8; SLOT_VALUE_LEN]) -> (r: [u8; 64])
    ensures
        r@ == ciphertext@ + mac@,
{
    let mut out = [0u8; 64];
    let mut i: usize = 0;
    while i < 32
        invariant
            i <= 32,
            forall|j: int| 0 <= j < i ==> out@[j] == ciphertext@[j] && out@[j + 32] == mac@[j],
        decreases 32 - i,
    {
        out[i] = ciphertext[i];
        out[i + 32] = mac[i];
        i = i + 1;
    }
    assert(out@ =~= ciphertext@ + mac@);
    out
}

/// The write MAC is the SHA-256 of a 96-byte message laid out as the
/// chip recomputes it: the session key (bytes 0..32), the Write opcode
/// 0x12, param1 0xC2, the data address little end first (bytes 34, 35),
/// serial byte 8, serial bytes 0 and 1 (bytes 36..39), 25 zero bytes, and
/// the plaintext (bytes 64..96).
pub proof fn lemma_write_mac_layout(session_key: Seq<u8>, plaintext: Seq<u8>, slot: u8, block: u8, serial: Seq<u8>)
    requires
        session_key.len() == 32,
        plaintext.len() == 32,
        serial.len() == 9,
        slot < 16,
        block < 8,
    ensures
        spec_write_mac(session_key, plaintext, slot, block, serial)
            == spec_sha256(spec_write_mac_message(session_key, plaintext, slot, block, serial)),
        ({
            let m = spec_write_mac_message(session_key, plaintext, slot, block, serial);
            &&& m.len() == 96
            &&& forall|i: int| 0 <= i < 32 ==> m[i] == session_key[i]
            &&& m[32] == 0x12 && m[33] == 0xC2
            &&& m[34] as int + 256 * (m[35] as int) == 256 * (block as int) + 8 * (slot as int)
            &&& m[36] == serial[8] && m[37] == serial[0] && m[38] == serial[1]
            &&& forall|i: int| 39 <= i < 64 ==> m[i] == 0
            &&& forall|i: int| 0 <= i < 32 ==> m[64 + i] == plaintext[i]
        }),
{
    let m = spec_write_mac_message(session_key, plaintext, slot, block, serial);
    assert(m.len() == 96);
    assert forall|i: int| 0 <= i < 32 implies m[i] == session_key[i] by {}
    assert forall|i: int| 39 <= i < 64 implies m[i] == 0 by {}
    assert forall|i: int| 0 <= i < 32 implies m[64 + i] == plaintext[i] by {}
}

/// The session key is the SHA-256 of a 96-byte message laid out as the
/// chip's GenDig hashes it: the I/O key (bytes 0..32), the GenDig opcode
/// 0x15, zone 0x02, the key's slot, 0x00, serial byte 8, serial bytes 0
/// and 1 (bytes 36..39), 25 zero bytes, and the nonce (bytes 64..96).
pub proof fn lemma_session_key_layout(io_key: Seq<u8>, nonce: Seq<u8>, io_slot: u8, serial: Seq<u8>)
    requires
        io_key.len() == 32,
        nonce.len() == 32,
        serial.len() == 9,
    ensures
        spec_session_key(io_key, nonce, io_slot, serial) == spec_sha256(spec_session_key_message(io_key, nonce, io_slot, serial)),
        ({
            let m = spec_session_key_message(io_key, nonce, io_slot, serial);
            &&& m.len() == 96
            &&& forall|i: int| 0 <= i < 32 ==> m[i] == io_key[i]
            &&& m[32] == 0x15 && m[33] == 0x02 && m[34] == io_slot && m[35] == 0
            &&& m[36] == serial[8] && m[37] == serial[0] && m[38] == serial[1]
            &&& forall|i: int| 39 <= i < 64 ==> m[i] == 0
            &&& forall|i: int| 0 <= i < 32 ==> m[64 + i] == nonce[i]
        }),
{
    let m = spec_session_key_message(io_key, nonce, io_slot, serial);
    assert(m.len() == 96);
    assert forall|i: int| 0 <= i < 32 implies m[i] == io_key[i] by {}
    assert forall|i: int| 39 <= i < 64 implies m[i] == 0 by {}
    assert forall|i: int| 0 <= i < 32 implies m[64 + i] == nonce[i] by {}
}

} // verus!
