//! PIN and PUK handling on the host side: digit checks, the salted hashes
//! stored in the chip, and the CheckMac response that proves knowledge of
//! such a hash without sending it.
use vstd::prelude::*;
use crate::service::sha::{push_all, push_zeros, sha256, spec_sha256};

verus! {

/// Length of a SHA-256 digest.
pub const HASH_LEN: usize = 32;

/// Length of a PIN, in ASCII digits.
pub const PIN_LEN: usize = 4;

/// Length of a PUK, in ASCII digits.
pub const PUK_LEN: usize = 8;

/// Why a PIN, PUK or numeric argument was refused.
#[derive(Debug, Clone, Copy, PartialEq, Eq, Structural)]
pub enum FormatError {
    /// The byte at `position` is not an ASCII digit.
    NonDigit { position: usize },
    /// A numeric argument is out of its range (a config block above 3).
    OutOfRange,
}

/// `b` is an ASCII digit.
pub open spec fn is_digit(b: u8) -> bool {
    0x30 <= b <= 0x39
}

/// Every byte of `code` is an ASCII digit.
pub open spec fn all_digits(code: Seq<u8>) -> bool {
    forall|i: int| 0 <= i < code.len() ==> is_digit(#[trigger] code[i])
}

/// `e` names the first byte of `code` that is not an ASCII digit.
pub open spec fn spec_format_rejection(code: Seq<u8>, e: FormatError) -> bool {
    e matches FormatError::NonDigit { position } && position < code.len() && !is_digit(code[position as int])
        && all_digits(code.take(position as int))
}

/// Accept `code` if it holds only ASCII digits; otherwise name the first
/// offending position.
pub fn validate_digits(code: &[u8]) -> (r: Result<(), FormatError>)
    ensures
        r is Ok <==> all_digits(code@),
        r matches Err(e) ==> spec_format_rejection(code@, e),
{
    let mut i: usize = 0;
    while i < code.len()
        invariant
            i <= code@.len(),
            all_digits(code@.take(i as int)),
        decreases code@.len() - i,
    {
        let b = code[i];
        if !(b >= 0x30 && b <= 0x39) {
            return Err(FormatError::NonDigit { position: i });
        }
        proof {
            assert forall|j: int| 0 <= j < i + 1 implies is_digit(#[trigger] code@.take(i as int + 1)[j]) by {
                if j < i {
                    assert(code@.take(i as int + 1)[j] == code@.take(i as int)[j]);
                }
            }
        }
        i = i + 1;
    }
    proof {
        assert(code@.take(code@.len() as int) =~= code@);
    }
    Ok(())
}

/// The domain string of the PIN salt, `mini-hsm-pin-salt-v1`.
pub open spec fn spec_pin_salt_domain() -> Seq<u8> {
    seq![0x6d, 0x69, 0x6e, 0x69, 0x2d, 0x68, 0x73, 0x6d, 0x2d, 0x70, 0x69, 0x6e, 0x2d, 0x73, 0x61, 0x6c, 0x74, 0x2d, 0x76, 0x31]
}

/// The domain string of the PUK salt, `mini-hsm-puk-salt-v1`.
pub open spec fn spec_puk_salt_domain() -> Seq<u8> {
    seq![0x6d, 0x69, 0x6e, 0x69, 0x2d, 0x68, 0x73, 0x6d, 0x2d, 0x70, 0x75, 0x6b, 0x2d, 0x73, 0x61, 0x6c, 0x74, 0x2d, 0x76, 0x31]
}

fn pin_salt_domain() -> (r: [u8; 20])
    ensures
        r@ == spec_pin_salt_domain(),
{
    let r: [u8; 20] = [
        0x6d, 0x69, 0x6e, 0x69, 0x2d, 0x68, 0x73, 0x6d, 0x2d, 0x70, 0x69, 0x6e, 0x2d, 0x73, 0x61, 0x6c, 0x74, 0x2d, 0x76, 0x31,
    ];
    assert(r@ =~= spec_pin_salt_domain());
    r
}

fn puk_salt_domain() -> (r: [u8; 20])
    ensures
        r@ == spec_puk_salt_domain(),
{
    let r: [u8; 20] = [
        0x6d, 0x69, 0x6e, 0x69, 0x2d, 0x68, 0x73, 0x6d, 0x2d, 0x70, 0x75, 0x6b, 0x2d, 0x73, 0x61, 0x6c, 0x74, 0x2d, 0x76, 0x31,
    ];
    assert(r@ =~= spec_puk_salt_domain());
    r
}

/// Salt of the PIN hash of the chip with serial `serial`:
/// `SHA256("mini-hsm-pin-salt-v1" || serial)`.
pub open spec fn spec_pin_salt(serial: Seq<u8>) -> Seq<u8> {
    spec_sha256(spec_pin_salt_domain() + serial)
}

/// Salt of the PUK hash: `SHA256("mini-hsm-puk-salt-v1" || serial)`.
pub open spec fn spec_puk_salt(serial: Seq<u8>) -> Seq<u8> {
    spec_sha256(spec_puk_salt_domain() + serial)
}

/// Hash stored for a PIN or PUK: `SHA256(code || salt)`.
pub open spec fn spec_code_hash(code: Seq<u8>, salt: Seq<u8>) -> Seq<u8> {
    spec_sha256(code + salt)
}

/// The PIN salt of a chip, from its 9-byte serial number.
pub fn pin_salt(chip_serial: &[u8; 9]) -> (r: [u8; HASH_LEN])
    ensures
        r@ == spec_pin_salt(chip_serial@),
{
    let domain = pin_salt_domain();
    let mut msg: Vec<u8> = Vec::new();
    push_all(&mut msg, &domain);
    push_all(&mut msg, chip_serial);
    sha256(msg.as_slice())
}

/// The PUK salt of a chip, from its 9-byte serial number.
pub fn puk_salt(chip_serial: &[u8; 9]) -> (r: [u8; HASH_LEN])
    ensures
        r@ == spec_puk_salt(chip_serial@),
{
    let domain = puk_salt_domain();
    let mut msg: Vec<u8> = Vec::new();
    push_all(&mut msg, &domain);
    push_all(&mut msg, chip_serial);
    sha256(msg.as_slice())
}

/// The hash of a PIN under a salt.
pub fn pin_hash(pin: [u8; PIN_LEN], salt: &[u8; HASH_LEN]) -> (r: [u8; HASH_LEN])
    ensures
        r@ == spec_code_hash(pin@, salt@),
{
    let mut msg: Vec<u8> = Vec::new();
    push_all(&mut msg, &pin);
    push_all(&mut msg, salt);
    sha256(msg.as_slice())
}

/// The hash of a PUK under a salt.
pub fn puk_hash(puk: [u8; PUK_LEN], salt: &[u8; HASH_LEN]) -> (r: [u8; HASH_LEN])
    ensures
        r@ == spec_code_hash(puk@, salt@),
{
    let mut msg: Vec<u8> = Vec::new();
    push_all(&mut msg, &puk);
    push_all(&mut msg, salt);
    sha256(msg.as_slice())
}

/// The message the chip hashes for a CheckMac in challenge mode:
/// `slot_value || challenge || other[0..4] || 0^8 || other[4..7] ||
/// sn[8] || other[7..11] || sn[0..2] || other[11..13]`.
pub open spec fn spec_checkmac_message(slot_value: Seq<u8>, challenge: Seq<u8>, other: Seq<u8>, serial: Seq<u8>) -> Seq<u8> {
    slot_value + challenge + other.subrange(0, 4) + Seq::new(8, |i: int| 0u8) + other.subrange(4, 7)
        + seq![serial[8]] + other.subrange(7, 11) + serial.subrange(0, 2) + other.subrange(11, 13)
}

/// The response the chip expects from a host that knows `slot_value`.
pub open spec fn spec_checkmac_response(slot_value: Seq<u8>, challenge: Seq<u8>, other: Seq<u8>, serial: Seq<u8>) -> Seq<u8> {
    spec_sha256(spec_checkmac_message(slot_value, challenge, other, serial))
}

/// Compute the CheckMac response for `slot_value`, as the chip computes
/// it on its side.
pub fn checkmac_response(
    slot_value: &[u8; HASH_LEN],
    challenge: &[u8; HASH_LEN],
    other_data: &[u8; 13],
    chip_serial: &[u8; 9],
) -> (r: [u8; HASH_LEN])
    ensures
        r@ == spec_checkmac_response(slot_value@, challenge@, other_data@, chip_serial@),
{
    let mut msg: Vec<u8> = Vec::new();
    push_all(&mut msg, slot_value);
    push_all(&mut msg, challenge);
    push_all(&mut msg, &other_data[0..4]);
    push_zeros(&mut msg, 8);
    push_all(&mut msg, &other_data[4..7]);
    push_all(&mut msg, &chip_serial[8..9]);
    push_all(&mut msg, &other_data[7..11]);
    push_all(&mut msg, &chip_serial[0..2]);
    push_all(&mut msg, &other_data[11..13]);
    proof {
        assert(chip_serial@.subrange(8, 9) =~= seq![chip_serial@[8]]);
        assert(msg@ =~= spec_checkmac_message(slot_value@, challenge@, other_data@, chip_serial@));
    }
    sha256(msg.as_slice())
}

/// The `other_data` of a CheckMac against key `key_id`: opcode, mode and
/// key id, then zeros for the unused OTP bytes, then serial bytes that
/// bind the response to this chip.
pub open spec fn spec_checkmac_other_data(key_id: u8, serial: Seq<u8>) -> Seq<u8> {
    seq![0x28u8, 0x00u8, key_id, 0x00u8, 0u8, 0u8, 0u8, serial[0], serial[0], serial[1], serial[2], serial[3], 0x00u8]
}

/// Build the `other_data` of a CheckMac against key `key_id`.
pub fn checkmac_other_data(key_id: u8, chip_serial: &[u8; 9]) -> (r: [u8; 13])
    ensures
        r@ == spec_checkmac_other_data(key_id, chip_serial@),
{
    let mut data = [0u8; 13];
    data[0] = 0x28;
    data[1] = 0x00;
    data[2] = key_id;
    data[3] = 0x00;
    data[7] = chip_serial[0];
    data[8] = chip_serial[0];
    data[9] = chip_serial[1];
    data[10] = chip_serial[2];
    data[11] = chip_serial[3];
    data[12] = 0x00;
    assert(data@ =~= spec_checkmac_other_data(key_id, chip_serial@));
    data
}

/// The CheckMac response depends on the serial number only through its
/// bytes 0, 1 and 8: two serials that agree there give the same response.
pub proof fn lemma_checkmac_response_uses_serial_bytes_0_1_8(
    slot_value: Seq<u8>,
    challenge: Seq<u8>,
    other: Seq<u8>,
    s1: Seq<u8>,
    s2: Seq<u8>,
)
    requires
        s1.len() == 9,
        s2.len() == 9,
        s1[0] == s2[0],
        s1[1] == s2[1],
        s1[8] == s2[8],
    ensures
        spec_checkmac_response(slot_value, challenge, other, s1) == spec_checkmac_response(slot_value, challenge, other, s2),
{
    assert(s1.subrange(0, 2) =~= s2.subrange(0, 2));
    assert(spec_checkmac_message(slot_value, challenge, other, s1) =~= spec_checkmac_message(slot_value, challenge, other, s2));
}

/// The PIN and PUK salts hash the 20-byte ASCII domain string
/// `mini-hsm-pin-salt-v1` or `mini-hsm-puk-salt-v1` followed by the nine
/// serial bytes; the two domains differ only in bytes 10 and 11 (`in`
/// against `uk`), so a PIN salt and a PUK salt are never hashed from the
/// same message.
pub proof fn lemma_salt_layout(serial: Seq<u8>)
    requires
        serial.len() == 9,
    ensures
        spec_pin_salt(serial) == spec_sha256(spec_pin_salt_domain() + serial),
        spec_puk_salt(serial) == spec_sha256(spec_puk_salt_domain() + serial),
        (spec_pin_salt_domain() + serial).len() == 29,
        forall|i: int| 0 <= i < 9 ==> (spec_pin_salt_domain() + serial)[20 + i] == serial[i]
            && (spec_puk_salt_domain() + serial)[20 + i] == serial[i],
        spec_pin_salt_domain()[0] == 0x6d && spec_pin_salt_domain()[8] == 0x2d && spec_pin_salt_domain()[19] == 0x31,
        spec_pin_salt_domain()[10] == 0x69 && spec_pin_salt_domain()[11] == 0x6e,
        spec_puk_salt_domain()[10] == 0x75 && spec_puk_salt_domain()[11] == 0x6b,
        forall|i: int| 0 <= i < 20 && i != 10 && i != 11 ==> spec_pin_salt_domain()[i] == spec_puk_salt_domain()[i],
        spec_pin_salt_domain() + serial != spec_puk_salt_domain() + serial,
{
    assert((spec_pin_salt_domain() + serial)[10] != (spec_puk_salt_domain() + serial)[10]);
}

/// The stored hash of a code is the SHA-256 of the code's digits followed
/// by the 32-byte salt.
pub proof fn lemma_code_hash_layout(code: Seq<u8>, salt: Seq<u8>)
    requires
        salt.len() == 32,
    ensures
        spec_code_hash(code, salt) == spec_sha256(code + salt),
        (code + salt).len() == code.len() + 32,
        forall|i: int| 0 <= i < code.len() ==> (code + salt)[i] == code[i],
        forall|i: int| 0 <= i < 32 ==> (code + salt)[code.len() + i] == salt[i],
{
}

/// The CheckMac response is the SHA-256 of an 88-byte message laid out as
/// the chip hashes it in challenge mode: the slot value (0..32), the
/// challenge (32..64), other data 0..4 (64..68), eight zero bytes
/// (68..76), other data 4..7 (76..79), serial byte 8 (79), other data
/// 7..11 (80..84), serial bytes 0 and 1 (84, 85), other data 11..13
/// (86, 87).
pub proof fn lemma_checkmac_layout(slot_value: Seq<u8>, challenge: Seq<u8>, other: Seq<u8>, serial: Seq<u8>)
    requires
        slot_value.len() == 32,
        challenge.len() == 32,
        other.len() == 13,
        serial.len() == 9,
    ensures
        spec_checkmac_response(slot_value, challenge, other, serial)
            == spec_sha256(spec_checkmac_message(slot_value, challenge, other, serial)),
        ({
            let m = spec_checkmac_message(slot_value, challenge, other, serial);
            &&& m.len() == 88
            &&& forall|i: int| 0 <= i < 32 ==> m[i] == slot_value[i] && m[32 + i] == challenge[i]
            &&& forall|i: int| 0 <= i < 4 ==> m[64 + i] == other[i]
            &&& forall|i: int| 68 <= i < 76 ==> m[i] == 0
            &&& m[76] == other[4] && m[77] == other[5] && m[78] == other[6]
            &&& m[79] == serial[8]
            &&& m[80] == other[7] && m[81] == other[8] && m[82] == other[9] && m[83] == other[10]
            &&& m[84] == serial[0] && m[85] == serial[1]
            &&& m[86] == other[11] && m[87] == other[12]
        }),
{
    let m = spec_checkmac_message(slot_value, challenge, other, serial);
    assert(m.len() == 88);
    assert forall|i: int| 0 <= i < 32 implies m[i] == slot_value[i] && m[32 + i] == challenge[i] by {}
    assert forall|i: int| 0 <= i < 4 implies m[64 + i] == other[i] by {}
    assert forall|i: int| 68 <= i < 76 implies m[i] == 0 by {}
}

/// The other data of a CheckMac names the CheckMac opcode (0x28), mode 0
/// and the key; bytes 7 to 11 are serial bytes 0, 0, 1, 2, 3.
pub proof fn lemma_checkmac_other_data_layout(key_id: u8, serial: Seq<u8>)
    requires
        serial.len() == 9,
    ensures
        spec_checkmac_other_data(key_id, serial).len() == 13,
        spec_checkmac_other_data(key_id, serial)[0] == 0x28,
        spec_checkmac_other_data(key_id, serial)[1] == 0,
        spec_checkmac_other_data(key_id, serial)[2] == key_id,
        forall|i: int| 3 <= i < 7 ==> spec_checkmac_other_data(key_id, serial)[i] == 0,
        spec_checkmac_other_data(key_id, serial)[7] == serial[0],
        spec_checkmac_other_data(key_id, serial)[8] == serial[0],
        spec_checkmac_other_data(key_id, serial)[9] == serial[1],
        spec_checkmac_other_data(key_id, serial)[10] == serial[2],
        spec_checkmac_other_data(key_id, serial)[11] == serial[3],
        spec_checkmac_other_data(key_id, serial)[12] == 0,
{
}

} // verus!
