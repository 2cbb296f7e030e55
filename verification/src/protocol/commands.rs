//! Request opcodes and the payload parsers of each request.
use vstd::prelude::*;

verus! {

/// The opcode of a request.
#[derive(Debug, Clone, Copy, PartialEq, Eq, Structural)]
pub enum CommandOpcode {
    /// Device information.
    Info,
    /// Public key of a slot.
    GetPubkey,
    /// Sign a digest with a slot's key.
    Sign,
    /// Generate a key pair in a slot.
    GenKey,
    /// Read one config block.
    ReadConfigZone,
    /// Read a slot's configuration bytes.
    ReadConfigSlot,
    /// Check the PIN and open a session.
    VerifyPin,
    /// Change the PIN.
    SetPin,
    /// Reset the PIN with the PUK.
    UnblockPin,
    /// Attempts left and session state.
    GetPinStatus,
    /// Change the PUK.
    SetPuk,
    /// Wipe keys once PIN and PUK are exhausted.
    EmergencyReset,
    /// Write one config block.
    WriteConfigZone,
    /// Write a secret slot in cleartext.
    ProvisionSlot,
    /// Provision the factory PIN.
    ProvisionInitialPin,
    /// Provision a random PUK.
    ProvisionInitialPuk,
    /// Provision a random I/O key.
    ProvisionIoKey,
    /// Lock the config zone.
    LockConfigZone,
    /// Lock the data zone.
    LockDataZone,
    /// Lock one slot.
    LockSlot,
}

/// The opcode a byte encodes, if any.
pub open spec fn spec_opcode_from_byte(byte: u8) -> Option<CommandOpcode> {
    match byte {
        0x01 => Some(CommandOpcode::Info),
        0x02 => Some(CommandOpcode::GetPubkey),
        0x03 => Some(CommandOpcode::Sign),
        0x04 => Some(CommandOpcode::GenKey),
        0x05 => Some(CommandOpcode::ReadConfigZone),
        0x06 => Some(CommandOpcode::ReadConfigSlot),
        0x07 => Some(CommandOpcode::VerifyPin),
        0x08 => Some(CommandOpcode::SetPin),
        0x09 => Some(CommandOpcode::UnblockPin),
        0x0A => Some(CommandOpcode::GetPinStatus),
        0x0B => Some(CommandOpcode::SetPuk),
        0x0D => Some(CommandOpcode::EmergencyReset),
        0x10 => Some(CommandOpcode::WriteConfigZone),
        0x11 => Some(CommandOpcode::ProvisionSlot),
        0x12 => Some(CommandOpcode::ProvisionInitialPin),
        0x13 => Some(CommandOpcode::ProvisionInitialPuk),
        0x14 => Some(CommandOpcode::ProvisionIoKey),
        0xF0 => Some(CommandOpcode::LockConfigZone),
        0xF1 => Some(CommandOpcode::LockDataZone),
        0xF2 => Some(CommandOpcode::LockSlot),
        _ => None,
    }
}

impl CommandOpcode {
    /// The opcode's byte.
    pub open spec fn spec_byte(self) -> u8 {
        match self {
            CommandOpcode::Info => 0x01,
            CommandOpcode::GetPubkey => 0x02,
            CommandOpcode::Sign => 0x03,
            CommandOpcode::GenKey => 0x04,
            CommandOpcode::ReadConfigZone => 0x05,
            CommandOpcode::ReadConfigSlot => 0x06,
            CommandOpcode::VerifyPin => 0x07,
            CommandOpcode::SetPin => 0x08,
            CommandOpcode::UnblockPin => 0x09,
            CommandOpcode::GetPinStatus => 0x0A,
            CommandOpcode::SetPuk => 0x0B,
            CommandOpcode::EmergencyReset => 0x0D,
            CommandOpcode::WriteConfigZone => 0x10,
            CommandOpcode::ProvisionSlot => 0x11,
            CommandOpcode::ProvisionInitialPin => 0x12,
            CommandOpcode::ProvisionInitialPuk => 0x13,
            CommandOpcode::ProvisionIoKey => 0x14,
            CommandOpcode::LockConfigZone => 0xF0,
            CommandOpcode::LockDataZone => 0xF1,
            CommandOpcode::LockSlot => 0xF2,
        }
    }

    /// The opcode a byte encodes; `None` for an unknown byte.
    pub fn from_byte(byte: u8) -> (r: Option<Self>)
        ensures
            r == spec_opcode_from_byte(byte),
    {
        match byte {
            0x01 => Some(CommandOpcode::Info),
            0x02 => Some(CommandOpcode::GetPubkey),
            0x03 => Some(CommandOpcode::Sign),
            0x04 => Some(CommandOpcode::GenKey),
            0x05 => Some(CommandOpcode::ReadConfigZone),
            0x06 => Some(CommandOpcode::ReadConfigSlot),
            0x07 => Some(CommandOpcode::VerifyPin),
            0x08 => Some(CommandOpcode::SetPin),
            0x09 => Some(CommandOpcode::UnblockPin),
            0x0A => Some(CommandOpcode::GetPinStatus),
            0x0B => Some(CommandOpcode::SetPuk),
            0x0D => Some(CommandOpcode::EmergencyReset),
            0x10 => Some(CommandOpcode::WriteConfigZone),
            0x11 => Some(CommandOpcode::ProvisionSlot),
            0x12 => Some(CommandOpcode::ProvisionInitialPin),
            0x13 => Some(CommandOpcode::ProvisionInitialPuk),
            0x14 => Some(CommandOpcode::ProvisionIoKey),
            0xF0 => Some(CommandOpcode::LockConfigZone),
            0xF1 => Some(CommandOpcode::LockDataZone),
            0xF2 => Some(CommandOpcode::LockSlot),
            _ => None,
        }
    }

    /// The opcode's byte.
    pub fn as_u8(self) -> (r: u8)
        ensures
            r == self.spec_byte(),
    {
        match self {
            CommandOpcode::Info => 0x01,
            CommandOpcode::GetPubkey => 0x02,
            CommandOpcode::Sign => 0x03,
            CommandOpcode::GenKey => 0x04,
            CommandOpcode::ReadConfigZone => 0x05,
            CommandOpcode::ReadConfigSlot => 0x06,
            CommandOpcode::VerifyPin => 0x07,
            CommandOpcode::SetPin => 0x08,
            CommandOpcode::UnblockPin => 0x09,
            CommandOpcode::GetPinStatus => 0x0A,
            CommandOpcode::SetPuk => 0x0B,
            CommandOpcode::EmergencyReset => 0x0D,
            CommandOpcode::WriteConfigZone => 0x10,
            CommandOpcode::ProvisionSlot => 0x11,
            CommandOpcode::ProvisionInitialPin => 0x12,
            CommandOpcode::ProvisionInitialPuk => 0x13,
            CommandOpcode::ProvisionIoKey => 0x14,
            CommandOpcode::LockConfigZone => 0xF0,
            CommandOpcode::LockDataZone => 0xF1,
            CommandOpcode::LockSlot => 0xF2,
        }
    }
}

/// Every opcode survives a trip through its byte.
pub proof fn lemma_opcode_round_trip(op: CommandOpcode)
    ensures
        spec_opcode_from_byte(op.spec_byte()) == Some(op),
{
}

/// A byte that decodes to an opcode is that opcode's byte.
pub proof fn lemma_opcode_byte_round_trip(byte: u8)
    ensures
        spec_opcode_from_byte(byte) matches Some(op) ==> op.spec_byte() == byte,
{
}

/// A byte that is no opcode.
#[derive(Debug, Clone, Copy, PartialEq, Eq, Structural)]
pub struct UnknownOpcode {
    /// The byte.
    pub byte: u8,
}

impl TryFrom<u8> for CommandOpcode {
    type Error = UnknownOpcode;

    fn try_from(byte: u8) -> (r: Result<Self, UnknownOpcode>) {
        match Self::from_byte(byte) {
            Some(op) => Ok(op),
            None => Err(UnknownOpcode { byte }),
        }
    }
}

impl vstd::std_specs::convert::TryFromSpecImpl<u8> for CommandOpcode {
    open spec fn obeys_try_from_spec() -> bool {
        true
    }

    open spec fn try_from_spec(byte: u8) -> Result<Self, UnknownOpcode> {
        match spec_opcode_from_byte(byte) {
            Some(op) => Ok(op),
            None => Err(UnknownOpcode { byte }),
        }
    }
}

/// Length of a PIN.
pub const PIN_LEN: usize = 4;

/// Length of a PUK.
pub const PUK_LEN: usize = 8;

/// Length of a digest to sign.
pub const DIGEST_LEN: usize = 32;

/// Length of the magic word that guards destructive requests.
pub const LOCK_MAGIC_LEN: usize = 4;

/// Length of the I/O protection key.
pub const IO_KEY_LEN: usize = 32;

/// Old PIN, new PIN and I/O key of a SetPin request.
pub type SetPinParts = ([u8; PIN_LEN], [u8; PIN_LEN], [u8; IO_KEY_LEN]);

/// PUK, new PIN and I/O key of an UnblockPin request.
pub type UnblockPinParts = ([u8; PUK_LEN], [u8; PIN_LEN], [u8; IO_KEY_LEN]);

/// Old PUK, new PUK and I/O key of a SetPuk request.
pub type SetPukParts = ([u8; PUK_LEN], [u8; PUK_LEN], [u8; IO_KEY_LEN]);

/// Why a request payload was refused.
#[derive(Debug, Clone, Copy, PartialEq, Eq, Structural)]
pub enum PayloadError {
    /// The payload is `actual` bytes long instead of `expected`.
    WrongLen { expected: usize, actual: usize },
    /// The magic word of a destructive request is wrong.
    MagicMismatch,
}

/// Magic word of an EmergencyReset request.
pub const EMERGENCY_RESET_MAGIC: [u8; 4] = [0xBA, 0xDC, 0x0F, 0xFE];

/// Magic word of a LockConfigZone request.
pub const LOCK_CONFIG_MAGIC: [u8; 4] = [0xDE, 0xAD, 0xBE, 0xEF];

/// Magic word of a LockDataZone request.
pub const LOCK_DATA_MAGIC: [u8; 4] = [0xCA, 0xFE, 0xBA, 0xBE];

/// Magic word of a LockSlot request.
pub const LOCK_SLOT_MAGIC: [u8; 4] = [0xF0, 0x0D, 0xCA, 0xFE];

/// The length error for a payload of `actual` bytes where `expected` were
/// due.
pub open spec fn spec_wrong_len(expected: usize, actual: nat) -> PayloadError {
    PayloadError::WrongLen { expected, actual: actual as usize }
}

/// `payload` starts with the four bytes `m0 m1 m2 m3`.
pub open spec fn spec_has_magic(payload: Seq<u8>, m0: u8, m1: u8, m2: u8, m3: u8) -> bool {
    payload[0] == m0 && payload[1] == m1 && payload[2] == m2 && payload[3] == m3
}

/// Accept a payload of exactly `expected` bytes.
pub fn require_len(payload: &[u8], expected: usize) -> (r: Result<(), PayloadError>)
    ensures
        payload@.len() == expected ==> r is Ok,
        payload@.len() != expected ==> r == Err::<(), PayloadError>(spec_wrong_len(expected, payload@.len())),
{
    if payload.len() == expected {
        Ok(())
    } else {
        Err(PayloadError::WrongLen { expected, actual: payload.len() })
    }
}

/// Copy `src[start..start + dst.len()]` into `dst`.
fn copy_from(dst: &mut [u8], src: &[u8], start: usize)
    requires
        start + old(dst)@.len() <= src@.len(),
    ensures
        final(dst)@ == src@.subrange(start as int, start + old(dst)@.len()),
{
    let n = dst.len();
    let m = src.len();
    let mut i: usize = 0;
    while i < n
        invariant
            n == dst@.len(),
            m == src@.len(),
            start + n <= src@.len(),
            i <= n,
            forall|j: int| 0 <= j < i ==> dst@[j] == src@[start + j],
        decreases n - i,
    {
        dst[i] = src[start + i];
        i = i + 1;
    }
    assert(dst@ =~= src@.subrange(start as int, start + n));
}

/// Payload of a one-slot request: the slot byte.
pub fn parse_slot_only(payload: &[u8]) -> (r: Result<u8, PayloadError>)
    ensures
        payload@.len() == 1 ==> r == Ok::<u8, PayloadError>(payload@[0]),
        payload@.len() != 1 ==> r == Err::<u8, PayloadError>(spec_wrong_len(1, payload@.len())),
{
    require_len(payload, 1)?;
    Ok(payload[0])
}

/// Payload of Sign: slot, then the 32-byte digest.
pub fn parse_sign(payload: &[u8]) -> (r: Result<(u8, [u8; DIGEST_LEN]), PayloadError>)
    ensures
        payload@.len() == 33 ==> (r matches Ok((slot, digest)) && slot == payload@[0] && digest@ == payload@.subrange(1, 33)),
        payload@.len() != 33 ==> r == Err::<(u8, [u8; DIGEST_LEN]), PayloadError>(spec_wrong_len(33, payload@.len())),
{
    require_len(payload, 1 + DIGEST_LEN)?;
    let mut digest = [0u8; DIGEST_LEN];
    copy_from(&mut digest, payload, 1);
    Ok((payload[0], digest))
}

/// Payload of VerifyPin: the four PIN bytes.
pub fn parse_verify_pin(payload: &[u8]) -> (r: Result<[u8; PIN_LEN], PayloadError>)
    ensures
        payload@.len() == 4 ==> (r matches Ok(pin) && pin@ == payload@),
        payload@.len() != 4 ==> r == Err::<[u8; PIN_LEN], PayloadError>(spec_wrong_len(4, payload@.len())),
{
    require_len(payload, PIN_LEN)?;
    let mut pin = [0u8; PIN_LEN];
    copy_from(&mut pin, payload, 0);
    assert(payload@.subrange(0, 4) =~= payload@);
    Ok(pin)
}

/// Payload of SetPin: old PIN, new PIN, I/O key.
pub fn parse_set_pin(payload: &[u8]) -> (r: Result<SetPinParts, PayloadError>)
    ensures
        payload@.len() == 40 ==> (r matches Ok((old_pin, new_pin, io_key)) && old_pin@ == payload@.subrange(0, 4)
            && new_pin@ == payload@.subrange(4, 8) && io_key@ == payload@.subrange(8, 40)),
        payload@.len() != 40 ==> r == Err::<SetPinParts, PayloadError>(spec_wrong_len(40, payload@.len())),
{
    require_len(payload, PIN_LEN * 2 + 32)?;
    let mut old_pin = [0u8; PIN_LEN];
    let mut new_pin = [0u8; PIN_LEN];
    let mut io_key = [0u8; 32];
    copy_from(&mut old_pin, payload, 0);
    copy_from(&mut new_pin, payload, PIN_LEN);
    copy_from(&mut io_key, payload, PIN_LEN * 2);
    Ok((old_pin, new_pin, io_key))
}

/// Payload of UnblockPin: PUK, new PIN, I/O key.
pub fn parse_unblock_pin(payload: &[u8]) -> (r: Result<UnblockPinParts, PayloadError>)
    ensures
        payload@.len() == 44 ==> (r matches Ok((puk, new_pin, io_key)) && puk@ == payload@.subrange(0, 8)
            && new_pin@ == payload@.subrange(8, 12) && io_key@ == payload@.subrange(12, 44)),
        payload@.len() != 44 ==> r == Err::<UnblockPinParts, PayloadError>(spec_wrong_len(44, payload@.len())),
{
    require_len(payload, PUK_LEN + PIN_LEN + 32)?;
    let mut puk = [0u8; PUK_LEN];
    let mut new_pin = [0u8; PIN_LEN];
    let mut io_key = [0u8; 32];
    copy_from(&mut puk, payload, 0);
    copy_from(&mut new_pin, payload, PUK_LEN);
    copy_from(&mut io_key, payload, PUK_LEN + PIN_LEN);
    Ok((puk, new_pin, io_key))
}

/// Payload of SetPuk: old PUK, new PUK, I/O key.
pub fn parse_set_puk(payload: &[u8]) -> (r: Result<SetPukParts, PayloadError>)
    ensures
        payload@.len() == 48 ==> (r matches Ok((old_puk, new_puk, io_key)) && old_puk@ == payload@.subrange(0, 8)
            && new_puk@ == payload@.subrange(8, 16) && io_key@ == payload@.subrange(16, 48)),
        payload@.len() != 48 ==> r == Err::<SetPukParts, PayloadError>(spec_wrong_len(48, payload@.len())),
{
    require_len(payload, PUK_LEN * 2 + 32)?;
    let mut old_puk = [0u8; PUK_LEN];
    let mut new_puk = [0u8; PUK_LEN];
    let mut io_key = [0u8; 32];
    copy_from(&mut old_puk, payload, 0);
    copy_from(&mut new_puk, payload, PUK_LEN);
    copy_from(&mut io_key, payload, PUK_LEN * 2);
    Ok((old_puk, new_puk, io_key))
}

/// Payload of EmergencyReset: its magic word, then the I/O key.
pub fn parse_emergency_reset(payload: &[u8]) -> (r: Result<[u8; 32], PayloadError>)
    ensures
        payload@.len() != 36 ==> r == Err::<[u8; 32], PayloadError>(spec_wrong_len(36, payload@.len())),
        payload@.len() == 36 && !spec_has_magic(payload@, 0xBA, 0xDC, 0x0F, 0xFE) ==> r == Err::<[u8; 32], PayloadError>(
            PayloadError::MagicMismatch),
        payload@.len() == 36 && spec_has_magic(payload@, 0xBA, 0xDC, 0x0F, 0xFE) ==> (r matches Ok(io_key)
            && io_key@ == payload@.subrange(4, 36)),
{
    require_len(payload, 4 + 32)?;
    if !(payload[0] == EMERGENCY_RESET_MAGIC[0] && payload[1] == EMERGENCY_RESET_MAGIC[1]
        && payload[2] == EMERGENCY_RESET_MAGIC[2] && payload[3] == EMERGENCY_RESET_MAGIC[3]) {
        return Err(PayloadError::MagicMismatch);
    }
    let mut io_key = [0u8; 32];
    copy_from(&mut io_key, payload, 4);
    Ok(io_key)
}

/// Payload of LockConfigZone: its magic word, then the expected CRC,
/// little-endian.
pub fn parse_lock_config_zone(payload: &[u8]) -> (r: Result<u16, PayloadError>)
    ensures
        payload@.len() != 6 ==> r == Err::<u16, PayloadError>(spec_wrong_len(6, payload@.len())),
        payload@.len() == 6 && !spec_has_magic(payload@, 0xDE, 0xAD, 0xBE, 0xEF) ==> r == Err::<u16, PayloadError>(
            PayloadError::MagicMismatch),
        payload@.len() == 6 && spec_has_magic(payload@, 0xDE, 0xAD, 0xBE, 0xEF) ==> r == Ok::<u16, PayloadError>(
            (payload@[4] + payload@[5] * 256) as u16),
{
    require_len(payload, 4 + 2)?;
    if !(payload[0] == LOCK_CONFIG_MAGIC[0] && payload[1] == LOCK_CONFIG_MAGIC[1]
        && payload[2] == LOCK_CONFIG_MAGIC[2] && payload[3] == LOCK_CONFIG_MAGIC[3]) {
        return Err(PayloadError::MagicMismatch);
    }
    Ok((payload[4] as u16) + (payload[5] as u16) * 256)
}

/// Payload of LockDataZone: its magic word, then a CRC, little-endian.
pub fn parse_lock_data_zone(payload: &[u8]) -> (r: Result<u16, PayloadError>)
    ensures
        payload@.len() != 6 ==> r == Err::<u16, PayloadError>(spec_wrong_len(6, payload@.len())),
        payload@.len() == 6 && !spec_has_magic(payload@, 0xCA, 0xFE, 0xBA, 0xBE) ==> r == Err::<u16, PayloadError>(
            PayloadError::MagicMismatch),
        payload@.len() == 6 && spec_has_magic(payload@, 0xCA, 0xFE, 0xBA, 0xBE) ==> r == Ok::<u16, PayloadError>(
            (payload@[4] + payload@[5] * 256) as u16),
{
    require_len(payload, 4 + 2)?;
    if !(payload[0] == LOCK_DATA_MAGIC[0] && payload[1] == LOCK_DATA_MAGIC[1]
        && payload[2] == LOCK_DATA_MAGIC[2] && payload[3] == LOCK_DATA_MAGIC[3]) {
        return Err(PayloadError::MagicMismatch);
    }
    Ok((payload[4] as u16) + (payload[5] as u16) * 256)
}

/// Payload of LockSlot: its magic word, then the slot.
pub fn parse_lock_slot(payload: &[u8]) -> (r: Result<u8, PayloadError>)
    ensures
        payload@.len() != 5 ==> r == Err::<u8, PayloadError>(spec_wrong_len(5, payload@.len())),
        payload@.len() == 5 && !spec_has_magic(payload@, 0xF0, 0x0D, 0xCA, 0xFE) ==> r == Err::<u8, PayloadError>(
            PayloadError::MagicMismatch),
        payload@.len() == 5 && spec_has_magic(payload@, 0xF0, 0x0D, 0xCA, 0xFE) ==> r == Ok::<u8, PayloadError>(payload@[4]),
{
    require_len(payload, 4 + 1)?;
    if !(payload[0] == LOCK_SLOT_MAGIC[0] && payload[1] == LOCK_SLOT_MAGIC[1]
        && payload[2] == LOCK_SLOT_MAGIC[2] && payload[3] == LOCK_SLOT_MAGIC[3]) {
        return Err(PayloadError::MagicMismatch);
    }
    Ok(payload[4])
}

/// Payload of WriteConfigZone: block index, then the 32 bytes.
pub fn parse_write_config_zone(payload: &[u8]) -> (r: Result<(u8, [u8; 32]), PayloadError>)
    ensures
        payload@.len() == 33 ==> (r matches Ok((block, data)) && block == payload@[0] && data@ == payload@.subrange(1, 33)),
        payload@.len() != 33 ==> r == Err::<(u8, [u8; 32]), PayloadError>(spec_wrong_len(33, payload@.len())),
{
    require_len(payload, 1 + 32)?;
    let mut block = [0u8; 32];
    copy_from(&mut block, payload, 1);
    Ok((payload[0], block))
}

/// Payload of ProvisionSlot: slot, then the 32-byte value.
pub fn parse_provision_slot(payload: &[u8]) -> (r: Result<(u8, [u8; 32]), PayloadError>)
    ensures
        payload@.len() == 33 ==> (r matches Ok((slot, value)) && slot == payload@[0] && value@ == payload@.subrange(1, 33)),
        payload@.len() != 33 ==> r == Err::<(u8, [u8; 32]), PayloadError>(spec_wrong_len(33, payload@.len())),
{
    require_len(payload, 1 + 32)?;
    let mut value = [0u8; 32];
    copy_from(&mut value, payload, 1);
    Ok((payload[0], value))
}

} // verus!
