//! The USB request dispatcher: decode a request report, run it on the
//! crypto service, and encode the response report. A signature request
//! stops halfway: the caller waits for the user's touch (or its timeout)
//! and then finishes it.
use vstd::prelude::*;
use crate::atecc::error::{AteccError, AteccErrorKind, ChipError, spec_chip_status_byte, spec_error_kind, spec_sub_code};
use crate::atecc::hal::AteccHal;
use crate::atecc::slot::Slot;
use crate::firmware::state_machine::{Event, TokenState};
use crate::firmware::timers::spec_replay;
use crate::protocol::MAX_PAYLOAD_SIZE;
use crate::protocol::frame::{Frame, spec_parse, spec_report};
use crate::protocol::commands::{CommandOpcode, parse_sign, spec_opcode_from_byte};
use crate::service::session::spec_active_at;
use crate::protocol::responses::ResponseStatus;
use crate::service::error::CryptoServiceError;
use crate::service::service::{CryptoService, DeviceInfo, PinStatus};
use crate::service::session::Clock;
use crate::protocol::commands::{
    PayloadError, parse_emergency_reset, parse_lock_config_zone, parse_lock_data_zone, parse_lock_slot,
    parse_provision_slot, parse_set_pin, parse_set_puk, parse_slot_only, parse_unblock_pin, parse_verify_pin,
    parse_write_config_zone, spec_has_magic,
};

verus! {

/// Size of every report the dispatcher reads and writes.
pub const REPORT_SIZE: usize = 128;

/// The report that answers with `status` and `payload`; a payload too long
/// for a report turns into an invalid-payload answer.
pub open spec fn spec_response(status: ResponseStatus, payload: Seq<u8>) -> Seq<u8> {
    if payload.len() <= MAX_PAYLOAD_SIZE {
        spec_report(status.spec_byte(), payload)
    } else {
        spec_report(ResponseStatus::InvalidPayload.spec_byte(), Seq::empty())
    }
}

/// The response buffer `new_tx` holds the answer `reply`, if the buffer
/// `old_tx` was one report long; a buffer of another size is untouched.
pub open spec fn spec_replied(old_tx: Seq<u8>, new_tx: Seq<u8>, reply: (ResponseStatus, Seq<u8>)) -> bool {
    new_tx == (if old_tx.len() == REPORT_SIZE { spec_response(reply.0, reply.1) } else { old_tx })
}

/// The answer to a service error: a driver error becomes the chip's status
/// byte or the error's sub-code; PIN and PUK failures carry the attempts
/// left; a refused slot carries the slot.
pub open spec fn spec_error_reply<E>(err: CryptoServiceError<E>) -> (ResponseStatus, Seq<u8>) {
    match err {
        CryptoServiceError::Atecc(e) => match spec_error_kind(e) {
            AteccErrorKind::Chip(c) => (ResponseStatus::AteccChipError, seq![spec_chip_status_byte(c)]),
            k => (ResponseStatus::AteccCommunicationError, seq![spec_sub_code(k)]),
        },
        CryptoServiceError::InvalidFormat(_) => (ResponseStatus::InvalidPayload, Seq::empty()),
        CryptoServiceError::PinIncorrect { tries_remaining } => (ResponseStatus::WrongPin, seq![tries_remaining]),
        CryptoServiceError::PinBlocked => (ResponseStatus::PinBlocked, Seq::empty()),
        CryptoServiceError::PukIncorrect { tries_remaining } => (ResponseStatus::WrongPuk, seq![tries_remaining]),
        CryptoServiceError::Bricked => (ResponseStatus::Bricked, Seq::empty()),
        CryptoServiceError::PinRequired => (ResponseStatus::PinRequired, Seq::empty()),
        CryptoServiceError::NotProvisioned => (ResponseStatus::NotProvisioned, Seq::empty()),
        CryptoServiceError::EmergencyResetNotPermitted { pin_tries_remaining, puk_tries_remaining } => (
            ResponseStatus::EmergencyResetNotPermitted,
            seq![pin_tries_remaining, puk_tries_remaining],
        ),
        CryptoServiceError::InvalidSlot { slot } => (ResponseStatus::InvalidSlot, seq![slot.index()]),
    }
}

/// The answer to a result carrying bytes.
pub open spec fn spec_bytes_reply<T: View<V = Seq<u8>>, E>(r: Result<T, CryptoServiceError<E>>) -> (ResponseStatus, Seq<u8>) {
    match r {
        Ok(v) => (ResponseStatus::Success, v@),
        Err(e) => spec_error_reply(e),
    }
}

/// The answer to a result carrying nothing.
pub open spec fn spec_unit_reply<E>(r: Result<(), CryptoServiceError<E>>) -> (ResponseStatus, Seq<u8>) {
    match r {
        Ok(()) => (ResponseStatus::Success, Seq::empty()),
        Err(e) => spec_error_reply(e),
    }
}

/// The answer to a lock: the chip's execution error means the CRC did not
/// match.
pub open spec fn spec_lock_reply<E>(r: Result<(), CryptoServiceError<E>>) -> (ResponseStatus, Seq<u8>) {
    match r {
        Err(CryptoServiceError::Atecc(AteccError::Chip(ChipError::ExecutionError))) => (ResponseStatus::LockCrcMismatch, Seq::empty()),
        _ => spec_unit_reply(r),
    }
}

/// The answer to Info: revision, serial number, provisioned flag.
pub open spec fn spec_info_reply<E>(r: Result<DeviceInfo, CryptoServiceError<E>>) -> (ResponseStatus, Seq<u8>) {
    match r {
        Ok(di) => (ResponseStatus::Success, di.revision@ + di.serial@ + seq![if di.is_provisioned { 1u8 } else { 0u8 }]),
        Err(e) => spec_error_reply(e),
    }
}

/// The answer to GetPinStatus: PIN attempts, PUK attempts, session flag.
pub open spec fn spec_pin_status_reply<E>(r: Result<PinStatus, CryptoServiceError<E>>) -> (ResponseStatus, Seq<u8>) {
    match r {
        Ok(st) => (ResponseStatus::Success, seq![
            st.pin_tries_remaining,
            st.puk_tries_remaining,
            if st.session_active { 1u8 } else { 0u8 },
        ]),
        Err(e) => spec_error_reply(e),
    }
}

/// Write the response report for `status` and `payload` into `tx_buf`;
/// returns the report size.
pub fn write_status(tx_buf: &mut [u8], status: ResponseStatus, payload: &[u8]) -> (r: usize)
    ensures
        r == REPORT_SIZE,
        spec_replied(old(tx_buf)@, final(tx_buf)@, (status, payload@)),
{
    let empty: [u8; 0] = [];
    assert(empty@ =~= Seq::<u8>::empty());
    match Frame::write(status.as_u8(), payload, tx_buf) {
        Ok(()) => {},
        Err(_) => {
            let _ = Frame::write(ResponseStatus::InvalidPayload.as_u8(), &empty, tx_buf);
        },
    }
    REPORT_SIZE
}

/// Write a response with `status` and no payload.
pub fn write_bare_status(tx_buf: &mut [u8], status: ResponseStatus) -> (r: usize)
    ensures
        r == REPORT_SIZE,
        spec_replied(old(tx_buf)@, final(tx_buf)@, (status, Seq::<u8>::empty())),
{
    let empty: [u8; 0] = [];
    assert(empty@ =~= Seq::<u8>::empty());
    write_status(tx_buf, status, &empty)
}

/// Write the response for a service error.
pub fn write_error<E>(tx_buf: &mut [u8], err: &CryptoServiceError<E>) -> (r: usize)
    ensures
        r == REPORT_SIZE,
        spec_replied(old(tx_buf)@, final(tx_buf)@, spec_error_reply(*err)),
{
    match err {
        CryptoServiceError::Atecc(atecc_err) => match atecc_err.kind() {
            AteccErrorKind::Chip(chip_err) => {
                let b = [chip_err.as_status_byte()];
                assert(b@ =~= seq![spec_chip_status_byte(chip_err)]);
                write_status(tx_buf, ResponseStatus::AteccChipError, &b)
            },
            other => {
                let b = [other.as_sub_code()];
                assert(b@ =~= seq![spec_sub_code(other)]);
                write_status(tx_buf, ResponseStatus::AteccCommunicationError, &b)
            },
        },
        CryptoServiceError::InvalidFormat(_) => write_bare_status(tx_buf, ResponseStatus::InvalidPayload),
        CryptoServiceError::PinIncorrect { tries_remaining } => {
            let b = [*tries_remaining];
            assert(b@ =~= seq![*tries_remaining]);
            write_status(tx_buf, ResponseStatus::WrongPin, &b)
        },
        CryptoServiceError::PinBlocked => write_bare_status(tx_buf, ResponseStatus::PinBlocked),
        CryptoServiceError::PukIncorrect { tries_remaining } => {
            let b = [*tries_remaining];
            assert(b@ =~= seq![*tries_remaining]);
            write_status(tx_buf, ResponseStatus::WrongPuk, &b)
        },
        CryptoServiceError::Bricked => write_bare_status(tx_buf, ResponseStatus::Bricked),
        CryptoServiceError::PinRequired => write_bare_status(tx_buf, ResponseStatus::PinRequired),
        CryptoServiceError::NotProvisioned => write_bare_status(tx_buf, ResponseStatus::NotProvisioned),
        CryptoServiceError::EmergencyResetNotPermitted { pin_tries_remaining, puk_tries_remaining } => {
            let b = [*pin_tries_remaining, *puk_tries_remaining];
            assert(b@ =~= seq![*pin_tries_remaining, *puk_tries_remaining]);
            write_status(tx_buf, ResponseStatus::EmergencyResetNotPermitted, &b)
        },
        CryptoServiceError::InvalidSlot { slot } => {
            let b = [slot.as_u8()];
            assert(b@ =~= seq![slot.index()]);
            write_status(tx_buf, ResponseStatus::InvalidSlot, &b)
        },
    }
}

/// Write the response for a failed lock: a CRC mismatch has its own
/// status, everything else is answered as any service error.
pub fn write_lock_error<E>(tx_buf: &mut [u8], err: &CryptoServiceError<E>) -> (r: usize)
    ensures
        r == REPORT_SIZE,
        spec_replied(old(tx_buf)@, final(tx_buf)@, spec_lock_reply(Err::<(), CryptoServiceError<E>>(*err))),
{
    match err {
        CryptoServiceError::Atecc(AteccError::Chip(ChipError::ExecutionError)) => {
            write_bare_status(tx_buf, ResponseStatus::LockCrcMismatch)
        },
        _ => write_error(tx_buf, err),
    }
}


/// Info: the chip's revision, serial number and provisioning state. The payload is ignored.
pub open spec fn spec_handle_info<H: AteccHal, C: Clock>(
    before: CryptoService<H, C>,
    after: CryptoService<H, C>,
    payload: Seq<u8>,
    old_tx: Seq<u8>,
    new_tx: Seq<u8>,
) -> bool {
    exists|r| #[trigger] CryptoService::<H, C>::post_info(before, after, r) && spec_replied(old_tx, new_tx, spec_info_reply(r))
}

/// Info: the chip's revision, serial number and provisioning state.
pub fn handle_info<H: AteccHal, C: Clock>(service: &mut CryptoService<H, C>, payload: &[u8], tx_buf: &mut [u8]) -> (r: usize)
    ensures
        r == REPORT_SIZE,
        spec_handle_info(*old(service), *final(service), payload@, old(tx_buf)@, final(tx_buf)@),
{
    let res = service.info();
    match res {
        Ok(info) => {
            let mut p = [0u8; 14];
            let mut i: usize = 0;
            while i < 4
                invariant i <= 4, forall|j: int| 0 <= j < i ==> p@[j] == info.revision@[j],
                decreases 4 - i,
            {
                p[i] = info.revision[i];
                i = i + 1;
            }
            let mut k: usize = 0;
            while k < 9
                invariant k <= 9, forall|j: int| 0 <= j < 4 ==> p@[j] == info.revision@[j],
                    forall|j: int| 0 <= j < k ==> p@[4 + j] == info.serial@[j],
                decreases 9 - k,
            {
                p[4 + k] = info.serial[k];
                k = k + 1;
            }
            p[13] = if info.is_provisioned { 1 } else { 0 };
            assert(p@ =~= info.revision@ + info.serial@ + seq![if info.is_provisioned { 1u8 } else { 0u8 }]);
            write_status(tx_buf, ResponseStatus::Success, &p)
        },
        Err(err) => write_error(tx_buf, &err),
    }
}

/// GetPinStatus: attempts left and session state. The payload is ignored.
pub open spec fn spec_handle_get_pin_status<H: AteccHal, C: Clock>(
    before: CryptoService<H, C>,
    after: CryptoService<H, C>,
    payload: Seq<u8>,
    old_tx: Seq<u8>,
    new_tx: Seq<u8>,
) -> bool {
    exists|r| #[trigger] CryptoService::<H, C>::post_get_pin_status(before, after, r) && spec_replied(old_tx, new_tx, spec_pin_status_reply(r))
}

/// GetPinStatus: attempts left and session state.
pub fn handle_get_pin_status<H: AteccHal, C: Clock>(service: &mut CryptoService<H, C>, payload: &[u8], tx_buf: &mut [u8]) -> (r: usize)
    ensures
        r == REPORT_SIZE,
        spec_handle_get_pin_status(*old(service), *final(service), payload@, old(tx_buf)@, final(tx_buf)@),
{
    let res = service.get_pin_status();
    match res {
        Ok(st) => {
            let p = [st.pin_tries_remaining, st.puk_tries_remaining, if st.session_active { 1u8 } else { 0u8 }];
            assert(p@ =~= seq![st.pin_tries_remaining, st.puk_tries_remaining, if st.session_active { 1u8 } else { 0u8 }]);
            write_status(tx_buf, ResponseStatus::Success, &p)
        },
        Err(err) => write_error(tx_buf, &err),
    }
}

/// ProvisionInitialPin: write the factory PIN's hash. The payload is ignored.
pub open spec fn spec_handle_provision_initial_pin<H: AteccHal, C: Clock>(
    before: CryptoService<H, C>,
    after: CryptoService<H, C>,
    payload: Seq<u8>,
    old_tx: Seq<u8>,
    new_tx: Seq<u8>,
) -> bool {
    exists|r| #[trigger] CryptoService::<H, C>::post_provision_initial_pin(before, after, r) && spec_replied(old_tx, new_tx, spec_unit_reply(r))
}

/// ProvisionInitialPin: write the factory PIN's hash.
pub fn handle_provision_initial_pin<H: AteccHal, C: Clock>(service: &mut CryptoService<H, C>, payload: &[u8], tx_buf: &mut [u8]) -> (r: usize)
    ensures
        r == REPORT_SIZE,
        spec_handle_provision_initial_pin(*old(service), *final(service), payload@, old(tx_buf)@, final(tx_buf)@),
{
    let res = service.provision_initial_pin();
    match res {
        Ok(()) => write_bare_status(tx_buf, ResponseStatus::Success),
        Err(err) => write_error(tx_buf, &err),
    }
}

/// ProvisionInitialPuk: write a random PUK's hash; answer the PUK. The payload is ignored.
pub open spec fn spec_handle_provision_initial_puk<H: AteccHal, C: Clock>(
    before: CryptoService<H, C>,
    after: CryptoService<H, C>,
    payload: Seq<u8>,
    old_tx: Seq<u8>,
    new_tx: Seq<u8>,
) -> bool {
    exists|r| #[trigger] CryptoService::<H, C>::post_provision_initial_puk(before, after, r) && spec_replied(old_tx, new_tx, spec_bytes_reply(r))
}

/// ProvisionInitialPuk: write a random PUK's hash; answer the PUK.
pub fn handle_provision_initial_puk<H: AteccHal, C: Clock>(service: &mut CryptoService<H, C>, payload: &[u8], tx_buf: &mut [u8]) -> (r: usize)
    ensures
        r == REPORT_SIZE,
        spec_handle_provision_initial_puk(*old(service), *final(service), payload@, old(tx_buf)@, final(tx_buf)@),
{
    let res = service.provision_initial_puk();
    match res {
        Ok(v) => write_status(tx_buf, ResponseStatus::Success, &v),
        Err(err) => write_error(tx_buf, &err),
    }
}

/// ProvisionIoKey: write a random I/O key; answer the key. The payload is ignored.
pub open spec fn spec_handle_provision_io_key<H: AteccHal, C: Clock>(
    before: CryptoService<H, C>,
    after: CryptoService<H, C>,
    payload: Seq<u8>,
    old_tx: Seq<u8>,
    new_tx: Seq<u8>,
) -> bool {
    exists|r| #[trigger] CryptoService::<H, C>::post_provision_initial_io_key(before, after, r) && spec_replied(old_tx, new_tx, spec_bytes_reply(r))
}

/// ProvisionIoKey: write a random I/O key; answer the key.
pub fn handle_provision_io_key<H: AteccHal, C: Clock>(service: &mut CryptoService<H, C>, payload: &[u8], tx_buf: &mut [u8]) -> (r: usize)
    ensures
        r == REPORT_SIZE,
        spec_handle_provision_io_key(*old(service), *final(service), payload@, old(tx_buf)@, final(tx_buf)@),
{
    let res = service.provision_initial_io_key();
    match res {
        Ok(v) => write_status(tx_buf, ResponseStatus::Success, &v),
        Err(err) => write_error(tx_buf, &err),
    }
}

/// GetPubkey: the public key of the slot in the one-byte payload.
pub open spec fn spec_handle_get_pubkey<H: AteccHal, C: Clock>(
    before: CryptoService<H, C>,
    after: CryptoService<H, C>,
    payload: Seq<u8>,
    old_tx: Seq<u8>,
    new_tx: Seq<u8>,
) -> bool {
    if payload.len() != 1 {
        after == before && spec_replied(old_tx, new_tx, (ResponseStatus::InvalidPayload, Seq::<u8>::empty()))
    } else if payload[0] >= 16 {
        after == before && spec_replied(old_tx, new_tx, (ResponseStatus::InvalidSlot, Seq::<u8>::empty()))
    } else {
        exists|slot: Slot, r| slot.index() == payload[0] && #[trigger] CryptoService::<H, C>::post_get_pubkey(before, after, slot, r)
            && spec_replied(old_tx, new_tx, spec_bytes_reply(r))
    }
}

/// GetPubkey: the public key of the slot in the one-byte payload.
pub fn handle_get_pubkey<H: AteccHal, C: Clock>(service: &mut CryptoService<H, C>, payload: &[u8], tx_buf: &mut [u8]) -> (r: usize)
    ensures
        r == REPORT_SIZE,
        spec_handle_get_pubkey(*old(service), *final(service), payload@, old(tx_buf)@, final(tx_buf)@),
{
    let idx = match parse_slot_only(payload) {
        Ok(s) => s,
        Err(_) => return write_bare_status(tx_buf, ResponseStatus::InvalidPayload),
    };
    let slot = match Slot::new(idx) {
        Some(s) => s,
        None => return write_bare_status(tx_buf, ResponseStatus::InvalidSlot),
    };
    let res = service.get_pubkey(slot);
    match res {
        Ok(v) => write_status(tx_buf, ResponseStatus::Success, &v),
        Err(err) => write_error(tx_buf, &err),
    }
}

/// GenKey: a new key pair in the slot in the one-byte payload; answer its public key.
pub open spec fn spec_handle_genkey<H: AteccHal, C: Clock>(
    before: CryptoService<H, C>,
    after: CryptoService<H, C>,
    payload: Seq<u8>,
    old_tx: Seq<u8>,
    new_tx: Seq<u8>,
) -> bool {
    if payload.len() != 1 {
        after == before && spec_replied(old_tx, new_tx, (ResponseStatus::InvalidPayload, Seq::<u8>::empty()))
    } else if payload[0] >= 16 {
        after == before && spec_replied(old_tx, new_tx, (ResponseStatus::InvalidSlot, Seq::<u8>::empty()))
    } else {
        exists|slot: Slot, r| slot.index() == payload[0] && #[trigger] CryptoService::<H, C>::post_genkey_create(before, after, slot, r)
            && spec_replied(old_tx, new_tx, spec_bytes_reply(r))
    }
}

/// GenKey: a new key pair in the slot in the one-byte payload; answer its public key.
pub fn handle_genkey<H: AteccHal, C: Clock>(service: &mut CryptoService<H, C>, payload: &[u8], tx_buf: &mut [u8]) -> (r: usize)
    ensures
        r == REPORT_SIZE,
        spec_handle_genkey(*old(service), *final(service), payload@, old(tx_buf)@, final(tx_buf)@),
{
    let idx = match parse_slot_only(payload) {
        Ok(s) => s,
        Err(_) => return write_bare_status(tx_buf, ResponseStatus::InvalidPayload),
    };
    let slot = match Slot::new(idx) {
        Some(s) => s,
        None => return write_bare_status(tx_buf, ResponseStatus::InvalidSlot),
    };
    let res = service.genkey_create(slot);
    match res {
        Ok(v) => write_status(tx_buf, ResponseStatus::Success, &v),
        Err(err) => write_error(tx_buf, &err),
    }
}

/// ReadConfigSlot: the configuration bytes of the slot in the one-byte payload.
pub open spec fn spec_handle_read_config_slot<H: AteccHal, C: Clock>(
    before: CryptoService<H, C>,
    after: CryptoService<H, C>,
    payload: Seq<u8>,
    old_tx: Seq<u8>,
    new_tx: Seq<u8>,
) -> bool {
    if payload.len() != 1 {
        after == before && spec_replied(old_tx, new_tx, (ResponseStatus::InvalidPayload, Seq::<u8>::empty()))
    } else if payload[0] >= 16 {
        after == before && spec_replied(old_tx, new_tx, (ResponseStatus::InvalidSlot, Seq::<u8>::empty()))
    } else {
        exists|slot: Slot, r| slot.index() == payload[0] && #[trigger] CryptoService::<H, C>::post_read_config_slot(before, after, slot, r)
            && spec_replied(old_tx, new_tx, spec_bytes_reply(r))
    }
}

/// ReadConfigSlot: the configuration bytes of the slot in the one-byte payload.
pub fn handle_read_config_slot<H: AteccHal, C: Clock>(service: &mut CryptoService<H, C>, payload: &[u8], tx_buf: &mut [u8]) -> (r: usize)
    ensures
        r == REPORT_SIZE,
        spec_handle_read_config_slot(*old(service), *final(service), payload@, old(tx_buf)@, final(tx_buf)@),
{
    let idx = match parse_slot_only(payload) {
        Ok(s) => s,
        Err(_) => return write_bare_status(tx_buf, ResponseStatus::InvalidPayload),
    };
    let slot = match Slot::new(idx) {
        Some(s) => s,
        None => return write_bare_status(tx_buf, ResponseStatus::InvalidSlot),
    };
    let res = service.read_config_slot(slot);
    match res {
        Ok(v) => write_status(tx_buf, ResponseStatus::Success, &v),
        Err(err) => write_error(tx_buf, &err),
    }
}

/// ReadConfigZone: the config block named by the one-byte payload.
pub open spec fn spec_handle_read_config_zone<H: AteccHal, C: Clock>(
    before: CryptoService<H, C>,
    after: CryptoService<H, C>,
    payload: Seq<u8>,
    old_tx: Seq<u8>,
    new_tx: Seq<u8>,
) -> bool {
    if payload.len() != 1 {
        after == before && spec_replied(old_tx, new_tx, (ResponseStatus::InvalidPayload, Seq::<u8>::empty()))
    } else {
        exists|r| #[trigger] CryptoService::<H, C>::post_read_config_block(before, after, payload[0], r)
            && spec_replied(old_tx, new_tx, spec_bytes_reply(r))
    }
}

/// ReadConfigZone: the config block named by the one-byte payload.
pub fn handle_read_config_zone<H: AteccHal, C: Clock>(service: &mut CryptoService<H, C>, payload: &[u8], tx_buf: &mut [u8]) -> (r: usize)
    ensures
        r == REPORT_SIZE,
        spec_handle_read_config_zone(*old(service), *final(service), payload@, old(tx_buf)@, final(tx_buf)@),
{
    let block = match parse_slot_only(payload) {
        Ok(b) => b,
        Err(_) => return write_bare_status(tx_buf, ResponseStatus::InvalidPayload),
    };
    let res = service.read_config_block(block);
    match res {
        Ok(v) => write_status(tx_buf, ResponseStatus::Success, &v),
        Err(err) => write_error(tx_buf, &err),
    }
}

/// WriteConfigZone: block index, then the block's 32 bytes.
pub open spec fn spec_handle_write_config_zone<H: AteccHal, C: Clock>(
    before: CryptoService<H, C>,
    after: CryptoService<H, C>,
    payload: Seq<u8>,
    old_tx: Seq<u8>,
    new_tx: Seq<u8>,
) -> bool {
    if payload.len() != 33 {
        after == before && spec_replied(old_tx, new_tx, (ResponseStatus::InvalidPayload, Seq::<u8>::empty()))
    } else {
        exists|data: [u8; 32], r| data@ == payload.subrange(1, 33)
            && #[trigger] CryptoService::<H, C>::post_write_config_block(before, after, payload[0], &data, r)
            && spec_replied(old_tx, new_tx, spec_unit_reply(r))
    }
}

/// WriteConfigZone: block index, then the block's 32 bytes.
pub fn handle_write_config_zone<H: AteccHal, C: Clock>(service: &mut CryptoService<H, C>, payload: &[u8], tx_buf: &mut [u8]) -> (r: usize)
    ensures
        r == REPORT_SIZE,
        spec_handle_write_config_zone(*old(service), *final(service), payload@, old(tx_buf)@, final(tx_buf)@),
{
    let (block, data) = match parse_write_config_zone(payload) {
        Ok(v) => v,
        Err(_) => return write_bare_status(tx_buf, ResponseStatus::InvalidPayload),
    };
    let res = service.write_config_block(block, &data);
    match res {
        Ok(()) => write_bare_status(tx_buf, ResponseStatus::Success),
        Err(err) => write_error(tx_buf, &err),
    }
}

/// ProvisionSlot: slot, then the 32-byte value to write in cleartext.
pub open spec fn spec_handle_provision_slot<H: AteccHal, C: Clock>(
    before: CryptoService<H, C>,
    after: CryptoService<H, C>,
    payload: Seq<u8>,
    old_tx: Seq<u8>,
    new_tx: Seq<u8>,
) -> bool {
    if payload.len() != 33 {
        after == before && spec_replied(old_tx, new_tx, (ResponseStatus::InvalidPayload, Seq::<u8>::empty()))
    } else if payload[0] >= 16 {
        after == before && spec_replied(old_tx, new_tx, (ResponseStatus::InvalidSlot, Seq::<u8>::empty()))
    } else {
        exists|slot: Slot, value: [u8; 32], r| slot.index() == payload[0] && value@ == payload.subrange(1, 33)
            && #[trigger] CryptoService::<H, C>::post_provision_slot(before, after, slot, &value, r)
            && spec_replied(old_tx, new_tx, spec_unit_reply(r))
    }
}

/// ProvisionSlot: slot, then the 32-byte value to write in cleartext.
pub fn handle_provision_slot<H: AteccHal, C: Clock>(service: &mut CryptoService<H, C>, payload: &[u8], tx_buf: &mut [u8]) -> (r: usize)
    ensures
        r == REPORT_SIZE,
        spec_handle_provision_slot(*old(service), *final(service), payload@, old(tx_buf)@, final(tx_buf)@),
{
    let (idx, value) = match parse_provision_slot(payload) {
        Ok(v) => v,
        Err(_) => return write_bare_status(tx_buf, ResponseStatus::InvalidPayload),
    };
    let slot = match Slot::new(idx) {
        Some(s) => s,
        None => return write_bare_status(tx_buf, ResponseStatus::InvalidSlot),
    };
    let res = service.provision_slot(slot, &value);
    match res {
        Ok(()) => write_bare_status(tx_buf, ResponseStatus::Success),
        Err(err) => write_error(tx_buf, &err),
    }
}

/// SetPin: old PIN, new PIN, I/O key.
pub open spec fn spec_handle_set_pin<H: AteccHal, C: Clock>(
    before: CryptoService<H, C>,
    after: CryptoService<H, C>,
    payload: Seq<u8>,
    old_tx: Seq<u8>,
    new_tx: Seq<u8>,
) -> bool {
    if payload.len() != 40 {
        after == before && spec_replied(old_tx, new_tx, (ResponseStatus::InvalidPayload, Seq::<u8>::empty()))
    } else {
        exists|a: [u8; 4], b: [u8; 4], k: [u8; 32], r| a@ == payload.subrange(0, 4)
            && b@ == payload.subrange(4, 8) && k@ == payload.subrange(8, 40)
            && #[trigger] CryptoService::<H, C>::post_set_pin(before, after, &a, &b, &k, r)
            && spec_replied(old_tx, new_tx, spec_unit_reply(r))
    }
}

/// SetPin: old PIN, new PIN, I/O key.
pub fn handle_set_pin<H: AteccHal, C: Clock>(service: &mut CryptoService<H, C>, payload: &[u8], tx_buf: &mut [u8]) -> (r: usize)
    ensures
        r == REPORT_SIZE,
        spec_handle_set_pin(*old(service), *final(service), payload@, old(tx_buf)@, final(tx_buf)@),
{
    let (a, b, k) = match parse_set_pin(payload) {
        Ok(v) => v,
        Err(_) => return write_bare_status(tx_buf, ResponseStatus::InvalidPayload),
    };
    let res = service.set_pin(&a, &b, &k);
    match res {
        Ok(()) => write_bare_status(tx_buf, ResponseStatus::Success),
        Err(err) => write_error(tx_buf, &err),
    }
}

/// UnblockPin: PUK, new PIN, I/O key.
pub open spec fn spec_handle_unblock_pin<H: AteccHal, C: Clock>(
    before: CryptoService<H, C>,
    after: CryptoService<H, C>,
    payload: Seq<u8>,
    old_tx: Seq<u8>,
    new_tx: Seq<u8>,
) -> bool {
    if payload.len() != 44 {
        after == before && spec_replied(old_tx, new_tx, (ResponseStatus::InvalidPayload, Seq::<u8>::empty()))
    } else {
        exists|a: [u8; 8], b: [u8; 4], k: [u8; 32], r| a@ == payload.subrange(0, 8)
            && b@ == payload.subrange(8, 12) && k@ == payload.subrange(12, 44)
            && #[trigger] CryptoService::<H, C>::post_unblock_pin(before, after, &a, &b, &k, r)
            && spec_replied(old_tx, new_tx, spec_unit_reply(r))
    }
}

/// UnblockPin: PUK, new PIN, I/O key.
pub fn handle_unblock_pin<H: AteccHal, C: Clock>(service: &mut CryptoService<H, C>, payload: &[u8], tx_buf: &mut [u8]) -> (r: usize)
    ensures
        r == REPORT_SIZE,
        spec_handle_unblock_pin(*old(service), *final(service), payload@, old(tx_buf)@, final(tx_buf)@),
{
    let (a, b, k) = match parse_unblock_pin(payload) {
        Ok(v) => v,
        Err(_) => return write_bare_status(tx_buf, ResponseStatus::InvalidPayload),
    };
    let res = service.unblock_pin(&a, &b, &k);
    match res {
        Ok(()) => write_bare_status(tx_buf, ResponseStatus::Success),
        Err(err) => write_error(tx_buf, &err),
    }
}

/// SetPuk: old PUK, new PUK, I/O key.
pub open spec fn spec_handle_set_puk<H: AteccHal, C: Clock>(
    before: CryptoService<H, C>,
    after: CryptoService<H, C>,
    payload: Seq<u8>,
    old_tx: Seq<u8>,
    new_tx: Seq<u8>,
) -> bool {
    if payload.len() != 48 {
        after == before && spec_replied(old_tx, new_tx, (ResponseStatus::InvalidPayload, Seq::<u8>::empty()))
    } else {
        exists|a: [u8; 8], b: [u8; 8], k: [u8; 32], r| a@ == payload.subrange(0, 8)
            && b@ == payload.subrange(8, 16) && k@ == payload.subrange(16, 48)
            && #[trigger] CryptoService::<H, C>::post_set_puk(before, after, &a, &b, &k, r)
            && spec_replied(old_tx, new_tx, spec_unit_reply(r))
    }
}

/// SetPuk: old PUK, new PUK, I/O key.
pub fn handle_set_puk<H: AteccHal, C: Clock>(service: &mut CryptoService<H, C>, payload: &[u8], tx_buf: &mut [u8]) -> (r: usize)
    ensures
        r == REPORT_SIZE,
        spec_handle_set_puk(*old(service), *final(service), payload@, old(tx_buf)@, final(tx_buf)@),
{
    let (a, b, k) = match parse_set_puk(payload) {
        Ok(v) => v,
        Err(_) => return write_bare_status(tx_buf, ResponseStatus::InvalidPayload),
    };
    let res = service.set_puk(&a, &b, &k);
    match res {
        Ok(()) => write_bare_status(tx_buf, ResponseStatus::Success),
        Err(err) => write_error(tx_buf, &err),
    }
}

/// VerifyPin: the four PIN bytes.
pub open spec fn spec_handle_verify_pin<H: AteccHal, C: Clock>(
    before: CryptoService<H, C>,
    after: CryptoService<H, C>,
    payload: Seq<u8>,
    old_tx: Seq<u8>,
    new_tx: Seq<u8>,
) -> bool {
    if payload.len() != 4 {
        after == before && spec_replied(old_tx, new_tx, (ResponseStatus::InvalidPayload, Seq::<u8>::empty()))
    } else {
        exists|pin: [u8; 4], r| pin@ == payload
            && #[trigger] CryptoService::<H, C>::post_verify_pin(before, after, &pin, r)
            && spec_replied(old_tx, new_tx, spec_unit_reply(r))
    }
}

/// VerifyPin: the four PIN bytes. A PIN that checks out also yields the
/// event that moves the state machine into the session.
pub fn handle_verify_pin<H: AteccHal, C: Clock>(service: &mut CryptoService<H, C>, payload: &[u8], tx_buf: &mut [u8]) -> (r: (usize, Option<Event>))
    ensures
        r.0 == REPORT_SIZE,
        spec_handle_verify_pin(*old(service), *final(service), payload@, old(tx_buf)@, final(tx_buf)@),
        r.1 is Some ==> r.1 == Some(Event::PinVerified) && payload@.len() == 4 && final(service).session_state() is Some,
{
    let pin = match parse_verify_pin(payload) {
        Ok(p) => p,
        Err(_) => return (write_bare_status(tx_buf, ResponseStatus::InvalidPayload), None),
    };
    let res = service.verify_pin(&pin);
    match res {
        Ok(()) => (write_bare_status(tx_buf, ResponseStatus::Success), Some(Event::PinVerified)),
        Err(err) => (write_error(tx_buf, &err), None),
    }
}

/// EmergencyReset: its magic word, then the I/O key; answer the new PUK.
pub open spec fn spec_handle_emergency_reset<H: AteccHal, C: Clock>(
    before: CryptoService<H, C>,
    after: CryptoService<H, C>,
    payload: Seq<u8>,
    old_tx: Seq<u8>,
    new_tx: Seq<u8>,
) -> bool {
    if payload.len() != 36 {
        after == before && spec_replied(old_tx, new_tx, (ResponseStatus::InvalidPayload, Seq::<u8>::empty()))
    } else if !spec_has_magic(payload, 0xBA, 0xDC, 0x0F, 0xFE) {
        after == before && spec_replied(old_tx, new_tx, (ResponseStatus::LockMagicMismatch, Seq::<u8>::empty()))
    } else {
        exists|k: [u8; 32], r| k@ == payload.subrange(4, 36)
            && #[trigger] CryptoService::<H, C>::post_emergency_reset(before, after, &k, r)
            && spec_replied(old_tx, new_tx, spec_bytes_reply(r))
    }
}

/// EmergencyReset: its magic word, then the I/O key; answer the new PUK.
pub fn handle_emergency_reset<H: AteccHal, C: Clock>(service: &mut CryptoService<H, C>, payload: &[u8], tx_buf: &mut [u8]) -> (r: usize)
    ensures
        r == REPORT_SIZE,
        spec_handle_emergency_reset(*old(service), *final(service), payload@, old(tx_buf)@, final(tx_buf)@),
{
    let v = match parse_emergency_reset(payload) {
        Ok(v) => v,
        Err(PayloadError::MagicMismatch) => return write_bare_status(tx_buf, ResponseStatus::LockMagicMismatch),
        Err(_) => return write_bare_status(tx_buf, ResponseStatus::InvalidPayload),
    };
    let res = service.emergency_reset(&v);
    match res {
        Ok(p) => write_status(tx_buf, ResponseStatus::Success, &p),
        Err(err) => write_error(tx_buf, &err),
    }
}

/// LockConfigZone: its magic word, then the expected CRC.
pub open spec fn spec_handle_lock_config_zone<H: AteccHal, C: Clock>(
    before: CryptoService<H, C>,
    after: CryptoService<H, C>,
    payload: Seq<u8>,
    old_tx: Seq<u8>,
    new_tx: Seq<u8>,
) -> bool {
    if payload.len() != 6 {
        after == before && spec_replied(old_tx, new_tx, (ResponseStatus::InvalidPayload, Seq::<u8>::empty()))
    } else if !spec_has_magic(payload, 0xDE, 0xAD, 0xBE, 0xEF) {
        after == before && spec_replied(old_tx, new_tx, (ResponseStatus::LockMagicMismatch, Seq::<u8>::empty()))
    } else {
        exists|r| #[trigger] CryptoService::<H, C>::post_lock_config_zone(before, after, (payload[4] + payload[5] * 256) as u16, r)
            && spec_replied(old_tx, new_tx, spec_lock_reply(r))
    }
}

/// LockConfigZone: its magic word, then the expected CRC.
pub fn handle_lock_config_zone<H: AteccHal, C: Clock>(service: &mut CryptoService<H, C>, payload: &[u8], tx_buf: &mut [u8]) -> (r: usize)
    ensures
        r == REPORT_SIZE,
        spec_handle_lock_config_zone(*old(service), *final(service), payload@, old(tx_buf)@, final(tx_buf)@),
{
    let v = match parse_lock_config_zone(payload) {
        Ok(v) => v,
        Err(PayloadError::MagicMismatch) => return write_bare_status(tx_buf, ResponseStatus::LockMagicMismatch),
        Err(_) => return write_bare_status(tx_buf, ResponseStatus::InvalidPayload),
    };
    let res = service.lock_config_zone(v);
    match res {
        Ok(()) => write_bare_status(tx_buf, ResponseStatus::Success),
        Err(err) => write_lock_error(tx_buf, &err),
    }
}

/// LockDataZone: its magic word, then a CRC.
pub open spec fn spec_handle_lock_data_zone<H: AteccHal, C: Clock>(
    before: CryptoService<H, C>,
    after: CryptoService<H, C>,
    payload: Seq<u8>,
    old_tx: Seq<u8>,
    new_tx: Seq<u8>,
) -> bool {
    if payload.len() != 6 {
        after == before && spec_replied(old_tx, new_tx, (ResponseStatus::InvalidPayload, Seq::<u8>::empty()))
    } else if !spec_has_magic(payload, 0xCA, 0xFE, 0xBA, 0xBE) {
        after == before && spec_replied(old_tx, new_tx, (ResponseStatus::LockMagicMismatch, Seq::<u8>::empty()))
    } else {
        exists|r| #[trigger] CryptoService::<H, C>::post_lock_data_zone(before, after, (payload[4] + payload[5] * 256) as u16, r)
            && spec_replied(old_tx, new_tx, spec_lock_reply(r))
    }
}

/// LockDataZone: its magic word, then a CRC.
pub fn handle_lock_data_zone<H: AteccHal, C: Clock>(service: &mut CryptoService<H, C>, payload: &[u8], tx_buf: &mut [u8]) -> (r: usize)
    ensures
        r == REPORT_SIZE,
        spec_handle_lock_data_zone(*old(service), *final(service), payload@, old(tx_buf)@, final(tx_buf)@),
{
    let v = match parse_lock_data_zone(payload) {
        Ok(v) => v,
        Err(PayloadError::MagicMismatch) => return write_bare_status(tx_buf, ResponseStatus::LockMagicMismatch),
        Err(_) => return write_bare_status(tx_buf, ResponseStatus::InvalidPayload),
    };
    let res = service.lock_data_zone(v);
    match res {
        Ok(()) => write_bare_status(tx_buf, ResponseStatus::Success),
        Err(err) => write_lock_error(tx_buf, &err),
    }
}

/// LockSlot: its magic word, then the slot.
pub open spec fn spec_handle_lock_slot<H: AteccHal, C: Clock>(
    before: CryptoService<H, C>,
    after: CryptoService<H, C>,
    payload: Seq<u8>,
    old_tx: Seq<u8>,
    new_tx: Seq<u8>,
) -> bool {
    if payload.len() != 5 {
        after == before && spec_replied(old_tx, new_tx, (ResponseStatus::InvalidPayload, Seq::<u8>::empty()))
    } else if !spec_has_magic(payload, 0xF0, 0x0D, 0xCA, 0xFE) {
        after == before && spec_replied(old_tx, new_tx, (ResponseStatus::LockMagicMismatch, Seq::<u8>::empty()))
    } else if payload[4] >= 16 {
        after == before && spec_replied(old_tx, new_tx, (ResponseStatus::InvalidSlot, Seq::<u8>::empty()))
    } else {
        exists|slot: Slot, r| slot.index() == payload[4] && #[trigger] CryptoService::<H, C>::post_lock_slot(before, after, slot, r)
            && spec_replied(old_tx, new_tx, spec_lock_reply(r))
    }
}

/// LockSlot: its magic word, then the slot.
pub fn handle_lock_slot<H: AteccHal, C: Clock>(service: &mut CryptoService<H, C>, payload: &[u8], tx_buf: &mut [u8]) -> (r: usize)
    ensures
        r == REPORT_SIZE,
        spec_handle_lock_slot(*old(service), *final(service), payload@, old(tx_buf)@, final(tx_buf)@),
{
    let v = match parse_lock_slot(payload) {
        Ok(v) => v,
        Err(PayloadError::MagicMismatch) => return write_bare_status(tx_buf, ResponseStatus::LockMagicMismatch),
        Err(_) => return write_bare_status(tx_buf, ResponseStatus::InvalidPayload),
    };
    let slot = match Slot::new(v) {
        Some(s) => s,
        None => return write_bare_status(tx_buf, ResponseStatus::InvalidSlot),
    };
    let res = service.lock_slot(slot);
    match res {
        Ok(()) => write_bare_status(tx_buf, ResponseStatus::Success),
        Err(err) => write_lock_error(tx_buf, &err),
    }
}



/// Where a signature request stands after its first half.
pub enum SignStep {
    /// It was answered already (malformed, bad slot, or no session).
    Replied { len: usize },
    /// It waits for the user's touch; then [`finish_sign`] completes it.
    AwaitTouch { slot: Slot, digest: [u8; 32] },
}

/// First half of Sign (slot, then the 32-byte digest): refuse a malformed
/// request, a bad slot, or a request without an active PIN session;
/// otherwise wait for the touch.
pub open spec fn spec_handle_sign<H: AteccHal, C: Clock>(
    before: CryptoService<H, C>,
    after: CryptoService<H, C>,
    payload: Seq<u8>,
    old_tx: Seq<u8>,
    new_tx: Seq<u8>,
    step: SignStep,
) -> bool {
    &&& after == before
    &&& if payload.len() != 33 {
        step == (SignStep::Replied { len: REPORT_SIZE })
            && spec_replied(old_tx, new_tx, (ResponseStatus::InvalidPayload, Seq::<u8>::empty()))
    } else if payload[0] >= 16 {
        step == (SignStep::Replied { len: REPORT_SIZE })
            && spec_replied(old_tx, new_tx, (ResponseStatus::InvalidSlot, Seq::<u8>::empty()))
    } else {
        exists|now: u64| #![trigger spec_active_at(before.session_state(), now)]
            if spec_active_at(before.session_state(), now) {
                &&& new_tx == old_tx
                &&& step matches SignStep::AwaitTouch { slot, digest }
                &&& slot.index() == payload[0]
                &&& digest@ == payload.subrange(1, 33)
            } else {
                &&& step == (SignStep::Replied { len: REPORT_SIZE })
                &&& spec_replied(old_tx, new_tx, (ResponseStatus::PinRequired, Seq::<u8>::empty()))
            }
    }
}

/// First half of Sign.
pub fn handle_sign<H: AteccHal, C: Clock>(service: &mut CryptoService<H, C>, payload: &[u8], tx_buf: &mut [u8]) -> (r: SignStep)
    ensures
        spec_handle_sign(*old(service), *final(service), payload@, old(tx_buf)@, final(tx_buf)@, r),
{
    let (idx, digest) = match parse_sign(payload) {
        Ok(v) => v,
        Err(_) => return SignStep::Replied { len: write_bare_status(tx_buf, ResponseStatus::InvalidPayload) },
    };
    let slot = match Slot::new(idx) {
        Some(s) => s,
        None => return SignStep::Replied { len: write_bare_status(tx_buf, ResponseStatus::InvalidSlot) },
    };
    if !service.is_session_active() {
        return SignStep::Replied { len: write_bare_status(tx_buf, ResponseStatus::PinRequired) };
    }
    SignStep::AwaitTouch { slot, digest }
}

/// The events the second half of Sign posts: a timeout, or the signature's
/// completion followed, on failure, by the error.
pub open spec fn spec_sign_events<E>(touched: bool, r: Result<[u8; 64], CryptoServiceError<E>>) -> Seq<Event> {
    if !touched {
        seq![Event::TouchTimeout]
    } else if r is Ok {
        seq![Event::SignComplete]
    } else {
        seq![Event::SignComplete, Event::ErrorRaised]
    }
}

/// Second half of Sign: without the touch, answer the timeout; with it,
/// sign and answer the signature or the error.
pub fn finish_sign<H: AteccHal, C: Clock>(
    service: &mut CryptoService<H, C>,
    slot: Slot,
    digest: &[u8; 32],
    touched: bool,
    tx_buf: &mut [u8],
) -> (r: (usize, Vec<Event>))
    ensures
        r.0 == REPORT_SIZE,
        !touched ==> (*final(service) == *old(service) && r.1@ == seq![Event::TouchTimeout]
            && spec_replied(old(tx_buf)@, final(tx_buf)@, (ResponseStatus::TouchTimeout, Seq::<u8>::empty()))),
        touched ==> exists|res| #[trigger] CryptoService::<H, C>::post_sign(*old(service), *final(service), slot, digest, res)
            && r.1@ == spec_sign_events(true, res)
            && spec_replied(old(tx_buf)@, final(tx_buf)@, spec_bytes_reply(res)),
{
    let mut events: Vec<Event> = Vec::new();
    if !touched {
        events.push(Event::TouchTimeout);
        return (write_bare_status(tx_buf, ResponseStatus::TouchTimeout), events);
    }
    let res = service.sign(slot, digest);
    events.push(Event::SignComplete);
    match res {
        Ok(sig) => {
            let n = write_status(tx_buf, ResponseStatus::Success, &sig);
            (n, events)
        },
        Err(err) => {
            events.push(Event::ErrorRaised);
            let n = write_error(tx_buf, &err);
            (n, events)
        },
    }
}

/// What dispatching one request leaves to the caller.
pub enum Dispatch {
    /// The response is in the buffer; `event`, if any, goes to the state
    /// machine.
    Done { len: usize, event: Option<Event> },
    /// A signature waits for the user's touch.
    AwaitTouch { slot: Slot, digest: [u8; 32] },
}

/// The request with opcode `op` and payload `p` was handled as its
/// handler's contract says.
pub open spec fn spec_dispatched<H: AteccHal, C: Clock>(
    before: CryptoService<H, C>,
    after: CryptoService<H, C>,
    op: CommandOpcode,
    p: Seq<u8>,
    old_tx: Seq<u8>,
    new_tx: Seq<u8>,
    d: Dispatch,
) -> bool {
    match op {
        CommandOpcode::Sign => match d {
            Dispatch::AwaitTouch { slot, digest } => spec_handle_sign(before, after, p, old_tx, new_tx,
                SignStep::AwaitTouch { slot, digest }),
            Dispatch::Done { len, event } => event is None && spec_handle_sign(before, after, p, old_tx, new_tx,
                SignStep::Replied { len }),
        },
        CommandOpcode::VerifyPin => d matches Dispatch::Done { len, event } && len == REPORT_SIZE
            && spec_handle_verify_pin(before, after, p, old_tx, new_tx)
            && (event is Some ==> event == Some(Event::PinVerified) && after.session_state() is Some),
        _ => d matches Dispatch::Done { len, event } && len == REPORT_SIZE && event is None && match op {
            CommandOpcode::Info => spec_handle_info(before, after, p, old_tx, new_tx),
            CommandOpcode::GetPubkey => spec_handle_get_pubkey(before, after, p, old_tx, new_tx),
            CommandOpcode::GenKey => spec_handle_genkey(before, after, p, old_tx, new_tx),
            CommandOpcode::ReadConfigZone => spec_handle_read_config_zone(before, after, p, old_tx, new_tx),
            CommandOpcode::ReadConfigSlot => spec_handle_read_config_slot(before, after, p, old_tx, new_tx),
            CommandOpcode::SetPin => spec_handle_set_pin(before, after, p, old_tx, new_tx),
            CommandOpcode::UnblockPin => spec_handle_unblock_pin(before, after, p, old_tx, new_tx),
            CommandOpcode::GetPinStatus => spec_handle_get_pin_status(before, after, p, old_tx, new_tx),
            CommandOpcode::SetPuk => spec_handle_set_puk(before, after, p, old_tx, new_tx),
            CommandOpcode::EmergencyReset => spec_handle_emergency_reset(before, after, p, old_tx, new_tx),
            CommandOpcode::WriteConfigZone => spec_handle_write_config_zone(before, after, p, old_tx, new_tx),
            CommandOpcode::ProvisionSlot => spec_handle_provision_slot(before, after, p, old_tx, new_tx),
            CommandOpcode::ProvisionInitialPin => spec_handle_provision_initial_pin(before, after, p, old_tx, new_tx),
            CommandOpcode::ProvisionInitialPuk => spec_handle_provision_initial_puk(before, after, p, old_tx, new_tx),
            CommandOpcode::ProvisionIoKey => spec_handle_provision_io_key(before, after, p, old_tx, new_tx),
            CommandOpcode::LockConfigZone => spec_handle_lock_config_zone(before, after, p, old_tx, new_tx),
            CommandOpcode::LockDataZone => spec_handle_lock_data_zone(before, after, p, old_tx, new_tx),
            CommandOpcode::LockSlot => spec_handle_lock_slot(before, after, p, old_tx, new_tx),
            _ => false,
        },
    }
}

/// Handle one request report `rx_buf`, writing the response into
/// `tx_buf`: a report that does not decode is an invalid payload, an
/// unknown opcode an invalid command; anything else goes to its handler.
pub fn handle_one_request<H: AteccHal, C: Clock>(service: &mut CryptoService<H, C>, rx_buf: &[u8], tx_buf: &mut [u8]) -> (r: Dispatch)
    ensures
        match spec_parse(rx_buf@) {
            Err(_) => *final(service) == *old(service) && r == (Dispatch::Done { len: REPORT_SIZE, event: None })
                && spec_replied(old(tx_buf)@, final(tx_buf)@, (ResponseStatus::InvalidPayload, Seq::<u8>::empty())),
            Ok((op, p)) => match spec_opcode_from_byte(op) {
                None => *final(service) == *old(service) && r == (Dispatch::Done { len: REPORT_SIZE, event: None })
                    && spec_replied(old(tx_buf)@, final(tx_buf)@, (ResponseStatus::InvalidCommand, Seq::<u8>::empty())),
                Some(opcode) => spec_dispatched(*old(service), *final(service), opcode, p, old(tx_buf)@, final(tx_buf)@, r),
            },
        },
{
    let frame = match Frame::parse(rx_buf) {
        Ok(f) => f,
        Err(_) => return Dispatch::Done { len: write_bare_status(tx_buf, ResponseStatus::InvalidPayload), event: None },
    };
    let opcode = match CommandOpcode::from_byte(frame.opcode) {
        Some(op) => op,
        None => return Dispatch::Done { len: write_bare_status(tx_buf, ResponseStatus::InvalidCommand), event: None },
    };
    let payload = frame.payload;
    match opcode {
        CommandOpcode::Info => Dispatch::Done { len: handle_info(service, payload, tx_buf), event: None },
        CommandOpcode::GetPubkey => Dispatch::Done { len: handle_get_pubkey(service, payload, tx_buf), event: None },
        CommandOpcode::Sign => match handle_sign(service, payload, tx_buf) {
            SignStep::Replied { len } => Dispatch::Done { len, event: None },
            SignStep::AwaitTouch { slot, digest } => Dispatch::AwaitTouch { slot, digest },
        },
        CommandOpcode::GenKey => Dispatch::Done { len: handle_genkey(service, payload, tx_buf), event: None },
        CommandOpcode::ReadConfigZone => Dispatch::Done { len: handle_read_config_zone(service, payload, tx_buf), event: None },
        CommandOpcode::ReadConfigSlot => Dispatch::Done { len: handle_read_config_slot(service, payload, tx_buf), event: None },
        CommandOpcode::VerifyPin => {
            let (len, event) = handle_verify_pin(service, payload, tx_buf);
            Dispatch::Done { len, event }
        },
        CommandOpcode::SetPin => Dispatch::Done { len: handle_set_pin(service, payload, tx_buf), event: None },
        CommandOpcode::UnblockPin => Dispatch::Done { len: handle_unblock_pin(service, payload, tx_buf), event: None },
        CommandOpcode::GetPinStatus => Dispatch::Done { len: handle_get_pin_status(service, payload, tx_buf), event: None },
        CommandOpcode::SetPuk => Dispatch::Done { len: handle_set_puk(service, payload, tx_buf), event: None },
        CommandOpcode::EmergencyReset => Dispatch::Done { len: handle_emergency_reset(service, payload, tx_buf), event: None },
        CommandOpcode::WriteConfigZone => Dispatch::Done { len: handle_write_config_zone(service, payload, tx_buf), event: None },
        CommandOpcode::ProvisionSlot => Dispatch::Done { len: handle_provision_slot(service, payload, tx_buf), event: None },
        CommandOpcode::ProvisionInitialPin => Dispatch::Done {
            len: handle_provision_initial_pin(service, payload, tx_buf),
            event: None,
        },
        CommandOpcode::ProvisionInitialPuk => Dispatch::Done {
            len: handle_provision_initial_puk(service, payload, tx_buf),
            event: None,
        },
        CommandOpcode::ProvisionIoKey => Dispatch::Done { len: handle_provision_io_key(service, payload, tx_buf), event: None },
        CommandOpcode::LockConfigZone => Dispatch::Done { len: handle_lock_config_zone(service, payload, tx_buf), event: None },
        CommandOpcode::LockDataZone => Dispatch::Done { len: handle_lock_data_zone(service, payload, tx_buf), event: None },
        CommandOpcode::LockSlot => Dispatch::Done { len: handle_lock_slot(service, payload, tx_buf), event: None },
    }
}

/// The bytes of a response report: the status byte, the payload length
/// (two bytes, little end first), the payload, then zeros.
pub proof fn lemma_reply_bytes(old_tx: Seq<u8>, new_tx: Seq<u8>, status: ResponseStatus, payload: Seq<u8>)
    requires
        old_tx.len() == REPORT_SIZE,
        payload.len() <= MAX_PAYLOAD_SIZE,
        spec_replied(old_tx, new_tx, (status, payload)),
    ensures
        new_tx.len() == REPORT_SIZE,
        new_tx[0] == status.spec_byte(),
        new_tx[1] == payload.len(),
        new_tx[2] == 0,
        forall|i: int| 0 <= i < payload.len() ==> new_tx[3 + i] == payload[i],
        forall|i: int| 3 + payload.len() <= i < REPORT_SIZE ==> new_tx[i] == 0,
{
    assert forall|i: int| 0 <= i < payload.len() implies new_tx[3 + i] == payload[i] by {
        assert(new_tx == spec_report(status.spec_byte(), payload));
    }
}

/// The report answering a service error starts with the status byte of
/// the error's kind and carries what the host needs: a wrong PIN (0x0B)
/// and a wrong PUK (0x0E) are told apart and carry the attempts left, a
/// refused reset (0x10) carries both attempt counts, a refused slot (0x03)
/// carries the slot, a chip error (0x05) the chip's status byte, a
/// communication error (0x04) its sub-code; the others carry nothing.
pub proof fn lemma_error_report<E>(err: CryptoServiceError<E>, old_tx: Seq<u8>, new_tx: Seq<u8>)
    requires
        old_tx.len() == REPORT_SIZE,
        spec_replied(old_tx, new_tx, spec_error_reply(err)),
    ensures
        new_tx.len() == REPORT_SIZE,
        new_tx[2] == 0,
        match err {
            CryptoServiceError::Atecc(e) => match spec_error_kind(e) {
                AteccErrorKind::Chip(c) => new_tx[0] == 0x05 && new_tx[1] == 1 && new_tx[3] == spec_chip_status_byte(c),
                k => new_tx[0] == 0x04 && new_tx[1] == 1 && new_tx[3] == spec_sub_code(k),
            },
            CryptoServiceError::InvalidFormat(_) => new_tx[0] == 0x02 && new_tx[1] == 0,
            CryptoServiceError::PinIncorrect { tries_remaining } => new_tx[0] == 0x0B && new_tx[1] == 1 && new_tx[3] == tries_remaining,
            CryptoServiceError::PinBlocked => new_tx[0] == 0x0D && new_tx[1] == 0,
            CryptoServiceError::PukIncorrect { tries_remaining } => new_tx[0] == 0x0E && new_tx[1] == 1 && new_tx[3] == tries_remaining,
            CryptoServiceError::Bricked => new_tx[0] == 0x0F && new_tx[1] == 0,
            CryptoServiceError::PinRequired => new_tx[0] == 0x0C && new_tx[1] == 0,
            CryptoServiceError::NotProvisioned => new_tx[0] == 0x07 && new_tx[1] == 0,
            CryptoServiceError::EmergencyResetNotPermitted { pin_tries_remaining, puk_tries_remaining } =>
                new_tx[0] == 0x10 && new_tx[1] == 2 && new_tx[3] == pin_tries_remaining && new_tx[4] == puk_tries_remaining,
            CryptoServiceError::InvalidSlot { slot } => new_tx[0] == 0x03 && new_tx[1] == 1 && new_tx[3] == slot.index(),
        },
{
    let (st, p) = spec_error_reply(err);
    lemma_reply_bytes(old_tx, new_tx, st, p);
}

/// A wrong PIN and a wrong PUK with the same attempts left get reports
/// that differ in their status byte, and agree in the attempts byte.
pub proof fn lemma_wrong_pin_and_puk_differ<E>(t: u8, old_tx: Seq<u8>, tx_pin: Seq<u8>, tx_puk: Seq<u8>)
    requires
        old_tx.len() == REPORT_SIZE,
        spec_replied(old_tx, tx_pin, spec_error_reply(CryptoServiceError::<E>::PinIncorrect { tries_remaining: t })),
        spec_replied(old_tx, tx_puk, spec_error_reply(CryptoServiceError::<E>::PukIncorrect { tries_remaining: t })),
    ensures
        tx_pin[0] != tx_puk[0],
        tx_pin[3] == t && tx_puk[3] == t,
{
    lemma_error_report(CryptoServiceError::<E>::PinIncorrect { tries_remaining: t }, old_tx, tx_pin);
    lemma_error_report(CryptoServiceError::<E>::PukIncorrect { tries_remaining: t }, old_tx, tx_puk);
}

/// A successful Info report: status 0x00, a 14-byte payload of the four
/// revision bytes, the nine serial bytes, and a last byte that is 1
/// exactly when the chip is provisioned and 0 otherwise.
pub proof fn lemma_info_report<E>(di: DeviceInfo, old_tx: Seq<u8>, new_tx: Seq<u8>)
    requires
        old_tx.len() == REPORT_SIZE,
        spec_replied(old_tx, new_tx, spec_info_reply(Ok::<DeviceInfo, CryptoServiceError<E>>(di))),
    ensures
        new_tx[0] == 0x00,
        new_tx[1] == 14 && new_tx[2] == 0,
        forall|i: int| 0 <= i < 4 ==> new_tx[3 + i] == di.revision@[i],
        forall|i: int| 0 <= i < 9 ==> new_tx[7 + i] == di.serial@[i],
        di.is_provisioned ==> new_tx[16] == 1,
        !di.is_provisioned ==> new_tx[16] == 0,
{
    let (st, p) = spec_info_reply(Ok::<DeviceInfo, CryptoServiceError<E>>(di));
    lemma_reply_bytes(old_tx, new_tx, st, p);
    assert(p[13] == new_tx[16]);
    assert forall|i: int| 0 <= i < 9 implies new_tx[7 + i] == di.serial@[i] by {
        assert(p[4 + i] == new_tx[3 + (4 + i)]);
    }
}

/// A successful GetPinStatus report: status 0x00, then the PIN attempts,
/// the PUK attempts, and 1 exactly when a session is active.
pub proof fn lemma_pin_status_report<E>(st: PinStatus, old_tx: Seq<u8>, new_tx: Seq<u8>)
    requires
        old_tx.len() == REPORT_SIZE,
        spec_replied(old_tx, new_tx, spec_pin_status_reply(Ok::<PinStatus, CryptoServiceError<E>>(st))),
    ensures
        new_tx[0] == 0x00,
        new_tx[1] == 3 && new_tx[2] == 0,
        new_tx[3] == st.pin_tries_remaining,
        new_tx[4] == st.puk_tries_remaining,
        st.session_active ==> new_tx[5] == 1,
        !st.session_active ==> new_tx[5] == 0,
{
    let (s, p) = spec_pin_status_reply(Ok::<PinStatus, CryptoServiceError<E>>(st));
    lemma_reply_bytes(old_tx, new_tx, s, p);
}

/// After a touch, the second half of Sign always reports the signature's
/// completion first, then an error exactly when the signature failed; so
/// from `Signing` the token returns to `Authenticated` on success and goes
/// to `Error` on failure. Without the touch it reports the timeout, which
/// takes a waiting token back to `Authenticated`.
pub proof fn lemma_sign_events<E>(r: Result<[u8; 64], CryptoServiceError<E>>)
    ensures
        spec_sign_events(true, r).len() >= 1,
        spec_sign_events(true, r)[0] == Event::SignComplete,
        r is Ok ==> spec_sign_events(true, r).len() == 1,
        r is Err ==> spec_sign_events(true, r).len() == 2 && spec_sign_events(true, r)[1] == Event::ErrorRaised,
        spec_sign_events(false, r) == seq![Event::TouchTimeout],
        r is Ok ==> spec_replay(TokenState::Signing, spec_sign_events(true, r)).0 == TokenState::Authenticated,
        r is Err ==> spec_replay(TokenState::Signing, spec_sign_events(true, r)).0 == TokenState::Error,
        spec_replay(TokenState::WaitingForTouch, spec_sign_events(false, r)).0 == TokenState::Authenticated,
{
    reveal_with_fuel(spec_replay, 3);
    let ev = spec_sign_events(true, r);
    if r is Err {
        assert(ev.drop_last() =~= seq![Event::SignComplete]);
        assert(ev.drop_last().drop_last() =~= Seq::<Event>::empty());
    } else {
        assert(ev.drop_last() =~= Seq::<Event>::empty());
    }
    assert(spec_sign_events(false, r).drop_last() =~= Seq::<Event>::empty());
}

/// A lock the chip refuses with its execution error (the CRC did not
/// match) is answered 0x09 with no payload; a lock that succeeded is
/// answered 0x00 with no payload.
pub proof fn lemma_lock_report<E>(r: Result<(), CryptoServiceError<E>>, old_tx: Seq<u8>, new_tx: Seq<u8>)
    requires
        old_tx.len() == REPORT_SIZE,
        spec_replied(old_tx, new_tx, spec_lock_reply(r)),
    ensures
        r == Err::<(), CryptoServiceError<E>>(CryptoServiceError::Atecc(AteccError::Chip(ChipError::ExecutionError)))
            ==> new_tx[0] == 0x09 && new_tx[1] == 0,
        r is Ok ==> new_tx[0] == 0x00 && new_tx[1] == 0,
{
    let (st, p) = spec_lock_reply(r);
    lemma_reply_bytes(old_tx, new_tx, st, p);
}

/// A successful result carrying bytes is answered 0x00 with exactly those
/// bytes as the payload.
pub proof fn lemma_bytes_report<T: View<V = Seq<u8>>, E>(v: T, old_tx: Seq<u8>, new_tx: Seq<u8>)
    requires
        old_tx.len() == REPORT_SIZE,
        v@.len() <= MAX_PAYLOAD_SIZE,
        spec_replied(old_tx, new_tx, spec_bytes_reply(Ok::<T, CryptoServiceError<E>>(v))),
    ensures
        new_tx[0] == 0x00,
        new_tx[1] as int + 256 * (new_tx[2] as int) == v@.len(),
        forall|i: int| 0 <= i < v@.len() ==> new_tx[3 + i] == v@[i],
{
    let (st, p) = spec_bytes_reply(Ok::<T, CryptoServiceError<E>>(v));
    lemma_reply_bytes(old_tx, new_tx, st, p);
}

} // verus!
