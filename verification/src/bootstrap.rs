//! Cold bootstrap: the checks on the firmware resource, and the order of the
//! steps that take a sensor from its loader to its application.
use vstd::prelude::*;

use crate::firmware;
use crate::firmware::{
    AppTransferPackage, FirmwareBlob, FirmwareError, WriteAppTransferResult,
};
use crate::text;

verus! {

/// Loader build that the bootstrap starts from.
pub const EXPECTED_IAP_VERSION: &'static str = "MILAN_GM168SEC_IAP_10007";

/// Application build that the bootstrap ends in.
pub const EXPECTED_APP_VERSION: &'static str = "GFUSB_GM168SEC_APP_15045";

pub const EXPECTED_FIRMWARE_BLOB_LEN: usize = 0x611d;

pub const EXPECTED_APP_LEN: usize = 0x6100;

pub const EXPECTED_BLOB_CRC: u32 = 0x4bd5_12b0;

pub const EXPECTED_PACKAGE_APP_CRC: u32 = 0x4d44_46c1;

pub const EXPECTED_PACKAGE_HEADER_CRC: u32 = 0xa2b6_9ee2;

pub const EXPECTED_PACKAGE_LEN: usize = 0x610c;

pub const EXPECTED_F0_CHUNK_COUNT: usize = 98;

/// Chip identity that the application reports.
pub const EXPECTED_CHIP_ID: u32 = 0x0025_03a8;

/// Longest wait for the sensor to detach and come back, in seconds.
pub const REENUMERATION_TIMEOUT_SECS: u64 = 10;

#[derive(Debug, Clone, PartialEq, Eq)]
pub enum BootstrapError {
    Firmware(FirmwareError),
    /// The metadata is not UTF-8, with what is wrong about it.
    MetadataNotText { message: String },
    /// Another application's resource, seen before the bootstrap.
    UnexpectedMetadata { found: String },
    /// Another application's resource, seen during the bootstrap.
    MetadataMismatch { found: String },
    /// Right metadata, but not the known resource.
    InexactFirmware,
    NotIap { reported: String },
    PskMismatch,
    AppVersionMismatch { expected: String, found: String },
    UnexpectedChipId { chip_id: u32 },
    /// The event does not belong to the state.
    OutOfOrder,
}

/// The metadata bytes of a firmware blob.
pub open spec fn blob_metadata(raw: Seq<u8>) -> Seq<u8> {
    raw.subrange(1, firmware::blob_prefix_size(raw))
}

/// The version in the metadata: its text without NUL characters at the end.
pub open spec fn metadata_version(raw: Seq<u8>) -> Seq<char> {
    text::without_trailing_nul(vstd::utf8::decode_utf8(blob_metadata(raw)))
}

/// The version that metadata decodes to, or the message of what is wrong.
pub fn version_of_metadata(decoded: Result<&str, String>) -> (result: Result<
    String,
    BootstrapError,
>)
    ensures
        match decoded {
            Ok(metadata) => result is Ok && result->Ok_0@ == text::without_trailing_nul(metadata@),
            Err(message) => result == Err::<String, BootstrapError>(
                BootstrapError::MetadataNotText { message },
            ),
        },
{
    match decoded {
        Ok(metadata) => Ok(text::trim_trailing_nul(metadata)),
        Err(message) => Err(BootstrapError::MetadataNotText { message }),
    }
}

/// The error says that the metadata of a firmware blob is not UTF-8, and what is
/// wrong about it.
pub open spec fn is_metadata_error(error: BootstrapError, raw: Seq<u8>) -> bool {
    match error {
        BootstrapError::MetadataNotText { message } => message@ == text::utf8_error_text(
            blob_metadata(raw),
        ),
        _ => false,
    }
}

/// Reads the version from the metadata of a firmware blob.
pub fn firmware_metadata_version(blob: &FirmwareBlob<'_>) -> (result: Result<
    String,
    BootstrapError,
>)
    ensures
        if vstd::utf8::valid_utf8(blob_metadata(blob@)) {
            result is Ok && result->Ok_0@ == metadata_version(blob@)
        } else {
            result is Err && is_metadata_error(result->Err_0, blob@)
        },
{
    version_of_metadata(text::decode_utf8(blob.metadata()))
}

/// The blob has the sizes and checksums of the known resource.
pub open spec fn is_exact_target(raw: Seq<u8>) -> bool {
    let app = firmware::blob_app(raw);
    &&& raw.len() == EXPECTED_FIRMWARE_BLOB_LEN
    &&& app.len() == EXPECTED_APP_LEN
    &&& firmware::blob_stored_crc(raw) == EXPECTED_BLOB_CRC
    &&& firmware::crc32_mpeg2_spec(app) == EXPECTED_PACKAGE_APP_CRC
    &&& firmware::header_crc_spec(app) == EXPECTED_PACKAGE_HEADER_CRC
}

/// The package of an application of the known size has the known length and
/// number of chunks.
pub proof fn lemma_exact_package(app: Seq<u8>)
    requires
        app.len() == EXPECTED_APP_LEN,
    ensures
        firmware::package_error(app.len()) is None,
        firmware::package_bytes(app).len() == EXPECTED_PACKAGE_LEN,
        firmware::chunk_count(firmware::package_bytes(app).len()) == EXPECTED_F0_CHUNK_COUNT,
{
    firmware::lemma_package_header(app);
}

/// `result` is what the checks of a firmware blob come to: the first failed one,
/// or success. Only the exact check goes by the known sizes and checksums.
pub open spec fn is_preflight_of(
    result: Result<(), BootstrapError>,
    raw: Seq<u8>,
    exact: bool,
) -> bool {
    match firmware::blob_error(raw) {
        Some(error) => result == Err::<(), BootstrapError>(BootstrapError::Firmware(error)),
        None => if !vstd::utf8::valid_utf8(blob_metadata(raw)) {
            result is Err && is_metadata_error(result->Err_0, raw)
        } else if metadata_version(raw) != EXPECTED_APP_VERSION@ {
            match result {
                Err(BootstrapError::UnexpectedMetadata { found }) => exact && found@
                    == metadata_version(raw),
                Err(BootstrapError::MetadataMismatch { found }) => !exact && found@
                    == metadata_version(raw),
                _ => false,
            }
        } else {
            match firmware::package_error(firmware::blob_app(raw).len()) {
                Some(error) => result == Err::<(), BootstrapError>(
                    BootstrapError::Firmware(error),
                ),
                None => if exact && !is_exact_target(raw) {
                    result == Err::<(), BootstrapError>(BootstrapError::InexactFirmware)
                } else {
                    result == Ok::<(), BootstrapError>(())
                },
            }
        },
    }
}

/// Parses a firmware blob, checks its metadata, and packs its application.
fn checked_package(firmware_blob: &[u8], exact: bool) -> (result: Result<
    (String, AppTransferPackage),
    BootstrapError,
>)
    ensures
        match result {
            Ok((version, package)) => {
                &&& is_preflight_of(Ok(()), firmware_blob@, false)
                &&& version@ == EXPECTED_APP_VERSION@
                &&& package@ == firmware::package_bytes(firmware::blob_app(firmware_blob@))
            },
            Err(error) => is_preflight_of(Err(error), firmware_blob@, exact),
        },
{
    let blob: FirmwareBlob<'_> = match FirmwareBlob::parse(firmware_blob) {
        Ok(blob) => blob,
        Err(error) => {
            return Err(BootstrapError::Firmware(error));
        },
    };
    let version: String = match firmware_metadata_version(&blob) {
        Ok(version) => version,
        Err(error) => {
            return Err(error);
        },
    };
    if !text::same_text(version.as_str(), EXPECTED_APP_VERSION) {
        return Err(
            if exact {
                BootstrapError::UnexpectedMetadata { found: version }
            } else {
                BootstrapError::MetadataMismatch { found: version }
            },
        );
    }
    match AppTransferPackage::build(&blob) {
        Ok(package) => Ok((version, package)),
        Err(error) => Err(BootstrapError::Firmware(error)),
    }
}

/// Accepts exactly the known firmware resource.
pub fn validate_cold_bootstrap_firmware(firmware_blob: &[u8]) -> (result: Result<
    (),
    BootstrapError,
>)
    ensures
        is_preflight_of(result, firmware_blob@, true),
{
    let package: AppTransferPackage = match checked_package(firmware_blob, true) {
        Ok((_, package)) => package,
        Err(error) => {
            return Err(error);
        },
    };
    let blob: FirmwareBlob<'_> = match FirmwareBlob::parse(firmware_blob) {
        Ok(blob) => blob,
        Err(error) => {
            return Err(BootstrapError::Firmware(error));
        },
    };
    let app_len: usize = blob.app().len();
    proof {
        let app = firmware::blob_app(firmware_blob@);
        firmware::lemma_package_header(app);
        if app.len() == EXPECTED_APP_LEN {
            lemma_exact_package(app);
        }
    }
    let exact_target: bool = firmware_blob.len() == EXPECTED_FIRMWARE_BLOB_LEN && app_len
        == EXPECTED_APP_LEN && blob.stored_crc() == EXPECTED_BLOB_CRC && package.app_crc()
        == EXPECTED_PACKAGE_APP_CRC && package.header_crc() == EXPECTED_PACKAGE_HEADER_CRC
        && package.len() == EXPECTED_PACKAGE_LEN && package.f0_chunk_count()
        == EXPECTED_F0_CHUNK_COUNT;
    if !exact_target {
        return Err(BootstrapError::InexactFirmware);
    }
    Ok(())
}

/// What is known once the sensor has accepted the firmware and acknowledged its
/// reset.
#[derive(Debug, Clone, PartialEq, Eq)]
pub struct PendingColdBootstrap {
    pub expected_app_version: String,
    pub f0_chunks_sent: usize,
    pub firmware_check_result: u8,
}

/// Result of a bootstrap whose sensor came back with the right application.
#[derive(Debug, Clone, PartialEq, Eq)]
pub struct ColdBootstrapResult {
    pub app_version: String,
    pub chip_id: u32,
    pub f0_chunks_sent: usize,
    pub firmware_check_result: u8,
}

/// What a bootstrap waits for.
#[derive(Debug)]
pub enum ColdBootstrapState {
    /// The version of the running loader.
    AwaitIapVersion,
    /// Whether the stored key matches its stored hash.
    AwaitPskCheck,
    /// The transfer of the package.
    AwaitTransfer { expected_app_version: String, package: AppTransferPackage },
    /// The acknowledgement of the reset.
    AwaitResetAck { pending: PendingColdBootstrap },
    /// The sensor's detaching and coming back.
    AwaitReattach { pending: PendingColdBootstrap },
    /// The version of the application that came back.
    AwaitAppVersion { pending: PendingColdBootstrap },
    /// Its chip identity.
    AwaitChipId { pending: PendingColdBootstrap, app_version: String },
    Complete { result: ColdBootstrapResult },
}

/// What happens to a bootstrap.
#[derive(Debug)]
pub enum ColdBootstrapEvent {
    IapVersion(String),
    PskMatches(bool),
    Transferred(WriteAppTransferResult),
    ResetAcknowledged,
    Reattached,
    AppVersion(String),
    ChipId(u32),
}

/// Number of steps that led to a state.
pub open spec fn steps_to(state: ColdBootstrapState) -> int {
    match state {
        ColdBootstrapState::AwaitIapVersion => 0,
        ColdBootstrapState::AwaitPskCheck => 1,
        ColdBootstrapState::AwaitTransfer { .. } => 2,
        ColdBootstrapState::AwaitResetAck { .. } => 3,
        ColdBootstrapState::AwaitReattach { .. } => 4,
        ColdBootstrapState::AwaitAppVersion { .. } => 5,
        ColdBootstrapState::AwaitChipId { .. } => 6,
        ColdBootstrapState::Complete { .. } => 7,
    }
}

/// `next` is what an event makes of a state.
pub open spec fn is_step(
    state: ColdBootstrapState,
    event: ColdBootstrapEvent,
    firmware_blob: Seq<u8>,
    next: Result<ColdBootstrapState, BootstrapError>,
) -> bool {
    match (state, event) {
        (ColdBootstrapState::AwaitIapVersion, ColdBootstrapEvent::IapVersion(version)) => {
            if version@ == EXPECTED_IAP_VERSION@ {
                next == Ok::<ColdBootstrapState, BootstrapError>(ColdBootstrapState::AwaitPskCheck)
            } else {
                next == Err::<ColdBootstrapState, BootstrapError>(
                    BootstrapError::NotIap { reported: version },
                )
            }
        },
        (ColdBootstrapState::AwaitPskCheck, ColdBootstrapEvent::PskMatches(matches)) => {
            if !matches {
                next == Err::<ColdBootstrapState, BootstrapError>(BootstrapError::PskMismatch)
            } else {
                match next {
                    Ok(ColdBootstrapState::AwaitTransfer { expected_app_version, package }) => {
                        &&& is_preflight_of(Ok(()), firmware_blob, false)
                        &&& expected_app_version@ == EXPECTED_APP_VERSION@
                        &&& package@ == firmware::package_bytes(firmware::blob_app(firmware_blob))
                    },
                    Ok(_) => false,
                    Err(error) => is_preflight_of(Err(error), firmware_blob, false),
                }
            }
        },
        (
            ColdBootstrapState::AwaitTransfer { expected_app_version, package },
            ColdBootstrapEvent::Transferred(transfer),
        ) => next == Ok::<ColdBootstrapState, BootstrapError>(
            ColdBootstrapState::AwaitResetAck {
                pending: PendingColdBootstrap {
                    expected_app_version,
                    f0_chunks_sent: transfer.f0_chunks_sent,
                    firmware_check_result: transfer.firmware_check_result,
                },
            },
        ),
        (
            ColdBootstrapState::AwaitResetAck { pending },
            ColdBootstrapEvent::ResetAcknowledged,
        ) => next == Ok::<ColdBootstrapState, BootstrapError>(
            ColdBootstrapState::AwaitReattach { pending },
        ),
        (ColdBootstrapState::AwaitReattach { pending }, ColdBootstrapEvent::Reattached) => next
            == Ok::<ColdBootstrapState, BootstrapError>(
            ColdBootstrapState::AwaitAppVersion { pending },
        ),
        (
            ColdBootstrapState::AwaitAppVersion { pending },
            ColdBootstrapEvent::AppVersion(version),
        ) => if version@ == pending.expected_app_version@ {
            next == Ok::<ColdBootstrapState, BootstrapError>(
                ColdBootstrapState::AwaitChipId { pending, app_version: version },
            )
        } else {
            next == Err::<ColdBootstrapState, BootstrapError>(
                BootstrapError::AppVersionMismatch {
                    expected: pending.expected_app_version,
                    found: version,
                },
            )
        },
        (
            ColdBootstrapState::AwaitChipId { pending, app_version },
            ColdBootstrapEvent::ChipId(chip_id),
        ) => if chip_id == EXPECTED_CHIP_ID {
            next == Ok::<ColdBootstrapState, BootstrapError>(
                ColdBootstrapState::Complete {
                    result: ColdBootstrapResult {
                        app_version,
                        chip_id,
                        f0_chunks_sent: pending.f0_chunks_sent,
                        firmware_check_result: pending.firmware_check_result,
                    },
                },
            )
        } else {
            next == Err::<ColdBootstrapState, BootstrapError>(
                BootstrapError::UnexpectedChipId { chip_id },
            )
        },
        _ => next == Err::<ColdBootstrapState, BootstrapError>(BootstrapError::OutOfOrder),
    }
}

/// A bootstrap before its first step.
pub fn begin_cold_bootstrap() -> (state: ColdBootstrapState)
    ensures
        state == ColdBootstrapState::AwaitIapVersion,
{
    ColdBootstrapState::AwaitIapVersion
}

/// Starts the bootstrap with a firmware blob, which must be the exact known one
/// before anything is sent.
pub fn cold_bootstrap(firmware_blob: &[u8]) -> (result: Result<ColdBootstrapState, BootstrapError>)
    ensures
        match result {
            Ok(state) => {
                &&& state == ColdBootstrapState::AwaitIapVersion
                &&& is_preflight_of(Ok(()), firmware_blob@, true)
            },
            Err(error) => is_preflight_of(Err(error), firmware_blob@, true),
        },
{
    match validate_cold_bootstrap_firmware(firmware_blob) {
        Ok(()) => Ok(begin_cold_bootstrap()),
        Err(error) => Err(error),
    }
}

/// Takes one step: the loader must be the known one, the key must match, the
/// firmware must be the right one and be transferred, the reset acknowledged,
/// the sensor back, its application the expected one, and its chip the known
/// one, in this order.
pub fn advance_cold_bootstrap(
    state: ColdBootstrapState,
    event: ColdBootstrapEvent,
    firmware_blob: &[u8],
) -> (next: Result<ColdBootstrapState, BootstrapError>)
    ensures
        is_step(state, event, firmware_blob@, next),
{
    match (state, event) {
        (ColdBootstrapState::AwaitIapVersion, ColdBootstrapEvent::IapVersion(version)) => {
            if text::same_text(version.as_str(), EXPECTED_IAP_VERSION) {
                Ok(ColdBootstrapState::AwaitPskCheck)
            } else {
                Err(BootstrapError::NotIap { reported: version })
            }
        },
        (ColdBootstrapState::AwaitPskCheck, ColdBootstrapEvent::PskMatches(matches)) => {
            if !matches {
                return Err(BootstrapError::PskMismatch);
            }
            match checked_package(firmware_blob, false) {
                Ok((expected_app_version, package)) => Ok(
                    ColdBootstrapState::AwaitTransfer { expected_app_version, package },
                ),
                Err(error) => Err(error),
            }
        },
        (
            ColdBootstrapState::AwaitTransfer { expected_app_version, package },
            ColdBootstrapEvent::Transferred(transfer),
        ) => Ok(
            ColdBootstrapState::AwaitResetAck {
                pending: PendingColdBootstrap {
                    expected_app_version,
                    f0_chunks_sent: transfer.f0_chunks_sent,
                    firmware_check_result: transfer.firmware_check_result,
                },
            },
        ),
        (
            ColdBootstrapState::AwaitResetAck { pending },
            ColdBootstrapEvent::ResetAcknowledged,
        ) => Ok(ColdBootstrapState::AwaitReattach { pending }),
        (ColdBootstrapState::AwaitReattach { pending }, ColdBootstrapEvent::Reattached) => Ok(
            ColdBootstrapState::AwaitAppVersion { pending },
        ),
        (
            ColdBootstrapState::AwaitAppVersion { pending },
            ColdBootstrapEvent::AppVersion(version),
        ) => if text::same_text(version.as_str(), pending.expected_app_version.as_str()) {
            Ok(ColdBootstrapState::AwaitChipId { pending, app_version: version })
        } else {
            Err(
                BootstrapError::AppVersionMismatch {
                    expected: pending.expected_app_version,
                    found: version,
                },
            )
        },
        (
            ColdBootstrapState::AwaitChipId { pending, app_version },
            ColdBootstrapEvent::ChipId(chip_id),
        ) => if chip_id == EXPECTED_CHIP_ID {
            Ok(
                ColdBootstrapState::Complete {
                    result: ColdBootstrapResult {
                        app_version,
                        chip_id,
                        f0_chunks_sent: pending.f0_chunks_sent,
                        firmware_check_result: pending.firmware_check_result,
                    },
                },
            )
        } else {
            Err(BootstrapError::UnexpectedChipId { chip_id })
        },
        _ => Err(BootstrapError::OutOfOrder),
    }
}

/// No step is skipped or repeated: every successful step leads to the next
/// stage, and a complete bootstrap takes no further step.
pub proof fn lemma_steps_in_order(
    state: ColdBootstrapState,
    event: ColdBootstrapEvent,
    firmware_blob: Seq<u8>,
    next: Result<ColdBootstrapState, BootstrapError>,
)
    requires
        is_step(state, event, firmware_blob, next),
    ensures
        next is Ok ==> steps_to(next->Ok_0) == steps_to(state) + 1,
        state is Complete ==> next is Err,
{
}

/// `states` are the stages of a run that starts at the beginning and takes one
/// step per event.
pub open spec fn is_run(
    states: Seq<ColdBootstrapState>,
    events: Seq<ColdBootstrapEvent>,
    firmware_blob: Seq<u8>,
) -> bool {
    &&& states.len() == events.len() + 1
    &&& states[0] == ColdBootstrapState::AwaitIapVersion
    &&& forall|i: int|
        0 <= i < events.len() ==> is_step(
            #[trigger] states[i],
            events[i],
            firmware_blob,
            Ok(states[i + 1]),
        )
}

/// A run that completes saw the known loader, a matching key, a transfer, the
/// expected application and the known chip; its result holds the transfer's
/// counts.
pub proof fn lemma_complete_run(
    states: Seq<ColdBootstrapState>,
    events: Seq<ColdBootstrapEvent>,
    firmware_blob: Seq<u8>,
)
    requires
        is_run(states, events, firmware_blob),
        states.last() is Complete,
    ensures
        events.len() == 7,
        events[0] is IapVersion && events[0]->IapVersion_0@ == EXPECTED_IAP_VERSION@,
        events[1] == ColdBootstrapEvent::PskMatches(true),
        is_preflight_of(Ok(()), firmware_blob, false),
        events[2] is Transferred,
        events[3] == ColdBootstrapEvent::ResetAcknowledged,
        events[4] == ColdBootstrapEvent::Reattached,
        events[5] is AppVersion && events[5]->AppVersion_0@ == EXPECTED_APP_VERSION@,
        events[6] == ColdBootstrapEvent::ChipId(EXPECTED_CHIP_ID),
        states.last()->Complete_result.app_version@ == EXPECTED_APP_VERSION@,
        states.last()->Complete_result.chip_id == EXPECTED_CHIP_ID,
        states.last()->Complete_result.f0_chunks_sent == events[2]->Transferred_0.f0_chunks_sent,
        states.last()->Complete_result.firmware_check_result
            == events[2]->Transferred_0.firmware_check_result,
{
    lemma_run_position(states, events, firmware_blob, events.len() as int);
    assert(events.len() == 7);
    assert(is_step(states[0], events[0], firmware_blob, Ok(states[1])));
    assert(is_step(states[1], events[1], firmware_blob, Ok(states[2])));
    assert(is_step(states[2], events[2], firmware_blob, Ok(states[3])));
    assert(is_step(states[3], events[3], firmware_blob, Ok(states[4])));
    assert(is_step(states[4], events[4], firmware_blob, Ok(states[5])));
    assert(is_step(states[5], events[5], firmware_blob, Ok(states[6])));
    assert(is_step(states[6], events[6], firmware_blob, Ok(states[7])));
}

proof fn lemma_run_position(
    states: Seq<ColdBootstrapState>,
    events: Seq<ColdBootstrapEvent>,
    firmware_blob: Seq<u8>,
    k: int,
)
    requires
        is_run(states, events, firmware_blob),
        0 <= k <= events.len(),
    ensures
        steps_to(states[k]) == k,
    decreases k,
{
    if k > 0 {
        lemma_run_position(states, events, firmware_blob, k - 1);
        assert(is_step(states[k - 1], events[k - 1], firmware_blob, Ok(states[k])));
    }
}

/// Takes a value and lets it go. Nothing is said of what its drop does.
fn give_up<T>(_value: T) {
}

/// Runs the two halves of a reset that makes the old device disappear: `begin`
/// on the old device, which is then given up before `wait_for_new_device` is
/// called, and `finish` on the new one. The first error ends it. `begin` alone
/// may be called at first; `wait_for_new_device` once `begin` has succeeded; and
/// `finish` once both have, on what they gave.
pub fn orchestrate_reenumeration<
    OldDevice,
    Pending,
    NewDevice,
    Output,
    E,
    Begin,
    Wait,
    Finish,
>(old_device: OldDevice, begin: Begin, wait_for_new_device: Wait, finish: Finish) -> (result: Result<
    (Output, NewDevice),
    E,
>) where
    Begin: FnOnce(&OldDevice) -> Result<Pending, E>,
    Wait: FnOnce() -> Result<NewDevice, E>,
    Finish: FnOnce(Pending, &NewDevice) -> Result<Output, E>,

    requires
        call_requires(begin, (&old_device,)),
        (exists|pending: Pending| #[trigger]
            call_ensures(begin, (&old_device,), Ok::<Pending, E>(pending))) ==> call_requires(
            wait_for_new_device,
            (),
        ),
        forall|pending: Pending, device: NewDevice|
            #[trigger] call_ensures(begin, (&old_device,), Ok::<Pending, E>(pending))
                && #[trigger] call_ensures(wait_for_new_device, (), Ok::<NewDevice, E>(device))
                ==> call_requires(finish, (pending, &device)),
    ensures
        exists|begun: Result<Pending, E>| #[trigger]
            call_ensures(begin, (&old_device,), begun) && match begun {
                Err(error) => result == Err::<(Output, NewDevice), E>(error),
                Ok(pending) => is_completion_of(wait_for_new_device, finish, pending, result),
            },
{
    let begun: Result<Pending, E> = begin(&old_device);
    assert(call_ensures(begin, (&old_device,), begun));
    let pending: Pending = match begun {
        Ok(pending) => pending,
        Err(error) => {
            return Err(error);
        },
    };
    give_up(old_device);
    let waited: Result<NewDevice, E> = wait_for_new_device();
    assert(call_ensures(wait_for_new_device, (), waited));
    let new_device: NewDevice = match waited {
        Ok(device) => device,
        Err(error) => {
            return Err(error);
        },
    };
    let finished: Result<Output, E> = finish(pending, &new_device);
    assert(call_ensures(finish, (pending, &new_device), finished));
    match finished {
        Ok(output) => Ok((output, new_device)),
        Err(error) => Err(error),
    }
}

/// `result` is what the second half of a reset came to.
pub open spec fn is_completion_of<Pending, NewDevice, Output, E, Wait, Finish>(
    wait_for_new_device: Wait,
    finish: Finish,
    pending: Pending,
    result: Result<(Output, NewDevice), E>,
) -> bool where
    Wait: FnOnce() -> Result<NewDevice, E>,
    Finish: FnOnce(Pending, &NewDevice) -> Result<Output, E>,
 {
    exists|waited: Result<NewDevice, E>| #[trigger]
        call_ensures(wait_for_new_device, (), waited) && match waited {
            Err(error) => result == Err::<(Output, NewDevice), E>(error),
            Ok(device) => exists|finished: Result<Output, E>| #[trigger]
                call_ensures(finish, (pending, &device), finished) && result == (match finished {
                    Ok(output) => Ok::<(Output, NewDevice), E>((output, device)),
                    Err(error) => Err(error),
                }),
        }
}

impl BootstrapError {
    pub open spec fn message_spec(&self) -> Seq<char> {
        match self {
            BootstrapError::Firmware(error) => error.message_spec(),
            BootstrapError::MetadataNotText { message } => message@,
            BootstrapError::UnexpectedMetadata { found } => {
                "unexpected APP firmware metadata: expected GFUSB_GM168SEC_APP_15045, found "@
                    + found@
            },
            BootstrapError::MetadataMismatch { found } => {
                "firmware resource metadata mismatch: expected GFUSB_GM168SEC_APP_15045, found "@
                    + found@
            },
            BootstrapError::InexactFirmware => {
                "firmware resource failed exact GM168SEC APP15045 bootstrap regression"@
            },
            BootstrapError::NotIap { reported } => {
                "cold bootstrap requires IAP MILAN_GM168SEC_IAP_10007, device reported "@
                    + reported@
            },
            BootstrapError::PskMismatch => "persisted Goodix PSK failed SHA-256 verification"@,
            BootstrapError::AppVersionMismatch { expected, found } => {
                "post-bootstrap APP version mismatch: expected "@ + expected@ + ", found "@
                    + found@
            },
            BootstrapError::UnexpectedChipId { chip_id } => {
                "post-bootstrap chip ID mismatch: expected 0x002503a8, found 0x"@
                    + text::hex(*chip_id as nat, 8)
            },
            BootstrapError::OutOfOrder => "cold bootstrap event out of order"@,
        }
    }

    /// The message of this error.
    pub fn message(&self) -> (text: String)
        ensures
            text@ == self.message_spec(),
    {
        match self {
            BootstrapError::Firmware(error) => error.message(),
            BootstrapError::MetadataNotText { message } => message.as_str().to_owned(),
            BootstrapError::UnexpectedMetadata { found } => {
                let mut out: String =
                    "unexpected APP firmware metadata: expected GFUSB_GM168SEC_APP_15045, found ".to_owned();
                out.append(found.as_str());
                out
            },
            BootstrapError::MetadataMismatch { found } => {
                let mut out: String =
                    "firmware resource metadata mismatch: expected GFUSB_GM168SEC_APP_15045, found ".to_owned();
                out.append(found.as_str());
                out
            },
            BootstrapError::InexactFirmware => {
                "firmware resource failed exact GM168SEC APP15045 bootstrap regression".to_owned()
            },
            BootstrapError::NotIap { reported } => {
                let mut out: String =
                    "cold bootstrap requires IAP MILAN_GM168SEC_IAP_10007, device reported ".to_owned();
                out.append(reported.as_str());
                out
            },
            BootstrapError::PskMismatch => {
                "persisted Goodix PSK failed SHA-256 verification".to_owned()
            },
            BootstrapError::AppVersionMismatch { expected, found } => {
                let mut out: String = "post-bootstrap APP version mismatch: expected ".to_owned();
                out.append(expected.as_str());
                out.append(", found ");
                out.append(found.as_str());
                out
            },
            BootstrapError::UnexpectedChipId { chip_id } => {
                let mut out: String =
                    "post-bootstrap chip ID mismatch: expected 0x002503a8, found 0x".to_owned();
                text::push_hex(&mut out, *chip_id as u64, 8);
                out
            },
            BootstrapError::OutOfOrder => "cold bootstrap event out of order".to_owned(),
        }
    }
}

} // verus!
