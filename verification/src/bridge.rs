//! The boundary towards a C driver: plain records, status codes and texts, and
//! the checks of its arguments. A null pointer is `None`.
use vstd::prelude::*;

use crate::bootstrap::{EXPECTED_APP_VERSION, EXPECTED_IAP_VERSION};
use crate::chicago_h::ChicagoHConfig;
use crate::firmware::WriteAppTransferResult;

verus! {

pub const STATUS_OK: i32 = 0;

pub const STATUS_INVALID_ARGUMENT: i32 = -1;

pub const STATUS_BUFFER_TOO_SMALL: i32 = -2;

pub const STATUS_PROTOCOL_ERROR: i32 = -3;

pub const FIRMWARE_APP15045: u32 = 1;

pub const FIRMWARE_IAP10007: u32 = 2;

pub const ENROLL_RETRY: u32 = 1;

pub const ENROLL_PROGRESS: u32 = 2;

pub const ENROLL_COMPLETE: u32 = 3;

pub const VERIFY_RETRY: u32 = 1;

pub const VERIFY_MATCH: u32 = 2;

pub const VERIFY_NO_MATCH: u32 = 3;

/// Length of a request on the wire.
pub const USB_OUT_BLOCK_SIZE: usize = 64;

/// Text of a status.
pub fn goodix550a_bridge_status_message(status: i32) -> (text: &'static str)
    ensures
        text@ == (if status == STATUS_OK {
            "ok"@
        } else if status == STATUS_INVALID_ARGUMENT {
            "invalid bridge argument"@
        } else if status == STATUS_BUFFER_TOO_SMALL {
            "bridge output buffer is too small"@
        } else if status == STATUS_PROTOCOL_ERROR {
            "Goodix Rust wire parser rejected the packet"@
        } else {
            "unknown bridge status"@
        }),
{
    if status == STATUS_OK {
        "ok"
    } else if status == STATUS_INVALID_ARGUMENT {
        "invalid bridge argument"
    } else if status == STATUS_BUFFER_TOO_SMALL {
        "bridge output buffer is too small"
    } else if status == STATUS_PROTOCOL_ERROR {
        "Goodix Rust wire parser rejected the packet"
    } else {
        "unknown bridge status"
    }
}

/// Version of a firmware code.
pub fn goodix550a_bridge_firmware_name(firmware: u32) -> (text: &'static str)
    ensures
        text@ == (if firmware == FIRMWARE_APP15045 {
            EXPECTED_APP_VERSION@
        } else if firmware == FIRMWARE_IAP10007 {
            EXPECTED_IAP_VERSION@
        } else {
            "unknown"@
        }),
{
    if firmware == FIRMWARE_APP15045 {
        EXPECTED_APP_VERSION
    } else if firmware == FIRMWARE_IAP10007 {
        EXPECTED_IAP_VERSION
    } else {
        "unknown"
    }
}

/// The firmware that a sensor identified itself with.
#[derive(Debug, Clone, Copy, PartialEq, Eq)]
pub enum FirmwareIdentity {
    App15045,
    Iap10007,
}

/// Code of a firmware.
pub fn firmware_code(identity: FirmwareIdentity) -> (code: u32)
    ensures
        code == (match identity {
            FirmwareIdentity::App15045 => FIRMWARE_APP15045,
            FirmwareIdentity::Iap10007 => FIRMWARE_IAP10007,
        }),
{
    match identity {
        FirmwareIdentity::App15045 => FIRMWARE_APP15045,
        FirmwareIdentity::Iap10007 => FIRMWARE_IAP10007,
    }
}

/// `1` for true.
pub open spec fn flag_spec(value: bool) -> u8 {
    if value {
        1
    } else {
        0
    }
}

fn flag(value: bool) -> (byte: u8)
    ensures
        byte == flag_spec(value),
{
    if value {
        1
    } else {
        0
    }
}

#[derive(Debug, Clone, Copy, PartialEq, Eq)]
pub struct Goodix550aBridgeAck {
    pub flags: u8,
    pub mcu_power_lost: u8,
}

impl Goodix550aBridgeAck {
    pub fn new(flags: u8, mcu_power_lost: bool) -> (ack: Self)
        ensures
            ack == (Goodix550aBridgeAck { flags, mcu_power_lost: flag_spec(mcu_power_lost) }),
    {
        Goodix550aBridgeAck { flags, mcu_power_lost: flag(mcu_power_lost) }
    }
}

/// A transfer that an engine asks for.
#[derive(Debug, Clone, Copy, PartialEq, Eq)]
pub struct EngineAction {
    pub direction: u32,
    pub stage: u32,
    pub transfer_length: usize,
    pub timeout_ms: u32,
    pub endpoint: u8,
    pub short_is_error: bool,
}

#[derive(Debug, Clone, Copy, PartialEq, Eq)]
pub struct Goodix550aBridgeBootstrapAction {
    pub direction: u32,
    pub stage: u32,
    pub transfer_length: usize,
    pub timeout_ms: u32,
    pub endpoint: u8,
    pub short_is_error: u8,
    pub reserved: u16,
}

impl Goodix550aBridgeBootstrapAction {
    pub fn new(next: EngineAction) -> (action: Self)
        ensures
            action == (Goodix550aBridgeBootstrapAction {
                direction: next.direction,
                stage: next.stage,
                transfer_length: next.transfer_length,
                timeout_ms: next.timeout_ms,
                endpoint: next.endpoint,
                short_is_error: flag_spec(next.short_is_error),
                reserved: 0,
            }),
    {
        Goodix550aBridgeBootstrapAction {
            direction: next.direction,
            stage: next.stage,
            transfer_length: next.transfer_length,
            timeout_ms: next.timeout_ms,
            endpoint: next.endpoint,
            short_is_error: flag(next.short_is_error),
            reserved: 0,
        }
    }
}

#[derive(Debug, Clone, Copy, PartialEq, Eq)]
pub struct Goodix550aBridgeRecoveryAction {
    pub direction: u32,
    pub stage: u32,
    pub transfer_length: usize,
    pub timeout_ms: u32,
    pub endpoint: u8,
    pub short_is_error: u8,
    pub reserved: u16,
}

impl Goodix550aBridgeRecoveryAction {
    pub fn new(next: EngineAction) -> (action: Self)
        ensures
            action == (Goodix550aBridgeRecoveryAction {
                direction: next.direction,
                stage: next.stage,
                transfer_length: next.transfer_length,
                timeout_ms: next.timeout_ms,
                endpoint: next.endpoint,
                short_is_error: flag_spec(next.short_is_error),
                reserved: 0,
            }),
    {
        Goodix550aBridgeRecoveryAction {
            direction: next.direction,
            stage: next.stage,
            transfer_length: next.transfer_length,
            timeout_ms: next.timeout_ms,
            endpoint: next.endpoint,
            short_is_error: flag(next.short_is_error),
            reserved: 0,
        }
    }
}

#[derive(Debug, Clone, Copy, PartialEq, Eq)]
pub struct Goodix550aBridgeCaptureAction {
    pub direction: u32,
    pub stage: u32,
    pub transfer_length: usize,
    pub timeout_ms: u32,
    pub endpoint: u8,
    pub short_is_error: u8,
    pub reserved: u16,
}

impl Goodix550aBridgeCaptureAction {
    pub fn new(next: EngineAction) -> (action: Self)
        ensures
            action == (Goodix550aBridgeCaptureAction {
                direction: next.direction,
                stage: next.stage,
                transfer_length: next.transfer_length,
                timeout_ms: next.timeout_ms,
                endpoint: next.endpoint,
                short_is_error: flag_spec(next.short_is_error),
                reserved: 0,
            }),
    {
        Goodix550aBridgeCaptureAction {
            direction: next.direction,
            stage: next.stage,
            transfer_length: next.transfer_length,
            timeout_ms: next.timeout_ms,
            endpoint: next.endpoint,
            short_is_error: flag(next.short_is_error),
            reserved: 0,
        }
    }
}

#[derive(Debug, Clone, Copy, PartialEq, Eq)]
pub struct Goodix550aBridgeEnrollmentAction {
    pub direction: u32,
    pub stage: u32,
    pub transfer_length: usize,
    pub timeout_ms: u32,
    pub endpoint: u8,
    pub short_is_error: u8,
    pub reserved: u16,
}

impl Goodix550aBridgeEnrollmentAction {
    pub fn new(next: EngineAction) -> (action: Self)
        ensures
            action == (Goodix550aBridgeEnrollmentAction {
                direction: next.direction,
                stage: next.stage,
                transfer_length: next.transfer_length,
                timeout_ms: next.timeout_ms,
                endpoint: next.endpoint,
                short_is_error: flag_spec(next.short_is_error),
                reserved: 0,
            }),
    {
        Goodix550aBridgeEnrollmentAction {
            direction: next.direction,
            stage: next.stage,
            transfer_length: next.transfer_length,
            timeout_ms: next.timeout_ms,
            endpoint: next.endpoint,
            short_is_error: flag(next.short_is_error),
            reserved: 0,
        }
    }
}

#[derive(Debug, Clone, Copy, PartialEq, Eq)]
pub struct Goodix550aBridgeVerificationAction {
    pub direction: u32,
    pub stage: u32,
    pub transfer_length: usize,
    pub timeout_ms: u32,
    pub endpoint: u8,
    pub short_is_error: u8,
    pub reserved: u16,
}

impl Goodix550aBridgeVerificationAction {
    pub fn new(next: EngineAction) -> (action: Self)
        ensures
            action == (Goodix550aBridgeVerificationAction {
                direction: next.direction,
                stage: next.stage,
                transfer_length: next.transfer_length,
                timeout_ms: next.timeout_ms,
                endpoint: next.endpoint,
                short_is_error: flag_spec(next.short_is_error),
                reserved: 0,
            }),
    {
        Goodix550aBridgeVerificationAction {
            direction: next.direction,
            stage: next.stage,
            transfer_length: next.transfer_length,
            timeout_ms: next.timeout_ms,
            endpoint: next.endpoint,
            short_is_error: flag(next.short_is_error),
            reserved: 0,
        }
    }
}

#[derive(Debug, Clone, Copy, PartialEq, Eq)]
pub struct Goodix550aBridgeBootstrapInfo {
    pub f0_chunks_sent: usize,
    pub firmware_check_result: u32,
}

impl Goodix550aBridgeBootstrapInfo {
    pub fn new(result: WriteAppTransferResult) -> (info: Self)
        ensures
            info.f0_chunks_sent == result.f0_chunks_sent,
            info.firmware_check_result == result.firmware_check_result,
    {
        Goodix550aBridgeBootstrapInfo {
            f0_chunks_sent: result.f0_chunks_sent,
            firmware_check_result: result.firmware_check_result as u32,
        }
    }
}

#[derive(Debug, Clone, Copy, PartialEq, Eq)]
pub struct Goodix550aBridgeRecoveryInfo {
    pub tcode: u16,
    pub diff: u16,
    pub fdt_offset: u8,
    pub reserved: u8,
    pub checksum: u16,
}

impl Goodix550aBridgeRecoveryInfo {
    pub fn new(config: &ChicagoHConfig) -> (info: Self)
        ensures
            info == (Goodix550aBridgeRecoveryInfo {
                tcode: config.calibration.tcode,
                diff: config.calibration.diff,
                fdt_offset: config.calibration.fdt_offset,
                reserved: 0,
                checksum: config.checksum,
            }),
    {
        Goodix550aBridgeRecoveryInfo {
            tcode: config.calibration.tcode,
            diff: config.calibration.diff,
            fdt_offset: config.calibration.fdt_offset,
            reserved: 0,
            checksum: config.checksum,
        }
    }
}

#[derive(Debug, Clone, Copy, PartialEq, Eq)]
pub struct Goodix550aBridgeCaptureInfo {
    pub protected_bytes: usize,
    pub pixel_count: usize,
    pub stored_crc: u32,
}

#[derive(Debug, Clone, Copy, PartialEq, Eq)]
pub enum EnrollmentDisposition {
    Retry,
    Progress,
    Complete,
}

#[derive(Debug, Clone, Copy, PartialEq, Eq)]
pub struct Goodix550aBridgeEnrollmentInfo {
    pub disposition: u32,
    pub sample_count: usize,
    pub progress_percent: usize,
    pub protected_bytes: usize,
    pub pixel_count: usize,
    pub stored_crc: u32,
    pub tgla_bytes: usize,
}

impl Goodix550aBridgeEnrollmentInfo {
    pub fn new(
        disposition: EnrollmentDisposition,
        sample_count: usize,
        progress_percent: usize,
        capture: Goodix550aBridgeCaptureInfo,
        tgla_bytes: usize,
    ) -> (info: Self)
        ensures
            info == (Goodix550aBridgeEnrollmentInfo {
                disposition: match disposition {
                    EnrollmentDisposition::Retry => ENROLL_RETRY,
                    EnrollmentDisposition::Progress => ENROLL_PROGRESS,
                    EnrollmentDisposition::Complete => ENROLL_COMPLETE,
                },
                sample_count,
                progress_percent,
                protected_bytes: capture.protected_bytes,
                pixel_count: capture.pixel_count,
                stored_crc: capture.stored_crc,
                tgla_bytes,
            }),
    {
        let disposition: u32 = match disposition {
            EnrollmentDisposition::Retry => ENROLL_RETRY,
            EnrollmentDisposition::Progress => ENROLL_PROGRESS,
            EnrollmentDisposition::Complete => ENROLL_COMPLETE,
        };
        Goodix550aBridgeEnrollmentInfo {
            disposition,
            sample_count,
            progress_percent,
            protected_bytes: capture.protected_bytes,
            pixel_count: capture.pixel_count,
            stored_crc: capture.stored_crc,
            tgla_bytes,
        }
    }
}

#[derive(Debug, Clone, Copy, PartialEq, Eq)]
pub enum VerificationDisposition {
    Retry,
    Match,
    NoMatch,
}

#[derive(Debug, Clone, Copy, PartialEq, Eq)]
pub struct Goodix550aBridgeVerificationInfo {
    pub disposition: u32,
    pub score: i32,
    pub protected_bytes: usize,
    pub pixel_count: usize,
    pub stored_crc: u32,
}

impl Goodix550aBridgeVerificationInfo {
    pub fn new(
        disposition: VerificationDisposition,
        score: i32,
        capture: Goodix550aBridgeCaptureInfo,
    ) -> (info: Self)
        ensures
            info == (Goodix550aBridgeVerificationInfo {
                disposition: match disposition {
                    VerificationDisposition::Retry => VERIFY_RETRY,
                    VerificationDisposition::Match => VERIFY_MATCH,
                    VerificationDisposition::NoMatch => VERIFY_NO_MATCH,
                },
                score,
                protected_bytes: capture.protected_bytes,
                pixel_count: capture.pixel_count,
                stored_crc: capture.stored_crc,
            }),
    {
        let disposition: u32 = match disposition {
            VerificationDisposition::Retry => VERIFY_RETRY,
            VerificationDisposition::Match => VERIFY_MATCH,
            VerificationDisposition::NoMatch => VERIFY_NO_MATCH,
        };
        Goodix550aBridgeVerificationInfo {
            disposition,
            score,
            protected_bytes: capture.protected_bytes,
            pixel_count: capture.pixel_count,
            stored_crc: capture.stored_crc,
        }
    }
}

/// The text that can cross the boundary: a text with a NUL in it cannot.
pub open spec fn crossing_text(text: Seq<char>) -> Seq<char> {
    if text.contains('\0') {
        "bridge error contained NUL"@
    } else {
        text
    }
}

/// Replaces a text that cannot cross the boundary.
pub fn boundary_text(text: &str) -> (crossing: String)
    ensures
        crossing@ == crossing_text(text@),
{
    let count: usize = text.unicode_len();
    for i in 0..count
        invariant
            count == text@.len(),
            forall|j: int| 0 <= j < i ==> #[trigger] text@[j] != '\0',
    {
        if text.get_char(i) == '\0' {
            assert(text@[i as int] == '\0');
            return "bridge error contained NUL".to_owned();
        }
    }
    text.to_owned()
}

/// An engine that the C driver holds, with the text of its last error.
#[derive(Debug, Clone, PartialEq, Eq)]
pub struct BridgeHandle<E> {
    pub engine: E,
    pub last_error: String,
}

/// Hands out an engine that was made from the caller's bytes. `input` is the
/// length of these bytes.
pub fn bridge_new_from<E>(
    input: Option<usize>,
    handle_given: bool,
    engine: Result<E, String>,
) -> (result: Result<BridgeHandle<E>, i32>)
    ensures
        if input is None || input->Some_0 == 0 || !handle_given {
            result == Err::<BridgeHandle<E>, i32>(STATUS_INVALID_ARGUMENT)
        } else {
            match engine {
                Err(_) => result == Err::<BridgeHandle<E>, i32>(STATUS_PROTOCOL_ERROR),
                Ok(engine) => {
                    &&& result is Ok
                    &&& result->Ok_0.engine == engine
                    &&& result->Ok_0.last_error@ == "ok"@
                },
            }
        },
{
    match input {
        Some(length) => {
            if length == 0 {
                return Err(STATUS_INVALID_ARGUMENT);
            }
        },
        None => {
            return Err(STATUS_INVALID_ARGUMENT);
        },
    }
    bridge_new(handle_given, engine)
}

/// Hands out an engine.
pub fn bridge_new<E>(handle_given: bool, engine: Result<E, String>) -> (result: Result<
    BridgeHandle<E>,
    i32,
>)
    ensures
        if !handle_given {
            result == Err::<BridgeHandle<E>, i32>(STATUS_INVALID_ARGUMENT)
        } else {
            match engine {
                Err(_) => result == Err::<BridgeHandle<E>, i32>(STATUS_PROTOCOL_ERROR),
                Ok(engine) => {
                    &&& result is Ok
                    &&& result->Ok_0.engine == engine
                    &&& result->Ok_0.last_error@ == "ok"@
                },
            }
        },
{
    if !handle_given {
        return Err(STATUS_INVALID_ARGUMENT);
    }
    match engine {
        Ok(engine) => Ok(BridgeHandle { engine, last_error: "ok".to_owned() }),
        Err(_) => Err(STATUS_PROTOCOL_ERROR),
    }
}

impl<E> BridgeHandle<E> {
    /// Keeps the text of an error, and returns its status.
    pub fn record_error(&mut self, error: &str) -> (status: i32)
        ensures
            status == STATUS_PROTOCOL_ERROR,
            final(self).engine == old(self).engine,
            final(self).last_error@ == crossing_text(error@),
    {
        self.last_error = boundary_text(error);
        STATUS_PROTOCOL_ERROR
    }

    /// The value that an engine call came to, or the status of its error, which
    /// is kept.
    pub fn settle<T>(&mut self, outcome: Result<T, String>) -> (result: Result<T, i32>)
        ensures
            final(self).engine == old(self).engine,
            match outcome {
                Ok(value) => {
                    &&& result == Ok::<T, i32>(value)
                    &&& final(self).last_error@ == old(self).last_error@
                },
                Err(error) => {
                    &&& result == Err::<T, i32>(STATUS_PROTOCOL_ERROR)
                    &&& final(self).last_error@ == crossing_text(error@)
                },
            },
    {
        match outcome {
            Ok(value) => Ok(value),
            Err(error) => Err(self.record_error(error.as_str())),
        }
    }

    /// Bytes for a caller's buffer of the given capacity.
    pub fn copy_out(&mut self, bytes: Result<Vec<u8>, String>, capacity: usize) -> (result: Result<
        Vec<u8>,
        i32,
    >)
        ensures
            final(self).engine == old(self).engine,
            match bytes {
                Err(error) => {
                    &&& result == Err::<Vec<u8>, i32>(STATUS_PROTOCOL_ERROR)
                    &&& final(self).last_error@ == crossing_text(error@)
                },
                Ok(bytes) => {
                    &&& final(self).last_error@ == old(self).last_error@
                    &&& if capacity < bytes@.len() {
                        result == Err::<Vec<u8>, i32>(STATUS_BUFFER_TOO_SMALL)
                    } else {
                        result == Ok::<Vec<u8>, i32>(bytes)
                    }
                },
            },
    {
        match self.settle(bytes) {
            Ok(bytes) => {
                if capacity < bytes.len() {
                    return Err(STATUS_BUFFER_TOO_SMALL);
                }
                Ok(bytes)
            },
            Err(status) => Err(status),
        }
    }
}

/// Text of the last error of a handle.
pub fn bridge_last_error<E>(handle: Option<&BridgeHandle<E>>) -> (text: &str)
    ensures
        text@ == (match handle {
            None => "invalid bridge argument"@,
            Some(handle) => handle.last_error@,
        }),
{
    match handle {
        None => "invalid bridge argument",
        Some(handle) => handle.last_error.as_str(),
    }
}

/// A request for a caller's buffer of the given capacity.
pub fn bridge_request(
    capacity: Option<usize>,
    request: Result<[u8; 64], String>,
) -> (result: Result<[u8; 64], i32>)
    ensures
        result == (match capacity {
            None => Err(STATUS_INVALID_ARGUMENT),
            Some(capacity) => if capacity < USB_OUT_BLOCK_SIZE {
                Err::<[u8; 64], i32>(STATUS_BUFFER_TOO_SMALL)
            } else {
                match request {
                    Ok(request) => Ok(request),
                    Err(_) => Err(STATUS_PROTOCOL_ERROR),
                }
            },
        }),
{
    match capacity {
        None => Err(STATUS_INVALID_ARGUMENT),
        Some(capacity) => {
            if capacity < USB_OUT_BLOCK_SIZE {
                return Err(STATUS_BUFFER_TOO_SMALL);
            }
            match request {
                Ok(request) => Ok(request),
                Err(_) => Err(STATUS_PROTOCOL_ERROR),
            }
        },
    }
}

/// What a parser made of the caller's bytes. An empty input is no input.
pub fn bridge_parse<T, P>(input: Option<&[u8]>, output_given: bool, parse: &P) -> (result: Result<
    T,
    i32,
>) where P: Fn(&[u8]) -> Result<T, String>
    requires
        forall|bytes: &[u8]| #[trigger] call_requires(*parse, (bytes,)),
    ensures
        if input is None || input->Some_0@.len() == 0 || !output_given {
            result == Err::<T, i32>(STATUS_INVALID_ARGUMENT)
        } else {
            exists|parsed: Result<T, String>| #[trigger]
                call_ensures(*parse, (input->Some_0,), parsed) && result == (match parsed {
                    Ok(value) => Ok::<T, i32>(value),
                    Err(_) => Err(STATUS_PROTOCOL_ERROR),
                })
        },
{
    match input {
        None => Err(STATUS_INVALID_ARGUMENT),
        Some(bytes) => {
            if bytes.len() == 0 || !output_given {
                return Err(STATUS_INVALID_ARGUMENT);
            }
            let parsed: Result<T, String> = parse(bytes);
            assert(call_ensures(*parse, (bytes,), parsed));
            match parsed {
                Ok(value) => Ok(value),
                Err(_) => Err(STATUS_PROTOCOL_ERROR),
            }
        },
    }
}

/// Checks the arguments of an engine call: the handle and the record to fill are
/// needed, a buffer only if it has a length.
pub fn bridge_call_status(
    handle_given: bool,
    record_given: bool,
    buffer_given: bool,
    buffer_length: usize,
) -> (status: i32)
    ensures
        status == (if handle_given && record_given && (buffer_length == 0 || buffer_given) {
            STATUS_OK
        } else {
            STATUS_INVALID_ARGUMENT
        }),
{
    if handle_given && record_given && (buffer_length == 0 || buffer_given) {
        STATUS_OK
    } else {
        STATUS_INVALID_ARGUMENT
    }
}

} // verus!
