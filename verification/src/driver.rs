//! Device sessions and the transactions built on them: what the reported
//! firmware calls for, how a captured payload becomes a frame, and how frames
//! drive enrollment and verification.
use vstd::prelude::*;

use crate::bootstrap::{ColdBootstrapResult, EXPECTED_APP_VERSION, EXPECTED_IAP_VERSION};
use crate::crypto;
use crate::crypto::{decrypt_image, ImageSession};
use crate::device::UsbLayout;
use crate::enrollment;
use crate::enrollment::{
    Gf3258EnrollmentArtifacts, Gf3258EnrollmentCommit, Gf3258EnrollmentFrameOutcome,
    Gf3258EnrollmentGraphDiagnostics, Gf3258EnrollmentPreparation, Gf3258EnrollmentWorkflow,
    Gf3258EnrollmentWorkflowError, Gf3258FreshTglaNode, Gf3258PreparedEnrollmentSample,
    Gf3258PreprocessedFrame, GF3258_ENROLLMENT_TARGET_SAMPLES,
};
use crate::enrollment_add;
use crate::enrollment_add::{Gf3258EnrollmentTemplateCore, Gf3258RegistrationEngine};
use crate::enrollment_graph::Gf3258EnrollmentSample;
use crate::feature::extraction;
use crate::feature::GF3258_PIXELS;
use crate::feature_enrollment::{
    GF3258_ENROLLMENT_CONFIGURED_MAX_SAMPLES, GF3258_ENROLLMENT_STORAGE_CAPACITY,
};
use crate::registration::{
    Gf3258AffineQ8, Gf3258MapOps, Gf3258PointRegistration, Gf3258RegistrationMapScores,
    Gf3258RegistrationPoint,
};
use crate::text;

verus! {

/// Application build that sessions are made for.
pub const GF3258_SUPPORTED_APP_FIRMWARE: &'static str = EXPECTED_APP_VERSION;

/// Loader build that sessions can be bootstrapped from.
pub const GF3258_SUPPORTED_IAP_FIRMWARE: &'static str = EXPECTED_IAP_VERSION;

/// How a session reached the application.
#[derive(Debug, Clone, Copy, PartialEq, Eq)]
pub enum Gf3258SessionStartup {
    AlreadyApp,
    ColdBootstrapped { chip_id: u32, f0_chunks_sent: usize, firmware_check_result: u8 },
}

impl Gf3258SessionStartup {
    /// The startup of a completed bootstrap.
    pub fn from_bootstrap(result: &ColdBootstrapResult) -> (startup: Self)
        ensures
            startup == (Gf3258SessionStartup::ColdBootstrapped {
                chip_id: result.chip_id,
                f0_chunks_sent: result.f0_chunks_sent,
                firmware_check_result: result.firmware_check_result,
            }),
    {
        Gf3258SessionStartup::ColdBootstrapped {
            chip_id: result.chip_id,
            f0_chunks_sent: result.f0_chunks_sent,
            firmware_check_result: result.firmware_check_result,
        }
    }
}

/// Endpoints of a session.
#[derive(Debug, Clone, Copy, PartialEq, Eq)]
pub struct Gf3258UsbLayout {
    pub interface: u8,
    pub bulk_in: u8,
    pub bulk_out: u8,
    pub max_packet_size: u16,
}

impl Gf3258UsbLayout {
    pub fn interface(self) -> (interface: u8)
        ensures
            interface == self.interface,
    {
        self.interface
    }

    pub fn bulk_in(self) -> (address: u8)
        ensures
            address == self.bulk_in,
    {
        self.bulk_in
    }

    pub fn bulk_out(self) -> (address: u8)
        ensures
            address == self.bulk_out,
    {
        self.bulk_out
    }

    pub fn max_packet_size(self) -> (size: u16)
        ensures
            size == self.max_packet_size,
    {
        self.max_packet_size
    }
}

impl From<UsbLayout> for Gf3258UsbLayout {
    fn from(value: UsbLayout) -> Self {
        Gf3258UsbLayout {
            interface: value.interface,
            bulk_in: value.bulk_in,
            bulk_out: value.bulk_out,
            max_packet_size: value.max_packet_size,
        }
    }
}

impl vstd::std_specs::convert::FromSpecImpl<UsbLayout> for Gf3258UsbLayout {
    open spec fn obeys_from_spec() -> bool {
        true
    }

    open spec fn from_spec(value: UsbLayout) -> Self {
        Gf3258UsbLayout {
            interface: value.interface,
            bulk_in: value.bulk_in,
            bulk_out: value.bulk_out,
            max_packet_size: value.max_packet_size,
        }
    }
}

/// Stage at which a session failed.
#[derive(Debug, Clone, Copy, PartialEq, Eq)]
pub enum Gf3258SessionStage {
    OpenUsb,
    ReadVersion,
    ColdBootstrap,
    RestoreVolatileConfig,
    GenerateImageSession,
    InstallImageSession,
    FingerDown,
    ReadImage,
    FingerUp,
    ParseProtectedImage,
    DecryptImage,
    ValidateImageCrc,
    ReconstructImage,
}

#[derive(Debug, Clone, PartialEq, Eq)]
pub enum Gf3258SessionError {
    Stage { stage: Gf3258SessionStage, message: String },
    /// The sensor runs its loader, and no firmware was given.
    BootstrapFirmwareRequired { current: String },
    UnsupportedFirmware { expected: &'static str, actual: String },
    /// A boot image came in place of a fingerprint.
    BootImage,
    UnexpectedPixelCount { expected: usize, actual: usize },
}

impl Gf3258SessionError {
    /// The failure of a stage with the given message.
    pub fn stage(stage: Gf3258SessionStage, message: String) -> (error: Self)
        ensures
            error == (Gf3258SessionError::Stage { stage, message }),
    {
        Gf3258SessionError::Stage { stage, message }
    }
}

/// What a session does about the reported firmware.
#[derive(Debug, Clone, Copy, PartialEq, Eq)]
pub enum Gf3258OpenPlan {
    UseApp,
    ColdBootstrap,
}

/// The plan for a reported version where firmware is at hand.
pub open spec fn open_plan_spec(version: String) -> Result<Gf3258OpenPlan, Gf3258SessionError> {
    if version@ == GF3258_SUPPORTED_APP_FIRMWARE@ {
        Ok(Gf3258OpenPlan::UseApp)
    } else if version@ != GF3258_SUPPORTED_IAP_FIRMWARE@ {
        Err(
            Gf3258SessionError::UnsupportedFirmware {
                expected: GF3258_SUPPORTED_APP_FIRMWARE,
                actual: version,
            },
        )
    } else {
        Ok(Gf3258OpenPlan::ColdBootstrap)
    }
}

/// Plans the opening of a session with firmware at hand: a running application
/// is used, the loader is bootstrapped, everything else is refused.
pub fn plan_open_with_firmware(version: String) -> (plan: Result<
    Gf3258OpenPlan,
    Gf3258SessionError,
>)
    ensures
        plan == open_plan_spec(version),
{
    if text::same_text(version.as_str(), GF3258_SUPPORTED_APP_FIRMWARE) {
        return Ok(Gf3258OpenPlan::UseApp);
    }
    if !text::same_text(version.as_str(), GF3258_SUPPORTED_IAP_FIRMWARE) {
        return Err(
            Gf3258SessionError::UnsupportedFirmware {
                expected: GF3258_SUPPORTED_APP_FIRMWARE,
                actual: version,
            },
        );
    }
    Ok(Gf3258OpenPlan::ColdBootstrap)
}

/// Checks the firmware of a session without firmware at hand.
pub fn check_open_without_firmware(version: String) -> (result: Result<(), Gf3258SessionError>)
    ensures
        result == (match open_plan_spec(version) {
            Ok(Gf3258OpenPlan::UseApp) => Ok::<(), Gf3258SessionError>(()),
            Ok(Gf3258OpenPlan::ColdBootstrap) => Err(
                Gf3258SessionError::BootstrapFirmwareRequired { current: version },
            ),
            Err(error) => Err(error),
        }),
{
    if text::same_text(version.as_str(), GF3258_SUPPORTED_APP_FIRMWARE) {
        return Ok(());
    }
    if text::same_text(version.as_str(), GF3258_SUPPORTED_IAP_FIRMWARE) {
        return Err(Gf3258SessionError::BootstrapFirmwareRequired { current: version });
    }
    Err(
        Gf3258SessionError::UnsupportedFirmware {
            expected: GF3258_SUPPORTED_APP_FIRMWARE,
            actual: version,
        },
    )
}

/// Checks the firmware that a bootstrapped sensor reports.
pub fn check_bootstrapped_version(version: String) -> (result: Result<(), Gf3258SessionError>)
    ensures
        result == (if version@ == GF3258_SUPPORTED_APP_FIRMWARE@ {
            Ok::<(), Gf3258SessionError>(())
        } else {
            Err(
                Gf3258SessionError::UnsupportedFirmware {
                    expected: GF3258_SUPPORTED_APP_FIRMWARE,
                    actual: version,
                },
            )
        }),
{
    if text::same_text(version.as_str(), GF3258_SUPPORTED_APP_FIRMWARE) {
        return Ok(());
    }
    Err(
        Gf3258SessionError::UnsupportedFirmware {
            expected: GF3258_SUPPORTED_APP_FIRMWARE,
            actual: version,
        },
    )
}

/// Diagnostics of one capture.
#[derive(Debug, Clone, Copy, PartialEq, Eq)]
pub struct Gf3258CaptureDiagnostics {
    pub protected_bytes: usize,
    pub stored_crc: u32,
}

impl Gf3258CaptureDiagnostics {
    pub fn protected_bytes(self) -> (count: usize)
        ensures
            count == self.protected_bytes,
    {
        self.protected_bytes
    }

    pub fn stored_crc(self) -> (crc: u32)
        ensures
            crc == self.stored_crc,
    {
        self.stored_crc
    }
}

/// One 80x64 frame.
#[derive(Debug, Clone, PartialEq, Eq)]
pub struct Gf3258CapturedFrame {
    pub raw_u16: Vec<u16>,
    pub diagnostics: Gf3258CaptureDiagnostics,
}

impl Gf3258CapturedFrame {
    pub fn pixels(&self) -> (pixels: &[u16])
        ensures
            pixels@ == self.raw_u16@,
    {
        self.raw_u16.as_slice()
    }

    pub fn diagnostics(&self) -> (diagnostics: Gf3258CaptureDiagnostics)
        ensures
            diagnostics == self.diagnostics,
    {
        self.diagnostics
    }
}

/// A protected image, taken apart.
#[derive(Debug, Clone, PartialEq, Eq)]
pub struct Gf3258ProtectedImage {
    pub boot_image: bool,
    pub ciphertext: Vec<u8>,
    pub stored_crc: u32,
}

/// `result` is what the decrypted image came to: its CRC must be valid and its
/// reconstruction must have one sample per pixel.
pub open spec fn is_reconstruction_of<
    V: Fn(&Gf3258ProtectedImage, &[u8]) -> Result<(), String>,
    R: Fn(&[u8]) -> Result<Vec<u16>, String>,
>(
    result: Result<Gf3258CapturedFrame, Gf3258SessionError>,
    payload_len: nat,
    protected: Gf3258ProtectedImage,
    decrypted: Seq<u8>,
    validate_crc: V,
    restructure: R,
) -> bool {
    exists|checked_bytes: &[u8], checked: Result<(), String>|
        checked_bytes@ == decrypted && #[trigger] call_ensures(
            validate_crc,
            (&protected, checked_bytes),
            checked,
        ) && match checked {
            Err(message) => result == Err::<Gf3258CapturedFrame, Gf3258SessionError>(
                Gf3258SessionError::Stage {
                    stage: Gf3258SessionStage::ValidateImageCrc,
                    message,
                },
            ),
            Ok(()) => exists|bytes: &[u8], raw: Result<Vec<u16>, String>|
                bytes@ == decrypted && #[trigger] call_ensures(restructure, (bytes,), raw)
                    && match raw {
                    Err(message) => result == Err::<Gf3258CapturedFrame, Gf3258SessionError>(
                        Gf3258SessionError::Stage {
                            stage: Gf3258SessionStage::ReconstructImage,
                            message,
                        },
                    ),
                    Ok(raw_u16) => if raw_u16@.len() != GF3258_PIXELS {
                        result == Err::<Gf3258CapturedFrame, Gf3258SessionError>(
                            Gf3258SessionError::UnexpectedPixelCount {
                                expected: GF3258_PIXELS,
                                actual: raw_u16@.len() as usize,
                            },
                        )
                    } else {
                        result == Ok::<Gf3258CapturedFrame, Gf3258SessionError>(
                            Gf3258CapturedFrame {
                                raw_u16,
                                diagnostics: Gf3258CaptureDiagnostics {
                                    protected_bytes: payload_len as usize,
                                    stored_crc: protected.stored_crc,
                                },
                            },
                        )
                    },
                },
        }
}

/// Turns the payload of a captured image into a frame: it is parsed, refused if
/// it is a boot image, decrypted, checked against its CRC, and restructured.
/// Every failure names its stage.
pub fn reconstruct_capture<P, V, R>(
    payload: &[u8],
    image_key: &[u8; 16],
    parse: &P,
    validate_crc: &V,
    restructure: &R,
) -> (result: Result<Gf3258CapturedFrame, Gf3258SessionError>) where
    P: Fn(&[u8]) -> Result<Gf3258ProtectedImage, String>,
    V: Fn(&Gf3258ProtectedImage, &[u8]) -> Result<(), String>,
    R: Fn(&[u8]) -> Result<Vec<u16>, String>,

    requires
        forall|payload: &[u8]| #[trigger] call_requires(*parse, (payload,)),
        forall|image: &Gf3258ProtectedImage, bytes: &[u8]| #[trigger]
            call_requires(*validate_crc, (image, bytes)),
        forall|bytes: &[u8]| #[trigger] call_requires(*restructure, (bytes,)),
    ensures
        exists|parsed: Result<Gf3258ProtectedImage, String>| #[trigger]
            call_ensures(*parse, (payload,), parsed) && match parsed {
                Err(message) => result == Err::<Gf3258CapturedFrame, Gf3258SessionError>(
                    Gf3258SessionError::Stage {
                        stage: Gf3258SessionStage::ParseProtectedImage,
                        message,
                    },
                ),
                Ok(protected) => if protected.boot_image {
                    result == Err::<Gf3258CapturedFrame, Gf3258SessionError>(
                        Gf3258SessionError::BootImage,
                    )
                } else if protected.ciphertext@.len() % crypto::AES_BLOCK_LEN as nat != 0 {
                    match result {
                        Err(Gf3258SessionError::Stage { stage, message }) => {
                            &&& stage == Gf3258SessionStage::DecryptImage
                            &&& message@ == (crypto::CryptoError::CiphertextNotBlockAligned {
                                length: protected.ciphertext@.len() as usize,
                                block_size: crypto::AES_BLOCK_LEN,
                            }).message_spec()
                        },
                        _ => false,
                    }
                } else {
                    is_reconstruction_of(
                        result,
                        payload@.len(),
                        protected,
                        crypto::aes128_cbc_decrypted(
                            protected.ciphertext@,
                            image_key@,
                            crypto::ZERO_IV@,
                        ),
                        *validate_crc,
                        *restructure,
                    )
                },
            },
{
    let parsed: Result<Gf3258ProtectedImage, String> = parse(payload);
    assert(call_ensures(*parse, (payload,), parsed));
    let protected: Gf3258ProtectedImage = match parsed {
        Ok(protected) => protected,
        Err(message) => {
            return Err(
                Gf3258SessionError::stage(Gf3258SessionStage::ParseProtectedImage, message),
            );
        },
    };
    if protected.boot_image {
        return Err(Gf3258SessionError::BootImage);
    }
    let decrypted: Vec<u8> = match decrypt_image(protected.ciphertext.as_slice(), image_key) {
        Ok(decrypted) => decrypted,
        Err(error) => {
            return Err(
                Gf3258SessionError::stage(Gf3258SessionStage::DecryptImage, error.message()),
            );
        },
    };
    frame_of_decrypted(payload.len(), protected, decrypted, validate_crc, restructure)
}

/// Turns a decrypted image into a frame.
pub fn frame_of_decrypted<V, R>(
    payload_len: usize,
    protected: Gf3258ProtectedImage,
    decrypted: Vec<u8>,
    validate_crc: &V,
    restructure: &R,
) -> (result: Result<Gf3258CapturedFrame, Gf3258SessionError>) where
    V: Fn(&Gf3258ProtectedImage, &[u8]) -> Result<(), String>,
    R: Fn(&[u8]) -> Result<Vec<u16>, String>,

    requires
        forall|image: &Gf3258ProtectedImage, bytes: &[u8]| #[trigger]
            call_requires(*validate_crc, (image, bytes)),
        forall|bytes: &[u8]| #[trigger] call_requires(*restructure, (bytes,)),
    ensures
        is_reconstruction_of(
            result,
            payload_len as nat,
            protected,
            decrypted@,
            *validate_crc,
            *restructure,
        ),
{
    let bytes: &[u8] = decrypted.as_slice();
    let checked: Result<(), String> = validate_crc(&protected, bytes);
    assert(call_ensures(*validate_crc, (&protected, bytes), checked));
    match checked {
        Ok(()) => {},
        Err(message) => {
            return Err(Gf3258SessionError::stage(Gf3258SessionStage::ValidateImageCrc, message));
        },
    }
    let raw: Result<Vec<u16>, String> = restructure(bytes);
    assert(call_ensures(*restructure, (bytes,), raw));
    let raw_u16: Vec<u16> = match raw {
        Ok(raw_u16) => raw_u16,
        Err(message) => {
            return Err(Gf3258SessionError::stage(Gf3258SessionStage::ReconstructImage, message));
        },
    };
    if raw_u16.len() != GF3258_PIXELS {
        return Err(
            Gf3258SessionError::UnexpectedPixelCount {
                expected: GF3258_PIXELS,
                actual: raw_u16.len(),
            },
        );
    }
    Ok(
        Gf3258CapturedFrame {
            raw_u16,
            diagnostics: Gf3258CaptureDiagnostics {
                protected_bytes: payload_len,
                stored_crc: protected.stored_crc,
            },
        },
    )
}

#[derive(Debug, Clone, PartialEq, Eq)]
pub enum Gf3258EnrollmentTransactionError {
    Session(Gf3258SessionError),
    Workflow(Gf3258EnrollmentWorkflowError),
    Incomplete { sample_count: usize, target_samples: usize },
}

impl From<Gf3258SessionError> for Gf3258EnrollmentTransactionError {
    fn from(value: Gf3258SessionError) -> Self {
        Gf3258EnrollmentTransactionError::Session(value)
    }
}

impl vstd::std_specs::convert::FromSpecImpl<Gf3258SessionError> for Gf3258EnrollmentTransactionError {
    open spec fn obeys_from_spec() -> bool {
        true
    }

    open spec fn from_spec(value: Gf3258SessionError) -> Self {
        Gf3258EnrollmentTransactionError::Session(value)
    }
}

impl From<Gf3258EnrollmentWorkflowError> for Gf3258EnrollmentTransactionError {
    fn from(value: Gf3258EnrollmentWorkflowError) -> Self {
        Gf3258EnrollmentTransactionError::Workflow(value)
    }
}

impl vstd::std_specs::convert::FromSpecImpl<Gf3258EnrollmentWorkflowError> for Gf3258EnrollmentTransactionError {
    open spec fn obeys_from_spec() -> bool {
        true
    }

    open spec fn from_spec(value: Gf3258EnrollmentWorkflowError) -> Self {
        Gf3258EnrollmentTransactionError::Workflow(value)
    }
}

/// Result of one enrollment touch.
#[derive(Debug, Clone, PartialEq, Eq)]
pub struct Gf3258EnrollmentTouchResult {
    pub capture: Gf3258CaptureDiagnostics,
    pub outcome: Gf3258EnrollmentFrameOutcome,
}

impl Gf3258EnrollmentTouchResult {
    pub fn capture_diagnostics(&self) -> (diagnostics: Gf3258CaptureDiagnostics)
        ensures
            diagnostics == self.capture,
    {
        self.capture
    }

    pub fn outcome(&self) -> (outcome: &Gf3258EnrollmentFrameOutcome)
        ensures
            *outcome == self.outcome,
    {
        &self.outcome
    }
}

/// An enrollment touch that is prepared but not committed.
#[derive(Debug, Clone, PartialEq, Eq)]
pub struct Gf3258DetailedEnrollmentTouch {
    pub capture: Gf3258CaptureDiagnostics,
    pub preparation: Gf3258EnrollmentPreparation,
}

impl Gf3258DetailedEnrollmentTouch {
    pub fn capture_diagnostics(&self) -> (diagnostics: Gf3258CaptureDiagnostics)
        ensures
            diagnostics == self.capture,
    {
        self.capture
    }

    pub fn into_parts(self) -> (parts: (Gf3258CaptureDiagnostics, Gf3258EnrollmentPreparation))
        ensures
            parts == (self.capture, self.preparation),
    {
        (self.capture, self.preparation)
    }
}

/// An enrollment that is driven touch by touch.
#[derive(Debug, Clone, PartialEq, Eq)]
pub struct Gf3258EnrollmentTransaction {
    pub workflow: Gf3258EnrollmentWorkflow,
}

impl Default for Gf3258EnrollmentTransaction {
    fn default() -> (transaction: Self)
        ensures
            transaction.wf(),
            enrollment_add::is_empty_template(
                transaction.workflow.template.state(),
                GF3258_ENROLLMENT_STORAGE_CAPACITY,
                GF3258_ENROLLMENT_CONFIGURED_MAX_SAMPLES,
            ),
    {
        Gf3258EnrollmentTransaction::new()
    }
}

impl Gf3258EnrollmentTransaction {
    pub open spec fn wf(&self) -> bool {
        self.workflow.wf()
    }

    pub open spec fn samples(&self) -> nat {
        self.workflow.template.state().points.len()
    }

    pub fn new() -> (transaction: Self)
        ensures
            transaction.wf(),
            enrollment_add::is_empty_template(
                transaction.workflow.template.state(),
                GF3258_ENROLLMENT_STORAGE_CAPACITY,
                GF3258_ENROLLMENT_CONFIGURED_MAX_SAMPLES,
            ),
    {
        Gf3258EnrollmentTransaction { workflow: Gf3258EnrollmentWorkflow::new() }
    }

    pub fn sample_count(&self) -> (count: usize)
        ensures
            count == self.samples(),
    {
        self.workflow.sample_count()
    }

    pub fn progress_percent(&self) -> (percent: usize)
        requires
            self.wf(),
        ensures
            percent == enrollment::progress_spec(self.samples() as int),
    {
        self.workflow.progress_percent()
    }

    pub fn is_complete(&self) -> (complete: bool)
        ensures
            complete == (self.samples() >= GF3258_ENROLLMENT_TARGET_SAMPLES),
    {
        self.workflow.is_complete()
    }

    pub fn graph_diagnostics(&self) -> (diagnostics: Gf3258EnrollmentGraphDiagnostics)
        requires
            self.wf(),
        ensures
            diagnostics == enrollment::graph_diagnostics_of(self.workflow.template.state()),
    {
        self.workflow.graph_diagnostics()
    }

    /// Prepares a captured and preprocessed touch without touching the template.
    pub fn capture_next_prepared<P, S, L>(
        &self,
        captured: Result<Gf3258CaptureDiagnostics, Gf3258SessionError>,
        preprocessed: Result<Gf3258PreprocessedFrame, String>,
        maps: &Gf3258MapOps<P, S, L>,
    ) -> (result: Result<
        Gf3258DetailedEnrollmentTouch,
        Gf3258EnrollmentTransactionError,
    >) where
        P: Fn(&[u8]) -> [u8; 160],
        S: Fn(&[u8], &[u8]) -> [u8; 160],
        L: Fn(&[u8]) -> [u8; 160],

        requires
            maps.deterministic(),
            enrollment::preparable(preprocessed),
        ensures
            match captured {
                Err(error) => result == Err::<
                    Gf3258DetailedEnrollmentTouch,
                    Gf3258EnrollmentTransactionError,
                >(Gf3258EnrollmentTransactionError::Session(error)),
                Ok(capture) => match result {
                    Ok(touch) => touch.capture == capture && enrollment::is_preparation_of(
                        Ok(touch.preparation),
                        preprocessed,
                        maps,
                    ),
                    Err(Gf3258EnrollmentTransactionError::Workflow(error)) => {
                        enrollment::is_preparation_of(Err(error), preprocessed, maps)
                    },
                    Err(_) => false,
                },
            },
    {
        let capture: Gf3258CaptureDiagnostics = match captured {
            Ok(capture) => capture,
            Err(error) => {
                return Err(Gf3258EnrollmentTransactionError::Session(error));
            },
        };
        match self.workflow.prepare_raw_frame(preprocessed, maps) {
            Ok(preparation) => Ok(Gf3258DetailedEnrollmentTouch { capture, preparation }),
            Err(error) => Err(Gf3258EnrollmentTransactionError::Workflow(error)),
        }
    }

    /// Commits a prepared sample.
    pub fn commit_prepared<R, S, A, I, C, N>(
        &mut self,
        prepared: Gf3258PreparedEnrollmentSample,
        engine: &Gf3258RegistrationEngine<R, S, A, I, C, N>,
    ) -> (result: Result<Gf3258EnrollmentCommit, Gf3258EnrollmentTransactionError>) where
        R: Fn(&[Gf3258RegistrationPoint], &[Gf3258RegistrationPoint]) -> Option<
            Gf3258PointRegistration,
        >,
        S: Fn(&[Gf3258EnrollmentSample], usize, usize, Gf3258AffineQ8) ->
            Gf3258RegistrationMapScores,
        A: Fn(usize, i32, i32) -> bool,
        I: Fn(Gf3258AffineQ8) -> Gf3258AffineQ8,
        C: Fn(Gf3258AffineQ8, Gf3258AffineQ8) -> Gf3258AffineQ8,
        N: Fn(&[u8; 160], &[Gf3258AffineQ8]) -> i32,

        requires
            old(self).wf(),
            engine.deterministic(),
        ensures
            final(self).wf(),
            exists|committed: Result<Gf3258EnrollmentCommit, Gf3258EnrollmentWorkflowError>|
                #[trigger]
                enrollment::is_commit_of(
                    old(self).workflow.template.state(),
                    final(self).workflow.template.state(),
                    engine.model(),
                    prepared.ready,
                    committed,
                ) && result == (match committed {
                    Ok(commit) => Ok::<Gf3258EnrollmentCommit, Gf3258EnrollmentTransactionError>(
                        commit,
                    ),
                    Err(error) => Err(Gf3258EnrollmentTransactionError::Workflow(error)),
                }),
    {
        let ghost before = self.workflow.template.state();
        let ghost ready = prepared.ready;
        let committed: Result<Gf3258EnrollmentCommit, Gf3258EnrollmentWorkflowError> =
            self.workflow.commit_prepared(prepared, engine);
        assert(enrollment::is_commit_of(
            before,
            self.workflow.template.state(),
            engine.model(),
            ready,
            committed,
        ));
        match committed {
            Ok(commit) => Ok(commit),
            Err(error) => Err(Gf3258EnrollmentTransactionError::Workflow(error)),
        }
    }

    /// Takes one captured and preprocessed touch. A failed capture and a
    /// rejected frame leave the enrollment as it is.
    pub fn capture_next<P, Q, L, R, S, A, I, C, N>(
        &mut self,
        captured: Result<Gf3258CaptureDiagnostics, Gf3258SessionError>,
        preprocessed: Result<Gf3258PreprocessedFrame, String>,
        maps: &Gf3258MapOps<P, Q, L>,
        engine: &Gf3258RegistrationEngine<R, S, A, I, C, N>,
    ) -> (result: Result<
        Gf3258EnrollmentTouchResult,
        Gf3258EnrollmentTransactionError,
    >) where
        P: Fn(&[u8]) -> [u8; 160],
        Q: Fn(&[u8], &[u8]) -> [u8; 160],
        L: Fn(&[u8]) -> [u8; 160],
        R: Fn(&[Gf3258RegistrationPoint], &[Gf3258RegistrationPoint]) -> Option<
            Gf3258PointRegistration,
        >,
        S: Fn(&[Gf3258EnrollmentSample], usize, usize, Gf3258AffineQ8) ->
            Gf3258RegistrationMapScores,
        A: Fn(usize, i32, i32) -> bool,
        I: Fn(Gf3258AffineQ8) -> Gf3258AffineQ8,
        C: Fn(Gf3258AffineQ8, Gf3258AffineQ8) -> Gf3258AffineQ8,
        N: Fn(&[u8; 160], &[Gf3258AffineQ8]) -> i32,

        requires
            old(self).wf(),
            maps.deterministic(),
            engine.deterministic(),
            enrollment::preparable(preprocessed),
        ensures
            final(self).wf(),
            match captured {
                Err(error) => {
                    &&& result == Err::<
                        Gf3258EnrollmentTouchResult,
                        Gf3258EnrollmentTransactionError,
                    >(Gf3258EnrollmentTransactionError::Session(error))
                    &&& final(self).workflow.template.state() == old(
                        self,
                    ).workflow.template.state()
                },
                Ok(capture) => exists|
                    preparation: Result<
                        Gf3258EnrollmentPreparation,
                        Gf3258EnrollmentWorkflowError,
                    >,
                | #[trigger]
                    enrollment::is_preparation_of(preparation, preprocessed, maps)
                        && match preparation {
                        Err(error) => {
                            &&& result == Err::<
                                Gf3258EnrollmentTouchResult,
                                Gf3258EnrollmentTransactionError,
                            >(Gf3258EnrollmentTransactionError::Workflow(error))
                            &&& final(self).workflow.template.state() == old(
                                self,
                            ).workflow.template.state()
                        },
                        Ok(Gf3258EnrollmentPreparation::Rejected(rejection)) => {
                            &&& result == Ok::<
                                Gf3258EnrollmentTouchResult,
                                Gf3258EnrollmentTransactionError,
                            >(
                                Gf3258EnrollmentTouchResult {
                                    capture,
                                    outcome: Gf3258EnrollmentFrameOutcome::Rejected(rejection),
                                },
                            )
                            &&& final(self).workflow.template.state() == old(
                                self,
                            ).workflow.template.state()
                        },
                        Ok(Gf3258EnrollmentPreparation::Prepared(prepared)) => exists|
                            committed: Result<
                                Gf3258EnrollmentCommit,
                                Gf3258EnrollmentWorkflowError,
                            >,
                        | #[trigger]
                            enrollment::is_commit_of(
                                old(self).workflow.template.state(),
                                final(self).workflow.template.state(),
                                engine.model(),
                                prepared.ready,
                                committed,
                            ) && result == (match committed {
                                Ok(commit) => Ok::<
                                    Gf3258EnrollmentTouchResult,
                                    Gf3258EnrollmentTransactionError,
                                >(
                                    Gf3258EnrollmentTouchResult {
                                        capture,
                                        outcome: Gf3258EnrollmentFrameOutcome::Accepted(commit),
                                    },
                                ),
                                Err(error) => Err(
                                    Gf3258EnrollmentTransactionError::Workflow(error),
                                ),
                            }),
                    },
            },
    {
        let detailed: Gf3258DetailedEnrollmentTouch = match self.capture_next_prepared(
            captured,
            preprocessed,
            maps,
        ) {
            Ok(detailed) => detailed,
            Err(error) => {
                return Err(error);
            },
        };
        let (capture, preparation): (Gf3258CaptureDiagnostics, Gf3258EnrollmentPreparation) =
            detailed.into_parts();
        match preparation {
            Gf3258EnrollmentPreparation::Rejected(rejection) => Ok(
                Gf3258EnrollmentTouchResult {
                    capture,
                    outcome: Gf3258EnrollmentFrameOutcome::Rejected(rejection),
                },
            ),
            Gf3258EnrollmentPreparation::Prepared(prepared) => {
                match self.commit_prepared(prepared, engine) {
                    Ok(commit) => Ok(
                        Gf3258EnrollmentTouchResult {
                            capture,
                            outcome: Gf3258EnrollmentFrameOutcome::Accepted(commit),
                        },
                    ),
                    Err(error) => Err(error),
                }
            },
        }
    }

    /// Encodes a completed enrollment; an incomplete one is refused.
    pub fn finish<E, W, P>(self, encode: &E, wrap: &W, parse: &P) -> (result: Result<
        Gf3258EnrollmentArtifacts,
        Gf3258EnrollmentTransactionError,
    >) where
        E: Fn(&Gf3258EnrollmentTemplateCore) -> Result<Vec<u8>, String>,
        W: Fn(&[u8]) -> Result<Vec<u8>, String>,
        P: Fn(&[u8]) -> Result<Gf3258FreshTglaNode, String>,

        requires
            forall|t: &Gf3258EnrollmentTemplateCore| #[trigger] call_requires(*encode, (t,)),
            forall|raw: &[u8]| #[trigger] call_requires(*wrap, (raw,)),
            forall|tgla: &[u8]| #[trigger] call_requires(*parse, (tgla,)),
        ensures
            if self.samples() < GF3258_ENROLLMENT_TARGET_SAMPLES {
                result == Err::<Gf3258EnrollmentArtifacts, Gf3258EnrollmentTransactionError>(
                    Gf3258EnrollmentTransactionError::Incomplete {
                        sample_count: self.samples() as usize,
                        target_samples: GF3258_ENROLLMENT_TARGET_SAMPLES,
                    },
                )
            } else {
                match result {
                    Ok(artifacts) => is_encoding_of(
                        *encode,
                        *wrap,
                        *parse,
                        self.workflow.template,
                        Ok(artifacts),
                    ),
                    Err(Gf3258EnrollmentTransactionError::Workflow(error)) => is_encoding_of(
                        *encode,
                        *wrap,
                        *parse,
                        self.workflow.template,
                        Err(error),
                    ),
                    Err(_) => false,
                }
            },
    {
        let sample_count: usize = self.workflow.sample_count();
        if sample_count < GF3258_ENROLLMENT_TARGET_SAMPLES {
            return Err(
                Gf3258EnrollmentTransactionError::Incomplete {
                    sample_count,
                    target_samples: GF3258_ENROLLMENT_TARGET_SAMPLES,
                },
            );
        }
        match self.workflow.encode_artifacts(encode, wrap, parse) {
            Ok(artifacts) => Ok(artifacts),
            Err(error) => Err(Gf3258EnrollmentTransactionError::Workflow(error)),
        }
    }
}

/// `result` is what encoding a template, wrapping it and reading it back came
/// to.
pub open spec fn is_encoding_of<
    E: Fn(&Gf3258EnrollmentTemplateCore) -> Result<Vec<u8>, String>,
    W: Fn(&[u8]) -> Result<Vec<u8>, String>,
    P: Fn(&[u8]) -> Result<Gf3258FreshTglaNode, String>,
>(
    encode: E,
    wrap: W,
    parse: P,
    template: Gf3258EnrollmentTemplateCore,
    result: Result<Gf3258EnrollmentArtifacts, Gf3258EnrollmentWorkflowError>,
) -> bool {
    exists|encoded: Result<Vec<u8>, String>| #[trigger]
        call_ensures(encode, (&template,), encoded) && match encoded {
            Err(message) => result == Err::<
                Gf3258EnrollmentArtifacts,
                Gf3258EnrollmentWorkflowError,
            >(Gf3258EnrollmentWorkflowError::TemplatePersistence(message)),
            Ok(raw) => enrollment::is_wrapping_of(wrap, parse, raw, result),
        }
}

/// A decoded gallery, as far as a transaction looks at it.
#[derive(Debug, Clone, PartialEq, Eq)]
pub struct Gf3258VerificationTemplate {
    pub sample_count: usize,
    pub configured_max_samples: usize,
}

#[derive(Debug, Clone, PartialEq, Eq)]
pub enum Gf3258VerificationTemplateError {
    /// The message of the template decoder.
    Decode(String),
    EmptyGallery,
}

#[derive(Debug, Clone, PartialEq, Eq)]
pub enum Gf3258VerificationTransactionError {
    Session(Gf3258SessionError),
    /// The message of the verifier.
    Verification(String),
}

impl From<Gf3258SessionError> for Gf3258VerificationTransactionError {
    fn from(value: Gf3258SessionError) -> Self {
        Gf3258VerificationTransactionError::Session(value)
    }
}

impl vstd::std_specs::convert::FromSpecImpl<Gf3258SessionError> for Gf3258VerificationTransactionError {
    open spec fn obeys_from_spec() -> bool {
        true
    }

    open spec fn from_spec(value: Gf3258SessionError) -> Self {
        Gf3258VerificationTransactionError::Session(value)
    }
}

/// Result of one verification touch; `O` is the verifier's outcome.
#[derive(Debug, Clone, PartialEq, Eq)]
pub struct Gf3258VerificationTouchResult<O> {
    pub capture: Gf3258CaptureDiagnostics,
    pub outcome: O,
}

impl<O> Gf3258VerificationTouchResult<O> {
    pub fn capture_diagnostics(&self) -> (diagnostics: Gf3258CaptureDiagnostics)
        ensures
            diagnostics == self.capture,
    {
        self.capture
    }

    pub fn outcome(&self) -> (outcome: &O)
        ensures
            *outcome == self.outcome,
    {
        &self.outcome
    }
}

/// A verification touch with its pixel count.
#[derive(Debug, Clone, PartialEq, Eq)]
pub struct Gf3258DetailedVerificationTouch<O> {
    pub capture: Gf3258CaptureDiagnostics,
    pub pixel_count: usize,
    pub outcome: O,
}

impl<O> Gf3258DetailedVerificationTouch<O> {
    pub fn capture_diagnostics(&self) -> (diagnostics: Gf3258CaptureDiagnostics)
        ensures
            diagnostics == self.capture,
    {
        self.capture
    }

    pub fn pixel_count(&self) -> (count: usize)
        ensures
            count == self.pixel_count,
    {
        self.pixel_count
    }

    pub fn into_outcome(self) -> (outcome: O)
        ensures
            outcome == self.outcome,
    {
        self.outcome
    }
}

/// A verification that is driven touch by touch against one gallery.
#[derive(Debug, Clone, PartialEq, Eq)]
pub struct Gf3258VerificationTransaction {
    pub template: Gf3258VerificationTemplate,
}

impl Gf3258VerificationTransaction {
    pub fn new(template: Gf3258VerificationTemplate) -> (transaction: Self)
        ensures
            transaction.template == template,
    {
        Gf3258VerificationTransaction { template }
    }

    /// Starts a verification with a gallery read from storage. A gallery that
    /// does not decode, or that is empty, is refused.
    pub fn from_tgla(decoded: Result<Gf3258VerificationTemplate, String>) -> (result: Result<
        Self,
        Gf3258VerificationTemplateError,
    >)
        ensures
            result == (match decoded {
                Err(message) => Err::<
                    Gf3258VerificationTransaction,
                    Gf3258VerificationTemplateError,
                >(Gf3258VerificationTemplateError::Decode(message)),
                Ok(template) => if template.sample_count == 0 {
                    Err(Gf3258VerificationTemplateError::EmptyGallery)
                } else {
                    Ok(Gf3258VerificationTransaction { template })
                },
            }),
    {
        match decoded {
            Ok(template) => {
                if template.sample_count == 0 {
                    return Err(Gf3258VerificationTemplateError::EmptyGallery);
                }
                Ok(Self::new(template))
            },
            Err(message) => Err(Gf3258VerificationTemplateError::Decode(message)),
        }
    }

    pub fn sample_count(&self) -> (count: usize)
        ensures
            count == self.template.sample_count,
    {
        self.template.sample_count
    }

    pub fn configured_max_samples(&self) -> (count: usize)
        ensures
            count == self.template.configured_max_samples,
    {
        self.template.configured_max_samples
    }

    /// Takes one touch: a failed capture is an error of the session, and what
    /// the verifier says of a captured frame is the outcome.
    pub fn capture_next<O, V>(
        &self,
        captured: Result<Gf3258CapturedFrame, Gf3258SessionError>,
        verify: &V,
    ) -> (result: Result<
        Gf3258VerificationTouchResult<O>,
        Gf3258VerificationTransactionError,
    >) where V: Fn(&Gf3258VerificationTemplate, &[u16]) -> Result<O, String>
        requires
            forall|template: &Gf3258VerificationTemplate, pixels: &[u16]| #[trigger]
                call_requires(*verify, (template, pixels)),
        ensures
            match captured {
                Err(error) => result == Err::<
                    Gf3258VerificationTouchResult<O>,
                    Gf3258VerificationTransactionError,
                >(Gf3258VerificationTransactionError::Session(error)),
                Ok(frame) => exists|pixels: &[u16], verified: Result<O, String>|
                    pixels@ == frame.raw_u16@ && #[trigger] call_ensures(
                        *verify,
                        (&self.template, pixels),
                        verified,
                    ) && result == (match verified {
                        Ok(outcome) => Ok::<
                            Gf3258VerificationTouchResult<O>,
                            Gf3258VerificationTransactionError,
                        >(
                            Gf3258VerificationTouchResult {
                                capture: frame.diagnostics,
                                outcome,
                            },
                        ),
                        Err(message) => Err(
                            Gf3258VerificationTransactionError::Verification(message),
                        ),
                    }),
            },
    {
        match self.capture_next_detailed(captured, verify) {
            Ok(touch) => Ok(
                Gf3258VerificationTouchResult { capture: touch.capture, outcome: touch.outcome },
            ),
            Err(error) => Err(error),
        }
    }

    /// Takes one touch and also reports its pixel count.
    pub fn capture_next_detailed<O, V>(
        &self,
        captured: Result<Gf3258CapturedFrame, Gf3258SessionError>,
        verify: &V,
    ) -> (result: Result<
        Gf3258DetailedVerificationTouch<O>,
        Gf3258VerificationTransactionError,
    >) where V: Fn(&Gf3258VerificationTemplate, &[u16]) -> Result<O, String>
        requires
            forall|template: &Gf3258VerificationTemplate, pixels: &[u16]| #[trigger]
                call_requires(*verify, (template, pixels)),
        ensures
            match captured {
                Err(error) => result == Err::<
                    Gf3258DetailedVerificationTouch<O>,
                    Gf3258VerificationTransactionError,
                >(Gf3258VerificationTransactionError::Session(error)),
                Ok(frame) => exists|pixels: &[u16], verified: Result<O, String>|
                    pixels@ == frame.raw_u16@ && #[trigger] call_ensures(
                        *verify,
                        (&self.template, pixels),
                        verified,
                    ) && result == (match verified {
                        Ok(outcome) => Ok::<
                            Gf3258DetailedVerificationTouch<O>,
                            Gf3258VerificationTransactionError,
                        >(
                            Gf3258DetailedVerificationTouch {
                                capture: frame.diagnostics,
                                pixel_count: frame.raw_u16@.len() as usize,
                                outcome,
                            },
                        ),
                        Err(message) => Err(
                            Gf3258VerificationTransactionError::Verification(message),
                        ),
                    }),
            },
    {
        let frame: Gf3258CapturedFrame = match captured {
            Ok(frame) => frame,
            Err(error) => {
                return Err(Gf3258VerificationTransactionError::Session(error));
            },
        };
        let pixels: &[u16] = frame.pixels();
        let pixel_count: usize = pixels.len();
        let verified: Result<O, String> = verify(&self.template, pixels);
        assert(call_ensures(*verify, (&self.template, pixels), verified));
        match verified {
            Ok(outcome) => Ok(
                Gf3258DetailedVerificationTouch {
                    capture: frame.diagnostics,
                    pixel_count,
                    outcome,
                },
            ),
            Err(message) => Err(Gf3258VerificationTransactionError::Verification(message)),
        }
    }
}

impl Gf3258SessionStartup {
    pub open spec fn message_spec(&self) -> Seq<char> {
        match self {
            Gf3258SessionStartup::AlreadyApp => "AlreadyApp"@,
            Gf3258SessionStartup::ColdBootstrapped { chip_id, f0_chunks_sent, firmware_check_result } => {
                "ColdBootstrapped chip_id=0x"@ + text::hex(*chip_id as nat, 8) + " f0_chunks="@
                    + text::decimal(*f0_chunks_sent as nat) + " f4_result=0x"@
                    + text::hex(*firmware_check_result as nat, 2)
            },
        }
    }

    /// This startup in words.
    pub fn message(&self) -> (text: String)
        ensures
            text@ == self.message_spec(),
    {
        match self {
            Gf3258SessionStartup::AlreadyApp => "AlreadyApp".to_owned(),
            Gf3258SessionStartup::ColdBootstrapped { chip_id, f0_chunks_sent, firmware_check_result } => {
                let mut out: String = "ColdBootstrapped chip_id=0x".to_owned();
                text::push_hex(&mut out, *chip_id as u64, 8);
                out.append(" f0_chunks=");
                text::push_decimal(&mut out, *f0_chunks_sent as u64);
                out.append(" f4_result=0x");
                text::push_hex(&mut out, *firmware_check_result as u64, 2);
                out
            },
        }
    }
}

impl Gf3258SessionStage {
    pub open spec fn message_spec(&self) -> Seq<char> {
        match self {
            Gf3258SessionStage::OpenUsb => "open USB device"@,
            Gf3258SessionStage::ReadVersion => "read firmware version"@,
            Gf3258SessionStage::ColdBootstrap => "cold-bootstrap IAP firmware into APP mode"@,
            Gf3258SessionStage::RestoreVolatileConfig => "restore volatile sensor configuration"@,
            Gf3258SessionStage::GenerateImageSession => "generate image session"@,
            Gf3258SessionStage::InstallImageSession => "install image session"@,
            Gf3258SessionStage::FingerDown => "wait for finger down"@,
            Gf3258SessionStage::ReadImage => "read protected image"@,
            Gf3258SessionStage::FingerUp => "wait for finger up"@,
            Gf3258SessionStage::ParseProtectedImage => "parse protected image"@,
            Gf3258SessionStage::DecryptImage => "decrypt image"@,
            Gf3258SessionStage::ValidateImageCrc => "validate image CRC"@,
            Gf3258SessionStage::ReconstructImage => "reconstruct GF3258 image"@,
        }
    }

    /// What the stage does.
    pub fn message(&self) -> (text: String)
        ensures
            text@ == self.message_spec(),
    {
        match self {
            Gf3258SessionStage::OpenUsb => "open USB device".to_owned(),
            Gf3258SessionStage::ReadVersion => "read firmware version".to_owned(),
            Gf3258SessionStage::ColdBootstrap => {
                "cold-bootstrap IAP firmware into APP mode".to_owned()
            },
            Gf3258SessionStage::RestoreVolatileConfig => {
                "restore volatile sensor configuration".to_owned()
            },
            Gf3258SessionStage::GenerateImageSession => "generate image session".to_owned(),
            Gf3258SessionStage::InstallImageSession => "install image session".to_owned(),
            Gf3258SessionStage::FingerDown => "wait for finger down".to_owned(),
            Gf3258SessionStage::ReadImage => "read protected image".to_owned(),
            Gf3258SessionStage::FingerUp => "wait for finger up".to_owned(),
            Gf3258SessionStage::ParseProtectedImage => "parse protected image".to_owned(),
            Gf3258SessionStage::DecryptImage => "decrypt image".to_owned(),
            Gf3258SessionStage::ValidateImageCrc => "validate image CRC".to_owned(),
            Gf3258SessionStage::ReconstructImage => "reconstruct GF3258 image".to_owned(),
        }
    }
}

impl Gf3258SessionError {
    pub open spec fn message_spec(&self) -> Seq<char> {
        match self {
            Gf3258SessionError::Stage { stage, message } => {
                "GF3258 session failed while trying to "@ + stage.message_spec() + ": "@
                    + message@
            },
            Gf3258SessionError::BootstrapFirmwareRequired { current } => {
                "GF3258 device is running "@ + current@
                    + "; cold bootstrap requires caller-supplied GFUSB_GM168SEC_APP_15045 firmware bytes"@
            },
            Gf3258SessionError::UnsupportedFirmware { expected, actual } => {
                "GF3258 session requires firmware "@ + expected@ + "; device reported "@
                    + actual@
            },
            Gf3258SessionError::BootImage => {
                "GF3258 returned a boot image instead of a fingerprint image"@
            },
            Gf3258SessionError::UnexpectedPixelCount { expected, actual } => {
                "GF3258 reconstructed image has "@ + text::decimal(*actual as nat)
                    + " pixels; expected "@ + text::decimal(*expected as nat)
            },
        }
    }

    /// The message of this error.
    pub fn message(&self) -> (text: String)
        ensures
            text@ == self.message_spec(),
    {
        match self {
            Gf3258SessionError::Stage { stage, message } => {
                let mut out: String = "GF3258 session failed while trying to ".to_owned();
                out.append(stage.message().as_str());
                out.append(": ");
                out.append(message.as_str());
                out
            },
            Gf3258SessionError::BootstrapFirmwareRequired { current } => {
                let mut out: String = "GF3258 device is running ".to_owned();
                out.append(current.as_str());
                out.append("; cold bootstrap requires caller-supplied GFUSB_GM168SEC_APP_15045 firmware bytes");
                out
            },
            Gf3258SessionError::UnsupportedFirmware { expected, actual } => {
                let mut out: String = "GF3258 session requires firmware ".to_owned();
                out.append(expected);
                out.append("; device reported ");
                out.append(actual.as_str());
                out
            },
            Gf3258SessionError::BootImage => {
                "GF3258 returned a boot image instead of a fingerprint image".to_owned()
            },
            Gf3258SessionError::UnexpectedPixelCount { expected, actual } => {
                let mut out: String = "GF3258 reconstructed image has ".to_owned();
                text::push_decimal(&mut out, *actual as u64);
                out.append(" pixels; expected ");
                text::push_decimal(&mut out, *expected as u64);
                out
            },
        }
    }
}

impl Gf3258EnrollmentTransactionError {
    pub open spec fn message_spec(&self) -> Seq<char> {
        match self {
            Gf3258EnrollmentTransactionError::Session(error) => error.message_spec(),
            Gf3258EnrollmentTransactionError::Workflow(error) => error.message_spec(),
            Gf3258EnrollmentTransactionError::Incomplete { sample_count, target_samples } => {
                "GF3258 enrollment is incomplete: "@ + text::decimal(*sample_count as nat)
                    + "/"@ + text::decimal(*target_samples as nat) + " retained samples"@
            },
        }
    }

    /// The message of this error.
    pub fn message(&self) -> (text: String)
        ensures
            text@ == self.message_spec(),
    {
        match self {
            Gf3258EnrollmentTransactionError::Session(error) => error.message(),
            Gf3258EnrollmentTransactionError::Workflow(error) => error.message(),
            Gf3258EnrollmentTransactionError::Incomplete { sample_count, target_samples } => {
                let mut out: String = "GF3258 enrollment is incomplete: ".to_owned();
                text::push_decimal(&mut out, *sample_count as u64);
                out.append("/");
                text::push_decimal(&mut out, *target_samples as u64);
                out.append(" retained samples");
                out
            },
        }
    }
}

impl Gf3258VerificationTransactionError {
    pub open spec fn message_spec(&self) -> Seq<char> {
        match self {
            Gf3258VerificationTransactionError::Session(error) => error.message_spec(),
            Gf3258VerificationTransactionError::Verification(message) => message@,
        }
    }

    /// The message of this error.
    pub fn message(&self) -> (text: String)
        ensures
            text@ == self.message_spec(),
    {
        match self {
            Gf3258VerificationTransactionError::Session(error) => error.message(),
            Gf3258VerificationTransactionError::Verification(message) => message.clone(),
        }
    }
}

/// A running application is never rewritten: firmware is sent to the exact
/// loader only.
pub proof fn lemma_only_the_loader_is_bootstrapped(version: String)
    ensures
        open_plan_spec(version) == Ok::<Gf3258OpenPlan, Gf3258SessionError>(
            Gf3258OpenPlan::ColdBootstrap,
        ) <==> version@ == GF3258_SUPPORTED_IAP_FIRMWARE@,
        version@ == GF3258_SUPPORTED_APP_FIRMWARE@ ==> open_plan_spec(version) == Ok::<
            Gf3258OpenPlan,
            Gf3258SessionError,
        >(Gf3258OpenPlan::UseApp),
{
    reveal_strlit("GFUSB_GM168SEC_APP_15045");
    reveal_strlit("MILAN_GM168SEC_IAP_10007");
    assert(GF3258_SUPPORTED_APP_FIRMWARE@[0] != GF3258_SUPPORTED_IAP_FIRMWARE@[0]);
}

/// A capture on its way: what the next exchange with the sensor is for. The
/// release of the finger is awaited as soon as the image has left the sensor,
/// before anything is made of it.
#[derive(Debug, Clone, PartialEq, Eq)]
pub enum Gf3258CaptureState {
    InstallingSession,
    WaitingForFinger,
    ReadingImage,
    WaitingForRelease { payload: Vec<u8> },
    /// The payload can be reconstructed.
    Captured { payload: Vec<u8> },
}

/// Stage of the exchange that a capture is at.
pub open spec fn capture_stage(state: Gf3258CaptureState) -> Gf3258SessionStage {
    match state {
        Gf3258CaptureState::InstallingSession => Gf3258SessionStage::InstallImageSession,
        Gf3258CaptureState::WaitingForFinger => Gf3258SessionStage::FingerDown,
        Gf3258CaptureState::ReadingImage => Gf3258SessionStage::ReadImage,
        _ => Gf3258SessionStage::FingerUp,
    }
}

/// What a successful exchange makes of a capture. Only the exchange that reads
/// the image is asked for its payload.
pub open spec fn after_exchange(state: Gf3258CaptureState, payload: Vec<u8>) -> Gf3258CaptureState {
    match state {
        Gf3258CaptureState::InstallingSession => Gf3258CaptureState::WaitingForFinger,
        Gf3258CaptureState::WaitingForFinger => Gf3258CaptureState::ReadingImage,
        Gf3258CaptureState::ReadingImage => Gf3258CaptureState::WaitingForRelease { payload },
        Gf3258CaptureState::WaitingForRelease { payload } => Gf3258CaptureState::Captured {
            payload,
        },
        Gf3258CaptureState::Captured { payload } => Gf3258CaptureState::Captured { payload },
    }
}

/// Starts a capture with the key material of a fresh image session.
pub fn begin_capture(material: Result<ImageSession, String>) -> (result: Result<
    (ImageSession, Gf3258CaptureState),
    Gf3258SessionError,
>)
    ensures
        match material {
            Ok(session) => result == Ok::<(ImageSession, Gf3258CaptureState), Gf3258SessionError>(
                (session, Gf3258CaptureState::InstallingSession),
            ),
            Err(message) => result == Err::<
                (ImageSession, Gf3258CaptureState),
                Gf3258SessionError,
            >(
                Gf3258SessionError::Stage {
                    stage: Gf3258SessionStage::GenerateImageSession,
                    message,
                },
            ),
        },
{
    match material {
        Ok(session) => Ok((session, Gf3258CaptureState::InstallingSession)),
        Err(message) => Err(
            Gf3258SessionError::stage(Gf3258SessionStage::GenerateImageSession, message),
        ),
    }
}

/// Takes the outcome of the exchange that a capture is at. A failure names its
/// stage.
pub fn advance_capture(
    state: Gf3258CaptureState,
    exchanged: Result<Vec<u8>, String>,
) -> (result: Result<Gf3258CaptureState, Gf3258SessionError>)
    requires
        !(state is Captured),
    ensures
        match exchanged {
            Ok(payload) => result == Ok::<Gf3258CaptureState, Gf3258SessionError>(
                after_exchange(state, payload),
            ),
            Err(message) => result == Err::<Gf3258CaptureState, Gf3258SessionError>(
                Gf3258SessionError::Stage { stage: capture_stage(state), message },
            ),
        },
{
    match exchanged {
        Ok(payload) => Ok(
            match state {
                Gf3258CaptureState::InstallingSession => Gf3258CaptureState::WaitingForFinger,
                Gf3258CaptureState::WaitingForFinger => Gf3258CaptureState::ReadingImage,
                Gf3258CaptureState::ReadingImage => {
                    Gf3258CaptureState::WaitingForRelease { payload }
                },
                Gf3258CaptureState::WaitingForRelease { payload } => {
                    Gf3258CaptureState::Captured { payload }
                },
                Gf3258CaptureState::Captured { payload } => {
                    Gf3258CaptureState::Captured { payload }
                },
            },
        ),
        Err(message) => {
            let stage: Gf3258SessionStage = match state {
                Gf3258CaptureState::InstallingSession => Gf3258SessionStage::InstallImageSession,
                Gf3258CaptureState::WaitingForFinger => Gf3258SessionStage::FingerDown,
                Gf3258CaptureState::ReadingImage => Gf3258SessionStage::ReadImage,
                _ => Gf3258SessionStage::FingerUp,
            };
            Err(Gf3258SessionError::stage(stage, message))
        },
    }
}

/// Four successful exchanges capture the payload of the third one, and no fewer
/// do.
pub proof fn lemma_capture_takes_four_exchanges(
    first: Vec<u8>,
    second: Vec<u8>,
    image: Vec<u8>,
    last: Vec<u8>,
)
    ensures
        ({
            let installed = after_exchange(Gf3258CaptureState::InstallingSession, first);
            let touched = after_exchange(installed, second);
            let read = after_exchange(touched, image);
            &&& !(installed is Captured)
            &&& !(touched is Captured)
            &&& !(read is Captured)
            &&& after_exchange(read, last) == Gf3258CaptureState::Captured { payload: image }
        }),
{
}

} // verus!
