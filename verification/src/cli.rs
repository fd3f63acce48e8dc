//! The diagnostic program: its arguments, what it does in which firmware mode,
//! and the texts and files it produces.
use vstd::prelude::*;

use crate::app_error::{AppError, AppErrorKind};
use crate::bootstrap::{
    EXPECTED_APP_LEN, EXPECTED_F0_CHUNK_COUNT, EXPECTED_IAP_VERSION, EXPECTED_PACKAGE_APP_CRC,
    EXPECTED_PACKAGE_HEADER_CRC, EXPECTED_PACKAGE_LEN,
};
use crate::bytes;
use crate::crypto;
use crate::crypto::decrypt_image;
use crate::driver::Gf3258ProtectedImage;
use crate::enrollment;
use crate::enrollment::{Gf3258PreprocessDiagnostics, Gf3258PreprocessedFrame};
use crate::feature::GF3258_PIXELS;
use crate::firmware;
use crate::firmware::{AppTransferPackage, FirmwareChunk};
use crate::text;

verus! {

/// Bytes of a payload that are shown.
pub const IMAGE_PREVIEW_LEN: usize = 32;

/// What the program is asked to do.
#[derive(Debug, Clone, PartialEq, Eq)]
pub enum Action {
    Info,
    Monitor,
    Capture { output: String },
    /// Read and check the stored key.
    Psk,
    /// Build the whole transfer without sending it.
    BootstrapCheck { firmware: String },
    /// Send it.
    BootstrapLive { firmware: String },
    Visualize { input: String, output: String },
}

#[derive(Debug, Clone, PartialEq, Eq)]
pub struct Options {
    pub action: Action,
    pub trace_path: Option<String>,
}

/// What the arguments ask for.
#[derive(Debug, Clone, PartialEq, Eq)]
pub enum Invocation {
    Run(Options),
    Help,
}

/// An action by its texts.
pub enum ActionView {
    Info,
    Monitor,
    Capture { output: Seq<char> },
    Psk,
    BootstrapCheck { firmware: Seq<char> },
    BootstrapLive { firmware: Seq<char> },
    Visualize { input: Seq<char>, output: Seq<char> },
}

impl View for Action {
    type V = ActionView;

    open spec fn view(&self) -> ActionView {
        match self {
            Action::Info => ActionView::Info,
            Action::Monitor => ActionView::Monitor,
            Action::Capture { output } => ActionView::Capture { output: output@ },
            Action::Psk => ActionView::Psk,
            Action::BootstrapCheck { firmware } => ActionView::BootstrapCheck {
                firmware: firmware@,
            },
            Action::BootstrapLive { firmware } => ActionView::BootstrapLive {
                firmware: firmware@,
            },
            Action::Visualize { input, output } => ActionView::Visualize {
                input: input@,
                output: output@,
            },
        }
    }
}

/// An optional text.
pub open spec fn text_view(text: Option<String>) -> Option<Seq<char>> {
    match text {
        Some(text) => Some(text@),
        None => None,
    }
}

/// What arguments ask for, by its texts.
pub enum ParsedView {
    Run { action: ActionView, trace: Option<Seq<char>> },
    Help,
    /// The message of the error.
    Invalid(Seq<char>),
}

/// What a parsed invocation or its error amounts to.
pub open spec fn parsed_view(result: Result<Invocation, AppError>) -> ParsedView {
    match result {
        Ok(Invocation::Run(options)) => ParsedView::Run {
            action: options.action@,
            trace: text_view(options.trace_path),
        },
        Ok(Invocation::Help) => ParsedView::Help,
        Err(error) => ParsedView::Invalid(error.text@),
    }
}

/// Texts of arguments.
pub open spec fn texts(args: Seq<String>) -> Seq<Seq<char>> {
    Seq::new(args.len(), |i: int| args[i]@)
}

/// Takes one more action, of which there may be one.
pub open spec fn with_action(
    args: Seq<Seq<char>>,
    next: nat,
    slot: Option<ActionView>,
    action: ActionView,
    trace: Option<Seq<char>>,
) -> ParsedView
    decreases args.len() - next, 1nat,
{
    if slot is Some {
        ParsedView::Invalid("only one command may be specified"@)
    } else {
        parsed_from(args, next, Some(action), trace)
    }
}

/// What the arguments from position `i` on ask for, after what came before.
pub open spec fn parsed_from(
    args: Seq<Seq<char>>,
    i: nat,
    slot: Option<ActionView>,
    trace: Option<Seq<char>>,
) -> ParsedView
    decreases args.len() - i, 0nat,
{
    if i >= args.len() {
        ParsedView::Run {
            action: match slot {
                Some(action) => action,
                None => ActionView::Info,
            },
            trace,
        }
    } else {
        let arg = args[i as int];
        if arg == "info"@ {
            with_action(args, i + 1, slot, ActionView::Info, trace)
        } else if arg == "monitor"@ {
            with_action(args, i + 1, slot, ActionView::Monitor, trace)
        } else if arg == "capture"@ {
            if i + 1 >= args.len() {
                ParsedView::Invalid("capture requires an output PGM filename"@)
            } else {
                with_action(
                    args,
                    i + 2,
                    slot,
                    ActionView::Capture { output: args[(i + 1) as int] },
                    trace,
                )
            }
        } else if arg == "psk"@ {
            with_action(args, i + 1, slot, ActionView::Psk, trace)
        } else if arg == "bootstrap-check"@ {
            if i + 1 >= args.len() {
                ParsedView::Invalid("bootstrap-check requires a firmware blob filename"@)
            } else {
                with_action(
                    args,
                    i + 2,
                    slot,
                    ActionView::BootstrapCheck { firmware: args[(i + 1) as int] },
                    trace,
                )
            }
        } else if arg == "bootstrap-live"@ {
            if i + 1 >= args.len() {
                ParsedView::Invalid("bootstrap-live requires a firmware blob filename"@)
            } else {
                with_action(
                    args,
                    i + 2,
                    slot,
                    ActionView::BootstrapLive { firmware: args[(i + 1) as int] },
                    trace,
                )
            }
        } else if arg == "visualize"@ {
            if i + 1 >= args.len() {
                ParsedView::Invalid("visualize requires a decrypted input filename"@)
            } else if i + 2 >= args.len() {
                ParsedView::Invalid("visualize requires an output PGM filename"@)
            } else {
                with_action(
                    args,
                    i + 3,
                    slot,
                    ActionView::Visualize { input: args[(i + 1) as int], output: args[(i + 2) as int] },
                    trace,
                )
            }
        } else if arg == "--trace"@ {
            if i + 1 >= args.len() {
                ParsedView::Invalid("--trace requires a filename"@)
            } else if trace is Some {
                ParsedView::Invalid("--trace may only be specified once"@)
            } else {
                parsed_from(args, i + 2, slot, Some(args[(i + 1) as int]))
            }
        } else if arg == "-h"@ || arg == "--help"@ {
            ParsedView::Help
        } else {
            ParsedView::Invalid("unknown argument: "@ + arg)
        }
    }
}

fn refused(message: &str) -> (error: AppError)
    ensures
        error.kind == AppErrorKind::InvalidInput,
        error.text@ == message@,
{
    AppError::invalid_input(message.to_owned())
}

fn unknown_argument(arg: &str) -> (error: AppError)
    ensures
        error.kind == AppErrorKind::InvalidInput,
        error.text@ == "unknown argument: "@ + arg@,
{
    let mut text: String = "unknown argument: ".to_owned();
    text.append(arg);
    AppError::invalid_input(text)
}

/// The action that an argument and the values after it name, and how many
/// arguments that takes.
fn action_at(args: &Vec<String>, i: usize) -> (result: Result<Option<(Action, usize)>, AppError>)
    requires
        i < args@.len(),
    ensures
        match result {
            Err(error) => {
                &&& error.kind == AppErrorKind::InvalidInput
                &&& forall|slot: Option<ActionView>, trace: Option<Seq<char>>|
                    #[trigger] parsed_from(texts(args@), i as nat, slot, trace)
                        == ParsedView::Invalid(error.text@)
            },
            Ok(Some((action, used))) => {
                &&& 1 <= used <= 3
                &&& i + used <= args@.len()
                &&& forall|slot: Option<ActionView>, trace: Option<Seq<char>>|
                    #[trigger] parsed_from(texts(args@), i as nat, slot, trace) == with_action(
                        texts(args@),
                        (i + used) as nat,
                        slot,
                        action@,
                        trace,
                    )
            },
            Ok(None) => {
                let arg = args@[i as int]@;
                &&& arg != "info"@
                &&& arg != "monitor"@
                &&& arg != "capture"@
                &&& arg != "psk"@
                &&& arg != "bootstrap-check"@
                &&& arg != "bootstrap-live"@
                &&& arg != "visualize"@
            },
        },
{
    let arg: &str = args[i].as_str();
    let left: usize = args.len() - i;
    if text::same_text(arg, "info") {
        Ok(Some((Action::Info, 1)))
    } else if text::same_text(arg, "monitor") {
        Ok(Some((Action::Monitor, 1)))
    } else if text::same_text(arg, "capture") {
        if left < 2 {
            return Err(refused("capture requires an output PGM filename"));
        }
        Ok(Some((Action::Capture { output: args[i + 1].clone() }, 2)))
    } else if text::same_text(arg, "psk") {
        Ok(Some((Action::Psk, 1)))
    } else if text::same_text(arg, "bootstrap-check") {
        if left < 2 {
            return Err(refused("bootstrap-check requires a firmware blob filename"));
        }
        Ok(Some((Action::BootstrapCheck { firmware: args[i + 1].clone() }, 2)))
    } else if text::same_text(arg, "bootstrap-live") {
        if left < 2 {
            return Err(refused("bootstrap-live requires a firmware blob filename"));
        }
        Ok(Some((Action::BootstrapLive { firmware: args[i + 1].clone() }, 2)))
    } else if text::same_text(arg, "visualize") {
        if left < 2 {
            return Err(refused("visualize requires a decrypted input filename"));
        }
        if left < 3 {
            return Err(refused("visualize requires an output PGM filename"));
        }
        Ok(
            Some(
                (
                    Action::Visualize { input: args[i + 1].clone(), output: args[i + 2].clone() },
                    3,
                ),
            ),
        )
    } else {
        Ok(None)
    }
}

/// Parses the arguments of the program, without its name: one command at most,
/// with its file names, and one trace file at most. The first error, or a
/// request for help before it, decides.
pub fn parse_arguments(args: &Vec<String>) -> (result: Result<Invocation, AppError>)
    ensures
        parsed_view(result) == parsed_from(texts(args@), 0, None, None),
        result is Err ==> result->Err_0.kind == AppErrorKind::InvalidInput,
{
    let ghost all = texts(args@);
    let ghost goal = parsed_from(all, 0, None, None);
    let mut action: Option<Action> = None;
    let mut trace_path: Option<String> = None;
    let mut i: usize = 0;
    while i < args.len()
        invariant
            all == texts(args@),
            i <= args@.len(),
            goal == parsed_from(
                all,
                i as nat,
                match action {
                    Some(action) => Some(action@),
                    None => None,
                },
                text_view(trace_path),
            ),
            goal == parsed_from(texts(args@), 0, None, None),
        decreases args@.len() - i,
    {
        let arg: &str = args[i].as_str();
        match action_at(args, i) {
            Err(error) => {
                return Err(error);
            },
            Ok(Some((named, used))) => {
                if action.is_some() {
                    return Err(refused("only one command may be specified"));
                }
                action = Some(named);
                i = i + used;
            },
            Ok(None) => {
                if text::same_text(arg, "--trace") {
                    if args.len() - i < 2 {
                        return Err(refused("--trace requires a filename"));
                    }
                    if trace_path.is_some() {
                        return Err(refused("--trace may only be specified once"));
                    }
                    trace_path = Some(args[i + 1].clone());
                    i = i + 2;
                } else if text::same_text(arg, "-h") || text::same_text(arg, "--help") {
                    return Ok(Invocation::Help);
                } else {
                    return Err(unknown_argument(arg));
                }
            },
        }
    }
    let chosen: Action = match action {
        Some(action) => action,
        None => Action::Info,
    };
    Ok(Invocation::Run(Options { action: chosen, trace_path }))
}

#[derive(Debug, Clone, Copy, PartialEq, Eq, Structural)]
pub enum FirmwareMode {
    App,
    Iap,
    Unknown,
}

/// The mode that a version names.
pub open spec fn mode_of(version: Seq<char>) -> FirmwareMode {
    if text::occurs(version, "_APP_"@) {
        FirmwareMode::App
    } else if text::occurs(version, "_IAP_"@) {
        FirmwareMode::Iap
    } else {
        FirmwareMode::Unknown
    }
}

pub fn firmware_mode(version: &str) -> (mode: FirmwareMode)
    ensures
        mode == mode_of(version@),
{
    if text::contains_text(version, "_APP_") {
        FirmwareMode::App
    } else if text::contains_text(version, "_IAP_") {
        FirmwareMode::Iap
    } else {
        FirmwareMode::Unknown
    }
}

pub fn firmware_mode_name(mode: FirmwareMode) -> (name: &'static str)
    ensures
        name@ == (match mode {
            FirmwareMode::App => "APP"@,
            FirmwareMode::Iap => "IAP"@,
            FirmwareMode::Unknown => "UNKNOWN"@,
        }),
{
    match mode {
        FirmwareMode::App => "APP",
        FirmwareMode::Iap => "IAP",
        FirmwareMode::Unknown => "UNKNOWN",
    }
}

/// How far an action may go on a sensor.
#[derive(Debug, Clone, Copy, PartialEq, Eq, Structural)]
pub enum Admission {
    /// The firmware runs: do it.
    Proceed,
    /// The loader runs, and the action only reads.
    ReadOnly,
    /// The loader runs, and the action sends firmware.
    SendFirmware,
    /// The loader runs, and the action needs the firmware: stop without an
    /// error.
    Stop,
}

/// The admission of an action, of which an unknown version leaves none.
pub open spec fn admission_of(action: ActionView, version: Seq<char>) -> Option<Admission> {
    match mode_of(version) {
        FirmwareMode::App => Some(Admission::Proceed),
        FirmwareMode::Iap => Some(
            match action {
                ActionView::Psk => Admission::ReadOnly,
                ActionView::BootstrapCheck { .. } => Admission::ReadOnly,
                ActionView::BootstrapLive { .. } => Admission::SendFirmware,
                _ => Admission::Stop,
            },
        ),
        FirmwareMode::Unknown => None,
    }
}

/// Admits an action to a sensor that reports `version`.
pub fn admit_action(action: &Action, version: &str) -> (result: Result<Admission, AppError>)
    ensures
        match admission_of(action@, version@) {
            Some(admission) => result == Ok::<Admission, AppError>(admission),
            None => {
                &&& result is Err
                &&& result->Err_0.kind == AppErrorKind::InvalidData
                &&& result->Err_0.text@ == "unrecognized firmware version: "@ + version@
            },
        },
{
    match firmware_mode(version) {
        FirmwareMode::App => Ok(Admission::Proceed),
        FirmwareMode::Iap => Ok(
            match action {
                Action::Psk => Admission::ReadOnly,
                Action::BootstrapCheck { .. } => Admission::ReadOnly,
                Action::BootstrapLive { .. } => Admission::SendFirmware,
                _ => Admission::Stop,
            },
        ),
        FirmwareMode::Unknown => {
            let mut message: String = "unrecognized firmware version: ".to_owned();
            message.append(version);
            Err(AppError::invalid_data(message))
        },
    }
}

/// The message that refuses to send firmware, if it is refused.
pub open spec fn live_refusal(mode: FirmwareMode, version: Seq<char>) -> Option<Seq<char>> {
    if mode != FirmwareMode::Iap {
        Some("bootstrap-live is permitted only while the device is in IAP mode"@)
    } else if version != EXPECTED_IAP_VERSION@ {
        Some(
            "bootstrap-live requires exact IAP "@ + EXPECTED_IAP_VERSION@
                + ", device reported "@ + version,
        )
    } else {
        None
    }
}

/// Firmware is sent only to the exact loader.
pub fn check_bootstrap_live(mode: FirmwareMode, version: &str) -> (result: Result<(), AppError>)
    ensures
        match live_refusal(mode, version@) {
            None => result is Ok,
            Some(message) => {
                &&& result is Err
                &&& result->Err_0.kind == AppErrorKind::InvalidData
                &&& result->Err_0.text@ == message
            },
        },
{
    if mode != FirmwareMode::Iap {
        return Err(
            AppError::invalid_data(
                "bootstrap-live is permitted only while the device is in IAP mode".to_owned(),
            ),
        );
    }
    if !text::same_text(version, EXPECTED_IAP_VERSION) {
        let mut message: String = "bootstrap-live requires exact IAP ".to_owned();
        message.append(EXPECTED_IAP_VERSION);
        message.append(", device reported ");
        message.append(version);
        return Err(AppError::invalid_data(message));
    }
    Ok(())
}

/// Bytes in hexadecimal, two digits for each.
pub fn encode_hex(bytes: &[u8]) -> (output: String)
    ensures
        output@ == text::hex_bytes(bytes@),
{
    let mut output: String = "".to_owned();
    proof {
        reveal_strlit("");
    }
    text::push_hex_bytes(&mut output, bytes);
    assert(output@ =~= text::hex_bytes(bytes@));
    output
}

/// The first bytes of a payload in hexadecimal.
pub fn payload_preview(payload: &[u8]) -> (output: String)
    ensures
        output@ == text::hex_bytes(
            payload@.take(
                if payload@.len() < IMAGE_PREVIEW_LEN {
                    payload@.len() as int
                } else {
                    IMAGE_PREVIEW_LEN as int
                },
            ),
        ),
{
    let length: usize = if payload.len() < IMAGE_PREVIEW_LEN {
        payload.len()
    } else {
        IMAGE_PREVIEW_LEN
    };
    encode_hex(vstd::slice::slice_subrange(payload, 0, length))
}

/// Header of an image file.
pub open spec fn pgm_header() -> Seq<u8> {
    seq![
        80u8,
        53u8,
        10u8,
        56u8,
        48u8,
        32u8,
        54u8,
        52u8,
        10u8,
        50u8,
        53u8,
        53u8,
        10u8,
    ]
}

/// The message of an image with another number of pixels.
pub open spec fn pixel_count_message(count: nat) -> Seq<char> {
    "unexpected image pixel count: expected "@ + text::decimal(GF3258_PIXELS as nat)
        + ", received "@ + text::decimal(count)
}

/// The grey-scale image file of 80 by 64 pixels.
pub fn pgm_image(pixels: &[u8]) -> (result: Result<Vec<u8>, AppError>)
    ensures
        if pixels@.len() == GF3258_PIXELS {
            result is Ok && result->Ok_0@ == pgm_header() + pixels@
        } else {
            &&& result is Err
            &&& result->Err_0.kind == AppErrorKind::InvalidData
            &&& result->Err_0.text@ == pixel_count_message(pixels@.len())
        },
{
    if pixels.len() != GF3258_PIXELS {
        let mut message: String = "unexpected image pixel count: expected ".to_owned();
        text::push_decimal(&mut message, GF3258_PIXELS as u64);
        message.append(", received ");
        text::push_decimal(&mut message, pixels.len() as u64);
        return Err(AppError::invalid_data(message));
    }
    // "P5\n80 64\n255\n"
    let mut pgm: Vec<u8> = vec![80, 53, 10, 56, 48, 32, 54, 52, 10, 50, 53, 53, 10];
    assert(pgm@ =~= pgm_header());
    bytes::push_all(&mut pgm, pixels);
    Ok(pgm)
}

/// Least and greatest sample of an image.
#[derive(Debug, Clone, Copy, PartialEq, Eq)]
pub struct SampleRange {
    pub least: u16,
    pub greatest: u16,
}

/// `range` holds the least and the greatest sample, or zeros if there is none.
pub open spec fn is_range_of(range: SampleRange, samples: Seq<u16>) -> bool {
    if samples.len() == 0 {
        range.least == 0 && range.greatest == 0
    } else {
        &&& samples.contains(range.least)
        &&& samples.contains(range.greatest)
        &&& forall|i: int|
            0 <= i < samples.len() ==> range.least <= #[trigger] samples[i] <= range.greatest
    }
}

/// The range of the samples of an image.
pub fn sample_range(samples: &[u16]) -> (range: SampleRange)
    ensures
        is_range_of(range, samples@),
{
    if samples.len() == 0 {
        return SampleRange { least: 0, greatest: 0 };
    }
    let mut least: u16 = samples[0];
    let mut greatest: u16 = samples[0];
    for i in 0..samples.len()
        invariant
            samples@.len() > 0,
            samples@.contains(least),
            samples@.contains(greatest),
            least <= greatest,
            forall|j: int| 0 <= j < i ==> least <= #[trigger] samples@[j] <= greatest,
    {
        let sample: u16 = samples[i];
        assert(samples@.contains(samples@[i as int]));
        if sample < least {
            least = sample;
        }
        if sample > greatest {
            greatest = sample;
        }
    }
    SampleRange { least, greatest }
}

/// The metadata of a firmware blob as text, or as a list of bytes where it is
/// no text.
pub fn metadata_text(metadata: &[u8]) -> (shown: String)
    ensures
        shown@ == (if vstd::utf8::valid_utf8(metadata@) {
            vstd::utf8::decode_utf8(metadata@)
        } else {
            text::hex_list(metadata@)
        }),
{
    match text::decode_utf8(metadata) {
        Ok(decoded) => decoded.to_owned(),
        Err(_) => {
            let mut shown: String = "".to_owned();
            proof {
                reveal_strlit("");
            }
            text::push_hex_list(&mut shown, metadata);
            assert(shown@ =~= text::hex_list(metadata@));
            shown
        },
    }
}

/// A stored key that has been read, opened and checked.
#[derive(Debug, Clone, PartialEq, Eq)]
pub struct RuntimePsk {
    pub sealed: Vec<u8>,
    pub plaintext: Vec<u8>,
    pub stored_hash: [u8; 32],
    pub calculated_hash: [u8; 32],
}

/// Accepts a key whose hash was found valid.
pub fn verified_psk(
    sealed: Vec<u8>,
    plaintext: Vec<u8>,
    stored_hash: [u8; 32],
    calculated_hash: [u8; 32],
    hash_valid: bool,
) -> (result: Result<RuntimePsk, AppError>)
    ensures
        if hash_valid {
            result == Ok::<RuntimePsk, AppError>(
                RuntimePsk { sealed, plaintext, stored_hash, calculated_hash },
            )
        } else {
            &&& result is Err
            &&& result->Err_0.kind == AppErrorKind::InvalidData
            &&& result->Err_0.text@ == "persisted PSK failed SHA-256 verification"@
        },
{
    if !hash_valid {
        return Err(
            AppError::invalid_data("persisted PSK failed SHA-256 verification".to_owned()),
        );
    }
    Ok(RuntimePsk { sealed, plaintext, stored_hash, calculated_hash })
}

impl RuntimePsk {
    /// Whether the key holds zeros only.
    pub fn is_all_zero(&self) -> (zero: bool)
        ensures
            zero == enrollment::all_zero(self.plaintext@),
    {
        enrollment::is_all_zero(&self.plaintext)
    }
}

/// One write command of a transfer.
#[derive(Debug, Clone, PartialEq, Eq)]
pub struct ChunkReport {
    pub offset: u32,
    pub length: u32,
    /// Header of the payload in hexadecimal.
    pub header: String,
}

/// `report` describes write command `i` of a package.
pub open spec fn is_chunk_report(report: ChunkReport, package: Seq<u8>, i: int) -> bool {
    &&& report.offset == i * firmware::F0_MAX_CHUNK_DATA
    &&& report.length == firmware::chunk_data(package, i).len()
    &&& report.header@ == text::hex_bytes(
        firmware::package_payload(package, i).take(firmware::F0_PAYLOAD_HEADER_LEN as int),
    )
}

/// A transfer that has been built and not sent.
#[derive(Debug, Clone, PartialEq, Eq)]
pub struct TransferReport {
    pub app_len: u32,
    pub app_crc: u32,
    pub header_crc: u32,
    pub package_len: usize,
    /// Header of the package in hexadecimal.
    pub package_header: String,
    pub chunk_count: usize,
    pub first: ChunkReport,
    pub last: ChunkReport,
}

/// `report` describes the transfer of a package.
pub open spec fn is_transfer_report(report: TransferReport, package: Seq<u8>) -> bool {
    let app = firmware::package_app(package);
    let count = firmware::chunk_count(package.len());
    &&& report.app_len == app.len()
    &&& report.app_crc == firmware::crc32_mpeg2_spec(app)
    &&& report.header_crc == firmware::header_crc_spec(app)
    &&& report.package_len == package.len()
    &&& report.package_header@ == text::hex_bytes(
        package.take(firmware::TRANSFER_HEADER_LEN as int),
    )
    &&& report.chunk_count == count
    &&& is_chunk_report(report.first, package, 0)
    &&& is_chunk_report(report.last, package, count - 1)
}

fn chunk_report(
    chunks: &Vec<FirmwareChunk<'_>>,
    i: usize,
    Ghost(package): Ghost<Seq<u8>>,
) -> (report: ChunkReport)
    requires
        i < chunks@.len(),
        chunks@[i as int].offset_spec() == i * firmware::F0_MAX_CHUNK_DATA,
        chunks@[i as int].type_spec() == firmware::APP_FIRMWARE_TYPE,
        chunks@[i as int].data_spec() == firmware::chunk_data(package, i as int),
    ensures
        is_chunk_report(report, package, i as int),
{
    let payload: Vec<u8> = chunks[i].f0_payload();
    let header: &[u8] = vstd::slice::slice_subrange(
        payload.as_slice(),
        0,
        firmware::F0_PAYLOAD_HEADER_LEN,
    );
    assert(payload@ == firmware::package_payload(package, i as int));
    assert(header@ =~= payload@.take(firmware::F0_PAYLOAD_HEADER_LEN as int));
    ChunkReport { offset: chunks[i].offset(), length: chunks[i].length(), header: encode_hex(header) }
}

/// Builds the whole transfer of a package in memory, and describes it.
pub fn transfer_report(package: &AppTransferPackage) -> (report: TransferReport)
    ensures
        is_transfer_report(report, package@),
{
    let chunks: Vec<FirmwareChunk<'_>> = package.chunks();
    let bytes: &[u8] = package.bytes();
    let header: &[u8] = vstd::slice::slice_subrange(bytes, 0, firmware::TRANSFER_HEADER_LEN);
    assert(header@ =~= package@.take(firmware::TRANSFER_HEADER_LEN as int));
    let count: usize = chunks.len();
    TransferReport {
        app_len: package.app_len(),
        app_crc: package.app_crc(),
        header_crc: package.header_crc(),
        package_len: package.len(),
        package_header: encode_hex(header),
        chunk_count: count,
        first: chunk_report(&chunks, 0, Ghost(package@)),
        last: chunk_report(&chunks, count - 1, Ghost(package@)),
    }
}

/// The transfer is that of the known firmware.
pub open spec fn is_known_transfer(report: TransferReport) -> bool {
    &&& report.app_len == EXPECTED_APP_LEN
    &&& report.app_crc == EXPECTED_PACKAGE_APP_CRC
    &&& report.header_crc == EXPECTED_PACKAGE_HEADER_CRC
    &&& report.package_len == EXPECTED_PACKAGE_LEN
    &&& report.chunk_count == EXPECTED_F0_CHUNK_COUNT
}

/// A transfer of any other firmware fails the check.
pub fn check_transfer(report: &TransferReport) -> (result: Result<(), AppError>)
    ensures
        if is_known_transfer(*report) {
            result is Ok
        } else {
            &&& result is Err
            &&& result->Err_0.kind == AppErrorKind::InvalidData
            &&& result->Err_0.text@ == "live bootstrap package regression failed"@
        },
{
    if report.app_len as usize == EXPECTED_APP_LEN && report.app_crc == EXPECTED_PACKAGE_APP_CRC
        && report.header_crc == EXPECTED_PACKAGE_HEADER_CRC && report.package_len
        == EXPECTED_PACKAGE_LEN && report.chunk_count == EXPECTED_F0_CHUNK_COUNT {
        Ok(())
    } else {
        Err(AppError::invalid_data("live bootstrap package regression failed".to_owned()))
    }
}

/// One exchange with the sensor on the way to an image.
#[derive(Debug, Clone, Copy, PartialEq, Eq)]
pub enum CaptureStep {
    /// Restore the configuration that the sensor lost.
    RestoreConfiguration,
    InstallImageSession,
    WaitForFingerDown,
    RequestImage,
    WaitForFingerUp,
}

/// The exchanges of a capture, in order. The configuration is restored, first of
/// all, exactly when the sensor has lost its power.
pub fn capture_plan(mcu_power_lost: bool) -> (plan: Vec<CaptureStep>)
    ensures
        plan@ == (if mcu_power_lost {
            seq![CaptureStep::RestoreConfiguration]
        } else {
            Seq::empty()
        }) + seq![
            CaptureStep::InstallImageSession,
            CaptureStep::WaitForFingerDown,
            CaptureStep::RequestImage,
            CaptureStep::WaitForFingerUp,
        ],
{
    let mut plan: Vec<CaptureStep> = Vec::new();
    if mcu_power_lost {
        plan.push(CaptureStep::RestoreConfiguration);
    }
    plan.push(CaptureStep::InstallImageSession);
    plan.push(CaptureStep::WaitForFingerDown);
    plan.push(CaptureStep::RequestImage);
    plan.push(CaptureStep::WaitForFingerUp);
    plan
}

/// Why no image came of a capture.
#[derive(Debug, Clone, PartialEq, Eq)]
pub enum CaptureError {
    /// The program refused it.
    App(AppError),
    /// A layer below failed, with its message.
    Layer(String),
}

/// An image that was captured.
#[derive(Debug, Clone, PartialEq, Eq)]
pub struct CaptureReport {
    pub protected_bytes: usize,
    pub encrypted_bytes: usize,
    pub stored_crc: u32,
    pub decrypted_bytes: usize,
    pub sample_count: usize,
    pub range: SampleRange,
    pub preprocess: Gf3258PreprocessDiagnostics,
    /// The image file.
    pub pgm: Vec<u8>,
}

/// The message of a boot image in the place of a fingerprint.
pub open spec fn boot_image_message() -> Seq<char> {
    "received boot image instead of normal fingerprint image"@
}

/// `result` fails in a layer below.
pub open spec fn is_layer_error(
    result: Result<CaptureReport, CaptureError>,
    message: Seq<char>,
) -> bool {
    match result {
        Err(CaptureError::Layer(text)) => text@ == message,
        _ => false,
    }
}

/// `result` is what the samples of an image came to.
pub open spec fn is_capture_of_samples<Q: Fn(&[u16]) -> Result<Gf3258PreprocessedFrame, String>>(
    result: Result<CaptureReport, CaptureError>,
    payload_len: nat,
    protected: Gf3258ProtectedImage,
    decrypted_len: nat,
    samples: Vec<u16>,
    preprocess: Q,
) -> bool {
    exists|list: &[u16], frame: Result<Gf3258PreprocessedFrame, String>|
        list@ == samples@ && #[trigger] call_ensures(preprocess, (list,), frame) && match frame {
            Err(message) => is_layer_error(result, message@),
            Ok(frame) => if frame.pixels@.len() != GF3258_PIXELS {
                match result {
                    Err(CaptureError::App(error)) => {
                        &&& error.kind == AppErrorKind::InvalidData
                        &&& error.text@ == pixel_count_message(frame.pixels@.len())
                    },
                    _ => false,
                }
            } else {
                match result {
                    Ok(report) => {
                        &&& report.protected_bytes == payload_len
                        &&& report.encrypted_bytes == protected.ciphertext@.len()
                        &&& report.stored_crc == protected.stored_crc
                        &&& report.decrypted_bytes == decrypted_len
                        &&& report.sample_count == samples@.len()
                        &&& is_range_of(report.range, samples@)
                        &&& report.preprocess == frame.diagnostics
                        &&& report.pgm@ == pgm_header() + frame.pixels@
                    },
                    _ => false,
                }
            },
        }
}

/// `result` is what a decrypted image came to: its CRC must be valid.
pub open spec fn is_capture_of<
    V: Fn(&Gf3258ProtectedImage, &[u8]) -> Result<(), String>,
    R: Fn(&[u8]) -> Result<Vec<u16>, String>,
    Q: Fn(&[u16]) -> Result<Gf3258PreprocessedFrame, String>,
>(
    result: Result<CaptureReport, CaptureError>,
    payload_len: nat,
    protected: Gf3258ProtectedImage,
    decrypted: Seq<u8>,
    validate_crc: V,
    restructure: R,
    preprocess: Q,
) -> bool {
    exists|checked_bytes: &[u8], checked: Result<(), String>|
        checked_bytes@ == decrypted && #[trigger] call_ensures(
            validate_crc,
            (&protected, checked_bytes),
            checked,
        ) && match checked {
            Err(message) => is_layer_error(result, message@),
            Ok(()) => exists|bytes: &[u8], raw: Result<Vec<u16>, String>|
                bytes@ == decrypted && #[trigger] call_ensures(restructure, (bytes,), raw)
                    && match raw {
                    Err(message) => is_layer_error(result, message@),
                    Ok(samples) => is_capture_of_samples(
                        result,
                        payload_len,
                        protected,
                        decrypted.len(),
                        samples,
                        preprocess,
                    ),
                },
        }
}

/// Turns a decrypted image into an image file.
pub fn image_of_decrypted<V, R, Q>(
    payload_len: usize,
    protected: Gf3258ProtectedImage,
    decrypted: Vec<u8>,
    validate_crc: &V,
    restructure: &R,
    preprocess: &Q,
) -> (result: Result<CaptureReport, CaptureError>) where
    V: Fn(&Gf3258ProtectedImage, &[u8]) -> Result<(), String>,
    R: Fn(&[u8]) -> Result<Vec<u16>, String>,
    Q: Fn(&[u16]) -> Result<Gf3258PreprocessedFrame, String>,

    requires
        forall|image: &Gf3258ProtectedImage, bytes: &[u8]| #[trigger]
            call_requires(*validate_crc, (image, bytes)),
        forall|bytes: &[u8]| #[trigger] call_requires(*restructure, (bytes,)),
        forall|samples: &[u16]| #[trigger] call_requires(*preprocess, (samples,)),
    ensures
        is_capture_of(
            result,
            payload_len as nat,
            protected,
            decrypted@,
            *validate_crc,
            *restructure,
            *preprocess,
        ),
{
    let bytes: &[u8] = decrypted.as_slice();
    let checked: Result<(), String> = validate_crc(&protected, bytes);
    assert(call_ensures(*validate_crc, (&protected, bytes), checked));
    match checked {
        Ok(()) => {},
        Err(message) => {
            return Err(CaptureError::Layer(message));
        },
    }
    let raw: Result<Vec<u16>, String> = restructure(bytes);
    assert(call_ensures(*restructure, (bytes,), raw));
    let samples: Vec<u16> = match raw {
        Ok(samples) => samples,
        Err(message) => {
            return Err(CaptureError::Layer(message));
        },
    };
    let list: &[u16] = samples.as_slice();
    let range: SampleRange = sample_range(list);
    let processed: Result<Gf3258PreprocessedFrame, String> = preprocess(list);
    assert(call_ensures(*preprocess, (list,), processed));
    let frame: Gf3258PreprocessedFrame = match processed {
        Ok(frame) => frame,
        Err(message) => {
            return Err(CaptureError::Layer(message));
        },
    };
    match pgm_image(frame.pixels.as_slice()) {
        Ok(pgm) => Ok(
            CaptureReport {
                protected_bytes: payload_len,
                encrypted_bytes: protected.ciphertext.len(),
                stored_crc: protected.stored_crc,
                decrypted_bytes: decrypted.len(),
                sample_count: samples.len(),
                range,
                preprocess: frame.diagnostics,
                pgm,
            },
        ),
        Err(error) => Err(CaptureError::App(error)),
    }
}

/// Turns the payload of a captured image into an image file: it is parsed,
/// refused if it is a boot image, decrypted, checked against its CRC,
/// restructured and preprocessed.
pub fn capture_image<P, V, R, Q>(
    payload: &[u8],
    image_key: &[u8; 16],
    parse: &P,
    validate_crc: &V,
    restructure: &R,
    preprocess: &Q,
) -> (result: Result<CaptureReport, CaptureError>) where
    P: Fn(&[u8]) -> Result<Gf3258ProtectedImage, String>,
    V: Fn(&Gf3258ProtectedImage, &[u8]) -> Result<(), String>,
    R: Fn(&[u8]) -> Result<Vec<u16>, String>,
    Q: Fn(&[u16]) -> Result<Gf3258PreprocessedFrame, String>,

    requires
        forall|payload: &[u8]| #[trigger] call_requires(*parse, (payload,)),
        forall|image: &Gf3258ProtectedImage, bytes: &[u8]| #[trigger]
            call_requires(*validate_crc, (image, bytes)),
        forall|bytes: &[u8]| #[trigger] call_requires(*restructure, (bytes,)),
        forall|samples: &[u16]| #[trigger] call_requires(*preprocess, (samples,)),
    ensures
        exists|parsed: Result<Gf3258ProtectedImage, String>| #[trigger]
            call_ensures(*parse, (payload,), parsed) && match parsed {
                Err(message) => is_layer_error(result, message@),
                Ok(protected) => if protected.boot_image {
                    match result {
                        Err(CaptureError::App(error)) => {
                            &&& error.kind == AppErrorKind::InvalidData
                            &&& error.text@ == boot_image_message()
                        },
                        _ => false,
                    }
                } else if protected.ciphertext@.len() % crypto::AES_BLOCK_LEN as nat != 0 {
                    is_layer_error(
                        result,
                        (crypto::CryptoError::CiphertextNotBlockAligned {
                            length: protected.ciphertext@.len() as usize,
                            block_size: crypto::AES_BLOCK_LEN,
                        }).message_spec(),
                    )
                } else {
                    is_capture_of(
                        result,
                        payload@.len(),
                        protected,
                        crypto::aes128_cbc_decrypted(
                            protected.ciphertext@,
                            image_key@,
                            crypto::ZERO_IV@,
                        ),
                        *validate_crc,
                        *restructure,
                        *preprocess,
                    )
                },
            },
{
    let parsed: Result<Gf3258ProtectedImage, String> = parse(payload);
    assert(call_ensures(*parse, (payload,), parsed));
    let protected: Gf3258ProtectedImage = match parsed {
        Ok(protected) => protected,
        Err(message) => {
            return Err(CaptureError::Layer(message));
        },
    };
    if protected.boot_image {
        return Err(
            CaptureError::App(
                AppError::invalid_data(
                    "received boot image instead of normal fingerprint image".to_owned(),
                ),
            ),
        );
    }
    let decrypted: Vec<u8> = match decrypt_image(protected.ciphertext.as_slice(), image_key) {
        Ok(decrypted) => decrypted,
        Err(error) => {
            return Err(CaptureError::Layer(error.message()));
        },
    };
    image_of_decrypted(
        payload.len(),
        protected,
        decrypted,
        validate_crc,
        restructure,
        preprocess,
    )
}

/// An image that was restructured for viewing.
#[derive(Debug, Clone, PartialEq, Eq)]
pub struct VisualReport {
    pub sample_count: usize,
    pub range: SampleRange,
    /// The image file.
    pub pgm: Vec<u8>,
}

/// Turns a decrypted image into an image file for viewing. `samples` and
/// `pixels` are the restructured image and its eight-bit form.
pub fn visual_image(samples: &[u16], pixels: &[u8]) -> (result: Result<VisualReport, AppError>)
    ensures
        if pixels@.len() == GF3258_PIXELS {
            &&& result is Ok
            &&& result->Ok_0.sample_count == samples@.len()
            &&& is_range_of(result->Ok_0.range, samples@)
            &&& result->Ok_0.pgm@ == pgm_header() + pixels@
        } else {
            &&& result is Err
            &&& result->Err_0.kind == AppErrorKind::InvalidData
            &&& result->Err_0.text@ == pixel_count_message(pixels@.len())
        },
{
    match pgm_image(pixels) {
        Ok(pgm) => Ok(
            VisualReport { sample_count: samples.len(), range: sample_range(samples), pgm },
        ),
        Err(error) => Err(error),
    }
}

/// Firmware is sent by no action but the one that says so, and by that one only
/// to a loader.
pub proof fn lemma_only_live_sends_firmware(action: ActionView, version: Seq<char>)
    ensures
        admission_of(action, version) == Some(Admission::SendFirmware) <==> (action is BootstrapLive
            && mode_of(version) == FirmwareMode::Iap),
{
}

/// The exact loader is recognized as a loader, so that firmware can be sent to
/// it.
pub proof fn lemma_exact_loader_is_admitted(firmware: Seq<char>)
    ensures
        mode_of(EXPECTED_IAP_VERSION@) == FirmwareMode::Iap,
        admission_of(ActionView::BootstrapLive { firmware }, EXPECTED_IAP_VERSION@) == Some(
            Admission::SendFirmware,
        ),
        live_refusal(mode_of(EXPECTED_IAP_VERSION@), EXPECTED_IAP_VERSION@) is None,
{
    let version = EXPECTED_IAP_VERSION@;
    reveal_strlit("MILAN_GM168SEC_IAP_10007");
    reveal_strlit("_APP_");
    reveal_strlit("_IAP_");
    assert(version.len() == 24);
    assert forall|at: int| !text::occurs_at(version, "_APP_"@, at) by {
        if text::occurs_at(version, "_APP_"@, at) {
            let part = version.subrange(at, at + 5);
            assert(part[0] == '_' && part[1] == 'A');
            assert(version[at] == '_' && version[at + 1] == 'A');
            assert(false);
        }
    }
    assert(version.subrange(14, 19) =~= "_IAP_"@);
    assert(text::occurs_at(version, "_IAP_"@, 14));
}

} // verus!
