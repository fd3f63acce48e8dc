use goodix_info::app_error::{AppError, AppErrorKind};
use goodix_info::cli::{
    admit_action, capture_image, capture_plan, check_bootstrap_live, check_transfer, encode_hex,
    firmware_mode, firmware_mode_name, metadata_text, parse_arguments, payload_preview, pgm_image,
    sample_range, transfer_report, verified_psk, visual_image, Action, Admission, CaptureError,
    CaptureStep, FirmwareMode, Invocation, Options, SampleRange,
};
use goodix_info::driver::Gf3258ProtectedImage;
use goodix_info::enrollment::{Gf3258PreprocessDiagnostics, Gf3258PreprocessedFrame};
use goodix_info::firmware::AppTransferPackage;

fn args(list: &[&str]) -> Vec<String> {
    list.iter().map(|arg| arg.to_string()).collect()
}

fn run(list: &[&str]) -> Options {
    match parse_arguments(&args(list)) {
        Ok(Invocation::Run(options)) => options,
        other => panic!("not a run: {other:?}"),
    }
}

fn refusal(list: &[&str]) -> String {
    match parse_arguments(&args(list)) {
        Err(error) => {
            assert_eq!(error.kind(), AppErrorKind::InvalidInput);
            error.message().to_owned()
        }
        other => panic!("not refused: {other:?}"),
    }
}

#[test]
fn no_argument_asks_for_information() {
    assert_eq!(
        run(&[]),
        Options {
            action: Action::Info,
            trace_path: None,
        }
    );
}

#[test]
fn each_command_takes_its_files() {
    assert_eq!(run(&["info"]).action, Action::Info);
    assert_eq!(run(&["monitor"]).action, Action::Monitor);
    assert_eq!(run(&["psk"]).action, Action::Psk);
    assert_eq!(
        run(&["capture", "a.pgm"]).action,
        Action::Capture {
            output: "a.pgm".to_owned()
        }
    );
    assert_eq!(
        run(&["bootstrap-check", "fw"]).action,
        Action::BootstrapCheck {
            firmware: "fw".to_owned()
        }
    );
    assert_eq!(
        run(&["bootstrap-live", "fw"]).action,
        Action::BootstrapLive {
            firmware: "fw".to_owned()
        }
    );
    assert_eq!(
        run(&["--trace", "t", "visualize", "in", "out"]),
        Options {
            action: Action::Visualize {
                input: "in".to_owned(),
                output: "out".to_owned()
            },
            trace_path: Some("t".to_owned()),
        }
    );
    // A file may be named like a command.
    assert_eq!(
        run(&["capture", "monitor"]).action,
        Action::Capture {
            output: "monitor".to_owned()
        }
    );
}

#[test]
fn wrong_arguments_are_refused() {
    assert_eq!(
        refusal(&["capture"]),
        "capture requires an output PGM filename"
    );
    assert_eq!(
        refusal(&["bootstrap-check"]),
        "bootstrap-check requires a firmware blob filename"
    );
    assert_eq!(
        refusal(&["bootstrap-live"]),
        "bootstrap-live requires a firmware blob filename"
    );
    assert_eq!(
        refusal(&["visualize"]),
        "visualize requires a decrypted input filename"
    );
    assert_eq!(
        refusal(&["visualize", "in"]),
        "visualize requires an output PGM filename"
    );
    assert_eq!(refusal(&["--trace"]), "--trace requires a filename");
    assert_eq!(
        refusal(&["--trace", "a", "--trace", "b"]),
        "--trace may only be specified once"
    );
    assert_eq!(
        refusal(&["info", "psk"]),
        "only one command may be specified"
    );
    assert_eq!(refusal(&["enroll"]), "unknown argument: enroll");
}

#[test]
fn the_first_request_for_help_or_error_decides() {
    assert_eq!(
        parse_arguments(&args(&["info", "--help", "enroll"])),
        Ok(Invocation::Help)
    );
    assert_eq!(parse_arguments(&args(&["-h"])), Ok(Invocation::Help));
    assert_eq!(refusal(&["enroll", "--help"]), "unknown argument: enroll");
}

#[test]
fn the_version_names_the_mode() {
    assert_eq!(
        firmware_mode("GFUSB_GM168SEC_APP_15045"),
        FirmwareMode::App
    );
    assert_eq!(
        firmware_mode("MILAN_GM168SEC_IAP_10007"),
        FirmwareMode::Iap
    );
    assert_eq!(firmware_mode("_IAP_APP_"), FirmwareMode::App);
    assert_eq!(firmware_mode("APP"), FirmwareMode::Unknown);
    assert_eq!(firmware_mode(""), FirmwareMode::Unknown);
    assert_eq!(firmware_mode_name(FirmwareMode::App), "APP");
    assert_eq!(firmware_mode_name(FirmwareMode::Iap), "IAP");
    assert_eq!(firmware_mode_name(FirmwareMode::Unknown), "UNKNOWN");
}

#[test]
fn a_loader_admits_reading_and_sending_only() {
    let loader = "MILAN_GM168SEC_IAP_10007";
    let check = Action::BootstrapCheck {
        firmware: "fw".to_owned(),
    };
    let live = Action::BootstrapLive {
        firmware: "fw".to_owned(),
    };
    assert_eq!(admit_action(&Action::Psk, loader), Ok(Admission::ReadOnly));
    assert_eq!(admit_action(&check, loader), Ok(Admission::ReadOnly));
    assert_eq!(admit_action(&live, loader), Ok(Admission::SendFirmware));
    assert_eq!(admit_action(&Action::Info, loader), Ok(Admission::Stop));
    assert_eq!(admit_action(&Action::Monitor, loader), Ok(Admission::Stop));
    assert_eq!(
        admit_action(&live, "GFUSB_GM168SEC_APP_15045"),
        Ok(Admission::Proceed)
    );
    assert_eq!(
        admit_action(&Action::Info, "?"),
        Err(AppError::invalid_data(
            "unrecognized firmware version: ?".to_owned()
        ))
    );
}

#[test]
fn firmware_is_sent_to_the_exact_loader_only() {
    assert!(check_bootstrap_live(FirmwareMode::Iap, "MILAN_GM168SEC_IAP_10007").is_ok());
    assert_eq!(
        check_bootstrap_live(FirmwareMode::App, "GFUSB_GM168SEC_APP_15045")
            .unwrap_err()
            .message(),
        "bootstrap-live is permitted only while the device is in IAP mode"
    );
    assert_eq!(
        check_bootstrap_live(FirmwareMode::Iap, "MILAN_GM168SEC_IAP_10008")
            .unwrap_err()
            .message(),
        "bootstrap-live requires exact IAP MILAN_GM168SEC_IAP_10007, \
         device reported MILAN_GM168SEC_IAP_10008"
    );
}

#[test]
fn bytes_are_shown_in_hexadecimal() {
    assert_eq!(encode_hex(&[]), "");
    assert_eq!(encode_hex(&[0x00, 0x0f, 0xa5, 0xff]), "000fa5ff");
    let payload: Vec<u8> = (0..40).collect();
    assert_eq!(payload_preview(&payload), encode_hex(&payload[..32]));
    assert_eq!(payload_preview(&[7]), "07");
}

#[test]
fn metadata_is_text_or_a_list_of_bytes() {
    assert_eq!(metadata_text(b"APP_1"), "APP_1");
    assert_eq!(metadata_text("caf\u{e9}".as_bytes()), "caf\u{e9}");
    assert_eq!(metadata_text(&[0xff, 0x01]), "[ff, 01]");
}

#[test]
fn an_image_file_has_a_header_and_one_byte_per_pixel() {
    let pixels = vec![9u8; 5120];
    let pgm = pgm_image(&pixels).unwrap();
    assert_eq!(&pgm[..13], b"P5\n80 64\n255\n");
    assert_eq!(&pgm[13..], &pixels[..]);
    let error = pgm_image(&[1, 2]).unwrap_err();
    assert_eq!(error.kind(), AppErrorKind::InvalidData);
    assert_eq!(
        error.message(),
        "unexpected image pixel count: expected 5120, received 2"
    );
}

#[test]
fn the_range_of_samples_is_least_and_greatest() {
    assert_eq!(
        sample_range(&[300, 20, 4095]),
        SampleRange {
            least: 20,
            greatest: 4095
        }
    );
    assert_eq!(
        sample_range(&[]),
        SampleRange {
            least: 0,
            greatest: 0
        }
    );
}

#[test]
fn a_key_is_accepted_with_a_valid_hash_only() {
    let psk = verified_psk(vec![1], vec![0, 0], [2; 32], [2; 32], true).unwrap();
    assert!(psk.is_all_zero());
    assert_eq!(psk.sealed, vec![1]);
    assert!(!verified_psk(vec![], vec![0, 1], [2; 32], [2; 32], true)
        .unwrap()
        .is_all_zero());
    assert_eq!(
        verified_psk(vec![], vec![], [2; 32], [3; 32], false)
            .unwrap_err()
            .message(),
        "persisted PSK failed SHA-256 verification"
    );
}

#[test]
fn a_transfer_is_described_by_its_ends() {
    let package = AppTransferPackage::from_app(&[0u8; 0x6100]).unwrap();
    let report = transfer_report(&package);
    assert_eq!(report.app_len, 0x6100);
    assert_eq!(report.package_len, 0x610c);
    assert_eq!(report.chunk_count, 98);
    assert_eq!(report.app_crc, package.app_crc());
    assert_eq!(report.header_crc, package.header_crc());
    assert_eq!(report.package_header, encode_hex(&package.bytes()[..12]));
    assert_eq!(report.first.offset, 0);
    assert_eq!(report.first.length, 0x100);
    assert_eq!(report.first.header, "000000000001000002000000");
    assert_eq!(report.last.offset, 0x6100);
    assert_eq!(report.last.length, 0x0c);
    assert_eq!(report.last.header, "006100000c00000002000000");
    // Zeros are not the known firmware.
    assert_eq!(
        check_transfer(&report).unwrap_err().message(),
        "live bootstrap package regression failed"
    );
    let mut known = report;
    known.app_crc = 0x4d44_46c1;
    known.header_crc = 0xa2b6_9ee2;
    assert!(check_transfer(&known).is_ok());
}

#[test]
fn a_capture_restores_what_was_lost_first() {
    let usual = [
        CaptureStep::InstallImageSession,
        CaptureStep::WaitForFingerDown,
        CaptureStep::RequestImage,
        CaptureStep::WaitForFingerUp,
    ];
    assert_eq!(capture_plan(false), usual);
    let restored = capture_plan(true);
    assert_eq!(restored[0], CaptureStep::RestoreConfiguration);
    assert_eq!(restored[1..], usual);
}

const KEY: [u8; 16] = [
    0x2b, 0x7e, 0x15, 0x16, 0x28, 0xae, 0xd2, 0xa6, 0xab, 0xf7, 0x15, 0x88, 0x09, 0xcf, 0x4f, 0x3c,
];

const CIPHERTEXT: [u8; 16] = [
    0x3a, 0xd7, 0x7b, 0xb4, 0x0d, 0x7a, 0x36, 0x60, 0xa8, 0x9e, 0xca, 0xf3, 0x24, 0x66, 0xef, 0x97,
];

fn image(ciphertext: &[u8], boot_image: bool) -> Result<Gf3258ProtectedImage, String> {
    Ok(Gf3258ProtectedImage {
        boot_image,
        ciphertext: ciphertext.to_vec(),
        stored_crc: 0xcafe_f00d,
    })
}

fn frame(pixels: usize) -> Gf3258PreprocessedFrame {
    Gf3258PreprocessedFrame {
        pixels: vec![5; pixels],
        diagnostics: Gf3258PreprocessDiagnostics {
            valid_central_pixels: 1,
            tested_central_pixels: 2,
            foreground_count: 3,
            coverage_percent: 4,
            active_difference_count: 5,
            gain_correction_active: true,
            low_dynamic_range_count: 6,
            pathological_edge_samples: 7,
        },
    }
}

#[test]
fn a_captured_payload_becomes_an_image_file() {
    let report = capture_image(
        &CIPHERTEXT,
        &KEY,
        &|payload: &[u8]| image(payload, false),
        &|_: &Gf3258ProtectedImage, _: &[u8]| Ok(()),
        &|bytes: &[u8]| Ok(bytes.iter().map(|&byte| u16::from(byte)).collect()),
        &|samples: &[u16]| {
            assert_eq!(samples[0], 0x6b);
            Ok(frame(5120))
        },
    )
    .unwrap();
    assert_eq!(report.protected_bytes, 16);
    assert_eq!(report.encrypted_bytes, 16);
    assert_eq!(report.stored_crc, 0xcafe_f00d);
    assert_eq!(report.decrypted_bytes, 16);
    assert_eq!(report.sample_count, 16);
    assert_eq!(
        report.range,
        SampleRange {
            least: 0x11,
            greatest: 0xe9
        }
    );
    assert_eq!(report.preprocess.pathological_edge_samples, 7);
    assert_eq!(report.pgm.len(), 13 + 5120);
}

#[test]
fn a_capture_fails_at_the_layer_that_refuses_it() {
    let good_parse = |payload: &[u8]| image(payload, false);
    let good_check = |_: &Gf3258ProtectedImage, _: &[u8]| Ok::<(), String>(());
    let good_shape = |_: &[u8]| Ok::<Vec<u16>, String>(vec![]);
    let good_frame = |_: &[u16]| Ok::<_, String>(frame(5120));
    assert_eq!(
        capture_image(
            &CIPHERTEXT,
            &KEY,
            &|_: &[u8]| Err("parse".to_owned()),
            &good_check,
            &good_shape,
            &good_frame,
        ),
        Err(CaptureError::Layer("parse".to_owned()))
    );
    assert_eq!(
        capture_image(
            &CIPHERTEXT,
            &KEY,
            &|payload: &[u8]| image(payload, true),
            &good_check,
            &good_shape,
            &good_frame,
        ),
        Err(CaptureError::App(AppError::invalid_data(
            "received boot image instead of normal fingerprint image".to_owned()
        )))
    );
    assert!(matches!(
        capture_image(
            &CIPHERTEXT[..15],
            &KEY,
            &good_parse,
            &good_check,
            &good_shape,
            &good_frame,
        ),
        Err(CaptureError::Layer(_))
    ));
    assert_eq!(
        capture_image(
            &CIPHERTEXT,
            &KEY,
            &good_parse,
            &|_: &Gf3258ProtectedImage, _: &[u8]| Err("crc".to_owned()),
            &good_shape,
            &good_frame,
        ),
        Err(CaptureError::Layer("crc".to_owned()))
    );
    assert_eq!(
        capture_image(
            &CIPHERTEXT,
            &KEY,
            &good_parse,
            &good_check,
            &|_: &[u8]| Err("shape".to_owned()),
            &good_frame,
        ),
        Err(CaptureError::Layer("shape".to_owned()))
    );
    assert_eq!(
        capture_image(
            &CIPHERTEXT,
            &KEY,
            &good_parse,
            &good_check,
            &good_shape,
            &|_: &[u16]| Err("blank".to_owned()),
        ),
        Err(CaptureError::Layer("blank".to_owned()))
    );
    assert!(matches!(
        capture_image(
            &CIPHERTEXT,
            &KEY,
            &good_parse,
            &good_check,
            &good_shape,
            &|_: &[u16]| Ok(frame(3)),
        ),
        Err(CaptureError::App(_))
    ));
}

#[test]
fn an_image_for_viewing_keeps_its_range() {
    let report = visual_image(&[10, 40], &[0; 5120]).unwrap();
    assert_eq!(report.sample_count, 2);
    assert_eq!(
        report.range,
        SampleRange {
            least: 10,
            greatest: 40
        }
    );
    assert_eq!(report.pgm.len(), 5133);
    assert!(visual_image(&[], &[0; 5]).is_err());
}
