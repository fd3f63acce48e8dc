use goodix_info::bootstrap::{
    advance_cold_bootstrap, begin_cold_bootstrap, cold_bootstrap, version_of_metadata,
    BootstrapError,
    ColdBootstrapEvent, ColdBootstrapState, EXPECTED_APP_VERSION, EXPECTED_CHIP_ID,
    EXPECTED_IAP_VERSION,
};
use goodix_info::chicago_h::{
    base_config, decode_calibration, decode_fdt_offset, replace_config_value, ChicagoHError,
};
use goodix_info::crypto::{decryption_outcome, CryptoError, ImageSession};
use goodix_info::device::{
    discover_layout, is_goodix_550a, layout_from_interface, next_reenumeration_action,
    poll_wait_millis, GoodixUsbErrorKind, ReenumerationAction, ReenumerationError,
    ReenumerationEvent, ReenumerationPhase, UsbEndpoint, UsbInterface, UsbLayout,
};
use goodix_info::driver::{
    advance_capture, begin_capture, Gf3258CaptureState, Gf3258SessionError, Gf3258SessionStage,
};
use goodix_info::feature::descriptor::{gf3258_primary_descriptor, Gf3258DescriptorError};
use goodix_info::feature::detector::{exp2_q16, RawExtremum, RefinedExtremum};
use goodix_info::feature::extraction::{
    gf3258_extract_primary_features_with_descriptor_scale, Gf3258C0910Inputs,
    Gf3258PrimaryExtractionError,
};
use goodix_info::feature::matching::{
    gf3258_generate_match_candidates, gf3258_generate_recovery_pair_slots_from_score_matrix,
    Gf3258CandidateMatchError, Gf3258CandidateMatcherConfig, Gf3258MatcherFeatureSet,
    Gf3258MatcherPoint, Gf3258RecoveryEnrolledPoint,
};
use goodix_info::feature::orientation::{gf3258_primary_orientation, Gf3258OrientationError};
use goodix_info::feature::support::{
    gf3258_point_support, gf3258_rehabilitate_point_statuses, Gf3258PointSupportError,
    Gf3258SupportPoint,
};
use goodix_info::firmware::{
    crc32_mpeg2, firmware_check_outcome, AppTransferPackage, FirmwareBlob, FirmwareError,
    WriteAppTransferError, WriteAppTransferResult,
};
use std::time::Duration;

fn blob(metadata: &[u8], app: &[u8]) -> Vec<u8> {
    let mut blob = vec![metadata.len() as u8];
    blob.extend_from_slice(metadata);
    blob.extend_from_slice(app);
    let crc = crc32_mpeg2(&blob);
    blob.extend_from_slice(&crc.to_le_bytes());
    blob
}

#[test]
fn a_blob_gives_back_its_parts_or_its_fault() {
    let raw = blob(b"meta", b"application");
    let parsed = FirmwareBlob::parse(&raw).unwrap();
    assert_eq!(parsed.metadata(), b"meta");
    assert_eq!(parsed.app(), b"application");
    assert_eq!(
        FirmwareBlob::parse(&[0, 0, 0, 0]).unwrap_err(),
        FirmwareError::BlobTooShort { size: 4 }
    );
    assert_eq!(
        FirmwareBlob::parse(&blob(b"meta", b"")).unwrap_err(),
        FirmwareError::EmptyApp
    );
    assert_eq!(
        AppTransferPackage::from_app(&[]).unwrap_err(),
        FirmwareError::EmptyApp
    );
    let error = FirmwareError::BlobTooShort { size: 4 };
    assert!(error.message().contains('4'));
}

#[test]
fn the_completion_of_a_check_decides_the_transfer() {
    assert_eq!(
        firmware_check_outcome::<String>(&[9], 98),
        Ok(WriteAppTransferResult {
            f0_chunks_sent: 98,
            firmware_check_result: 9,
        })
    );
    assert_eq!(
        firmware_check_outcome::<String>(&[0], 98)
            .unwrap_err()
            .message(),
        "firmware F4 check rejected the APP package with result 0x00"
    );
    assert_eq!(
        firmware_check_outcome::<String>(&[1, 2], 98)
            .unwrap_err()
            .message(),
        "malformed F4 completion: expected exactly one result byte, received 2"
    );
    assert_eq!(
        WriteAppTransferError::Transport("lost".to_owned()).message(),
        "firmware transport error: lost"
    );
}

fn step(
    state: ColdBootstrapState,
    event: ColdBootstrapEvent,
    raw: &[u8],
) -> Result<ColdBootstrapState, BootstrapError> {
    advance_cold_bootstrap(state, event, raw)
}

#[test]
fn a_bootstrap_takes_its_steps_in_order() {
    let raw = blob(EXPECTED_APP_VERSION.as_bytes(), &[1, 2, 3]);
    let state = step(
        begin_cold_bootstrap(),
        ColdBootstrapEvent::IapVersion(EXPECTED_IAP_VERSION.to_owned()),
        &raw,
    )
    .unwrap();
    let state = step(state, ColdBootstrapEvent::PskMatches(true), &raw).unwrap();
    match &state {
        ColdBootstrapState::AwaitTransfer { package, .. } => assert_eq!(package.app(), &[1, 2, 3]),
        other => panic!("no transfer: {other:?}"),
    }
    let sent = WriteAppTransferResult {
        f0_chunks_sent: 1,
        firmware_check_result: 5,
    };
    let state = step(state, ColdBootstrapEvent::Transferred(sent), &raw).unwrap();
    let state = step(state, ColdBootstrapEvent::ResetAcknowledged, &raw).unwrap();
    let state = step(state, ColdBootstrapEvent::Reattached, &raw).unwrap();
    let state = step(
        state,
        ColdBootstrapEvent::AppVersion(EXPECTED_APP_VERSION.to_owned()),
        &raw,
    )
    .unwrap();
    match step(state, ColdBootstrapEvent::ChipId(EXPECTED_CHIP_ID), &raw).unwrap() {
        ColdBootstrapState::Complete { result } => {
            assert_eq!(result.app_version, EXPECTED_APP_VERSION);
            assert_eq!(result.chip_id, 0x0025_03a8);
            assert_eq!(result.f0_chunks_sent, 1);
            assert_eq!(result.firmware_check_result, 5);
        }
        other => panic!("not complete: {other:?}"),
    }
}

#[test]
fn each_step_of_a_bootstrap_can_fail() {
    let raw = blob(EXPECTED_APP_VERSION.as_bytes(), &[1]);
    let begun = || begin_cold_bootstrap();
    assert_eq!(
        step(begun(), ColdBootstrapEvent::IapVersion("X".to_owned()), &raw).unwrap_err(),
        BootstrapError::NotIap {
            reported: "X".to_owned()
        }
    );
    assert_eq!(
        step(begun(), ColdBootstrapEvent::Reattached, &raw).unwrap_err(),
        BootstrapError::OutOfOrder
    );
    let key = || ColdBootstrapState::AwaitPskCheck;
    assert_eq!(
        step(key(), ColdBootstrapEvent::PskMatches(false), &raw)
            .unwrap_err()
            .message(),
        "persisted Goodix PSK failed SHA-256 verification"
    );
    assert_eq!(
        step(key(), ColdBootstrapEvent::PskMatches(true), &[]).unwrap_err(),
        BootstrapError::Firmware(FirmwareError::BlobTooShort { size: 0 })
    );
    assert_eq!(
        step(
            key(),
            ColdBootstrapEvent::PskMatches(true),
            &blob(&[0xff], &[1])
        )
        .unwrap_err(),
        BootstrapError::MetadataNotText {
            message: "invalid utf-8 sequence of 1 bytes from index 0".to_owned()
        }
    );
    assert_eq!(
        step(
            key(),
            ColdBootstrapEvent::PskMatches(true),
            &blob(b"other", &[1])
        )
        .unwrap_err(),
        BootstrapError::MetadataMismatch {
            found: "other".to_owned()
        }
    );
    assert_eq!(
        cold_bootstrap(&blob(b"other", &[1])).unwrap_err(),
        BootstrapError::UnexpectedMetadata {
            found: "other".to_owned()
        }
    );
    assert_eq!(
        cold_bootstrap(&raw).unwrap_err(),
        BootstrapError::InexactFirmware
    );
    let pending = || goodix_info::bootstrap::PendingColdBootstrap {
        expected_app_version: EXPECTED_APP_VERSION.to_owned(),
        f0_chunks_sent: 98,
        firmware_check_result: 1,
    };
    assert!(matches!(
        step(
            ColdBootstrapState::AwaitAppVersion { pending: pending() },
            ColdBootstrapEvent::AppVersion("old".to_owned()),
            &raw
        ),
        Err(BootstrapError::AppVersionMismatch { .. })
    ));
    assert!(matches!(
        step(
            ColdBootstrapState::AwaitChipId {
                pending: pending(),
                app_version: EXPECTED_APP_VERSION.to_owned()
            },
            ColdBootstrapEvent::ChipId(7),
            &raw
        ),
        Err(BootstrapError::UnexpectedChipId { chip_id: 7 })
    ));
}

#[test]
fn calibration_faults_are_named() {
    let mut otp = [0u8; 64];
    otp[0x2a] = 0x76;
    otp[0x2d] = 0x77;
    assert_eq!(
        decode_calibration(&otp),
        Err(ChicagoHError::InvalidTcodeDiffCopies {
            source: 0x76,
            redundant: 0x77
        })
    );
    otp[0x2d] = 0x76;
    otp[0x1b] = 0b0010_1000;
    assert_eq!(
        decode_calibration(&otp),
        Err(ChicagoHError::InvalidFdtOffsetEncoding { encoded: 0x28 })
    );
    // Three copies that all differ: 0, 1 and 2.
    assert_eq!(decode_fdt_offset(0b0010_1000), None);
    assert_eq!(decode_fdt_offset(0b0000_1100), Some(0));
    let mut config = base_config();
    let before = config;
    assert!(matches!(
        replace_config_value(&mut config, 0x10, 0x10, 0x1234, 1),
        Err(ChicagoHError::ConfigKeyMissing { key: 0x1234, .. })
    ));
    assert_eq!(config, before);
}

#[test]
fn fresh_sessions_differ() {
    let first = ImageSession::generate().unwrap();
    let second = ImageSession::generate().unwrap();
    assert_ne!(first.d2_payload(), second.d2_payload());
    assert_ne!(first.d2_payload(), &[0; 32]);
    assert_eq!(first.image_key(), first.d2_payload()[16..]);
    assert_eq!(
        decryption_outcome(None),
        Err(CryptoError::DecryptionFailed)
    );
    assert_eq!(decryption_outcome(Some(vec![1])), Ok(vec![1]));
}

fn endpoint(bulk: bool, is_in: bool, address: u8, max_packet_size: u16) -> UsbEndpoint {
    UsbEndpoint {
        bulk,
        is_in,
        address,
        max_packet_size,
    }
}

#[test]
fn a_layout_has_bulk_endpoints_in_both_directions() {
    let control = UsbInterface {
        number: 0,
        endpoints: vec![endpoint(false, true, 0x82, 512)],
    };
    let half = UsbInterface {
        number: 1,
        endpoints: vec![endpoint(true, true, 0x81, 64)],
    };
    let full = UsbInterface {
        number: 2,
        endpoints: vec![
            endpoint(true, true, 0x81, 64),
            endpoint(true, false, 0x01, 32),
            endpoint(true, true, 0x83, 16),
            endpoint(false, false, 0x05, 999),
        ],
    };
    assert_eq!(layout_from_interface(&half), None);
    assert_eq!(discover_layout(&vec![control.clone(), half.clone()]), None);
    assert_eq!(
        discover_layout(&vec![control, half, full]),
        Some(UsbLayout {
            interface: 2,
            bulk_in: 0x83,
            bulk_out: 0x01,
            max_packet_size: 64,
        })
    );
    assert!(is_goodix_550a(0x27c6, 0x550a));
    assert!(!is_goodix_550a(0x27c6, 0x550b));
}

#[test]
fn a_reset_sensor_must_leave_before_it_comes_back() {
    let act = |phase, event| next_reenumeration_action(phase, event, Duration::from_secs(10));
    let bus = |present, expired| ReenumerationEvent::Bus { present, expired };
    assert_eq!(
        act(ReenumerationPhase::Detaching, bus(true, false)),
        ReenumerationAction::WaitThen(ReenumerationPhase::Detaching)
    );
    assert_eq!(
        act(ReenumerationPhase::Detaching, bus(false, true)),
        ReenumerationAction::Continue(ReenumerationPhase::Attaching)
    );
    assert_eq!(
        act(ReenumerationPhase::Detaching, bus(true, true)),
        ReenumerationAction::Failed(ReenumerationError::DetachTimedOut {
            timeout: Duration::from_secs(10)
        })
    );
    assert_eq!(
        act(
            ReenumerationPhase::Attaching,
            ReenumerationEvent::Clock { expired: true }
        ),
        ReenumerationAction::Failed(ReenumerationError::AttachTimedOut {
            timeout: Duration::from_secs(10)
        })
    );
    assert_eq!(
        act(
            ReenumerationPhase::Attaching,
            ReenumerationEvent::Clock { expired: false }
        ),
        ReenumerationAction::Continue(ReenumerationPhase::Opening)
    );
    let failed = |kind| ReenumerationEvent::OpenFailed {
        kind,
        text: "x".to_owned(),
    };
    assert_eq!(
        act(
            ReenumerationPhase::Opening,
            failed(GoodixUsbErrorKind::NotFound)
        ),
        ReenumerationAction::WaitThen(ReenumerationPhase::Attaching)
    );
    assert_eq!(
        act(ReenumerationPhase::Opening, failed(GoodixUsbErrorKind::Busy)),
        ReenumerationAction::Failed(ReenumerationError::Usb("x".to_owned()))
    );
    assert_eq!(
        act(ReenumerationPhase::Opening, ReenumerationEvent::Opened),
        ReenumerationAction::Finished
    );
    assert_eq!(
        act(ReenumerationPhase::Detaching, ReenumerationEvent::Opened),
        ReenumerationAction::OutOfOrder
    );
    assert_eq!(poll_wait_millis(1000), 25);
    assert_eq!(poll_wait_millis(7), 7);
}

#[test]
fn a_capture_awaits_the_release_before_it_is_done() {
    let session = ImageSession::from_material([3; 32]);
    let (_, mut state) = begin_capture(Ok(session)).unwrap();
    for payload in [vec![1], vec![2], vec![3], vec![4]] {
        assert!(!matches!(state, Gf3258CaptureState::Captured { .. }));
        state = advance_capture(state, Ok(payload)).unwrap();
    }
    assert_eq!(state, Gf3258CaptureState::Captured { payload: vec![3] });

    assert_eq!(
        begin_capture(Err("no entropy".to_owned())).unwrap_err(),
        Gf3258SessionError::stage(
            Gf3258SessionStage::GenerateImageSession,
            "no entropy".to_owned()
        )
    );
    for (state, stage) in [
        (
            Gf3258CaptureState::InstallingSession,
            Gf3258SessionStage::InstallImageSession,
        ),
        (
            Gf3258CaptureState::WaitingForFinger,
            Gf3258SessionStage::FingerDown,
        ),
        (
            Gf3258CaptureState::ReadingImage,
            Gf3258SessionStage::ReadImage,
        ),
        (
            Gf3258CaptureState::WaitingForRelease { payload: vec![] },
            Gf3258SessionStage::FingerUp,
        ),
    ] {
        assert_eq!(
            advance_capture(state, Err("lost".to_owned())),
            Err(Gf3258SessionError::stage(stage, "lost".to_owned()))
        );
    }
}

#[test]
fn powers_that_are_too_large_vanish() {
    assert_eq!(exp2_q16(46 << 16), 0);
    assert_eq!(exp2_q16(47 << 16), 0);
    assert_eq!(exp2_q16((63 << 16) + 5), 0);
    assert_eq!(exp2_q16(-(47 << 16)), 0);
    assert_eq!(exp2_q16(i32::MIN), 0x10000);
}

fn candidate(scale_q16: i32) -> RefinedExtremum {
    RefinedExtremum {
        ordinal: 0,
        raw: RawExtremum {
            dog_level: 1,
            x: 40,
            y: 32,
            response: 1,
        },
        x: 40,
        y: 32,
        dog_level: 1,
        dx_q12: 0,
        dy_q12: 0,
        ds_q12: 0,
        x_q8: 40 << 8,
        y_q8: 32 << 8,
        response: 1,
        spatial_det: 1,
        scale_q16,
        iterations: 0,
    }
}

#[test]
fn maps_and_scales_are_checked() {
    let magnitude = vec![0i32; 5120];
    let angle = vec![0u16; 5120];
    let point = candidate(0x10000);
    assert_eq!(
        gf3258_primary_orientation(&point, &magnitude[1..], &angle).unwrap_err(),
        Gf3258OrientationError::UnexpectedMapCount {
            map: "i32 magnitude",
            expected: 5120,
            actual: 5119,
        }
    );
    assert_eq!(
        gf3258_primary_orientation(&candidate(0), &magnitude, &angle).unwrap_err(),
        Gf3258OrientationError::InvalidScale(0)
    );
    assert_eq!(
        gf3258_primary_descriptor(&point, 0, 0x10000, &magnitude, &angle[1..]).unwrap_err(),
        Gf3258DescriptorError::UnexpectedMapCount {
            map: "u16 angle",
            expected: 5120,
            actual: 5119,
        }
    );
    assert_eq!(
        gf3258_primary_descriptor(&point, 0, 0, &magnitude, &angle).unwrap_err(),
        Gf3258DescriptorError::InvalidScale(0)
    );
    assert_eq!(
        gf3258_primary_descriptor(&point, 0x3244, 0x10000, &magnitude, &angle).unwrap_err(),
        Gf3258DescriptorError::InvalidOrientation(0x3244)
    );
    let image = vec![0u8; 5120];
    assert!(matches!(
        gf3258_extract_primary_features_with_descriptor_scale(
            Gf3258C0910Inputs {
                gradient_source_u8: &image,
                detector_source_u8: &image,
            },
            0
        ),
        Err(Gf3258PrimaryExtractionError::InvalidDescriptorScale(0))
    ));
}

fn settings(first: i32, mode: i32, best: i32, second: i32) -> Gf3258CandidateMatcherConfig {
    Gf3258CandidateMatcherConfig {
        first_half_hamming_max: first,
        descriptor_mode_hamming_max: mode,
        ambiguity_best_multiplier: best,
        ambiguity_second_multiplier: second,
    }
}

fn set(points: &[Gf3258MatcherPoint], polarity_split: usize) -> Gf3258MatcherFeatureSet<'_> {
    Gf3258MatcherFeatureSet {
        points,
        polarity_split,
    }
}

#[test]
fn matcher_arguments_are_checked() {
    let point = Gf3258MatcherPoint {
        polarity: 0,
        x_q8: 0,
        y_q8: 0,
        orientation_q12: 0,
        descriptor_10_1f: [0; 16],
        hash20: 0,
        hash24: 0,
        hash28: 0,
        hash30: 0,
    };
    let good = settings(1, 1, 1, 1);
    assert_eq!(
        gf3258_generate_match_candidates(set(&[], 1), set(&[], 0), good),
        Err(Gf3258CandidateMatchError::InvalidPolaritySplit {
            side: "enrolled",
            split: 1,
            point_count: 0,
        })
    );
    assert_eq!(
        gf3258_generate_match_candidates(set(&[], 0), set(&[], 2), good),
        Err(Gf3258CandidateMatchError::InvalidPolaritySplit {
            side: "live",
            split: 2,
            point_count: 0,
        })
    );
    let many = vec![point; 181];
    assert_eq!(
        gf3258_generate_match_candidates(set(&[], 0), set(&many, 0), good),
        Err(Gf3258CandidateMatchError::TooManyLivePoints {
            actual: 181,
            maximum: 180,
        })
    );
    for (config, field) in [
        (settings(-1, 1, 1, 1), "first_half_hamming_max"),
        (settings(1, -1, 1, 1), "descriptor_mode_hamming_max"),
        (settings(1, 1, -1, 1), "ambiguity_best_multiplier"),
        (settings(1, 1, 1, -1), "ambiguity_second_multiplier"),
    ] {
        assert_eq!(
            gf3258_generate_match_candidates(set(&[], 0), set(&[], 0), config),
            Err(Gf3258CandidateMatchError::InvalidThreshold { field, value: -1 })
        );
    }
    let stored = [Gf3258RecoveryEnrolledPoint { x_q8: 0, y_q8: 0 }];
    assert_eq!(
        gf3258_generate_recovery_pair_slots_from_score_matrix(
            &stored,
            0,
            set(&[], 0),
            good,
            &[0; 179]
        ),
        Err(Gf3258CandidateMatchError::RecoveryScoreMatrixTooSmall {
            actual: 179,
            required: 180,
        })
    );
}

#[test]
fn support_needs_one_value_per_point() {
    let points = [Gf3258SupportPoint { x_q8: 0, y_q8: 0 }];
    assert!(matches!(
        gf3258_point_support(&points, &[], &[1], true),
        Err(Gf3258PointSupportError::CountMismatch {
            expected: 1,
            actual: 0,
            ..
        })
    ));
    assert!(matches!(
        gf3258_point_support(&points, &[1], &[], true),
        Err(Gf3258PointSupportError::CountMismatch { .. })
    ));
    let once = gf3258_rehabilitate_point_statuses(&[2, 2, 1], &[31; 3], &[66; 3], &[66; 3], &[36, 35, 36])
        .unwrap();
    let twice =
        gf3258_rehabilitate_point_statuses(&once, &[31; 3], &[66; 3], &[66; 3], &[36, 35, 36])
            .unwrap();
    assert_eq!(once[..2], [0, 2]);
    assert_eq!(twice, once);
    assert!(gf3258_rehabilitate_point_statuses(&[2], &[], &[66], &[66], &[36]).is_err());
}

#[test]
fn a_sensor_that_stays_away_is_reported_with_the_time_allowed() {
    let gone = ReenumerationError::DetachTimedOut {
        timeout: Duration::from_secs(10),
    };
    assert_eq!(
        gone.message(),
        "Goodix 27c6:550a did not detach within the 10s re-enumeration deadline"
    );
    let away = ReenumerationError::AttachTimedOut {
        timeout: Duration::from_millis(1500),
    };
    assert_eq!(
        away.message(),
        "Goodix 27c6:550a detached but did not reattach and reopen within the 1.5s \
         re-enumeration deadline"
    );
    assert_eq!(
        away.message_within("x"),
        "Goodix 27c6:550a detached but did not reattach and reopen within the x \
         re-enumeration deadline"
    );
    assert_eq!(
        ReenumerationError::Usb("pipe".to_owned()).message(),
        "USB error while waiting for Goodix re-enumeration: pipe"
    );
}

#[test]
fn metadata_is_a_version_or_a_message() {
    assert_eq!(version_of_metadata(Ok("v1\0\0")), Ok("v1".to_owned()));
    let wrong = version_of_metadata(Err("wrong".to_owned())).unwrap_err();
    assert_eq!(wrong.message(), "wrong");
}
