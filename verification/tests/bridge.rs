use goodix_info::bridge::{
    boundary_text, bridge_call_status, bridge_last_error, bridge_new, bridge_new_from,
    bridge_parse, bridge_request, firmware_code, goodix550a_bridge_firmware_name,
    goodix550a_bridge_status_message, BridgeHandle, EngineAction, EnrollmentDisposition,
    FirmwareIdentity, Goodix550aBridgeAck, Goodix550aBridgeBootstrapAction,
    Goodix550aBridgeBootstrapInfo, Goodix550aBridgeCaptureAction, Goodix550aBridgeCaptureInfo,
    Goodix550aBridgeEnrollmentAction, Goodix550aBridgeEnrollmentInfo,
    Goodix550aBridgeRecoveryAction, Goodix550aBridgeRecoveryInfo,
    Goodix550aBridgeVerificationAction, Goodix550aBridgeVerificationInfo, VerificationDisposition,
    STATUS_BUFFER_TOO_SMALL, STATUS_INVALID_ARGUMENT, STATUS_OK, STATUS_PROTOCOL_ERROR,
};
use goodix_info::chicago_h::{ChicagoHCalibration, ChicagoHConfig};
use goodix_info::firmware::WriteAppTransferResult;

#[test]
fn statuses_and_firmware_codes_have_texts() {
    assert_eq!(goodix550a_bridge_status_message(0), "ok");
    assert_eq!(goodix550a_bridge_status_message(-1), "invalid bridge argument");
    assert_eq!(
        goodix550a_bridge_status_message(-2),
        "bridge output buffer is too small"
    );
    assert_eq!(
        goodix550a_bridge_status_message(-3),
        "Goodix Rust wire parser rejected the packet"
    );
    assert_eq!(goodix550a_bridge_status_message(1), "unknown bridge status");
    assert_eq!(
        goodix550a_bridge_firmware_name(firmware_code(FirmwareIdentity::App15045)),
        "GFUSB_GM168SEC_APP_15045"
    );
    assert_eq!(
        goodix550a_bridge_firmware_name(firmware_code(FirmwareIdentity::Iap10007)),
        "MILAN_GM168SEC_IAP_10007"
    );
    assert_eq!(goodix550a_bridge_firmware_name(3), "unknown");
}

#[test]
fn a_request_needs_a_buffer_of_one_block() {
    let request = [7u8; 64];
    assert_eq!(bridge_request(Some(64), Ok(request)), Ok(request));
    assert_eq!(bridge_request(None, Ok(request)), Err(STATUS_INVALID_ARGUMENT));
    assert_eq!(
        bridge_request(Some(63), Ok(request)),
        Err(STATUS_BUFFER_TOO_SMALL)
    );
    assert_eq!(
        bridge_request(Some(64), Err("broken".to_owned())),
        Err(STATUS_PROTOCOL_ERROR)
    );
}

#[test]
fn an_answer_needs_bytes_and_a_place() {
    let first = |bytes: &[u8]| {
        if bytes[0] == 0xb0 {
            Ok(Goodix550aBridgeAck::new(bytes[1], true))
        } else {
            Err("no acknowledgement".to_owned())
        }
    };
    assert_eq!(
        bridge_parse(Some(&[0xb0, 3]), true, &first),
        Ok(Goodix550aBridgeAck {
            flags: 3,
            mcu_power_lost: 1
        })
    );
    assert_eq!(
        bridge_parse(Some(&[0xa0, 3]), true, &first),
        Err(STATUS_PROTOCOL_ERROR)
    );
    assert_eq!(
        bridge_parse(Some(&[]), true, &first),
        Err(STATUS_INVALID_ARGUMENT)
    );
    assert_eq!(
        bridge_parse(None, true, &first),
        Err(STATUS_INVALID_ARGUMENT)
    );
    assert_eq!(
        bridge_parse(Some(&[0xb0, 3]), false, &first),
        Err(STATUS_INVALID_ARGUMENT)
    );
}

#[test]
fn an_engine_call_needs_a_buffer_only_if_it_has_a_length() {
    assert_eq!(bridge_call_status(true, true, true, 64), STATUS_OK);
    assert_eq!(bridge_call_status(true, true, false, 0), STATUS_OK);
    assert_eq!(
        bridge_call_status(true, true, false, 1),
        STATUS_INVALID_ARGUMENT
    );
    assert_eq!(
        bridge_call_status(false, true, true, 1),
        STATUS_INVALID_ARGUMENT
    );
    assert_eq!(
        bridge_call_status(true, false, true, 1),
        STATUS_INVALID_ARGUMENT
    );
}

#[test]
fn a_handle_keeps_its_last_error() {
    let mut handle: BridgeHandle<u8> = bridge_new(true, Ok(5)).unwrap();
    assert_eq!(bridge_last_error(Some(&handle)), "ok");
    assert_eq!(handle.settle::<u8>(Ok(9)), Ok(9));
    assert_eq!(bridge_last_error(Some(&handle)), "ok");
    assert_eq!(
        handle.settle::<u8>(Err("late".to_owned())),
        Err(STATUS_PROTOCOL_ERROR)
    );
    assert_eq!(bridge_last_error(Some(&handle)), "late");
    assert_eq!(handle.record_error("a\0b"), STATUS_PROTOCOL_ERROR);
    assert_eq!(bridge_last_error(Some(&handle)), "bridge error contained NUL");
    assert_eq!(boundary_text("a b"), "a b");
    assert_eq!(bridge_last_error::<u8>(None), "invalid bridge argument");
}

#[test]
fn a_handle_is_made_from_valid_arguments_only() {
    assert_eq!(
        bridge_new::<u8>(false, Ok(1)).unwrap_err(),
        STATUS_INVALID_ARGUMENT
    );
    assert_eq!(
        bridge_new::<u8>(true, Err("no".to_owned())).unwrap_err(),
        STATUS_PROTOCOL_ERROR
    );
    assert_eq!(bridge_new_from::<u8>(Some(3), true, Ok(1)).unwrap().engine, 1);
    assert_eq!(
        bridge_new_from::<u8>(Some(0), true, Ok(1)).unwrap_err(),
        STATUS_INVALID_ARGUMENT
    );
    assert_eq!(
        bridge_new_from::<u8>(None, true, Ok(1)).unwrap_err(),
        STATUS_INVALID_ARGUMENT
    );
}

#[test]
fn bytes_are_copied_into_buffers_that_hold_them() {
    let mut handle = bridge_new(true, Ok(())).unwrap();
    assert_eq!(handle.copy_out(Ok(vec![1, 2]), 2), Ok(vec![1, 2]));
    assert_eq!(
        handle.copy_out(Ok(vec![1, 2]), 1),
        Err(STATUS_BUFFER_TOO_SMALL)
    );
    assert_eq!(
        handle.copy_out(Err("no image".to_owned()), 9),
        Err(STATUS_PROTOCOL_ERROR)
    );
    assert_eq!(bridge_last_error(Some(&handle)), "no image");
}

#[test]
fn records_hold_what_the_engines_report() {
    let next = EngineAction {
        direction: 1,
        stage: 2,
        transfer_length: 3,
        timeout_ms: 4,
        endpoint: 5,
        short_is_error: true,
    };
    let bootstrap = Goodix550aBridgeBootstrapAction::new(next);
    assert_eq!(
        bootstrap,
        Goodix550aBridgeBootstrapAction {
            direction: 1,
            stage: 2,
            transfer_length: 3,
            timeout_ms: 4,
            endpoint: 5,
            short_is_error: 1,
            reserved: 0,
        }
    );
    assert_eq!(Goodix550aBridgeRecoveryAction::new(next).stage, 2);
    assert_eq!(Goodix550aBridgeCaptureAction::new(next).timeout_ms, 4);
    assert_eq!(Goodix550aBridgeEnrollmentAction::new(next).endpoint, 5);
    assert_eq!(Goodix550aBridgeVerificationAction::new(next).reserved, 0);

    let sent = Goodix550aBridgeBootstrapInfo::new(WriteAppTransferResult {
        f0_chunks_sent: 98,
        firmware_check_result: 1,
    });
    assert_eq!((sent.f0_chunks_sent, sent.firmware_check_result), (98, 1));

    let restored = Goodix550aBridgeRecoveryInfo::new(&ChicagoHConfig {
        bytes: [0; 256],
        calibration: ChicagoHCalibration {
            tcode: 0xf0,
            diff: 0x21,
            fdt_offset: 3,
        },
        checksum: 0x1e48,
    });
    assert_eq!(
        restored,
        Goodix550aBridgeRecoveryInfo {
            tcode: 0xf0,
            diff: 0x21,
            fdt_offset: 3,
            reserved: 0,
            checksum: 0x1e48,
        }
    );

    let capture = Goodix550aBridgeCaptureInfo {
        protected_bytes: 7690,
        pixel_count: 5120,
        stored_crc: 8,
    };
    for (disposition, code) in [
        (EnrollmentDisposition::Retry, 1),
        (EnrollmentDisposition::Progress, 2),
        (EnrollmentDisposition::Complete, 3),
    ] {
        let info = Goodix550aBridgeEnrollmentInfo::new(disposition, 12, 100, capture, 9);
        assert_eq!(info.disposition, code);
        assert_eq!(info.sample_count, 12);
        assert_eq!(info.progress_percent, 100);
        assert_eq!(info.pixel_count, 5120);
        assert_eq!(info.tgla_bytes, 9);
    }
    for (disposition, code) in [
        (VerificationDisposition::Retry, 1),
        (VerificationDisposition::Match, 2),
        (VerificationDisposition::NoMatch, 3),
    ] {
        let info = Goodix550aBridgeVerificationInfo::new(disposition, -4, capture);
        assert_eq!(info.disposition, code);
        assert_eq!(info.score, -4);
        assert_eq!(info.stored_crc, 8);
    }
}
