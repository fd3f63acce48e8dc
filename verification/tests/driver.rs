use goodix_info::device::UsbLayout;
use goodix_info::driver::{
    check_bootstrapped_version, check_open_without_firmware, frame_of_decrypted,
    plan_open_with_firmware, reconstruct_capture, Gf3258EnrollmentTransaction,
    Gf3258EnrollmentTransactionError, Gf3258OpenPlan, Gf3258ProtectedImage, Gf3258SessionError,
    Gf3258SessionStage, Gf3258UsbLayout, Gf3258VerificationTemplate,
    Gf3258VerificationTemplateError, Gf3258VerificationTransaction,
    GF3258_SUPPORTED_APP_FIRMWARE, GF3258_SUPPORTED_IAP_FIRMWARE,
};
use goodix_info::enrollment::{Gf3258FreshTglaNode, GF3258_ENROLLMENT_TARGET_SAMPLES};
use goodix_info::enrollment_add::Gf3258EnrollmentTemplateCore;

#[test]
fn usb_layout_projects_internal_layout_without_reinterpreting_endpoints() {
    let layout = Gf3258UsbLayout::from(UsbLayout {
        interface: 0,
        bulk_in: 0x83,
        bulk_out: 0x01,
        max_packet_size: 64,
    });

    assert_eq!(layout.interface(), 0);
    assert_eq!(layout.bulk_in(), 0x83);
    assert_eq!(layout.bulk_out(), 0x01);
    assert_eq!(layout.max_packet_size(), 64);
}

#[test]
fn session_errors_preserve_stage_and_message() {
    let error =
        Gf3258SessionError::stage(Gf3258SessionStage::ReadVersion, "bad response".to_owned());
    assert_eq!(
        error.message(),
        "GF3258 session failed while trying to read firmware version: bad response"
    );
}

#[test]
fn supported_iap_version_is_exact() {
    assert_eq!(GF3258_SUPPORTED_IAP_FIRMWARE, "MILAN_GM168SEC_IAP_10007");
}

#[test]
fn bootstrap_required_error_keeps_iap_version() {
    let error = Gf3258SessionError::BootstrapFirmwareRequired {
        current: GF3258_SUPPORTED_IAP_FIRMWARE.to_owned(),
    };
    assert!(error.message().contains(GF3258_SUPPORTED_IAP_FIRMWARE));
    assert!(error.message().contains(GF3258_SUPPORTED_APP_FIRMWARE));
}

#[test]
fn unsupported_firmware_error_keeps_reported_version() {
    let error = Gf3258SessionError::UnsupportedFirmware {
        expected: GF3258_SUPPORTED_APP_FIRMWARE,
        actual: "MILAN_GM168SEC_IAP_10007".to_owned(),
    };
    assert!(error.message().contains("MILAN_GM168SEC_IAP_10007"));
}

fn no_encoding(_: &Gf3258EnrollmentTemplateCore) -> Result<Vec<u8>, String> {
    panic!("an incomplete enrollment is not encoded")
}

fn no_wrapping(_: &[u8]) -> Result<Vec<u8>, String> {
    panic!("an incomplete enrollment is not wrapped")
}

fn no_parsing(_: &[u8]) -> Result<Gf3258FreshTglaNode, String> {
    panic!("an incomplete enrollment is not read back")
}

#[test]
fn enrollment_transaction_starts_empty_and_refuses_incomplete_finish() {
    let transaction = Gf3258EnrollmentTransaction::new();
    assert_eq!(transaction.sample_count(), 0);
    assert_eq!(transaction.progress_percent(), 0);
    assert!(!transaction.is_complete());

    let error = transaction
        .finish(&no_encoding, &no_wrapping, &no_parsing)
        .unwrap_err();
    assert!(matches!(
        error,
        Gf3258EnrollmentTransactionError::Incomplete {
            sample_count: 0,
            target_samples: GF3258_ENROLLMENT_TARGET_SAMPLES,
        }
    ));
    assert!(error.message().contains("0"));
}

#[test]
fn verification_transaction_rejects_empty_gallery_before_device_access() {
    let decoded = Gf3258VerificationTemplate {
        sample_count: 0,
        configured_max_samples: 40,
    };

    let error = match Gf3258VerificationTransaction::from_tgla(Ok(decoded)) {
        Ok(_) => panic!("empty gallery must be rejected"),
        Err(error) => error,
    };
    assert_eq!(error, Gf3258VerificationTemplateError::EmptyGallery);
}

#[test]
fn a_template_that_cannot_be_decoded_is_refused_with_its_message() {
    let error = match Gf3258VerificationTransaction::from_tgla(Err("bad magic".to_owned())) {
        Ok(_) => panic!("a broken template must be rejected"),
        Err(error) => error,
    };
    assert_eq!(
        error,
        Gf3258VerificationTemplateError::Decode("bad magic".to_owned())
    );
}

#[test]
fn a_gallery_with_samples_opens_a_verification() {
    let decoded = Gf3258VerificationTemplate {
        sample_count: 12,
        configured_max_samples: 40,
    };
    let transaction = Gf3258VerificationTransaction::from_tgla(Ok(decoded)).unwrap();
    assert_eq!(transaction.sample_count(), 12);
    assert_eq!(transaction.configured_max_samples(), 40);
}

#[test]
fn the_reported_version_decides_how_a_session_opens() {
    assert!(matches!(
        plan_open_with_firmware(GF3258_SUPPORTED_APP_FIRMWARE.to_owned()),
        Ok(Gf3258OpenPlan::UseApp)
    ));
    assert!(matches!(
        plan_open_with_firmware(GF3258_SUPPORTED_IAP_FIRMWARE.to_owned()),
        Ok(Gf3258OpenPlan::ColdBootstrap)
    ));
    assert!(matches!(
        plan_open_with_firmware("OTHER".to_owned()),
        Err(Gf3258SessionError::UnsupportedFirmware { .. })
    ));
    assert!(check_open_without_firmware(GF3258_SUPPORTED_APP_FIRMWARE.to_owned()).is_ok());
    assert!(matches!(
        check_open_without_firmware(GF3258_SUPPORTED_IAP_FIRMWARE.to_owned()),
        Err(Gf3258SessionError::BootstrapFirmwareRequired { .. })
    ));
    assert!(check_bootstrapped_version(GF3258_SUPPORTED_APP_FIRMWARE.to_owned()).is_ok());
    assert!(matches!(
        check_bootstrapped_version(GF3258_SUPPORTED_IAP_FIRMWARE.to_owned()),
        Err(Gf3258SessionError::UnsupportedFirmware { .. })
    ));
}

fn image(ciphertext: Vec<u8>, boot_image: bool) -> Gf3258ProtectedImage {
    Gf3258ProtectedImage {
        boot_image,
        ciphertext,
        stored_crc: 0x1234_5678,
    }
}

const KEY: [u8; 16] = [
    0x2b, 0x7e, 0x15, 0x16, 0x28, 0xae, 0xd2, 0xa6, 0xab, 0xf7, 0x15, 0x88, 0x09, 0xcf, 0x4f, 0x3c,
];

#[test]
fn a_capture_is_decrypted_checked_and_restructured() {
    let payload = [
        0x3a, 0xd7, 0x7b, 0xb4, 0x0d, 0x7a, 0x36, 0x60, 0xa8, 0x9e, 0xca, 0xf3, 0x24, 0x66, 0xef,
        0x97,
    ];
    let parse = |bytes: &[u8]| Ok::<_, String>(image(bytes.to_vec(), false));
    let validate = |protected: &Gf3258ProtectedImage, bytes: &[u8]| {
        assert_eq!(protected.stored_crc, 0x1234_5678);
        assert_eq!(bytes[..4], [0x6b, 0xc1, 0xbe, 0xe2]);
        Ok::<(), String>(())
    };
    let restructure = |bytes: &[u8]| Ok::<_, String>(vec![u16::from(bytes[0]); 5120]);
    let frame = reconstruct_capture(&payload, &KEY, &parse, &validate, &restructure).unwrap();
    assert_eq!(frame.pixels().len(), 5120);
    assert_eq!(frame.pixels()[0], 0x6b);
    assert_eq!(frame.diagnostics().protected_bytes(), 16);
    assert_eq!(frame.diagnostics().stored_crc(), 0x1234_5678);
}

#[test]
fn each_stage_of_a_capture_can_fail() {
    let good_check = |_: &Gf3258ProtectedImage, _: &[u8]| Ok::<(), String>(());
    let bad_check = |_: &Gf3258ProtectedImage, _: &[u8]| Err::<(), String>("crc".to_owned());
    let good_shape = |_: &[u8]| Ok::<_, String>(vec![0u16; 5120]);
    let bad_shape = |_: &[u8]| Err::<Vec<u16>, String>("shape".to_owned());
    let short_shape = |_: &[u8]| Ok::<_, String>(vec![0u16; 7]);

    let no_image = |_: &[u8]| Err::<Gf3258ProtectedImage, String>("parse".to_owned());
    assert_eq!(
        reconstruct_capture(&[], &KEY, &no_image, &good_check, &good_shape),
        Err(Gf3258SessionError::stage(
            Gf3258SessionStage::ParseProtectedImage,
            "parse".to_owned()
        ))
    );
    let boot = |_: &[u8]| Ok::<_, String>(image(vec![0; 16], true));
    assert_eq!(
        reconstruct_capture(&[], &KEY, &boot, &good_check, &good_shape),
        Err(Gf3258SessionError::BootImage)
    );
    let unaligned = |_: &[u8]| Ok::<_, String>(image(vec![0; 15], false));
    assert!(matches!(
        reconstruct_capture(&[], &KEY, &unaligned, &good_check, &good_shape),
        Err(Gf3258SessionError::Stage {
            stage: Gf3258SessionStage::DecryptImage,
            ..
        })
    ));
    assert_eq!(
        frame_of_decrypted(0, image(vec![], false), vec![], &bad_check, &good_shape),
        Err(Gf3258SessionError::stage(
            Gf3258SessionStage::ValidateImageCrc,
            "crc".to_owned()
        ))
    );
    assert_eq!(
        frame_of_decrypted(0, image(vec![], false), vec![], &good_check, &bad_shape),
        Err(Gf3258SessionError::stage(
            Gf3258SessionStage::ReconstructImage,
            "shape".to_owned()
        ))
    );
    assert_eq!(
        frame_of_decrypted(0, image(vec![], false), vec![], &good_check, &short_shape),
        Err(Gf3258SessionError::UnexpectedPixelCount {
            expected: 5120,
            actual: 7,
        })
    );
}
