use goodix_info::chicago_h::{
    config_word_sum, decode_calibration, find_config_value, generate_config, goodix_crc8,
    replace_config_value, section_bounds, validate_download_completion, validate_otp, ChicagoHCalibration,
    ChicagoHError, FDT_DELTA_KEY, FDT_OFFSET_KEY, IMAGE_TCODE_KEY, OTP_LEN,
};
use goodix_info::protocol::{Command, McuPacket};

const LIVE_OTP: [u8; OTP_LEN] = [
    0x57, 0x43, 0x47, 0x34, 0x33, 0x38, 0x2e, 0x00, 0xc0, 0x74, 0x8b, 0xab, 0x42, 0xeb, 0x16,
    0x0a, 0x01, 0x05, 0x03, 0x06, 0x00, 0x00, 0x79, 0x00, 0x00, 0x00, 0x00, 0x0c, 0xf1, 0x73,
    0x8c, 0x0c, 0x07, 0x00, 0x00, 0x00, 0xe5, 0x73, 0xdf, 0xfc, 0x08, 0x76, 0xad, 0x52, 0x06,
    0xad, 0xae, 0xaf, 0xad, 0xae, 0xae, 0xaf, 0xad, 0xae, 0x00, 0x00, 0xe5, 0x1a, 0xdf, 0x20,
    0x16, 0x5f, 0x79, 0xff,
];

#[test]
fn crc_matches_recovered_check_vector() {
    assert_eq!(goodix_crc8(b"123456789"), 0x0b);
}

#[test]
fn live_otp_passes_chicago_h_checks() {
    assert!(validate_otp(&LIVE_OTP).is_ok());
}

#[test]
fn live_otp_calibration_matches_recovered_values() {
    let calibration = decode_calibration(&LIVE_OTP).unwrap();

    assert_eq!(
        calibration,
        ChicagoHCalibration {
            tcode: 0x00f0,
            diff: 0x0021,
            fdt_offset: 0,
        }
    );
}

#[test]
fn live_otp_generates_exact_verified_config_values() {
    let generated = generate_config(&LIVE_OTP).unwrap();

    let (fdt_start, fdt_end) = section_bounds(&generated.bytes, 5, 6);

    let (image_start, image_end) = section_bounds(&generated.bytes, 9, 10);

    assert_eq!(
        find_config_value(&generated.bytes, image_start, image_end, IMAGE_TCODE_KEY,),
        Some(0x00f0)
    );

    assert_eq!(
        find_config_value(&generated.bytes, fdt_start, fdt_end, FDT_DELTA_KEY,),
        Some(0x2180)
    );

    assert_eq!(
        find_config_value(&generated.bytes, fdt_start, fdt_end, FDT_OFFSET_KEY,),
        Some(0x2004)
    );

    assert_eq!(generated.checksum, 0x1e48);
    assert_eq!(config_word_sum(&generated.bytes), 0x5a5b);

    assert_eq!(
        &generated.bytes[..8],
        &[0xb0, 0x11, 0x60, 0x71, 0x2c, 0x9d, 0x2c, 0xc9]
    );
    assert_eq!(&generated.bytes[0xfe..], &[0x48, 0x1e]);
}

#[test]
fn corrupted_live_otp_is_rejected() {
    let mut otp = LIVE_OTP;
    otp[0] ^= 0x01;

    assert!(matches!(
        validate_otp(&otp),
        Err(ChicagoHError::OtpCrcMismatch { section: "CP", .. })
    ));
}

#[test]
fn invalid_tcode_redundancy_is_rejected() {
    let mut otp = LIVE_OTP;
    otp[0x2d] ^= 0x01;

    assert!(matches!(
        decode_calibration(&otp),
        Err(ChicagoHError::InvalidTcodeDiffCopies { .. })
    ));
}

#[test]
fn successful_download_completion_is_accepted() {
    let packet = McuPacket {
        command: Command::DownloadConfig.as_u8(),
        payload: vec![0x01, 0x00],
        trailer: Some(0x16),
    };

    assert!(validate_download_completion(&packet).is_ok());
}

#[test]
fn failed_download_completion_is_rejected() {
    let packet = McuPacket {
        command: Command::DownloadConfig.as_u8(),
        payload: vec![0x00, 0x00],
        trailer: Some(0x17),
    };

    assert!(matches!(
        validate_download_completion(&packet),
        Err(ChicagoHError::UnexpectedDownloadCompletion { .. })
    ));
}

#[test]
fn a_key_is_found_before_a_section_end_beyond_the_configuration() {
    let mut config = [0u8; 256];
    config[8..12].copy_from_slice(&[0x34, 0x12, 0x78, 0x56]);
    assert_eq!(find_config_value(&config, 0, 1000, 0x1234), Some(0x5678));
    assert_eq!(find_config_value(&config, 254, 260, 0x1234), None);
    assert_eq!(
        replace_config_value(&mut config, 4, 1000, 0x1234, 0x9abc),
        Ok(0x5678)
    );
    assert_eq!(find_config_value(&config, 4, 1000, 0x1234), Some(0x9abc));
}
