use goodix_info::firmware::{
    crc32_mpeg2, transfer_over, write_app_transfer, AppTransferPackage, FirmwareBlob, FirmwareError,
    FirmwareTransferCommand, WriteAppTransferError, APP_FIRMWARE_TYPE, F0_MAX_CHUNK_DATA,
    F0_PAYLOAD_HEADER_LEN, F4_TAG_LEN,
};
use goodix_info::transfer_link::TransferLink;
use std::convert::Infallible;
use std::error::Error;
use std::fmt;
use std::time::Duration;

#[test]
fn crc32_mpeg2_known_vector() {
    assert_eq!(crc32_mpeg2(b"123456789"), 0x0376_e6e7);
}

#[test]
fn parses_valid_blob() {
    let metadata = [0xaa, 0xbb, 0xcc];

    let app = [0x10, 0x20, 0x30, 0x40, 0x50, 0x60, 0x70, 0x80];

    let mut blob = Vec::new();

    blob.push(metadata.len() as u8);

    blob.extend_from_slice(&metadata);

    blob.extend_from_slice(&app);

    let crc = crc32_mpeg2(&blob);

    blob.extend_from_slice(&crc.to_le_bytes());

    let parsed = FirmwareBlob::parse(&blob).unwrap();

    assert_eq!(parsed.metadata_length(), 3);

    assert_eq!(parsed.prefix_size(), 4);

    assert_eq!(parsed.metadata(), metadata);

    assert_eq!(parsed.app(), app);

    assert_eq!(parsed.stored_crc(), crc);

    assert_eq!(parsed.computed_crc(), crc);
}

#[test]
fn rejects_bad_outer_crc() {
    let mut blob = vec![0x01, 0xaa, 0x10, 0x20, 0x30, 0x40];

    let crc = crc32_mpeg2(&blob);

    blob.extend_from_slice(&crc.to_le_bytes());

    blob[3] ^= 0xff;

    let err = FirmwareBlob::parse(&blob).unwrap_err();

    assert!(matches!(err, FirmwareError::BlobCrcMismatch { .. }));
}

#[test]
fn rejects_prefix_past_payload() {
    let mut blob = vec![0xff, 0x01, 0x02];

    let crc = crc32_mpeg2(&blob);

    blob.extend_from_slice(&crc.to_le_bytes());

    let err = FirmwareBlob::parse(&blob).unwrap_err();

    assert!(matches!(err, FirmwareError::PrefixOutOfBounds { .. }));
}

#[test]
fn builds_exact_transfer_header() {
    let app = [0x01, 0x02, 0x03, 0x04, 0x05, 0x06, 0x07, 0x08];

    let package = AppTransferPackage::from_app(&app).unwrap();

    let app_crc = crc32_mpeg2(&app);

    let mut expected_header_input = [0u8; 8];

    expected_header_input[0..4].copy_from_slice(&(app.len() as u32).to_le_bytes());

    expected_header_input[4..8].copy_from_slice(&app_crc.to_le_bytes());

    let header_crc = crc32_mpeg2(&expected_header_input);

    assert_eq!(&package.bytes()[0..4], &header_crc.to_le_bytes());

    assert_eq!(&package.bytes()[4..8], &(app.len() as u32).to_le_bytes());

    assert_eq!(&package.bytes()[8..12], &app_crc.to_le_bytes());

    assert_eq!(&package.bytes()[12..], &app);

    assert_eq!(package.header_crc(), header_crc);

    assert_eq!(package.app_crc(), app_crc);

    assert_eq!(package.app_len(), app.len() as u32);
}

#[test]
fn chunks_match_writefw_boundaries() {
    let app = vec![0x5a; 600];

    let package = AppTransferPackage::from_app(&app).unwrap();

    let chunks: Vec<_> = package.chunks();

    assert_eq!(chunks.len(), 3);

    assert_eq!(chunks[0].offset(), 0x000);

    assert_eq!(chunks[0].length(), 0x100);

    assert_eq!(chunks[0].firmware_type(), 2);

    assert_eq!(chunks[1].offset(), 0x100);

    assert_eq!(chunks[1].length(), 0x100);

    assert_eq!(chunks[1].firmware_type(), 2);

    assert_eq!(chunks[2].offset(), 0x200);

    assert_eq!(chunks[2].length(), (package.len() - 0x200) as u32);

    assert_eq!(chunks[2].firmware_type(), 2);

    let reconstructed: Vec<u8> = chunks
        .iter()
        .flat_map(|chunk| chunk.data().iter().copied())
        .collect();

    assert_eq!(reconstructed, package.bytes());
}

#[test]
fn f0_payload_matches_writefw_layout() {
    let app = vec![0x5a; 300];

    let package = AppTransferPackage::from_app(&app).unwrap();

    let first = package.chunks()[0];

    let payload = first.f0_payload();

    assert_eq!(payload.len(), 12 + 0x100);

    assert_eq!(&payload[0..4], &0u32.to_le_bytes());

    assert_eq!(&payload[4..8], &0x100u32.to_le_bytes());

    assert_eq!(&payload[8..12], &APP_FIRMWARE_TYPE.to_le_bytes());

    assert_eq!(&payload[12..], first.data());
}

#[test]
fn gm168sec_package_has_98_f0_chunks() {
    /*
     * Real GFUSB_GM168SEC_APP_15045:
     *
     * APP     = 0x6100 bytes
     * package = 0x610c bytes
     *
     * Therefore:
     *
     * 97 complete 0x100-byte chunks
     * + one final 0x0c-byte chunk
     * = 98 F0 transfers.
     *
     * The contents here are synthetic; this test validates only
     * the already-recovered transfer boundaries.
     */
    let app = vec![0u8; 0x6100];

    let package = AppTransferPackage::from_app(&app).unwrap();

    assert_eq!(package.len(), 0x610c);

    assert_eq!(package.f0_chunk_count(), 98);

    let chunks: Vec<_> = package.chunks();

    let first = chunks.first().unwrap();

    let last = chunks.last().unwrap();

    assert_eq!(first.offset(), 0x0000);

    assert_eq!(first.length(), 0x100);

    assert_eq!(last.offset(), 0x6100);

    assert_eq!(last.length(), 0x0c);

    assert_eq!(last.firmware_type(), 2);
}

#[test]
fn final_gm168sec_f0_header_is_exact() {
    let app = vec![0u8; 0x6100];

    let package = AppTransferPackage::from_app(&app).unwrap();

    let chunks = package.chunks();
    let last = chunks.last().unwrap();

    let payload = last.f0_payload();

    assert_eq!(
        &payload[..12],
        &[
            // package offset = 0x6100
            0x00, 0x61, 0x00, 0x00, // final length = 0x0c
            0x0c, 0x00, 0x00, 0x00, // firmware type = APP = 2
            0x02, 0x00, 0x00, 0x00,
        ]
    );

    assert_eq!(payload.len(), 12 + 0x0c);
}

#[test]
fn f0_payload_iterator_reconstructs_all_chunks() {
    let app = vec![0x42; 900];

    let package = AppTransferPackage::from_app(&app).unwrap();

    let payloads: Vec<_> = package.f0_payloads();

    assert_eq!(payloads.len(), package.f0_chunk_count());

    for (chunk, payload) in package.chunks().iter().zip(payloads.iter()) {
        assert_eq!(payload.len(), F0_PAYLOAD_HEADER_LEN + chunk.data().len());

        assert_eq!(&payload[0..4], &chunk.offset().to_le_bytes());

        assert_eq!(&payload[4..8], &chunk.length().to_le_bytes());

        assert_eq!(&payload[8..12], &chunk.firmware_type().to_le_bytes());

        assert_eq!(&payload[12..], chunk.data());
    }
}

#[test]
fn write_app_transfer_sends_98_f0_then_f4() {
    let app = vec![0u8; 0x6100];
    let package = AppTransferPackage::from_app(&app).unwrap();
    let f4_tag = [0x5au8; F4_TAG_LEN];

    let f0_timeout = Duration::from_millis(111);
    let f4_timeout = Duration::from_millis(222);

    let mut calls: Vec<(FirmwareTransferCommand, Vec<u8>, Duration)> = Vec::new();

    let result = write_app_transfer(
        &package,
        &f4_tag,
        f0_timeout,
        f4_timeout,
        |command, payload, timeout| -> Result<Vec<u8>, Infallible> {
            calls.push((command, payload.to_vec(), timeout));

            Ok(match command {
                // Deliberately return zero for F0. WriteApp ignores it.
                FirmwareTransferCommand::F0Write => vec![0x00],
                FirmwareTransferCommand::F4Check => vec![0x01],
            })
        },
    )
    .unwrap();

    assert_eq!(result.f0_chunks_sent, 98);
    assert_eq!(result.firmware_check_result, 0x01);

    assert_eq!(calls.len(), 99);

    for (index, (command, payload, timeout)) in calls[..98].iter().enumerate() {
        assert_eq!(*command, FirmwareTransferCommand::F0Write);
        assert_eq!(*timeout, f0_timeout);

        let expected_offset = (index * F0_MAX_CHUNK_DATA) as u32;
        assert_eq!(&payload[0..4], &expected_offset.to_le_bytes());
        assert_eq!(&payload[8..12], &APP_FIRMWARE_TYPE.to_le_bytes());
    }

    let first = &calls[0].1;
    assert_eq!(&first[0..4], &0u32.to_le_bytes());
    assert_eq!(&first[4..8], &0x100u32.to_le_bytes());

    let last = &calls[97].1;
    assert_eq!(&last[0..4], &0x6100u32.to_le_bytes());
    assert_eq!(&last[4..8], &0x0cu32.to_le_bytes());
    assert_eq!(last.len(), F0_PAYLOAD_HEADER_LEN + 0x0c);

    let (command, payload, timeout) = &calls[98];
    assert_eq!(*command, FirmwareTransferCommand::F4Check);
    assert_eq!(*timeout, f4_timeout);
    assert_eq!(payload.as_slice(), &f4_tag[..]);
}

#[test]
fn write_app_transfer_accepts_any_nonzero_f4_result() {
    let package = AppTransferPackage::from_app(&[0x11]).unwrap();
    let f4_tag = [0u8; F4_TAG_LEN];

    let result = write_app_transfer(
        &package,
        &f4_tag,
        Duration::from_secs(1),
        Duration::from_secs(1),
        |command, _payload, _timeout| -> Result<Vec<u8>, Infallible> {
            Ok(match command {
                FirmwareTransferCommand::F0Write => vec![],
                FirmwareTransferCommand::F4Check => vec![0x7f],
            })
        },
    )
    .unwrap();

    assert_eq!(result.firmware_check_result, 0x7f);
}

#[test]
fn write_app_transfer_rejects_zero_f4_result() {
    let package = AppTransferPackage::from_app(&[0x11]).unwrap();
    let f4_tag = [0u8; F4_TAG_LEN];

    let error = write_app_transfer(
        &package,
        &f4_tag,
        Duration::from_secs(1),
        Duration::from_secs(1),
        |command, _payload, _timeout| -> Result<Vec<u8>, Infallible> {
            Ok(match command {
                FirmwareTransferCommand::F0Write => vec![0xaa],
                FirmwareTransferCommand::F4Check => vec![0x00],
            })
        },
    )
    .unwrap_err();

    assert!(matches!(
        error,
        WriteAppTransferError::FirmwareCheckRejected { result: 0x00 }
    ));
}

#[test]
fn write_app_transfer_rejects_malformed_f4_completion() {
    let package = AppTransferPackage::from_app(&[0x11]).unwrap();
    let f4_tag = [0u8; F4_TAG_LEN];

    for malformed in [Vec::new(), vec![0x01, 0x02]] {
        let error = write_app_transfer(
            &package,
            &f4_tag,
            Duration::from_secs(1),
            Duration::from_secs(1),
            |command, _payload, _timeout| -> Result<Vec<u8>, Infallible> {
                Ok(match command {
                    FirmwareTransferCommand::F0Write => vec![0x00],
                    FirmwareTransferCommand::F4Check => malformed.clone(),
                })
            },
        )
        .unwrap_err();

        assert!(matches!(
            error,
            WriteAppTransferError::MalformedFirmwareCheckResponse { .. }
        ));
    }
}

#[derive(Debug, Clone, Copy, PartialEq, Eq)]
struct MockTransportError;

impl fmt::Display for MockTransportError {
    fn fmt(&self, f: &mut fmt::Formatter<'_>) -> fmt::Result {
        f.write_str("mock transport failure")
    }
}

impl Error for MockTransportError {}

#[test]
fn write_app_transfer_stops_on_first_f0_transport_error() {
    let app = vec![0x42; 600];
    let package = AppTransferPackage::from_app(&app).unwrap();
    let f4_tag = [0u8; F4_TAG_LEN];

    let mut f0_calls = 0usize;
    let mut f4_called = false;

    let error = write_app_transfer(
        &package,
        &f4_tag,
        Duration::from_secs(1),
        Duration::from_secs(1),
        |command, _payload, _timeout| match command {
            FirmwareTransferCommand::F0Write => {
                f0_calls += 1;

                if f0_calls == 2 {
                    return Err(MockTransportError);
                }

                Ok(vec![0xff])
            }

            FirmwareTransferCommand::F4Check => {
                f4_called = true;
                Ok(vec![0x01])
            }
        },
    )
    .unwrap_err();

    assert!(matches!(
        error,
        WriteAppTransferError::Transport(MockTransportError)
    ));
    assert_eq!(f0_calls, 2);
    assert!(!f4_called);
}

#[test]
fn a_transfer_over_a_link_sends_chunks_in_order_and_stops_at_an_error() {
    let package = AppTransferPackage::from_app(&[0x42; 600]).unwrap();
    let tag = [7u8; F4_TAG_LEN];
    let second = Duration::from_secs(1);
    for failing in 0..4usize {
        let mut sent: Vec<(FirmwareTransferCommand, Vec<u8>)> = Vec::new();
        let mut link = TransferLink::new(|command, payload: &[u8], _timeout: Duration| {
            sent.push((command, payload.to_vec()));
            if sent.len() == failing + 1 {
                Err(failing)
            } else {
                Ok(vec![1])
            }
        });
        let result = transfer_over(&package, &tag, second, second, &mut link);
        assert_eq!(result, Err(WriteAppTransferError::Transport(failing)));
        assert_eq!(sent.len(), failing + 1);
        let payloads = package.f0_payloads();
        assert_eq!(payloads.len(), 3);
        for (at, (command, payload)) in sent.iter().enumerate() {
            if at < 3 {
                assert_eq!(*command, FirmwareTransferCommand::F0Write);
                assert_eq!(payload, &payloads[at]);
            } else {
                assert_eq!(*command, FirmwareTransferCommand::F4Check);
                assert_eq!(payload[..], tag);
            }
        }
    }
}

#[test]
fn a_link_makes_one_exchange_per_send() {
    let mut count = 0usize;
    let mut link = TransferLink::new(
        |_command, payload: &[u8], _timeout: Duration| -> Result<Vec<u8>, Infallible> {
            count += 1;
            Ok(payload.to_vec())
        },
    );
    let reply = link.send(
        FirmwareTransferCommand::F4Check,
        &[1, 2],
        Duration::from_secs(1),
    );
    assert_eq!(reply, Ok(vec![1, 2]));
    assert_eq!(count, 1);
}
