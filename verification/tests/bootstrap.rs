use goodix_info::bootstrap::{
    firmware_metadata_version, orchestrate_reenumeration, validate_cold_bootstrap_firmware,
    PendingColdBootstrap, EXPECTED_APP_VERSION, EXPECTED_IAP_VERSION, REENUMERATION_TIMEOUT_SECS,
};
use goodix_info::firmware::{crc32_mpeg2, FirmwareBlob};
use std::cell::Cell;
use std::rc::Rc;
use std::time::Duration;

fn synthetic_blob(metadata: &[u8], app: &[u8]) -> Vec<u8> {
    assert!(metadata.len() <= u8::MAX as usize);

    let mut blob = Vec::new();
    blob.push(metadata.len() as u8);
    blob.extend_from_slice(metadata);
    blob.extend_from_slice(app);

    let crc = crc32_mpeg2(&blob);
    blob.extend_from_slice(&crc.to_le_bytes());
    blob
}

#[test]
fn target_versions_are_exact() {
    assert_eq!(EXPECTED_IAP_VERSION, "MILAN_GM168SEC_IAP_10007");
    assert_eq!(EXPECTED_APP_VERSION, "GFUSB_GM168SEC_APP_15045");
}

#[test]
fn vendor_reenumeration_bound_is_ten_seconds() {
    assert_eq!(Duration::from_secs(REENUMERATION_TIMEOUT_SECS), Duration::from_secs(10));
}

#[test]
fn extracts_exact_app_version_from_metadata() {
    let raw = synthetic_blob(b"GFUSB_GM168SEC_APP_15045", &[0x11, 0x22, 0x33, 0x44]);

    let blob = FirmwareBlob::parse(&raw).unwrap();

    assert_eq!(
        firmware_metadata_version(&blob).unwrap(),
        EXPECTED_APP_VERSION
    );
}

#[test]
fn accepts_only_trailing_nul_as_metadata_padding() {
    let raw = synthetic_blob(b"GFUSB_GM168SEC_APP_15045\0", &[0x11, 0x22, 0x33, 0x44]);

    let blob = FirmwareBlob::parse(&raw).unwrap();

    assert_eq!(
        firmware_metadata_version(&blob).unwrap(),
        EXPECTED_APP_VERSION
    );
}

#[test]
fn exact_bootstrap_preflight_rejects_synthetic_same_version_blob() {
    let raw = synthetic_blob(b"GFUSB_GM168SEC_APP_15045", &[0x11, 0x22, 0x33, 0x44]);
    let error = validate_cold_bootstrap_firmware(&raw).unwrap_err();
    assert!(
        error
            .message()
            .contains("exact GM168SEC APP15045 bootstrap regression")
    );
}

#[test]
fn pending_token_fields_flow_into_final_result_shape() {
    let pending = PendingColdBootstrap {
        expected_app_version: EXPECTED_APP_VERSION.to_owned(),
        f0_chunks_sent: 98,
        firmware_check_result: 0x01,
    };

    assert_eq!(pending.expected_app_version, EXPECTED_APP_VERSION);
    assert_eq!(pending.f0_chunks_sent, 98);
    assert_ne!(pending.firmware_check_result, 0);
}

#[derive(Debug)]
struct DropProbe {
    dropped: Rc<Cell<bool>>,
}

impl Drop for DropProbe {
    fn drop(&mut self) {
        self.dropped.set(true);
    }
}

#[derive(Debug, PartialEq, Eq)]
struct FreshDevice(u32);

#[test]
fn orchestration_drops_old_device_before_waiting_for_new_device() {
    let old_dropped = Rc::new(Cell::new(false));

    let old_device = DropProbe {
        dropped: Rc::clone(&old_dropped),
    };

    let (output, new_device) = orchestrate_reenumeration(
        old_device,
        |old| {
            assert!(!old.dropped.get());
            Ok::<_, &'static str>("pending")
        },
        || {
            /*
             * This assertion proves the exact boundary we care about:
             * wait/reopen cannot start while the old device remains
             * owned by the orchestration layer.
             */
            assert!(old_dropped.get());
            Ok::<_, &'static str>(FreshDevice(0x550a))
        },
        |pending, new_device| {
            assert_eq!(pending, "pending");
            assert_eq!(new_device, &FreshDevice(0x550a));
            Ok::<_, &'static str>("complete")
        },
    )
    .unwrap();

    assert_eq!(output, "complete");
    assert_eq!(new_device, FreshDevice(0x550a));
}

#[test]
fn begin_failure_never_waits_or_finishes() {
    let old_dropped = Rc::new(Cell::new(false));
    let waited = Cell::new(false);
    let finished = Cell::new(false);

    let old_device = DropProbe {
        dropped: Rc::clone(&old_dropped),
    };

    let result = orchestrate_reenumeration(
        old_device,
        |_old| Err::<(), _>("begin failed"),
        || {
            waited.set(true);
            Ok::<_, &'static str>(FreshDevice(0x550a))
        },
        |_pending, _new_device| {
            finished.set(true);
            Ok::<_, &'static str>(())
        },
    );

    assert_eq!(result.unwrap_err(), "begin failed");
    assert!(old_dropped.get());
    assert!(!waited.get());
    assert!(!finished.get());
}

#[test]
fn wait_failure_happens_after_old_device_drop_and_never_finishes() {
    let old_dropped = Rc::new(Cell::new(false));
    let finished = Cell::new(false);

    let old_device = DropProbe {
        dropped: Rc::clone(&old_dropped),
    };

    let result = orchestrate_reenumeration(
        old_device,
        |_old| Ok::<_, &'static str>("pending"),
        || {
            assert!(old_dropped.get());
            Err::<FreshDevice, _>("wait failed")
        },
        |_pending, _new_device| {
            finished.set(true);
            Ok::<_, &'static str>(())
        },
    );

    assert_eq!(result.unwrap_err(), "wait failed");
    assert!(old_dropped.get());
    assert!(!finished.get());
}

#[test]
fn finish_failure_does_not_lose_phase_ordering() {
    let old_dropped = Rc::new(Cell::new(false));

    let old_device = DropProbe {
        dropped: Rc::clone(&old_dropped),
    };

    let result = orchestrate_reenumeration(
        old_device,
        |_old| Ok::<_, &'static str>("pending"),
        || {
            assert!(old_dropped.get());
            Ok::<_, &'static str>(FreshDevice(0x550a))
        },
        |pending, new_device| {
            assert_eq!(pending, "pending");
            assert_eq!(new_device, &FreshDevice(0x550a));
            Err::<(), _>("finish failed")
        },
    );

    assert_eq!(result.unwrap_err(), "finish failed");
    assert!(old_dropped.get());
}

#[test]
fn orchestration_can_keep_state_outside_the_device_lifetime() {
    let old_dropped = Rc::new(Cell::new(false));
    let session_state = Rc::new(Cell::new(0u8));

    let old_device = DropProbe {
        dropped: Rc::clone(&old_dropped),
    };

    let state_for_begin = Rc::clone(&session_state);
    let state_for_wait = Rc::clone(&session_state);
    let state_for_finish = Rc::clone(&session_state);

    let (result, new_device) = orchestrate_reenumeration(
        old_device,
        |_old| {
            state_for_begin.set(1);
            Ok::<_, &'static str>("pending")
        },
        || {
            assert!(old_dropped.get());
            assert_eq!(state_for_wait.get(), 1);

            state_for_wait.set(2);

            Ok::<_, &'static str>(FreshDevice(0x550a))
        },
        |pending, new_device| {
            assert_eq!(pending, "pending");
            assert_eq!(new_device, &FreshDevice(0x550a));
            assert_eq!(state_for_finish.get(), 2);

            state_for_finish.set(3);

            Ok::<_, &'static str>("complete")
        },
    )
    .unwrap();

    assert_eq!(result, "complete");
    assert_eq!(new_device, FreshDevice(0x550a));
    assert_eq!(session_state.get(), 3);
}
