use goodix_info::device::{
    GoodixUsbError, GoodixUsbErrorKind, UsbBackendError, GOODIX_550A_PID, GOODIX_VID,
    REENUMERATION_POLL_INTERVAL_MILLIS,
};
use std::time::Duration;

#[test]
fn device_ids_match_goodix_550a() {
    assert_eq!(GOODIX_VID, 0x27c6);
    assert_eq!(GOODIX_550A_PID, 0x550a);
}

#[test]
fn reenumeration_poll_interval_is_shorter_than_vendor_bound() {
    assert!(Duration::from_millis(REENUMERATION_POLL_INTERVAL_MILLIS) < Duration::from_secs(10));
}

#[test]
fn rusb_timeout_maps_to_backend_neutral_timeout() {
    let error = GoodixUsbError::from_backend(UsbBackendError::Timeout, rusb::Error::Timeout.to_string());

    assert_eq!(error.kind(), GoodixUsbErrorKind::Timeout);
    assert_eq!(error.message(), rusb::Error::Timeout.to_string());
}

#[test]
fn rusb_ownership_errors_keep_actionable_classification() {
    assert_eq!(
        GoodixUsbError::from_backend(UsbBackendError::Busy, rusb::Error::Busy.to_string()).kind(),
        GoodixUsbErrorKind::Busy
    );
    assert_eq!(
        GoodixUsbError::from_backend(UsbBackendError::NoDevice, rusb::Error::NoDevice.to_string()).kind(),
        GoodixUsbErrorKind::NoDevice
    );
    assert_eq!(
        GoodixUsbError::from_backend(UsbBackendError::NotFound, rusb::Error::NotFound.to_string()).kind(),
        GoodixUsbErrorKind::NotFound
    );
}
