use unifand::device::known::{
    RF_RX_PID, RF_RX_VID, RF_TX_PID, RF_TX_VID, SLV3H_PID, SLV3H_VID, TL_FAN_PID, TL_FAN_USAGE_PAGE,
    TL_FAN_VID, TL_LCD_WIRED_PID, TL_LCD_WIRED_VID,
};
use unifand::device::classify_device;
use unifand::{DeviceInfo, DeviceKind};

#[test]
fn classify_known_devices() {
    assert_eq!(
        classify_device(TL_FAN_VID, TL_FAN_PID, TL_FAN_USAGE_PAGE),
        Some(DeviceKind::TlFanController)
    );
    assert_eq!(classify_device(TL_FAN_VID, TL_FAN_PID, 0x0001), None);
    assert_eq!(
        classify_device(TL_LCD_WIRED_VID, TL_LCD_WIRED_PID, 0),
        Some(DeviceKind::TlLcdWired)
    );
    assert_eq!(classify_device(SLV3H_VID, SLV3H_PID, 0), Some(DeviceKind::Slv3h));
    assert_eq!(classify_device(RF_TX_VID, RF_TX_PID, 0), Some(DeviceKind::RfTxDongle));
    assert_eq!(classify_device(RF_RX_VID, RF_RX_PID, 0), Some(DeviceKind::RfRxDongle));
    assert_eq!(classify_device(0x1234, 0x5678, 0), None);
}

#[test]
fn device_description() {
    let d = DeviceInfo {
        kind: DeviceKind::Slv3h,
        path: "/dev/hidraw3".to_string(),
        vid: 0x1A86,
        pid: 0x2107,
        serial: None,
    };
    assert_eq!(d.describe(), "SLV3H Wireless Hub [1a86:2107] /dev/hidraw3");
    assert_eq!(DeviceKind::TlLcdWireless.label(), "TL LCD (Wireless)");
}
