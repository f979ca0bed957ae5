use unifand::ipc::{FanConfig, FanReading, LedConfig, VideoConfig, WiredLcdState, WirelessFanState};
use unifand::protocol::slv3h::{RfDeviceInfo, Slv3DevType};
use unifand::status::{
    build_controller_status, build_fan_status, find_device_by_mac, wired_lcd_name,
    wireless_fan_state, ControllerConfig,
};

fn live(mac: &str, rpm: u16) -> WirelessFanState {
    WirelessFanState { mac: mac.to_string(), fan_count: 1, fans: vec![FanReading { rpm, pwm: 50 }] }
}

fn fan_cfg(serial: &str, video: Option<(&str, u8)>, port: Option<u8>, idx: Option<u8>) -> FanConfig {
    FanConfig {
        serial: serial.to_string(),
        mac: None,
        port,
        lcd_index: idx,
        video: video.map(|(p, f)| VideoConfig { path: p.to_string(), fps: f }),
        led: None,
    }
}

#[test]
fn controllers_live_then_configured_offline() {
    let config = vec![
        ControllerConfig { mac: "bb".to_string(), pwm: Some(40), led: None },
        ControllerConfig {
            mac: "cc".to_string(),
            pwm: None,
            led: Some(LedConfig {
                mode: 1,
                brightness: 4,
                speed: 0,
                direction: 0,
                colors: vec!["ff0000".to_string()],
            }),
        },
    ];
    let live = vec![live("aa", 900), live("bb", 1000)];
    let st = build_controller_status(&config, &live);
    assert_eq!(st.len(), 3);
    assert_eq!(st[0].mac, "aa");
    assert!(st[0].connected && !st[0].configured);
    assert_eq!(st[0].fans, vec![FanReading { rpm: 900, pwm: 50 }]);
    assert_eq!(st[1].mac, "bb");
    assert!(st[1].connected && st[1].configured);
    assert_eq!(st[1].pwm, Some(40));
    assert_eq!(st[2].mac, "cc");
    assert!(!st[2].connected && st[2].configured);
    assert!(st[2].fans.is_empty());
    assert_eq!(st[2].led.as_ref().unwrap().colors, vec!["ff0000".to_string()]);
}

#[test]
fn fans_wireless_wired_then_offline() {
    let config = vec![
        fan_cfg("SN1", Some(("a.mp4", 20)), None, None),
        fan_cfg("", Some(("w.mp4", 24)), Some(2), Some(1)),
        fan_cfg("SN9", None, None, None),
    ];
    let serials = vec!["SN1".to_string(), "SN2".to_string()];
    let wired = vec![WiredLcdState { port: 2, lcd_index: 1 }];
    let st = build_fan_status(&config, &serials, &wired);
    assert_eq!(st.len(), 4);
    assert_eq!(st[0].serial, "SN1");
    assert!(st[0].connected);
    assert_eq!(st[0].video.as_ref().unwrap().path, "a.mp4");
    assert_eq!(st[1].serial, "SN2");
    assert!(st[1].video.is_none());
    assert_eq!(st[2].serial, "wired:2:1");
    assert_eq!(st[2].port, Some(2));
    assert_eq!(st[2].video.as_ref().unwrap().fps, 24);
    // configured with an empty serial: skipped; SN9: not connected
    assert_eq!(st[3].serial, "SN9");
    assert!(!st[3].connected);
}

#[test]
fn wired_names() {
    assert_eq!(wired_lcd_name(0, 0), "wired:0:0");
    assert_eq!(wired_lcd_name(12, 255), "wired:12:255");
}

fn device(mac: [u8; 6], fan_num: u8) -> RfDeviceInfo {
    RfDeviceInfo {
        mac,
        master_mac: [0; 6],
        channel: 8,
        rx_type: 1,
        dev_type: Slv3DevType::Slv3Fan,
        fan_num,
        effect_index: [0; 4],
        fan_types: [0; 4],
        fan_speeds: [100, 200, 300, 400],
        fan_pwm: [1, 2, 3, 4],
        cmd_seq: 0,
        bound: true,
    }
}

#[test]
fn receiver_state_keeps_at_most_four_fans() {
    let s = wireless_fan_state(&device([1, 2, 3, 4, 5, 6], 6));
    assert_eq!(s.mac, "01:02:03:04:05:06");
    assert_eq!(s.fan_count, 6);
    assert_eq!(s.fans.len(), 4);
    let s = wireless_fan_state(&device([1, 2, 3, 4, 5, 6], 2));
    assert_eq!(
        s.fans,
        vec![FanReading { rpm: 100, pwm: 1 }, FanReading { rpm: 200, pwm: 2 }]
    );
}

#[test]
fn devices_are_found_by_mac_text() {
    let devs = vec![device([1; 6], 1), device([2; 6], 1), device([2; 6], 3)];
    assert_eq!(find_device_by_mac(&devs, &"02:02:02:02:02:02".to_string()), Some(1));
    assert_eq!(find_device_by_mac(&devs, &"01:01:01:01:01:01".to_string()), Some(0));
    assert_eq!(find_device_by_mac(&devs, &"03:03:03:03:03:03".to_string()), None);
}
