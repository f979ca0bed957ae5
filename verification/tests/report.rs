use unifand::ipc::{
    DaemonStatus, DisplayState, FanConfig, FanReading, VideoConfig, WiredLcdState,
    WirelessFanState, WirelessLcdState,
};
use unifand::report::{display_description, format_uptime, render_status, status_lines};

#[test]
fn uptimes() {
    assert_eq!(format_uptime(42), "42s");
    assert_eq!(format_uptime(60), "1m 0s");
    assert_eq!(format_uptime(125), "2m 5s");
    assert_eq!(format_uptime(3600), "1h 0m");
    assert_eq!(format_uptime(3725), "1h 2m");
}

fn display(mode: &str, source: Option<&str>, fps: Option<u8>, looping: bool) -> DisplayState {
    DisplayState { mode: mode.to_string(), source: source.map(String::from), fps, looping }
}

#[test]
fn display_descriptions() {
    assert_eq!(display_description(&DisplayState::default()), "idle");
    assert_eq!(display_description(&display("image", Some("a.png"), None, false)), "image a.png");
    assert_eq!(display_description(&display("image", None, None, false)), "image ?");
    assert_eq!(
        display_description(&display("video", Some("v.mp4"), Some(24), true)),
        "video v.mp4 @ 24fps (looping)"
    );
    assert_eq!(display_description(&display("video", None, None, false)), "video ?");
    assert_eq!(display_description(&display("other", None, None, false)), "other");
}

fn cfg(serial: &str, video: Option<(&str, u8)>) -> FanConfig {
    FanConfig {
        serial: serial.to_string(),
        mac: None,
        port: None,
        lcd_index: None,
        video: video.map(|(p, f)| VideoConfig { path: p.to_string(), fps: f }),
        led: None,
    }
}

fn sample() -> DaemonStatus {
    DaemonStatus {
        uptime_secs: 3725,
        wireless_lcds: vec![
            WirelessLcdState { serial: Some("SN1".to_string()) },
            WirelessLcdState { serial: None },
            WirelessLcdState { serial: Some("SN3".to_string()) },
        ],
        wired_lcds: vec![],
        display: display("video", Some("v.mp4"), Some(20), false),
        wireless_fans: vec![WirelessFanState {
            mac: "aa:bb:cc:dd:ee:ff".to_string(),
            fan_count: 2,
            fans: vec![FanReading { rpm: 1200, pwm: 50 }, FanReading { rpm: 900, pwm: 40 }],
        }],
        config_fans: vec![cfg("SN1", Some(("a.mp4", 20))), cfg("SN\"9", None)],
    }
}

#[test]
fn status_report_lines() {
    let lines = status_lines(&sample(), "/home/u/.config/unifand/config.json");
    let expected = vec![
        "unifand.service - Lian Li Uni Fan Daemon",
        "  Active: running (uptime: 1h 2m)",
        "  LCDs: 3 wireless",
        "    LCD 0: serial=SN1",
        "    LCD 1: serial=(none)",
        "    LCD 2: serial=SN3",
        "  Display: video v.mp4 @ 20fps",
        "",
        "  Wireless Devices:",
        "    Receiver aa:bb:cc:dd:ee:ff",
        "      Fan 0: RPM=1200, PWM=50",
        "      Fan 1: RPM=900, PWM=40",
        "",
        "  Fan Config:",
        "    LCD SN1: video a.mp4@20fps",
        "    Config \"SN\\\"9\": fan not found (disconnected?)",
        "",
        "  Unconfigured LCDs:",
        "    LCD SN3: no config (add to /home/u/.config/unifand/config.json)",
    ];
    assert_eq!(lines, expected);
}

#[test]
fn quiet_status_has_no_sections() {
    let status = DaemonStatus {
        uptime_secs: 5,
        wireless_lcds: vec![],
        wired_lcds: vec![WiredLcdState { port: 0, lcd_index: 0 }],
        display: DisplayState::default(),
        wireless_fans: vec![],
        config_fans: vec![],
    };
    let lines = render_status(&status, "/c", &[]);
    assert_eq!(
        lines,
        vec![
            "unifand.service - Lian Li Uni Fan Daemon",
            "  Active: running (uptime: 5s)",
            "  LCDs: 1 wired",
            "  Display: idle",
        ]
    );
}
