use unifand::ipc::{
    default_brightness, default_fps, parse_hex_color, DaemonStatus, DisplayState, Response,
};

#[test]
fn hex_colors() {
    assert_eq!(parse_hex_color("ff0000"), Some((255, 0, 0)));
    assert_eq!(parse_hex_color("#00FF7f"), Some((0, 255, 127)));
    assert_eq!(parse_hex_color("12345"), None);
    assert_eq!(parse_hex_color("##123456"), None);
    assert_eq!(parse_hex_color("gg0000"), None);
    assert_eq!(parse_hex_color(""), None);
    // each field is two hexadecimal digits and nothing else
    assert_eq!(parse_hex_color("+f0000"), None);
    assert_eq!(parse_hex_color("+f+f+f"), None);
    assert_eq!(parse_hex_color("-f0000"), None);
}

#[test]
fn responses() {
    let r = Response::ok();
    assert!(r.ok && r.error.is_none() && r.status.is_none());
    let r = Response::err("no LCD connected");
    assert!(!r.ok);
    assert_eq!(r.error.as_deref(), Some("no LCD connected"));
    let status = DaemonStatus {
        uptime_secs: 5,
        wireless_lcds: vec![],
        wired_lcds: vec![],
        display: DisplayState::default(),
        wireless_fans: vec![],
        config_fans: vec![],
    };
    let r = Response::with_status(status);
    assert!(r.ok && r.error.is_none());
    assert_eq!(r.status.unwrap().uptime_secs, 5);
}

#[test]
fn defaults() {
    let d = DisplayState::default();
    assert_eq!(d.mode, "idle");
    assert!(d.source.is_none() && d.fps.is_none() && !d.looping);
    assert_eq!(default_fps(), 20);
    assert_eq!(default_brightness(), 4);
}
