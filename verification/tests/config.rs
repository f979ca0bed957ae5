use unifand::config::{plan_config_wireless, wired_entry, WiredEntry};
use unifand::ipc::{FanConfig, LedConfig, VideoConfig, WiredLcdState};

fn entry(serial: &str) -> FanConfig {
    FanConfig {
        serial: serial.to_string(),
        mac: None,
        port: None,
        lcd_index: None,
        video: None,
        led: None,
    }
}

fn video(path: &str, fps: u8) -> Option<VideoConfig> {
    Some(VideoConfig { path: path.to_string(), fps })
}

#[test]
fn wireless_plan_matches_entries_to_lcds() {
    let mut a = entry("LCD-B");
    a.video = video("/v/b.mp4", 24);
    let mut b = entry("LCD-X");
    b.video = video("/v/x.mp4", 30);
    let mut c = entry("");
    c.mac = Some("26:70:85:e5:66:e1".to_string());
    c.led = Some(LedConfig {
        mode: 1,
        brightness: 100,
        speed: 50,
        direction: 0,
        colors: vec!["ff0000".to_string()],
    });
    let mut d = entry("LCD-A");
    d.video = video("/v/fast.mp4", 90);
    let serials = vec!["LCD-A".to_string(), "LCD-B".to_string(), "LCD-C".to_string()];
    let plan = plan_config_wireless(&[a, b, c, d], &serials);

    assert_eq!(plan.unknown_serials, vec!["LCD-X".to_string()]);
    assert_eq!(plan.unconfigured, vec!["LCD-C".to_string()]);
    assert_eq!(plan.empty_serial_entries, 1);
    assert_eq!(plan.leds.len(), 1);
    assert_eq!(plan.leds[0].0, "26:70:85:e5:66:e1");
    assert_eq!(plan.leds[0].1.mode, 1);
    assert_eq!(plan.leds[0].1.colors, vec!["ff0000".to_string()]);
    // Videos by LCD index, in configuration order; the fast one is played too.
    assert_eq!(plan.videos.len(), 2);
    assert_eq!(plan.videos[0].0, 1);
    assert_eq!(plan.videos[0].1.path, "/v/b.mp4");
    assert_eq!(plan.videos[1].0, 0);
    assert_eq!(plan.videos[1].1.fps, 90);
}

#[test]
fn empty_configuration_plans_nothing() {
    let serials = vec!["LCD-A".to_string()];
    let plan = plan_config_wireless(&[], &serials);
    assert!(plan.unknown_serials.is_empty());
    assert_eq!(plan.unconfigured, vec!["LCD-A".to_string()]);
    assert!(plan.leds.is_empty());
    assert_eq!(plan.empty_serial_entries, 0);
    assert!(plan.videos.is_empty());
}

#[test]
fn wired_entries_by_place_in_the_chain() {
    let positions = vec![
        WiredLcdState { port: 1, lcd_index: 0 },
        WiredLcdState { port: 2, lcd_index: 1 },
    ];
    let mut e = entry("");
    assert_eq!(wired_entry(&e, &positions), WiredEntry::NoPort);
    e.port = Some(2);
    assert_eq!(wired_entry(&e, &positions), WiredEntry::NoIndex);
    e.lcd_index = Some(0);
    assert_eq!(wired_entry(&e, &positions), WiredEntry::NotFound { port: 2, lcd_index: 0 });
    e.lcd_index = Some(1);
    assert_eq!(wired_entry(&e, &positions), WiredEntry::NoVideo);
    e.video = video("/v/w.mp4", 20);
    assert_eq!(wired_entry(&e, &positions), WiredEntry::Play);
}
