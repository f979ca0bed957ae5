use unifand::protocol::led::commands;
use unifand::protocol::led::{
    set_fan_direction_packet, set_fan_light_packet, FanLightConfig, LightingDirection, Rgb,
};

#[test]
fn set_fan_light_encoding() {
    let cfg = FanLightConfig {
        port: 0,
        fan_index: 0,
        sync: false,
        mode: 1,       // static
        brightness: 4, // full
        speed: 0,
        colors: vec![Rgb { r: 255, g: 0, b: 0 }],
        direction: LightingDirection::RightOrClockwise,
        disabled: false,
    };
    let pkt = set_fan_light_packet(&cfg);
    let bytes = pkt.to_bytes();
    assert_eq!(bytes[1], commands::SET_FAN_LIGHT);
    assert_eq!(bytes[5], 20); // payload length
    // payload starts at byte 6
    assert_eq!(bytes[6], 0x00); // (0<<4)|0 sync=false
    assert_eq!(bytes[7], 0x00); // (0<<4)|0 fan_index
    assert_eq!(bytes[8], 1); // mode
    assert_eq!(bytes[9], 4); // brightness
    assert_eq!(bytes[10], 0); // speed
    assert_eq!(bytes[11], 255); // R
    assert_eq!(bytes[12], 0); // G
    assert_eq!(bytes[13], 0); // B
    assert_eq!(bytes[23], 0); // direction
    assert_eq!(bytes[24], 0); // disabled
    assert_eq!(bytes[25], 1); // color count
}

#[test]
fn set_fan_direction_encoding() {
    let pkt = set_fan_direction_packet(1, 2, true, false);
    let bytes = pkt.to_bytes();
    assert_eq!(bytes[1], commands::SET_FAN_DIRECTION);
    assert_eq!(bytes[6], 0x12); // (1<<4)|2
    assert_eq!(bytes[7], 0x02); // swap_top_bottom=1 << 1 = 2
}

#[test]
fn set_fan_light_keeps_at_most_four_colours() {
    let colors: Vec<Rgb> = (1..=6).map(|i| Rgb { r: i, g: 10 + i, b: 20 + i }).collect();
    let cfg = FanLightConfig {
        port: 2,
        fan_index: 3,
        sync: true,
        mode: 5,
        brightness: 2,
        speed: 3,
        colors,
        direction: LightingDirection::Gathered,
        disabled: true,
    };
    let p = set_fan_light_packet(&cfg);
    assert_eq!(p.data.len(), 20);
    assert_eq!(p.data[0], 0x21);
    assert_eq!(p.data[1], 0x23);
    assert_eq!(&p.data[5..17], &[1, 11, 21, 2, 12, 22, 3, 13, 23, 4, 14, 24]);
    assert_eq!(p.data[17], 5);
    assert_eq!(p.data[18], 1);
    assert_eq!(p.data[19], 4);
}
