use unifand::protocol::fan::commands;
use unifand::protocol::fan::{
    blink_port_packet, handshake_packet, parse_handshake, set_fan_speed_packet,
    set_mb_sync_packet,
};

#[test]
fn handshake_packet_correct() {
    let pkt = handshake_packet();
    assert_eq!(pkt.command, commands::HANDSHAKE);
    assert!(pkt.data.is_empty());
    let bytes = pkt.to_bytes();
    assert_eq!(bytes[1], 0xA1);
    assert_eq!(bytes[5], 0); // payload length 0
}

#[test]
fn parse_handshake_response() {
    // port 1, fan 2, detected=true, upgrading=false, RPM=1200
    let data = [0x92, 0x04, 0xB0];
    let fans = parse_handshake(&data);
    assert_eq!(fans.len(), 1);
    assert!(fans[0].detected);
    assert!(!fans[0].upgrading);
    assert_eq!(fans[0].port, 1);
    assert_eq!(fans[0].fan_index, 2);
    assert_eq!(fans[0].rpm, 1200);
}

#[test]
fn parse_handshake_multiple_fans() {
    let data = [
        // Fan 1: port 0, fan 0, detected, not upgrading, 800 RPM
        0x80, 0x03, 0x20,
        // Fan 2: port 2, fan 1, detected, upgrading, 0 RPM
        0xE1, 0x00, 0x00,
        // Fan 3: port 1, fan 3, not detected, not upgrading, 0 RPM
        0x13, 0x00, 0x00,
    ];
    let fans = parse_handshake(&data);
    assert_eq!(fans.len(), 3);

    assert!(fans[0].detected);
    assert!(!fans[0].upgrading);
    assert_eq!(fans[0].port, 0);
    assert_eq!(fans[0].fan_index, 0);
    assert_eq!(fans[0].rpm, 800);

    assert!(fans[1].detected);
    assert!(fans[1].upgrading);
    assert_eq!(fans[1].port, 2);
    assert_eq!(fans[1].fan_index, 1);
    assert_eq!(fans[1].rpm, 0);

    assert!(!fans[2].detected);
    assert!(!fans[2].upgrading);
    assert_eq!(fans[2].port, 1);
    assert_eq!(fans[2].fan_index, 3);
    assert_eq!(fans[2].rpm, 0);
}

#[test]
fn set_fan_speed_encoding() {
    let pkt = set_fan_speed_packet(2, 3, 128);
    let bytes = pkt.to_bytes();
    assert_eq!(bytes[1], commands::SET_FAN_SPEED);
    assert_eq!(bytes[6], 0x23); // (2<<4)|3
    assert_eq!(bytes[7], 128);
}

#[test]
fn set_mb_sync_encoding() {
    let pkt = set_mb_sync_packet(1, 0, true);
    let bytes = pkt.to_bytes();
    assert_eq!(bytes[1], commands::SET_MB_FAN_SYNC);
    assert_eq!(bytes[6], 0x90); // (1<<7)|(1<<4)|0
}

#[test]
fn set_mb_sync_off_clears_the_sync_bit() {
    let bytes = set_mb_sync_packet(1, 2, false).to_bytes();
    assert_eq!(bytes[6], 0x12);
}

#[test]
fn blink_port_addresses_the_port() {
    let bytes = blink_port_packet(3).to_bytes();
    assert_eq!(bytes[1], commands::BLINK_PORT);
    assert_eq!(bytes[5], 1);
    assert_eq!(bytes[6], 3);
}

#[test]
fn parse_handshake_ignores_a_partial_entry() {
    let fans = parse_handshake(&[0x92, 0x04, 0xB0, 0x80, 0x01]);
    assert_eq!(fans.len(), 1);
    assert!(parse_handshake(&[]).is_empty());
}
