use unifand::protocol::lcd::commands;
use unifand::protocol::lcd::{
    handshake_packet, lcd_control_packet, parse_handshake, parse_serial_number,
    write_avi_packets, write_jpg_packets, write_sync_jpg_packets, LcdControlSetting, LcdMode,
    ScreenRotation,
};
use unifand::Error;

#[test]
fn lcd_control_setting_encoding() {
    let setting = LcdControlSetting {
        mode: LcdMode::ShowJpg,
        jpg_index: 5,
        brightness: 80,
        video_fps: 30,
        rotation: ScreenRotation::Deg180,
        enable_test: false,
        test_color: (0, 0, 0),
    };
    let bytes = setting.to_bytes();
    assert_eq!(bytes.len(), 11);
    assert_eq!(bytes[0], 1); // ShowJpg
    assert_eq!(bytes[1], 0); // jpg_index high
    assert_eq!(bytes[2], 5); // jpg_index low
    assert_eq!(bytes[3], 0); // reserved
    assert_eq!(bytes[4], 80); // brightness
    assert_eq!(bytes[5], 30); // fps
    assert_eq!(bytes[6], 2); // Deg180
    assert_eq!(bytes[7], 0); // enable_test = false
    assert_eq!(bytes[8], 0);
    assert_eq!(bytes[9], 0);
    assert_eq!(bytes[10], 0);
}

#[test]
fn write_jpg_creates_correct_packets() {
    let data = vec![0xAB; 1000];
    let packets = write_jpg_packets(&data);
    assert_eq!(packets.len(), 2);
    assert_eq!(packets[0].command, commands::WRITE_JPG);
    assert_eq!(packets[0].data.len(), 501);
    assert_eq!(packets[1].data.len(), 499);
    assert_eq!(packets[0].data_size, 1000);
    assert_eq!(packets[1].data_size, 1000);
    assert_eq!(packets[0].packet_number, 0);
    assert_eq!(packets[1].packet_number, 1);
}

#[test]
fn parse_handshake_info() {
    // mode=1, frame_index=10 (0x000A big-endian)
    let data = vec![1, 0x00, 0x0A];
    let info = parse_handshake(&data).unwrap();
    assert_eq!(info.mode, 1);
    assert_eq!(info.frame_index, 10);
}

#[test]
fn parse_serial_number_info() {
    let mut data = vec![0u8; 34];
    // Write "SN123" into the first 32 bytes
    data[..5].copy_from_slice(b"SN123");
    data[32] = 2; // port
    data[33] = 1; // lcd_index
    let info = parse_serial_number(&data).unwrap();
    assert_eq!(info.serial, "SN123");
    assert_eq!(info.port, 2);
    assert_eq!(info.lcd_index, 1);
}

#[test]
fn parse_handshake_rejects_short_data() {
    assert!(parse_handshake(&[1, 2]).is_err());
}

#[test]
fn parse_serial_number_rejects_short_data() {
    assert!(parse_serial_number(&[0u8; 33]).is_err());
}

#[test]
fn handshake_packet_has_correct_command() {
    let packets = handshake_packet();
    assert_eq!(packets.len(), 1);
    assert_eq!(packets[0].command, commands::GET_HANDSHAKE_INFO);
    assert!(packets[0].data.is_empty());
}

#[test]
fn lcd_control_packet_wraps_setting() {
    let setting = LcdControlSetting {
        mode: LcdMode::ShowAvi,
        jpg_index: 0,
        brightness: 50,
        video_fps: 24,
        rotation: ScreenRotation::Deg0,
        enable_test: false,
        test_color: (0, 0, 0),
    };
    let packets = lcd_control_packet(&setting);
    assert_eq!(packets.len(), 1);
    assert_eq!(packets[0].command, commands::LCD_CONTROL);
    assert_eq!(packets[0].data.len(), 11);
}

#[test]
fn parse_handshake_error_names_the_length() {
    match parse_handshake(&[1, 2]) {
        Err(Error::InvalidResponse(m)) => assert_eq!(m, "handshake response too short: 2 bytes"),
        other => panic!("unexpected {:?}", other.is_ok()),
    }
}

#[test]
fn parse_serial_number_error_names_the_length() {
    match parse_serial_number(&[0u8; 33]) {
        Err(Error::InvalidResponse(m)) => {
            assert_eq!(m, "serial number response too short: 33 bytes")
        }
        other => panic!("unexpected {:?}", other.is_ok()),
    }
}

#[test]
fn parse_serial_number_replaces_invalid_utf8_and_keeps_inner_nuls() {
    let mut data = vec![0u8; 34];
    data[0] = b'A';
    data[1] = 0xFF;
    data[2] = 0;
    data[3] = b'B';
    let info = parse_serial_number(&data).unwrap();
    assert_eq!(info.serial, "A\u{FFFD}\0B");
}

#[test]
fn control_setting_encodes_test_colour_and_rotation() {
    let setting = LcdControlSetting {
        mode: LcdMode::LcdTest,
        jpg_index: 0x1234,
        brightness: 1,
        video_fps: 2,
        rotation: ScreenRotation::Deg270,
        enable_test: true,
        test_color: (7, 8, 9),
    };
    assert_eq!(setting.to_bytes(), vec![6, 0x12, 0x34, 0, 1, 2, 3, 1, 7, 8, 9]);
}

#[test]
fn sync_jpg_and_avi_packets_use_their_commands() {
    let data = vec![1u8; 10];
    assert_eq!(write_sync_jpg_packets(&data)[0].command, commands::WRITE_SYNC_JPG);
    assert_eq!(write_avi_packets(&data)[0].command, commands::WRITE_AVI);
    assert!(write_jpg_packets(&[]).is_empty());
}
