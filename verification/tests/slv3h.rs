use unifand::protocol::slv3h::{
    build_rf_bind_packet, build_rf_clock_sync_packet, build_rf_rgb_sync_packets_at,
    build_rf_save_config_packet, format_mac, fragment_rf_packet, get_device_list_packet,
    get_mac_packet, parse_device_list, parse_mac_response, parse_master_response,
    query_master_packet, render_static_rgb, reset_packet, static_effect_packets, Slv3DevType, CMD_GET_MAC,
    CMD_QUERY_MASTER, CMD_RESET, CMD_SEND_RF, DEFAULT_CHANNEL, DEVICE_ENTRY_LEN, LEDS_PER_FAN,
    RF_BIND, RF_CLOCK_SYNC, RF_CMD, RF_PACKET_LEN, RF_RGB_SYNC, RF_SAVE_CFG, STATIC_FRAMES,
    USB_PACKET_LEN,
};
use unifand::protocol::tinyuz;

#[test]
fn get_mac_packet_format() {
    let pkt = get_mac_packet();
    assert_eq!(pkt[0], CMD_GET_MAC);
    assert_eq!(pkt.len(), USB_PACKET_LEN);
}

#[test]
fn parse_mac_response_valid() {
    let mut data = [0u8; 64];
    data[0] = CMD_GET_MAC;
    data[1] = 0xAA;
    data[2] = 0xBB;
    data[3] = 0xCC;
    data[4] = 0xDD;
    data[5] = 0xEE;
    data[6] = 0xFF;
    let mac = parse_mac_response(&data).unwrap();
    assert_eq!(mac, [0xAA, 0xBB, 0xCC, 0xDD, 0xEE, 0xFF]);
}

#[test]
fn parse_mac_response_empty_mac() {
    let data = [0u8; 64];
    assert!(parse_mac_response(&data).is_none());
}

#[test]
fn query_master_packet_format() {
    let pkt = query_master_packet(DEFAULT_CHANNEL);
    assert_eq!(pkt[0], CMD_QUERY_MASTER);
    assert_eq!(pkt[1], DEFAULT_CHANNEL);
}

#[test]
fn parse_master_response_valid() {
    let mut data = [0u8; 64];
    data[0] = CMD_QUERY_MASTER;
    data[1..7].copy_from_slice(&[0x01, 0x02, 0x03, 0x04, 0x05, 0x06]);
    // sys_clock: set time_tmos to 1600 (1600 * 0.625 = 1000)
    data[7] = 0;
    data[8] = 0;
    data[9] = 0x06;
    data[10] = 0x40; // 1600
    data[11] = 0x01;
    data[12] = 0x06; // firmware 0x0106 = 262
    let info = parse_master_response(&data).unwrap();
    assert_eq!(info.mac, [0x01, 0x02, 0x03, 0x04, 0x05, 0x06]);
    assert_eq!(info.sys_clock, 1000);
    assert_eq!(info.firmware_version, 0x0106);
}

#[test]
fn fragment_rf_packet_produces_4_chunks() {
    let rf = [0xABu8; RF_PACKET_LEN];
    let chunks = fragment_rf_packet(&rf, 8, 1);
    // 240 / 60 = 4 chunks
    assert_eq!(chunks.len(), 4);
    assert_eq!(chunks[0][0], CMD_SEND_RF);
    assert_eq!(chunks[0][1], 0); // frag 0
    assert_eq!(chunks[0][2], 8); // channel
    assert_eq!(chunks[0][3], 1); // rx_type
    assert_eq!(chunks[1][1], 1); // frag 1
    assert_eq!(chunks[2][1], 2); // frag 2
    assert_eq!(chunks[3][1], 3); // frag 3
}

#[test]
fn build_rf_bind_packet_format() {
    let target = [0x01, 0x02, 0x03, 0x04, 0x05, 0x06];
    let master = [0x0A, 0x0B, 0x0C, 0x0D, 0x0E, 0x0F];
    let pwm = [50, 60, 70, 80];
    let rf = build_rf_bind_packet(&target, &master, 1, 8, 1, &pwm);
    assert_eq!(rf[0], RF_CMD);
    assert_eq!(rf[1], RF_BIND);
    assert_eq!(&rf[2..8], &target);
    assert_eq!(&rf[8..14], &master);
    assert_eq!(rf[14], 1); // rx_type
    assert_eq!(rf[15], 8); // channel
    assert_eq!(rf[16], 1); // slave_index
    assert_eq!(&rf[17..21], &pwm);
}

#[test]
fn build_rf_rgb_sync_packets_format() {
    let target = [0x01, 0x02, 0x03, 0x04, 0x05, 0x06];
    let master = [0x0A, 0x0B, 0x0C, 0x0D, 0x0E, 0x0F];
    let effect_index = [0x01, 0x00, 0x00, 0x00];

    // Generate compressed RGB data (1 fan, static red)
    let rgb_data = render_static_rgb(&[(255, 0, 0)], 1);
    let compressed = tinyuz::tuz_compress(&rgb_data, 4096);

    // An interval of 60.0 ms: 60 whole milliseconds and no hundredths.
    let packets = build_rf_rgb_sync_packets_at(
        &target,
        &master,
        &effect_index,
        &compressed,
        STATIC_FRAMES as u16,
        LEDS_PER_FAN as u8,
        60,
        0,
    );

    // Should have at least metadata + 1 data packet
    assert!(packets.len() >= 2);

    // Check metadata packet (index 0)
    let meta = &packets[0];
    assert_eq!(meta[0], RF_CMD);
    assert_eq!(meta[1], RF_RGB_SYNC);
    assert_eq!(&meta[2..8], &target);
    assert_eq!(&meta[8..14], &master);
    assert_eq!(&meta[14..18], &effect_index);
    assert_eq!(meta[18], 0); // packet_index = 0
    assert_eq!(meta[19], packets.len() as u8); // total_count

    // Check data packet (index 1)
    let data = &packets[1];
    assert_eq!(data[0], RF_CMD);
    assert_eq!(data[1], RF_RGB_SYNC);
    assert_eq!(&data[14..18], &effect_index);
    assert_eq!(data[18], 1); // packet_index = 1
}

#[test]
fn format_mac_string() {
    let mac = [0x01, 0x23, 0x45, 0x67, 0x89, 0xAB];
    assert_eq!(format_mac(&mac), "01:23:45:67:89:ab");
}

#[test]
fn parse_device_list_with_entries() {
    let master_mac = [0x0A, 0x0B, 0x0C, 0x0D, 0x0E, 0x0F];
    let mut data = vec![0u8; 4 + DEVICE_ENTRY_LEN * 2];
    data[0] = CMD_SEND_RF;
    data[1] = 1; // 1 device

    let offset = 4;
    // MAC
    data[offset..offset + 6].copy_from_slice(&[0x11, 0x22, 0x33, 0x44, 0x55, 0x66]);
    // Master MAC
    data[offset + 6..offset + 12].copy_from_slice(&master_mac);
    // channel, rx_type
    data[offset + 12] = 8;
    data[offset + 13] = 1;
    // dev_type = 0 (SLV3Fan)
    data[offset + 18] = 0;
    // fan_num = 4
    data[offset + 19] = 4;
    // fan_speeds: 1200, 1100, 1000, 900
    data[offset + 28] = 0x04;
    data[offset + 29] = 0xB0; // 1200
    data[offset + 30] = 0x04;
    data[offset + 31] = 0x4C; // 1100
    data[offset + 32] = 0x03;
    data[offset + 33] = 0xE8; // 1000
    data[offset + 34] = 0x03;
    data[offset + 35] = 0x84; // 900
    // fan_pwm
    data[offset + 36] = 80;
    data[offset + 37] = 80;
    data[offset + 38] = 80;
    data[offset + 39] = 80;
    // cmd_seq
    data[offset + 40] = 5;
    // marker
    data[offset + 41] = CMD_GET_MAC;

    let devices = parse_device_list(&data, &master_mac);
    assert_eq!(devices.len(), 1);
    let dev = &devices[0];
    assert_eq!(dev.mac, [0x11, 0x22, 0x33, 0x44, 0x55, 0x66]);
    assert_eq!(dev.fan_num, 4);
    assert_eq!(dev.fan_speeds, [1200, 1100, 1000, 900]);
    assert_eq!(dev.fan_pwm, [80, 80, 80, 80]);
    assert!(dev.bound);
    assert_eq!(dev.dev_type, Slv3DevType::Slv3Fan);
}

#[test]
fn fragments_reassemble_into_the_frame() {
    let mut rf = [0u8; RF_PACKET_LEN];
    for (i, b) in rf.iter_mut().enumerate() {
        *b = (i * 7 % 256) as u8;
    }
    let chunks = fragment_rf_packet(&rf, 3, 9);
    let joined: Vec<u8> = chunks.iter().flat_map(|c| c[4..].iter().copied()).collect();
    assert_eq!(joined, rf.to_vec());
}

#[test]
fn master_response_clock_truncates_like_the_fraction() {
    // 3 ticks of 0.625 ms = 1.875, truncated to 1.
    let mut data = [0u8; 13];
    data[0] = CMD_QUERY_MASTER;
    data[1] = 1;
    data[10] = 3;
    assert_eq!(parse_master_response(&data).unwrap().sys_clock, 1);
    // a zero clock means no master
    data[10] = 0;
    assert!(parse_master_response(&data).is_none());
}

#[test]
fn save_config_and_clock_sync_frames() {
    let master = [1, 2, 3, 4, 5, 6];
    let rf = build_rf_save_config_packet(&master);
    assert_eq!(rf[0], RF_CMD);
    assert_eq!(rf[1], RF_SAVE_CFG);
    assert_eq!(&rf[2..8], &[0xFF; 6]);
    assert_eq!(&rf[8..14], &master);
    assert_eq!(rf[14], 0xFF);
    assert!(rf[15..].iter().all(|&b| b == 0));

    let cpu = [9u8; 300];
    let rf = build_rf_clock_sync_packet(&master, &cpu);
    assert_eq!(rf[1], RF_CLOCK_SYNC);
    assert_eq!(&rf[2..8], &[0; 6]);
    assert_eq!(&rf[8..14], &master);
    assert!(rf[14..].iter().all(|&b| b == 9));
}

#[test]
fn small_usb_packets() {
    assert_eq!(&reset_packet()[..2], &[CMD_RESET, 0]);
    let p = get_device_list_packet(2);
    assert_eq!(p[0], CMD_SEND_RF);
    assert_eq!(p[1], 2);
}

#[test]
fn static_rgb_repeats_one_frame() {
    let data = render_static_rgb(&[(1, 2, 3), (4, 5, 6)], 1);
    assert_eq!(data.len(), STATIC_FRAMES * LEDS_PER_FAN * 3);
    // two colours split the 26 LEDs into two zones of 13
    assert_eq!(&data[..6], &[1, 2, 3, 1, 2, 3]);
    assert_eq!(&data[12 * 3..14 * 3], &[1, 2, 3, 4, 5, 6]);
    let frame = &data[..LEDS_PER_FAN * 3];
    assert!(data.chunks(LEDS_PER_FAN * 3).all(|f| f == frame));
}

#[test]
fn static_effect_is_rendered_compressed_and_framed() {
    let target = [0x01, 0x02, 0x03, 0x04, 0x05, 0x06];
    let master = [0x0A, 0x0B, 0x0C, 0x0D, 0x0E, 0x0F];
    let colors = [(255, 0, 0), (0, 0, 255)];
    let packets = static_effect_packets(&target, &master, 1, &colors, 2).unwrap();

    let rgb = render_static_rgb(&colors, 2);
    let compressed = tinyuz::tuz_compress(&rgb, 4096);
    let expected = build_rf_rgb_sync_packets_at(
        &target,
        &master,
        &[1, 0, 0, 0],
        &compressed,
        STATIC_FRAMES as u16,
        52,
        60,
        0,
    );
    assert_eq!(packets, expected);

    let meta = &packets[0];
    assert_eq!(&meta[14..18], &[1, 0, 0, 0]);
    assert_eq!(&meta[25..28], &[0, 70, 52]);
    assert_eq!(&meta[32..35], &[0, 60, 0]);
    let len = compressed.len();
    assert_eq!(&meta[20..24], &(len as u32).to_be_bytes());
}

#[test]
fn static_effect_led_count_wraps_to_a_byte() {
    // 10 fans of 26 LEDs are 260 LEDs; the count byte holds 260 mod 256.
    let target = [1, 1, 1, 1, 1, 1];
    let master = [2, 2, 2, 2, 2, 2];
    let packets = static_effect_packets(&target, &master, 3, &[(9, 9, 9)], 10).unwrap();
    assert_eq!(packets[0][27], 4);
    assert_eq!(packets[0][14], 3);
}
