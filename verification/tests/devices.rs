use unifand::devices::{
    device_list_master_mac, device_list_read_len, fan_handshake_response, fan_pwm_chunks,
    hub_mac_request, hub_mac_response, master_response, save_config_chunks,
    wired_handshake_response, wireless_handshake_response,
};
use unifand::protocol::slv3h::{
    build_rf_bind_packet, build_rf_save_config_packet, fragment_rf_packet, MasterInfo,
    RfDeviceInfo, Slv3DevType, CMD_GET_MAC, CMD_QUERY_MASTER, DEFAULT_CHANNEL,
};
use unifand::Error;

fn message(e: Error) -> String {
    match e {
        Error::InvalidResponse(m) => m,
        _ => panic!("expected an invalid-response error"),
    }
}

#[test]
fn fan_handshake_reads_the_payload() {
    let mut resp = [0u8; 64];
    resp[0] = 0x01;
    resp[1] = 0xA1;
    resp[5] = 3;
    resp[6] = 0x92;
    resp[7] = 0x04;
    resp[8] = 0xB0;
    let fans = fan_handshake_response(&resp).unwrap();
    assert_eq!(fans.len(), 1);
    assert_eq!(fans[0].rpm, 1200);
    assert_eq!(message(fan_handshake_response(&[1, 2]).unwrap_err()), "packet too short");
}

#[test]
fn wired_handshake_offsets() {
    let mut resp = vec![0x02; 14];
    resp[11] = 3;
    resp[12] = 0;
    resp[13] = 7;
    let h = wired_handshake_response(&resp).unwrap();
    assert_eq!((h.mode, h.frame_index), (3, 7));
    let mut resp = vec![0x05; 13];
    resp[10] = 4;
    resp[11] = 1;
    resp[12] = 0;
    let h = wired_handshake_response(&resp).unwrap();
    assert_eq!((h.mode, h.frame_index), (4, 256));
    assert_eq!(
        message(wired_handshake_response(&[0x02; 11]).unwrap_err()),
        "handshake response too short"
    );
    assert_eq!(
        message(wired_handshake_response(&[0x02; 12]).unwrap_err()),
        "handshake response too short: 1 bytes"
    );
}

#[test]
fn wireless_handshake_reads_an_lcd_report() {
    let mut resp = [0u8; 64];
    resp[0] = 0x02;
    resp[10] = 3;
    resp[11] = 1;
    resp[12] = 0;
    resp[13] = 9;
    let h = wireless_handshake_response(&resp).unwrap();
    assert_eq!((h.mode, h.frame_index), (1, 9));
    resp[0] = 0x01;
    assert_eq!(
        message(wireless_handshake_response(&resp).unwrap_err()),
        "expected report ID 0x02, got 0x01"
    );
}

#[test]
fn hub_mac_exchange() {
    let req = hub_mac_request();
    assert_eq!(req.len(), 65);
    assert_eq!(req[0], 0);
    assert_eq!(req[1], CMD_GET_MAC);
    assert!(req[2..].iter().all(|&b| b == 0));
    let mut resp = [0u8; 64];
    resp[1..7].copy_from_slice(&[1, 2, 3, 4, 5, 6]);
    assert_eq!(hub_mac_response(&resp).unwrap(), [1, 2, 3, 4, 5, 6]);
    assert_eq!(message(hub_mac_response(&[0u8; 64]).unwrap_err()), "failed to get hub MAC");
}

#[test]
fn master_query_answer() {
    let mut resp = [0u8; 64];
    resp[0] = CMD_QUERY_MASTER;
    resp[1] = 9;
    resp[10] = 16;
    let m = master_response(&resp).unwrap();
    assert_eq!(m.sys_clock, 10);
    resp[0] = 0;
    assert_eq!(message(master_response(&resp).unwrap_err()), "failed to query master");
}

fn target() -> RfDeviceInfo {
    RfDeviceInfo {
        mac: [1, 2, 3, 4, 5, 6],
        master_mac: [0; 6],
        channel: 5,
        rx_type: 2,
        dev_type: Slv3DevType::Slv3Fan,
        fan_num: 4,
        effect_index: [0; 4],
        fan_types: [0; 4],
        fan_speeds: [0; 4],
        fan_pwm: [0; 4],
        cmd_seq: 0,
        bound: true,
    }
}

#[test]
fn pwm_needs_the_master() {
    let dev = target();
    assert_eq!(
        message(fan_pwm_chunks(&None, &dev, &[10; 4]).unwrap_err()),
        "not initialized — call init() first"
    );
    let master = MasterInfo { mac: [9; 6], sys_clock: 1, firmware_version: 2 };
    let chunks = fan_pwm_chunks(&Some(master), &dev, &[10, 20, 30, 40]).unwrap();
    let rf = build_rf_bind_packet(&dev.mac, &[9; 6], 2, DEFAULT_CHANNEL, 1, &[10, 20, 30, 40]);
    assert_eq!(chunks, fragment_rf_packet(&rf, 5, 2));
}

#[test]
fn save_config_needs_the_master() {
    assert_eq!(message(save_config_chunks(&None).unwrap_err()), "not initialized");
    let master = MasterInfo { mac: [7; 6], sys_clock: 1, firmware_version: 2 };
    let chunks = save_config_chunks(&Some(master)).unwrap();
    let rf = build_rf_save_config_packet(&[7; 6]);
    assert_eq!(chunks, fragment_rf_packet(&rf, DEFAULT_CHANNEL, 0xFF));
}

#[test]
fn device_list_request_parts() {
    assert_eq!(device_list_read_len(1), 434);
    assert_eq!(device_list_master_mac(&None), [0; 6]);
    let master = MasterInfo { mac: [3; 6], sys_clock: 1, firmware_version: 2 };
    assert_eq!(device_list_master_mac(&Some(master)), [3; 6]);
}

#[test]
fn fan_handshake_reads_a_report_without_its_id() {
    let mut resp = vec![0xA1, 0, 0, 0, 3, 0x92, 0x04, 0xB0];
    resp.extend_from_slice(&[0u8; 56]);
    let fans = fan_handshake_response(&resp).unwrap();
    assert_eq!(fans.len(), 1);
    assert_eq!(fans[0].rpm, 1200);
}
