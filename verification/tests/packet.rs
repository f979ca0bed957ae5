use unifand::protocol::packet::{
    LcdPacket, LedPacket, LCD_INPUT_LEN, LCD_OUTPUT_LEN, LCD_REPORT_ID, LED_PACKET_LEN,
    LED_REPORT_ID,
};
use unifand::Error;

#[test]
fn led_packet_serializes_correctly() {
    let pkt = LedPacket { command: 0xAA, packet_number: 0, data: vec![0x12, 0x80] };
    let bytes = pkt.to_bytes();
    assert_eq!(bytes.len(), LED_PACKET_LEN);
    assert_eq!(bytes[0], LED_REPORT_ID);
    assert_eq!(bytes[1], 0xAA);
    assert_eq!(bytes[2], 0x00); // reserved
    assert_eq!(bytes[3], 0x00); // packet_number high
    assert_eq!(bytes[4], 0x00); // packet_number low
    assert_eq!(bytes[5], 2); // payload length
    assert_eq!(bytes[6], 0x12);
    assert_eq!(bytes[7], 0x80);
    assert_eq!(bytes[8], 0x00); // rest is zero-padded
}

#[test]
fn led_packet_parses_response() {
    let mut bytes = [0u8; LED_PACKET_LEN];
    bytes[0] = LED_REPORT_ID;
    bytes[1] = 0xA1;
    bytes[5] = 3;
    bytes[6] = 0xDE;
    bytes[7] = 0xAD;
    bytes[8] = 0xBE;
    let pkt = LedPacket::from_bytes(&bytes).unwrap();
    assert_eq!(pkt.command, 0xA1);
    assert_eq!(pkt.data, vec![0xDE, 0xAD, 0xBE]);
}

#[test]
fn led_packet_rejects_wrong_report_id() {
    let mut bytes = [0u8; LED_PACKET_LEN];
    bytes[0] = 0x02; // wrong
    assert!(LedPacket::from_bytes(&bytes).is_err());
}

#[test]
fn lcd_packet_serializes_correctly() {
    let pkt = LcdPacket { command: 0x41, data_size: 1500, packet_number: 0, data: vec![0xFF; 501] };
    let bytes = pkt.to_bytes();
    assert_eq!(bytes.len(), LCD_OUTPUT_LEN);
    assert_eq!(bytes[0], LCD_REPORT_ID);
    assert_eq!(bytes[1], 0x41);
    // data_size 1500 = 0x000005DC big-endian
    assert_eq!(bytes[2], 0x00);
    assert_eq!(bytes[3], 0x00);
    assert_eq!(bytes[4], 0x05);
    assert_eq!(bytes[5], 0xDC);
    // packet_number 0
    assert_eq!(bytes[6], 0x00);
    assert_eq!(bytes[7], 0x00);
    assert_eq!(bytes[8], 0x00);
    // length 501 = 0x01F5
    assert_eq!(bytes[9], 0x01);
    assert_eq!(bytes[10], 0xF5);
    assert_eq!(bytes[11], 0xFF);
}

#[test]
fn lcd_packet_chunks_large_data() {
    let data = vec![0xAB; 1200]; // needs 3 packets (501 + 501 + 198)
    let packets = LcdPacket::build_packets(0x41, &data);
    assert_eq!(packets.len(), 3);
    assert_eq!(packets[0].data_size, 1200);
    assert_eq!(packets[0].packet_number, 0);
    assert_eq!(packets[0].data.len(), 501);
    assert_eq!(packets[1].packet_number, 1);
    assert_eq!(packets[1].data.len(), 501);
    assert_eq!(packets[2].packet_number, 2);
    assert_eq!(packets[2].data.len(), 198);
}

#[test]
fn lcd_packet_parses_input_response() {
    let mut bytes = [0u8; LCD_INPUT_LEN];
    bytes[0] = LCD_REPORT_ID;
    bytes[1] = 0x3C;
    bytes[9] = 0x00;
    bytes[10] = 3;
    bytes[11] = 0x01;
    bytes[12] = 0x00;
    bytes[13] = 0x05;
    let pkt = LcdPacket::from_bytes(&bytes).unwrap();
    assert_eq!(pkt.command, 0x3C);
    assert_eq!(pkt.data, vec![0x01, 0x00, 0x05]);
}

#[test]
fn led_packet_errors_name_the_problem() {
    match LedPacket::from_bytes(&[1, 2, 3]) {
        Err(Error::InvalidResponse(m)) => assert_eq!(m, "packet too short"),
        _ => panic!("expected a short-packet error"),
    }
    let mut bytes = [0u8; LED_PACKET_LEN];
    bytes[0] = 0x02;
    match LedPacket::from_bytes(&bytes) {
        Err(Error::InvalidResponse(m)) => assert_eq!(m, "expected report ID 0x01, got 0x02"),
        _ => panic!("expected a report-id error"),
    }
}

#[test]
fn lcd_packet_errors_name_the_problem() {
    match LcdPacket::from_bytes(&[2; 10]) {
        Err(Error::InvalidResponse(m)) => assert_eq!(m, "packet too short"),
        _ => panic!("expected a short-packet error"),
    }
    let mut bytes = [0u8; LCD_INPUT_LEN];
    bytes[0] = 0xAB;
    match LcdPacket::from_bytes(&bytes) {
        Err(Error::InvalidResponse(m)) => assert_eq!(m, "expected report ID 0x02, got 0xab"),
        _ => panic!("expected a report-id error"),
    }
}

#[test]
fn payload_is_cut_at_the_end_of_the_input() {
    let mut bytes = vec![0u8; 8];
    bytes[0] = LED_REPORT_ID;
    bytes[5] = 50;
    bytes[6] = 7;
    bytes[7] = 9;
    assert_eq!(LedPacket::from_bytes(&bytes).unwrap().data, vec![7, 9]);
}

#[test]
fn led_packet_roundtrips_through_bytes() {
    let pkt = LedPacket::new(0xB4, vec![1, 2, 3, 4]);
    let back = LedPacket::from_bytes(&pkt.to_bytes()).unwrap();
    assert_eq!(back.command, 0xB4);
    assert_eq!(back.packet_number, 0);
    assert_eq!(back.data, vec![1, 2, 3, 4]);
}

#[test]
fn lcd_packet_roundtrips_through_bytes() {
    let pkt = LcdPacket::new(0x41, 70000, 0x012345, vec![9; 300]);
    let back = LcdPacket::from_bytes(&pkt.to_bytes()).unwrap();
    assert_eq!(back.command, 0x41);
    assert_eq!(back.data_size, 70000);
    assert_eq!(back.packet_number, 0x012345);
    assert_eq!(back.data, vec![9; 300]);
}

#[test]
fn build_packets_concatenate_to_the_data() {
    let data: Vec<u8> = (0..1300u32).map(|i| (i % 251) as u8).collect();
    let packets = LcdPacket::build_packets(0x45, &data);
    let joined: Vec<u8> = packets.iter().flat_map(|p| p.data.iter().copied()).collect();
    assert_eq!(joined, data);
    assert!(packets.iter().all(|p| p.data_size == 1300 && p.command == 0x45));
}

#[test]
fn error_messages() {
    assert_eq!(Error::Timeout.message(), "timeout waiting for device response");
    assert_eq!(
        Error::InvalidResponse("packet too short".to_string()).message(),
        "invalid response: packet too short"
    );
    assert_eq!(
        Error::DeviceNotFound("wireless LCD 1CBE:0006".to_string()).message(),
        "device not found: wireless LCD 1CBE:0006"
    );
}

#[test]
fn led_packet_accepts_a_read_without_report_id() {
    let mut bytes = vec![0xA1, 0, 0, 0, 3, 0x92, 0x04, 0xB0];
    bytes.extend_from_slice(&[0u8; 56]);
    let pkt = LedPacket::from_bytes(&bytes).unwrap();
    assert_eq!(pkt.command, 0xA1);
    assert_eq!(pkt.packet_number, 0);
    assert_eq!(pkt.data, vec![0x92, 0x04, 0xB0]);
}

#[test]
fn led_packet_short_read_without_report_id() {
    assert!(matches!(
        LedPacket::from_bytes(&[0xA1, 0, 0, 0]),
        Err(Error::InvalidResponse(m)) if m == "packet too short"
    ));
    let header_only = LedPacket::from_bytes(&[0xA1, 0, 0x01, 0x02, 3]).unwrap();
    assert_eq!(header_only.command, 0xA1);
    assert_eq!(header_only.packet_number, 0x0102);
    assert!(header_only.data.is_empty());
}

#[test]
fn lcd_packet_roundtrip_keeps_what_fits() {
    let data: Vec<u8> = (0..600u32).map(|i| (i % 7) as u8).collect();
    let pkt = LcdPacket::new(0x42, 600, 3, data.clone());
    let back = LcdPacket::from_bytes(&pkt.to_bytes()).unwrap();
    assert_eq!(back.data, data[..501].to_vec());
    assert_eq!(back.packet_number, 3);
}
