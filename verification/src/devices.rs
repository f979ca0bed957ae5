//! What the device drivers decide between their reads and writes: the
//! reports they send and how they read the answers.
use vstd::prelude::*;

use crate::error::{report_id_mismatch_text, short_packet_text, Error};
use crate::protocol::fan::{self, fan_entry, FanInfo};
use crate::protocol::lcd::{self, too_short_text, HandshakeInfo};
use crate::protocol::packet::{
    lcd_frame_payload, led_frame_payload, led_report, zeros, LcdPacket, LedPacket, LCD_HEADER_LEN,
    LCD_REPORT_ID, LED_HEADER_LEN, LED_REPORT_ID,
};
use crate::protocol::slv3h::{
    self, empty_mac, master_clock, rf_bind_frame, rf_save_config_frame, MasterInfo, RfDeviceInfo,
    CMD_QUERY_MASTER, CMD_SEND_RF, DEFAULT_CHANNEL, PAGE_LENGTH,
};

verus! {

// ---- TL fan controller -------------------------------------------------

/// Reads the fans out of the controller's answer to a handshake, read with
/// or without its report ID.
pub fn fan_handshake_response(resp: &[u8]) -> (r: Result<Vec<FanInfo>, Error>)
    ensures
        ({
            let o = led_report(resp@);
            let b = o.unwrap();
            &&& o is Some && b.len() >= LED_HEADER_LEN ==> (r matches Ok(fans) && {
                let d = led_frame_payload(b);
                &&& fans@.len() == d.len() / 3
                &&& forall|i: int| 0 <= i < fans@.len() ==> fan_entry(#[trigger] fans@[i], d, 3 * i)
            })
            &&& o is Some && b.len() < LED_HEADER_LEN ==> (r matches Err(Error::InvalidResponse(m))
                && m@ == short_packet_text())
            &&& o is None && resp@.len() < LED_HEADER_LEN ==> (r matches Err(Error::InvalidResponse(m))
                && m@ == short_packet_text())
            &&& o is None && resp@.len() >= LED_HEADER_LEN ==> (r matches Err(
                Error::InvalidResponse(m),
            ) && m@ == report_id_mismatch_text(LED_REPORT_ID, resp@[0]))
        }),
{
    match LedPacket::from_bytes(resp) {
        Ok(p) => Ok(fan::parse_handshake(p.data.as_slice())),
        Err(e) => Err(e),
    }
}

// ---- TL LCD, wired and wireless ----------------------------------------

/// The message of a wired handshake answer too short to hold its data.
pub open spec fn wired_handshake_short_text() -> Seq<char> {
    "handshake response too short"@
}

/// Where the data of a wired LCD's handshake answer starts: after the report
/// ID and the 10-byte header when the report ID 0x02 is present, else after
/// the header alone. The device leaves the length field empty.
pub open spec fn wired_handshake_offset(resp: Seq<u8>) -> int {
    if resp[0] == 0x02 {
        11
    } else {
        10
    }
}

/// Reads the mode and frame index out of a wired LCD's handshake answer.
pub fn wired_handshake_response(resp: &[u8]) -> (r: Result<HandshakeInfo, Error>)
    requires
        resp@.len() >= 1,
    ensures
        ({
            let off = wired_handshake_offset(resp@);
            let d = resp@.subrange(off, resp@.len() as int);
            &&& resp@.len() <= off ==> (r matches Err(Error::InvalidResponse(m)) && m@
                == wired_handshake_short_text())
            &&& resp@.len() > off && d.len() < 3 ==> (r matches Err(Error::InvalidResponse(m))
                && m@ == too_short_text("handshake"@, d.len()))
            &&& resp@.len() > off && d.len() >= 3 ==> (r matches Ok(h) && h.mode == d[0]
                && h.frame_index as int == d[1] as int * 256 + d[2] as int)
        }),
{
    let off: usize = if resp[0] == 0x02 { 11 } else { 10 };
    if resp.len() <= off {
        return Err(Error::InvalidResponse(String::from_str("handshake response too short")));
    }
    let data = crate::protocol::packet::copy_range(resp, off, resp.len());
    lcd::parse_handshake(data.as_slice())
}

/// Reads the mode and frame index out of a wireless LCD's handshake answer,
/// a full LCD report.
pub fn wireless_handshake_response(resp: &[u8]) -> (r: Result<HandshakeInfo, Error>)
    ensures
        resp@.len() < LCD_HEADER_LEN ==> (r matches Err(Error::InvalidResponse(m)) && m@
            == short_packet_text()),
        resp@.len() >= LCD_HEADER_LEN && resp@[0] != LCD_REPORT_ID ==> (r matches Err(
            Error::InvalidResponse(m),
        ) && m@ == report_id_mismatch_text(LCD_REPORT_ID, resp@[0])),
        resp@.len() >= LCD_HEADER_LEN && resp@[0] == LCD_REPORT_ID ==> ({
            let d = lcd_frame_payload(resp@);
            &&& d.len() < 3 ==> (r matches Err(Error::InvalidResponse(m)) && m@ == too_short_text(
                "handshake"@,
                d.len(),
            ))
            &&& d.len() >= 3 ==> (r matches Ok(h) && h.mode == d[0] && h.frame_index as int == d[1]
                as int * 256 + d[2] as int)
        }),
{
    match LcdPacket::from_bytes(resp) {
        Ok(p) => lcd::parse_handshake(p.data.as_slice()),
        Err(e) => Err(e),
    }
}

// ---- SLV3H wireless hub ------------------------------------------------

/// The output report asking the hub for its MAC address: report ID 0, then
/// the 64-byte command.
pub fn hub_mac_request() -> (buf: [u8; 65])
    ensures
        buf@ == seq![0u8] + slv3h::short_usb_packet(slv3h::CMD_GET_MAC, 0),
{
    let pkt = slv3h::get_mac_packet();
    let mut buf = [0u8; 65];
    let mut i: usize = 0;
    while i < 64
        invariant
            0 <= i <= 64,
            pkt@ == slv3h::short_usb_packet(slv3h::CMD_GET_MAC, 0),
            buf@.len() == 65,
            buf@[0] == 0,
            forall|k: int| 1 <= k < 1 + i ==> buf@[k] == pkt@[k - 1],
            forall|k: int| 1 + i <= k < 65 ==> buf@[k] == 0,
        decreases 64 - i,
    {
        buf[i + 1] = pkt[i];
        i = i + 1;
    }
    assert(buf@ =~= seq![0u8] + slv3h::short_usb_packet(slv3h::CMD_GET_MAC, 0));
    buf
}

/// The message when the hub gives no MAC address.
pub open spec fn hub_mac_failed_text() -> Seq<char> {
    "failed to get hub MAC"@
}

/// Reads the hub's MAC address out of its answer.
pub fn hub_mac_response(resp: &[u8]) -> (r: Result<[u8; 6], Error>)
    ensures
        resp@.len() >= 7 && resp@.subrange(1, 7) != empty_mac() ==> (r matches Ok(m) && m@
            == resp@.subrange(1, 7)),
        !(resp@.len() >= 7 && resp@.subrange(1, 7) != empty_mac()) ==> (r matches Err(
            Error::InvalidResponse(m),
        ) && m@ == hub_mac_failed_text()),
{
    match slv3h::parse_mac_response(resp) {
        Some(mac) => Ok(mac),
        None => Err(Error::InvalidResponse(String::from_str("failed to get hub MAC"))),
    }
}

/// The message when the TX dongle gives no master information.
pub open spec fn master_failed_text() -> Seq<char> {
    "failed to query master"@
}

/// Reads the master's MAC, clock and firmware out of the TX dongle's answer.
pub fn master_response(resp: &[u8]) -> (r: Result<MasterInfo, Error>)
    ensures
        r is Ok <==> (resp@.len() >= 13 && resp@[0] == CMD_QUERY_MASTER && resp@.subrange(1, 7)
            != empty_mac() && master_clock(resp@) != 0),
        r matches Ok(i) ==> i.mac@ == resp@.subrange(1, 7) && i.sys_clock == master_clock(resp@)
            && i.firmware_version == slv3h::be(resp@.subrange(11, 13)),
        r matches Err(e) ==> (e matches Error::InvalidResponse(m) && m@ == master_failed_text()),
{
    match slv3h::parse_master_response(resp) {
        Some(info) => Ok(info),
        None => Err(Error::InvalidResponse(String::from_str("failed to query master"))),
    }
}

/// How many bytes to read for a device list of `page_count` pages.
pub fn device_list_read_len(page_count: u8) -> (n: usize)
    ensures
        n == PAGE_LENGTH * page_count,
{
    PAGE_LENGTH * page_count as usize
}

/// The master MAC address that device-list entries are checked against:
/// the queried master's, or all zeros before the hub was initialized.
pub fn device_list_master_mac(master: &Option<MasterInfo>) -> (mac: [u8; 6])
    ensures
        match master {
            Some(m) => mac@ == m.mac@,
            None => mac@ == zeros(6),
        },
{
    match master {
        Some(m) => m.mac,
        None => {
            let z = [0u8; 6];
            assert(z@ =~= zeros(6));
            z
        },
    }
}

/// The message of a command that needs the master information before
/// `init` has fetched it.
pub open spec fn not_initialized_text(hint: bool) -> Seq<char> {
    if hint {
        "not initialized — call init() first"@
    } else {
        "not initialized"@
    }
}

/// The four USB chunks of an RF frame, as the TX dongle takes them.
pub open spec fn rf_chunks(rf: Seq<u8>, channel: u8, rx_type: u8) -> Seq<Seq<u8>> {
    Seq::new(
        4,
        |i: int| seq![CMD_SEND_RF, i as u8, channel, rx_type] + rf.subrange(60 * i, 60 * i + 60),
    )
}

/// The chunks that set the PWM of a receiver's four fans and keep it bound
/// to the master, sent on the receiver's own channel.
pub fn fan_pwm_chunks(master: &Option<MasterInfo>, device: &RfDeviceInfo, pwm: &[u8; 4]) -> (r:
    Result<Vec<[u8; 64]>, Error>)
    ensures
        match master {
            None => r matches Err(Error::InvalidResponse(m)) && m@ == not_initialized_text(true),
            Some(m) => r matches Ok(chunks) && chunks@.len() == 4 && forall|i: int|
                0 <= i < 4 ==> (#[trigger] chunks@[i])@ == rf_chunks(
                    rf_bind_frame(device.mac@, m.mac@, device.rx_type, DEFAULT_CHANNEL, 1, pwm@),
                    device.channel,
                    device.rx_type,
                )[i],
        },
{
    match master {
        None => Err(
            Error::InvalidResponse(String::from_str("not initialized — call init() first")),
        ),
        Some(m) => {
            let rf = slv3h::build_rf_bind_packet(
                &device.mac,
                &m.mac,
                device.rx_type,
                DEFAULT_CHANNEL,
                1,
                pwm,
            );
            Ok(slv3h::fragment_rf_packet(&rf, device.channel, device.rx_type))
        },
    }
}

/// The chunks of a save-config broadcast to every bound receiver.
pub fn save_config_chunks(master: &Option<MasterInfo>) -> (r: Result<Vec<[u8; 64]>, Error>)
    ensures
        match master {
            None => r matches Err(Error::InvalidResponse(m)) && m@ == not_initialized_text(false),
            Some(m) => r matches Ok(chunks) && chunks@.len() == 4 && forall|i: int|
                0 <= i < 4 ==> (#[trigger] chunks@[i])@ == rf_chunks(
                    rf_save_config_frame(m.mac@),
                    DEFAULT_CHANNEL,
                    0xFF,
                )[i],
        },
{
    match master {
        None => Err(Error::InvalidResponse(String::from_str("not initialized"))),
        Some(m) => {
            let rf = slv3h::build_rf_save_config_packet(&m.mac);
            Ok(slv3h::fragment_rf_packet(&rf, DEFAULT_CHANNEL, 0xFF))
        },
    }
}

} // verus!
