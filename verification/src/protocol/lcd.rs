//! Wired LCD commands (512-byte reports).
use vstd::prelude::*;
use vstd::utf8::{decode_utf8, valid_utf8};

use crate::error::Error;
use crate::protocol::packet::{lcd_chunk, lcd_chunk_count, LcdPacket};
use crate::text::{decimal, push_decimal};

pub mod commands;

use commands::{GET_HANDSHAKE_INFO, LCD_CONTROL, WRITE_JPG, WRITE_AVI, WRITE_SYNC_JPG};

verus! {

#[derive(Debug, Clone, Copy, PartialEq, Eq, Structural)]
pub enum LcdMode {
    ShowJpg,
    ShowAvi,
    ShowAppSync,
    LcdSetting,
    LcdTest,
}

/// The byte of a display mode: 1, 3, 4, 5, 6.
pub open spec fn mode_code(m: LcdMode) -> u8 {
    match m {
        LcdMode::ShowJpg => 1,
        LcdMode::ShowAvi => 3,
        LcdMode::ShowAppSync => 4,
        LcdMode::LcdSetting => 5,
        LcdMode::LcdTest => 6,
    }
}

impl LcdMode {
    pub fn to_u8(&self) -> (v: u8)
        ensures
            v == mode_code(*self),
    {
        match self {
            LcdMode::ShowJpg => 1,
            LcdMode::ShowAvi => 3,
            LcdMode::ShowAppSync => 4,
            LcdMode::LcdSetting => 5,
            LcdMode::LcdTest => 6,
        }
    }
}

#[derive(Debug, Clone, Copy, PartialEq, Eq, Structural)]
pub enum ScreenRotation {
    Deg0,
    Deg90,
    Deg180,
    Deg270,
}

/// The byte of a rotation: quarter turns, 0 to 3.
pub open spec fn rotation_code(r: ScreenRotation) -> u8 {
    match r {
        ScreenRotation::Deg0 => 0,
        ScreenRotation::Deg90 => 1,
        ScreenRotation::Deg180 => 2,
        ScreenRotation::Deg270 => 3,
    }
}

impl ScreenRotation {
    pub fn to_u8(&self) -> (v: u8)
        ensures
            v == rotation_code(*self),
    {
        match self {
            ScreenRotation::Deg0 => 0,
            ScreenRotation::Deg90 => 1,
            ScreenRotation::Deg180 => 2,
            ScreenRotation::Deg270 => 3,
        }
    }
}

#[derive(Debug, Clone, Copy)]
pub struct LcdControlSetting {
    pub mode: LcdMode,
    pub jpg_index: u16,
    pub brightness: u8,
    pub video_fps: u8,
    pub rotation: ScreenRotation,
    pub enable_test: bool,
    pub test_color: (u8, u8, u8),
}

#[derive(Debug, Clone, Copy)]
pub struct HandshakeInfo {
    pub mode: u8,
    pub frame_index: u16,
}

#[derive(Debug, Clone)]
pub struct SerialNumberInfo {
    pub serial: String,
    pub port: u8,
    pub lcd_index: u8,
}

/// The 11 bytes of a control setting: mode, JPG index big-endian, a
/// reserved zero, brightness, frame rate, rotation, test flag, test colour.
pub open spec fn control_bytes(s: LcdControlSetting) -> Seq<u8> {
    seq![
        mode_code(s.mode),
        (s.jpg_index / 256) as u8,
        (s.jpg_index % 256) as u8,
        0u8,
        s.brightness,
        s.video_fps,
        rotation_code(s.rotation),
        if s.enable_test { 1u8 } else { 0u8 },
        s.test_color.0,
        s.test_color.1,
        s.test_color.2,
    ]
}

impl LcdControlSetting {
    /// Encode as 11 bytes: [mode, jpg_hi, jpg_lo, 0, brightness, fps, rotation, test_enable, R, G, B]
    pub fn to_bytes(&self) -> (v: Vec<u8>)
        ensures
            v@ == control_bytes(*self),
    {
        let mut v: Vec<u8> = Vec::new();
        v.push(self.mode.to_u8());
        v.push((self.jpg_index / 256) as u8);
        v.push((self.jpg_index % 256) as u8);
        v.push(0);
        v.push(self.brightness);
        v.push(self.video_fps);
        v.push(self.rotation.to_u8());
        v.push(if self.enable_test { 1 } else { 0 });
        v.push(self.test_color.0);
        v.push(self.test_color.1);
        v.push(self.test_color.2);
        assert(v@ =~= control_bytes(*self));
        v
    }
}

/// `packets` carry `data` for `command`, as `LcdPacket::build_packets` cuts it.
pub open spec fn carries(packets: Seq<LcdPacket>, command: u8, data: Seq<u8>) -> bool {
    &&& packets.len() == lcd_chunk_count(data.len())
    &&& forall|i: int|
        0 <= i < packets.len() ==> {
            &&& (#[trigger] packets[i]).command == command
            &&& packets[i].data_size == data.len() as u32
            &&& packets[i].packet_number == i as u32
            &&& packets[i].data@ == lcd_chunk(data, i)
        }
}

/// Build LCD control packet(s) for the given setting: one packet.
pub fn lcd_control_packet(setting: &LcdControlSetting) -> (packets: Vec<LcdPacket>)
    ensures
        carries(packets@, LCD_CONTROL, control_bytes(*setting)),
        packets@.len() == 1,
        packets@[0].data@ == control_bytes(*setting),
{
    let bytes = setting.to_bytes();
    let packets = LcdPacket::build_packets(LCD_CONTROL, bytes.as_slice());
    assert(lcd_chunk(bytes@, 0) =~= bytes@);
    packets
}

/// Build a handshake request (command 0x3C, empty data).
pub fn handshake_packet() -> (packets: Vec<LcdPacket>)
    ensures
        packets@.len() == 1,
        packets@[0].command == GET_HANDSHAKE_INFO,
        packets@[0].data_size == 0,
        packets@[0].packet_number == 0,
        packets@[0].data@ == Seq::<u8>::empty(),
{
    let mut packets: Vec<LcdPacket> = Vec::new();
    packets.push(LcdPacket::new(GET_HANDSHAKE_INFO, 0, 0, Vec::new()));
    packets
}

/// Build packets for JPEG image data.
pub fn write_jpg_packets(jpg_data: &[u8]) -> (packets: Vec<LcdPacket>)
    ensures
        carries(packets@, WRITE_JPG, jpg_data@),
{
    LcdPacket::build_packets(WRITE_JPG, jpg_data)
}

/// Build packets for sync JPEG image data.
pub fn write_sync_jpg_packets(jpg_data: &[u8]) -> (packets: Vec<LcdPacket>)
    ensures
        carries(packets@, WRITE_SYNC_JPG, jpg_data@),
{
    LcdPacket::build_packets(WRITE_SYNC_JPG, jpg_data)
}

/// Build packets for AVI/H.264 video data.
pub fn write_avi_packets(h264_data: &[u8]) -> (packets: Vec<LcdPacket>)
    ensures
        carries(packets@, WRITE_AVI, h264_data@),
{
    LcdPacket::build_packets(WRITE_AVI, h264_data)
}

/// `<what> response too short: <n> bytes`.
pub open spec fn too_short_text(what: Seq<char>, n: nat) -> Seq<char> {
    what + " response too short: "@ + decimal(n) + " bytes"@
}

fn too_short_message(what: &str, n: usize) -> (m: String)
    ensures
        m@ == too_short_text(what@, n as nat),
{
    let mut m = String::from_str(what);
    m.append(" response too short: ");
    push_decimal(&mut m, n as u64);
    m.append(" bytes");
    m
}

/// Parse a handshake response: [mode, frame_hi, frame_lo].
pub fn parse_handshake(data: &[u8]) -> (r: Result<HandshakeInfo, Error>)
    ensures
        data@.len() < 3 ==> (r matches Err(Error::InvalidResponse(m)) && m@ == too_short_text(
            "handshake"@,
            data@.len(),
        )),
        data@.len() >= 3 ==> (r matches Ok(h) && h.mode == data@[0] && h.frame_index as int
            == data@[1] as int * 256 + data@[2] as int),
{
    if data.len() < 3 {
        return Err(Error::InvalidResponse(too_short_message("handshake", data.len())));
    }
    Ok(HandshakeInfo { mode: data[0], frame_index: data[1] as u16 * 256 + data[2] as u16 })
}

/// What `String::from_utf8_lossy` makes of some bytes.
pub uninterp spec fn utf8_lossy(bytes: Seq<u8>) -> Seq<char>;

/// Decodes bytes with `String::from_utf8_lossy`, which replaces invalid
/// sequences by U+FFFD and, by its documentation, returns valid UTF-8
/// unchanged. Which replacement text invalid input gets is not stated.
#[verifier::external_body]
fn decode_utf8_lossy(bytes: &[u8]) -> (s: String)
    ensures
        s@ == utf8_lossy(bytes@),
        valid_utf8(bytes@) ==> s@ == decode_utf8(bytes@),
{
    String::from_utf8_lossy(bytes).into_owned()
}

/// Text without its trailing NUL characters.
pub open spec fn trim_nul(s: Seq<char>) -> Seq<char>
    decreases s.len(),
{
    if s.len() > 0 && s.last() == '\0' {
        trim_nul(s.drop_last())
    } else {
        s
    }
}

fn trim_end_nul(s: &str) -> (r: String)
    ensures
        r@ == trim_nul(s@),
{
    let n = s.unicode_len();
    let mut k = n;
    assert(s@.take(n as int) =~= s@);
    while k > 0 && s.get_char(k - 1) == '\0'
        invariant
            k <= n,
            n == s@.len(),
            trim_nul(s@) == trim_nul(s@.take(k as int)),
        decreases k,
    {
        assert(s@.take(k as int).drop_last() =~= s@.take(k - 1));
        k = k - 1;
    }
    assert(s@.subrange(0, k as int) =~= s@.take(k as int));
    String::from_str(s.substring_char(0, k))
}

/// The serial number in a serial-number response: the first 32 bytes decoded
/// as UTF-8 (lossily), without trailing NULs.
pub open spec fn serial_text(data: Seq<u8>) -> Seq<char> {
    trim_nul(utf8_lossy(data.take(32)))
}

/// Parse a serial number response: [32 bytes serial, port, lcd_index].
pub fn parse_serial_number(data: &[u8]) -> (r: Result<SerialNumberInfo, Error>)
    ensures
        data@.len() < 34 ==> (r matches Err(Error::InvalidResponse(m)) && m@ == too_short_text(
            "serial number"@,
            data@.len(),
        )),
        data@.len() >= 34 ==> (r matches Ok(s) && s.serial@ == serial_text(data@) && s.port
            == data@[32] && s.lcd_index == data@[33]),
        data@.len() >= 34 && valid_utf8(data@.take(32)) ==> (r matches Ok(s) && s.serial@ == trim_nul(
            decode_utf8(data@.take(32)),
        )),
{
    if data.len() < 34 {
        return Err(Error::InvalidResponse(too_short_message("serial number", data.len())));
    }
    let head = crate::protocol::packet::copy_range(data, 0, 32);
    assert(head@ =~= data@.take(32));
    let decoded = decode_utf8_lossy(head.as_slice());
    let serial = trim_end_nul(decoded.as_str());
    Ok(SerialNumberInfo { serial, port: data[32], lcd_index: data[33] })
}

} // verus!
