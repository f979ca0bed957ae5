//! Wired fan controller commands (64-byte reports).
use vstd::prelude::*;

use crate::protocol::packet::LedPacket;

pub mod commands;

use commands::{HANDSHAKE, SET_FAN_SPEED, SET_MB_FAN_SYNC, BLINK_PORT};

verus! {

/// One fan of a handshake response.
#[derive(Debug, Clone, Copy)]
pub struct FanInfo {
    pub detected: bool,
    pub upgrading: bool,
    pub port: u8,
    pub fan_index: u8,
    pub rpm: u16,
}

/// `f` is the fan entry at `off` in `data`: the flags byte has the detected
/// flag in bit 7, the upgrading flag in bit 6, the port in bits 5-4 and the
/// fan index in bits 3-0; the RPM follows big-endian.
pub open spec fn fan_entry(f: FanInfo, data: Seq<u8>, off: int) -> bool {
    let flags = data[off];
    &&& f.detected == (flags & 0x80u8 != 0)
    &&& f.upgrading == (flags & 0x40u8 != 0)
    &&& f.port == (flags >> 4u8) & 0x03u8
    &&& f.fan_index == flags & 0x0Fu8
    &&& f.rpm as int == data[off + 1] as int * 256 + data[off + 2] as int
}

/// The two payload bytes that address one fan: port in the high nibble,
/// fan index in the low nibble (both cut to 8 bits as on the wire).
pub open spec fn fan_address(port: u8, fan_index: u8) -> u8 {
    ((port << 4u8) | fan_index) as u8
}

pub fn handshake_packet() -> (p: LedPacket)
    ensures
        p.command == HANDSHAKE,
        p.packet_number == 0,
        p.data@ == Seq::<u8>::empty(),
{
    LedPacket::new(HANDSHAKE, Vec::new())
}

/// Parses the fans of a handshake response, 3 bytes each; a trailing
/// partial entry is ignored.
pub fn parse_handshake(data: &[u8]) -> (fans: Vec<FanInfo>)
    ensures
        fans@.len() == data@.len() / 3,
        forall|i: int| 0 <= i < fans@.len() ==> fan_entry(#[trigger] fans@[i], data@, 3 * i),
{
    let len = data.len();
    let n = len / 3;
    let mut fans: Vec<FanInfo> = Vec::new();
    let mut i: usize = 0;
    while i < n
        invariant
            n == data@.len() / 3,
            len == data@.len(),
            i <= n,
            fans@.len() == i,
            forall|k: int| 0 <= k < i ==> fan_entry(#[trigger] fans@[k], data@, 3 * k),
        decreases n - i,
    {
        assert(3 * i + 2 < data@.len()) by (nonlinear_arith)
            requires i < n, n == data@.len() / 3;
        let flags = data[3 * i];
        let f = FanInfo {
            detected: flags & 0x80 != 0,
            upgrading: flags & 0x40 != 0,
            port: (flags >> 4) & 0x03,
            fan_index: flags & 0x0F,
            rpm: data[3 * i + 1] as u16 * 256 + data[3 * i + 2] as u16,
        };
        fans.push(f);
        i = i + 1;
    }
    fans
}

pub fn set_fan_speed_packet(port: u8, fan_index: u8, pwm: u8) -> (p: LedPacket)
    ensures
        p.command == SET_FAN_SPEED,
        p.packet_number == 0,
        p.data@ == seq![fan_address(port, fan_index), pwm],
{
    let mut data: Vec<u8> = Vec::new();
    data.push((port << 4) | fan_index);
    data.push(pwm);
    LedPacket::new(SET_FAN_SPEED, data)
}

pub fn set_mb_sync_packet(port: u8, fan_index: u8, sync: bool) -> (p: LedPacket)
    ensures
        p.command == SET_MB_FAN_SYNC,
        p.packet_number == 0,
        p.data@ == seq![((if sync { 0x80u8 } else { 0u8 }) | fan_address(port, fan_index)) as u8],
{
    let sync_bit: u8 = if sync { 1 } else { 0 };
    let mut data: Vec<u8> = Vec::new();
    let b = (sync_bit << 7) | (port << 4) | fan_index;
    proof {
        let a = fan_address(port, fan_index);
        assert((1u8 << 7u8) == 0x80u8) by (bit_vector);
        assert((0u8 << 7u8) == 0u8) by (bit_vector);
        assert(((0x80u8 | (port << 4u8)) | fan_index) == (0x80u8 | ((port << 4u8) | fan_index))) by (bit_vector);
        assert(((0u8 | (port << 4u8)) | fan_index) == (0u8 | ((port << 4u8) | fan_index))) by (bit_vector);
    }
    data.push(b);
    LedPacket::new(SET_MB_FAN_SYNC, data)
}

pub fn blink_port_packet(port: u8) -> (p: LedPacket)
    ensures
        p.command == BLINK_PORT,
        p.packet_number == 0,
        p.data@ == seq![port],
{
    let mut data: Vec<u8> = Vec::new();
    data.push(port);
    LedPacket::new(BLINK_PORT, data)
}

} // verus!
