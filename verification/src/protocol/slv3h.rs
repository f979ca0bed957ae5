//! SLV3H wireless hub protocol.
//!
//! The wireless fan system uses three USB devices:
//! - SLV3H Hub (1A86:2107), HID, for MAC address lookup
//! - RF TX Dongle (0416:8040), raw USB, sends commands and queries the master
//! - RF RX Dongle (0416:8041), raw USB, receives the device list and status
//!
//! RF packets are 240 bytes, fragmented into 60-byte USB chunks.
use vstd::prelude::*;

use crate::protocol::packet::{min, zeros};
use crate::protocol::tinyuz::{compressible, tuz_compress_checked, tuz_compressed};
use crate::text::hex2;

verus! {

/// HID command to get the hub's MAC address.
pub const CMD_GET_MAC: u8 = 0x1C;

/// USB command to query master MAC and firmware version (sent to TX dongle).
pub const CMD_QUERY_MASTER: u8 = 0x11;

/// USB command to send/receive RF data (fragmented 240-byte packets).
pub const CMD_SEND_RF: u8 = 0x10;

/// USB command to reset the peer dongle.
pub const CMD_RESET: u8 = 0x15;

/// USB command to close USB connection.
pub const CMD_CLOSE: u8 = 0x16;

/// RF command envelope (byte 0 of every RF packet).
pub const RF_CMD: u8 = 0x12;

/// Bind/configure/set PWM.
pub const RF_BIND: u8 = 0x10;

/// Select device (blink).
pub const RF_SELECT: u8 = 0x12;

/// Print/query device info.
pub const RF_PRINT: u8 = 0x13;

/// Sync system clock.
pub const RF_CLOCK_SYNC: u8 = 0x14;

/// Save configuration.
pub const RF_SAVE_CFG: u8 = 0x15;

/// Reboot LCD display.
pub const RF_REBOOT_LCD: u8 = 0x16;

/// Switch wireless theme.
pub const RF_SWITCH_THEME: u8 = 0x19;

/// Sync RGB effect data.
pub const RF_RGB_SYNC: u8 = 0x20;

/// Update AIO/water block params.
pub const RF_UPDATE_AIO: u8 = 0x21;

/// Send picture data.
pub const RF_SEND_PIC: u8 = 0x22;

/// Close WiFi.
pub const RF_CLOSE_WIFI: u8 = 0x23;

/// Motherboard sync switch.
pub const RF_MB_SYNC_SWITCH: u8 = 0x24;

/// Light sync switch.
pub const RF_LIGHT_SYNC_SWITCH: u8 = 0x26;

pub const RF_PACKET_LEN: usize = 240;

pub const RF_CHUNK_LEN: usize = 60;

pub const USB_PACKET_LEN: usize = 64;

/// Default RF channel.
pub const DEFAULT_CHANNEL: u8 = 8;

/// Bytes per device entry in the device list response.
pub const DEVICE_ENTRY_LEN: usize = 42;

/// Default page length for device list responses.
pub const PAGE_LENGTH: usize = 434;

/// Maximum compressed RGB data per RF packet (bytes 20-239).
pub const RGB_DATA_PER_PACKET: usize = 220;

/// LEDs per SL wireless fan.
pub const LEDS_PER_FAN: usize = 26;

/// Default number of frames for a static effect.
pub const STATIC_FRAMES: usize = 70;

/// Device types from the SLV3H protocol.
#[derive(Debug, Clone, Copy, PartialEq, Eq, Structural)]
pub enum Slv3DevType {
    Slv3Fan,
    Strimer8Pin1,
    Strimer8Pin2,
    Strimer24Pin1,
    Strimer24Pin2,
    WaterBlock,
    WaterBlock2,
    Lc217,
    V150,
    Unknown,
}

/// The device type that a type byte names; unknown bytes give `Unknown`.
pub open spec fn dev_type_of(v: u8) -> Slv3DevType {
    if v == 0 { Slv3DevType::Slv3Fan }
    else if v == 1 { Slv3DevType::Strimer8Pin1 }
    else if v == 2 { Slv3DevType::Strimer8Pin2 }
    else if v == 3 { Slv3DevType::Strimer24Pin1 }
    else if v == 4 { Slv3DevType::Strimer24Pin2 }
    else if v == 10 { Slv3DevType::WaterBlock }
    else if v == 11 { Slv3DevType::WaterBlock2 }
    else if v == 65 { Slv3DevType::Lc217 }
    else if v == 66 { Slv3DevType::V150 }
    else { Slv3DevType::Unknown }
}

/// The protocol number of each device type: fan 0, Strimer 8-pin 1 and 2,
/// Strimer 24-pin 3 and 4, water blocks 10 and 11, LC217 65, V150 66, and
/// 255 for an unknown type.
pub open spec fn protocol_number(t: Slv3DevType) -> u8 {
    match t {
        Slv3DevType::Slv3Fan => 0,
        Slv3DevType::Strimer8Pin1 => 1,
        Slv3DevType::Strimer8Pin2 => 2,
        Slv3DevType::Strimer24Pin1 => 3,
        Slv3DevType::Strimer24Pin2 => 4,
        Slv3DevType::WaterBlock => 10,
        Slv3DevType::WaterBlock2 => 11,
        Slv3DevType::Lc217 => 65,
        Slv3DevType::V150 => 66,
        Slv3DevType::Unknown => 255,
    }
}

/// A type byte names the device type with that protocol number, and a
/// known type is named by its own number: reading a byte and writing the
/// type back gives the byte again wherever the byte names a known type.
pub proof fn lemma_dev_type_numbers(v: u8, t: Slv3DevType)
    ensures
        dev_type_of(v) != Slv3DevType::Unknown ==> protocol_number(dev_type_of(v)) == v,
        t != Slv3DevType::Unknown ==> dev_type_of(protocol_number(t)) == t,
        dev_type_of(v) == Slv3DevType::Unknown <==> !(v <= 4 || v == 10 || v == 11 || v == 65
            || v == 66),
{
}

impl Slv3DevType {
    /// The byte that the protocol uses for this type.
    pub fn to_u8(&self) -> (v: u8)
        ensures
            v == protocol_number(*self),
            self != Slv3DevType::Unknown ==> dev_type_of(v) == *self,
            *self == Slv3DevType::Unknown ==> v == 255,
    {
        match self {
            Slv3DevType::Slv3Fan => 0,
            Slv3DevType::Strimer8Pin1 => 1,
            Slv3DevType::Strimer8Pin2 => 2,
            Slv3DevType::Strimer24Pin1 => 3,
            Slv3DevType::Strimer24Pin2 => 4,
            Slv3DevType::WaterBlock => 10,
            Slv3DevType::WaterBlock2 => 11,
            Slv3DevType::Lc217 => 65,
            Slv3DevType::V150 => 66,
            Slv3DevType::Unknown => 255,
        }
    }
}

impl From<u8> for Slv3DevType {
    fn from(v: u8) -> (t: Self) {
        if v == 0 { Slv3DevType::Slv3Fan }
        else if v == 1 { Slv3DevType::Strimer8Pin1 }
        else if v == 2 { Slv3DevType::Strimer8Pin2 }
        else if v == 3 { Slv3DevType::Strimer24Pin1 }
        else if v == 4 { Slv3DevType::Strimer24Pin2 }
        else if v == 10 { Slv3DevType::WaterBlock }
        else if v == 11 { Slv3DevType::WaterBlock2 }
        else if v == 65 { Slv3DevType::Lc217 }
        else if v == 66 { Slv3DevType::V150 }
        else { Slv3DevType::Unknown }
    }
}

impl vstd::std_specs::convert::FromSpecImpl<u8> for Slv3DevType {
    open spec fn obeys_from_spec() -> bool {
        true
    }

    open spec fn from_spec(v: u8) -> Slv3DevType {
        dev_type_of(v)
    }
}

/// Information about the master hub.
#[derive(Debug, Clone)]
pub struct MasterInfo {
    pub mac: [u8; 6],
    pub sys_clock: u64,
    pub firmware_version: u16,
}

/// A device discovered via RF.
#[derive(Debug, Clone)]
pub struct RfDeviceInfo {
    pub mac: [u8; 6],
    pub master_mac: [u8; 6],
    pub channel: u8,
    pub rx_type: u8,
    pub dev_type: Slv3DevType,
    pub fan_num: u8,
    pub effect_index: [u8; 4],
    pub fan_types: [u8; 4],
    pub fan_speeds: [u16; 4],
    pub fan_pwm: [u8; 4],
    pub cmd_seq: u8,
    pub bound: bool,
}

/// A 64-byte USB packet that carries only a command and one parameter.
pub open spec fn short_usb_packet(cmd: u8, param: u8) -> Seq<u8> {
    seq![cmd, param] + zeros(62)
}

/// Six zero bytes: a MAC that is not set.
pub open spec fn empty_mac() -> Seq<u8> {
    zeros(6)
}

/// A big-endian number from the bytes of `s`.
pub open spec fn be(s: Seq<u8>) -> nat
    decreases s.len(),
{
    if s.len() == 0 {
        0
    } else {
        be(s.drop_last()) * 256 + s.last() as nat
    }
}

/// Writes a byte array of length 6 from `src[from..from + 6]`.
fn mac_at(src: &[u8], from: usize) -> (mac: [u8; 6])
    requires
        from + 6 <= src@.len(),
    ensures
        mac@ == src@.subrange(from as int, from + 6),
{
    let mac = [src[from], src[from + 1], src[from + 2], src[from + 3], src[from + 4], src[from + 5]];
    assert(mac@ =~= src@.subrange(from as int, from + 6));
    mac
}

/// Writes a byte array of length 4 from `src[from..from + 4]`.
fn quad_at(src: &[u8], from: usize) -> (q: [u8; 4])
    requires
        from + 4 <= src@.len(),
    ensures
        q@ == src@.subrange(from as int, from + 4),
{
    let q = [src[from], src[from + 1], src[from + 2], src[from + 3]];
    assert(q@ =~= src@.subrange(from as int, from + 4));
    q
}

/// Whether two MACs are equal.
fn mac_eq(a: &[u8; 6], b: &[u8; 6]) -> (r: bool)
    ensures
        r == (a@ == b@),
{
    let mut i: usize = 0;
    while i < 6
        invariant
            i <= 6,
            forall|k: int| 0 <= k < i ==> a@[k] == b@[k],
        decreases 6 - i,
    {
        if a[i] != b[i] {
            return false;
        }
        i = i + 1;
    }
    assert(a@ =~= b@);
    true
}

/// A 64-byte packet that carries only a command and one parameter.
fn short_packet(cmd: u8, param: u8) -> (buf: [u8; 64])
    ensures
        buf@ == short_usb_packet(cmd, param),
{
    let mut buf = [0u8; 64];
    buf[0] = cmd;
    buf[1] = param;
    assert(buf@ =~= short_usb_packet(cmd, param));
    buf
}

/// Build a 64-byte HID packet for SLV3H hub (Report ID 0).
pub fn get_mac_packet() -> (buf: [u8; 64])
    ensures
        buf@ == short_usb_packet(CMD_GET_MAC, 0),
{
    short_packet(CMD_GET_MAC, 0)
}

/// Parse MAC address from SLV3H hub response: byte 0 echoes the command,
/// bytes 1..7 are the MAC; an all-zero MAC counts as none.
pub fn parse_mac_response(data: &[u8]) -> (mac: Option<[u8; 6]>)
    ensures
        data@.len() < 7 || data@.subrange(1, 7) == empty_mac() ==> mac is None,
        data@.len() >= 7 && data@.subrange(1, 7) != empty_mac() ==> (mac matches Some(m) && m@
            == data@.subrange(1, 7)),
{
    if data.len() < 7 {
        return None;
    }
    let mac = mac_at(data, 1);
    let zero = [0u8; 6];
    assert(zero@ =~= empty_mac());
    if mac_eq(&mac, &zero) {
        return None;
    }
    Some(mac)
}

/// Build query master MAC packet (sent to TX dongle).
pub fn query_master_packet(channel: u8) -> (buf: [u8; 64])
    ensures
        buf@ == short_usb_packet(CMD_QUERY_MASTER, channel),
{
    short_packet(CMD_QUERY_MASTER, channel)
}

/// The system clock that a master response reports: the big-endian tick
/// count at bytes 7..11 times 0.625, rounded down.
pub open spec fn master_clock(data: Seq<u8>) -> nat {
    be(data.subrange(7, 11)) * 5 / 8
}

/// Parse master MAC response from TX dongle: byte 0 is 0x11, bytes 1..7 the
/// MAC, bytes 7..11 the clock ticks, bytes 11..13 the firmware version.
/// A response with an empty MAC or a zero clock counts as none.
pub fn parse_master_response(data: &[u8]) -> (info: Option<MasterInfo>)
    ensures
        info is Some <==> (data@.len() >= 13 && data@[0] == CMD_QUERY_MASTER && data@.subrange(1, 7)
            != empty_mac() && master_clock(data@) != 0),
        info matches Some(i) ==> i.mac@ == data@.subrange(1, 7) && i.sys_clock == master_clock(data@)
            && i.firmware_version == be(data@.subrange(11, 13)),
{
    if data.len() < 13 || data[0] != CMD_QUERY_MASTER {
        return None;
    }
    let mac = mac_at(data, 1);
    let zero = [0u8; 6];
    assert(zero@ =~= empty_mac());
    if mac_eq(&mac, &zero) {
        return None;
    }
    let time_tmos = data[7] as u64 * 0x1000000 + data[8] as u64 * 0x10000 + data[9] as u64 * 0x100
        + data[10] as u64;
    let sys_clock = time_tmos * 5 / 8;
    proof {
        let t = data@.subrange(7, 11);
        reveal_with_fuel(be, 5);
        assert(t.drop_last().drop_last().drop_last().drop_last() =~= Seq::<u8>::empty());
        assert(be(t) == time_tmos);
        let f = data@.subrange(11, 13);
        assert(f.drop_last().drop_last() =~= Seq::<u8>::empty());
    }
    if sys_clock == 0 {
        return None;
    }
    let firmware_version = data[11] as u16 * 256 + data[12] as u16;
    Some(MasterInfo { mac, sys_clock, firmware_version })
}

/// Build a get-device-list packet (sent to RX dongle).
pub fn get_device_list_packet(page_count: u8) -> (buf: [u8; 64])
    ensures
        buf@ == short_usb_packet(CMD_SEND_RF, page_count),
{
    short_packet(CMD_SEND_RF, page_count)
}

/// The fan count of an entry: values of 10 and more are stored plus 10.
pub open spec fn entry_fan_num(v: u8) -> u8 {
    if v >= 10 { (v - 10) as u8 } else { v }
}

/// `dev` is the device entry at `off` in `data`, bound when its master MAC
/// is `master`.
pub open spec fn entry_at(dev: RfDeviceInfo, data: Seq<u8>, off: int, master: Seq<u8>) -> bool {
    &&& dev.mac@ == data.subrange(off, off + 6)
    &&& dev.master_mac@ == data.subrange(off + 6, off + 12)
    &&& dev.channel == data[off + 12]
    &&& dev.rx_type == data[off + 13]
    &&& dev.dev_type == dev_type_of(data[off + 18])
    &&& dev.fan_num == entry_fan_num(data[off + 19])
    &&& dev.effect_index@ == data.subrange(off + 20, off + 24)
    &&& dev.fan_types@ == data.subrange(off + 24, off + 28)
    &&& forall|i: int|
        0 <= i < 4 ==> dev.fan_speeds@[i] as int == data[off + 28 + 2 * i] as int * 256 + data[off
            + 29 + 2 * i] as int
    &&& dev.fan_pwm@ == data.subrange(off + 36, off + 40)
    &&& dev.cmd_seq == data[off + 40]
    &&& dev.bound == (data.subrange(off + 6, off + 12) == master)
}

/// The offsets of the device entries listed from entry `k` of `count` on:
/// entries are 42 bytes from offset 4, the list stops at the first that
/// does not fit, and entries whose last byte is not 0x1C are skipped.
pub open spec fn entry_offsets(data: Seq<u8>, k: nat, count: nat) -> Seq<int>
    decreases count - k,
{
    if k >= count {
        Seq::empty()
    } else {
        let off = 4 + 42 * k;
        if off + 42 > data.len() {
            Seq::empty()
        } else if data[(off + 41) as int] != CMD_GET_MAC {
            entry_offsets(data, k + 1, count)
        } else {
            seq![off as int] + entry_offsets(data, k + 1, count)
        }
    }
}

/// The offsets of the device entries of a device list response: none unless
/// it starts with 0x10; byte 1 is the number of entries.
pub open spec fn device_list_offsets(data: Seq<u8>) -> Seq<int> {
    if data.len() == 0 || data[0] != CMD_SEND_RF || data.len() < 2 {
        Seq::empty()
    } else {
        entry_offsets(data, 0, data[1] as nat)
    }
}

/// Reads the device entry at `off`.
fn parse_entry(data: &[u8], off: usize, master_mac: &[u8; 6]) -> (dev: RfDeviceInfo)
    requires
        off + 42 <= data@.len(),
    ensures
        entry_at(dev, data@, off as int, master_mac@),
{
    let n = data.len();
    let mac = mac_at(data, off);
    let dev_master_mac = mac_at(data, off + 6);
    let channel = data[off + 12];
    let rx_type = data[off + 13];
    let dev_type = Slv3DevType::from(data[off + 18]);
    let mut fan_num = data[off + 19];
    if fan_num >= 10 {
        fan_num = fan_num - 10;
    }
    let effect_index = quad_at(data, off + 20);
    let fan_types = quad_at(data, off + 24);
    let mut fan_speeds = [0u16; 4];
    let mut i: usize = 0;
    while i < 4
        invariant
            i <= 4,
            off + 42 <= data@.len(),
            n == data@.len(),
            forall|k: int|
                0 <= k < i ==> fan_speeds@[k] as int == data@[off + 28 + 2 * k] as int * 256
                    + data@[off + 29 + 2 * k] as int,
        decreases 4 - i,
    {
        fan_speeds[i] = data[off + 28 + i * 2] as u16 * 256 + data[off + 29 + i * 2] as u16;
        i = i + 1;
    }
    let fan_pwm = quad_at(data, off + 36);
    let cmd_seq = data[off + 40];
    let bound = mac_eq(&dev_master_mac, master_mac);
    RfDeviceInfo {
        mac,
        master_mac: dev_master_mac,
        channel,
        rx_type,
        dev_type,
        fan_num,
        effect_index,
        fan_types,
        fan_speeds,
        fan_pwm,
        cmd_seq,
        bound,
    }
}

/// Parse device list from RX dongle response: byte 0 is 0x10, byte 1 the
/// number of entries, then 42-byte entries from offset 4.
pub fn parse_device_list(data: &[u8], master_mac: &[u8; 6]) -> (devices: Vec<RfDeviceInfo>)
    ensures
        devices@.len() == device_list_offsets(data@).len(),
        forall|i: int|
            0 <= i < devices@.len() ==> entry_at(
                #[trigger] devices@[i],
                data@,
                device_list_offsets(data@)[i],
                master_mac@,
            ),
{
    if data.len() == 0 || data[0] != CMD_SEND_RF {
        return Vec::new();
    }
    if data.len() < 2 {
        return Vec::new();
    }
    let count = data[1] as usize;
    if count == 0 {
        return Vec::new();
    }
    let ghost all = device_list_offsets(data@);
    let mut devices: Vec<RfDeviceInfo> = Vec::new();
    let mut offset: usize = 4;
    let mut k: usize = 0;
    let ghost mut done: Seq<int> = Seq::empty();
    while k < count
        invariant_except_break
            k <= count,
            offset == 4 + 42 * k,
            all == done + entry_offsets(data@, k as nat, count as nat),
        invariant
            count == data@[1] as nat,
            count <= 255,
            all == device_list_offsets(data@),
            devices@.len() == done.len(),
            forall|i: int|
                0 <= i < devices@.len() ==> entry_at(#[trigger] devices@[i], data@, done[i], master_mac@),
        ensures
            all == done,
        decreases count - k,
    {
        if offset + DEVICE_ENTRY_LEN > data.len() {
            assert(entry_offsets(data@, k as nat, count as nat) =~= Seq::<int>::empty());
            assert(all =~= done);
            break;
        }
        if data[offset + 41] != CMD_GET_MAC {
            offset = offset + DEVICE_ENTRY_LEN;
            k = k + 1;
            continue;
        }
        let dev = parse_entry(data, offset, master_mac);
        devices.push(dev);
        proof {
            assert(done + entry_offsets(data@, k as nat, count as nat) =~= done.push(offset as int)
                + entry_offsets(data@, (k + 1) as nat, count as nat));
            done = done.push(offset as int);
        }
        offset = offset + DEVICE_ENTRY_LEN;
        k = k + 1;
    }
    proof {
        if k >= count {
            assert(entry_offsets(data@, k as nat, count as nat) =~= Seq::<int>::empty());
            assert(all =~= done);
        }
    }
    devices
}

/// Fragment a 240-byte RF packet into 64-byte USB chunks for sending via TX
/// dongle. Each chunk: [0]=0x10, [1]=fragment index, [2]=channel,
/// [3]=rx_type, [4..64]=60 bytes of RF data.
pub fn fragment_rf_packet(rf_data: &[u8; 240], channel: u8, rx_type: u8) -> (chunks: Vec<[u8; 64]>)
    ensures
        chunks@.len() == 4,
        forall|i: int|
            0 <= i < 4 ==> (#[trigger] chunks@[i])@ == seq![CMD_SEND_RF, i as u8, channel, rx_type]
                + rf_data@.subrange(60 * i, 60 * i + 60),
{
    let mut chunks: Vec<[u8; 64]> = Vec::new();
    let mut offset: usize = 0;
    let mut frag_idx: u8 = 0;
    while offset < RF_PACKET_LEN
        invariant
            offset == 60 * frag_idx,
            frag_idx <= 4,
            chunks@.len() == frag_idx,
            forall|i: int|
                0 <= i < frag_idx ==> (#[trigger] chunks@[i])@ == seq![CMD_SEND_RF, i as u8, channel, rx_type]
                    + rf_data@.subrange(60 * i, 60 * i + 60),
        decreases RF_PACKET_LEN - offset,
    {
        let mut chunk = [0u8; 64];
        chunk[0] = CMD_SEND_RF;
        chunk[1] = frag_idx;
        chunk[2] = channel;
        chunk[3] = rx_type;
        let mut j: usize = 0;
        while j < RF_CHUNK_LEN
            invariant
                j <= 60,
                offset + 60 <= 240,
                chunk@.len() == 64,
                chunk@[0] == CMD_SEND_RF,
                chunk@[1] == frag_idx,
                chunk@[2] == channel,
                chunk@[3] == rx_type,
                forall|k: int| 4 <= k < 4 + j ==> chunk@[k] == rf_data@[offset + k - 4],
            decreases 60 - j,
        {
            chunk[4 + j] = rf_data[offset + j];
            j = j + 1;
        }
        assert(chunk@ =~= seq![CMD_SEND_RF, frag_idx, channel, rx_type] + rf_data@.subrange(
            offset as int,
            offset + 60,
        ));
        chunks.push(chunk);
        offset = offset + RF_CHUNK_LEN;
        frag_idx = frag_idx + 1;
    }
    chunks
}

/// The RF data that the fragments of a packet carry, joined in fragment
/// order, is the packet.
pub proof fn lemma_fragments_reassemble(rf: Seq<u8>, chunks: Seq<Seq<u8>>, channel: u8, rx_type: u8)
    requires
        rf.len() == 240,
        chunks.len() == 4,
        forall|i: int|
            0 <= i < 4 ==> #[trigger] chunks[i] == seq![CMD_SEND_RF, i as u8, channel, rx_type] + rf.subrange(
                60 * i,
                60 * i + 60,
            ),
    ensures
        chunks[0].subrange(4, 64) + chunks[1].subrange(4, 64) + chunks[2].subrange(4, 64)
            + chunks[3].subrange(4, 64) == rf,
        forall|i: int| 0 <= i < 4 ==> (#[trigger] chunks[i])[1] == i as u8,
{
    assert forall|i: int| 0 <= i < 4 implies (#[trigger] chunks[i]).subrange(4, 64) == rf.subrange(
        60 * i,
        60 * i + 60,
    ) by {
        assert(chunks[i].subrange(4, 64) =~= rf.subrange(60 * i, 60 * i + 60));
    }
    assert(chunks[0].subrange(4, 64) + chunks[1].subrange(4, 64) + chunks[2].subrange(4, 64)
        + chunks[3].subrange(4, 64) =~= rf);
}

/// The 240 bytes of an RF bind/PWM packet.
pub open spec fn rf_bind_frame(
    target: Seq<u8>,
    master: Seq<u8>,
    rx_type: u8,
    channel: u8,
    slave_index: u8,
    pwm: Seq<u8>,
) -> Seq<u8> {
    seq![RF_CMD, RF_BIND] + target + master + seq![rx_type, channel, slave_index] + pwm + zeros(219)
}

/// Copies `src` into `dst[at..at + src.len()]`.
fn put_bytes(dst: &mut [u8; 240], at: usize, src: &[u8])
    requires
        at + src@.len() <= 240,
    ensures
        final(dst)@ == old(dst)@.subrange(0, at as int) + src@ + old(dst)@.subrange(
            at + src@.len(),
            240,
        ),
{
    let mut i: usize = 0;
    while i < src.len()
        invariant
            i <= src@.len(),
            at + src@.len() <= 240,
            dst@.len() == 240,
            dst@ == old(dst)@.subrange(0, at as int) + src@.subrange(0, i as int) + old(dst)@.subrange(
                at + i,
                240,
            ),
        decreases src@.len() - i,
    {
        let ghost before = dst@;
        dst[at + i] = src[i];
        i = i + 1;
        assert(dst@ =~= old(dst)@.subrange(0, at as int) + src@.subrange(0, i as int) + old(
            dst,
        )@.subrange(at + i, 240));
    }
    assert(src@.subrange(0, src@.len() as int) =~= src@);
}

/// Build an RF bind/PWM packet: the main fan control command, which sets
/// fan PWM values and binds (slave index above 0) or unbinds devices.
pub fn build_rf_bind_packet(
    target_mac: &[u8; 6],
    master_mac: &[u8; 6],
    target_rx_type: u8,
    target_channel: u8,
    slave_index: u8,
    fan_pwm: &[u8; 4],
) -> (rf: [u8; 240])
    ensures
        rf@ == rf_bind_frame(target_mac@, master_mac@, target_rx_type, target_channel, slave_index, fan_pwm@),
{
    let mut rf = [0u8; 240];
    rf[0] = RF_CMD;
    rf[1] = RF_BIND;
    put_bytes(&mut rf, 2, target_mac.as_slice());
    put_bytes(&mut rf, 8, master_mac.as_slice());
    rf[14] = target_rx_type;
    rf[15] = target_channel;
    rf[16] = slave_index;
    put_bytes(&mut rf, 17, fan_pwm.as_slice());
    assert(rf@ =~= rf_bind_frame(target_mac@, master_mac@, target_rx_type, target_channel, slave_index, fan_pwm@));
    rf
}

/// The 240 bytes of an RF save-config broadcast.
pub open spec fn rf_save_config_frame(master: Seq<u8>) -> Seq<u8> {
    seq![RF_CMD, RF_SAVE_CFG, 0xFFu8, 0xFFu8, 0xFFu8, 0xFFu8, 0xFFu8, 0xFFu8] + master + seq![0xFFu8]
        + zeros(225)
}

/// Build an RF save-config broadcast packet.
pub fn build_rf_save_config_packet(master_mac: &[u8; 6]) -> (rf: [u8; 240])
    ensures
        rf@ == rf_save_config_frame(master_mac@),
{
    let mut rf = [0u8; 240];
    rf[0] = RF_CMD;
    rf[1] = RF_SAVE_CFG;
    let broadcast = [0xFFu8; 6];
    put_bytes(&mut rf, 2, broadcast.as_slice());
    put_bytes(&mut rf, 8, master_mac.as_slice());
    rf[14] = 0xFF;
    assert(rf@ =~= rf_save_config_frame(master_mac@));
    rf
}

/// The 240 bytes of an RF clock sync packet: the CPU info is cut to fit.
pub open spec fn rf_clock_sync_frame(master: Seq<u8>, cpu_info: Seq<u8>) -> Seq<u8> {
    let len = min(cpu_info.len() as int, 226);
    seq![RF_CMD, RF_CLOCK_SYNC] + zeros(6) + master + cpu_info.take(len) + zeros((226 - len) as nat)
}

/// Build an RF clock sync packet.
pub fn build_rf_clock_sync_packet(master_mac: &[u8; 6], cpu_info: &[u8]) -> (rf: [u8; 240])
    ensures
        rf@ == rf_clock_sync_frame(master_mac@, cpu_info@),
{
    let mut rf = [0u8; 240];
    rf[0] = RF_CMD;
    rf[1] = RF_CLOCK_SYNC;
    put_bytes(&mut rf, 8, master_mac.as_slice());
    let len = if cpu_info.len() < RF_PACKET_LEN - 14 { cpu_info.len() } else { RF_PACKET_LEN - 14 };
    let mut i: usize = 0;
    let ghost head = rf@.take(14);
    while i < len
        invariant
            i <= len <= 226,
            len <= cpu_info@.len(),
            rf@.len() == 240,
            rf@.take(14) == head,
            forall|k: int| 0 <= k < i ==> rf@[14 + k] == cpu_info@[k],
            forall|k: int| 14 + i <= k < 240 ==> rf@[k] == 0,
        decreases len - i,
    {
        rf[14 + i] = cpu_info[i];
        i = i + 1;
        assert(rf@.take(14) =~= head);
    }
    assert(rf@ =~= rf_clock_sync_frame(master_mac@, cpu_info@)) by {
        assert(rf@.take(14) =~= head);
        assert(head =~= seq![RF_CMD, RF_CLOCK_SYNC] + zeros(6) + master_mac@);
    }
    rf
}

/// The number of 220-byte data packets that `n` bytes of compressed RGB
/// data need.
pub open spec fn rgb_data_packets(n: nat) -> nat {
    (n + 219) / 220
}

/// The 20-byte head that every RGB sync packet starts with.
pub open spec fn rgb_sync_head(target: Seq<u8>, master: Seq<u8>, effect: Seq<u8>, index: u8, total: u8) -> Seq<
    u8,
> {
    seq![RF_CMD, RF_RGB_SYNC] + target + master + effect + seq![index, total]
}

/// The metadata packet (index 0) of an RGB sync sequence: data length
/// big-endian (4 bytes), a reserved byte, the frame count big-endian, the
/// LED count, four reserved bytes, the interval's whole milliseconds
/// big-endian and its hundredths.
pub open spec fn rgb_sync_meta_frame(
    target: Seq<u8>,
    master: Seq<u8>,
    effect: Seq<u8>,
    total: u8,
    data_len: nat,
    total_frame: u16,
    led_num: u8,
    interval_int: u16,
    interval_frac: u8,
) -> Seq<u8> {
    rgb_sync_head(target, master, effect, 0, total) + seq![
        (data_len / 0x1000000 % 256) as u8,
        (data_len / 0x10000 % 256) as u8,
        (data_len / 0x100 % 256) as u8,
        (data_len % 256) as u8,
        0u8,
        (total_frame / 256) as u8,
        (total_frame % 256) as u8,
        led_num,
        0u8,
        0u8,
        0u8,
        0u8,
        (interval_int / 256) as u8,
        (interval_int % 256) as u8,
        interval_frac,
    ] + zeros(205)
}

/// Data packet `k` (from 1) of an RGB sync sequence: the next piece of at
/// most 220 bytes of compressed data, zero padded.
pub open spec fn rgb_sync_data_frame(
    target: Seq<u8>,
    master: Seq<u8>,
    effect: Seq<u8>,
    total: u8,
    data: Seq<u8>,
    k: nat,
) -> Seq<u8> {
    let start = 220 * (k - 1);
    let end = min(start + 220, data.len() as int);
    rgb_sync_head(target, master, effect, k as u8, total) + data.subrange(start, end) + zeros(
        (220 - (end - start)) as nat,
    )
}

/// `packets` is the RGB sync sequence of `data`: the metadata packet, then
/// one data packet per 220 bytes of data, each naming the total count.
pub open spec fn rgb_sync_sequence(
    packets: Seq<[u8; 240]>,
    target: Seq<u8>,
    master: Seq<u8>,
    effect: Seq<u8>,
    data: Seq<u8>,
    total_frame: u16,
    led_num: u8,
    interval_int: u16,
    interval_frac: u8,
) -> bool {
    let n = rgb_data_packets(data.len());
    let total = (n + 1) as u8;
    &&& packets.len() == n + 1
    &&& packets[0]@ == rgb_sync_meta_frame(
        target,
        master,
        effect,
        total,
        data.len(),
        total_frame,
        led_num,
        interval_int,
        interval_frac,
    )
    &&& forall|k: int|
        1 <= k <= n ==> (#[trigger] packets[k])@ == rgb_sync_data_frame(
            target,
            master,
            effect,
            total,
            data,
            k as nat,
        )
}

/// Writes the 20-byte head of an RGB sync packet.
fn rgb_sync_packet_head(
    target_mac: &[u8; 6],
    master_mac: &[u8; 6],
    effect_index: &[u8; 4],
    index: u8,
    total: u8,
) -> (rf: [u8; 240])
    ensures
        rf@ == rgb_sync_head(target_mac@, master_mac@, effect_index@, index, total) + zeros(220),
{
    let mut rf = [0u8; 240];
    rf[0] = RF_CMD;
    rf[1] = RF_RGB_SYNC;
    put_bytes(&mut rf, 2, target_mac.as_slice());
    put_bytes(&mut rf, 8, master_mac.as_slice());
    put_bytes(&mut rf, 14, effect_index.as_slice());
    rf[18] = index;
    rf[19] = total;
    assert(rf@ =~= rgb_sync_head(target_mac@, master_mac@, effect_index@, index, total) + zeros(220));
    rf
}

/// Build the RF_RGB_SYNC (0x20) packet sequence for LED effects: packet 0
/// carries the metadata (data length, frame count, LED count, interval as
/// whole milliseconds and hundredths), packets 1..N the compressed RGB data
/// in 220-byte pieces. At most 254 data packets fit the 8-bit packet index.
pub fn build_rf_rgb_sync_packets_at(
    target_mac: &[u8; 6],
    master_mac: &[u8; 6],
    effect_index: &[u8; 4],
    compressed_data: &[u8],
    total_frame: u16,
    led_num: u8,
    interval_int: u16,
    interval_frac: u8,
) -> (packets: Vec<[u8; 240]>)
    requires
        rgb_data_packets(compressed_data@.len()) <= 254,
    ensures
        rgb_sync_sequence(
            packets@,
            target_mac@,
            master_mac@,
            effect_index@,
            compressed_data@,
            total_frame,
            led_num,
            interval_int,
            interval_frac,
        ),
{
    let data_len = compressed_data.len();
    let data_packets = (data_len + RGB_DATA_PER_PACKET - 1) / RGB_DATA_PER_PACKET;
    let total_packet_count = (data_packets + 1) as u8;
    let mut packets: Vec<[u8; 240]> = Vec::new();
    let mut rf = rgb_sync_packet_head(target_mac, master_mac, effect_index, 0, total_packet_count);
    rf[20] = (data_len / 0x1000000 % 256) as u8;
    rf[21] = (data_len / 0x10000 % 256) as u8;
    rf[22] = (data_len / 0x100 % 256) as u8;
    rf[23] = (data_len % 256) as u8;
    rf[25] = (total_frame / 256) as u8;
    rf[26] = (total_frame % 256) as u8;
    rf[27] = led_num;
    rf[32] = (interval_int / 256) as u8;
    rf[33] = (interval_int % 256) as u8;
    rf[34] = interval_frac;
    assert(rf@ =~= rgb_sync_meta_frame(
        target_mac@,
        master_mac@,
        effect_index@,
        total_packet_count,
        data_len as nat,
        total_frame,
        led_num,
        interval_int,
        interval_frac,
    ));
    packets.push(rf);
    let mut offset: usize = 0;
    let mut pkt_index: u8 = 1;
    while offset < data_len
        invariant
            data_len == compressed_data@.len(),
            data_packets == rgb_data_packets(data_len as nat),
            data_packets <= 254,
            total_packet_count == (data_packets + 1) as u8,
            offset == min(220 * (pkt_index - 1), data_len as int),
            1 <= pkt_index <= data_packets + 1,
            (offset < data_len) <==> (pkt_index <= data_packets),
            packets@.len() == pkt_index,
            packets@[0]@ == rgb_sync_meta_frame(
                target_mac@,
                master_mac@,
                effect_index@,
                total_packet_count,
                data_len as nat,
                total_frame,
                led_num,
                interval_int,
                interval_frac,
            ),
            forall|k: int|
                1 <= k < pkt_index ==> (#[trigger] packets@[k])@ == rgb_sync_data_frame(
                    target_mac@,
                    master_mac@,
                    effect_index@,
                    total_packet_count,
                    compressed_data@,
                    k as nat,
                ),
        decreases data_len - offset,
    {
        let mut rf = rgb_sync_packet_head(target_mac, master_mac, effect_index, pkt_index, total_packet_count);
        let chunk_len = if data_len - offset < RGB_DATA_PER_PACKET { data_len - offset } else { RGB_DATA_PER_PACKET };
        let mut j: usize = 0;
        let ghost head = rf@.take(20);
        while j < chunk_len
            invariant
                j <= chunk_len <= 220,
                offset + chunk_len <= data_len == compressed_data@.len(),
                rf@.len() == 240,
                rf@.take(20) == head,
                forall|k: int| 20 <= k < 20 + j ==> rf@[k] == compressed_data@[offset + k - 20],
                forall|k: int| 20 + j <= k < 240 ==> rf@[k] == 0,
            decreases chunk_len - j,
        {
            rf[20 + j] = compressed_data[offset + j];
            j = j + 1;
            assert(rf@.take(20) =~= head);
        }
        assert(rf@ =~= rgb_sync_data_frame(
            target_mac@,
            master_mac@,
            effect_index@,
            total_packet_count,
            compressed_data@,
            pkt_index as nat,
        )) by {
            assert(head =~= rgb_sync_head(target_mac@, master_mac@, effect_index@, pkt_index, total_packet_count));
            assert(rf@.take(20) =~= head);
        }
        packets.push(rf);
        offset = offset + chunk_len;
        pkt_index = pkt_index + 1;
    }
    packets
}

/// The colour that LED `led` of `led_num` shows in a static effect: the
/// colours split the LEDs into equal zones; black without colours.
pub open spec fn static_color(colors: Seq<(u8, u8, u8)>, led_num: nat, led: nat) -> (u8, u8, u8) {
    if colors.len() == 0 {
        (0, 0, 0)
    } else {
        colors[(led * colors.len() / led_num) as int]
    }
}

/// The bytes of one frame of a static effect: R, G, B per LED.
pub open spec fn static_frame(colors: Seq<(u8, u8, u8)>, led_num: nat) -> Seq<u8> {
    Seq::new(
        led_num * 3,
        |i: int|
            {
                let c = static_color(colors, led_num, (i / 3) as nat);
                if i % 3 == 0 {
                    c.0
                } else if i % 3 == 1 {
                    c.1
                } else {
                    c.2
                }
            },
    )
}

/// `frame` repeated `n` times.
pub open spec fn repeat(frame: Seq<u8>, n: nat) -> Seq<u8>
    decreases n,
{
    if n == 0 {
        Seq::empty()
    } else {
        repeat(frame, (n - 1) as nat) + frame
    }
}

/// Render a static color effect as raw RGB data: 70 identical frames of
/// 26 LEDs per fan, each LED as [R, G, B].
pub fn render_static_rgb(colors: &[(u8, u8, u8)], fan_num: u8) -> (data: Vec<u8>)
    requires
        colors@.len() * (LEDS_PER_FAN * fan_num) <= usize::MAX,
    ensures
        data@ == repeat(static_frame(colors@, (LEDS_PER_FAN * fan_num) as nat), STATIC_FRAMES as nat),
{
    let led_num = LEDS_PER_FAN * fan_num as usize;
    let total_frames = STATIC_FRAMES;
    let ghost frame = static_frame(colors@, led_num as nat);
    let mut data: Vec<u8> = Vec::new();
    let mut f: usize = 0;
    while f < total_frames
        invariant
            f <= total_frames == 70,
            led_num == LEDS_PER_FAN * fan_num,
            colors@.len() * led_num <= usize::MAX,
            frame == static_frame(colors@, led_num as nat),
            data@ == repeat(frame, f as nat),
        decreases total_frames - f,
    {
        let ghost before = data@;
        let mut led: usize = 0;
        while led < led_num
            invariant
                led <= led_num,
                led_num == LEDS_PER_FAN * fan_num,
                colors@.len() * led_num <= usize::MAX,
                frame == static_frame(colors@, led_num as nat),
                data@ == before + frame.take(3 * led),
            decreases led_num - led,
        {
            let color_idx = if colors.len() == 0 {
                0
            } else {
                proof {
                    assert(led * colors@.len() <= colors@.len() * led_num) by (nonlinear_arith)
                        requires led < led_num;
                    assert(led * colors@.len() / (led_num as int) < colors@.len()) by (nonlinear_arith)
                        requires led < led_num, colors@.len() > 0;
                }
                led * colors.len() / led_num
            };
            let (r, g, b) = if color_idx < colors.len() { colors[color_idx] } else { (0, 0, 0) };
            proof {
                let c = static_color(colors@, led_num as nat, led as nat);
                assert((r, g, b) == c);
                assert((3 * led) / 3 == led && (3 * led + 1) / 3 == led && (3 * led + 2) / 3 == led);
                assert(frame.take(3 * led + 3) =~= frame.take(3 * led) + seq![r, g, b]);
            }
            data.push(r);
            data.push(g);
            data.push(b);
            led = led + 1;
            assert(data@ =~= before + frame.take(3 * led));
        }
        assert(frame.take(3 * led_num) =~= frame);
        f = f + 1;
    }
    data
}

/// Dictionary size of the compressed RGB data of an effect.
pub const EFFECT_DICT_SIZE: usize = 4096;

/// Interval between the frames of a static effect, in milliseconds.
pub const STATIC_INTERVAL_MS: u16 = 60;

/// The raw RGB data of a static effect on `fan_num` fans.
pub open spec fn static_effect_rgb(colors: Seq<(u8, u8, u8)>, fan_num: u8) -> Seq<u8> {
    repeat(static_frame(colors, (LEDS_PER_FAN * fan_num) as nat), STATIC_FRAMES as nat)
}

/// Whether the RGB sync packets of a static effect can be built: the
/// compressor takes the data and the result fits 254 data packets.
pub open spec fn static_effect_fits(colors: Seq<(u8, u8, u8)>, fan_num: u8) -> bool {
    let rgb = static_effect_rgb(colors, fan_num);
    compressible(rgb, EFFECT_DICT_SIZE as nat) && rgb_data_packets(
        tuz_compressed(rgb, EFFECT_DICT_SIZE as nat).len(),
    ) <= 254
}

/// The RGB sync packets that show a static colour effect (`mode`, colours
/// split in zones over the fans) on the receiver `target_mac`: the effect is
/// rendered, compressed with a 4096-byte dictionary and framed as 70 frames
/// of 26 LEDs per fan, 60 ms apart. `None` where the compressor refuses the
/// data or it needs more than 254 data packets.
pub fn static_effect_packets(
    target_mac: &[u8; 6],
    master_mac: &[u8; 6],
    mode: u8,
    colors: &[(u8, u8, u8)],
    fan_num: u8,
) -> (r: Option<Vec<[u8; 240]>>)
    requires
        colors@.len() * (LEDS_PER_FAN * fan_num) <= usize::MAX,
    ensures
        r is Some <==> static_effect_fits(colors@, fan_num),
        r matches Some(packets) ==> rgb_sync_sequence(
            packets@,
            target_mac@,
            master_mac@,
            seq![mode, 0u8, 0u8, 0u8],
            tuz_compressed(static_effect_rgb(colors@, fan_num), EFFECT_DICT_SIZE as nat),
            STATIC_FRAMES as u16,
            ((LEDS_PER_FAN * fan_num) % 256) as u8,
            STATIC_INTERVAL_MS,
            0,
        ),
{
    let rgb = render_static_rgb(colors, fan_num);
    let compressed = match tuz_compress_checked(&rgb, EFFECT_DICT_SIZE) {
        Some(c) => c,
        None => return None,
    };
    if compressed.len() > 254 * RGB_DATA_PER_PACKET {
        return None;
    }
    let effect_index: [u8; 4] = [mode, 0, 0, 0];
    assert(effect_index@ =~= seq![mode, 0u8, 0u8, 0u8]);
    let led_num = ((LEDS_PER_FAN * fan_num as usize) % 256) as u8;
    Some(
        build_rf_rgb_sync_packets_at(
            target_mac,
            master_mac,
            &effect_index,
            compressed.as_slice(),
            STATIC_FRAMES as u16,
            led_num,
            STATIC_INTERVAL_MS,
            0,
        ),
    )
}

/// Build a reset packet.
pub fn reset_packet() -> (buf: [u8; 64])
    ensures
        buf@ == short_usb_packet(CMD_RESET, 0),
{
    short_packet(CMD_RESET, 0)
}

/// A MAC as colon-separated lower-case hexadecimal (`aa:bb:cc:dd:ee:ff`).
pub open spec fn mac_text(mac: Seq<u8>) -> Seq<char> {
    hex2(mac[0]) + seq![':'] + hex2(mac[1]) + seq![':'] + hex2(mac[2]) + seq![':'] + hex2(mac[3])
        + seq![':'] + hex2(mac[4]) + seq![':'] + hex2(mac[5])
}

/// Format MAC address as colon-separated hex string.
pub fn format_mac(mac: &[u8; 6]) -> (s: String)
    ensures
        s@ == mac_text(mac@),
{
    let mut s = String::new();
    proof { reveal_strlit(":"); }
    crate::text::push_hex2(&mut s, mac[0]);
    s.append(":");
    crate::text::push_hex2(&mut s, mac[1]);
    s.append(":");
    crate::text::push_hex2(&mut s, mac[2]);
    s.append(":");
    crate::text::push_hex2(&mut s, mac[3]);
    s.append(":");
    crate::text::push_hex2(&mut s, mac[4]);
    s.append(":");
    crate::text::push_hex2(&mut s, mac[5]);
    s
}

/// Different MAC addresses are written as different texts, so a MAC text
/// names one address.
pub proof fn lemma_mac_text_injective(a: Seq<u8>, b: Seq<u8>)
    requires
        a.len() == 6,
        b.len() == 6,
        mac_text(a) == mac_text(b),
    ensures
        a == b,
{
    assert forall|k: int| 0 <= k < 6 implies a[k] == b[k] by {
        let ta = mac_text(a);
        let tb = mac_text(b);
        assert(ta[3 * k] == hex2(a[k])[0]);
        assert(ta[3 * k + 1] == hex2(a[k])[1]);
        assert(tb[3 * k] == hex2(b[k])[0]);
        assert(tb[3 * k + 1] == hex2(b[k])[1]);
        assert(hex2(a[k]) =~= hex2(b[k]));
        crate::text::lemma_hex2_injective(a[k], b[k]);
    }
    assert(a =~= b);
}

} // verus!
