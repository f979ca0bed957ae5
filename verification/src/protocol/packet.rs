//! HID report framing for the wired fan/LED controller (64-byte reports,
//! report ID 0x01, 6-byte header) and the wired LCD (512-byte reports,
//! report ID 0x02, 11-byte header).
use vstd::prelude::*;

use crate::error::{report_id_mismatch_text, short_packet_text, Error};
use crate::text::hex_byte_prefixed;

verus! {

pub const LED_REPORT_ID: u8 = 0x01;

pub const LED_PACKET_LEN: usize = 64;

pub const LED_HEADER_LEN: usize = 6;

pub const LED_MAX_PAYLOAD: usize = 58;

pub const LCD_REPORT_ID: u8 = 0x02;

pub const LCD_OUTPUT_LEN: usize = 512;

pub const LCD_INPUT_LEN: usize = 64;

pub const LCD_HEADER_LEN: usize = 11;

pub const LCD_MAX_PAYLOAD: usize = 501;

/// `n` zero bytes.
pub open spec fn zeros(n: nat) -> Seq<u8> {
    Seq::new(n, |i: int| 0u8)
}

/// The smaller of two integers.
pub open spec fn min(a: int, b: int) -> int {
    if a < b { a } else { b }
}

/// A 64-byte fan/LED report with its report ID, header and payload.
pub struct LedPacket {
    pub command: u8,
    pub packet_number: u16,
    pub data: Vec<u8>,
}

/// The 64 bytes of a fan/LED report: report ID, command, a reserved zero,
/// the packet number big-endian, the payload length, then the payload
/// (cut to 58 bytes) and zero padding.
pub open spec fn led_frame(command: u8, packet_number: u16, data: Seq<u8>) -> Seq<u8> {
    let len = min(data.len() as int, LED_MAX_PAYLOAD as int);
    seq![
        LED_REPORT_ID,
        command,
        0u8,
        (packet_number as int / 256) as u8,
        (packet_number as int % 256) as u8,
        len as u8,
    ] + data.take(len) + zeros((LED_MAX_PAYLOAD - len) as nat)
}

/// The payload that a received fan/LED report carries: as many bytes as
/// its length byte says, cut at the end of the report.
pub open spec fn led_frame_payload(bytes: Seq<u8>) -> Seq<u8> {
    bytes.subrange(6, 6 + min(bytes[5] as int, bytes.len() - 6))
}

/// Copies `src[from..to]` into a new vector.
pub fn copy_range(src: &[u8], from: usize, to: usize) -> (out: Vec<u8>)
    requires
        from <= to <= src@.len(),
    ensures
        out@ == src@.subrange(from as int, to as int),
{
    let mut out: Vec<u8> = Vec::new();
    let mut i = from;
    while i < to
        invariant
            from <= i <= to <= src@.len(),
            out@ == src@.subrange(from as int, i as int),
        decreases to - i,
    {
        out.push(src[i]);
        i = i + 1;
    }
    out
}

impl LedPacket {
    pub fn new(command: u8, data: Vec<u8>) -> (p: Self)
        ensures
            p.command == command,
            p.packet_number == 0,
            p.data@ == data@,
    {
        LedPacket { command, packet_number: 0, data }
    }

    /// Serializes the report; a payload longer than 58 bytes is cut.
    pub fn to_bytes(&self) -> (buf: [u8; 64])
        ensures
            buf@ == led_frame(self.command, self.packet_number, self.data@),
    {
        let mut buf = [0u8; 64];
        buf[0] = LED_REPORT_ID;
        buf[1] = self.command;
        buf[3] = (self.packet_number / 256) as u8;
        buf[4] = (self.packet_number % 256) as u8;
        let len = if self.data.len() < LED_MAX_PAYLOAD { self.data.len() } else { LED_MAX_PAYLOAD };
        buf[5] = len as u8;
        let mut i: usize = 0;
        while i < len
            invariant
                len <= LED_MAX_PAYLOAD,
                len <= self.data@.len(),
                i <= len,
                buf@.len() == 64,
                buf@[0] == LED_REPORT_ID,
                buf@[1] == self.command,
                buf@[2] == 0,
                buf@[3] == (self.packet_number as int / 256) as u8,
                buf@[4] == (self.packet_number as int % 256) as u8,
                buf@[5] == len as u8,
                forall|k: int| 0 <= k < i ==> buf@[6 + k] == self.data@[k],
                forall|k: int| 6 + i <= k < 64 ==> buf@[k] == 0,
            decreases len - i,
        {
            buf[6 + i] = self.data[i];
            i = i + 1;
        }
        assert(buf@ =~= led_frame(self.command, self.packet_number, self.data@));
        buf
    }

    /// Parses a received report, with its leading report ID 0x01 or, as
    /// hidapi reads it on Linux, without it (then it starts with a command
    /// byte). With the report ID it must be at least 6 bytes long, without
    /// it at least 5; the payload is cut at the end of the input.
    pub fn from_bytes(bytes: &[u8]) -> (r: Result<Self, Error>)
        ensures
            ({
                let o = led_report(bytes@);
                let b = o.unwrap();
                &&& o is Some && b.len() >= LED_HEADER_LEN ==> (r matches Ok(p) && p.command == b[1]
                    && p.packet_number as int == b[3] as int * 256 + b[4] as int && p.data@
                    == led_frame_payload(b))
                &&& o is Some && b.len() < LED_HEADER_LEN ==> (r matches Err(Error::InvalidResponse(m))
                    && m@ == short_packet_text())
                &&& o is None && bytes@.len() < LED_HEADER_LEN ==> (r matches Err(
                    Error::InvalidResponse(m),
                ) && m@ == short_packet_text())
                &&& o is None && bytes@.len() >= LED_HEADER_LEN ==> (r matches Err(
                    Error::InvalidResponse(m),
                ) && m@ == report_id_mismatch_text(LED_REPORT_ID, bytes@[0]))
            }),
    {
        let n = bytes.len();
        let shift: usize = if n > 0 && bytes[0] == LED_REPORT_ID {
            0
        } else if n > 0 && is_led_command_byte(bytes[0]) {
            1
        } else {
            if n < LED_HEADER_LEN {
                return Err(Error::InvalidResponse(crate::error::short_packet_message()));
            }
            return Err(
                Error::InvalidResponse(crate::error::report_id_mismatch_message(LED_REPORT_ID, bytes[0])),
            );
        };
        let ghost b = led_report(bytes@).unwrap();
        assert(b.len() == n + shift);
        assert(forall|k: int| shift <= k < b.len() ==> b[k] == bytes@[k - shift]);
        if n < LED_HEADER_LEN - shift {
            return Err(Error::InvalidResponse(crate::error::short_packet_message()));
        }
        let len = bytes[5 - shift] as usize;
        let avail = n - (6 - shift);
        let k = if len < avail { len } else { avail };
        let data = copy_range(bytes, 6 - shift, 6 - shift + k);
        assert(data@ =~= led_frame_payload(b));
        Ok(
            LedPacket {
                command: bytes[1 - shift],
                packet_number: bytes[3 - shift] as u16 * 256 + bytes[4 - shift] as u16,
                data,
            },
        )
    }
}

/// Whether a byte is a command of the fan controller (fan or LED).
pub open spec fn is_led_command(c: u8) -> bool {
    c == 0xA1 || c == 0xA3 || c == 0xA6 || c == 0xAA || c == 0xAD || c == 0xAE || c == 0xAF || c
        == 0xB0 || c == 0xB1 || c == 0xB3 || c == 0xB4
}

fn is_led_command_byte(c: u8) -> (b: bool)
    ensures
        b == is_led_command(c),
{
    c == 0xA1 || c == 0xA3 || c == 0xA6 || c == 0xAA || c == 0xAD || c == 0xAE || c == 0xAF || c
        == 0xB0 || c == 0xB1 || c == 0xB3 || c == 0xB4
}

/// A received fan/LED report with its report ID: as read when it starts
/// with 0x01, with 0x01 put back when it starts with a command byte, and
/// `None` when it starts with anything else.
pub open spec fn led_report(bytes: Seq<u8>) -> Option<Seq<u8>> {
    if bytes.len() > 0 && bytes[0] == LED_REPORT_ID {
        Some(bytes)
    } else if bytes.len() > 0 && is_led_command(bytes[0]) {
        Some(seq![LED_REPORT_ID] + bytes)
    } else {
        None
    }
}

/// A 512-byte wired-LCD report; the packet number is 24 bits on the wire.
pub struct LcdPacket {
    pub command: u8,
    pub data_size: u32,
    pub packet_number: u32,
    pub data: Vec<u8>,
}

/// The 512 bytes of a wired-LCD report: report ID, command, the total data
/// size big-endian (4 bytes), the packet number big-endian (low 24 bits),
/// the payload length big-endian (2 bytes), then the payload (cut to 501
/// bytes) and zero padding.
pub open spec fn lcd_frame(command: u8, data_size: u32, packet_number: u32, data: Seq<u8>) -> Seq<u8> {
    let len = min(data.len() as int, LCD_MAX_PAYLOAD as int);
    seq![
        LCD_REPORT_ID,
        command,
        (data_size as int / 0x1000000) as u8,
        (data_size as int / 0x10000 % 256) as u8,
        (data_size as int / 0x100 % 256) as u8,
        (data_size as int % 256) as u8,
        (packet_number as int / 0x10000 % 256) as u8,
        (packet_number as int / 0x100 % 256) as u8,
        (packet_number as int % 256) as u8,
        (len / 256) as u8,
        (len % 256) as u8,
    ] + data.take(len) + zeros((LCD_MAX_PAYLOAD - len) as nat)
}

/// The payload that a received wired-LCD report carries: as many bytes as
/// its big-endian length field says, cut at the end of the report.
pub open spec fn lcd_frame_payload(bytes: Seq<u8>) -> Seq<u8> {
    bytes.subrange(11, 11 + min(bytes[9] as int * 256 + bytes[10] as int, bytes.len() - 11))
}

/// The `i`-th piece of `data` cut into pieces of 501 bytes.
pub open spec fn lcd_chunk(data: Seq<u8>, i: int) -> Seq<u8> {
    data.subrange(i * 501, min((i + 1) * 501, data.len() as int))
}

/// The number of 501-byte pieces that `n` bytes are cut into.
pub open spec fn lcd_chunk_count(n: nat) -> nat {
    (n + 500) / 501
}

impl LcdPacket {
    pub fn new(command: u8, data_size: u32, packet_number: u32, data: Vec<u8>) -> (p: Self)
        ensures
            p.command == command,
            p.data_size == data_size,
            p.packet_number == packet_number,
            p.data@ == data@,
    {
        LcdPacket { command, data_size, packet_number, data }
    }

    /// Serializes the report; a payload longer than 501 bytes is cut.
    pub fn to_bytes(&self) -> (buf: [u8; 512])
        ensures
            buf@ == lcd_frame(self.command, self.data_size, self.packet_number, self.data@),
    {
        let mut buf = [0u8; 512];
        buf[0] = LCD_REPORT_ID;
        buf[1] = self.command;
        buf[2] = (self.data_size / 0x1000000) as u8;
        buf[3] = (self.data_size / 0x10000 % 256) as u8;
        buf[4] = (self.data_size / 0x100 % 256) as u8;
        buf[5] = (self.data_size % 256) as u8;
        buf[6] = (self.packet_number / 0x10000 % 256) as u8;
        buf[7] = (self.packet_number / 0x100 % 256) as u8;
        buf[8] = (self.packet_number % 256) as u8;
        let len = if self.data.len() < LCD_MAX_PAYLOAD { self.data.len() } else { LCD_MAX_PAYLOAD };
        buf[9] = (len / 256) as u8;
        buf[10] = (len % 256) as u8;
        let mut i: usize = 0;
        while i < len
            invariant
                len <= LCD_MAX_PAYLOAD,
                len <= self.data@.len(),
                i <= len,
                buf@.len() == 512,
                buf@[0] == LCD_REPORT_ID,
                buf@[1] == self.command,
                buf@[2] == (self.data_size as int / 0x1000000) as u8,
                buf@[3] == (self.data_size as int / 0x10000 % 256) as u8,
                buf@[4] == (self.data_size as int / 0x100 % 256) as u8,
                buf@[5] == (self.data_size as int % 256) as u8,
                buf@[6] == (self.packet_number as int / 0x10000 % 256) as u8,
                buf@[7] == (self.packet_number as int / 0x100 % 256) as u8,
                buf@[8] == (self.packet_number as int % 256) as u8,
                buf@[9] == (len as int / 256) as u8,
                buf@[10] == (len as int % 256) as u8,
                forall|k: int| 0 <= k < i ==> buf@[11 + k] == self.data@[k],
                forall|k: int| 11 + i <= k < 512 ==> buf@[k] == 0,
            decreases len - i,
        {
            buf[11 + i] = self.data[i];
            i = i + 1;
        }
        assert(buf@ =~= lcd_frame(self.command, self.data_size, self.packet_number, self.data@));
        buf
    }

    /// Parses a received report. It must be at least 11 bytes long and
    /// start with report ID 0x02; the payload is cut at the end of the input.
    pub fn from_bytes(bytes: &[u8]) -> (r: Result<Self, Error>)
        ensures
            bytes@.len() < LCD_HEADER_LEN ==> (r matches Err(Error::InvalidResponse(m)) && m@
                == short_packet_text()),
            bytes@.len() >= LCD_HEADER_LEN && bytes@[0] != LCD_REPORT_ID ==> (r matches Err(
                Error::InvalidResponse(m),
            ) && m@ == report_id_mismatch_text(LCD_REPORT_ID, bytes@[0])),
            bytes@.len() >= LCD_HEADER_LEN && bytes@[0] == LCD_REPORT_ID ==> (r matches Ok(p) && p.command
                == bytes@[1] && p.data_size as int == bytes@[2] as int * 0x1000000 + bytes@[3] as int
                * 0x10000 + bytes@[4] as int * 0x100 + bytes@[5] as int && p.packet_number as int
                == bytes@[6] as int * 0x10000 + bytes@[7] as int * 0x100 + bytes@[8] as int
                && p.data@ == lcd_frame_payload(bytes@)),
    {
        if bytes.len() < LCD_HEADER_LEN {
            return Err(Error::InvalidResponse(crate::error::short_packet_message()));
        }
        if bytes[0] != LCD_REPORT_ID {
            return Err(
                Error::InvalidResponse(crate::error::report_id_mismatch_message(LCD_REPORT_ID, bytes[0])),
            );
        }
        let data_size = bytes[2] as u32 * 0x1000000 + bytes[3] as u32 * 0x10000 + bytes[4] as u32
            * 0x100 + bytes[5] as u32;
        let packet_number = bytes[6] as u32 * 0x10000 + bytes[7] as u32 * 0x100 + bytes[8] as u32;
        let len = bytes[9] as usize * 256 + bytes[10] as usize;
        let avail = bytes.len() - LCD_HEADER_LEN;
        let n = if len < avail { len } else { avail };
        let data = copy_range(bytes, 11, 11 + n);
        Ok(LcdPacket { command: bytes[1], data_size, packet_number, data })
    }

    /// Cuts `data` into reports of at most 501 payload bytes, numbered from
    /// 0, each carrying the total size of `data`.
    pub fn build_packets(command: u8, data: &[u8]) -> (packets: Vec<Self>)
        ensures
            packets@.len() == lcd_chunk_count(data@.len()),
            forall|i: int|
                0 <= i < packets@.len() ==> {
                    &&& (#[trigger] packets@[i]).command == command
                    &&& packets@[i].data_size == data@.len() as u32
                    &&& packets@[i].packet_number == i as u32
                    &&& packets@[i].data@ == lcd_chunk(data@, i)
                },
    {
        let total_size = data.len() as u32;
        let mut packets: Vec<Self> = Vec::new();
        let mut offset: usize = 0;
        let mut index: usize = 0;
        while offset < data.len()
            invariant
                offset == min(index * 501, data@.len() as int),
                index <= lcd_chunk_count(data@.len()),
                (offset < data@.len()) <==> (index < lcd_chunk_count(data@.len())),
                total_size == data@.len() as u32,
                packets@.len() == index,
                forall|i: int|
                    0 <= i < packets@.len() ==> {
                        &&& (#[trigger] packets@[i]).command == command
                        &&& packets@[i].data_size == data@.len() as u32
                        &&& packets@[i].packet_number == i as u32
                        &&& packets@[i].data@ == lcd_chunk(data@, i)
                    },
            decreases data@.len() - offset,
        {
            let end = if data.len() - offset < LCD_MAX_PAYLOAD { data.len() } else { offset + LCD_MAX_PAYLOAD };
            let chunk = copy_range(data, offset, end);
            packets.push(LcdPacket { command, data_size: total_size, packet_number: index as u32, data: chunk });
            offset = end;
            index = index + 1;
        }
        packets
    }
}

/// A fan/LED report read back from the 64 bytes it is written as gives back
/// its command, packet number and payload; a payload longer than 58 bytes
/// comes back cut to its first 58.
pub proof fn lemma_led_packet_roundtrip(command: u8, packet_number: u16, data: Seq<u8>)
    ensures
        ({
            let b = led_frame(command, packet_number, data);
            &&& b.len() == LED_PACKET_LEN
            &&& led_report(b) == Some(b)
            &&& b[1] == command
            &&& b[3] as int * 256 + b[4] as int == packet_number
            &&& led_frame_payload(b) == data.take(min(data.len() as int, LED_MAX_PAYLOAD as int))
        }),
{
    let b = led_frame(command, packet_number, data);
    let len = min(data.len() as int, LED_MAX_PAYLOAD as int);
    assert(b[5] == len);
    assert(led_frame_payload(b) =~= data.take(len));
}

/// A wired-LCD report read back from the 512 bytes it is written as gives
/// back its command, total size, packet number and payload, for packet
/// numbers that fit 24 bits; a payload longer than 501 bytes comes back cut
/// to its first 501.
pub proof fn lemma_lcd_packet_roundtrip(command: u8, data_size: u32, packet_number: u32, data: Seq<u8>)
    requires
        packet_number < 0x1000000,
    ensures
        ({
            let b = lcd_frame(command, data_size, packet_number, data);
            &&& b.len() == LCD_OUTPUT_LEN
            &&& b[0] == LCD_REPORT_ID
            &&& b[1] == command
            &&& b[2] as int * 0x1000000 + b[3] as int * 0x10000 + b[4] as int * 0x100 + b[5] as int
                == data_size
            &&& b[6] as int * 0x10000 + b[7] as int * 0x100 + b[8] as int == packet_number
            &&& lcd_frame_payload(b) == data.take(min(data.len() as int, LCD_MAX_PAYLOAD as int))
        }),
{
    let b = lcd_frame(command, data_size, packet_number, data);
    let len = min(data.len() as int, LCD_MAX_PAYLOAD as int);
    assert(b[9] as int * 256 + b[10] as int == len);
    assert(lcd_frame_payload(b) =~= data.take(len));
}

/// The first `n` pieces of `data`, joined in order.
pub open spec fn joined_chunks(data: Seq<u8>, n: nat) -> Seq<u8>
    decreases n,
{
    if n == 0 {
        Seq::empty()
    } else {
        joined_chunks(data, (n - 1) as nat) + lcd_chunk(data, n - 1)
    }
}

proof fn lemma_joined_prefix(data: Seq<u8>, n: nat)
    requires
        n <= lcd_chunk_count(data.len()),
    ensures
        joined_chunks(data, n) == data.take(min((n * 501) as int, data.len() as int)),
    decreases n,
{
    if n > 0 {
        lemma_joined_prefix(data, (n - 1) as nat);
        let m = (n - 1) as nat;
        assert(m * 501 < data.len()) by (nonlinear_arith)
            requires
                m + 1 <= (data.len() + 500) / 501,
        ;
        assert(n * 501 == m * 501 + 501);
        assert(joined_chunks(data, n) =~= data.take(min((n * 501) as int, data.len() as int)));
    }
}

/// The pieces that `build_packets` cuts data into join back to the data:
/// each holds between 1 and 501 bytes, and together, in packet order, they
/// are the data.
pub proof fn lemma_lcd_chunks_cover(data: Seq<u8>)
    ensures
        joined_chunks(data, lcd_chunk_count(data.len())) == data,
        forall|i: int|
            0 <= i < lcd_chunk_count(data.len()) ==> 1 <= (#[trigger] lcd_chunk(data, i)).len()
                <= LCD_MAX_PAYLOAD,
{
    let n = lcd_chunk_count(data.len());
    lemma_joined_prefix(data, n);
    assert(n * 501 >= data.len()) by (nonlinear_arith)
        requires
            n == (data.len() + 500) / 501,
    ;
    assert(data.take(data.len() as int) =~= data);
    assert forall|i: int| 0 <= i < n implies 1 <= (#[trigger] lcd_chunk(data, i)).len()
        <= LCD_MAX_PAYLOAD by {
        assert(i * 501 < data.len()) by (nonlinear_arith)
            requires
                0 <= i,
                i + 1 <= (data.len() + 500) / 501,
        ;
        assert((i + 1) * 501 == i * 501 + 501);
    }
}

} // verus!
