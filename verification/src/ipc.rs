//! Messages between the control tool and the daemon, and the daemon's
//! configuration file model.
use vstd::prelude::*;
use vstd::string::StringSliceAdditionalSpecFns;

use crate::text::{hex2, hex_digit};

verus! {

/// A request sent to the daemon, one JSON object per line.
#[derive(Debug, Clone)]
pub enum Request {
    Status,
    DisplayImage { path: String },
    DisplayVideo { path: String, fps: u8, loop_video: bool },
    DisplayBrightness { level: u8 },
    DisplayRotate { rotation: u16 },
    DisplayReset,
    SetFanSpeed { mac: String, pwm: u8 },
    SetLed {
        mac: String,
        mode: u8,
        brightness: u8,
        speed: u8,
        direction: u8,
        colors: Vec<String>,
    },
}

/// The daemon's answer to a request.
#[derive(Debug)]
pub struct Response {
    pub ok: bool,
    pub error: Option<String>,
    pub status: Option<DaemonStatus>,
}

impl Response {
    /// A success with nothing to report.
    pub fn ok() -> (r: Response)
        ensures
            r.ok,
            r.error is None,
            r.status is None,
    {
        Response { ok: true, error: None, status: None }
    }

    /// A failure carrying `msg`.
    pub fn err(msg: &str) -> (r: Response)
        ensures
            !r.ok,
            r.error matches Some(e) && e@ == msg@,
            r.status is None,
    {
        Response { ok: false, error: Some(String::from_str(msg)), status: None }
    }

    /// A success carrying the daemon's status.
    pub fn with_status(status: DaemonStatus) -> (r: Response)
        ensures
            r.ok,
            r.error is None,
            r.status == Some(status),
    {
        Response { ok: true, error: None, status: Some(status) }
    }
}

#[derive(Debug)]
pub struct DaemonStatus {
    pub uptime_secs: u64,
    pub wireless_lcds: Vec<WirelessLcdState>,
    pub wired_lcds: Vec<WiredLcdState>,
    pub display: DisplayState,
    pub wireless_fans: Vec<WirelessFanState>,
    pub config_fans: Vec<FanConfig>,
}

#[derive(Debug, Clone)]
pub struct WirelessLcdState {
    pub serial: Option<String>,
}

#[derive(Debug, Clone, Copy)]
pub struct WiredLcdState {
    pub port: u8,
    pub lcd_index: u8,
}

#[derive(Debug, Clone)]
pub struct DisplayState {
    pub mode: String,
    pub source: Option<String>,
    pub fps: Option<u8>,
    pub looping: bool,
}

impl Default for DisplayState {
    /// Nothing shown: mode `idle`, no source, no frame rate, not looping.
    fn default() -> (d: DisplayState)
        ensures
            d.mode@ == "idle"@,
            d.source is None,
            d.fps is None,
            !d.looping,
    {
        DisplayState { mode: String::from_str("idle"), source: None, fps: None, looping: false }
    }
}

#[derive(Debug, Clone)]
pub struct WirelessFanState {
    pub mac: String,
    pub fan_count: u8,
    pub fans: Vec<FanReading>,
}

#[derive(Debug, Clone, Copy, PartialEq, Eq, Structural)]
pub struct FanReading {
    pub rpm: u16,
    pub pwm: u8,
}

/// The configuration file: one entry per fan.
#[derive(Debug, Clone)]
pub struct Config {
    pub fans: Vec<FanConfig>,
}

#[derive(Debug, Clone)]
pub struct FanConfig {
    /// Wireless LCD serial (for LCD/video matching).
    pub serial: String,
    /// Wireless fan MAC address (for LED matching, e.g. "26:70:85:e5:66:e1").
    pub mac: Option<String>,
    /// USB port number (for wired LCD matching).
    pub port: Option<u8>,
    /// LCD index within the port (for wired LCD matching).
    pub lcd_index: Option<u8>,
    /// Video playback config.
    pub video: Option<VideoConfig>,
    /// LED effect config (wireless only).
    pub led: Option<LedConfig>,
}

#[derive(Debug, Clone)]
pub struct VideoConfig {
    pub path: String,
    pub fps: u8,
}

#[derive(Debug, Clone)]
pub struct LedConfig {
    pub mode: u8,
    pub brightness: u8,
    pub speed: u8,
    pub direction: u8,
    pub colors: Vec<String>,
}

/// The frame rate of a video entry that names none.
pub fn default_fps() -> (r: u8)
    ensures
        r == 20,
{
    20
}

/// The brightness of an LED entry that names none.
pub fn default_brightness() -> (r: u8)
    ensures
        r == 4,
{
    4
}

/// The value of an ASCII hexadecimal digit, either case.
pub open spec fn hex_value(c: u8) -> Option<u8> {
    if 0x30 <= c <= 0x39 {
        Some((c - 0x30) as u8)
    } else if 0x61 <= c <= 0x66 {
        Some((c - 0x61 + 10) as u8)
    } else if 0x41 <= c <= 0x46 {
        Some((c - 0x41 + 10) as u8)
    } else {
        None
    }
}

/// A two-byte field read as a base-16 `u8`: two hexadecimal digits.
pub open spec fn hex_pair(a: u8, b: u8) -> Option<u8> {
    match (hex_value(a), hex_value(b)) {
        (Some(hi), Some(lo)) => Some((hi * 16 + lo) as u8),
        _ => None,
    }
}

/// The bytes of a colour string without one leading `#`.
pub open spec fn color_digits(b: Seq<u8>) -> Seq<u8> {
    if b.len() > 0 && b[0] == 0x23 {
        b.drop_first()
    } else {
        b
    }
}

/// Whether a byte continues a UTF-8 sequence (so no character starts there).
pub open spec fn continues_char(b: u8) -> bool {
    0x80 <= b < 0xC0
}

/// The colour that a string of six hexadecimal digits (after an optional
/// `#`) names, as red, green and blue.
pub open spec fn hex_color(b: Seq<u8>) -> Option<(u8, u8, u8)> {
    let d = color_digits(b);
    if d.len() != 6 {
        None
    } else {
        match (hex_pair(d[0], d[1]), hex_pair(d[2], d[3]), hex_pair(d[4], d[5])) {
            (Some(r), Some(g), Some(bl)) => Some((r, g, bl)),
            _ => None,
        }
    }
}

fn hex_value_exec(c: u8) -> (r: Option<u8>)
    ensures
        r == hex_value(c),
{
    if 0x30 <= c && c <= 0x39 {
        Some(c - 0x30)
    } else if 0x61 <= c && c <= 0x66 {
        Some(c - 0x61 + 10)
    } else if 0x41 <= c && c <= 0x46 {
        Some(c - 0x41 + 10)
    } else {
        None
    }
}

fn hex_pair_exec(a: u8, b: u8) -> (r: Option<u8>)
    ensures
        r == hex_pair(a, b),
{
    match (hex_value_exec(a), hex_value_exec(b)) {
        (Some(hi), Some(lo)) => Some(hi * 16 + lo),
        _ => None,
    }
}

/// Parse hex color string (e.g. "ff0000") to (R, G, B).
///
/// Six bytes must remain after one optional leading `#`, all of them
/// hexadecimal digits; the pairs must fall on character boundaries.
pub fn parse_hex_color(s: &str) -> (r: Option<(u8, u8, u8)>)
    requires
        color_digits(s.spec_bytes()).len() == 6 ==> !continues_char(
            color_digits(s.spec_bytes())[2],
        ) && !continues_char(color_digits(s.spec_bytes())[4]),
    ensures
        r == hex_color(s.spec_bytes()),
{
    let b = s.as_bytes();
    let off: usize = if b.len() > 0 && b[0] == 0x23 { 1 } else { 0 };
    let n = b.len();
    proof {
        if off == 1 {
            assert(color_digits(b@) =~= b@.subrange(1, n as int));
        } else {
            assert(color_digits(b@) =~= b@);
        }
    }
    if n - off != 6 {
        return None;
    }
    let r = hex_pair_exec(b[off], b[off + 1]);
    let g = hex_pair_exec(b[off + 2], b[off + 3]);
    let bl = hex_pair_exec(b[off + 4], b[off + 5]);
    match (r, g, bl) {
        (Some(r), Some(g), Some(bl)) => Some((r, g, bl)),
        _ => None,
    }
}

/// The ASCII bytes of a text of ASCII characters.
pub open spec fn ascii_bytes(t: Seq<char>) -> Seq<u8> {
    t.map_values(|c: char| c as u8)
}

proof fn lemma_hex_digit_value(n: int)
    requires
        0 <= n < 16,
    ensures
        hex_value(hex_digit(n) as u8) == Some(n as u8),
{
}

/// A colour written as six lower-case hexadecimal digits (`{:02x}` of red,
/// green and blue), with or without a leading `#`, reads back as the same
/// colour.
pub proof fn lemma_hex_color_roundtrip(r: u8, g: u8, b: u8, hash: bool)
    ensures
        ({
            let t = hex2(r) + hex2(g) + hex2(b);
            let text = if hash { seq!['#'] + t } else { t };
            hex_color(ascii_bytes(text)) == Some((r, g, b))
        }),
{
    let t = hex2(r) + hex2(g) + hex2(b);
    let text = if hash { seq!['#'] + t } else { t };
    let bytes = ascii_bytes(text);
    let d = color_digits(bytes);
    assert(d =~= ascii_bytes(t));
    lemma_hex_digit_value(r as int / 16);
    lemma_hex_digit_value(r as int % 16);
    lemma_hex_digit_value(g as int / 16);
    lemma_hex_digit_value(g as int % 16);
    lemma_hex_digit_value(b as int / 16);
    lemma_hex_digit_value(b as int % 16);
    assert(d[0] == hex_digit(r as int / 16) as u8);
    assert(d[1] == hex_digit(r as int % 16) as u8);
    assert(d[2] == hex_digit(g as int / 16) as u8);
    assert(d[3] == hex_digit(g as int % 16) as u8);
    assert(d[4] == hex_digit(b as int / 16) as u8);
    assert(d[5] == hex_digit(b as int % 16) as u8);
}

/// The byte of the hexadecimal digit `n` (`0..16`) written in upper case.
pub open spec fn upper_hex_byte(n: int) -> u8 {
    if n < 10 {
        (0x30 + n) as u8
    } else {
        (0x41 + (n - 10)) as u8
    }
}

/// The two upper-case hexadecimal digits of `b` (`{:02X}`), as bytes.
pub open spec fn upper_hex_pair(b: u8) -> Seq<u8> {
    seq![upper_hex_byte(b as int / 16), upper_hex_byte(b as int % 16)]
}

proof fn lemma_upper_hex_digit_value(n: int)
    requires
        0 <= n < 16,
    ensures
        hex_value(upper_hex_byte(n)) == Some(n as u8),
{
}

/// A colour written as six upper-case hexadecimal digits (`{:02X}` of red,
/// green and blue), with or without a leading `#`, reads back as the same
/// colour: `A` to `F` stand for 10 to 15.
pub proof fn lemma_upper_hex_color_roundtrip(r: u8, g: u8, b: u8, hash: bool)
    ensures
        ({
            let t = upper_hex_pair(r) + upper_hex_pair(g) + upper_hex_pair(b);
            let bytes = if hash { seq![0x23u8] + t } else { t };
            hex_color(bytes) == Some((r, g, b))
        }),
{
    let t = upper_hex_pair(r) + upper_hex_pair(g) + upper_hex_pair(b);
    let bytes = if hash { seq![0x23u8] + t } else { t };
    assert(color_digits(bytes) =~= t);
    lemma_upper_hex_digit_value(r as int / 16);
    lemma_upper_hex_digit_value(r as int % 16);
    lemma_upper_hex_digit_value(g as int / 16);
    lemma_upper_hex_digit_value(g as int % 16);
    lemma_upper_hex_digit_value(b as int / 16);
    lemma_upper_hex_digit_value(b as int % 16);
    assert(t[0] == upper_hex_byte(r as int / 16));
    assert(t[1] == upper_hex_byte(r as int % 16));
    assert(t[2] == upper_hex_byte(g as int / 16));
    assert(t[3] == upper_hex_byte(g as int % 16));
    assert(t[4] == upper_hex_byte(b as int / 16));
    assert(t[5] == upper_hex_byte(b as int % 16));
}

} // verus!
