//! What the daemon does with its configuration file: which entries apply to
//! which connected LCD, which LED effects to send and which videos to play.
use vstd::prelude::*;

use crate::ipc::{FanConfig, LedConfig, VideoConfig, WiredLcdState};
use crate::report::has_config;
use crate::status::serial_connected;
use crate::text::lemma_push_deep_view;

verus! {

/// The index of the first connected wireless LCD with this serial.
pub open spec fn serial_index(serials: Seq<String>, serial: Seq<char>) -> Option<int>
    decreases serials.len(),
{
    if serials.len() == 0 {
        None
    } else if serials[0]@ == serial {
        Some(0)
    } else {
        match serial_index(serials.drop_first(), serial) {
            Some(i) => Some(i + 1),
            None => None,
        }
    }
}

/// The serials of entries that name a wireless LCD that is not connected,
/// in configuration order.
pub open spec fn unknown_serials(cfg: Seq<FanConfig>, serials: Seq<String>) -> Seq<Seq<char>>
    decreases cfg.len(),
{
    if cfg.len() == 0 {
        Seq::empty()
    } else {
        let rest = unknown_serials(cfg.drop_last(), serials);
        let c = cfg.last();
        if c.serial@.len() > 0 && !serial_connected(serials, c.serial@) {
            rest.push(c.serial@)
        } else {
            rest
        }
    }
}

/// The connected wireless LCDs that no entry names, in connection order.
pub open spec fn unconfigured(cfg: Seq<FanConfig>, serials: Seq<String>) -> Seq<Seq<char>>
    decreases serials.len(),
{
    if serials.len() == 0 {
        Seq::empty()
    } else {
        let rest = unconfigured(cfg, serials.drop_last());
        if has_config(cfg, serials.last()@) {
            rest
        } else {
            rest.push(serials.last()@)
        }
    }
}

/// The LED effects to send: each entry with both a receiver MAC address
/// and an effect, in configuration order.
pub open spec fn led_effects(cfg: Seq<FanConfig>) -> Seq<
    (Seq<char>, (u8, u8, u8, u8, Seq<Seq<char>>)),
>
    decreases cfg.len(),
{
    if cfg.len() == 0 {
        Seq::empty()
    } else {
        let rest = led_effects(cfg.drop_last());
        let c = cfg.last();
        match (c.mac, c.led) {
            (Some(m), Some(l)) => rest.push((m@, l.deep_view())),
            _ => rest,
        }
    }
}

/// How many entries have an empty serial (they name no wireless LCD).
pub open spec fn empty_serials(cfg: Seq<FanConfig>) -> nat
    decreases cfg.len(),
{
    if cfg.len() == 0 {
        0
    } else {
        empty_serials(cfg.drop_last()) + if cfg.last().serial@.len() == 0 {
            1nat
        } else {
            0nat
        }
    }
}

/// The videos to play: for each entry with a serial of a connected LCD and
/// a video, that LCD's index and the video, in configuration order.
pub open spec fn wireless_videos(cfg: Seq<FanConfig>, serials: Seq<String>) -> Seq<
    (usize, (Seq<char>, u8)),
>
    decreases cfg.len(),
{
    if cfg.len() == 0 {
        Seq::empty()
    } else {
        let rest = wireless_videos(cfg.drop_last(), serials);
        let c = cfg.last();
        if c.serial@.len() == 0 {
            rest
        } else {
            match (serial_index(serials, c.serial@), c.video) {
                (Some(i), Some(v)) => rest.push((i as usize, v.deep_view())),
                _ => rest,
            }
        }
    }
}

/// What the configuration asks of the wireless LCDs and receivers.
#[derive(Debug)]
pub struct WirelessPlan {
    /// Serials of entries whose LCD is not connected.
    pub unknown_serials: Vec<String>,
    /// Serials of connected LCDs that no entry names.
    pub unconfigured: Vec<String>,
    /// LED effects by receiver MAC address.
    pub leds: Vec<(String, LedConfig)>,
    /// Entries skipped for an empty serial.
    pub empty_serial_entries: usize,
    /// Videos by index of the connected LCD.
    pub videos: Vec<(usize, VideoConfig)>,
}

fn clone_led_config(l: &LedConfig) -> (r: LedConfig)
    ensures
        r.deep_view() == l.deep_view(),
{
    let mut colors: Vec<String> = Vec::new();
    let mut i: usize = 0;
    while i < l.colors.len()
        invariant
            i <= l.colors@.len(),
            colors.deep_view() == l.colors.deep_view().subrange(0, i as int),
        decreases l.colors@.len() - i,
    {
        let ghost before = colors;
        let c = l.colors[i].clone();
        colors.push(c);
        proof {
            lemma_push_deep_view(before, colors, c);
        }
        i = i + 1;
        assert(colors.deep_view() =~= l.colors.deep_view().subrange(0, i as int));
    }
    assert(l.colors.deep_view().subrange(0, i as int) =~= l.colors.deep_view());
    LedConfig {
        mode: l.mode,
        brightness: l.brightness,
        speed: l.speed,
        direction: l.direction,
        colors,
    }
}

fn find_serial(serials: &[String], serial: &String) -> (r: Option<usize>)
    ensures
        match r {
            Some(i) => serial_index(serials@, serial@) == Some(i as int),
            None => serial_index(serials@, serial@) is None,
        },
{
    let n = serials.len();
    let mut i: usize = 0;
    assert(serials@.subrange(0, n as int) =~= serials@);
    while i < n
        invariant
            i <= n,
            n == serials@.len(),
            serial_index(serials@, serial@) == match serial_index(
                serials@.subrange(i as int, n as int),
                serial@,
            ) {
                Some(k) => Some(k + i),
                None => None,
            },
        decreases n - i,
    {
        let ghost s = serials@.subrange(i as int, n as int);
        assert(s[0] == serials@[i as int]);
        if serials[i] == *serial {
            return Some(i);
        }
        assert(s.drop_first() =~= serials@.subrange(i + 1, n as int));
        i = i + 1;
    }
    assert(serials@.subrange(n as int, n as int).len() == 0);
    None
}

fn any_serial(serials: &[String], serial: &String) -> (b: bool)
    ensures
        b == serial_connected(serials@, serial@),
{
    let mut i: usize = 0;
    while i < serials.len()
        invariant
            i <= serials@.len(),
            forall|k: int| 0 <= k < i ==> serials@[k]@ != serial@,
        decreases serials.len() - i,
    {
        if serials[i] == *serial {
            assert(serials@[i as int]@ == serial@);
            return true;
        }
        i = i + 1;
    }
    false
}

fn any_config(cfg: &[FanConfig], serial: &String) -> (b: bool)
    ensures
        b == has_config(cfg@, serial@),
{
    let mut i: usize = 0;
    while i < cfg.len()
        invariant
            i <= cfg@.len(),
            forall|k: int| 0 <= k < i ==> cfg@[k].serial@ != serial@,
        decreases cfg.len() - i,
    {
        if cfg[i].serial == *serial {
            assert(cfg@[i as int].serial@ == serial@);
            return true;
        }
        i = i + 1;
    }
    false
}

/// Plans what the configuration asks of the wireless devices, given the
/// serials of the connected wireless LCDs in order.
pub fn plan_config_wireless(cfg: &[FanConfig], serials: &[String]) -> (p: WirelessPlan)
    ensures
        p.unknown_serials.deep_view() == unknown_serials(cfg@, serials@),
        p.unconfigured.deep_view() == unconfigured(cfg@, serials@),
        p.leds.deep_view() == led_effects(cfg@),
        p.empty_serial_entries == empty_serials(cfg@),
        p.videos.deep_view() == wireless_videos(cfg@, serials@),
{
    let mut unknown: Vec<String> = Vec::new();
    let mut leds: Vec<(String, LedConfig)> = Vec::new();
    let mut empty: usize = 0;
    let mut videos: Vec<(usize, VideoConfig)> = Vec::new();
    let mut j: usize = 0;
    while j < cfg.len()
        invariant
            j <= cfg@.len(),
            empty <= j,
            unknown.deep_view() == unknown_serials(cfg@.subrange(0, j as int), serials@),
            leds.deep_view() == led_effects(cfg@.subrange(0, j as int)),
            empty == empty_serials(cfg@.subrange(0, j as int)),
            videos.deep_view() == wireless_videos(cfg@.subrange(0, j as int), serials@),
        decreases cfg.len() - j,
    {
        let c = &cfg[j];
        let ghost prefix = cfg@.subrange(0, j + 1);
        proof {
            assert(prefix.drop_last() =~= cfg@.subrange(0, j as int));
            assert(prefix.last() == cfg@[j as int]);
        }
        let is_empty = c.serial.as_str().is_empty();
        if !is_empty && !any_serial(serials, &c.serial) {
            let ghost before = unknown;
            let s = c.serial.clone();
            unknown.push(s);
            proof {
                lemma_push_deep_view(before, unknown, s);
            }
        }
        match (&c.mac, &c.led) {
            (Some(m), Some(l)) => {
                let ghost before = leds;
                let item = (m.clone(), clone_led_config(l));
                let ghost pushed = item;
                leds.push(item);
                proof {
                    lemma_push_deep_view(before, leds, pushed);
                }
            },
            _ => {},
        }
        if is_empty {
            empty = empty + 1;
        } else {
            match (find_serial(serials, &c.serial), &c.video) {
                (Some(i), Some(v)) => {
                    let ghost before = videos;
                    let item = (i, VideoConfig { path: v.path.clone(), fps: v.fps });
                    let ghost pushed = item;
                    videos.push(item);
                    proof {
                        lemma_push_deep_view(before, videos, pushed);
                    }
                },
                _ => {},
            }
        }
        j = j + 1;
    }
    assert(cfg@.subrange(0, j as int) =~= cfg@);
    let mut unconf: Vec<String> = Vec::new();
    let mut i: usize = 0;
    while i < serials.len()
        invariant
            i <= serials@.len(),
            unconf.deep_view() == unconfigured(cfg@, serials@.subrange(0, i as int)),
        decreases serials.len() - i,
    {
        let ghost prefix = serials@.subrange(0, i + 1);
        proof {
            assert(prefix.drop_last() =~= serials@.subrange(0, i as int));
            assert(prefix.last() == serials@[i as int]);
        }
        if !any_config(cfg, &serials[i]) {
            let ghost before = unconf;
            let s = serials[i].clone();
            unconf.push(s);
            proof {
                lemma_push_deep_view(before, unconf, s);
            }
        }
        i = i + 1;
    }
    assert(serials@.subrange(0, i as int) =~= serials@);
    WirelessPlan {
        unknown_serials: unknown,
        unconfigured: unconf,
        leds,
        empty_serial_entries: empty,
        videos,
    }
}

/// What a configuration entry means for the wired LCDs.
#[derive(Debug, Clone, Copy, PartialEq, Eq, Structural)]
pub enum WiredEntry {
    /// No port: the entry is skipped.
    NoPort,
    /// A port but no LCD index: the entry is skipped.
    NoIndex,
    /// No connected wired LCD at that place in the chain.
    NotFound { port: u8, lcd_index: u8 },
    /// The LCD is there, and the entry names no video.
    NoVideo,
    /// The LCD is there: play the entry's video.
    Play,
}

/// Whether a wired LCD sits at this place in the chain.
pub open spec fn position_connected(positions: Seq<WiredLcdState>, port: u8, lcd_index: u8) -> bool {
    exists|i: int|
        0 <= i < positions.len() && #[trigger] positions[i].port == port && positions[i].lcd_index
            == lcd_index
}

/// What an entry means for the wired LCDs at `positions`.
pub open spec fn wired_entry_spec(c: FanConfig, positions: Seq<WiredLcdState>) -> WiredEntry {
    if c.port is None {
        WiredEntry::NoPort
    } else if c.lcd_index is None {
        WiredEntry::NoIndex
    } else if !position_connected(positions, c.port->0, c.lcd_index->0) {
        WiredEntry::NotFound { port: c.port->0, lcd_index: c.lcd_index->0 }
    } else if c.video is Some {
        WiredEntry::Play
    } else {
        WiredEntry::NoVideo
    }
}

/// Tells what a configuration entry means for the wired LCDs at
/// `positions`. The daemon plays the video of the first entry that gives
/// `Play`, and no other.
pub fn wired_entry(c: &FanConfig, positions: &[WiredLcdState]) -> (e: WiredEntry)
    ensures
        e == wired_entry_spec(*c, positions@),
{
    let p = match c.port {
        None => return WiredEntry::NoPort,
        Some(p) => p,
    };
    let i = match c.lcd_index {
        None => return WiredEntry::NoIndex,
        Some(i) => i,
    };
    assert(c.port == Some(p) && c.lcd_index == Some(i));
    let mut k: usize = 0;
    while k < positions.len()
        invariant
            k <= positions@.len(),
            c.port == Some(p),
            c.lcd_index == Some(i),
            forall|m: int|
                0 <= m < k ==> !(positions@[m].port == p && positions@[m].lcd_index == i),
        decreases positions.len() - k,
    {
        if positions[k].port == p && positions[k].lcd_index == i {
            assert(positions@[k as int].port == p && positions@[k as int].lcd_index == i);
            assert(position_connected(positions@, p, i));
            return match &c.video {
                Some(_) => WiredEntry::Play,
                None => WiredEntry::NoVideo,
            };
        }
        k = k + 1;
    }
    WiredEntry::NotFound { port: p, lcd_index: i }
}

} // verus!
