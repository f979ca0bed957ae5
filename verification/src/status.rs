//! The daemon's status: live wireless devices merged with the configuration.
use vstd::prelude::*;

use crate::ipc::{FanConfig, FanReading, LedConfig, VideoConfig, WiredLcdState, WirelessFanState};
use crate::protocol::slv3h::{format_mac, mac_text, RfDeviceInfo};
use crate::text::{decimal, lemma_push_deep_view, push_decimal};

verus! {

impl DeepView for LedConfig {
    type V = (u8, u8, u8, u8, Seq<Seq<char>>);

    open spec fn deep_view(&self) -> Self::V {
        (self.mode, self.brightness, self.speed, self.direction, self.colors.deep_view())
    }
}

impl DeepView for VideoConfig {
    type V = (Seq<char>, u8);

    open spec fn deep_view(&self) -> Self::V {
        (self.path@, self.fps)
    }
}

/// The configuration of one wireless receiver, found by its MAC address.
#[derive(Debug, Clone)]
pub struct ControllerConfig {
    pub mac: String,
    pub pwm: Option<u8>,
    pub led: Option<LedConfig>,
}

/// A wireless receiver as the status reports it: live, configured, or both.
#[derive(Debug, Clone)]
pub struct ControllerStatus {
    pub mac: String,
    pub connected: bool,
    pub configured: bool,
    pub pwm: Option<u8>,
    pub led: Option<LedConfig>,
    pub fans: Vec<FanReading>,
}

impl DeepView for ControllerStatus {
    type V = (Seq<char>, bool, bool, Option<u8>, Option<(u8, u8, u8, u8, Seq<Seq<char>>)>, Seq<FanReading>);

    open spec fn deep_view(&self) -> Self::V {
        (self.mac@, self.connected, self.configured, self.pwm, self.led.deep_view(), self.fans@)
    }
}

/// An LCD fan as the status reports it: live, configured, or both.
#[derive(Debug, Clone)]
pub struct FanStatus {
    pub serial: String,
    pub connected: bool,
    pub video: Option<VideoConfig>,
    pub port: Option<u8>,
    pub lcd_index: Option<u8>,
}

impl DeepView for FanStatus {
    type V = (Seq<char>, bool, Option<(Seq<char>, u8)>, Option<u8>, Option<u8>);

    open spec fn deep_view(&self) -> Self::V {
        (self.serial@, self.connected, self.video.deep_view(), self.port, self.lcd_index)
    }
}

/// The readings of a receiver's fans: one per fan, at most four.
pub open spec fn fan_readings(dev: RfDeviceInfo) -> Seq<FanReading> {
    let n: int = if dev.fan_num < 4 { dev.fan_num as int } else { 4 };
    Seq::new(n as nat, |i: int| FanReading { rpm: dev.fan_speeds@[i], pwm: dev.fan_pwm@[i] })
}

/// A receiver from the hub's device list as the status shows it.
pub fn wireless_fan_state(dev: &RfDeviceInfo) -> (s: WirelessFanState)
    ensures
        s.mac@ == mac_text(dev.mac@),
        s.fan_count == dev.fan_num,
        s.fans@ == fan_readings(*dev),
{
    let mut fans: Vec<FanReading> = Vec::new();
    let mut i: usize = 0;
    while i < dev.fan_num as usize && i < 4
        invariant
            i <= 4,
            i <= dev.fan_num,
            fans@ == fan_readings(*dev).subrange(0, i as int),
        decreases 4 - i,
    {
        fans.push(FanReading { rpm: dev.fan_speeds[i], pwm: dev.fan_pwm[i] });
        i = i + 1;
        assert(fans@ =~= fan_readings(*dev).subrange(0, i as int));
    }
    assert(fans@ =~= fan_readings(*dev));
    WirelessFanState { mac: format_mac(&dev.mac), fan_count: dev.fan_num, fans }
}

/// The index of the first receiver in `devices` whose MAC address reads `mac`.
pub open spec fn device_index(devices: Seq<RfDeviceInfo>, mac: Seq<char>) -> Option<int>
    decreases devices.len(),
{
    if devices.len() == 0 {
        None
    } else if mac_text(devices[0].mac@) == mac {
        Some(0)
    } else {
        match device_index(devices.drop_first(), mac) {
            Some(i) => Some(i + 1),
            None => None,
        }
    }
}

proof fn lemma_device_index_step(devices: Seq<RfDeviceInfo>, mac: Seq<char>, i: int)
    requires
        0 <= i < devices.len(),
        mac_text(devices[i].mac@) != mac,
    ensures
        device_index(devices.subrange(i, devices.len() as int), mac) == (match device_index(
            devices.subrange(i + 1, devices.len() as int),
            mac,
        ) {
            Some(k) => Some(k + 1),
            None => None,
        }),
{
    let s = devices.subrange(i, devices.len() as int);
    assert(s.drop_first() =~= devices.subrange(i + 1, devices.len() as int));
}

/// Finds the receiver with the given MAC address text ("aa:bb:cc:dd:ee:ff").
pub fn find_device_by_mac(devices: &[RfDeviceInfo], mac: &String) -> (r: Option<usize>)
    ensures
        match r {
            Some(i) => device_index(devices@, mac@) == Some(i as int),
            None => device_index(devices@, mac@) is None,
        },
{
    let n = devices.len();
    let mut i: usize = n;
    // Walk from the back, so that the answer so far is always the first match
    // in the part already seen.
    let mut found: Option<usize> = None;
    assert(devices@.subrange(n as int, n as int).len() == 0);
    while i > 0
        invariant
            i <= n,
            n == devices@.len(),
            match found {
                Some(k) => i <= k < n && device_index(devices@.subrange(i as int, n as int), mac@)
                    == Some(k - i),
                None => device_index(devices@.subrange(i as int, n as int), mac@) is None,
            },
        decreases i,
    {
        i = i - 1;
        let text = format_mac(&devices[i].mac);
        let ghost s = devices@.subrange(i as int, n as int);
        assert(s[0] == devices@[i as int]);
        if text == *mac {
            found = Some(i);
        } else {
            proof {
                lemma_device_index_step(devices@, mac@, i as int);
            }
        }
    }
    assert(devices@.subrange(0, n as int) =~= devices@);
    found
}

/// The first configuration entry for the receiver whose MAC address reads `mac`.
pub open spec fn controller_config_for(cfg: Seq<ControllerConfig>, mac: Seq<char>) -> Option<
    ControllerConfig,
>
    decreases cfg.len(),
{
    if cfg.len() == 0 {
        None
    } else if cfg[0].mac@ == mac {
        Some(cfg[0])
    } else {
        controller_config_for(cfg.drop_first(), mac)
    }
}

/// Whether a receiver with MAC address `mac` is live.
pub open spec fn is_live(live: Seq<WirelessFanState>, mac: Seq<char>) -> bool {
    exists|i: int| 0 <= i < live.len() && #[trigger] live[i].mac@ == mac
}

/// A live receiver, with what its configuration entry says, if it has one.
pub open spec fn connected_controller(cfg: Seq<ControllerConfig>, d: WirelessFanState) -> (
    Seq<char>,
    bool,
    bool,
    Option<u8>,
    Option<(u8, u8, u8, u8, Seq<Seq<char>>)>,
    Seq<FanReading>,
) {
    let c = controller_config_for(cfg, d.mac@);
    (
        d.mac@,
        true,
        c is Some,
        match c {
            Some(c) => c.pwm,
            None => None,
        },
        match c {
            Some(c) => c.led.deep_view(),
            None => None,
        },
        d.fans@,
    )
}

/// A configured receiver that is not live.
pub open spec fn offline_controller(c: ControllerConfig) -> (
    Seq<char>,
    bool,
    bool,
    Option<u8>,
    Option<(u8, u8, u8, u8, Seq<Seq<char>>)>,
    Seq<FanReading>,
) {
    (c.mac@, false, true, c.pwm, c.led.deep_view(), Seq::empty())
}

/// The configured receivers that are not live, in configuration order.
pub open spec fn offline_controllers(cfg: Seq<ControllerConfig>, live: Seq<WirelessFanState>) -> Seq<
    (Seq<char>, bool, bool, Option<u8>, Option<(u8, u8, u8, u8, Seq<Seq<char>>)>, Seq<FanReading>),
>
    decreases cfg.len(),
{
    if cfg.len() == 0 {
        Seq::empty()
    } else {
        let rest = offline_controllers(cfg.drop_last(), live);
        if is_live(live, cfg.last().mac@) {
            rest
        } else {
            rest.push(offline_controller(cfg.last()))
        }
    }
}

/// Every live receiver in order, then every configured one that is not live.
pub open spec fn controller_status(cfg: Seq<ControllerConfig>, live: Seq<WirelessFanState>) -> Seq<
    (Seq<char>, bool, bool, Option<u8>, Option<(u8, u8, u8, u8, Seq<Seq<char>>)>, Seq<FanReading>),
> {
    live.map_values(|d: WirelessFanState| connected_controller(cfg, d)) + offline_controllers(
        cfg,
        live,
    )
}

fn clone_string_vec(v: &Vec<String>) -> (r: Vec<String>)
    ensures
        r.deep_view() == v.deep_view(),
{
    let mut r: Vec<String> = Vec::new();
    let mut i: usize = 0;
    while i < v.len()
        invariant
            i <= v.len(),
            r.deep_view() == v.deep_view().subrange(0, i as int),
        decreases v.len() - i,
    {
        let ghost before = r;
        let c = v[i].clone();
        r.push(c);
        proof {
            lemma_push_deep_view(before, r, c);
        }
        i = i + 1;
        assert(r.deep_view() =~= v.deep_view().subrange(0, i as int));
    }
    assert(v.deep_view().subrange(0, i as int) =~= v.deep_view());
    r
}

fn clone_led(c: &Option<LedConfig>) -> (r: Option<LedConfig>)
    ensures
        r.deep_view() == c.deep_view(),
{
    match c {
        Some(l) => Some(
            LedConfig {
                mode: l.mode,
                brightness: l.brightness,
                speed: l.speed,
                direction: l.direction,
                colors: clone_string_vec(&l.colors),
            },
        ),
        None => None,
    }
}

fn clone_video(v: &Option<VideoConfig>) -> (r: Option<VideoConfig>)
    ensures
        r.deep_view() == v.deep_view(),
{
    match v {
        Some(v) => Some(VideoConfig { path: v.path.clone(), fps: v.fps }),
        None => None,
    }
}

fn copy_readings(v: &Vec<FanReading>) -> (r: Vec<FanReading>)
    ensures
        r@ == v@,
{
    let mut r: Vec<FanReading> = Vec::new();
    let mut i: usize = 0;
    while i < v.len()
        invariant
            i <= v.len(),
            r@ == v@.subrange(0, i as int),
        decreases v.len() - i,
    {
        r.push(v[i]);
        i = i + 1;
        assert(r@ =~= v@.subrange(0, i as int));
    }
    assert(v@.subrange(0, i as int) =~= v@);
    r
}

fn find_controller_config(cfg: &[ControllerConfig], mac: &String) -> (r: Option<usize>)
    ensures
        match r {
            Some(i) => i < cfg@.len() && controller_config_for(cfg@, mac@) == Some(cfg@[i as int]),
            None => controller_config_for(cfg@, mac@) is None,
        },
{
    let n = cfg.len();
    let mut i: usize = 0;
    assert(cfg@.subrange(0, n as int) =~= cfg@);
    while i < n
        invariant
            i <= n,
            n == cfg@.len(),
            controller_config_for(cfg@, mac@) == controller_config_for(
                cfg@.subrange(i as int, n as int),
                mac@,
            ),
        decreases n - i,
    {
        let ghost s = cfg@.subrange(i as int, n as int);
        assert(s[0] == cfg@[i as int]);
        if cfg[i].mac == *mac {
            return Some(i);
        }
        assert(s.drop_first() =~= cfg@.subrange(i + 1, n as int));
        i = i + 1;
    }
    assert(cfg@.subrange(n as int, n as int).len() == 0);
    None
}

fn any_live(live: &[WirelessFanState], mac: &String) -> (b: bool)
    ensures
        b == is_live(live@, mac@),
{
    let mut i: usize = 0;
    while i < live.len()
        invariant
            i <= live@.len(),
            forall|k: int| 0 <= k < i ==> live@[k].mac@ != mac@,
        decreases live.len() - i,
    {
        if live[i].mac == *mac {
            assert(live@[i as int].mac@ == mac@);
            return true;
        }
        i = i + 1;
    }
    false
}

/// Build merged controller status from config + live data.
pub fn build_controller_status(config: &[ControllerConfig], live: &[WirelessFanState]) -> (r: Vec<
    ControllerStatus,
>)
    ensures
        r.deep_view() == controller_status(config@, live@),
{
    let mut result: Vec<ControllerStatus> = Vec::new();
    let ghost first = live@.map_values(|d: WirelessFanState| connected_controller(config@, d));
    let mut i: usize = 0;
    while i < live.len()
        invariant
            i <= live@.len(),
            first == live@.map_values(|d: WirelessFanState| connected_controller(config@, d)),
            result.deep_view() == first.subrange(0, i as int),
        decreases live.len() - i,
    {
        let dev = &live[i];
        let status = match find_controller_config(config, &dev.mac) {
            Some(k) => {
                let c = &config[k];
                ControllerStatus {
                    mac: dev.mac.clone(),
                    connected: true,
                    configured: true,
                    pwm: c.pwm,
                    led: clone_led(&c.led),
                    fans: copy_readings(&dev.fans),
                }
            },
            None => ControllerStatus {
                mac: dev.mac.clone(),
                connected: true,
                configured: false,
                pwm: None,
                led: None,
                fans: copy_readings(&dev.fans),
            },
        };
        let ghost before = result;
        let ghost pushed = status;
        result.push(status);
        proof {
            lemma_push_deep_view(before, result, pushed);
        }
        i = i + 1;
        assert(result.deep_view() =~= first.subrange(0, i as int));
    }
    assert(first.subrange(0, i as int) =~= first);
    let mut j: usize = 0;
    while j < config.len()
        invariant
            i == live@.len(),
            j <= config@.len(),
            result.deep_view() == first + offline_controllers(
                config@.subrange(0, j as int),
                live@,
            ),
        decreases config.len() - j,
    {
        let c = &config[j];
        let ghost prefix = config@.subrange(0, j + 1);
        proof {
            assert(prefix.drop_last() =~= config@.subrange(0, j as int));
            assert(prefix.last() == config@[j as int]);
        }
        if !any_live(live, &c.mac) {
            let status = ControllerStatus {
                mac: c.mac.clone(),
                connected: false,
                configured: true,
                pwm: c.pwm,
                led: clone_led(&c.led),
                fans: Vec::new(),
            };
            let ghost before = result;
            let ghost pushed = status;
            result.push(status);
            proof {
                lemma_push_deep_view(before, result, pushed);
            }
            assert(result.deep_view() =~= first + offline_controllers(prefix, live@));
        }
        j = j + 1;
    }
    assert(config@.subrange(0, j as int) =~= config@);
    result
}

/// The first configuration entry for the wireless LCD with this serial.
pub open spec fn fan_config_for_serial(cfg: Seq<FanConfig>, serial: Seq<char>) -> Option<FanConfig>
    decreases cfg.len(),
{
    if cfg.len() == 0 {
        None
    } else if cfg[0].serial@ == serial {
        Some(cfg[0])
    } else {
        fan_config_for_serial(cfg.drop_first(), serial)
    }
}

/// The first configuration entry for the wired LCD at this chain position.
pub open spec fn fan_config_for_position(cfg: Seq<FanConfig>, port: u8, lcd_index: u8) -> Option<
    FanConfig,
>
    decreases cfg.len(),
{
    if cfg.len() == 0 {
        None
    } else if cfg[0].port == Some(port) && cfg[0].lcd_index == Some(lcd_index) {
        Some(cfg[0])
    } else {
        fan_config_for_position(cfg.drop_first(), port, lcd_index)
    }
}

/// The name under which a wired LCD is listed: `wired:<port>:<index>`.
pub open spec fn wired_name(port: u8, lcd_index: u8) -> Seq<char> {
    "wired:"@ + decimal(port as nat) + ":"@ + decimal(lcd_index as nat)
}

/// What a configuration entry says of a video, if there is an entry.
pub open spec fn video_of(c: Option<FanConfig>) -> Option<(Seq<char>, u8)> {
    match c {
        Some(c) => c.video.deep_view(),
        None => None,
    }
}

/// A connected wireless LCD.
pub open spec fn wireless_fan(cfg: Seq<FanConfig>, serial: String) -> (
    Seq<char>,
    bool,
    Option<(Seq<char>, u8)>,
    Option<u8>,
    Option<u8>,
) {
    (serial@, true, video_of(fan_config_for_serial(cfg, serial@)), None, None)
}

/// A connected wired LCD.
pub open spec fn wired_fan(cfg: Seq<FanConfig>, w: WiredLcdState) -> (
    Seq<char>,
    bool,
    Option<(Seq<char>, u8)>,
    Option<u8>,
    Option<u8>,
) {
    (
        wired_name(w.port, w.lcd_index),
        true,
        video_of(fan_config_for_position(cfg, w.port, w.lcd_index)),
        Some(w.port),
        Some(w.lcd_index),
    )
}

/// Whether a wireless LCD with this serial is connected.
pub open spec fn serial_connected(serials: Seq<String>, serial: Seq<char>) -> bool {
    exists|i: int| 0 <= i < serials.len() && #[trigger] serials[i]@ == serial
}

/// The configured LCDs (with a serial) that are not connected, in order.
pub open spec fn offline_fans(cfg: Seq<FanConfig>, serials: Seq<String>) -> Seq<
    (Seq<char>, bool, Option<(Seq<char>, u8)>, Option<u8>, Option<u8>),
>
    decreases cfg.len(),
{
    if cfg.len() == 0 {
        Seq::empty()
    } else {
        let rest = offline_fans(cfg.drop_last(), serials);
        let c = cfg.last();
        if c.serial@.len() == 0 || serial_connected(serials, c.serial@) {
            rest
        } else {
            rest.push((c.serial@, false, c.video.deep_view(), c.port, c.lcd_index))
        }
    }
}

/// Connected wireless LCDs, then connected wired LCDs, then configured LCDs
/// that are not connected.
pub open spec fn fan_status(
    cfg: Seq<FanConfig>,
    serials: Seq<String>,
    wired: Seq<WiredLcdState>,
) -> Seq<(Seq<char>, bool, Option<(Seq<char>, u8)>, Option<u8>, Option<u8>)> {
    serials.map_values(|s: String| wireless_fan(cfg, s)) + wired.map_values(
        |w: WiredLcdState| wired_fan(cfg, w),
    ) + offline_fans(cfg, serials)
}

fn find_fan_config_by_serial(cfg: &[FanConfig], serial: &String) -> (r: Option<usize>)
    ensures
        match r {
            Some(i) => i < cfg@.len() && fan_config_for_serial(cfg@, serial@) == Some(
                cfg@[i as int],
            ),
            None => fan_config_for_serial(cfg@, serial@) is None,
        },
{
    let n = cfg.len();
    let mut i: usize = 0;
    assert(cfg@.subrange(0, n as int) =~= cfg@);
    while i < n
        invariant
            i <= n,
            n == cfg@.len(),
            fan_config_for_serial(cfg@, serial@) == fan_config_for_serial(
                cfg@.subrange(i as int, n as int),
                serial@,
            ),
        decreases n - i,
    {
        let ghost s = cfg@.subrange(i as int, n as int);
        assert(s[0] == cfg@[i as int]);
        if cfg[i].serial == *serial {
            return Some(i);
        }
        assert(s.drop_first() =~= cfg@.subrange(i + 1, n as int));
        i = i + 1;
    }
    assert(cfg@.subrange(n as int, n as int).len() == 0);
    None
}

fn find_fan_config_by_position(cfg: &[FanConfig], port: u8, lcd_index: u8) -> (r: Option<usize>)
    ensures
        match r {
            Some(i) => i < cfg@.len() && fan_config_for_position(cfg@, port, lcd_index) == Some(
                cfg@[i as int],
            ),
            None => fan_config_for_position(cfg@, port, lcd_index) is None,
        },
{
    let n = cfg.len();
    let mut i: usize = 0;
    assert(cfg@.subrange(0, n as int) =~= cfg@);
    while i < n
        invariant
            i <= n,
            n == cfg@.len(),
            fan_config_for_position(cfg@, port, lcd_index) == fan_config_for_position(
                cfg@.subrange(i as int, n as int),
                port,
                lcd_index,
            ),
        decreases n - i,
    {
        let ghost s = cfg@.subrange(i as int, n as int);
        assert(s[0] == cfg@[i as int]);
        if cfg[i].port == Some(port) && cfg[i].lcd_index == Some(lcd_index) {
            return Some(i);
        }
        assert(s.drop_first() =~= cfg@.subrange(i + 1, n as int));
        i = i + 1;
    }
    assert(cfg@.subrange(n as int, n as int).len() == 0);
    None
}

fn any_serial(serials: &[String], serial: &String) -> (b: bool)
    ensures
        b == serial_connected(serials@, serial@),
{
    let mut i: usize = 0;
    while i < serials.len()
        invariant
            i <= serials@.len(),
            forall|k: int| 0 <= k < i ==> serials@[k]@ != serial@,
        decreases serials.len() - i,
    {
        if serials[i] == *serial {
            assert(serials@[i as int]@ == serial@);
            return true;
        }
        i = i + 1;
    }
    false
}

/// The name of a wired LCD in the status.
pub fn wired_lcd_name(port: u8, lcd_index: u8) -> (s: String)
    ensures
        s@ == wired_name(port, lcd_index),
{
    let mut s = String::from_str("wired:");
    push_decimal(&mut s, port as u64);
    s.append(":");
    push_decimal(&mut s, lcd_index as u64);
    s
}

/// Build merged fan/LCD status from config + live LCD data.
pub fn build_fan_status(
    config: &[FanConfig],
    lcd_serials: &[String],
    wired_lcds: &[WiredLcdState],
) -> (r: Vec<FanStatus>)
    ensures
        r.deep_view() == fan_status(config@, lcd_serials@, wired_lcds@),
{
    let mut result: Vec<FanStatus> = Vec::new();
    let ghost first = lcd_serials@.map_values(|s: String| wireless_fan(config@, s));
    let ghost second = wired_lcds@.map_values(|w: WiredLcdState| wired_fan(config@, w));
    let mut i: usize = 0;
    while i < lcd_serials.len()
        invariant
            i <= lcd_serials@.len(),
            first == lcd_serials@.map_values(|s: String| wireless_fan(config@, s)),
            result.deep_view() == first.subrange(0, i as int),
        decreases lcd_serials.len() - i,
    {
        let serial = &lcd_serials[i];
        let video = match find_fan_config_by_serial(config, serial) {
            Some(k) => clone_video(&config[k].video),
            None => None,
        };
        let status = FanStatus {
            serial: serial.clone(),
            connected: true,
            video,
            port: None,
            lcd_index: None,
        };
        let ghost before = result;
        let ghost pushed = status;
        result.push(status);
        proof {
            lemma_push_deep_view(before, result, pushed);
        }
        i = i + 1;
        assert(result.deep_view() =~= first.subrange(0, i as int));
    }
    assert(first.subrange(0, i as int) =~= first);
    let mut w: usize = 0;
    while w < wired_lcds.len()
        invariant
            w <= wired_lcds@.len(),
            second == wired_lcds@.map_values(|w: WiredLcdState| wired_fan(config@, w)),
            result.deep_view() == first + second.subrange(0, w as int),
        decreases wired_lcds.len() - w,
    {
        let lcd = wired_lcds[w];
        let video = match find_fan_config_by_position(config, lcd.port, lcd.lcd_index) {
            Some(k) => clone_video(&config[k].video),
            None => None,
        };
        let status = FanStatus {
            serial: wired_lcd_name(lcd.port, lcd.lcd_index),
            connected: true,
            video,
            port: Some(lcd.port),
            lcd_index: Some(lcd.lcd_index),
        };
        let ghost before = result;
        let ghost pushed = status;
        result.push(status);
        proof {
            lemma_push_deep_view(before, result, pushed);
        }
        w = w + 1;
        assert(result.deep_view() =~= first + second.subrange(0, w as int));
    }
    assert(second.subrange(0, w as int) =~= second);
    let mut j: usize = 0;
    while j < config.len()
        invariant
            j <= config@.len(),
            result.deep_view() == first + second + offline_fans(
                config@.subrange(0, j as int),
                lcd_serials@,
            ),
        decreases config.len() - j,
    {
        let c = &config[j];
        let ghost prefix = config@.subrange(0, j + 1);
        proof {
            assert(prefix.drop_last() =~= config@.subrange(0, j as int));
            assert(prefix.last() == config@[j as int]);
        }
        if !c.serial.as_str().is_empty() && !any_serial(lcd_serials, &c.serial) {
            let status = FanStatus {
                serial: c.serial.clone(),
                connected: false,
                video: clone_video(&c.video),
                port: c.port,
                lcd_index: c.lcd_index,
            };
            let ghost before = result;
            let ghost pushed = status;
            result.push(status);
            proof {
                lemma_push_deep_view(before, result, pushed);
            }
            assert(result.deep_view() =~= first + second + offline_fans(prefix, lcd_serials@));
        }
        j = j + 1;
    }
    assert(config@.subrange(0, j as int) =~= config@);
    result
}

/// Looking a receiver up by the text of its own MAC address finds a
/// receiver with exactly that MAC address, at or before it in the list.
pub proof fn lemma_find_by_own_mac(devices: Seq<RfDeviceInfo>, i: int)
    requires
        0 <= i < devices.len(),
    ensures
        device_index(devices, mac_text(devices[i].mac@)) matches Some(k) && 0 <= k <= i
            && devices[k].mac@ == devices[i].mac@,
    decreases i,
{
    let t = mac_text(devices[i].mac@);
    if mac_text(devices[0].mac@) == t {
        crate::protocol::slv3h::lemma_mac_text_injective(devices[0].mac@, devices[i].mac@);
    } else {
        let rest = devices.drop_first();
        assert(rest[i - 1] == devices[i]);
        lemma_find_by_own_mac(rest, i - 1);
    }
}

proof fn lemma_first_controller_entry(cfg: Seq<ControllerConfig>, mac: Seq<char>, j: int)
    requires
        0 <= j < cfg.len(),
        cfg[j].mac@ == mac,
        forall|k: int| 0 <= k < j ==> (#[trigger] cfg[k]).mac@ != mac,
    ensures
        controller_config_for(cfg, mac) == Some(cfg[j]),
    decreases j,
{
    if j > 0 {
        let rest = cfg.drop_first();
        assert forall|k: int| 0 <= k < j - 1 implies (#[trigger] rest[k]).mac@ != mac by {
            assert(rest[k] == cfg[k + 1]);
        }
        assert(cfg[0].mac@ != mac);
        lemma_first_controller_entry(rest, mac, j - 1);
        assert(rest[j - 1] == cfg[j]);
    }
}

proof fn lemma_no_controller_entry(cfg: Seq<ControllerConfig>, mac: Seq<char>)
    requires
        forall|k: int| 0 <= k < cfg.len() ==> (#[trigger] cfg[k]).mac@ != mac,
    ensures
        controller_config_for(cfg, mac) is None,
    decreases cfg.len(),
{
    if cfg.len() > 0 {
        let rest = cfg.drop_first();
        assert(cfg[0].mac@ != mac);
        assert forall|k: int| 0 <= k < rest.len() implies (#[trigger] rest[k]).mac@ != mac by {
            assert(rest[k] == cfg[k + 1]);
        }
        lemma_no_controller_entry(rest, mac);
    }
}

/// Each live receiver stands in the status at its own place, live, with its
/// fan readings. When a configuration entry names it (the first such entry
/// counts), the status carries that entry's fan speed and LED effect, as it
/// does for a configured receiver that is offline; when none does, it is
/// reported unconfigured, with neither.
pub proof fn lemma_live_receiver_status(
    cfg: Seq<ControllerConfig>,
    live: Seq<WirelessFanState>,
    i: int,
    j: int,
)
    requires
        0 <= i < live.len(),
    ensures
        ({
            let st = controller_status(cfg, live)[i];
            &&& st.0 == live[i].mac@
            &&& st.1
            &&& st.5 == live[i].fans@
            &&& (0 <= j < cfg.len() && cfg[j].mac@ == live[i].mac@ && (forall|k: int|
                0 <= k < j ==> (#[trigger] cfg[k]).mac@ != live[i].mac@)) ==> {
                &&& st.2
                &&& st.3 == cfg[j].pwm
                &&& st.4 == cfg[j].led.deep_view()
            }
            &&& (forall|k: int| 0 <= k < cfg.len() ==> (#[trigger] cfg[k]).mac@ != live[i].mac@)
                ==> (!st.2 && st.3 is None && st.4 is None)
        }),
{
    let first = live.map_values(|d: WirelessFanState| connected_controller(cfg, d));
    assert(controller_status(cfg, live)[i] == first[i]);
    if 0 <= j < cfg.len() && cfg[j].mac@ == live[i].mac@ && (forall|k: int|
        0 <= k < j ==> (#[trigger] cfg[k]).mac@ != live[i].mac@) {
        lemma_first_controller_entry(cfg, live[i].mac@, j);
    }
    if forall|k: int| 0 <= k < cfg.len() ==> (#[trigger] cfg[k]).mac@ != live[i].mac@ {
        lemma_no_controller_entry(cfg, live[i].mac@);
    }
}

} // verus!
