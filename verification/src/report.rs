//! The text that the control tool prints for the daemon's status.
use vstd::prelude::*;

use crate::ipc::{DaemonStatus, DisplayState, FanConfig, FanReading, VideoConfig, WirelessFanState, WirelessLcdState};
use crate::text::{decimal, lemma_push_deep_view, push_decimal};

verus! {

/// Uptime as hours and minutes, minutes and seconds, or seconds.
pub open spec fn uptime_text(secs: nat) -> Seq<char> {
    if secs >= 3600 {
        decimal(secs / 3600) + "h "@ + decimal((secs % 3600) / 60) + "m"@
    } else if secs >= 60 {
        decimal(secs / 60) + "m "@ + decimal(secs % 60) + "s"@
    } else {
        decimal(secs) + "s"@
    }
}

/// Writes an uptime: `2h 5m`, `3m 7s` or `42s`.
pub fn format_uptime(secs: u64) -> (s: String)
    ensures
        s@ == uptime_text(secs as nat),
{
    let mut s = String::new();
    if secs >= 3600 {
        push_decimal(&mut s, secs / 3600);
        s.append("h ");
        push_decimal(&mut s, (secs % 3600) / 60);
        s.append("m");
    } else if secs >= 60 {
        push_decimal(&mut s, secs / 60);
        s.append("m ");
        push_decimal(&mut s, secs % 60);
        s.append("s");
    } else {
        push_decimal(&mut s, secs);
        s.append("s");
    }
    s
}

/// The text of an optional string, or `missing` when there is none.
pub open spec fn opt_text(s: Option<String>, missing: Seq<char>) -> Seq<char> {
    match s {
        Some(s) => s@,
        None => missing,
    }
}

fn push_opt(s: &mut String, o: &Option<String>, missing: &str)
    ensures
        final(s)@ == old(s)@ + opt_text(*o, missing@),
{
    match o {
        Some(t) => s.append(t.as_str()),
        None => s.append(missing),
    }
}

/// What the display is showing: `idle`, `image <source>`, `video <source>`
/// with ` @ <fps>fps` and ` (looping)` where they apply, or the mode itself.
pub open spec fn display_text(d: DisplayState) -> Seq<char> {
    if d.mode@ == "idle"@ {
        "idle"@
    } else if d.mode@ == "image"@ {
        "image "@ + opt_text(d.source, "?"@)
    } else if d.mode@ == "video"@ {
        "video "@ + opt_text(d.source, "?"@) + match d.fps {
            Some(f) => " @ "@ + decimal(f as nat) + "fps"@,
            None => ""@,
        } + if d.looping {
            " (looping)"@
        } else {
            ""@
        }
    } else {
        d.mode@
    }
}

/// Describes what the display is showing.
pub fn display_description(d: &DisplayState) -> (s: String)
    ensures
        s@ == display_text(*d),
{
    if d.mode == String::from_str("idle") {
        String::from_str("idle")
    } else if d.mode == String::from_str("image") {
        let mut s = String::from_str("image ");
        push_opt(&mut s, &d.source, "?");
        s
    } else if d.mode == String::from_str("video") {
        let mut s = String::from_str("video ");
        push_opt(&mut s, &d.source, "?");
        match d.fps {
            Some(f) => {
                s.append(" @ ");
                push_decimal(&mut s, f as u64);
                s.append("fps");
            },
            None => {
                proof {
                    reveal_strlit("");
                    assert(s@ + ""@ =~= s@);
                }
            },
        }
        if d.looping {
            s.append(" (looping)");
        } else {
            proof {
                reveal_strlit("");
                assert(s@ + ""@ =~= s@);
            }
        }
        s
    } else {
        d.mode.clone()
    }
}

/// How many LCDs there are: wireless ones if any, else wired ones, else none.
pub open spec fn lcd_summary(wireless: nat, wired: nat) -> Seq<char> {
    if wireless > 0 {
        decimal(wireless) + " wireless"@
    } else if wired > 0 {
        decimal(wired) + " wired"@
    } else {
        "none"@
    }
}

/// One line per wireless LCD with its serial.
pub open spec fn serial_lines(lcds: Seq<WirelessLcdState>) -> Seq<Seq<char>> {
    Seq::new(
        lcds.len(),
        |i: int| "    LCD "@ + decimal(i as nat) + ": serial="@ + opt_text(lcds[i].serial, "(none)"@),
    )
}

/// One line per fan of a receiver with its speed and duty.
pub open spec fn fan_lines(fans: Seq<FanReading>) -> Seq<Seq<char>> {
    Seq::new(
        fans.len(),
        |i: int|
            "      Fan "@ + decimal(i as nat) + ": RPM="@ + decimal(fans[i].rpm as nat) + ", PWM="@
                + decimal(fans[i].pwm as nat),
    )
}

/// For each receiver a line with its MAC address, then its fans.
pub open spec fn receiver_lines(devs: Seq<WirelessFanState>) -> Seq<Seq<char>>
    decreases devs.len(),
{
    if devs.len() == 0 {
        Seq::empty()
    } else {
        receiver_lines(devs.drop_last()) + seq!["    Receiver "@ + devs.last().mac@] + fan_lines(
            devs.last().fans@,
        )
    }
}

/// Whether a wireless LCD with this serial is connected.
pub open spec fn serial_matched(lcds: Seq<WirelessLcdState>, serial: Seq<char>) -> bool {
    exists|i: int| 0 <= i < lcds.len() && (#[trigger] lcds[i].serial matches Some(s) && s@ == serial)
}

/// The video of a configuration entry: `video <path>@<fps>fps` or `no video`.
pub open spec fn video_text(v: Option<VideoConfig>) -> Seq<char> {
    match v {
        Some(v) => "video "@ + v.path@ + "@"@ + decimal(v.fps as nat) + "fps"@,
        None => "no video"@,
    }
}

/// The line of a configuration entry: its video when its LCD is connected,
/// else a note (with the serial quoted) that the fan was not found.
pub open spec fn config_line(c: FanConfig, quoted: Seq<char>, matched: bool) -> Seq<char> {
    if matched {
        "    LCD "@ + c.serial@ + ": "@ + video_text(c.video)
    } else {
        "    Config "@ + quoted + ": fan not found (disconnected?)"@
    }
}

/// One line per configuration entry.
pub open spec fn config_lines(
    cfgs: Seq<FanConfig>,
    lcds: Seq<WirelessLcdState>,
    quoted: Seq<Seq<char>>,
) -> Seq<Seq<char>> {
    Seq::new(cfgs.len(), |i: int| config_line(cfgs[i], quoted[i], serial_matched(lcds, cfgs[i].serial@)))
}

/// Whether some configuration entry names this serial.
pub open spec fn has_config(cfgs: Seq<FanConfig>, serial: Seq<char>) -> bool {
    exists|i: int| 0 <= i < cfgs.len() && #[trigger] cfgs[i].serial@ == serial
}

/// The serials of connected LCDs that no configuration entry names, in order.
pub open spec fn unconfigured_serials(lcds: Seq<WirelessLcdState>, cfgs: Seq<FanConfig>) -> Seq<
    Seq<char>,
>
    decreases lcds.len(),
{
    if lcds.len() == 0 {
        Seq::empty()
    } else {
        let rest = unconfigured_serials(lcds.drop_last(), cfgs);
        match lcds.last().serial {
            Some(s) => if has_config(cfgs, s@) {
                rest
            } else {
                rest.push(s@)
            },
            None => rest,
        }
    }
}

/// One line per unconfigured LCD, pointing at the configuration file.
pub open spec fn unconfigured_lines(serials: Seq<Seq<char>>, config_path: Seq<char>) -> Seq<Seq<char>> {
    Seq::new(
        serials.len(),
        |i: int| "    LCD "@ + serials[i] + ": no config (add to "@ + config_path + ")"@,
    )
}

/// A section: a blank line and a heading before its lines, or nothing when
/// it has no lines.
pub open spec fn section(heading: Seq<char>, lines: Seq<Seq<char>>) -> Seq<Seq<char>> {
    if lines.len() == 0 {
        Seq::empty()
    } else {
        seq![""@, heading] + lines
    }
}

/// The status report, line by line; `quoted` holds each configuration
/// entry's serial as written in quotes.
pub open spec fn status_report(status: DaemonStatus, config_path: Seq<char>, quoted: Seq<Seq<char>>) -> Seq<
    Seq<char>,
> {
    let lcds = status.wireless_lcds@;
    let cfgs = status.config_fans@;
    seq![
        "unifand.service - Lian Li Uni Fan Daemon"@,
        "  Active: running (uptime: "@ + uptime_text(status.uptime_secs as nat) + ")"@,
        "  LCDs: "@ + lcd_summary(lcds.len(), status.wired_lcds@.len()),
    ] + serial_lines(lcds) + seq!["  Display: "@ + display_text(status.display)] + section(
        "  Wireless Devices:"@,
        receiver_lines(status.wireless_fans@),
    ) + section("  Fan Config:"@, config_lines(cfgs, lcds, quoted)) + section(
        "  Unconfigured LCDs:"@,
        unconfigured_lines(unconfigured_serials(lcds, cfgs), config_path),
    )
}

fn push_line(lines: &mut Vec<String>, line: String)
    ensures
        final(lines).deep_view() == old(lines).deep_view().push(line@),
{
    let ghost before = *lines;
    let ghost pushed = line;
    lines.push(line);
    proof {
        lemma_push_deep_view(before, *lines, pushed);
    }
}

fn extend_lines(lines: &mut Vec<String>, more: Vec<String>)
    ensures
        final(lines).deep_view() == old(lines).deep_view() + more.deep_view(),
{
    let ghost start = lines.deep_view();
    let mut i: usize = 0;
    while i < more.len()
        invariant
            i <= more@.len(),
            lines.deep_view() == start + more.deep_view().subrange(0, i as int),
        decreases more@.len() - i,
    {
        push_line(lines, more[i].clone());
        i = i + 1;
        assert(lines.deep_view() =~= start + more.deep_view().subrange(0, i as int));
    }
    assert(more.deep_view().subrange(0, i as int) =~= more.deep_view());
}

fn extend_section(lines: &mut Vec<String>, heading: &str, more: Vec<String>)
    ensures
        final(lines).deep_view() == old(lines).deep_view() + section(heading@, more.deep_view()),
{
    let ghost start = lines.deep_view();
    if more.len() > 0 {
        proof {
            reveal_strlit("");
        }
        let ghost m = more.deep_view();
        let blank = String::new();
        assert(blank@ =~= ""@);
        push_line(lines, blank);
        push_line(lines, String::from_str(heading));
        assert(lines.deep_view() =~= start + seq![""@, heading@]);
        extend_lines(lines, more);
        assert(lines.deep_view() =~= start + section(heading@, m));
    } else {
        assert(old(lines).deep_view() + section(heading@, more.deep_view()) =~= old(lines).deep_view());
    }
}

fn wireless_lcd_lines(lcds: &Vec<WirelessLcdState>) -> (lines: Vec<String>)
    ensures
        lines.deep_view() == serial_lines(lcds@),
{
    let mut lines: Vec<String> = Vec::new();
    let mut i: usize = 0;
    while i < lcds.len()
        invariant
            i <= lcds@.len(),
            lines.deep_view() == serial_lines(lcds@).subrange(0, i as int),
        decreases lcds@.len() - i,
    {
        let mut l = String::from_str("    LCD ");
        push_decimal(&mut l, i as u64);
        l.append(": serial=");
        push_opt(&mut l, &lcds[i].serial, "(none)");
        push_line(&mut lines, l);
        i = i + 1;
        assert(lines.deep_view() =~= serial_lines(lcds@).subrange(0, i as int));
    }
    assert(serial_lines(lcds@).subrange(0, i as int) =~= serial_lines(lcds@));
    lines
}

fn receiver_text_lines(devs: &Vec<WirelessFanState>) -> (lines: Vec<String>)
    ensures
        lines.deep_view() == receiver_lines(devs@),
{
    let mut lines: Vec<String> = Vec::new();
    let mut i: usize = 0;
    while i < devs.len()
        invariant
            i <= devs@.len(),
            lines.deep_view() == receiver_lines(devs@.subrange(0, i as int)),
        decreases devs@.len() - i,
    {
        let dev = &devs[i];
        let ghost head = lines.deep_view();
        let mut l = String::from_str("    Receiver ");
        l.append(dev.mac.as_str());
        push_line(&mut lines, l);
        let mut k: usize = 0;
        while k < dev.fans.len()
            invariant
                k <= dev.fans@.len(),
                lines.deep_view() == head + seq!["    Receiver "@ + dev.mac@] + fan_lines(
                    dev.fans@,
                ).subrange(0, k as int),
            decreases dev.fans@.len() - k,
        {
            let f = dev.fans[k];
            let mut l = String::from_str("      Fan ");
            push_decimal(&mut l, k as u64);
            l.append(": RPM=");
            push_decimal(&mut l, f.rpm as u64);
            l.append(", PWM=");
            push_decimal(&mut l, f.pwm as u64);
            push_line(&mut lines, l);
            k = k + 1;
            assert(lines.deep_view() =~= head + seq!["    Receiver "@ + dev.mac@] + fan_lines(
                dev.fans@,
            ).subrange(0, k as int));
        }
        proof {
            let sub = devs@.subrange(0, i + 1);
            assert(sub.drop_last() =~= devs@.subrange(0, i as int));
            assert(sub.last() == devs@[i as int]);
            assert(fan_lines(dev.fans@).subrange(0, k as int) =~= fan_lines(dev.fans@));
        }
        i = i + 1;
    }
    assert(devs@.subrange(0, i as int) =~= devs@);
    lines
}

fn any_matched(lcds: &Vec<WirelessLcdState>, serial: &String) -> (b: bool)
    ensures
        b == serial_matched(lcds@, serial@),
{
    let mut i: usize = 0;
    while i < lcds.len()
        invariant
            i <= lcds@.len(),
            forall|k: int| 0 <= k < i ==> !(#[trigger] lcds@[k].serial matches Some(s) && s@ == serial@),
        decreases lcds@.len() - i,
    {
        match &lcds[i].serial {
            Some(s) => {
                if *s == *serial {
                    return true;
                }
            },
            None => {},
        }
        i = i + 1;
    }
    false
}

fn video_description(v: &Option<VideoConfig>) -> (s: String)
    ensures
        s@ == video_text(*v),
{
    match v {
        Some(v) => {
            let mut s = String::from_str("video ");
            s.append(v.path.as_str());
            s.append("@");
            push_decimal(&mut s, v.fps as u64);
            s.append("fps");
            s
        },
        None => String::from_str("no video"),
    }
}

fn config_text_lines(
    cfgs: &Vec<FanConfig>,
    lcds: &Vec<WirelessLcdState>,
    quoted: &[String],
) -> (lines: Vec<String>)
    requires
        quoted@.len() == cfgs@.len(),
    ensures
        lines.deep_view() == config_lines(cfgs@, lcds@, quoted.deep_view()),
{
    let mut lines: Vec<String> = Vec::new();
    let mut i: usize = 0;
    while i < cfgs.len()
        invariant
            i <= cfgs@.len(),
            quoted@.len() == cfgs@.len(),
            lines.deep_view() == config_lines(cfgs@, lcds@, quoted.deep_view()).subrange(0, i as int),
        decreases cfgs@.len() - i,
    {
        let c = &cfgs[i];
        let l = if any_matched(lcds, &c.serial) {
            let mut l = String::from_str("    LCD ");
            l.append(c.serial.as_str());
            l.append(": ");
            let v = video_description(&c.video);
            l.append(v.as_str());
            l
        } else {
            let mut l = String::from_str("    Config ");
            l.append(quoted[i].as_str());
            l.append(": fan not found (disconnected?)");
            l
        };
        push_line(&mut lines, l);
        i = i + 1;
        assert(lines.deep_view() =~= config_lines(cfgs@, lcds@, quoted.deep_view()).subrange(
            0,
            i as int,
        ));
    }
    assert(config_lines(cfgs@, lcds@, quoted.deep_view()).subrange(0, i as int) =~= config_lines(
        cfgs@,
        lcds@,
        quoted.deep_view(),
    ));
    lines
}

fn any_config(cfgs: &Vec<FanConfig>, serial: &String) -> (b: bool)
    ensures
        b == has_config(cfgs@, serial@),
{
    let mut i: usize = 0;
    while i < cfgs.len()
        invariant
            i <= cfgs@.len(),
            forall|k: int| 0 <= k < i ==> cfgs@[k].serial@ != serial@,
        decreases cfgs@.len() - i,
    {
        if cfgs[i].serial == *serial {
            assert(cfgs@[i as int].serial@ == serial@);
            return true;
        }
        i = i + 1;
    }
    false
}

fn unconfigured_text_lines(
    lcds: &Vec<WirelessLcdState>,
    cfgs: &Vec<FanConfig>,
    config_path: &str,
) -> (lines: Vec<String>)
    ensures
        lines.deep_view() == unconfigured_lines(unconfigured_serials(lcds@, cfgs@), config_path@),
{
    let mut serials: Vec<String> = Vec::new();
    let mut i: usize = 0;
    while i < lcds.len()
        invariant
            i <= lcds@.len(),
            serials.deep_view() == unconfigured_serials(lcds@.subrange(0, i as int), cfgs@),
        decreases lcds@.len() - i,
    {
        proof {
            let sub = lcds@.subrange(0, i + 1);
            assert(sub.drop_last() =~= lcds@.subrange(0, i as int));
            assert(sub.last() == lcds@[i as int]);
        }
        match &lcds[i].serial {
            Some(s) => {
                if !any_config(cfgs, s) {
                    push_line(&mut serials, s.clone());
                }
            },
            None => {},
        }
        i = i + 1;
    }
    assert(lcds@.subrange(0, i as int) =~= lcds@);
    let ghost us = serials.deep_view();
    let mut lines: Vec<String> = Vec::new();
    let mut k: usize = 0;
    while k < serials.len()
        invariant
            k <= serials@.len(),
            us == serials.deep_view(),
            lines.deep_view() == unconfigured_lines(us, config_path@).subrange(0, k as int),
        decreases serials@.len() - k,
    {
        let mut l = String::from_str("    LCD ");
        l.append(serials[k].as_str());
        l.append(": no config (add to ");
        l.append(config_path);
        l.append(")");
        push_line(&mut lines, l);
        k = k + 1;
        assert(lines.deep_view() =~= unconfigured_lines(us, config_path@).subrange(0, k as int));
    }
    assert(unconfigured_lines(us, config_path@).subrange(0, k as int) =~= unconfigured_lines(
        us,
        config_path@,
    ));
    lines
}

/// Renders the status report, given each configuration entry's serial as
/// written in quotes.
pub fn render_status(status: &DaemonStatus, config_path: &str, quoted: &[String]) -> (lines: Vec<
    String,
>)
    requires
        quoted@.len() == status.config_fans@.len(),
    ensures
        lines.deep_view() == status_report(*status, config_path@, quoted.deep_view()),
{
    let ghost lcds = status.wireless_lcds@;
    let ghost cfgs = status.config_fans@;
    let mut lines: Vec<String> = Vec::new();
    push_line(&mut lines, String::from_str("unifand.service - Lian Li Uni Fan Daemon"));
    let mut l = String::from_str("  Active: running (uptime: ");
    let u = format_uptime(status.uptime_secs);
    l.append(u.as_str());
    l.append(")");
    push_line(&mut lines, l);
    let mut l = String::from_str("  LCDs: ");
    let nw = status.wireless_lcds.len();
    let nd = status.wired_lcds.len();
    if nw > 0 {
        push_decimal(&mut l, nw as u64);
        l.append(" wireless");
    } else if nd > 0 {
        push_decimal(&mut l, nd as u64);
        l.append(" wired");
    } else {
        l.append("none");
    }
    assert(l@ =~= "  LCDs: "@ + lcd_summary(lcds.len(), status.wired_lcds@.len()));
    push_line(&mut lines, l);
    let ghost head = seq![
        "unifand.service - Lian Li Uni Fan Daemon"@,
        "  Active: running (uptime: "@ + uptime_text(status.uptime_secs as nat) + ")"@,
        "  LCDs: "@ + lcd_summary(lcds.len(), status.wired_lcds@.len()),
    ];
    assert(lines.deep_view() =~= head);
    extend_lines(&mut lines, wireless_lcd_lines(&status.wireless_lcds));
    let mut l = String::from_str("  Display: ");
    let d = display_description(&status.display);
    l.append(d.as_str());
    push_line(&mut lines, l);
    let ghost upto_display = head + serial_lines(lcds) + seq!["  Display: "@ + display_text(status.display)];
    assert(lines.deep_view() =~= upto_display);
    extend_section(&mut lines, "  Wireless Devices:", receiver_text_lines(&status.wireless_fans));
    extend_section(
        &mut lines,
        "  Fan Config:",
        config_text_lines(&status.config_fans, &status.wireless_lcds, quoted),
    );
    extend_section(
        &mut lines,
        "  Unconfigured LCDs:",
        unconfigured_text_lines(&status.wireless_lcds, &status.config_fans, config_path),
    );
    assert(lines.deep_view() =~= status_report(*status, config_path@, quoted.deep_view()));
    lines
}

/// What `{:?}` writes for a string: the string in double quotes, with
/// escapes.
pub uninterp spec fn debug_text(s: Seq<char>) -> Seq<char>;

/// Formats a string with `{:?}` (`<String as Debug>::fmt`). The contract
/// names the result and says nothing of its characters; it is a function of
/// the string alone.
#[verifier::external_body]
fn debug_string(s: &String) -> (r: String)
    ensures
        r@ == debug_text(s@),
{
    format!("{:?}", s)
}

/// The status report of the daemon, line by line, with the configuration
/// file at `config_path`.
pub fn status_lines(status: &DaemonStatus, config_path: &str) -> (lines: Vec<String>)
    ensures
        lines.deep_view() == status_report(
            *status,
            config_path@,
            status.config_fans@.map_values(|c: FanConfig| debug_text(c.serial@)),
        ),
{
    let mut quoted: Vec<String> = Vec::new();
    let mut i: usize = 0;
    while i < status.config_fans.len()
        invariant
            i <= status.config_fans@.len(),
            quoted.deep_view() == status.config_fans@.map_values(
                |c: FanConfig| debug_text(c.serial@),
            ).subrange(0, i as int),
        decreases status.config_fans@.len() - i,
    {
        push_line(&mut quoted, debug_string(&status.config_fans[i].serial));
        i = i + 1;
        assert(quoted.deep_view() =~= status.config_fans@.map_values(
            |c: FanConfig| debug_text(c.serial@),
        ).subrange(0, i as int));
    }
    assert(quoted.deep_view() =~= status.config_fans@.map_values(|c: FanConfig| debug_text(c.serial@)));
    render_status(status, config_path, quoted.as_slice())
}

} // verus!
