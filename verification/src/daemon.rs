//! What the daemon does with a display request: the plan for the LCDs it
//! owns, and what the display shows afterwards.
use vstd::prelude::*;

use crate::display::{rotation_for_degrees, wired_rotation};
use crate::ipc::{DisplayState, Request};
use crate::protocol::lcd::{mode_code, LcdControlSetting, LcdMode, ScreenRotation};
use crate::transport::lcd::LcdCmd;

verus! {

/// Which LCDs the daemon owns.
#[derive(Debug, Clone, Copy, PartialEq, Eq, Structural)]
pub enum LcdKind {
    Wireless,
    Wired,
    Absent,
}

/// What to do on the LCDs for a display request.
#[derive(Debug)]
pub enum DisplayPlan {
    /// Answer with this error.
    Refuse(String),
    /// Send this command to every wireless LCD.
    WirelessCommand { cmd: LcdCmd, param: Option<u8> },
    /// Apply this setting on every wired LCD.
    WiredSetting(LcdControlSetting),
    /// Push the converted image to every wireless LCD.
    WirelessImage,
    /// Send the converted image to every wired LCD, then apply this setting.
    WiredImage(LcdControlSetting),
    /// Play the video on every wireless LCD at this frame rate.
    WirelessVideo { fps: u8 },
}

/// A wired LCD setting with no test pattern and JPG index 0.
pub open spec fn plain_setting(
    mode: LcdMode,
    brightness: u8,
    video_fps: u8,
    rotation: ScreenRotation,
) -> LcdControlSetting {
    LcdControlSetting {
        mode,
        jpg_index: 0,
        brightness,
        video_fps,
        rotation,
        enable_test: false,
        test_color: (0, 0, 0),
    }
}

/// The messages of refused display requests.
pub open spec fn no_lcd_text() -> Seq<char> {
    "no LCD connected"@
}

/// The plan for a display request, or `None` for a request that is not one;
/// refusals carry their message.
pub open spec fn display_plan_spec(kind: LcdKind, req: Request) -> Option<
    (Option<Seq<char>>, DisplayPlanShape),
> {
    match req {
        Request::DisplayImage { .. } => Some(
            match kind {
                LcdKind::Wireless => (None, DisplayPlanShape::WirelessImage),
                LcdKind::Wired => (
                    None,
                    DisplayPlanShape::WiredImage(
                        plain_setting(LcdMode::ShowJpg, 100, 0, ScreenRotation::Deg0),
                    ),
                ),
                LcdKind::Absent => (Some(no_lcd_text()), DisplayPlanShape::Refuse),
            },
        ),
        Request::DisplayVideo { fps, .. } => Some(
            if fps > 60 {
                (Some("FPS too high (max 60)"@), DisplayPlanShape::Refuse)
            } else {
                match kind {
                    LcdKind::Wireless => (None, DisplayPlanShape::WirelessVideo(fps)),
                    LcdKind::Wired => (
                        Some("per-LCD video not yet supported for wired LCDs"@),
                        DisplayPlanShape::Refuse,
                    ),
                    LcdKind::Absent => (Some(no_lcd_text()), DisplayPlanShape::Refuse),
                }
            },
        ),
        Request::DisplayBrightness { level } => Some(
            match kind {
                LcdKind::Wireless => (
                    None,
                    DisplayPlanShape::WirelessCommand(LcdCmd::Brightness, Some(level)),
                ),
                LcdKind::Wired => (
                    None,
                    DisplayPlanShape::WiredSetting(
                        plain_setting(LcdMode::LcdSetting, level, 0, ScreenRotation::Deg0),
                    ),
                ),
                LcdKind::Absent => (Some(no_lcd_text()), DisplayPlanShape::Refuse),
            },
        ),
        Request::DisplayRotate { rotation } => Some(
            match kind {
                LcdKind::Wireless => if rotation > 3 {
                    (Some("rotation must be 0-3"@), DisplayPlanShape::Refuse)
                } else {
                    (None, DisplayPlanShape::WirelessCommand(LcdCmd::Rotate, Some(rotation as u8)))
                },
                LcdKind::Wired => match rotation_for_degrees(rotation) {
                    Some(rot) => (
                        None,
                        DisplayPlanShape::WiredSetting(
                            plain_setting(LcdMode::LcdSetting, 100, 0, rot),
                        ),
                    ),
                    None => (
                        Some("invalid rotation: use 0, 90, 180, or 270"@),
                        DisplayPlanShape::Refuse,
                    ),
                },
                LcdKind::Absent => (Some(no_lcd_text()), DisplayPlanShape::Refuse),
            },
        ),
        Request::DisplayReset => Some(
            match kind {
                LcdKind::Wireless => (None, DisplayPlanShape::WirelessCommand(LcdCmd::Reboot, None)),
                LcdKind::Wired => (
                    Some("reset not supported on wired LCDs"@),
                    DisplayPlanShape::Refuse,
                ),
                LcdKind::Absent => (Some(no_lcd_text()), DisplayPlanShape::Refuse),
            },
        ),
        _ => None,
    }
}

/// A plan with the message of a refusal left out.
#[derive(Debug, Clone, Copy)]
pub enum DisplayPlanShape {
    Refuse,
    WirelessCommand(LcdCmd, Option<u8>),
    WiredSetting(LcdControlSetting),
    WirelessImage,
    WiredImage(LcdControlSetting),
    WirelessVideo(u8),
}

/// A plan split into the message of a refusal and the rest.
pub open spec fn plan_view(p: DisplayPlan) -> (Option<Seq<char>>, DisplayPlanShape) {
    match p {
        DisplayPlan::Refuse(m) => (Some(m@), DisplayPlanShape::Refuse),
        DisplayPlan::WirelessCommand { cmd, param } => (
            None,
            DisplayPlanShape::WirelessCommand(cmd, param),
        ),
        DisplayPlan::WiredSetting(s) => (None, DisplayPlanShape::WiredSetting(s)),
        DisplayPlan::WirelessImage => (None, DisplayPlanShape::WirelessImage),
        DisplayPlan::WiredImage(s) => (None, DisplayPlanShape::WiredImage(s)),
        DisplayPlan::WirelessVideo { fps } => (None, DisplayPlanShape::WirelessVideo(fps)),
    }
}

fn setting(mode: LcdMode, brightness: u8, video_fps: u8, rotation: ScreenRotation) -> (s:
    LcdControlSetting)
    ensures
        s == plain_setting(mode, brightness, video_fps, rotation),
{
    LcdControlSetting {
        mode,
        jpg_index: 0,
        brightness,
        video_fps,
        rotation,
        enable_test: false,
        test_color: (0, 0, 0),
    }
}

fn refuse(msg: &str) -> (p: DisplayPlan)
    ensures
        plan_view(p) == (Some(msg@), DisplayPlanShape::Refuse),
{
    DisplayPlan::Refuse(String::from_str(msg))
}

/// Decides what a display request does on the LCDs the daemon owns, or
/// `None` when the request is not a display request.
pub fn plan_display(kind: LcdKind, req: &Request) -> (p: Option<DisplayPlan>)
    ensures
        match (p, display_plan_spec(kind, *req)) {
            (Some(p), Some(v)) => plan_view(p) == v,
            (None, None) => true,
            _ => false,
        },
{
    match req {
        Request::DisplayImage { .. } => Some(
            match kind {
                LcdKind::Wireless => DisplayPlan::WirelessImage,
                LcdKind::Wired => DisplayPlan::WiredImage(
                    setting(LcdMode::ShowJpg, 100, 0, ScreenRotation::Deg0),
                ),
                LcdKind::Absent => refuse("no LCD connected"),
            },
        ),
        Request::DisplayVideo { fps, .. } => {
            if *fps > 60 {
                return Some(refuse("FPS too high (max 60)"));
            }
            Some(
                match kind {
                    LcdKind::Wireless => DisplayPlan::WirelessVideo { fps: *fps },
                    LcdKind::Wired => refuse("per-LCD video not yet supported for wired LCDs"),
                    LcdKind::Absent => refuse("no LCD connected"),
                },
            )
        },
        Request::DisplayBrightness { level } => Some(
            match kind {
                LcdKind::Wireless => DisplayPlan::WirelessCommand {
                    cmd: LcdCmd::Brightness,
                    param: Some(*level),
                },
                LcdKind::Wired => DisplayPlan::WiredSetting(
                    setting(LcdMode::LcdSetting, *level, 0, ScreenRotation::Deg0),
                ),
                LcdKind::Absent => refuse("no LCD connected"),
            },
        ),
        Request::DisplayRotate { rotation } => Some(
            match kind {
                LcdKind::Wireless => {
                    if *rotation > 3 {
                        refuse("rotation must be 0-3")
                    } else {
                        DisplayPlan::WirelessCommand {
                            cmd: LcdCmd::Rotate,
                            param: Some(*rotation as u8),
                        }
                    }
                },
                LcdKind::Wired => match wired_rotation(*rotation) {
                    Some(rot) => DisplayPlan::WiredSetting(setting(LcdMode::LcdSetting, 100, 0, rot)),
                    None => refuse("invalid rotation: use 0, 90, 180, or 270"),
                },
                LcdKind::Absent => refuse("no LCD connected"),
            },
        ),
        Request::DisplayReset => Some(
            match kind {
                LcdKind::Wireless => DisplayPlan::WirelessCommand { cmd: LcdCmd::Reboot, param: None },
                LcdKind::Wired => refuse("reset not supported on wired LCDs"),
                LcdKind::Absent => refuse("no LCD connected"),
            },
        ),
        _ => None,
    }
}

/// Whether a request stops the videos that are playing before it runs.
pub open spec fn stops_videos_spec(req: Request) -> bool {
    match req {
        Request::DisplayImage { .. } => true,
        Request::DisplayVideo { fps, .. } => fps <= 60,
        Request::DisplayReset => true,
        _ => false,
    }
}

/// Whether a request stops the videos that are playing before it runs:
/// showing an image, starting a video and resetting the LCDs do; a video
/// refused for its frame rate changes nothing.
pub fn stops_videos(req: &Request) -> (b: bool)
    ensures
        b == stops_videos_spec(*req),
{
    match req {
        Request::DisplayImage { .. } | Request::DisplayReset => true,
        Request::DisplayVideo { fps, .. } => *fps <= 60,
        _ => false,
    }
}

/// What the display shows once a request succeeded: the image or the video
/// it names, nothing after a reset, and the same as before otherwise.
pub fn display_after(req: &Request, current: &DisplayState) -> (d: DisplayState)
    ensures
        match *req {
            Request::DisplayImage { path } => {
                &&& d.mode@ == "image"@
                &&& (d.source matches Some(s) && s@ == path@)
                &&& d.fps is None
                &&& !d.looping
            },
            Request::DisplayVideo { path, fps, loop_video } => {
                &&& d.mode@ == "video"@
                &&& (d.source matches Some(s) && s@ == path@)
                &&& d.fps == Some(fps)
                &&& d.looping == loop_video
            },
            Request::DisplayReset => d.mode@ == "idle"@ && d.source is None && d.fps is None
                && !d.looping,
            _ => d.mode@ == current.mode@ && match (d.source, current.source) {
                (Some(a), Some(b)) => a@ == b@,
                (None, None) => true,
                _ => false,
            } && d.fps == current.fps && d.looping == current.looping,
        },
{
    match req {
        Request::DisplayImage { path } => DisplayState {
            mode: String::from_str("image"),
            source: Some(path.clone()),
            fps: None,
            looping: false,
        },
        Request::DisplayVideo { path, fps, loop_video } => DisplayState {
            mode: String::from_str("video"),
            source: Some(path.clone()),
            fps: Some(*fps),
            looping: *loop_video,
        },
        Request::DisplayReset => DisplayState {
            mode: String::from_str("idle"),
            source: None,
            fps: None,
            looping: false,
        },
        _ => DisplayState {
            mode: current.mode.clone(),
            source: match &current.source {
                Some(s) => Some(s.clone()),
                None => None,
            },
            fps: current.fps,
            looping: current.looping,
        },
    }
}

/// A video request above 60 frames per second is refused with its message,
/// whatever LCDs there are, and stops no video that is playing.
pub proof fn lemma_fast_video_refused(kind: LcdKind, req: Request)
    requires
        req matches Request::DisplayVideo { fps, .. } && fps > 60,
    ensures
        display_plan_spec(kind, req) matches Some((m, shape)) && m == Some("FPS too high (max 60)"@)
            && shape is Refuse,
        !stops_videos_spec(req),
{
}

/// What a display command sent to several LCDs answers: success when every
/// LCD took it, else the error of the last LCD that failed.
pub open spec fn combined_outcome<E>(results: Seq<Result<(), E>>) -> Result<(), E>
    decreases results.len(),
{
    if results.len() == 0 {
        Ok(())
    } else {
        match results.last() {
            Err(e) => Err(e),
            Ok(()) => combined_outcome(results.drop_last()),
        }
    }
}

/// Combines the outcomes of a display command on each LCD, in the order the
/// LCDs were served.
pub fn combine_outcomes<E>(results: Vec<Result<(), E>>) -> (r: Result<(), E>)
    ensures
        r == combined_outcome(results@),
{
    let mut rest = results;
    while rest.len() > 0
        invariant
            combined_outcome(rest@) == combined_outcome(results@),
        decreases rest.len(),
    {
        let ghost before = rest@;
        match rest.pop() {
            Some(Err(e)) => {
                assert(before.last() == Err::<(), E>(e));
                return Err(e);
            },
            _ => {},
        }
        assert(rest@ =~= before.drop_last());
    }
    Ok(())
}

/// On a wired LCD an image is sent and then shown: the setting applied after
/// it shows JPG index 0 (mode byte 1) at full brightness, upright, with no
/// video frame rate and no test pattern. A brightness request keeps the LCD
/// in its settings mode (mode byte 5) at the level asked for.
pub proof fn lemma_wired_image_is_shown(req: Request)
    ensures
        req is DisplayImage ==> (display_plan_spec(LcdKind::Wired, req) matches Some(
            (None, DisplayPlanShape::WiredImage(s)),
        ) && {
            &&& s.mode == LcdMode::ShowJpg
            &&& mode_code(s.mode) == 1
            &&& s.jpg_index == 0
            &&& s.brightness == 100
            &&& s.video_fps == 0
            &&& s.rotation == ScreenRotation::Deg0
            &&& !s.enable_test
        }),
        req matches Request::DisplayBrightness { level } ==> (display_plan_spec(
            LcdKind::Wired,
            req,
        ) matches Some((None, DisplayPlanShape::WiredSetting(s))) && {
            &&& mode_code(s.mode) == 5
            &&& s.brightness == level
            &&& s.video_fps == 0
            &&& !s.enable_test
        }),
{
}

} // verus!
