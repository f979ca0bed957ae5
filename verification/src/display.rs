//! The decisions of the display commands: rotations, and how the frames of a
//! video go to a wired LCD.
use vstd::prelude::*;

use crate::protocol::lcd::commands::{WRITE_JPG, WRITE_SYNC_JPG};
use crate::protocol::lcd::{carries, rotation_code, write_jpg_packets, write_sync_jpg_packets, ScreenRotation};
use crate::protocol::packet::LcdPacket;

verus! {

/// A wired LCD's rotation for an angle in degrees: 0, 90, 180 or 270.
pub open spec fn rotation_for_degrees(degrees: u16) -> Option<ScreenRotation> {
    if degrees == 0 {
        Some(ScreenRotation::Deg0)
    } else if degrees == 90 {
        Some(ScreenRotation::Deg90)
    } else if degrees == 180 {
        Some(ScreenRotation::Deg180)
    } else if degrees == 270 {
        Some(ScreenRotation::Deg270)
    } else {
        None
    }
}

/// The rotation of a wired LCD for an angle in degrees; other angles are
/// refused.
pub fn wired_rotation(degrees: u16) -> (r: Option<ScreenRotation>)
    ensures
        r == rotation_for_degrees(degrees),
        r matches Some(rot) ==> rotation_code(rot) as int * 90 == degrees,
{
    if degrees == 0 {
        Some(ScreenRotation::Deg0)
    } else if degrees == 90 {
        Some(ScreenRotation::Deg90)
    } else if degrees == 180 {
        Some(ScreenRotation::Deg180)
    } else if degrees == 270 {
        Some(ScreenRotation::Deg270)
    } else {
        None
    }
}

/// The rotation byte of a wireless LCD, in quarter turns 0 to 3; other
/// values are refused.
pub fn wireless_rotation(quarter_turns: u16) -> (r: Option<u8>)
    ensures
        quarter_turns <= 3 ==> r == Some(quarter_turns as u8),
        quarter_turns > 3 ==> r is None,
{
    if quarter_turns > 3 {
        None
    } else {
        Some(quarter_turns as u8)
    }
}

/// The reports that carry frame number `index` of a video to a wired LCD,
/// and whether each is answered. The first frame goes as an acknowledged
/// WriteJPG, which the device needs before it takes streamed frames; the
/// others go as WriteSyncJPG without waiting for an answer.
pub fn wired_video_frame(frame: &[u8], index: u64) -> (r: (Vec<LcdPacket>, bool))
    ensures
        index == 0 ==> carries(r.0@, WRITE_JPG, frame@) && r.1,
        index > 0 ==> carries(r.0@, WRITE_SYNC_JPG, frame@) && !r.1,
{
    if index == 0 {
        (write_jpg_packets(frame), true)
    } else {
        (write_sync_jpg_packets(frame), false)
    }
}

/// How long to wait after a frame so that frames are `frame_time` apart:
/// what is left of the frame time after `elapsed`, or nothing when the
/// frame is overdue.
pub fn frame_wait(frame_time: u64, elapsed: u64) -> (w: u64)
    ensures
        w == (if elapsed < frame_time { frame_time - elapsed } else { 0 }),
{
    if elapsed < frame_time {
        frame_time - elapsed
    } else {
        0
    }
}

} // verus!
