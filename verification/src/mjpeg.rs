//! Cutting JPEG frames out of an MJPEG byte stream, and the frame-rate rules
//! of video playback.
use vstd::prelude::*;

use crate::protocol::packet::copy_range;

verus! {

/// The number of bytes a frame may hold without its end marker: one byte
/// more that does not end it gives the frame up.
pub const MAX_FRAME_LEN: usize = 500_000;

#[derive(Debug, Clone, Copy, PartialEq, Eq, Structural)]
pub enum FrameError {
    /// The stream ended before a whole frame was seen.
    EndOfStream,
    /// The frame grew past `MAX_FRAME_LEN` bytes without ending.
    FrameTooLarge,
}

/// Whether a two-byte marker `FF second` ends at index `i`.
pub open spec fn marker_at(s: Seq<u8>, i: int, second: u8) -> bool {
    1 <= i < s.len() && s[i - 1] == 0xFF && s[i] == second
}

/// The first index at or after `from` where a marker `FF second` ends, or the
/// stream's length if there is none.
pub open spec fn find_marker(s: Seq<u8>, from: int, second: u8) -> int
    decreases s.len() - from,
{
    if from >= s.len() {
        s.len() as int
    } else if marker_at(s, from, second) {
        from
    } else {
        find_marker(s, from + 1, second)
    }
}

/// The first frame of a stream and the number of bytes read to get it: from
/// the first start marker `FF D8` through the next end marker `FF D9`. Each
/// byte is first tested for the end marker, then the frame's size: a frame
/// that has grown past `MAX_FRAME_LEN` bytes without ending is refused, so a
/// frame of `MAX_FRAME_LEN + 1` bytes whose last byte ends it is taken.
pub open spec fn jpeg_frame(s: Seq<u8>) -> Result<(Seq<u8>, int), FrameError> {
    let j = find_marker(s, 1, 0xD8);
    if j >= s.len() {
        Err(FrameError::EndOfStream)
    } else {
        let k = find_marker(s, j + 1, 0xD9);
        let limit = j + MAX_FRAME_LEN - 1;
        if k < s.len() && k <= limit {
            Ok((s.subrange(j - 1, k + 1), k + 1))
        } else if limit < s.len() {
            Err(FrameError::FrameTooLarge)
        } else {
            Err(FrameError::EndOfStream)
        }
    }
}

proof fn lemma_find_marker_bounds(s: Seq<u8>, from: int, second: u8)
    requires
        from >= 1,
    ensures
        from <= find_marker(s, from, second) || find_marker(s, from, second) == s.len(),
        find_marker(s, from, second) <= s.len() || from > s.len(),
        find_marker(s, from, second) < s.len() ==> marker_at(s, find_marker(s, from, second), second),
    decreases s.len() - from,
{
    if from < s.len() && !marker_at(s, from, second) {
        lemma_find_marker_bounds(s, from + 1, second);
    }
}

/// Reads a single JPEG frame from the front of an MJPEG stream: the bytes
/// from the first `FF D8` through the next `FF D9`, and how many bytes of the
/// stream were used up.
pub fn read_jpeg_frame(stream: &[u8]) -> (r: Result<(Vec<u8>, usize), FrameError>)
    ensures
        match (r, jpeg_frame(stream@)) {
            (Ok((f, n)), Ok((g, m))) => f@ == g && n == m,
            (Err(e), Err(e2)) => e == e2,
            _ => false,
        },
{
    let n = stream.len();
    if n == 0 {
        return Err(FrameError::EndOfStream);
    }
    let mut i: usize = 1;
    while i < n && !(stream[i - 1] == 0xFF && stream[i] == 0xD8)
        invariant
            1 <= i <= n,
            n == stream@.len(),
            find_marker(stream@, 1, 0xD8) == find_marker(stream@, i as int, 0xD8),
        decreases n - i,
    {
        i = i + 1;
    }
    if i >= n {
        return Err(FrameError::EndOfStream);
    }
    let j = i;
    assert(find_marker(stream@, 1, 0xD8) == j);
    let mut k: usize = j + 1;
    while k < n && !(stream[k - 1] == 0xFF && stream[k] == 0xD9) && k - j < MAX_FRAME_LEN - 1
        invariant
            1 <= j < n,
            j + 1 <= k <= n,
            k - j <= MAX_FRAME_LEN - 1,
            n == stream@.len(),
            find_marker(stream@, j + 1, 0xD9) == find_marker(stream@, k as int, 0xD9),
        decreases n - k,
    {
        k = k + 1;
    }
    proof {
        lemma_find_marker_bounds(stream@, k as int, 0xD9);
    }
    if k >= n {
        return Err(FrameError::EndOfStream);
    }
    if stream[k - 1] == 0xFF && stream[k] == 0xD9 {
        let frame = copy_range(stream, j - 1, k + 1);
        return Ok((frame, k + 1));
    }
    Err(FrameError::FrameTooLarge)
}

/// What a requested video frame rate calls for.
#[derive(Debug, Clone, Copy, PartialEq, Eq, Structural)]
pub enum FpsCheck {
    /// The LCD keeps up.
    Fine,
    /// Above 30: the LCD may lock up; play, but warn.
    Risky,
    /// Above 60: the LCD can't keep up and will lock up; refuse.
    TooHigh,
}

/// Judges a requested video frame rate.
pub fn check_video_fps(fps: u8) -> (c: FpsCheck)
    ensures
        c == (if fps > 60 {
            FpsCheck::TooHigh
        } else if fps > 30 {
            FpsCheck::Risky
        } else {
            FpsCheck::Fine
        }),
{
    if fps > 60 {
        FpsCheck::TooHigh
    } else if fps > 30 {
        FpsCheck::Risky
    } else {
        FpsCheck::Fine
    }
}

/// The time one frame is shown for, in whole milliseconds.
pub fn frame_duration_ms(fps: u8) -> (ms: u64)
    requires
        fps > 0,
    ensures
        ms == 1000int / (fps as int),
{
    1000 / (fps as u64)
}

/// Every frame that `read_jpeg_frame` cuts out starts with the marker
/// `FF D8`, ends with the marker `FF D9`, holds at most `MAX_FRAME_LEN + 1`
/// bytes, and is the last stretch of the bytes it used up.
pub proof fn lemma_frame_markers(s: Seq<u8>)
    ensures
        jpeg_frame(s) matches Ok((f, n)) ==> {
            &&& 4 <= f.len() <= MAX_FRAME_LEN + 1
            &&& f[0] == 0xFF && f[1] == 0xD8
            &&& f[f.len() - 2] == 0xFF && f[f.len() - 1] == 0xD9
            &&& f.len() <= n <= s.len()
            &&& f == s.subrange(n - f.len(), n)
        },
{
    let j = find_marker(s, 1, 0xD8);
    lemma_find_marker_bounds(s, 1, 0xD8);
    if j < s.len() {
        let k = find_marker(s, j + 1, 0xD9);
        lemma_find_marker_bounds(s, j + 1, 0xD9);
        if k < s.len() && k <= j + MAX_FRAME_LEN - 1 {
            assert(marker_at(s, j, 0xD8));
            assert(marker_at(s, k, 0xD9));
            assert(k != j + 1);
        }
    }
}

} // verus!
