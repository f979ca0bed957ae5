use unifand::display::{frame_wait, wired_rotation, wired_video_frame, wireless_rotation};
use unifand::protocol::lcd::commands::{WRITE_JPG, WRITE_SYNC_JPG};
use unifand::protocol::lcd::ScreenRotation;

#[test]
fn rotations() {
    assert_eq!(wired_rotation(0), Some(ScreenRotation::Deg0));
    assert_eq!(wired_rotation(90), Some(ScreenRotation::Deg90));
    assert_eq!(wired_rotation(180), Some(ScreenRotation::Deg180));
    assert_eq!(wired_rotation(270), Some(ScreenRotation::Deg270));
    assert_eq!(wired_rotation(45), None);
    assert_eq!(wireless_rotation(3), Some(3));
    assert_eq!(wireless_rotation(4), None);
}

#[test]
fn the_first_video_frame_primes_the_wired_lcd() {
    let frame = vec![0xFF; 600];
    let (first, acked) = wired_video_frame(&frame, 0);
    assert!(acked);
    assert_eq!(first.len(), 2);
    assert!(first.iter().all(|p| p.command == WRITE_JPG));
    let (next, acked) = wired_video_frame(&frame, 1);
    assert!(!acked);
    assert!(next.iter().all(|p| p.command == WRITE_SYNC_JPG));
}

#[test]
fn frame_waits() {
    assert_eq!(frame_wait(50, 20), 30);
    assert_eq!(frame_wait(50, 50), 0);
    assert_eq!(frame_wait(50, 70), 0);
}
