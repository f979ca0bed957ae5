use unifand::mjpeg::{
    check_video_fps, frame_duration_ms, read_jpeg_frame, FpsCheck, FrameError, MAX_FRAME_LEN,
};

#[test]
fn reads_the_first_frame() {
    let stream = [0x00, 0xFF, 0xD8, 0x11, 0xFF, 0xD9, 0xFF, 0xD8, 0x22, 0xFF, 0xD9];
    let (frame, used) = read_jpeg_frame(&stream).unwrap();
    assert_eq!(frame, vec![0xFF, 0xD8, 0x11, 0xFF, 0xD9]);
    assert_eq!(used, 6);
    let (next, used2) = read_jpeg_frame(&stream[used..]).unwrap();
    assert_eq!(next, vec![0xFF, 0xD8, 0x22, 0xFF, 0xD9]);
    assert_eq!(used2, 5);
}

#[test]
fn the_start_marker_does_not_end_a_frame() {
    // FF D8 D9: the D8 is no FF, so D9 after it ends nothing
    let stream = [0xFF, 0xD8, 0xD9, 0xFF, 0xD9];
    let (frame, used) = read_jpeg_frame(&stream).unwrap();
    assert_eq!(frame, stream.to_vec());
    assert_eq!(used, 5);
}

#[test]
fn incomplete_streams_end() {
    assert_eq!(read_jpeg_frame(&[]), Err(FrameError::EndOfStream));
    assert_eq!(read_jpeg_frame(&[0xFF]), Err(FrameError::EndOfStream));
    assert_eq!(read_jpeg_frame(&[0xFF, 0xD8, 1, 2]), Err(FrameError::EndOfStream));
    assert_eq!(read_jpeg_frame(&[0xD8, 0xFF, 0xD9]), Err(FrameError::EndOfStream));
}

#[test]
fn oversized_frames_are_refused() {
    let mut stream = vec![0xFF, 0xD8];
    stream.extend(std::iter::repeat(0u8).take(MAX_FRAME_LEN));
    assert_eq!(read_jpeg_frame(&stream), Err(FrameError::FrameTooLarge));
    // the end marker is looked for before the size: a frame of one byte
    // past the limit is taken when that byte ends it
    let mut ok = vec![0xFF, 0xD8];
    ok.extend(std::iter::repeat(0u8).take(MAX_FRAME_LEN - 3));
    ok.extend([0xFF, 0xD9]);
    assert_eq!(read_jpeg_frame(&ok).unwrap().0.len(), MAX_FRAME_LEN + 1);
    // one byte more is refused
    let mut over = vec![0xFF, 0xD8];
    over.extend(std::iter::repeat(0u8).take(MAX_FRAME_LEN - 2));
    over.extend([0xFF, 0xD9]);
    assert_eq!(read_jpeg_frame(&over), Err(FrameError::FrameTooLarge));
    // a frame that has grown past the limit is refused at once
    let mut past = vec![0xFF, 0xD8];
    past.extend(std::iter::repeat(0u8).take(MAX_FRAME_LEN - 1));
    assert_eq!(read_jpeg_frame(&past), Err(FrameError::FrameTooLarge));
    // a stream that stops at the limit may still end the frame later
    let mut open = vec![0xFF, 0xD8];
    open.extend(std::iter::repeat(0u8).take(MAX_FRAME_LEN - 2));
    assert_eq!(read_jpeg_frame(&open), Err(FrameError::EndOfStream));
}

#[test]
fn frame_rates() {
    assert_eq!(check_video_fps(20), FpsCheck::Fine);
    assert_eq!(check_video_fps(30), FpsCheck::Fine);
    assert_eq!(check_video_fps(31), FpsCheck::Risky);
    assert_eq!(check_video_fps(60), FpsCheck::Risky);
    assert_eq!(check_video_fps(61), FpsCheck::TooHigh);
    assert_eq!(frame_duration_ms(20), 50);
    assert_eq!(frame_duration_ms(30), 33);
}
