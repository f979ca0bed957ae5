use unifand::protocol::tinyuz::{tuz_compress, tuz_compress_checked, tuz_decompress};

#[test]
fn compress_empty() {
    let result = tuz_compress(&[], 4096);
    // Should have 4-byte dict size header + stream end control
    assert!(result.len() > 4);
    // First 4 bytes = dict_size 4096 = 0x00001000 LE
    assert_eq!(result[0], 0x00);
    assert_eq!(result[1], 0x10);
    assert_eq!(result[2], 0x00);
    assert_eq!(result[3], 0x00);
}

#[test]
fn compress_small_literal() {
    let data = b"hello";
    let result = tuz_compress(data, 4096);
    // Should be larger than input (no matches possible for small data)
    assert!(result.len() > 4);
}

#[test]
fn compress_repetitive_rgb_data() {
    // Simulate static red LED data: 30 frames x 24 LEDs x 3 bytes
    let frame_size = 24 * 3; // 72 bytes per frame
    let total_frames = 30;
    let mut data = Vec::with_capacity(frame_size * total_frames);
    for _ in 0..total_frames {
        for _ in 0..24 {
            data.push(255); // R
            data.push(0); // G
            data.push(0); // B
        }
    }
    assert_eq!(data.len(), 2160);

    let compressed = tuz_compress(&data, 4096);
    // Highly repetitive data should compress very well
    assert!(
        compressed.len() < data.len() / 2,
        "compressed {} bytes to {} bytes — expected >50% compression",
        data.len(),
        compressed.len()
    );
}

#[test]
fn compress_repeated_pattern() {
    // ABCABC... pattern
    let pattern = b"ABC";
    let data: Vec<u8> = pattern.iter().copied().cycle().take(300).collect();
    let compressed = tuz_compress(&data, 4096);
    assert!(
        compressed.len() < data.len(),
        "compressed {} to {} bytes",
        data.len(),
        compressed.len()
    );
}

#[test]
fn roundtrip_small() {
    let data = b"hello world hello world hello";
    let compressed = tuz_compress(data, 4096);
    let decompressed = tuz_decompress(&compressed, data.len()).unwrap();
    assert_eq!(decompressed, data);
}

#[test]
fn roundtrip_rgb_static() {
    // 30 frames x 24 LEDs x 3 bytes of solid red
    let mut data = Vec::new();
    for _ in 0..30 * 24 {
        data.extend_from_slice(&[255, 0, 0]);
    }
    let compressed = tuz_compress(&data, 4096);
    let decompressed = tuz_decompress(&compressed, data.len()).unwrap();
    assert_eq!(decompressed, data);
}

fn rainbow() -> Vec<u8> {
    let colors = [(255, 0, 0), (0, 255, 0), (0, 0, 255), (255, 255, 0)];
    let mut data = Vec::new();
    for frame in 0..30 {
        for led in 0..24 {
            let (r, g, b) = colors[(led + frame) % colors.len()];
            data.push(r);
            data.push(g);
            data.push(b);
        }
    }
    data
}

#[test]
fn roundtrip_rgb_multicolor() {
    let data = rainbow();
    let compressed = tuz_compress(&data, 4096);
    let decompressed = tuz_decompress(&compressed, data.len()).unwrap();
    assert_eq!(decompressed, data);
}

#[test]
fn roundtrip_single_byte() {
    let data = b"x";
    let compressed = tuz_compress(data, 4096);
    let decompressed = tuz_decompress(&compressed, data.len()).unwrap();
    assert_eq!(decompressed, data);
}

#[test]
fn compress_rainbow_effect() {
    // Multi-color cycling effect
    let data = rainbow();
    let compressed = tuz_compress(&data, 4096);
    assert!(
        compressed.len() < data.len(),
        "compressed {} to {} bytes",
        data.len(),
        compressed.len()
    );
}

#[test]
fn empty_input_is_header_and_stream_end() {
    let out = tuz_compress(&[], 4096);
    assert_eq!(tuz_decompress(&out, 0).unwrap(), Vec::<u8>::new());
}

#[test]
fn long_literal_runs_use_a_literal_line() {
    // 40 distinct bytes: no match, one literal line of 40 bytes
    let data: Vec<u8> = (0..40u8).collect();
    let out = tuz_compress(&data, 4096);
    assert_eq!(tuz_decompress(&out, data.len()).unwrap(), data);
    // the literal bytes stand in the output in one piece
    assert!(out.windows(40).any(|w| w == &data[..]));
}

#[test]
fn checked_compression_agrees_on_ordinary_data() {
    let data = rainbow();
    assert_eq!(tuz_compress_checked(&data, 4096), Some(tuz_compress(&data, 4096)));
}

#[test]
fn decompress_rejects_bad_input() {
    assert_eq!(tuz_decompress(&[0, 0x10], 0), Err("too short"));
    assert_eq!(tuz_decompress(&[0, 0x10, 0, 0], 0), Err("unexpected end of input"));
    // a match 5 bytes back at the start of the output
    assert_eq!(tuz_decompress(&[0, 0x10, 0, 0, 0x00, 0x05], 0), Err("dict pos out of range"));
    // a control code 0
    assert_eq!(tuz_decompress(&[0, 0x10, 0, 0, 0x00, 0x00], 0), Err("unknown control type"));
}

#[test]
fn five_equal_bytes_round_trip() {
    let compressed = tuz_compress(b"aaaaa", 4096);
    assert_eq!(tuz_decompress(&compressed, 5).unwrap(), b"aaaaa".to_vec());
    assert_eq!(tuz_compress_checked(b"aaaaa", 4096), Some(compressed));
}
