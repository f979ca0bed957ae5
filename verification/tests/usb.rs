use unifand::transport::lcd::{
    lcd_command_bytes, lcd_command_bytes_at, push_jpg_transfer_at, LcdCmd, IMG_TRANSFER_LEN,
};
use unifand::transport::usb::{
    build_command_buffer, build_command_buffer_at, decrypt, encrypt, encrypt_pkcs7, CMD_BUF_LEN,
};

#[test]
fn encrypt_decrypt_roundtrip() {
    let original = b"Hello, DES-CBC encryption test!";
    let encrypted = encrypt(original);
    // Encrypted data should differ from original
    assert_ne!(&encrypted[..], &original[..]);
    // Encrypted length should be padded to 8-byte boundary
    assert_eq!(encrypted.len() % 8, 0);

    let decrypted = decrypt(&encrypted);
    // Decrypted (may have trailing zero padding) should start with original
    assert!(decrypted.len() >= original.len());
    assert_eq!(&decrypted[..original.len()], &original[..]);
}

#[test]
fn command_buffer_structure() {
    let data = &[0x01, 0x02];
    let buf = build_command_buffer(0x0A, Some(data));

    assert_eq!(buf.len(), CMD_BUF_LEN);
    // Byte 0: command
    assert_eq!(buf[0], 0x0A);
    // Bytes 2-3: magic
    assert_eq!(buf[2], 0x1A);
    assert_eq!(buf[3], 0x6D);
    // Bytes 4-7: timestamp (LE u32) — just check it's nonzero
    let ts = u32::from_le_bytes([buf[4], buf[5], buf[6], buf[7]]);
    assert!(ts > 0, "timestamp should be nonzero");
    // Bytes 8-11: data size as BE u32
    let data_size = u32::from_be_bytes([buf[8], buf[9], buf[10], buf[11]]);
    assert_eq!(data_size, 2);
    // Bytes 12+: payload
    assert_eq!(buf[12], 0x01);
    assert_eq!(buf[13], 0x02);
}

#[test]
fn command_buffer_no_data() {
    let buf = build_command_buffer(0x0A, None);

    assert_eq!(buf.len(), CMD_BUF_LEN);
    // Byte 0: command
    assert_eq!(buf[0], 0x0A);
    // Bytes 2-3: magic
    assert_eq!(buf[2], 0x1A);
    assert_eq!(buf[3], 0x6D);
    // Bytes 4-7: timestamp should be nonzero
    let ts = u32::from_le_bytes([buf[4], buf[5], buf[6], buf[7]]);
    assert!(ts > 0, "timestamp should be nonzero");
    // Bytes 8-11: no data_size field should be set (all zeros)
    assert_eq!(buf[8], 0);
    assert_eq!(buf[9], 0);
    assert_eq!(buf[10], 0);
    assert_eq!(buf[11], 0);
}

#[test]
fn command_buffer_at_places_the_timestamp_little_endian() {
    let buf = build_command_buffer_at(0x0E, Some(&[7u8; 3]), 0x0A0B0C0D);
    assert_eq!(&buf[4..8], &[0x0D, 0x0C, 0x0B, 0x0A]);
    assert_eq!(&buf[8..12], &[0, 0, 0, 3]);
    assert_eq!(&buf[12..15], &[7, 7, 7]);
    assert!(buf[15..].iter().all(|&b| b == 0));
}

#[test]
fn encryption_is_not_the_identity() {
    let plain = [0u8; 8];
    let c = encrypt(&plain);
    assert_eq!(c.len(), 8);
    assert_ne!(c, plain.to_vec());
}

#[test]
fn zero_padding_and_pkcs7_padding() {
    assert_eq!(encrypt(&[1, 2, 3]).len(), 8);
    assert_eq!(encrypt(&[]).len(), 0);
    assert_eq!(encrypt_pkcs7(&[0u8; 504]).len(), 512);
    assert_eq!(encrypt_pkcs7(&[]).len(), 8);
    let d = decrypt(&encrypt_pkcs7(&[5u8; 13]));
    assert_eq!(&d[..13], &[5u8; 13]);
    assert_eq!(&d[13..], &[3, 3, 3]);
}

#[test]
fn decrypt_leaves_a_partial_block() {
    let mut c = encrypt(&[9u8; 8]);
    c.extend_from_slice(&[1, 2, 3]);
    let d = decrypt(&c);
    assert_eq!(&d[..8], &[9u8; 8]);
    assert_eq!(&d[8..], &[1, 2, 3]);
}

#[test]
fn lcd_command_is_an_encrypted_command_buffer() {
    let bytes = lcd_command_bytes_at(LcdCmd::Brightness, Some(77), 5);
    assert_eq!(bytes.len(), 512);
    let plain = decrypt(&bytes);
    assert_eq!(plain[0], 14);
    assert_eq!(&plain[2..4], &[0x1A, 0x6D]);
    assert_eq!(&plain[4..8], &[5, 0, 0, 0]);
    assert_eq!(plain[8], 77);
    assert_eq!(&plain[504..], &[8u8; 8]);
    assert_eq!(lcd_command_bytes(LcdCmd::Reboot, None).len(), 512);
}

#[test]
fn push_jpg_transfer_layout() {
    let jpg = vec![0xEE; 1000];
    let t = push_jpg_transfer_at(&jpg, 42);
    assert_eq!(t.len(), IMG_TRANSFER_LEN);
    let header = decrypt(&t[..512]);
    assert_eq!(header[0], 101);
    assert_eq!(&header[8..12], &[0, 0, 0x03, 0xE8]);
    assert_eq!(&t[512..1512], &jpg[..]);
    assert!(t[1512..].iter().all(|&b| b == 0));
}
