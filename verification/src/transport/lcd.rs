//! The bytes that the wireless LCD (1CBE:0006) is sent over USB bulk: DES-CBC
//! encrypted 504-byte command buffers, and for images a fixed-size transfer
//! of the encrypted header, the JPEG data and zero padding.
use vstd::prelude::*;

use crate::protocol::packet::zeros;
use crate::transport::usb::{
    build_command_buffer_at, command_buffer, encrypt_pkcs7, encrypted_pkcs7, timestamp_now,
};

verus! {

/// Every image transfer is exactly this long.
pub const IMG_TRANSFER_LEN: usize = 102400;

/// The encrypted command header: 504 bytes plus a full PKCS7 block.
pub const ENCRYPTED_HEADER_LEN: usize = 512;

/// The largest JPEG that fits an image transfer.
pub const MAX_JPG_LEN: usize = 101888;

/// LCD command types.
#[derive(Debug, Clone, Copy, PartialEq, Eq, Structural)]
pub enum LcdCmd {
    GetVer,
    Reboot,
    Rotate,
    Brightness,
    SetFrameRate,
    PushJpg,
    GetPosIndex,
}

/// The byte of a command: 10, 11, 13, 14, 15, 101, 201.
pub open spec fn lcd_cmd_code(c: LcdCmd) -> u8 {
    match c {
        LcdCmd::GetVer => 10,
        LcdCmd::Reboot => 11,
        LcdCmd::Rotate => 13,
        LcdCmd::Brightness => 14,
        LcdCmd::SetFrameRate => 15,
        LcdCmd::PushJpg => 101,
        LcdCmd::GetPosIndex => 201,
    }
}

impl LcdCmd {
    pub fn to_u8(&self) -> (v: u8)
        ensures
            v == lcd_cmd_code(*self),
    {
        match self {
            LcdCmd::GetVer => 10,
            LcdCmd::Reboot => 11,
            LcdCmd::Rotate => 13,
            LcdCmd::Brightness => 14,
            LcdCmd::SetFrameRate => 15,
            LcdCmd::PushJpg => 101,
            LcdCmd::GetPosIndex => 201,
        }
    }
}

/// The command buffer of a simple command: a one-byte parameter goes at
/// offset 8; a bare command has none.
pub open spec fn cmd_plain(cmd: LcdCmd, param: Option<u8>, ts: u32) -> Seq<u8> {
    let b = command_buffer(lcd_cmd_code(cmd), None, ts);
    match param {
        Some(p) => b.update(8, p),
        None => b,
    }
}

/// The bytes written for a simple command at timestamp `ts`.
pub fn lcd_command_bytes_at(cmd: LcdCmd, param: Option<u8>, ts: u32) -> (out: Vec<u8>)
    ensures
        out@ == encrypted_pkcs7(cmd_plain(cmd, param, ts)),
        out@.len() == ENCRYPTED_HEADER_LEN,
{
    let mut buf = build_command_buffer_at(cmd.to_u8(), None, ts);
    match param {
        Some(p) => {
            buf[8] = p;
        },
        None => {},
    }
    assert(buf@ =~= cmd_plain(cmd, param, ts));
    encrypt_pkcs7(buf.as_slice())
}

/// The bytes written for a simple command (`send_cmd` with a parameter,
/// `send_cmd_bare` without), stamped with the current time.
pub fn lcd_command_bytes(cmd: LcdCmd, param: Option<u8>) -> (out: Vec<u8>)
    ensures
        exists|ts: u32| out@ == encrypted_pkcs7(cmd_plain(cmd, param, ts)),
        out@.len() == ENCRYPTED_HEADER_LEN,
{
    lcd_command_bytes_at(cmd, param, timestamp_now())
}

/// The command buffer of an image push: the JPEG length big-endian at
/// offsets 8..12.
pub open spec fn push_jpg_plain(len: nat, ts: u32) -> Seq<u8> {
    command_buffer(lcd_cmd_code(LcdCmd::PushJpg), None, ts).update(8, (len / 0x1000000 % 256) as u8).update(
        9,
        (len / 0x10000 % 256) as u8,
    ).update(10, (len / 0x100 % 256) as u8).update(11, (len % 256) as u8)
}

/// The image transfer at timestamp `ts`: the encrypted header (512 bytes),
/// the JPEG data, zero padding to 102400 bytes.
pub open spec fn push_jpg_transfer_bytes(jpg: Seq<u8>, ts: u32) -> Seq<u8> {
    encrypted_pkcs7(push_jpg_plain(jpg.len(), ts)) + jpg + zeros((MAX_JPG_LEN - jpg.len()) as nat)
}

/// The fixed-size image transfer at timestamp `ts`.
pub fn push_jpg_transfer_at(jpg_data: &[u8], ts: u32) -> (transfer: Vec<u8>)
    requires
        jpg_data@.len() <= MAX_JPG_LEN,
    ensures
        transfer@ == push_jpg_transfer_bytes(jpg_data@, ts),
        transfer@.len() == IMG_TRANSFER_LEN,
{
    let mut buf = build_command_buffer_at(LcdCmd::PushJpg.to_u8(), None, ts);
    let len = jpg_data.len();
    buf[8] = (len / 0x1000000 % 256) as u8;
    buf[9] = (len / 0x10000 % 256) as u8;
    buf[10] = (len / 0x100 % 256) as u8;
    buf[11] = (len % 256) as u8;
    assert(buf@ =~= push_jpg_plain(len as nat, ts));
    let encrypted = encrypt_pkcs7(buf.as_slice());
    let mut transfer: Vec<u8> = Vec::new();
    let mut i: usize = 0;
    while i < encrypted.len()
        invariant
            i <= encrypted@.len() == ENCRYPTED_HEADER_LEN,
            transfer@ == encrypted@.take(i as int),
        decreases encrypted@.len() - i,
    {
        transfer.push(encrypted[i]);
        i = i + 1;
    }
    assert(encrypted@.take(512) =~= encrypted@);
    let mut j: usize = 0;
    while j < len
        invariant
            j <= len == jpg_data@.len(),
            transfer@ == encrypted@ + jpg_data@.take(j as int),
        decreases len - j,
    {
        transfer.push(jpg_data[j]);
        j = j + 1;
    }
    assert(jpg_data@.take(len as int) =~= jpg_data@);
    let pad = MAX_JPG_LEN - len;
    let mut k: usize = 0;
    while k < pad
        invariant
            k <= pad,
            pad == MAX_JPG_LEN - jpg_data@.len(),
            transfer@ == encrypted@ + jpg_data@ + zeros(k as nat),
        decreases pad - k,
    {
        transfer.push(0);
        k = k + 1;
        assert(transfer@ =~= encrypted@ + jpg_data@ + zeros(k as nat));
    }
    transfer
}

/// The fixed-size image transfer, stamped with the current time.
pub fn push_jpg_transfer(jpg_data: &[u8]) -> (transfer: Vec<u8>)
    requires
        jpg_data@.len() <= MAX_JPG_LEN,
    ensures
        exists|ts: u32| transfer@ == push_jpg_transfer_bytes(jpg_data@, ts),
        transfer@.len() == IMG_TRANSFER_LEN,
{
    push_jpg_transfer_at(jpg_data, timestamp_now())
}

} // verus!
