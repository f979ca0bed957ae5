//! Command bytes of the wired LCD.
use vstd::prelude::*;

verus! {

pub const GET_HANDSHAKE_INFO: u8 = 0x3C;

pub const GET_PRODUCT_INFO: u8 = 0x3D;

pub const READ_SERIAL_NUMBER: u8 = 0x3E;

pub const LCD_CONTROL: u8 = 0x40;

pub const WRITE_JPG: u8 = 0x41;

pub const WRITE_AVI: u8 = 0x45;

pub const WRITE_SYNC_JPG: u8 = 0x46;

pub const WRITE_BOOT_AVI: u8 = 0x47;

pub const WRITE_BOOT_JPG: u8 = 0x48;

} // verus!
