//! Command bytes of the wired fan controller.
use vstd::prelude::*;

verus! {

pub const HANDSHAKE: u8 = 0xA1;

pub const SET_FAN_SPEED: u8 = 0xAA;

pub const GET_PRODUCT_INFO: u8 = 0xA6;

pub const SET_MB_FAN_SYNC: u8 = 0xB1;

pub const SET_FAN_GROUPING: u8 = 0xAD;

pub const SET_FAN_DIRECTION: u8 = 0xAE;

pub const SET_PORT_DIRECTION: u8 = 0xAF;

pub const BLINK_PORT: u8 = 0xB4;

} // verus!
