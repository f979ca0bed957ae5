//! Command bytes of the wired fan LEDs.
use vstd::prelude::*;

verus! {

pub const SET_FAN_LIGHT: u8 = 0xA3;

pub const SET_FAN_GROUP_LIGHT: u8 = 0xB0;

pub const SET_FAN_GROUPING: u8 = 0xAD;

pub const SET_FAN_DIRECTION: u8 = 0xAE;

pub const TEST_LIGHT: u8 = 0xB3;

} // verus!
