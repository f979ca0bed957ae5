use vstd::prelude::*;

verus! {

pub const TL_FAN_VID: u16 = 0x0416;

pub const TL_FAN_PID: u16 = 0x7372;

pub const TL_FAN_USAGE_PAGE: u16 = 0xFF0B;

pub const TL_LCD_WIRED_VID: u16 = 0x04FC;

pub const TL_LCD_WIRED_PID: u16 = 0x7393;

/// The wireless LCD's raw USB device (bulk transfers, for video/images).
pub const TL_LCD_WIRELESS_USB_VID: u16 = 0x1CBE;

pub const TL_LCD_WIRELESS_USB_PID: u16 = 0x0006;

pub const SLV3H_VID: u16 = 0x1A86;

pub const SLV3H_PID: u16 = 0x2107;

pub const RF_TX_VID: u16 = 0x0416;

pub const RF_TX_PID: u16 = 0x8040;

pub const RF_RX_VID: u16 = 0x0416;

pub const RF_RX_PID: u16 = 0x8041;

} // verus!
