//! Known devices and how they are told apart.
use vstd::prelude::*;

pub mod known;

use crate::text::{hex2, push_hex2};
use known::{
    RF_RX_PID, RF_RX_VID, RF_TX_PID, RF_TX_VID, SLV3H_PID, SLV3H_VID, TL_FAN_PID, TL_FAN_USAGE_PAGE,
    TL_FAN_VID, TL_LCD_WIRED_PID, TL_LCD_WIRED_VID,
};

verus! {

#[derive(Debug, Clone, Copy, PartialEq, Eq, Structural)]
pub enum DeviceKind {
    TlFanController,
    TlLcdWired,
    TlLcdWireless,
    Slv3h,
    RfTxDongle,
    RfRxDongle,
}

/// The display name of a device kind.
pub open spec fn kind_label(k: DeviceKind) -> Seq<char> {
    match k {
        DeviceKind::TlFanController => "TL Fan Controller"@,
        DeviceKind::TlLcdWired => "TL LCD (Wired)"@,
        DeviceKind::TlLcdWireless => "TL LCD (Wireless)"@,
        DeviceKind::Slv3h => "SLV3H Wireless Hub"@,
        DeviceKind::RfTxDongle => "RF TX Dongle"@,
        DeviceKind::RfRxDongle => "RF RX Dongle"@,
    }
}

impl DeviceKind {
    /// The display name of the kind.
    pub fn label(&self) -> (s: &'static str)
        ensures
            s@ == kind_label(*self),
    {
        match self {
            DeviceKind::TlFanController => "TL Fan Controller",
            DeviceKind::TlLcdWired => "TL LCD (Wired)",
            DeviceKind::TlLcdWireless => "TL LCD (Wireless)",
            DeviceKind::Slv3h => "SLV3H Wireless Hub",
            DeviceKind::RfTxDongle => "RF TX Dongle",
            DeviceKind::RfRxDongle => "RF RX Dongle",
        }
    }
}

#[derive(Debug, Clone)]
pub struct DeviceInfo {
    pub kind: DeviceKind,
    pub path: String,
    pub vid: u16,
    pub pid: u16,
    pub serial: Option<String>,
}

/// A 16-bit id as four lower-case hexadecimal digits.
pub open spec fn hex4(v: u16) -> Seq<char> {
    hex2((v / 256) as u8) + hex2((v % 256) as u8)
}

/// `<kind> [vvvv:pppp] <path>`.
pub open spec fn device_text(d: DeviceInfo) -> Seq<char> {
    kind_label(d.kind) + " ["@ + hex4(d.vid) + ":"@ + hex4(d.pid) + "] "@ + d.path@
}

impl DeviceInfo {
    /// The one-line description of a device: kind, ids and path.
    pub fn describe(&self) -> (s: String)
        ensures
            s@ == device_text(*self),
    {
        let mut s = String::from_str(self.kind.label());
        s.append(" [");
        push_hex2(&mut s, (self.vid / 256) as u8);
        push_hex2(&mut s, (self.vid % 256) as u8);
        s.append(":");
        push_hex2(&mut s, (self.pid / 256) as u8);
        push_hex2(&mut s, (self.pid % 256) as u8);
        s.append("] ");
        s.append(self.path.as_str());
        s
    }
}

/// The kind of an enumerated HID device, if it is one of ours: the fan
/// controller only on its vendor usage page 0xFF0B.
pub open spec fn kind_of(vid: u16, pid: u16, usage_page: u16) -> Option<DeviceKind> {
    if vid == TL_FAN_VID && pid == TL_FAN_PID {
        if usage_page == TL_FAN_USAGE_PAGE {
            Some(DeviceKind::TlFanController)
        } else {
            None
        }
    } else if vid == TL_LCD_WIRED_VID && pid == TL_LCD_WIRED_PID {
        Some(DeviceKind::TlLcdWired)
    } else if vid == SLV3H_VID && pid == SLV3H_PID {
        Some(DeviceKind::Slv3h)
    } else if vid == RF_TX_VID && pid == RF_TX_PID {
        Some(DeviceKind::RfTxDongle)
    } else if vid == RF_RX_VID && pid == RF_RX_PID {
        Some(DeviceKind::RfRxDongle)
    } else {
        None
    }
}

/// Tells which of our devices an enumerated HID device is.
pub fn classify_device(vid: u16, pid: u16, usage_page: u16) -> (k: Option<DeviceKind>)
    ensures
        k == kind_of(vid, pid, usage_page),
{
    if vid == TL_FAN_VID && pid == TL_FAN_PID {
        if usage_page != TL_FAN_USAGE_PAGE {
            return None;
        }
        Some(DeviceKind::TlFanController)
    } else if vid == TL_LCD_WIRED_VID && pid == TL_LCD_WIRED_PID {
        Some(DeviceKind::TlLcdWired)
    } else if vid == SLV3H_VID && pid == SLV3H_PID {
        Some(DeviceKind::Slv3h)
    } else if vid == RF_TX_VID && pid == RF_TX_PID {
        Some(DeviceKind::RfTxDongle)
    } else if vid == RF_RX_VID && pid == RF_RX_PID {
        Some(DeviceKind::RfRxDongle)
    } else {
        None
    }
}

} // verus!
