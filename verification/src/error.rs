use vstd::prelude::*;

use crate::text::{hex2, hex_byte_prefixed};

verus! {

/// Errors reported by the protocol layer.
#[derive(Debug)]
pub enum Error {
    /// A device that was asked for is not present.
    DeviceNotFound(String),
    /// A device answered with bytes that do not form a valid response.
    InvalidResponse(String),
    /// The device did not answer in time.
    Timeout,
}

/// What an error says: `device not found: ..`, `invalid response: ..`, or
/// that the device did not answer in time.
pub open spec fn error_text(e: Error) -> Seq<char> {
    match e {
        Error::DeviceNotFound(m) => "device not found: "@ + m@,
        Error::InvalidResponse(m) => "invalid response: "@ + m@,
        Error::Timeout => "timeout waiting for device response"@,
    }
}

impl Error {
    /// The message of the error.
    pub fn message(&self) -> (s: String)
        ensures
            s@ == error_text(*self),
    {
        match self {
            Error::DeviceNotFound(m) => {
                let mut s = String::from_str("device not found: ");
                s.append(m.as_str());
                s
            },
            Error::InvalidResponse(m) => {
                let mut s = String::from_str("invalid response: ");
                s.append(m.as_str());
                s
            },
            Error::Timeout => String::from_str("timeout waiting for device response"),
        }
    }
}

/// The message of a response too short to hold a header.
pub open spec fn short_packet_text() -> Seq<char> {
    "packet too short"@
}

/// The message of a response that starts with another report ID than the
/// one expected: `expected report ID 0x.., got 0x..`.
pub open spec fn report_id_mismatch_text(expected: u8, got: u8) -> Seq<char> {
    "expected report ID "@ + seq!['0', 'x'] + hex2(expected) + ", got "@ + seq!['0', 'x']
        + hex2(got)
}

pub fn short_packet_message() -> (m: String)
    ensures
        m@ == short_packet_text(),
{
    String::from_str("packet too short")
}

pub fn report_id_mismatch_message(expected: u8, got: u8) -> (m: String)
    ensures
        m@ == report_id_mismatch_text(expected, got),
{
    let mut m = String::from_str("expected report ID ");
    let e = hex_byte_prefixed(expected);
    m.append(e.as_str());
    m.append(", got ");
    let g = hex_byte_prefixed(got);
    m.append(g.as_str());
    m
}

} // verus!
