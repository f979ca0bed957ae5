//! Wired fan LED commands (64-byte reports).
use vstd::prelude::*;

use crate::protocol::fan::fan_address;
use crate::protocol::packet::LedPacket;

pub mod commands;

use commands::{SET_FAN_LIGHT, SET_FAN_DIRECTION};

verus! {

#[derive(Debug, Clone, Copy)]
pub struct Rgb {
    pub r: u8,
    pub g: u8,
    pub b: u8,
}

#[derive(Debug, Clone, Copy, PartialEq, Eq, Structural)]
pub enum LightingDirection {
    RightOrClockwise,
    LeftOrCounterClockwise,
    Up,
    Down,
    Spreaded,
    Gathered,
}

/// The byte that the protocol uses for a direction (0 to 5 in declaration order).
pub open spec fn direction_code(d: LightingDirection) -> u8 {
    match d {
        LightingDirection::RightOrClockwise => 0,
        LightingDirection::LeftOrCounterClockwise => 1,
        LightingDirection::Up => 2,
        LightingDirection::Down => 3,
        LightingDirection::Spreaded => 4,
        LightingDirection::Gathered => 5,
    }
}

impl LightingDirection {
    pub fn to_u8(&self) -> (v: u8)
        ensures
            v == direction_code(*self),
    {
        match self {
            LightingDirection::RightOrClockwise => 0,
            LightingDirection::LeftOrCounterClockwise => 1,
            LightingDirection::Up => 2,
            LightingDirection::Down => 3,
            LightingDirection::Spreaded => 4,
            LightingDirection::Gathered => 5,
        }
    }
}

pub struct FanLightConfig {
    pub port: u8,
    pub fan_index: u8,
    pub sync: bool,
    pub mode: u8,
    pub brightness: u8,
    pub speed: u8,
    pub colors: Vec<Rgb>,
    pub direction: LightingDirection,
    pub disabled: bool,
}

/// The 20-byte payload of a fan light command: the port with the sync flag,
/// the fan address, mode, brightness, speed, up to four colours as R, G, B
/// (zero where there are fewer), the direction, the disabled flag and the
/// number of colours sent.
pub open spec fn fan_light_payload(cfg: FanLightConfig) -> Seq<u8> {
    let n = if cfg.colors@.len() < 4 { cfg.colors@.len() } else { 4 };
    Seq::new(
        20,
        |i: int|
            if i == 0 {
                ((cfg.port << 4u8) | (if cfg.sync { 1u8 } else { 0u8 })) as u8
            } else if i == 1 {
                fan_address(cfg.port, cfg.fan_index)
            } else if i == 2 {
                cfg.mode
            } else if i == 3 {
                cfg.brightness
            } else if i == 4 {
                cfg.speed
            } else if i < 17 {
                let k = (i - 5) / 3;
                if k < n {
                    let c = cfg.colors@[k];
                    if (i - 5) % 3 == 0 {
                        c.r
                    } else if (i - 5) % 3 == 1 {
                        c.g
                    } else {
                        c.b
                    }
                } else {
                    0u8
                }
            } else if i == 17 {
                direction_code(cfg.direction)
            } else if i == 18 {
                if cfg.disabled { 1u8 } else { 0u8 }
            } else {
                n as u8
            },
    )
}

pub fn set_fan_light_packet(cfg: &FanLightConfig) -> (p: LedPacket)
    ensures
        p.command == SET_FAN_LIGHT,
        p.packet_number == 0,
        p.data@ == fan_light_payload(*cfg),
{
    let mut payload: Vec<u8> = vec![0u8; 20];
    let sync_bit: u8 = if cfg.sync { 1 } else { 0 };
    payload.set(0, (cfg.port << 4) | sync_bit);
    payload.set(1, (cfg.port << 4) | cfg.fan_index);
    payload.set(2, cfg.mode);
    payload.set(3, cfg.brightness);
    payload.set(4, cfg.speed);
    let n = if cfg.colors.len() < 4 { cfg.colors.len() } else { 4 };
    let mut i: usize = 0;
    while i < n
        invariant
            n <= 4,
            n <= cfg.colors@.len(),
            i <= n,
            payload@.len() == 20,
            payload@[0] == ((cfg.port << 4u8) | sync_bit) as u8,
            sync_bit == (if cfg.sync { 1u8 } else { 0u8 }),
            payload@[1] == fan_address(cfg.port, cfg.fan_index),
            payload@[2] == cfg.mode,
            payload@[3] == cfg.brightness,
            payload@[4] == cfg.speed,
            forall|j: int| 5 + 3 * i <= j < 20 ==> payload@[j] == 0,
            forall|j: int|
                5 <= j < 5 + 3 * i ==> payload@[j] == fan_light_payload(*cfg)[j],
        decreases n - i,
    {
        let offset = 5 + i * 3;
        let color = cfg.colors[i];
        payload.set(offset, color.r);
        payload.set(offset + 1, color.g);
        payload.set(offset + 2, color.b);
        proof {
            assert((offset - 5) / 3 == i && (offset + 1 - 5) / 3 == i && (offset + 2 - 5) / 3 == i);
            assert((offset - 5) % 3 == 0 && (offset + 1 - 5) % 3 == 1 && (offset + 2 - 5) % 3 == 2);
        }
        i = i + 1;
    }
    payload.set(17, cfg.direction.to_u8());
    payload.set(18, if cfg.disabled { 1 } else { 0 });
    payload.set(19, n as u8);
    proof {
        assert forall|j: int| 0 <= j < 20 implies payload@[j] == fan_light_payload(*cfg)[j] by {
            if 5 <= j < 17 && j >= 5 + 3 * n {
                assert((j - 5) / 3 >= n);
            }
        }
        assert(payload@ =~= fan_light_payload(*cfg));
    }
    LedPacket::new(SET_FAN_LIGHT, payload)
}

pub fn set_fan_direction_packet(
    port: u8,
    fan_index: u8,
    swap_top_bottom: bool,
    swap_left_right: bool,
) -> (p: LedPacket)
    ensures
        p.command == SET_FAN_DIRECTION,
        p.packet_number == 0,
        p.data@ == seq![
            fan_address(port, fan_index),
            ((if swap_top_bottom { 2int } else { 0int }) + (if swap_left_right { 1int } else { 0int })) as u8,
        ],
{
    let tb: u8 = if swap_top_bottom { 1 } else { 0 };
    let lr: u8 = if swap_left_right { 1 } else { 0 };
    let flags = (tb << 1) | lr;
    proof {
        assert(tb <= 1 && lr <= 1 ==> ((tb << 1u8) | lr) == tb * 2 + lr) by (bit_vector);
    }
    let mut data: Vec<u8> = Vec::new();
    data.push((port << 4) | fan_index);
    data.push(flags);
    LedPacket::new(SET_FAN_DIRECTION, data)
}

} // verus!
