//! The controller as the library sees it: button bits and the decoding of a
//! controller reply.

use vstd::prelude::*;

verus! {

// Bits of the button word, one per button.

pub const A_BUTTON: u16 = 0x8000;

pub const B_BUTTON: u16 = 0x4000;

pub const Z_BUTTON: u16 = 0x2000;

pub const START_BUTTON: u16 = 0x1000;

pub const UP_BUTTON: u16 = 0x0800;

pub const DOWN_BUTTON: u16 = 0x0400;

pub const LEFT_BUTTON: u16 = 0x0200;

pub const RIGHT_BUTTON: u16 = 0x0100;

pub const L_BUTTON: u16 = 0x0020;

pub const R_BUTTON: u16 = 0x0010;

pub const C_UP: u16 = 0x0008;

pub const C_DOWN: u16 = 0x0004;

pub const C_LEFT: u16 = 0x0002;

pub const C_RIGHT: u16 = 0x0001;

/// Number of controller ports.
pub const CONTROLLER_PORTS: usize = 4;

/// Length of a reply block.
pub const JOYBUS_BLOCK_BYTES: usize = 64;

/// What a controller reports.
#[derive(Debug, Clone, Copy, PartialEq, Eq, Structural)]
pub struct ControllerData {
    pub buttons: u16,
    pub stick_x: i8,
    pub stick_y: i8,
}

/// A byte read as a signed number.
pub open spec fn as_signed(b: u8) -> i8 {
    if b < 128 {
        b as i8
    } else {
        (b - 256) as i8
    }
}

/// What the reply block `raw` says of controller `controller`: nothing for a
/// port that does not exist or did not answer, and otherwise the buttons
/// from bytes 4 and 5 of its slot and the stick from bytes 6 and 7.
pub open spec fn decode_controller_spec(raw: Seq<u8>, controller: usize) -> ControllerData {
    let base = controller * 8;
    if controller >= CONTROLLER_PORTS || raw[base] == 0xFF {
        ControllerData { buttons: 0, stick_x: 0, stick_y: 0 }
    } else {
        ControllerData {
            buttons: (raw[base + 4] * 256 + raw[base + 5]) as u16,
            stick_x: as_signed(raw[base + 6]),
            stick_y: as_signed(raw[base + 7]),
        }
    }
}

/// A byte read as a signed number.
fn signed(b: u8) -> (s: i8)
    ensures
        s == as_signed(b),
{
    if b < 128 {
        b as i8
    } else {
        (b as i16 - 256) as i8
    }
}

/// Decodes the state of controller `controller` from the reply block `raw`.
pub fn decode_controller(raw: &[u8; 64], controller: usize) -> (data: ControllerData)
    ensures
        data == decode_controller_spec(raw@, controller),
{
    if controller >= CONTROLLER_PORTS {
        return ControllerData { buttons: 0, stick_x: 0, stick_y: 0 };
    }
    let base: usize = controller * 8;
    if raw[base] == 0xFF {
        return ControllerData { buttons: 0, stick_x: 0, stick_y: 0 };
    }
    let buttons: u16 = (raw[base + 4] as u16) * 256 + raw[base + 5] as u16;
    ControllerData { buttons, stick_x: signed(raw[base + 6]), stick_y: signed(raw[base + 7]) }
}

} // verus!
