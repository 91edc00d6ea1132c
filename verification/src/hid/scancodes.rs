//! HID keyboard scancodes and modifier bits.

use vstd::prelude::*;

verus! {

pub const A: u8 = 0x04;

pub const B: u8 = 0x05;

pub const C: u8 = 0x06;

pub const D: u8 = 0x07;

pub const E: u8 = 0x08;

pub const F: u8 = 0x09;

pub const G: u8 = 0x0A;

pub const H: u8 = 0x0B;

pub const I: u8 = 0x0C;

pub const J: u8 = 0x0D;

pub const K: u8 = 0x0E;

pub const L: u8 = 0x0F;

pub const M: u8 = 0x10;

pub const N: u8 = 0x11;

pub const O: u8 = 0x12;

pub const P: u8 = 0x13;

pub const Q: u8 = 0x14;

pub const R: u8 = 0x15;

pub const S: u8 = 0x16;

pub const T: u8 = 0x17;

pub const U: u8 = 0x18;

pub const V: u8 = 0x19;

pub const W: u8 = 0x1A;

pub const X: u8 = 0x1B;

pub const Y: u8 = 0x1C;

pub const Z: u8 = 0x1D;

pub const KEY_1: u8 = 0x1E;

pub const KEY_2: u8 = 0x1F;

pub const KEY_3: u8 = 0x20;

pub const KEY_4: u8 = 0x21;

pub const KEY_5: u8 = 0x22;

pub const KEY_6: u8 = 0x23;

pub const KEY_7: u8 = 0x24;

pub const KEY_8: u8 = 0x25;

pub const KEY_9: u8 = 0x26;

pub const KEY_0: u8 = 0x27;

pub const ENTER: u8 = 0x28;

pub const ESCAPE: u8 = 0x29;

pub const BACKSPACE: u8 = 0x2A;

pub const TAB: u8 = 0x2B;

pub const SPACE: u8 = 0x2C;

pub const MOD_LCTRL: u8 = 0x01;

pub const MOD_LSHIFT: u8 = 0x02;

pub const MOD_LALT: u8 = 0x04;

pub const MOD_LGUI: u8 = 0x08;

pub const MOD_RCTRL: u8 = 0x10;

pub const MOD_RSHIFT: u8 = 0x20;

pub const MOD_RALT: u8 = 0x40;

pub const MOD_RGUI: u8 = 0x80;

} // verus!
