//! Boot-protocol keyboard and mouse reports, as they are sent on the wire.

use vstd::prelude::*;

pub mod scancodes;

verus! {

/// The 8-byte keyboard report.
pub struct KeyboardReport {
    /// Bit 0 LCtrl, 1 LShift, 2 LAlt, 3 LGui, 4 RCtrl, 5 RShift, 6 RAlt, 7 RGui.
    pub modifier: u8,
    /// Always 0.
    pub reserved: u8,
    /// Scancodes of up to six keys held down; 0 for an unused place.
    pub keys: [u8; 6],
}

impl KeyboardReport {
    /// The report with every key released.
    pub fn empty() -> (report: Self)
        ensures
            report.modifier == 0,
            report.reserved == 0,
            report.keys@ == seq![0u8, 0u8, 0u8, 0u8, 0u8, 0u8],
    {
        let report = KeyboardReport { modifier: 0, reserved: 0, keys: [0;6] };
        assert(report.keys@ =~= seq![0u8, 0u8, 0u8, 0u8, 0u8, 0u8]);
        report
    }

    /// The report with the one key `scancode` held down under `modifiers`.
    pub fn single_key(scancode: u8, modifiers: u8) -> (report: Self)
        ensures
            report.modifier == modifiers,
            report.reserved == 0,
            report.keys@ == seq![scancode, 0u8, 0u8, 0u8, 0u8, 0u8],
    {
        let report = KeyboardReport {
            modifier: modifiers,
            reserved: 0,
            keys: [scancode, 0, 0, 0, 0, 0],
        };
        assert(report.keys@ =~= seq![scancode, 0u8, 0u8, 0u8, 0u8, 0u8]);
        report
    }

    /// The report's bytes in wire order: modifier, reserved, then the keys.
    pub fn to_bytes(&self) -> (bytes: [u8; 8])
        ensures
            bytes@ == seq![self.modifier, self.reserved] + self.keys@,
    {
        let bytes = [
            self.modifier,
            self.reserved,
            self.keys[0],
            self.keys[1],
            self.keys[2],
            self.keys[3],
            self.keys[4],
            self.keys[5],
        ];
        assert(bytes@ =~= seq![self.modifier, self.reserved] + self.keys@);
        bytes
    }
}

/// The 5-byte mouse report.
pub struct MouseReport {
    /// Bit 0 left, 1 right, 2 middle, 3 to 7 further buttons.
    pub buttons: u8,
    pub x: i8,
    pub y: i8,
    pub wheel: i8,
    /// Horizontal wheel; 0 where there is none.
    pub pan: i8,
}

/// The byte that carries the signed value `v` in two's complement.
pub open spec fn wire_byte(v: i8) -> u8 {
    if v < 0 {
        (v + 256) as u8
    } else {
        v as u8
    }
}

/// The byte with only bit `bit % 8` set.
pub open spec fn button_mask(bit: u8) -> u8 {
    vstd::arithmetic::power2::pow2((bit % 8) as nat) as u8
}

impl MouseReport {
    /// The report without movement or buttons.
    pub fn empty() -> (report: Self)
        ensures
            report.buttons == 0,
            report.x == 0,
            report.y == 0,
            report.wheel == 0,
            report.pan == 0,
    {
        MouseReport { buttons: 0, x: 0, y: 0, wheel: 0, pan: 0 }
    }

    /// The report with button number `button` pressed and no movement.
    /// Buttons are numbered from 0 to 7; a larger number counts modulo 8.
    pub fn click(button: u8) -> (report: Self)
        ensures
            report.buttons == button_mask(button),
            report.x == 0,
            report.y == 0,
            report.wheel == 0,
            report.pan == 0,
    {
        proof {
            vstd::arithmetic::power2::lemma2_to64();
            vstd::bits::lemma_u8_shl_is_mul(1, (button % 8) as u8);
        }
        MouseReport { buttons: 1u8.wrapping_shl(button as u32), x: 0, y: 0, wheel: 0, pan: 0 }
    }

    /// The report that moves the pointer by `x` and `y`.
    pub fn move_to(x: i8, y: i8) -> (report: Self)
        ensures
            report.buttons == 0,
            report.x == x,
            report.y == y,
            report.wheel == 0,
            report.pan == 0,
    {
        MouseReport { buttons: 0, x, y, wheel: 0, pan: 0 }
    }

    /// The report's bytes in wire order: buttons, x, y, wheel, pan, each
    /// signed value in two's complement.
    pub fn to_bytes(&self) -> (bytes: [u8; 5])
        ensures
            bytes@ == seq![
                self.buttons,
                wire_byte(self.x),
                wire_byte(self.y),
                wire_byte(self.wheel),
                wire_byte(self.pan),
            ],
    {
        let bytes = [
            self.buttons,
            signed_to_wire(self.x),
            signed_to_wire(self.y),
            signed_to_wire(self.wheel),
            signed_to_wire(self.pan),
        ];
        assert(bytes@ =~= seq![
            self.buttons,
            wire_byte(self.x),
            wire_byte(self.y),
            wire_byte(self.wheel),
            wire_byte(self.pan),
        ]);
        bytes
    }
}

/// Reinterprets a signed byte as the unsigned byte with the same bits.
fn signed_to_wire(v: i8) -> (b: u8)
    ensures
        b == wire_byte(v),
{
    let b = v as u8;
    assert(b == (if v < 0 {
        (v + 256) as u8
    } else {
        v as u8
    })) by (bit_vector)
        requires
            b == v as u8,
    ;
    b
}

} // verus!
