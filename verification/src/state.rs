//! The pointer's absolute position, kept up from the movements sent.

use vstd::prelude::*;
use vstd::wrapping::i16_specs::wrapping_sub;
use crate::saturating::clamp_i16;

verus! {

/// Where the pointer is taken to be.
pub struct MouseState {
    pub x: i16,
    pub y: i16,
}

impl MouseState {
    /// The pointer at the origin.
    pub fn new() -> (state: Self)
        ensures
            state.x == 0,
            state.y == 0,
    {
        MouseState { x: 0, y: 0 }
    }

    /// Moves the position by `dx` and `dy`; a coordinate that would leave
    /// the range of `i16` stops at its bound.
    pub fn update_relative(&mut self, dx: i16, dy: i16)
        ensures
            final(self).x == clamp_i16(old(self).x + dx),
            final(self).y == clamp_i16(old(self).y + dy),
    {
        self.x = self.x.saturating_add(dx);
        self.y = self.y.saturating_add(dy);
    }

    /// The movement that takes the pointer to `(target_x, target_y)`. A
    /// difference outside the range of `i16` wraps around.
    pub fn delta_to(&self, target_x: i16, target_y: i16) -> (delta: (i16, i16))
        ensures
            delta.0 == wrapping_sub(target_x, self.x),
            delta.1 == wrapping_sub(target_y, self.y),
            i16::MIN <= target_x - self.x <= i16::MAX ==> delta.0 == target_x - self.x,
            i16::MIN <= target_y - self.y <= i16::MAX ==> delta.1 == target_y - self.y,
    {
        (target_x.wrapping_sub(self.x), target_y.wrapping_sub(self.y))
    }

    /// Sets the position to `(x, y)`.
    pub fn set_position(&mut self, x: i16, y: i16)
        ensures
            final(self).x == x,
            final(self).y == y,
    {
        self.x = x;
        self.y = y;
    }

    /// The position.
    pub fn position(&self) -> (p: (i16, i16))
        ensures
            p.0 == self.x,
            p.1 == self.y,
    {
        (self.x, self.y)
    }
}

} // verus!
