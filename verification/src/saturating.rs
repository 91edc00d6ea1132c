//! Saturating arithmetic on `i16`, as the standard library documents it.

use vstd::prelude::*;

verus! {

/// The `i16` nearest to `v`.
pub open spec fn clamp_i16(v: int) -> i16 {
    if v > i16::MAX {
        i16::MAX
    } else if v < i16::MIN {
        i16::MIN
    } else {
        v as i16
    }
}

/// `i16::saturating_add`: the sum, held at the bounds of `i16` where it
/// would pass them.
pub assume_specification[ i16::saturating_add ](x: i16, y: i16) -> (r: i16)
    ensures
        r == clamp_i16(x + y),
;

/// `i16::saturating_mul`: the product, held at the bounds of `i16` where it
/// would pass them.
pub assume_specification[ i16::saturating_mul ](x: i16, y: i16) -> (r: i16)
    ensures
        r == clamp_i16(x * y),
;

} // verus!
