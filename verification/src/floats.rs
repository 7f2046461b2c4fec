//! Comparisons of `f32` values given by their bits.
use vstd::prelude::*;

verus! {

/// The bits of `2.0f32`.
pub const GAMMA_2_0: u32 = 0x4000_0000;

/// The bits of `2.2f32`.
pub const GAMMA_2_2: u32 = 0x400C_CCCD;

/// The bits of `2.4f32`.
pub const GAMMA_2_4: u32 = 0x4019_999A;

/// The bits of `1.0f32`.
pub const ONE: u32 = 0x3F80_0000;

/// The bits of `5.0f32`.
pub const FIVE: u32 = 0x40A0_0000;

/// Whether the `f32` with the bits `b` is a NaN: all exponent bits set and a
/// mantissa that is not zero.
pub open spec fn is_nan(b: u32) -> bool {
    b % 0x8000_0000 > 0x7f80_0000
}

/// Whether the `f32`s with the bits `a` and `b` compare equal with `==`:
/// neither is a NaN, and they have the same bits or both are zeros.
pub open spec fn f32_eq(a: u32, b: u32) -> bool {
    !is_nan(a) && !is_nan(b) && (a == b || (a % 0x8000_0000 == 0 && b % 0x8000_0000 == 0))
}

/// `==` on the `f32`s with the bits `a` and `b`.
pub fn bits_eq(a: u32, b: u32) -> (r: bool)
    ensures
        r == f32_eq(a, b),
{
    let ma = a % 0x8000_0000;
    let mb = b % 0x8000_0000;
    ma <= 0x7f80_0000 && mb <= 0x7f80_0000 && (a == b || (ma == 0 && mb == 0))
}

} // verus!
