use vstd::prelude::*;

verus! {

/// The fixed-point representation of 1.0: an integer `k` stands for `k / UNIT`.
///
/// A power of two no larger than 2^24, so every fixed-point value converts to an
/// `f32` exactly.
pub const UNIT: u32 = 16777216;

/// An RGB colour whose channels are fixed-point values (see `UNIT`).
#[derive(Clone, Copy, Debug, PartialEq, Eq, Structural)]
pub struct Color {
    pub r: u32,
    pub g: u32,
    pub b: u32,
}

/// The colour given to the iso-surface at `value`: red fades out as green fades
/// in, and blue stays off.
pub open spec fn color_of(value: nat) -> Color {
    Color { r: (UNIT - value) as u32, g: value as u32, b: 0 }
}

/// Maps an iso-value in [0, 1] to the colour `(1 - value, value, 0)`.
pub fn custom_color(value: u32) -> (c: Color)
    requires
        value <= UNIT,
    ensures
        c == color_of(value as nat),
        c.r + c.g == UNIT,
        c.b == 0,
{
    Color { r: UNIT - value, g: value, b: 0 }
}

} // verus!
