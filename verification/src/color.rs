use vstd::prelude::*;

verus! {

/// One LED's color: three independent 8-bit channel intensities.
#[derive(Copy, Clone)]
pub struct LEDColor {
    pub r: u8,
    pub g: u8,
    pub b: u8,
}

impl LEDColor {
    /// Builds a color from its red, green and blue intensities.
    pub fn new(r: u8, g: u8, b: u8) -> (c: Self)
        ensures
            c.r == r,
            c.g == g,
            c.b == b,
    {
        LEDColor { r, g, b }
    }
}

} // verus!
