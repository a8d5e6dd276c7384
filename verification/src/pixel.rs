use vstd::prelude::*;

verus! {

/// One RGBA pixel, eight bits per channel.
#[derive(Clone, Copy, PartialEq, Eq, Structural, Debug)]
pub struct Rgba {
    pub r: u8,
    pub g: u8,
    pub b: u8,
    pub a: u8,
}

/// The fully transparent pixel used as the background of a freshly
/// allocated canvas.
pub open spec fn transparent() -> Rgba {
    Rgba { r: 0, g: 0, b: 0, a: 0 }
}

/// The byte that channel `c` (red, green, blue, alpha in that order) of a
/// pixel contributes to a tightly packed RGBA buffer.
pub open spec fn channel(p: Rgba, c: int) -> u8 {
    if c == 0 {
        p.r
    } else if c == 1 {
        p.g
    } else if c == 2 {
        p.b
    } else {
        p.a
    }
}

impl Rgba {
    /// Builds the fully transparent pixel.
    pub fn transparent_pixel() -> (p: Rgba)
        ensures
            p == transparent(),
    {
        Rgba { r: 0, g: 0, b: 0, a: 0 }
    }
}

} // verus!
