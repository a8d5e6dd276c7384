use vstd::prelude::*;

use crate::bitmap::Bitmap;
use crate::pixel::Rgba;

verus! {

/// One display as handed over by the display enumerator: its top-left
/// origin and its logical size in virtual coordinates, and the captured
/// pixels, whose dimensions may differ from the logical size until the
/// capture has been normalized.
pub struct DisplayCapture {
    pub origin: (i32, i32),
    pub size: (u32, u32),
    pub pixels: Bitmap,
}

impl DisplayCapture {
    /// The captured pixel grid matches its declared dimensions.
    pub open spec fn wf(self) -> bool {
        self.pixels.wf()
    }

    /// Both the logical size and the captured pixel grid have strictly
    /// positive dimensions.
    pub open spec fn positive(self) -> bool {
        self.size.0 > 0 && self.size.1 > 0 && self.pixels.width > 0 && self.pixels.height > 0
    }

    /// The captured pixels match the reported logical size exactly.
    pub open spec fn normalized(self) -> bool {
        self.pixels.width == self.size.0 && self.pixels.height == self.size.1
    }
}

/// The display's pixel at local coordinate `(lx, ly)` of its logical grid,
/// read from the capture by nearest-neighbor resampling: each logical
/// coordinate picks the source pixel at the same relative position.
pub open spec fn resample(d: DisplayCapture, lx: int, ly: int) -> Rgba {
    d.pixels.pix(
        lx * d.pixels.width / (d.size.0 as int),
        ly * d.pixels.height / (d.size.1 as int),
    )
}

/// The composited virtual canvas: its origin and size in virtual
/// coordinates, and its pixels.
pub struct VirtualImage {
    pub xy: (i32, i32),
    pub wh: (u32, u32),
    pub image: Bitmap,
}

/// The placement of the virtual canvas alone: the minimum of all display
/// origins and the size of the tight bounding box around the displays.
pub struct VirtualImageSize {
    pub xy: (i32, i32),
    pub wh: (u32, u32),
}

/// The screen shot as handed across a text-only boundary: the canvas
/// encoded as PNG bytes in standard base64, with its placement.
pub struct ScreenShot {
    /** base64 encoded */
    pub image: String,
    pub xy: (i32, i32),
    pub wh: (u32, u32),
}

} // verus!
