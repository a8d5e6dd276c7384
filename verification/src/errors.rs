use vstd::prelude::*;

verus! {

/// Why a requested crop rectangle was rejected by the region extractor.
#[derive(Clone, Copy, PartialEq, Eq, Structural, Debug)]
pub enum RegionError {
    /// The offset has a negative coordinate.
    NegativeOffset,
    /// The requested size has a zero dimension.
    ZeroSize,
    /// The rectangle extends past an edge of the source bitmap.
    OutOfBounds,
}

/// Why cropping an encoded image failed.
#[derive(Clone, Copy, PartialEq, Eq, Structural, Debug)]
pub enum CropError {
    /// The crop rectangle itself was invalid; a caller-input error.
    InvalidRegion(RegionError),
    /// The supplied bytes could not be decoded, or the result could not be
    /// re-encoded.
    CodecFailure,
}

/// Why composing a screen shot from the captured displays failed.
#[derive(Clone, Copy, PartialEq, Eq, Structural, Debug)]
pub enum CaptureError {
    /// The display collection handed to the compositor was empty.
    EmptyDisplaySet,
    /// The composed canvas could not be encoded for transport.
    CodecFailure,
}

} // verus!
