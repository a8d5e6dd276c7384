#![allow(unused_imports)]
use vstd::prelude::*;

mod bitmap;
mod codec;
mod commands;
mod display;
mod errors;
mod laws;
mod pixel;
mod screenshot;

pub use bitmap::{crop_pixels, pixels_of_raw, raw_of_pixels, Bitmap};
pub use codec::{b64_len_ok, base64_decoded, base64_of, decoded_image, png_of};
pub use commands::{crop_image, cropped_raw, take_screen_shot};
pub use display::{resample, DisplayCapture, ScreenShot, VirtualImage, VirtualImageSize};
pub use errors::{CaptureError, CropError, RegionError};
pub use laws::{
    disjoint, lemma_composed_coverer, lemma_composition_order_independent,
    lemma_identity_composition, pairwise_disjoint,
};
pub use pixel::{channel, transparent, Rgba};
pub use screenshot::{
    canvas_pixels, composed_pixel, covers, fits, get_whole_size, max_by, max_rx, merge_images,
    min_ox, min_oy, process_image,
};
