use vstd::prelude::*;
use vstd::arithmetic::div_mod::{lemma_fundamental_div_mod, lemma_mod_bound};

use crate::bitmap::{crop_pixels, pixels_of_raw, raw_of_pixels, Bitmap};
use crate::codec::{
    b64_decode, b64_encode, b64_len_ok, base64_decoded, base64_of, decoded_image, png_decode,
    png_encode, png_of,
};
use crate::display::{resample, DisplayCapture, ScreenShot};
use crate::errors::{CaptureError, CropError, RegionError};
use crate::screenshot::{
    canvas_pixels, fits, lemma_composed_congruent, lemma_extents_congruent, max_by, max_rx,
    merge_images, min_ox, min_oy, process_image,
};

verus! {

/// The packed RGBA bytes of the `w` by `h` region at offset `(x, y)` of a
/// decoded image with dimensions `iw` by `ih` and packed RGBA bytes `raw`.
pub open spec fn cropped_raw(
    iw: nat,
    ih: nat,
    raw: Seq<u8>,
    x: int,
    y: int,
    w: int,
    h: int,
) -> Seq<u8> {
    raw_of_pixels(crop_pixels(pixels_of_raw(iw as int, ih as int, raw), iw as int, x, y, w, h))
}

/// Checks that a byte buffer is small enough to base64-encode.
fn b64_len_check(buf: &Vec<u8>) -> (ok: bool)
    ensures
        ok == b64_len_ok(buf@.len() as int),
{
    let ghost len = buf@.len() as int;
    proof {
        lemma_fundamental_div_mod(usize::MAX - 4, 4);
        lemma_mod_bound(usize::MAX - 4, 4);
    }
    buf.len() / 3 <= (usize::MAX - 4) / 4
}

/// Crops a base64-encoded image: decodes it, validates the rectangle and
/// extracts the region, and hands the result back base64-encoded again.
/// Validation order, first failure wins: negative offset, zero size,
/// undecodable input, rectangle past the image edges. On a valid in-bounds
/// region of a decodable image it succeeds whenever the PNG writer accepts
/// the cropped image and the encoding fits the base64 engine's limits.
pub fn crop_image(image: String, xy: (i32, i32), wh: (u32, u32)) -> (r: Result<String, CropError>)
    ensures
        (xy.0 < 0 || xy.1 < 0) <==> r == Err::<String, CropError>(
            CropError::InvalidRegion(RegionError::NegativeOffset),
        ),
        (xy.0 >= 0 && xy.1 >= 0 && (wh.0 == 0 || wh.1 == 0)) <==> r == Err::<String, CropError>(
            CropError::InvalidRegion(RegionError::ZeroSize),
        ),
        xy.0 >= 0 && xy.1 >= 0 && wh.0 > 0 && wh.1 > 0 && base64_decoded(image@) is None ==> r
            == Err::<String, CropError>(CropError::CodecFailure),
        xy.0 >= 0 && xy.1 >= 0 && wh.0 > 0 && wh.1 > 0 ==> (base64_decoded(image@) matches Some(
            bytes,
        ) ==> (decoded_image(bytes) is None ==> r == Err::<String, CropError>(
            CropError::CodecFailure,
        ))),
        xy.0 >= 0 && xy.1 >= 0 && wh.0 > 0 && wh.1 > 0 ==> (base64_decoded(image@) matches Some(
            bytes,
        ) ==> (decoded_image(bytes) matches Some(t) ==> ((xy.0 + wh.0 > t.0 || xy.1 + wh.1 > t.1)
            ==> r == Err::<String, CropError>(
            CropError::InvalidRegion(RegionError::OutOfBounds),
        )))),
        r == Err::<String, CropError>(CropError::InvalidRegion(RegionError::OutOfBounds)) ==> xy.0
            >= 0 && xy.1 >= 0 && wh.0 > 0 && wh.1 > 0 && (base64_decoded(image@) matches Some(
            bytes,
        ) && decoded_image(bytes) matches Some(t) && (xy.0 + wh.0 > t.0 || xy.1 + wh.1 > t.1)),
        xy.0 >= 0 && xy.1 >= 0 && wh.0 > 0 && wh.1 > 0 ==> (base64_decoded(image@) matches Some(
            bytes,
        ) ==> (decoded_image(bytes) matches Some(t) ==> (xy.0 + wh.0 <= t.0 && xy.1 + wh.1 <= t.1
            ==> ({
            let enc = png_of(
                wh.0 as nat,
                wh.1 as nat,
                cropped_raw(t.0, t.1, t.2, xy.0 as int, xy.1 as int, wh.0 as int, wh.1 as int),
            );
            &&& (r is Ok <==> (enc matches Some(p) && b64_len_ok(p.len() as int)))
            &&& (r matches Ok(out) ==> (enc matches Some(p) && out@ == base64_of(p)))
            &&& (r is Err ==> r == Err::<String, CropError>(CropError::CodecFailure))
        })))),
{
    if xy.0 < 0 || xy.1 < 0 {
        return Err(CropError::InvalidRegion(RegionError::NegativeOffset));
    }
    if wh.0 == 0 || wh.1 == 0 {
        return Err(CropError::InvalidRegion(RegionError::ZeroSize));
    }
    let bytes = match b64_decode(image.as_str()) {
        Some(b) => b,
        None => {
            return Err(CropError::CodecFailure);
        },
    };
    let decoded = match png_decode(&bytes) {
        Some(t) => t,
        None => {
            return Err(CropError::CodecFailure);
        },
    };
    let iw: u32 = decoded.0;
    let ih: u32 = decoded.1;
    let raw: Vec<u8> = decoded.2;
    let src = Bitmap::from_raw(iw, ih, &raw);
    let cropped = match src.crop(xy.0, xy.1, wh.0, wh.1) {
        Ok(b) => b,
        Err(e) => {
            return Err(CropError::InvalidRegion(e));
        },
    };
    let raw_len: usize = raw.len();
    proof {
        assert((wh.0 * wh.1) as int <= (iw * ih) as int) by (nonlinear_arith)
            requires
                0 < wh.0 <= iw,
                0 < wh.1 <= ih,
        ;
        assert(raw@.len() == raw_len);
    }
    let out_raw = cropped.to_raw();
    let png = match png_encode(wh.0, wh.1, &out_raw) {
        Some(p) => p,
        None => {
            return Err(CropError::CodecFailure);
        },
    };
    if !b64_len_check(&png) {
        return Err(CropError::CodecFailure);
    }
    let text = b64_encode(&png);
    Ok(text)
}

/// Composes one screen shot from the captured displays: normalizes each
/// capture to its display's logical size, composites the virtual canvas,
/// and encodes it as PNG bytes in standard base64 together with the
/// canvas placement. Fails with `EmptyDisplaySet` exactly on an empty
/// display collection; on a non-empty one it succeeds whenever the PNG
/// writer accepts the canvas and the encoding fits the base64 engine's
/// limits, and fails with `CodecFailure` otherwise.
pub fn take_screen_shot(displays: Vec<DisplayCapture>) -> (r: Result<ScreenShot, CaptureError>)
    requires
        forall|i: int|
            0 <= i < displays@.len() ==> (#[trigger] displays@[i]).wf() && displays@[i].positive()
                && (displays@[i].size.0 * displays@[i].size.1) as int <= usize::MAX,
        fits(displays@),
        4 * ((max_rx(displays@) - min_ox(displays@)) * (max_by(displays@) - min_oy(displays@)))
            <= usize::MAX,
    ensures
        displays@.len() == 0 <==> r == Err::<ScreenShot, CaptureError>(
            CaptureError::EmptyDisplaySet,
        ),
        displays@.len() > 0 ==> ({
            let enc = png_of(
                (max_rx(displays@) - min_ox(displays@)) as nat,
                (max_by(displays@) - min_oy(displays@)) as nat,
                raw_of_pixels(canvas_pixels(displays@)),
            );
            &&& (r is Ok <==> (enc matches Some(p) && b64_len_ok(p.len() as int)))
            &&& (r matches Ok(s) ==> s.xy.0 == min_ox(displays@) && s.xy.1 == min_oy(displays@)
                && s.wh.0 == max_rx(displays@) - min_ox(displays@) && s.wh.1 == max_by(displays@)
                - min_oy(displays@) && (enc matches Some(p) && s.image@ == base64_of(p)))
            &&& (r is Err ==> r == Err::<ScreenShot, CaptureError>(CaptureError::CodecFailure))
        }),
{
    let ghost ds = displays@;
    let n = displays.len();
    let mut normalized: Vec<DisplayCapture> = Vec::new();
    let mut i: usize = 0;
    while i < n
        invariant
            i <= n,
            n == ds.len(),
            ds == displays@,
            forall|q: int|
                0 <= q < n ==> (#[trigger] ds[q]).wf() && ds[q].positive() && (ds[q].size.0
                    * ds[q].size.1) as int <= usize::MAX,
            normalized@.len() == i,
            forall|q: int|
                0 <= q < i ==> (#[trigger] normalized@[q]).origin == ds[q].origin
                    && normalized@[q].size == ds[q].size && normalized@[q].wf()
                    && normalized@[q].normalized() && normalized@[q].positive(),
            forall|q: int, lx: int, ly: int|
                0 <= q < i && 0 <= lx < ds[q].size.0 && 0 <= ly < ds[q].size.1
                    ==> #[trigger] normalized@[q].pixels.pix(lx, ly) == resample(ds[q], lx, ly),
        decreases n - i,
    {
        let nd = process_image(&displays[i]);
        normalized.push(nd);
        i = i + 1;
    }
    proof {
        lemma_extents_congruent(ds, normalized@);
    }
    let merged = match merge_images(&normalized) {
        Ok(v) => v,
        Err(e) => {
            return Err(e);
        },
    };
    proof {
        assert(4 * merged.image.data@.len() <= usize::MAX);
        assert forall|q: int, lx: int, ly: int|
            0 <= q < ds.len() && 0 <= lx < ds[q].size.0 && 0 <= ly
                < ds[q].size.1 implies #[trigger] resample(normalized@[q], lx, ly) == resample(
            ds[q],
            lx,
            ly,
        ) by {
            vstd::arithmetic::div_mod::lemma_div_by_multiple(lx, ds[q].size.0 as int);
            vstd::arithmetic::div_mod::lemma_div_by_multiple(ly, ds[q].size.1 as int);
            assert(resample(normalized@[q], lx, ly) == normalized@[q].pixels.pix(lx, ly));
        }
        assert forall|ci: int| 0 <= ci < canvas_pixels(ds).len() implies canvas_pixels(
            normalized@,
        )[ci] == canvas_pixels(ds)[ci] by {
            let w = max_rx(ds) - min_ox(ds);
            lemma_composed_congruent(ds, normalized@, min_ox(ds) + ci % w, min_oy(ds) + ci / w);
        }
        assert(canvas_pixels(normalized@) =~= canvas_pixels(ds));
        assert(merged.image.data@ == canvas_pixels(ds));
    }
    let raw = merged.image.to_raw();
    let png = match png_encode(merged.wh.0, merged.wh.1, &raw) {
        Some(p) => p,
        None => {
            return Err(CaptureError::CodecFailure);
        },
    };
    if !b64_len_check(&png) {
        return Err(CaptureError::CodecFailure);
    }
    let text = b64_encode(&png);
    Ok(ScreenShot { image: text, xy: merged.xy, wh: merged.wh })
}

} // verus!
