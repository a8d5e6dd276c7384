use vstd::prelude::*;

use base64::Engine;

verus! {

/// The standard base64 text of a byte sequence, as base64's STANDARD
/// engine produces it.
pub uninterp spec fn base64_of(bytes: Seq<u8>) -> Seq<char>;

/// The bytes that base64's STANDARD engine decodes a text to, or nothing
/// where it rejects the text.
pub uninterp spec fn base64_decoded(text: Seq<char>) -> Option<Seq<u8>>;

/// The PNG encoding of a tightly packed row-major RGBA byte buffer with
/// the given dimensions, as the image crate's PNG writer produces it, or
/// nothing where the writer rejects the image (a zero dimension, a
/// dimension past the format's limits).
pub uninterp spec fn png_of(width: nat, height: nat, raw: Seq<u8>) -> Option<Seq<u8>>;

/// The base64 input length is small enough for the encoder's output-size
/// computation.
pub open spec fn b64_len_ok(len: int) -> bool {
    4 * (len / 3) + 4 <= usize::MAX
}

/// The image that the image crate decodes a byte stream to, as a tightly
/// packed row-major RGBA byte buffer with its dimensions, or nothing where
/// it rejects the bytes.
pub uninterp spec fn decoded_image(bytes: Seq<u8>) -> Option<(nat, nat, Seq<u8>)>;

/// Relies on base64's `Engine::encode` with the STANDARD engine: the text
/// is a pure function of the input bytes. The length bound keeps the
/// engine's internal output-size computation from overflowing.
#[verifier::external_body]
pub(crate) fn b64_encode(bytes: &Vec<u8>) -> (r: String)
    requires
        b64_len_ok(bytes@.len() as int),
    ensures
        r@ == base64_of(bytes@),
{
    base64::engine::general_purpose::STANDARD.encode(bytes)
}

/// Relies on base64's `Engine::decode` with the STANDARD engine: the
/// result is a pure function of the input text, and decoding fails exactly
/// on the texts the engine rejects.
#[verifier::external_body]
pub(crate) fn b64_decode(text: &str) -> (r: Option<Vec<u8>>)
    ensures
        r matches Some(v) ==> base64_decoded(text@) == Some(v@),
        r is None ==> base64_decoded(text@) is None,
{
    base64::engine::general_purpose::STANDARD.decode(text.as_bytes()).ok()
}

/// Relies on `image::RgbaImage::from_raw` and `ImageBuffer::write_to` with
/// the PNG format: the encoded bytes — and whether the writer accepts the
/// image at all — are a pure function of the dimensions and the pixel
/// buffer.
#[verifier::external_body]
pub(crate) fn png_encode(width: u32, height: u32, raw: &Vec<u8>) -> (r: Option<Vec<u8>>)
    requires
        raw@.len() == 4 * ((width * height) as int),
    ensures
        r matches Some(v) ==> png_of(width as nat, height as nat, raw@) == Some(v@),
        r is None ==> png_of(width as nat, height as nat, raw@) is None,
{
    let img = match image::RgbaImage::from_raw(width, height, raw.clone()) {
        Some(img) => img,
        None => {
            return None;
        },
    };
    let mut buf: Vec<u8> = Vec::new();
    let mut cursor = std::io::Cursor::new(&mut buf);
    match img.write_to(&mut cursor, image::ImageFormat::Png) {
        Ok(()) => Some(buf),
        Err(_) => None,
    }
}

/// Relies on `image::load_from_memory` and `DynamicImage::to_rgba8`: the
/// decoded image is a pure function of the input bytes, handed back as a
/// tightly packed row-major RGBA buffer of exactly four bytes per pixel,
/// and decoding fails exactly on the byte streams the crate rejects.
#[verifier::external_body]
pub(crate) fn png_decode(bytes: &Vec<u8>) -> (r: Option<(u32, u32, Vec<u8>)>)
    ensures
        r matches Some(t) ==> decoded_image(bytes@) == Some(
            (t.0 as nat, t.1 as nat, t.2@),
        ) && t.2@.len() == 4 * ((t.0 * t.1) as int),
        r is None ==> decoded_image(bytes@) is None,
{
    match image::load_from_memory(bytes) {
        Ok(img) => {
            let rgba = img.to_rgba8();
            let (w, h) = rgba.dimensions();
            Some((w, h, rgba.into_raw()))
        },
        Err(_) => None,
    }
}

} // verus!
