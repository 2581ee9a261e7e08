//! Encodings handed to outside crates: a frame as PNG, bytes as base64.

use vstd::prelude::*;

verus! {

/// The PNG file that the `image` crate writes for an 8-bit RGB buffer of the
/// given size.
pub uninterp spec fn png_rgb8_of(rgb: Seq<u8>, width: u32, height: u32) -> Seq<u8>;

/// Standard base64 (with padding) of a byte string.
pub uninterp spec fn base64_of(bytes: Seq<u8>) -> Seq<char>;

/// Relies on `image::codecs::png::PngEncoder::encode`: it writes the PNG file of
/// `rgb` into the output buffer, or reports an error.
#[verifier::external_body]
pub(crate) fn encode_png_rgb8(rgb: &Vec<u8>, width: u32, height: u32) -> (r: Option<Vec<u8>>)
    requires
        rgb@.len() == 3 * width * height,
    ensures
        r matches Some(png) ==> png@ == png_rgb8_of(rgb@, width, height),
{
    let mut out: Vec<u8> = Vec::new();
    let encoder = image::codecs::png::PngEncoder::new(&mut out);
    match encoder.encode(rgb, width, height, image::ColorType::Rgb8) {
        Ok(()) => Some(out),
        Err(_) => None,
    }
}

/// Relies on `base64::encode`: standard alphabet with `=` padding, four
/// characters for every started group of three bytes. It panics only when that
/// length overflows `usize`, which the bound on the input rules out.
#[verifier::external_body]
pub(crate) fn encode_base64(bytes: &Vec<u8>) -> (r: String)
    requires
        bytes@.len() <= usize::MAX / 2,
    ensures
        r@ == base64_of(bytes@),
        r@.len() == 4 * ((bytes@.len() + 2) / 3),
{
    base64::encode(bytes)
}

} // verus!
