//! Decoding the input picture into RGBA pixels, and rebuilding a picture from
//! processed pixels, through the `image` crate.

use vstd::prelude::*;
use crate::loader::{image_params_problem, ProcessError};
use crate::validation::rgba_len_spec;

verus! {

/// A picture as plain values: its size and its RGBA bytes, row by row.
#[derive(Debug, Clone, PartialEq, Eq)]
pub struct RgbaImageData {
    pub width: u32,
    pub height: u32,
    pub pixels: Vec<u8>,
}

/// `image::load_from_memory` followed by `DynamicImage::to_rgba8`, `dimensions` and
/// `into_raw`. Which format is guessed and which decoder runs can be changed by hooks
/// that any code of the program may register with the `image` crate, so the contract
/// names no result: it claims only that the pixel bytes number exactly
/// `width * height * 4`, as `to_rgba8` builds a buffer of that size. On failure it
/// returns the error's message, whose text is left unsaid.
#[verifier::external_body]
fn load_rgba8(bytes: &[u8]) -> (res: Result<(u32, u32, Vec<u8>), String>)
    ensures
        res matches Ok((w, h, px)) ==> px@.len() == rgba_len_spec(w as int, h as int),
{
    match image::load_from_memory(bytes) {
        Ok(img) => {
            let rgba = img.to_rgba8();
            let (w, h) = rgba.dimensions();
            Ok((w, h, rgba.into_raw()))
        },
        Err(e) => Err(e.to_string()),
    }
}

/// Decodes the bytes of a picture file into 8-bit RGBA pixels: a picture of
/// `width` x `height` pixels with exactly four bytes per pixel, or an `ImageError`
/// with the decoder's message.
pub fn decode_image(bytes: &[u8]) -> (res: Result<RgbaImageData, ProcessError>)
    ensures
        match res {
            Ok(img) => img.pixels@.len() == rgba_len_spec(img.width as int, img.height as int),
            Err(e) => e is ImageError,
        },
{
    match load_rgba8(bytes) {
        Ok((width, height, pixels)) => Ok(RgbaImageData { width, height, pixels }),
        Err(msg) => Err(ProcessError::ImageError(msg)),
    }
}

/// Whether `len` bytes are enough for a `width` x `height` RGBA picture, with the size
/// computed as `image` computes it: `4 * width`, then times `height`, each step
/// without overflowing `usize`.
pub open spec fn raw_fits(width: u32, height: u32, len: int) -> bool {
    &&& 4 * (width as int) <= usize::MAX
    &&& 4 * (width as int) * (height as int) <= usize::MAX
    &&& 4 * (width as int) * (height as int) <= len
}

/// `image::RgbaImage::from_raw` followed by `ImageBuffer::into_raw`: `None` when the
/// bytes are fewer than `4 * width * height` or computing that size (`4 * width`
/// first) overflows `usize`; otherwise
/// the picture is built over the bytes, and taking them back out gives them unchanged.
#[verifier::external_body]
fn rgba_image_from_raw(width: u32, height: u32, pixels: Vec<u8>) -> (res: Option<Vec<u8>>)
    ensures
        res is Some <==> raw_fits(width, height, pixels@.len() as int),
        res matches Some(px) ==> px@ == pixels@,
{
    match image::RgbaImage::from_raw(width, height, pixels) {
        Some(img) => Some(img.into_raw()),
        None => None,
    }
}

/// Rebuilds the picture from processed pixels; `CorruptedImage` when the pixels
/// cannot fill a `width` x `height` picture.
pub fn finished_image(width: u32, height: u32, pixels: Vec<u8>) -> (res: Result<
    RgbaImageData,
    ProcessError,
>)
    ensures
        res is Ok <==> raw_fits(width, height, pixels@.len() as int),
        res matches Ok(img) ==> img.width == width && img.height == height && img.pixels@
            == pixels@,
        res is Err ==> res == Err::<RgbaImageData, ProcessError>(ProcessError::CorruptedImage),
{
    match rgba_image_from_raw(width, height, pixels) {
        Some(px) => Ok(RgbaImageData { width, height, pixels: px }),
        None => Err(ProcessError::CorruptedImage),
    }
}

/// A decoded picture of non-zero size passes the host's shape check, and pixels that
/// pass that check always rebuild into a picture: a plugin call, which keeps the
/// length of the buffer, never ends in `CorruptedImage`.
pub proof fn lemma_decoded_picture_round_trip(width: u32, height: u32, len: int)
    requires
        width > 0,
        height > 0,
        len == rgba_len_spec(width as int, height as int),
        len <= usize::MAX,
    ensures
        image_params_problem(width, height, len) is None,
        raw_fits(width, height, len),
{
    lemma_checked_pixels_rebuild(width, height, len);
}

/// Pixels that passed the host's shape check always rebuild into a picture.
pub proof fn lemma_checked_pixels_rebuild(width: u32, height: u32, len: int)
    requires
        image_params_problem(width, height, len) is None,
    ensures
        raw_fits(width, height, len),
{
    assert(4 * (width as int) <= 4 * (width as int) * (height as int)) by (nonlinear_arith)
        requires
            height > 0,
    ;
    assert(4 * (width as int) * (height as int) == rgba_len_spec(width as int, height as int))
        by (nonlinear_arith);
}

} // verus!
