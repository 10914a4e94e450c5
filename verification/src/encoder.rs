//! Encoding a rendered buffer as an 8-bit grayscale PNG image, in memory.

use image::png::PNGEncoder;
use image::ColorType;
use vstd::prelude::*;

verus! {

/// Why a buffer could not be encoded.
#[derive(Clone, Copy, Debug, PartialEq, Eq, Structural)]
pub enum EncodeError {
    /// The buffer does not hold one byte for each pixel.
    SizeMismatch,
    /// The image has no pixels: its width or its height is zero.
    EmptyImage,
    /// A dimension is larger than the encoder can take.
    TooLarge,
    /// The encoder failed.
    Encoder,
}

/// The bytes of the PNG image that `image`'s encoder writes for the 8-bit
/// grayscale pixels `pixels` of an image `width` wide and `height` high, or
/// `None` where it fails.
pub uninterp spec fn png_encoding(pixels: Seq<u8>, width: u32, height: u32) -> Option<Seq<u8>>;

/// The dimensions fit the 32-bit fields of the format, and a row's bits can be
/// counted in a `usize`.
pub open spec fn fits_encoder(bounds: (usize, usize)) -> bool {
    &&& bounds.0 <= u32::MAX
    &&& bounds.1 <= u32::MAX
    &&& bounds.0 * 8 <= usize::MAX
}

/// What is wrong with a buffer of `len` bytes as an image of the size
/// `bounds`, or `None` where it can be handed to the encoder.
pub open spec fn rejection(len: nat, bounds: (usize, usize)) -> Option<EncodeError> {
    if len != bounds.0 * bounds.1 {
        Some(EncodeError::SizeMismatch)
    } else if bounds.0 == 0 || bounds.1 == 0 {
        Some(EncodeError::EmptyImage)
    } else if !fits_encoder(bounds) {
        Some(EncodeError::TooLarge)
    } else {
        None
    }
}

/// What encoding gives: the rejection where there is one, else what the
/// encoder has made of the pixels.
pub open spec fn encoding(pixels: Seq<u8>, bounds: (usize, usize)) -> Result<Seq<u8>, EncodeError> {
    match rejection(pixels.len(), bounds) {
        Some(e) => Err(e),
        None => match png_encoding(pixels, bounds.0 as u32, bounds.1 as u32) {
            Some(bytes) => Ok(bytes),
            None => Err(EncodeError::Encoder),
        },
    }
}

/// Calls `image::png::PNGEncoder::encode` with the color type `Gray(8)` and a
/// vector as the writer. The contract names what the encoder wrote, or its
/// failure, `png_encoding` of the arguments, and claims nothing else. The
/// `requires` keeps to images with pixels whose row lengths the `png` crate
/// computes without overflow.
#[verifier::external_body]
fn encode_gray(pixels: &[u8], width: u32, height: u32) -> (r: Option<Vec<u8>>)
    requires
        width > 0,
        height > 0,
        pixels@.len() == width * height,
        width * 8 <= usize::MAX,
    ensures
        match r {
            Some(bytes) => png_encoding(pixels@, width, height) == Some(bytes@),
            None => png_encoding(pixels@, width, height) is None,
        },
{
    let mut out: Vec<u8> = Vec::new();
    match PNGEncoder::new(&mut out).encode(pixels, width, height, ColorType::Gray(8)) {
        Ok(()) => Some(out),
        Err(_) => None,
    }
}

/// Checks that `len` bytes are the pixels of an image of the size `bounds`
/// that the encoder can take.
pub fn check_image(len: usize, bounds: (usize, usize)) -> (r: Result<(u32, u32), EncodeError>)
    ensures
        match r {
            Ok((width, height)) => {
                &&& rejection(len as nat, bounds) is None
                &&& width == bounds.0
                &&& height == bounds.1
            },
            Err(e) => rejection(len as nat, bounds) == Some(e),
        },
{
    let (width, height) = bounds;
    match width.checked_mul(height) {
        None => {
            return Err(EncodeError::SizeMismatch);
        },
        Some(size) => {
            if size != len {
                return Err(EncodeError::SizeMismatch);
            }
        },
    }
    if width == 0 || height == 0 {
        return Err(EncodeError::EmptyImage);
    }
    if width > u32::MAX as usize || height > u32::MAX as usize || width.checked_mul(8).is_none() {
        return Err(EncodeError::TooLarge);
    }
    Ok((width as u32, height as u32))
}

/// Encodes `pixels`, the row-major 8-bit gray values of an image of the size
/// `bounds`, as a PNG image and returns the bytes of the file.
pub fn encode_image(pixels: &[u8], bounds: (usize, usize)) -> (r: Result<Vec<u8>, EncodeError>)
    ensures
        match r {
            Ok(bytes) => encoding(pixels@, bounds) == Ok::<Seq<u8>, EncodeError>(bytes@),
            Err(e) => encoding(pixels@, bounds) == Err::<Seq<u8>, EncodeError>(e),
        },
        rejection(pixels@.len(), bounds) matches Some(e) ==> r == Err::<Vec<u8>, EncodeError>(e),
{
    match check_image(pixels.len(), bounds) {
        Err(e) => Err(e),
        Ok((width, height)) => match encode_gray(pixels, width, height) {
            Some(bytes) => Ok(bytes),
            None => Err(EncodeError::Encoder),
        },
    }
}

} // verus!
