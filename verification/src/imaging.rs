//! Icon payload classification and geometry policy.
//!
//! Raster decoding, PNG encoding and vector-markup parsing are done by the
//! `image` and `svg` crates; each call stands behind a trusted wrapper whose
//! contract names what the call computes.  Everything around the calls — the
//! classification order, the square check and the downscale policy — is
//! verified.

use vstd::prelude::*;

verus! {

/// The largest icon side kept as submitted; larger rasters are downscaled
/// to this side.
pub const MAX_ICON_SIDE: u32 = 512;

/// The width and height the `image` crate decodes from the bytes, or
/// `None` when it cannot decode them.  A function of the bytes alone.
pub uninterp spec fn raster_dims(data: Seq<u8>) -> Option<(u32, u32)>;

/// Whether the bytes are UTF-8 text that the `svg` crate parses without an
/// error event.  A function of the bytes alone.
pub uninterp spec fn is_vector_markup(data: Seq<u8>) -> bool;

/// The PNG encoding of the raster image decoded from the bytes.
pub uninterp spec fn png_plain(data: Seq<u8>) -> Seq<u8>;

/// The PNG encoding of the raster image decoded from the bytes, downscaled
/// to fit within `side` by `side` with the Lanczos filter.
pub uninterp spec fn png_scaled(data: Seq<u8>, side: u32) -> Seq<u8>;

/// Relies on image::ImageReader::with_guessed_format and decode, and on
/// DynamicImage::width and height: whether the bytes decode as a raster
/// image, and its dimensions, depend on the bytes alone.
#[verifier::external_body]
fn probe_raster(data: &[u8]) -> (r: Option<(u32, u32)>)
    ensures
        r == raster_dims(data@),
{
    let reader = match image::ImageReader::new(std::io::Cursor::new(data)).with_guessed_format() {
        Ok(reader) => reader,
        Err(_) => return None,
    };
    match reader.decode() {
        Ok(img) => Some((img.width(), img.height())),
        Err(_) => None,
    }
}

/// Relies on core::str::from_utf8 and on svg::read: the bytes are vector
/// markup when they are UTF-8 text whose svg::Parser yields no error event.
/// Both depend on the bytes alone.
#[verifier::external_body]
fn probe_vector(data: &[u8]) -> (r: bool)
    ensures
        r == is_vector_markup(data@),
{
    let text = match core::str::from_utf8(data) {
        Ok(text) => text,
        Err(_) => return false,
    };
    match svg::read(text) {
        Ok(parser) => parser.into_iter().all(|event| match event {
            svg::parser::Event::Error(_) => false,
            _ => true,
        }),
        Err(_) => false,
    }
}

/// Relies on image::ImageReader::decode and DynamicImage::write_to: the PNG
/// bytes written for a decoded image depend on the input bytes alone.  The
/// encode cannot fail: the PNG encoder takes every color type the decoders
/// linked into this crate produce (the float-sample decoders are not
/// enabled), and a Vec-backed writer cannot fail.  It does refuse an image
/// with a zero dimension, which some decoders accept, so those stay
/// outside the precondition.  The encoder writes the image's own width and
/// height, which decoding the result reads back.
#[verifier::external_body]
fn encode_png(data: &[u8]) -> (r: Vec<u8>)
    requires
        raster_dims(data@) matches Some(d) && d.0 >= 1 && d.1 >= 1,
    ensures
        r@ == png_plain(data@),
        raster_dims(r@) == raster_dims(data@),
{
    let img = image::ImageReader::new(std::io::Cursor::new(data))
        .with_guessed_format()
        .unwrap()
        .decode()
        .unwrap();
    let mut out: Vec<u8> = Vec::new();
    img.write_to(&mut std::io::Cursor::new(&mut out), image::ImageFormat::Png).unwrap();
    out
}

/// Relies on image::ImageReader::decode, DynamicImage::resize with the
/// Lanczos3 filter, and DynamicImage::write_to: the PNG bytes written for
/// the rescaled image depend on the input bytes and the target side alone.
/// The encode cannot fail, as for the plain encoder, and zero-dimension
/// sources stay outside the precondition for the same reason (the resize
/// arithmetic also degenerates on them).  Resizing a positive source
/// preserves the aspect ratio and scales to the largest size fitting the
/// bounds, so a square source comes out exactly `side` by `side`, and the
/// PNG records those dimensions.
#[verifier::external_body]
fn encode_png_scaled(data: &[u8], side: u32) -> (r: Vec<u8>)
    requires
        raster_dims(data@) matches Some(d) && d.0 >= 1 && d.1 >= 1,
        side >= 1,
    ensures
        r@ == png_scaled(data@, side),
        (raster_dims(data@) matches Some(d) && d.0 == d.1) ==> raster_dims(r@) == Some(
            (side, side),
        ),
{
    let img = image::ImageReader::new(std::io::Cursor::new(data))
        .with_guessed_format()
        .unwrap()
        .decode()
        .unwrap();
    let img = img.resize(side, side, image::imageops::FilterType::Lanczos3);
    let mut out: Vec<u8> = Vec::new();
    img.write_to(&mut std::io::Cursor::new(&mut out), image::ImageFormat::Png).unwrap();
    out
}

/// How an icon payload is understood.
#[derive(Clone, Copy, Debug, PartialEq, Eq, Structural)]
pub enum IconClass {
    /// Decodable raster-image data with the given width and height.
    Raster(u32, u32),
    /// UTF-8 vector markup.
    Vector,
    /// Neither.
    Unknown,
}

/// The total classification of a payload.  A payload that decodes as a
/// raster image is raster, whatever else it may parse as; only otherwise
/// is it considered as vector markup.
pub open spec fn classification(data: Seq<u8>) -> IconClass {
    match raster_dims(data) {
        Some(d) => IconClass::Raster(d.0, d.1),
        None => if is_vector_markup(data) {
            IconClass::Vector
        } else {
            IconClass::Unknown
        },
    }
}

/// Classifies an icon payload, trying the raster interpretation first.
pub fn classify_icon(data: &[u8]) -> (r: IconClass)
    ensures
        r == classification(data@),
{
    match probe_raster(data) {
        Some(d) => IconClass::Raster(d.0, d.1),
        None => if probe_vector(data) {
            IconClass::Vector
        } else {
            IconClass::Unknown
        },
    }
}

/// Whether an image's geometry is acceptable: icons must be square.
pub fn check_square(width: u32, height: u32) -> (r: bool)
    ensures
        r == (width == height),
{
    width == height
}

/// The side an icon is stored at: kept as submitted up to the bound,
/// downscaled to the bound above it.
pub open spec fn fitted_side(side: u32, max_side: u32) -> u32 {
    if side > max_side {
        max_side
    } else {
        side
    }
}

/// Computes the stored side for a submitted side.
pub fn resize_to_fit(side: u32, max_side: u32) -> (r: u32)
    ensures
        r == fitted_side(side, max_side),
{
    if side > max_side {
        max_side
    } else {
        side
    }
}

/// Encodes an icon payload as PNG at the stored side: re-encoded as
/// submitted when it fits, downscaled to `max_side` otherwise.  For a
/// square payload, the produced PNG carries the fitted side as its
/// dimensions.
pub fn render_png(data: &[u8], width: u32, max_side: u32) -> (r: Vec<u8>)
    requires
        raster_dims(data@) matches Some(d) && d.0 >= 1 && d.1 >= 1,
        max_side >= 1,
    ensures
        r@ == (if width > max_side {
            png_scaled(data@, max_side)
        } else {
            png_plain(data@)
        }),
        raster_dims(data@) == Some((width, width)) ==> raster_dims(r@) == Some(
            (fitted_side(width, max_side), fitted_side(width, max_side)),
        ),
{
    if width > max_side {
        encode_png_scaled(data, max_side)
    } else {
        encode_png(data)
    }
}

} // verus!
