//! The registrar's error taxonomy.

use vstd::prelude::*;

verus! {

/// Why a submitted launcher descriptor was rejected.
#[derive(Clone, Copy, Debug, PartialEq, Eq, Structural)]
pub enum ValidationError {
    /// The application id is empty or holds a character outside the
    /// portable name alphabet.
    InvalidAppId,
    /// The text does not open with the `[Desktop Entry]` group header.
    MissingHeader,
    /// Some line is neither blank, a comment, a group header nor a
    /// well-formed key/value pair.
    MalformedLine,
    /// The `[Desktop Entry]` group lacks a required key.
    MissingRequiredKey,
}

/// Why a submitted icon payload was rejected.
#[derive(Clone, Copy, Debug, PartialEq, Eq, Structural)]
pub enum IconValidationError {
    /// A raster payload cannot be stored in the raster format: the PNG
    /// encoder refuses an image with a zero dimension, the one shape the
    /// linked decoders accept that it does not.
    ImageFormat,
    /// The raster image's width and height differ.
    NotSquare,
    /// The payload is neither decodable raster-image data nor UTF-8
    /// vector markup.
    NoTypeFound,
}

/// A failed registrar operation.
#[derive(Clone, Debug)]
pub enum EntryManagerError {
    /// A filesystem operation failed in the embedding program.
    IO,
    /// The descriptor text was rejected.
    EntryValidation(ValidationError),
    /// The icon payload was rejected.
    IconValidation(IconValidationError),
    /// The target path already holds an artifact; it is never overwritten.
    PathCollision(String),
}

impl IconValidationError {
    /// A human-readable account of the rejection.
    pub fn message(&self) -> (r: String)
        ensures
            *self == IconValidationError::ImageFormat ==> r@ == "Icon could not be encoded as a PNG image."@,
            *self == IconValidationError::NotSquare ==> r@ == "Icon is not square!"@,
            *self == IconValidationError::NoTypeFound ==> r@
                == "Icon specified does not match binary image data nor UTF-8 encoded .svg data."@,
    {
        match self {
            IconValidationError::ImageFormat => String::from_str("Icon could not be encoded as a PNG image."),
            IconValidationError::NotSquare => String::from_str("Icon is not square!"),
            IconValidationError::NoTypeFound => String::from_str(
                "Icon specified does not match binary image data nor UTF-8 encoded .svg data.",
            ),
        }
    }
}

} // verus!
