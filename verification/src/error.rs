//! The closed set of failures a tiling run can report.

use vstd::prelude::*;

verus! {

/// Everything that can go wrong while building a tile pyramid.
#[derive(Clone, Copy, Debug, PartialEq, Eq, Structural)]
pub enum TilingError {
    /// The source path has no parent directory or file stem, or the
    /// source file cannot be decoded.
    UnsupportedSourceImage,
    /// A raw RGB buffer's length does not equal `width * height * 3`.
    DimensionMismatch,
    /// A level outside `[0, levels)` was requested.
    InvalidLevel,
    /// A directory or file could not be created or written.
    IOError,
    /// The external codec failed to encode or decode an image.
    CodecError,
}

impl TilingError {
    /// A human-readable description of the failure.
    pub fn message(&self) -> &'static str {
        match self {
            TilingError::UnsupportedSourceImage => "unsupported source image",
            TilingError::DimensionMismatch => {
                "input dimensions do not match input rgb data length"
            },
            TilingError::InvalidLevel => "level out of range",
            TilingError::IOError => "io error",
            TilingError::CodecError => "codec error",
        }
    }
}

/// The result type used throughout the tiler.
pub type DZIResult<T> = Result<T, TilingError>;

} // verus!
