//! The ways decoding a bitmap can fail.
use vstd::prelude::*;

verus! {

/// Why a byte stream could not be decoded as a 24-bit uncompressed bitmap.
#[derive(Debug, Clone, Copy, PartialEq, Eq, Structural)]
pub enum FormatError {
    /// The first two bytes are not `"BM"`.
    BadSignature,
    /// The compression field is not zero.
    UnsupportedCompression,
    /// The image does not hold 24 bits per pixel.
    UnsupportedBitDepth,
    /// The stream ends before a field or the pixel data does.
    Truncated,
    /// A surface was given a number of cells other than `width * height`.
    InvalidSurfaceShape,
}

} // verus!
