//! The checks and the geometry that the dithering pipeline reads from a bitmap's headers.
use vstd::prelude::*;
use crate::error::FormatError;
use crate::header::has_signature;
use crate::little_endian::{read_u16_at, read_u32_at, u16_at, u32_at};

verus! {

/// The compression field, bytes 30 to 33 of the stream, is all zero.
pub open spec fn uncompressed(b: Seq<u8>) -> bool {
    b[30] == 0 && b[31] == 0 && b[32] == 0 && b[33] == 0
}

/// Checks that `bytes` starts with the signature `"BM"`.
pub fn check_sig(bytes: &[u8]) -> (r: Result<(), FormatError>)
    ensures
        bytes@.len() < 2 ==> r == Err::<(), FormatError>(FormatError::Truncated),
        bytes@.len() >= 2 && has_signature(bytes@) ==> r is Ok,
        bytes@.len() >= 2 && !has_signature(bytes@) ==> r == Err::<(), FormatError>(
            FormatError::BadSignature,
        ),
{
    if bytes.len() < 2 {
        return Err(FormatError::Truncated);
    }
    if bytes[0] == 66 && bytes[1] == 77 {
        Ok(())
    } else {
        Err(FormatError::BadSignature)
    }
}

/// Checks that the compression field of the stream `bytes` is zero.
pub fn check_compression(bytes: &[u8]) -> (r: Result<(), FormatError>)
    ensures
        bytes@.len() < 34 ==> r == Err::<(), FormatError>(FormatError::Truncated),
        bytes@.len() >= 34 && uncompressed(bytes@) ==> r is Ok,
        bytes@.len() >= 34 && !uncompressed(bytes@) ==> r == Err::<(), FormatError>(
            FormatError::UnsupportedCompression,
        ),
{
    if bytes.len() < 34 {
        return Err(FormatError::Truncated);
    }
    if bytes[30] == 0 && bytes[31] == 0 && bytes[32] == 0 && bytes[33] == 0 {
        Ok(())
    } else {
        Err(FormatError::UnsupportedCompression)
    }
}

/// Where the pixels start, and the geometry of the image.
#[derive(Debug, Clone, Copy, PartialEq, Eq, Structural)]
pub struct BmpInfo {
    pub offset: u64,
    pub width: u32,
    pub height: u32,
    pub bits_per_pixel: u16,
}

/// The geometry held in the headers at the start of `b`.
pub open spec fn bmp_info_of(b: Seq<u8>) -> BmpInfo {
    BmpInfo {
        offset: u32_at(b, 10) as u64,
        width: u32_at(b, 18),
        height: u32_at(b, 22),
        bits_per_pixel: u16_at(b, 28),
    }
}

impl BmpInfo {
    /// Reads the pixel data offset, the width, the height and the bits per
    /// pixel from the headers of the stream `bytes`.
    pub fn from_file(bytes: &[u8]) -> (r: Result<BmpInfo, FormatError>)
        ensures
            bytes@.len() < 30 ==> r == Err::<BmpInfo, FormatError>(FormatError::Truncated),
            bytes@.len() >= 30 ==> r == Ok::<BmpInfo, FormatError>(bmp_info_of(bytes@)),
    {
        if bytes.len() < 30 {
            return Err(FormatError::Truncated);
        }
        let offset = read_u32_at(bytes, 10) as u64;
        let width = read_u32_at(bytes, 18);
        let height = read_u32_at(bytes, 22);
        let bits_per_pixel = read_u16_at(bytes, 28);
        Ok(BmpInfo { offset, width, height, bits_per_pixel })
    }
}

} // verus!
