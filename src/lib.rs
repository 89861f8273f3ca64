//! Error-diffusion dithering of uncompressed 24-bit bitmaps.
//!
//! The header codec validates a bitmap stream and extracts its geometry, the
//! row codec decodes the pixel region into a [`surface::Surface`], the
//! ditherer quantizes it in place, and the row codec encodes it again behind
//! the original header bytes.
pub mod bmp;
pub mod clamped;
pub mod dither;
pub mod error;
pub mod fileio;
pub mod header;
pub mod little_endian;
pub mod pixel;
pub mod quantize;
pub mod rows;
pub mod surface;
pub mod util;

use vstd::prelude::*;
use crate::bmp::{BmpInfo, bmp_info_of, check_compression, check_sig, uncompressed};
use crate::dither::{dither, dithered};
use crate::header::has_signature;
use crate::quantize::QuantizationLevel;
use crate::clamped::Clamped;
use crate::error::FormatError;
use crate::pixel::RGB;
use crate::rows::{
    decoded_cells, encoded_byte, encoded_rows, lemma_encoded_byte_at, lemma_pixel_within_rows,
    lemma_row_padding, padding_len, pixel_from_bytes, pixel_offset, pixel_region_fits, row_stride,
};
use crate::surface::{Surface, lemma_raster_position};

verus! {

/// Decodes the pixel rows of the stream `bytes` described by `info` into a
/// surface whose row `y = 0` is the top row of the image. Fails with
/// `Truncated` where the stream ends before the last row does.
pub fn read_rgb(info: &BmpInfo, bytes: &[u8]) -> (r: Result<Surface<RGB<i32>>, FormatError>)
    ensures
        !pixel_region_fits(*info, bytes@.len() as int) ==> r == Err::<
            Surface<RGB<i32>>,
            FormatError,
        >(FormatError::Truncated),
        pixel_region_fits(*info, bytes@.len() as int) ==> match r {
            Ok(s) => s.wf() && s.spec_width() == info.width && s.spec_height() == info.height
                && s.cells() == decoded_cells(bytes@, *info),
            Err(_) => false,
        },
{
    let width = info.width;
    let height = info.height;
    let pack_len: u64 = width as u64 * 3;
    let padding: u64 = (4 - pack_len % 4) % 4;
    let stride: u64 = pack_len + padding;
    assert(stride == row_stride(width as int));
    assert(height * stride <= 0xFFFF_FFFF * 0x3_0000_0003) by (nonlinear_arith)
        requires
            height <= 0xFFFF_FFFF,
            stride <= 0x3_0000_0003,
    ;
    if info.offset as u128 + height as u128 * stride as u128 > bytes.len() as u128 {
        return Err(FormatError::Truncated);
    }
    let ghost b = bytes@;
    let mut data: Vec<RGB<i32>> = Vec::new();
    let mut y: u32 = 0;
    while y < height
        invariant
            y <= height,
            width == info.width,
            height == info.height,
            stride == row_stride(width as int),
            b == bytes@,
            pixel_region_fits(*info, bytes@.len() as int),
            data@.len() == y * width,
            forall|k: int|
                0 <= k < data@.len() ==> #[trigger] data@[k] == pixel_from_bytes(
                    b,
                    pixel_offset(*info, k % width as int, k / width as int),
                ),
        decreases height - y,
    {
        let mut x: u32 = 0;
        while x < width
            invariant
                x <= width,
                y < height,
                width == info.width,
                height == info.height,
                stride == row_stride(width as int),
                b == bytes@,
                pixel_region_fits(*info, bytes@.len() as int),
                data@.len() == y * width + x,
                forall|k: int|
                    0 <= k < data@.len() ==> #[trigger] data@[k] == pixel_from_bytes(
                        b,
                        pixel_offset(*info, k % width as int, k / width as int),
                    ),
            decreases width - x,
        {
            let _len = bytes.len();  // brings `bytes@.len() <= usize::MAX` into the proof
            proof {
                lemma_pixel_within_rows(width as int, height as int, x as int, y as int);
                lemma_raster_position(x as int, y as int, width as int);
                assert(stride <= height * stride) by (nonlinear_arith)
                    requires
                        height >= 1,
                        stride >= 0,
                ;
                let row_start = (height - 1 - y) * stride;
                assert(info.offset + row_start + 3 * x + 3 <= bytes@.len());
                assert(stride <= bytes@.len());
                assert(info.offset <= bytes@.len());
            }
            let o: usize = info.offset as usize + (height - 1 - y) as usize * stride as usize + 3 * x as usize;
            data.push(RGB(bytes[o + 2] as i32, bytes[o + 1] as i32, bytes[o] as i32));
            x = x + 1;
        }
        assert((y + 1) * width == y * width + width) by (nonlinear_arith);
        y = y + 1;
    }
    assert(height * width == width * height) by (nonlinear_arith);
    assert(data@ =~= decoded_cells(b, *info));
    Ok(Surface::new(width, height, data))
}

/// Encodes the pixel rows of `surface`, whose shape `info` gives: the bottom
/// row first, each pixel as its blue, green and red channels saturated into
/// bytes, and each row padded with zeros to a multiple of four bytes.
pub fn write_rgb(info: &BmpInfo, surface: &Surface<RGB<i32>>) -> (r: Vec<u8>)
    requires
        surface.wf(),
        surface.spec_width() == info.width,
        surface.spec_height() == info.height,
        info.height * row_stride(info.width as int) <= usize::MAX,
    ensures
        r@ == encoded_rows(surface.cells(), info.width as int, info.height as int),
        r@.len() == info.height * row_stride(info.width as int),
        0 <= padding_len(info.width as int) <= 3,
        row_stride(info.width as int) % 4 == 0,
        r@.len() % 4 == 0,
{
    let width = info.width;
    let height = info.height;
    let pack_len: u64 = width as u64 * 3;
    let padding: u64 = (4 - pack_len % 4) % 4;
    let stride: u64 = pack_len + padding;
    let ghost cells = surface.cells();
    let ghost w = width as int;
    let ghost h = height as int;
    proof {
        lemma_row_padding(w, h);
    }
    let mut out: Vec<u8> = Vec::new();
    let mut row: u32 = 0;
    while row < height
        invariant
            row <= height,
            width == info.width,
            height == info.height,
            w == width,
            h == height,
            stride == row_stride(w),
            padding == padding_len(w),
            pack_len == 3 * w,
            cells == surface.cells(),
            surface.wf(),
            surface.spec_width() == width,
            surface.spec_height() == height,
            h * row_stride(w) <= usize::MAX,
            out@.len() == row * stride,
            forall|k: int| 0 <= k < out@.len() ==> #[trigger] out@[k] == encoded_byte(cells, w, h, k),
        decreases height - row,
    {
        let y = height - 1 - row;
        proof {
            assert((row + 1) * stride <= h * stride) by (nonlinear_arith)
                requires
                    row + 1 <= h,
                    stride >= 0,
            ;
            assert((row + 1) * stride == row * stride + stride) by (nonlinear_arith);
        }
        let mut x: u32 = 0;
        while x < width
            invariant
                x <= width,
                row < height,
                y == height - 1 - row,
                width == info.width,
                height == info.height,
                w == width,
                h == height,
                stride == row_stride(w),
                padding == padding_len(w),
                pack_len == 3 * w,
                cells == surface.cells(),
                surface.wf(),
                surface.spec_width() == width,
                surface.spec_height() == height,
                row * stride + stride <= usize::MAX,
                out@.len() == row * stride + 3 * x,
                forall|k: int|
                    0 <= k < out@.len() ==> #[trigger] out@[k] == encoded_byte(cells, w, h, k),
            decreases width - x,
        {
            let RGB(red, green, blue) = *surface.index((x, y));
            proof {
                lemma_encoded_byte_at(cells, w, h, row as int, 3 * x);
                lemma_encoded_byte_at(cells, w, h, row as int, 3 * x + 1);
                lemma_encoded_byte_at(cells, w, h, row as int, 3 * x + 2);
                assert((3 * x) / 3 == x && (3 * x) % 3 == 0);
                assert((3 * x + 1) / 3 == x && (3 * x + 1) % 3 == 1);
                assert((3 * x + 2) / 3 == x && (3 * x + 2) % 3 == 2);
            }
            out.push(Clamped(blue as i64).clamped_value());
            out.push(Clamped(green as i64).clamped_value());
            out.push(Clamped(red as i64).clamped_value());
            x = x + 1;
        }
        let mut i: u64 = 0;
        while i < padding
            invariant
                i <= padding,
                row < height,
                w == width,
                h == height,
                stride == row_stride(w),
                padding == padding_len(w),
                pack_len == 3 * w,
                row * stride + stride <= usize::MAX,
                out@.len() == row * stride + pack_len + i,
                forall|k: int|
                    0 <= k < out@.len() ==> #[trigger] out@[k] == encoded_byte(cells, w, h, k),
            decreases padding - i,
        {
            proof {
                lemma_encoded_byte_at(cells, w, h, row as int, pack_len + i);
            }
            out.push(0);
            i = i + 1;
        }
        row = row + 1;
    }
    assert(out@ =~= encoded_rows(cells, w, h));
    out
}

/// What dithering the bitmap stream `b` at level `q` gives: the stream's
/// bytes up to the pixel data, followed by the dithered pixel rows.
pub open spec fn dither_image_result(b: Seq<u8>, q: QuantizationLevel) -> Result<
    Seq<u8>,
    FormatError,
> {
    let info = bmp_info_of(b);
    if b.len() < 2 {
        Err(FormatError::Truncated)
    } else if !has_signature(b) {
        Err(FormatError::BadSignature)
    } else if b.len() < 34 {
        Err(FormatError::Truncated)
    } else if !uncompressed(b) {
        Err(FormatError::UnsupportedCompression)
    } else if info.bits_per_pixel != 24 {
        Err(FormatError::UnsupportedBitDepth)
    } else if !pixel_region_fits(info, b.len() as int) {
        Err(FormatError::Truncated)
    } else {
        let w = info.width;
        let h = info.height;
        let cells = dithered(decoded_cells(b, info), w as nat, h as nat, q);
        Ok(b.subrange(0, info.offset as int) + encoded_rows(cells, w as int, h as int))
    }
}

/// Dithers the 24-bit bitmap stream `bytes` at level `q`: validates the
/// headers, decodes the pixels, diffuses the quantization error over them,
/// and encodes them again behind the original bytes that precede the pixel
/// data.
pub fn dither_image(bytes: &[u8], q: &QuantizationLevel) -> (r: Result<Vec<u8>, FormatError>)
    ensures
        match r {
            Ok(out) => dither_image_result(bytes@, *q) == Ok::<Seq<u8>, FormatError>(out@),
            Err(e) => dither_image_result(bytes@, *q) == Err::<Seq<u8>, FormatError>(e),
        },
{
    if let Err(e) = check_sig(bytes) {
        return Err(e);
    }
    if let Err(e) = check_compression(bytes) {
        return Err(e);
    }
    let info = match BmpInfo::from_file(bytes) {
        Ok(info) => info,
        Err(e) => {
            return Err(e);
        },
    };
    if info.bits_per_pixel != 24 {
        return Err(FormatError::UnsupportedBitDepth);
    }
    let mut surface = match read_rgb(&info, bytes) {
        Ok(s) => s,
        Err(e) => {
            return Err(e);
        },
    };
    dither(&mut surface, q);
    let _len = bytes.len();  // brings `bytes@.len() <= usize::MAX` into the proof
    let (head, _) = bytes.split_at(info.offset as usize);
    let mut out = vstd::slice::slice_to_vec(head);
    let mut pixels = write_rgb(&info, &surface);
    out.append(&mut pixels);
    Ok(out)
}

} // verus!
