//! A bitmap's parsed headers together with the regions that follow them.
use vstd::prelude::*;
use vstd::arithmetic::power2::{lemma_pow2_unfold, pow2};
use crate::error::FormatError;
use crate::header::{
    FileHeader, InfoHeader, file_header_result, info_header_result, parse_file_header,
    parse_info_header,
};

verus! {

/// The parsed headers of a bitmap and the regions that follow them.
#[derive(Debug)]
pub struct BMPFile {
    pub file_header: FileHeader,
    pub info_header: InfoHeader,
    /// For an image of at most 8 bits per pixel, a zero-filled table with one
    /// byte for each of its `2^bits_per_pixel` palette entries; palettes are not decoded.
    pub color_table: Option<Vec<u8>>,
    pub gap_1: Option<Vec<u8>>,
    /// The pixel bytes; the row codec decodes them from the stream itself, so this starts empty.
    pub image_data: Vec<u8>,
    pub gap_2: Option<Vec<u8>>,
}

/// What the color table of an image of `bpp` bits per pixel holds.
pub open spec fn color_table_for(bpp: u16) -> Option<Seq<u8>> {
    if bpp <= 8 {
        Some(Seq::new(pow2(bpp as nat), |i: int| 0u8))
    } else {
        None
    }
}

/// Whether `f` holds the headers `fh` and `ih` and nothing read beyond them.
pub open spec fn holds_headers(f: BMPFile, fh: FileHeader, ih: InfoHeader) -> bool {
    &&& f.file_header == fh
    &&& f.info_header == ih
    &&& match f.color_table {
        Some(t) => color_table_for(ih.bits_per_pixel) == Some(t@),
        None => color_table_for(ih.bits_per_pixel) is None,
    }
    &&& f.gap_1 is None
    &&& f.image_data@.len() == 0
    &&& f.gap_2 is None
}

fn zeroed_color_table(bpp: u16) -> (r: Vec<u8>)
    requires
        bpp <= 8,
    ensures
        r@ == Seq::new(pow2(bpp as nat), |i: int| 0u8),
{
    let mut n: usize = 1;
    let mut i: u16 = 0;
    proof {
        vstd::arithmetic::power2::lemma2_to64();
    }
    while i < bpp
        invariant
            i <= bpp <= 8,
            n == pow2(i as nat),
            n <= 256,
        decreases bpp - i,
    {
        proof {
            lemma_pow2_unfold((i + 1) as nat);
            vstd::arithmetic::power2::lemma2_to64();
        }
        n = n * 2;
        i = i + 1;
    }
    let mut table: Vec<u8> = Vec::new();
    while table.len() < n
        invariant
            n == pow2(bpp as nat),
            table@.len() <= n,
            forall|k: int| 0 <= k < table@.len() ==> table@[k] == 0u8,
        decreases n - table@.len(),
    {
        table.push(0);
    }
    assert(table@ =~= Seq::new(pow2(bpp as nat), |i: int| 0u8));
    table
}

impl BMPFile {
    /// Parses the file header and the bitmap-info header of the stream
    /// `bytes`, failing as those parsers do.
    pub fn from_file(bytes: &[u8]) -> (r: Result<BMPFile, FormatError>)
        ensures
            match file_header_result(bytes@) {
                Err(e) => r == Err::<BMPFile, FormatError>(e),
                Ok(fh) => match info_header_result(bytes@) {
                    Err(e) => r == Err::<BMPFile, FormatError>(e),
                    Ok(ih) => r matches Ok(f) && holds_headers(f, fh, ih),
                },
            },
    {
        let file_header = match parse_file_header(bytes) {
            Ok(h) => h,
            Err(e) => {
                return Err(e);
            },
        };
        let info_header = match parse_info_header(bytes) {
            Ok(h) => h,
            Err(e) => {
                return Err(e);
            },
        };
        let bpp = info_header.bits_per_pixel;
        let color_table = if bpp <= 8 {
            Some(zeroed_color_table(bpp))
        } else {
            None
        };
        Ok(
            BMPFile {
                file_header,
                info_header,
                color_table,
                gap_1: None,
                image_data: Vec::new(),
                gap_2: None,
            },
        )
    }
}

} // verus!
