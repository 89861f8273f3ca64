//! The fixed-layout file header and bitmap-info header at the start of a bitmap.
use vstd::prelude::*;
use crate::error::FormatError;
use crate::little_endian::{
    lemma_extend_u16, lemma_extend_u32, lemma_read_after_prefix, lemma_read_appended,
    lemma_read_ignores_suffix, push_u16, push_u32, read_u16_at, read_u32_at, u16_at, u16_bytes,
    u32_at, u32_bytes,
};

verus! {

/// The length of the file header in bytes.
pub const FILE_HEADER_LEN: usize = 14;

/// The length of the bitmap-info header in bytes.
pub const INFO_HEADER_LEN: usize = 40;

/// The signature `"BM"` read as a little-endian `u16`.
pub const SIGNATURE: u16 = 0x4D42;

/// The first 14 bytes of a bitmap.
#[derive(Debug, Clone, Copy, PartialEq, Eq, Structural)]
pub struct FileHeader {
    /// The two magic bytes, read least significant first.
    pub signature: u16,
    pub file_size: u32,
    pub reserved: u32,
    /// Where the pixel data starts, counted from the start of the stream.
    pub pixel_data_offset: u32,
}

/// The 40 bytes that follow the file header.
#[derive(Debug, Clone, Copy, PartialEq, Eq, Structural)]
pub struct InfoHeader {
    pub header_size: u32,
    pub width: u32,
    pub height: u32,
    pub planes: u16,
    pub bits_per_pixel: u16,
    /// Zero for an uncompressed image, the only kind accepted.
    pub compression: u32,
    pub image_size: u32,
    pub h_resolution: u32,
    pub v_resolution: u32,
    pub num_colors: u32,
    pub important_colors: u32,
}

/// The fields of the file header held in the first 14 bytes of `b`.
pub open spec fn file_header_of(b: Seq<u8>) -> FileHeader {
    FileHeader {
        signature: u16_at(b, 0),
        file_size: u32_at(b, 2),
        reserved: u32_at(b, 6),
        pixel_data_offset: u32_at(b, 10),
    }
}

/// The fields of a bitmap-info header whose bytes start at position `base` of `b`.
pub open spec fn info_header_at(b: Seq<u8>, base: int) -> InfoHeader {
    InfoHeader {
        header_size: u32_at(b, base),
        width: u32_at(b, base + 4),
        height: u32_at(b, base + 8),
        planes: u16_at(b, base + 12),
        bits_per_pixel: u16_at(b, base + 14),
        compression: u32_at(b, base + 16),
        image_size: u32_at(b, base + 20),
        h_resolution: u32_at(b, base + 24),
        v_resolution: u32_at(b, base + 28),
        num_colors: u32_at(b, base + 32),
        important_colors: u32_at(b, base + 36),
    }
}

/// The fields of the bitmap-info header held in bytes 14 to 53 of the stream `b`.
pub open spec fn info_header_of(b: Seq<u8>) -> InfoHeader {
    info_header_at(b, FILE_HEADER_LEN as int)
}

/// Whether the first two bytes of `b` are `"BM"`.
pub open spec fn has_signature(b: Seq<u8>) -> bool {
    b[0] == 0x42 && b[1] == 0x4D
}

/// What parsing the file header of the stream `b` gives.
pub open spec fn file_header_result(b: Seq<u8>) -> Result<FileHeader, FormatError> {
    if b.len() < 2 {
        Err(FormatError::Truncated)
    } else if !has_signature(b) {
        Err(FormatError::BadSignature)
    } else if b.len() < FILE_HEADER_LEN {
        Err(FormatError::Truncated)
    } else {
        Ok(file_header_of(b))
    }
}

/// What parsing the bitmap-info header of the stream `b` gives.
pub open spec fn info_header_result(b: Seq<u8>) -> Result<InfoHeader, FormatError> {
    if b.len() < FILE_HEADER_LEN + INFO_HEADER_LEN {
        Err(FormatError::Truncated)
    } else if info_header_of(b).compression != 0 {
        Err(FormatError::UnsupportedCompression)
    } else {
        Ok(info_header_of(b))
    }
}

/// The 14 bytes of a file header, every field least significant byte first.
#[verifier::opaque]
pub open spec fn file_header_bytes(h: FileHeader) -> Seq<u8> {
    u16_bytes(h.signature) + u32_bytes(h.file_size) + u32_bytes(h.reserved) + u32_bytes(
        h.pixel_data_offset,
    )
}

/// The 40 bytes of a bitmap-info header, every field least significant byte first.
#[verifier::opaque]
pub open spec fn info_header_bytes(h: InfoHeader) -> Seq<u8> {
    u32_bytes(h.header_size) + u32_bytes(h.width) + u32_bytes(h.height) + u16_bytes(h.planes)
        + u16_bytes(h.bits_per_pixel) + u32_bytes(h.compression) + u32_bytes(h.image_size)
        + u32_bytes(h.h_resolution) + u32_bytes(h.v_resolution) + u32_bytes(h.num_colors)
        + u32_bytes(h.important_colors)
}

/// Parses the file header at the start of `bytes`: fails with `BadSignature`
/// unless the stream starts with `"BM"`, and with `Truncated` where it holds
/// fewer than 14 bytes.
pub fn parse_file_header(bytes: &[u8]) -> (r: Result<FileHeader, FormatError>)
    ensures
        r == file_header_result(bytes@),
{
    if bytes.len() < 2 {
        return Err(FormatError::Truncated);
    }
    if bytes[0] != 0x42 || bytes[1] != 0x4D {
        return Err(FormatError::BadSignature);
    }
    if bytes.len() < FILE_HEADER_LEN {
        return Err(FormatError::Truncated);
    }
    Ok(
        FileHeader {
            signature: read_u16_at(bytes, 0),
            file_size: read_u32_at(bytes, 2),
            reserved: read_u32_at(bytes, 6),
            pixel_data_offset: read_u32_at(bytes, 10),
        },
    )
}

/// Parses the bitmap-info header that follows the file header in the stream
/// `bytes`: fails with `Truncated` where the stream holds fewer than 54
/// bytes, and with `UnsupportedCompression` where the compression field is
/// not zero.
pub fn parse_info_header(bytes: &[u8]) -> (r: Result<InfoHeader, FormatError>)
    ensures
        r == info_header_result(bytes@),
{
    if bytes.len() < FILE_HEADER_LEN + INFO_HEADER_LEN {
        return Err(FormatError::Truncated);
    }
    let h = InfoHeader {
        header_size: read_u32_at(bytes, 14),
        width: read_u32_at(bytes, 18),
        height: read_u32_at(bytes, 22),
        planes: read_u16_at(bytes, 26),
        bits_per_pixel: read_u16_at(bytes, 28),
        compression: read_u32_at(bytes, 30),
        image_size: read_u32_at(bytes, 34),
        h_resolution: read_u32_at(bytes, 38),
        v_resolution: read_u32_at(bytes, 42),
        num_colors: read_u32_at(bytes, 46),
        important_colors: read_u32_at(bytes, 50),
    };
    if h.compression != 0 {
        return Err(FormatError::UnsupportedCompression);
    }
    Ok(h)
}

impl FileHeader {
    /// The 14 bytes of this header, every field least significant byte first.
    pub fn to_bytes(&self) -> (r: Vec<u8>)
        ensures
            r@ == file_header_bytes(*self),
    {
        let mut out: Vec<u8> = Vec::new();
        push_u16(&mut out, self.signature);
        push_u32(&mut out, self.file_size);
        push_u32(&mut out, self.reserved);
        push_u32(&mut out, self.pixel_data_offset);
        reveal(file_header_bytes);
        assert(out@ =~= file_header_bytes(*self));
        out
    }
}

impl InfoHeader {
    /// The 40 bytes of this header, every field least significant byte first.
    pub fn to_bytes(&self) -> (r: Vec<u8>)
        ensures
            r@ == info_header_bytes(*self),
    {
        let mut out: Vec<u8> = Vec::new();
        push_u32(&mut out, self.header_size);
        push_u32(&mut out, self.width);
        push_u32(&mut out, self.height);
        push_u16(&mut out, self.planes);
        push_u16(&mut out, self.bits_per_pixel);
        push_u32(&mut out, self.compression);
        push_u32(&mut out, self.image_size);
        push_u32(&mut out, self.h_resolution);
        push_u32(&mut out, self.v_resolution);
        push_u32(&mut out, self.num_colors);
        push_u32(&mut out, self.important_colors);
        reveal(info_header_bytes);
        assert(out@ =~= info_header_bytes(*self));
        out
    }
}

/// A valid file header parses back from its own bytes, whatever follows them.
proof fn lemma_file_header_reads_back(fh: FileHeader, c: Seq<u8>)
    requires
        fh.signature == SIGNATURE,
    ensures
        file_header_bytes(fh).len() == FILE_HEADER_LEN,
        file_header_result(file_header_bytes(fh) + c) == Ok::<FileHeader, FormatError>(fh),
{
    reveal(file_header_bytes);
    lemma_read_ignores_suffix();
    lemma_read_appended();
    let a = file_header_bytes(fh);
    let b = a + c;
    assert(a.len() == 14);
    assert(u16_at(u16_bytes(fh.signature), 0) == fh.signature) by {
        assert(Seq::<u8>::empty() + u16_bytes(fh.signature) =~= u16_bytes(fh.signature));
    }
    assert(file_header_of(b) == fh);
    let sig = u16_bytes(fh.signature);
    assert(sig[0] == 0x42 && sig[1] == 0x4D);
    let s1 = sig + u32_bytes(fh.file_size);
    let s2 = s1 + u32_bytes(fh.reserved);
    assert(s1[0] == sig[0] && s1[1] == sig[1]);
    assert(s2[0] == s1[0] && s2[1] == s1[1]);
    assert(a[0] == s2[0] && a[1] == s2[1]);
    assert(b[0] == a[0] && b[1] == a[1]);
}

/// A bitmap-info header reads back from its own bytes.
proof fn lemma_info_header_reads_back(ih: InfoHeader)
    ensures
        info_header_bytes(ih).len() == INFO_HEADER_LEN,
        info_header_at(info_header_bytes(ih), 0) == ih,
{
    reveal(info_header_bytes);
    lemma_read_ignores_suffix();
    lemma_read_appended();
    let c = info_header_bytes(ih);
    assert(c.len() == 40);
    assert(u32_at(u32_bytes(ih.header_size), 0) == ih.header_size) by {
        assert(Seq::<u8>::empty() + u32_bytes(ih.header_size) =~= u32_bytes(ih.header_size));
    }
}

/// A bitmap-info header without compression parses back from its own bytes
/// placed after a 14-byte file header.
proof fn lemma_info_header_parses_back(a: Seq<u8>, ih: InfoHeader)
    requires
        a.len() == FILE_HEADER_LEN,
        ih.compression == 0,
    ensures
        info_header_result(a + info_header_bytes(ih)) == Ok::<InfoHeader, FormatError>(ih),
{
    lemma_info_header_reads_back(ih);
    lemma_read_after_prefix();
    let c = info_header_bytes(ih);
    assert(info_header_of(a + c) == info_header_at(c, 0));
}

/// Serializing a valid file header and bitmap-info header and parsing the
/// result gives back both headers unchanged.
pub proof fn lemma_headers_parse_serialized(fh: FileHeader, ih: InfoHeader)
    requires
        fh.signature == SIGNATURE,
        ih.compression == 0,
    ensures
        file_header_result(file_header_bytes(fh) + info_header_bytes(ih)) == Ok::<
            FileHeader,
            FormatError,
        >(fh),
        info_header_result(file_header_bytes(fh) + info_header_bytes(ih)) == Ok::<
            InfoHeader,
            FormatError,
        >(ih),
{
    lemma_file_header_reads_back(fh, info_header_bytes(ih));
    lemma_info_header_parses_back(file_header_bytes(fh), ih);
}

/// Parsing the headers of a stream and serializing them again gives back the
/// first 54 bytes of the stream, byte for byte.
pub proof fn lemma_headers_serialize_parsed(b: Seq<u8>)
    requires
        file_header_result(b) is Ok,
        info_header_result(b) is Ok,
    ensures
        file_header_bytes(file_header_of(b)) + info_header_bytes(info_header_of(b)) == b.subrange(
            0,
            54,
        ),
{
    reveal(file_header_bytes);
    reveal(info_header_bytes);
    lemma_extend_u16(b, 0, 0);
    assert(b.subrange(0, 0) + u16_bytes(u16_at(b, 0)) =~= u16_bytes(u16_at(b, 0)));
    lemma_extend_u32(b, 0, 2);
    lemma_extend_u32(b, 0, 6);
    lemma_extend_u32(b, 0, 10);
    lemma_extend_u32(b, 14, 14);
    assert(b.subrange(14, 14) + u32_bytes(u32_at(b, 14)) =~= u32_bytes(u32_at(b, 14)));
    lemma_extend_u32(b, 14, 18);
    lemma_extend_u32(b, 14, 22);
    lemma_extend_u16(b, 14, 26);
    lemma_extend_u16(b, 14, 28);
    lemma_extend_u32(b, 14, 30);
    lemma_extend_u32(b, 14, 34);
    lemma_extend_u32(b, 14, 38);
    lemma_extend_u32(b, 14, 42);
    lemma_extend_u32(b, 14, 46);
    lemma_extend_u32(b, 14, 50);
    assert(b.subrange(0, 54) =~= b.subrange(0, 14) + b.subrange(14, 54));
}

} // verus!
