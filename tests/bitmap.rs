use dither_bmp::bmp::{check_compression, check_sig, BmpInfo};
use dither_bmp::error::FormatError;
use dither_bmp::fileio::BMPFile;
use dither_bmp::header::{parse_file_header, parse_info_header, FileHeader, InfoHeader};
use dither_bmp::pixel::RGB;
use dither_bmp::quantize::QuantizationLevel;
use dither_bmp::surface::Surface;
use dither_bmp::{dither_image, read_rgb, write_rgb};

fn stride(width: u32) -> u32 {
    (width * 3 + 3) / 4 * 4
}

fn headers(width: u32, height: u32, bits_per_pixel: u16) -> (FileHeader, InfoHeader) {
    let image_size = stride(width) * height;
    let fh = FileHeader {
        signature: 0x4D42,
        file_size: 54 + image_size,
        reserved: 0,
        pixel_data_offset: 54,
    };
    let ih = InfoHeader {
        header_size: 40,
        width,
        height,
        planes: 1,
        bits_per_pixel,
        compression: 0,
        image_size,
        h_resolution: 2835,
        v_resolution: 2835,
        num_colors: 0,
        important_colors: 0,
    };
    (fh, ih)
}

/// A 24-bit bitmap whose pixel bytes are `pixels`, rows already padded.
fn bitmap(width: u32, height: u32, pixels: &[u8]) -> Vec<u8> {
    let (fh, ih) = headers(width, height, 24);
    let mut out = fh.to_bytes();
    out.extend(ih.to_bytes());
    out.extend_from_slice(pixels);
    out
}

#[test]
fn headers_round_trip() {
    let (fh, ih) = headers(7, 5, 24);
    let mut bytes = fh.to_bytes();
    assert_eq!(bytes.len(), 14);
    bytes.extend(ih.to_bytes());
    assert_eq!(bytes.len(), 54);
    assert_eq!(parse_file_header(&bytes), Ok(fh));
    assert_eq!(parse_info_header(&bytes), Ok(ih));
}

#[test]
fn parsed_headers_serialize_to_the_same_bytes() {
    let mut bytes: Vec<u8> = (0u8..54).map(|i| i.wrapping_mul(37)).collect();
    bytes[0] = 0x42;
    bytes[1] = 0x4D;
    bytes[30..34].copy_from_slice(&[0, 0, 0, 0]);
    bytes.push(99);
    let fh = parse_file_header(&bytes).unwrap();
    let ih = parse_info_header(&bytes).unwrap();
    let mut again = fh.to_bytes();
    again.extend(ih.to_bytes());
    assert_eq!(&again[..], &bytes[..54]);
}

#[test]
fn header_fields_are_little_endian() {
    let (fh, ih) = headers(0x0102, 0x0304, 24);
    let bytes = [fh.to_bytes(), ih.to_bytes()].concat();
    assert_eq!(&bytes[0..2], b"BM");
    assert_eq!(&bytes[10..14], &[54, 0, 0, 0]);
    assert_eq!(&bytes[18..22], &[0x02, 0x01, 0, 0]);
    assert_eq!(&bytes[22..26], &[0x04, 0x03, 0, 0]);
    assert_eq!(&bytes[28..30], &[24, 0]);
}

#[test]
fn compressed_header_is_rejected() {
    let mut bytes = bitmap(1, 1, &[1, 2, 3, 0]);
    bytes[30..34].copy_from_slice(&[1, 0, 0, 0]);
    assert_eq!(check_sig(&bytes), Ok(()));
    assert_eq!(check_compression(&bytes), Err(FormatError::UnsupportedCompression));
    assert_eq!(parse_info_header(&bytes), Err(FormatError::UnsupportedCompression));
    assert_eq!(
        dither_image(&bytes, &QuantizationLevel::Q4),
        Err(FormatError::UnsupportedCompression)
    );
}

#[test]
fn bad_signature_is_rejected() {
    let bytes = [0x42u8, 0x00];
    assert_eq!(check_sig(&bytes), Err(FormatError::BadSignature));
    assert_eq!(parse_file_header(&bytes), Err(FormatError::BadSignature));
    assert_eq!(dither_image(&bytes, &QuantizationLevel::Q4), Err(FormatError::BadSignature));
    let mut full = bitmap(1, 1, &[1, 2, 3, 0]);
    full[1] = 0x00;
    assert_eq!(dither_image(&full, &QuantizationLevel::Q4), Err(FormatError::BadSignature));
}

#[test]
fn short_streams_are_truncated() {
    assert_eq!(check_sig(&[0x42]), Err(FormatError::Truncated));
    assert_eq!(parse_file_header(&[0x42, 0x4D, 0, 0]), Err(FormatError::Truncated));
    assert_eq!(parse_info_header(&[0u8; 53]), Err(FormatError::Truncated));
    assert_eq!(check_compression(&[0u8; 33]), Err(FormatError::Truncated));
    assert_eq!(BmpInfo::from_file(&[0u8; 29]), Err(FormatError::Truncated));
    let full = bitmap(2, 2, &[0u8; 16]);
    assert_eq!(
        dither_image(&full[..full.len() - 1], &QuantizationLevel::Q4),
        Err(FormatError::Truncated)
    );
    assert_eq!(dither_image(&full[..20], &QuantizationLevel::Q4), Err(FormatError::Truncated));
}

#[test]
fn other_bit_depths_are_rejected() {
    let (fh, ih) = headers(2, 2, 8);
    let bytes = [fh.to_bytes(), ih.to_bytes(), vec![0u8; 8]].concat();
    assert_eq!(dither_image(&bytes, &QuantizationLevel::Q4), Err(FormatError::UnsupportedBitDepth));
}

#[test]
fn bmp_info_reads_geometry() {
    let bytes = bitmap(3, 2, &[0u8; 24]);
    let info = BmpInfo::from_file(&bytes).unwrap();
    assert_eq!(info, BmpInfo { offset: 54, width: 3, height: 2, bits_per_pixel: 24 });
}

#[test]
fn bmp_file_holds_headers() {
    let bytes = bitmap(3, 2, &[0u8; 24]);
    let f = BMPFile::from_file(&bytes).unwrap();
    let (fh, ih) = headers(3, 2, 24);
    assert_eq!(f.file_header, fh);
    assert_eq!(f.info_header, ih);
    assert!(f.color_table.is_none());
    assert!(f.image_data.is_empty());
    let (fh8, ih8) = headers(3, 2, 4);
    let indexed = [fh8.to_bytes(), ih8.to_bytes()].concat();
    let g = BMPFile::from_file(&indexed).unwrap();
    assert_eq!(g.color_table, Some(vec![0u8; 16]));
    assert_eq!(BMPFile::from_file(&[0x42, 0x4D]).err(), Some(FormatError::Truncated));
}

#[test]
fn pixel_bytes_are_blue_green_red() {
    let bytes = bitmap(1, 1, &[1, 2, 3, 0]);
    let info = BmpInfo::from_file(&bytes).unwrap();
    let s = read_rgb(&info, &bytes).unwrap();
    assert_eq!(s.get(0, 0), Some(&RGB(3, 2, 1)));
    assert_eq!(write_rgb(&info, &s), vec![1, 2, 3, 0]);
}

#[test]
fn rows_are_stored_bottom_up() {
    // two rows of one pixel: the stream holds the bottom row first
    let bytes = bitmap(1, 2, &[10, 11, 12, 0, 20, 21, 22, 0]);
    let info = BmpInfo::from_file(&bytes).unwrap();
    let s = read_rgb(&info, &bytes).unwrap();
    assert_eq!(s.get(0, 0), Some(&RGB(22, 21, 20)));
    assert_eq!(s.get(0, 1), Some(&RGB(12, 11, 10)));
}

#[test]
fn rows_are_padded_to_four_bytes() {
    for (width, expected) in [(1u32, 4usize), (2, 8), (3, 12), (4, 12), (5, 16)] {
        let info = BmpInfo { offset: 0, width, height: 3, bits_per_pixel: 24 };
        let s = Surface::filled(width, 3, RGB(1, 2, 3));
        let out = write_rgb(&info, &s);
        assert_eq!(out.len(), expected * 3);
        assert_eq!(out.len() % 4, 0);
        let padding = expected - width as usize * 3;
        assert!(padding <= 3);
        assert!(out[expected - padding..expected].iter().all(|b| *b == 0));
    }
}

#[test]
fn written_channels_are_saturated() {
    let info = BmpInfo { offset: 0, width: 1, height: 1, bits_per_pixel: 24 };
    let s = Surface::new(1, 1, vec![RGB(300, -4, 77)]);
    assert_eq!(write_rgb(&info, &s), vec![77, 0, 255, 0]);
}

#[test]
fn finest_level_keeps_the_image() {
    let pixels: Vec<u8> = (0u8..24).map(|i| i.wrapping_mul(41)).collect();
    let mut pixels = pixels;
    for row in 0..2 {
        for k in 9..12 {
            pixels[row * 12 + k] = 0;
        }
    }
    let bytes = bitmap(3, 2, &pixels);
    assert_eq!(dither_image(&bytes, &QuantizationLevel::Q0), Ok(bytes.clone()));
}

#[test]
fn dithered_image_keeps_the_header() {
    let bytes = bitmap(2, 2, &[200, 200, 200, 200, 200, 200, 0, 0, 200, 200, 200, 200, 200, 200, 0, 0]);
    let out = dither_image(&bytes, &QuantizationLevel::Q6).unwrap();
    assert_eq!(out.len(), bytes.len());
    assert_eq!(&out[..54], &bytes[..54]);
    // the top row is stored last; its left pixel is visited first
    assert_eq!(&out[54..], &[170, 170, 170, 170, 170, 170, 0, 0, 170, 170, 170, 255, 255, 255, 0, 0]);
}
