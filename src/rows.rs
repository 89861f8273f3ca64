//! The layout of pixel rows in a 24-bit bitmap stream.
//!
//! Rows are stored bottom row first. Each pixel takes three bytes in the order
//! blue, green, red, and each row is padded with zero bytes to a multiple of
//! four bytes.
use vstd::prelude::*;
use crate::bmp::BmpInfo;
use crate::clamped::to_byte;
use crate::pixel::RGB;
use crate::surface::{cell_index, lemma_cell_index_bounds};

verus! {

/// The number of zero bytes that pad a row of `w` pixels.
pub open spec fn padding_len(w: int) -> int {
    (4 - (w * 3) % 4) % 4
}

/// The number of bytes that a row of `w` pixels takes in the stream.
pub open spec fn row_stride(w: int) -> int {
    w * 3 + padding_len(w)
}

/// The stream, `n` bytes long, holds every row of pixels.
pub open spec fn pixel_region_fits(info: BmpInfo, n: int) -> bool {
    info.offset + info.height * row_stride(info.width as int) <= n
}

/// Where pixel `(x, y)` starts in the stream; row `y = 0` is the top row,
/// which the stream stores last.
pub open spec fn pixel_offset(info: BmpInfo, x: int, y: int) -> int {
    info.offset + (info.height - 1 - y) * row_stride(info.width as int) + 3 * x
}

/// The pixel whose blue, green and red bytes start at position `o` of `b`.
pub open spec fn pixel_from_bytes(b: Seq<u8>, o: int) -> RGB<i32> {
    RGB(b[o + 2] as i32, b[o + 1] as i32, b[o] as i32)
}

/// The pixels of the stream `b`, row by row from the top.
pub open spec fn decoded_cells(b: Seq<u8>, info: BmpInfo) -> Seq<RGB<i32>> {
    Seq::new(
        (info.width * info.height) as nat,
        |k: int| pixel_from_bytes(b, pixel_offset(info, k % info.width as int, k / info.width as int)),
    )
}

/// Byte `k` of the pixel rows that encode the `w` by `h` cells `cells`:
/// channels saturated into bytes, in the order blue, green, red, the bottom
/// row first, every row padded with zeros.
pub open spec fn encoded_byte(cells: Seq<RGB<i32>>, w: int, h: int, k: int) -> u8 {
    let row = k / row_stride(w);
    let col = k % row_stride(w);
    if col < 3 * w {
        let p = cells[cell_index(col / 3, h - 1 - row, w)];
        if col % 3 == 0 {
            to_byte(p.2 as int)
        } else if col % 3 == 1 {
            to_byte(p.1 as int)
        } else {
            to_byte(p.0 as int)
        }
    } else {
        0
    }
}

/// The pixel rows that encode the `w` by `h` cells `cells`.
pub open spec fn encoded_rows(cells: Seq<RGB<i32>>, w: int, h: int) -> Seq<u8> {
    Seq::new((h * row_stride(w)) as nat, |k: int| encoded_byte(cells, w, h, k))
}

/// Every row is padded by at most three bytes to a length that is a multiple of four.
pub proof fn lemma_row_padding(width: int, height: int)
    ensures
        0 <= padding_len(width) <= 3,
        row_stride(width) % 4 == 0,
        (height * row_stride(width)) % 4 == 0,
{
    let m = (width * 3) % 4;
    assert(row_stride(width) % 4 == 0) by {
        if m == 0 {
            assert(padding_len(width) == 0);
        } else {
            assert(padding_len(width) == 4 - m);
        }
    }
    let s = row_stride(width);
    let t = s / 4;
    assert(height * s == (height * t) * 4) by (nonlinear_arith)
        requires
            s == 4 * t,
    ;
    vstd::arithmetic::div_mod::lemma_mod_multiples_basic(height * t, 4);
}

/// A pixel of a row lies wholly before the rows that follow it.
pub proof fn lemma_pixel_within_rows(w: int, h: int, x: int, y: int)
    requires
        0 <= x < w,
        0 <= y < h,
    ensures
        0 <= (h - 1 - y) * row_stride(w),
        (h - 1 - y) * row_stride(w) + 3 * x + 3 <= h * row_stride(w),
{
    let s = row_stride(w);
    lemma_row_padding(w, h);
    assert(0 <= (h - 1 - y) * s && (h - 1 - y) * s + s == (h - y) * s && (h - y) * s <= h * s)
        by (nonlinear_arith)
        requires
            0 <= y < h,
            s >= 0,
    ;
}

/// Byte `r * stride + col` of the encoded rows is column `col` of stream row `r`.
pub proof fn lemma_encoded_byte_at(cells: Seq<RGB<i32>>, w: int, h: int, r: int, col: int)
    requires
        0 <= r,
        0 <= col < row_stride(w),
    ensures
        encoded_byte(cells, w, h, r * row_stride(w) + col) == (if col < 3 * w {
            let p = cells[cell_index(col / 3, h - 1 - r, w)];
            if col % 3 == 0 {
                to_byte(p.2 as int)
            } else if col % 3 == 1 {
                to_byte(p.1 as int)
            } else {
                to_byte(p.0 as int)
            }
        } else {
            0
        }),
{
    vstd::arithmetic::div_mod::lemma_fundamental_div_mod_converse(
        r * row_stride(w) + col,
        row_stride(w),
        r,
        col,
    );
}

/// Every channel of `p` is a byte.
pub open spec fn is_byte_pixel(p: RGB<i32>) -> bool {
    0 <= p.0 <= 255 && 0 <= p.1 <= 255 && 0 <= p.2 <= 255
}

/// Decoding pixel rows that were encoded behind any header bytes gives the
/// cells back, where every channel is a byte.
pub proof fn lemma_rows_round_trip(cells: Seq<RGB<i32>>, head: Seq<u8>, info: BmpInfo)
    requires
        cells.len() == info.width * info.height,
        info.offset == head.len(),
        forall|k: int| 0 <= k < cells.len() ==> is_byte_pixel(#[trigger] cells[k]),
    ensures
        pixel_region_fits(
            info,
            (head + encoded_rows(cells, info.width as int, info.height as int)).len() as int,
        ),
        decoded_cells(head + encoded_rows(cells, info.width as int, info.height as int), info)
            == cells,
{
    let w = info.width as int;
    let h = info.height as int;
    let enc = encoded_rows(cells, w, h);
    let b = head + enc;
    let n = head.len() as int;
    lemma_row_padding(w, h);
    assert forall|k: int| 0 <= k < cells.len() implies #[trigger] decoded_cells(b, info)[k]
        == cells[k] by {
        let x = k % w;
        let y = k / w;
        vstd::arithmetic::div_mod::lemma_fundamental_div_mod(k, w);
        assert(y < h) by (nonlinear_arith)
            requires
                k == w * y + x,
                0 <= x,
                k < w * h,
                w > 0,
        ;
        assert(cell_index(x, y, w) == k) by (nonlinear_arith)
            requires
                k == w * y + x,
        ;
        lemma_cell_index_bounds(x, y, w, h);
        lemma_pixel_within_rows(w, h, x, y);
        let r = h - 1 - y;
        let base = r * row_stride(w) + 3 * x;
        lemma_encoded_byte_at(cells, w, h, r, 3 * x);
        lemma_encoded_byte_at(cells, w, h, r, 3 * x + 1);
        lemma_encoded_byte_at(cells, w, h, r, 3 * x + 2);
        assert((3 * x) / 3 == x && (3 * x) % 3 == 0);
        assert((3 * x + 1) / 3 == x && (3 * x + 1) % 3 == 1);
        assert((3 * x + 2) / 3 == x && (3 * x + 2) % 3 == 2);
        assert(b[n + base] == enc[base]);
        assert(b[n + base + 1] == enc[base + 1]);
        assert(b[n + base + 2] == enc[base + 2]);
    }
    assert(decoded_cells(b, info) =~= cells);
}

} // verus!
