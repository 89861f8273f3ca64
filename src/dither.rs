//! Floyd-Steinberg error diffusion over a surface of pixels.
use vstd::prelude::*;
use crate::pixel::{RGB, sat_i32};
use crate::clamped::{to_byte, trunc_div};
use crate::quantize::{QuantizationLevel, Quantize, lemma_step_divides_255, quantize_wide};
use crate::surface::{Surface, cell_index, in_bounds, lemma_cell_index_bounds, lemma_raster_position};

verus! {

/// Adds `k / 16` of the error `e` to cell `(x, y)` of a `w` by `h` grid;
/// a cell outside the grid is skipped.
pub open spec fn add_share(
    s: Seq<RGB<i32>>,
    w: int,
    h: int,
    x: int,
    y: int,
    e: RGB<i32>,
    k: i32,
) -> Seq<RGB<i32>> {
    if in_bounds(x, y, w, h) {
        let i = cell_index(x, y, w);
        s.update(i, s[i].spec_add(e.spec_mul(k).spec_div(16)))
    } else {
        s
    }
}

/// The cells after visiting pixel `(x, y)`: it is replaced by its quantized
/// value clamped into the byte range, and the error against the unclamped
/// quantized value is spread over the unvisited neighbours.
pub open spec fn dither_at(
    s: Seq<RGB<i32>>,
    w: int,
    h: int,
    q: QuantizationLevel,
    x: int,
    y: int,
) -> Seq<RGB<i32>> {
    let i = cell_index(x, y, w);
    let p = s[i];
    let quantized = p.quantized(q);
    let e = p.spec_sub(quantized);
    let s0 = s.update(i, quantized.spec_clamped());
    let s1 = add_share(s0, w, h, x + 1, y, e, 7);
    let s2 = add_share(s1, w, h, x - 1, y + 1, e, 3);
    let s3 = add_share(s2, w, h, x, y + 1, e, 5);
    add_share(s3, w, h, x + 1, y + 1, e, 1)
}

/// The cells after the first `k` pixels in raster order have been visited.
pub open spec fn dither_prefix(
    s: Seq<RGB<i32>>,
    w: nat,
    h: nat,
    q: QuantizationLevel,
    k: nat,
) -> Seq<RGB<i32>>
    decreases k,
{
    if k == 0 || w == 0 {
        s
    } else {
        let j = (k - 1) as nat;
        dither_at(dither_prefix(s, w, h, q, j), w as int, h as int, q, (j % w) as int, (j / w) as int)
    }
}

/// The cells after one full raster sweep.
pub open spec fn dithered(s: Seq<RGB<i32>>, w: nat, h: nat, q: QuantizationLevel) -> Seq<
    RGB<i32>,
> {
    dither_prefix(s, w, h, q, w * h)
}

/// Whether visiting pixel `(x, y)` of a `w` by `h` grid may write flat
/// position `j`: the pixel itself and those of its right, below-left, below
/// and below-right neighbours that lie inside the grid.
pub open spec fn written_by(x: int, y: int, w: int, h: int, j: int) -> bool {
    ||| j == cell_index(x, y, w)
    ||| in_bounds(x + 1, y, w, h) && j == cell_index(x + 1, y, w)
    ||| in_bounds(x - 1, y + 1, w, h) && j == cell_index(x - 1, y + 1, w)
    ||| in_bounds(x, y + 1, w, h) && j == cell_index(x, y + 1, w)
    ||| in_bounds(x + 1, y + 1, w, h) && j == cell_index(x + 1, y + 1, w)
}

proof fn lemma_add_share_in_bounds(
    s: Seq<RGB<i32>>,
    w: int,
    h: int,
    x: int,
    y: int,
    e: RGB<i32>,
    k: i32,
)
    requires
        s.len() == w * h,
    ensures
        add_share(s, w, h, x, y, e, k).len() == s.len(),
        in_bounds(x, y, w, h) ==> 0 <= cell_index(x, y, w) < s.len(),
        forall|j: int|
            0 <= j < s.len() && !(in_bounds(x, y, w, h) && j == cell_index(x, y, w))
                ==> #[trigger] add_share(s, w, h, x, y, e, k)[j] == s[j],
{
    if in_bounds(x, y, w, h) {
        lemma_cell_index_bounds(x, y, w, h);
    }
}

/// Visiting any pixel, on the edges of the grid too, keeps the number of
/// cells, writes only cells that lie inside the grid, and leaves every cell
/// other than the pixel and its in-grid right and lower neighbours unchanged.
pub proof fn lemma_visit_stays_in_bounds(
    s: Seq<RGB<i32>>,
    w: int,
    h: int,
    q: QuantizationLevel,
    x: int,
    y: int,
)
    requires
        s.len() == w * h,
        in_bounds(x, y, w, h),
    ensures
        dither_at(s, w, h, q, x, y).len() == s.len(),
        forall|j: int| written_by(x, y, w, h, j) ==> 0 <= j < s.len(),
        forall|j: int|
            0 <= j < s.len() && !written_by(x, y, w, h, j) ==> #[trigger] dither_at(
                s,
                w,
                h,
                q,
                x,
                y,
            )[j] == s[j],
{
    let i = cell_index(x, y, w);
    lemma_cell_index_bounds(x, y, w, h);
    let p = s[i];
    let quantized = p.quantized(q);
    let e = p.spec_sub(quantized);
    let s0 = s.update(i, quantized.spec_clamped());
    let s1 = add_share(s0, w, h, x + 1, y, e, 7);
    let s2 = add_share(s1, w, h, x - 1, y + 1, e, 3);
    let s3 = add_share(s2, w, h, x, y + 1, e, 5);
    lemma_add_share_in_bounds(s0, w, h, x + 1, y, e, 7);
    lemma_add_share_in_bounds(s1, w, h, x - 1, y + 1, e, 3);
    lemma_add_share_in_bounds(s2, w, h, x, y + 1, e, 5);
    lemma_add_share_in_bounds(s3, w, h, x + 1, y + 1, e, 1);
}

/// Dithering depends on nothing but the cells, the dimensions and the level:
/// two sweeps over equal inputs give equal outputs.
pub proof fn lemma_dither_deterministic(
    a: Seq<RGB<i32>>,
    b: Seq<RGB<i32>>,
    w: nat,
    h: nat,
    q: QuantizationLevel,
)
    requires
        a == b,
    ensures
        dithered(a, w, h, q) == dithered(b, w, h, q),
{
}

/// A channel value that the output may hold at level `q`: a byte on the grid.
pub open spec fn on_grid(c: int, q: QuantizationLevel) -> bool {
    0 <= c <= 255 && c % q.step() == 0
}

/// A pixel whose every channel is a byte on the grid of level `q`.
pub open spec fn is_output_pixel(p: RGB<i32>, q: QuantizationLevel) -> bool {
    on_grid(p.0 as int, q) && on_grid(p.1 as int, q) && on_grid(p.2 as int, q)
}

proof fn lemma_quantized_channel(c: i32, q: QuantizationLevel)
    ensures
        on_grid(to_byte(c.quantized(q) as int) as int, q),
{
    let w = q.step();
    lemma_step_divides_255(q);
    let x = c as int;
    let d = trunc_div(x, w);
    let k = if x - w * d <= w / 2 {
        d
    } else {
        d + 1
    };
    assert(quantize_wide(x, w) == w * k);
    let v = w * k;
    assert(v % w == 0) by (nonlinear_arith)
        requires
            v == w * k,
            w >= 1,
    ;
    assert(c.quantized(q) == sat_i32(v));
    if v < 0 {
        assert(to_byte(sat_i32(v) as int) == 0);
        assert(0int % w == 0);
    } else if v > 255 {
        assert(to_byte(sat_i32(v) as int) == 255);
    } else {
        assert(sat_i32(v) == v);
    }
}

/// A quantized pixel, clamped into the byte range, is a pixel that the output may hold.
pub proof fn lemma_clamped_quantized_is_output_pixel(p: RGB<i32>, q: QuantizationLevel)
    ensures
        is_output_pixel(p.quantized(q).spec_clamped(), q),
{
    lemma_quantized_channel(p.0, q);
    lemma_quantized_channel(p.1, q);
    lemma_quantized_channel(p.2, q);
}

proof fn lemma_prefix_quantized(s: Seq<RGB<i32>>, w: nat, h: nat, q: QuantizationLevel, k: nat)
    requires
        s.len() == w * h,
        k <= w * h,
    ensures
        dither_prefix(s, w, h, q, k).len() == s.len(),
        forall|j: int| 0 <= j < k ==> is_output_pixel(#[trigger] dither_prefix(s, w, h, q, k)[j], q),
    decreases k,
{
    if k == 0 || w == 0 {
        if w == 0 {
            assert(w * h == 0);
        }
    } else {
        let j0 = (k - 1) as nat;
        lemma_prefix_quantized(s, w, h, q, j0);
        let prev = dither_prefix(s, w, h, q, j0);
        let x = (j0 % w) as int;
        let y = (j0 / w) as int;
        let wi = w as int;
        let hi = h as int;
        vstd::arithmetic::div_mod::lemma_fundamental_div_mod(j0 as int, wi);
        assert(0 <= x < wi);
        assert(0 <= y);
        assert(y < hi) by (nonlinear_arith)
            requires
                j0 == wi * y + x,
                0 <= x,
                j0 < wi * hi,
                wi > 0,
        ;
        assert(cell_index(x, y, wi) == j0) by (nonlinear_arith)
            requires
                j0 == wi * y + x,
        ;
        assert((y + 1) * wi == y * wi + wi) by (nonlinear_arith);
        lemma_visit_stays_in_bounds(prev, wi, hi, q, x, y);
        let next = dither_at(prev, wi, hi, q, x, y);
        assert forall|j: int| 0 <= j < k implies is_output_pixel(#[trigger] next[j], q) by {
            if j < j0 {
                assert(!written_by(x, y, wi, hi, j));
            } else {
                let i = cell_index(x, y, wi);
                let p = prev[i];
                let quantized = p.quantized(q);
                let e = p.spec_sub(quantized);
                let s0 = prev.update(i, quantized.spec_clamped());
                let s1 = add_share(s0, wi, hi, x + 1, y, e, 7);
                let s2 = add_share(s1, wi, hi, x - 1, y + 1, e, 3);
                let s3 = add_share(s2, wi, hi, x, y + 1, e, 5);
                lemma_cell_index_bounds(x, y, wi, hi);
                lemma_add_share_in_bounds(s0, wi, hi, x + 1, y, e, 7);
                lemma_add_share_in_bounds(s1, wi, hi, x - 1, y + 1, e, 3);
                lemma_add_share_in_bounds(s2, wi, hi, x, y + 1, e, 5);
                lemma_add_share_in_bounds(s3, wi, hi, x + 1, y + 1, e, 1);
                lemma_clamped_quantized_is_output_pixel(p, q);
            }
        }
    }
}

/// After a full sweep every cell holds a pixel whose channels are bytes on
/// the grid of the level: each visited pixel stores its clamped quantized
/// value, and no later visit writes to it again.
pub proof fn lemma_dithered_cells_are_quantized(
    s: Seq<RGB<i32>>,
    w: nat,
    h: nat,
    q: QuantizationLevel,
)
    requires
        s.len() == w * h,
    ensures
        dithered(s, w, h, q).len() == s.len(),
        forall|j: int| 0 <= j < s.len() ==> is_output_pixel(#[trigger] dithered(s, w, h, q)[j], q),
{
    lemma_prefix_quantized(s, w, h, q, w * h);
}

/// Dithers `surface` in place at level `q`: visits the pixels in raster
/// order, stores each one's quantized value, and adds 7/16, 3/16, 5/16 and
/// 1/16 of the quantization error to the right, below-left, below and
/// below-right neighbours that lie inside the surface. The pixel stores its
/// quantized value clamped into `[0, 255]`; the error is taken against the
/// unclamped quantized value.
pub fn dither(surface: &mut Surface<RGB<i32>>, q: &QuantizationLevel)
    requires
        old(surface).wf(),
    ensures
        final(surface).wf(),
        final(surface).spec_width() == old(surface).spec_width(),
        final(surface).spec_height() == old(surface).spec_height(),
        final(surface).cells() == dithered(
            old(surface).cells(),
            old(surface).spec_width(),
            old(surface).spec_height(),
            *q,
        ),
{
    let width = surface.width();
    let height = surface.height();
    let ghost s0 = surface.cells();
    let mut y: u32 = 0;
    while y < height
        invariant
            y <= height,
            surface.wf(),
            surface.spec_width() == width,
            surface.spec_height() == height,
            surface.cells() == dither_prefix(s0, width as nat, height as nat, *q, (y * width) as nat),
        decreases height - y,
    {
        let mut x: u32 = 0;
        while x < width
            invariant
                x <= width,
                y < height,
                surface.wf(),
                surface.spec_width() == width,
                surface.spec_height() == height,
                surface.cells() == dither_prefix(
                    s0,
                    width as nat,
                    height as nat,
                    *q,
                    (y * width + x) as nat,
                ),
            decreases width - x,
        {
            proof {
                lemma_raster_position(x as int, y as int, width as int);
            }
            let ghost before = surface.cells();
            let pixel = *surface.index((x, y));
            let quantized = pixel.quantize(q);
            let error = pixel.sub(quantized);
            *surface.index_mut((x, y)) = quantized.clamped();
            if x + 1 < width {
                surface.index_mut((x + 1, y)).add_assign(error.mul(7).div(16));
            }
            if y + 1 < height {
                if x > 0 {
                    surface.index_mut((x - 1, y + 1)).add_assign(error.mul(3).div(16));
                }
                surface.index_mut((x, y + 1)).add_assign(error.mul(5).div(16));
                if x + 1 < width {
                    surface.index_mut((x + 1, y + 1)).add_assign(error.mul(1).div(16));
                }
            }
            assert(surface.cells() == dither_at(
                before,
                width as int,
                height as int,
                *q,
                x as int,
                y as int,
            ));
            x = x + 1;
        }
        assert((y + 1) * width == y * width + width) by (nonlinear_arith);
        y = y + 1;
    }
    assert(height * width == width * height) by (nonlinear_arith);
}

} // verus!
