//! Quantization of channel samples onto an evenly spaced grid of levels.
use vstd::prelude::*;
use crate::clamped::trunc_div;
use crate::pixel::{RGB, sat_i32, saturate_i32};

verus! {

/// How many distinct values each output channel may take.
#[derive(Clone, Copy, Debug, PartialEq, Eq, Structural)]
pub enum QuantizationLevel {
    Q0,
    Q1,
    Q2,
    Q3,
    Q4,
    Q5,
    Q6,
    Q7,
}

impl QuantizationLevel {
    /// The number of values per channel at this level.
    pub open spec fn levels(self) -> int {
        match self {
            QuantizationLevel::Q0 => 255,
            QuantizationLevel::Q1 => 86,
            QuantizationLevel::Q2 => 52,
            QuantizationLevel::Q3 => 18,
            QuantizationLevel::Q4 => 16,
            QuantizationLevel::Q5 => 6,
            QuantizationLevel::Q6 => 4,
            QuantizationLevel::Q7 => 2,
        }
    }

    /// The spacing of the grid of representable values at this level.
    pub open spec fn step(self) -> int {
        255int / (self.levels() - 1)
    }

    /// The level numbered `n`, from `Q0` to `Q7`; any other number selects `Q4`.
    pub open spec fn numbered(n: i32) -> QuantizationLevel {
        if n == 0 {
            QuantizationLevel::Q0
        } else if n == 1 {
            QuantizationLevel::Q1
        } else if n == 2 {
            QuantizationLevel::Q2
        } else if n == 3 {
            QuantizationLevel::Q3
        } else if n == 5 {
            QuantizationLevel::Q5
        } else if n == 6 {
            QuantizationLevel::Q6
        } else if n == 7 {
            QuantizationLevel::Q7
        } else {
            QuantizationLevel::Q4
        }
    }

    pub fn from_number(n: i32) -> (r: QuantizationLevel)
        ensures
            r == Self::numbered(n),
    {
        match n {
            0 => QuantizationLevel::Q0,
            1 => QuantizationLevel::Q1,
            2 => QuantizationLevel::Q2,
            3 => QuantizationLevel::Q3,
            5 => QuantizationLevel::Q5,
            6 => QuantizationLevel::Q6,
            7 => QuantizationLevel::Q7,
            _ => QuantizationLevel::Q4,
        }
    }

    pub fn num_values(&self) -> (r: u8)
        ensures
            r == self.levels(),
    {
        match *self {
            QuantizationLevel::Q0 => 255,
            QuantizationLevel::Q1 => 86,
            QuantizationLevel::Q2 => 52,
            QuantizationLevel::Q3 => 18,
            QuantizationLevel::Q4 => 16,
            QuantizationLevel::Q5 => 6,
            QuantizationLevel::Q6 => 4,
            QuantizationLevel::Q7 => 2,
        }
    }
}

/// The multiple of `w` nearest to `x`; at the exact midpoint it rounds up.
pub open spec fn quantize_value(x: int, w: int) -> int {
    if x % w <= w / 2 {
        w * (x / w)
    } else {
        w * (x / w + 1)
    }
}

/// The multiple of `w` nearest to `x`, where quotient and remainder round
/// toward zero as Rust's `/` and `%` do: a remainder of more than `w / 2`
/// rounds the quotient up by one. Nothing clamps the result into `[0, 255]`.
pub open spec fn quantize_wide(x: int, w: int) -> int {
    let d = trunc_div(x, w);
    if x - w * d <= w / 2 {
        w * d
    } else {
        w * (d + 1)
    }
}

/// Mapping a value to its nearest representable level.
pub trait Quantize: Sized {
    /// The representable value that `self` maps to at level `q`.
    spec fn quantized(&self, q: QuantizationLevel) -> Self;

    fn quantize(&self, q: &QuantizationLevel) -> (r: Self)
        ensures
            r == self.quantized(*q),
    ;
}

/// Every level's grid spacing divides 255, so the grid ends exactly at 255.
pub proof fn lemma_step_divides_255(q: QuantizationLevel)
    ensures
        q.step() >= 1,
        255int % q.step() == 0,
        q.step() == 255int / (q.levels() - 1),
        2 <= q.levels() <= 255,
{
    match q {
        QuantizationLevel::Q0 => assert(255int / 254 == 1 && 255int % 1 == 0) by (nonlinear_arith),
        QuantizationLevel::Q1 => assert(255int / 85 == 3 && 255int % 3 == 0) by (nonlinear_arith),
        QuantizationLevel::Q2 => assert(255int / 51 == 5 && 255int % 5 == 0) by (nonlinear_arith),
        QuantizationLevel::Q3 => assert(255int / 17 == 15 && 255int % 15 == 0) by (nonlinear_arith),
        QuantizationLevel::Q4 => assert(255int / 15 == 17 && 255int % 17 == 0) by (nonlinear_arith),
        QuantizationLevel::Q5 => assert(255int / 5 == 51 && 255int % 51 == 0) by (nonlinear_arith),
        QuantizationLevel::Q6 => assert(255int / 3 == 85 && 255int % 85 == 0) by (nonlinear_arith),
        QuantizationLevel::Q7 => assert(255int / 1 == 255 && 255int % 255 == 0) by (nonlinear_arith),
    }
}

/// On bytes, quantizing gives a byte again: the grid spacing divides 255.
pub proof fn lemma_quantize_value_in_range(x: int, w: int)
    requires
        0 <= x <= 255,
        1 <= w,
        255int % w == 0,
    ensures
        0 <= quantize_value(x, w) <= 255,
{
    let m = 255int / w;
    let d = x / w;
    let r = x % w;
    assert(x == w * d + r && 0 <= r < w && 255 == w * m) by (nonlinear_arith)
        requires
            d == x / w,
            r == x % w,
            m == 255int / w,
            255int % w == 0,
            1 <= w,
    ;
    if r > w / 2 {
        assert(d < m) by (nonlinear_arith)
            requires
                x == w * d + r,
                255 == w * m,
                x <= 255,
                1 <= r < w,
                1 <= w,
        ;
        assert(w * (d + 1) <= w * m) by (nonlinear_arith)
            requires
                d + 1 <= m,
                1 <= w,
        ;
    }
    assert(0 <= w * d) by (nonlinear_arith)
        requires
            0 <= d,
            1 <= w,
    ;
}

/// A quantized value always lies on the grid of spacing `q.step()`, for a
/// byte and for a wide sample alike.
pub proof fn lemma_quantize_on_grid(x: int, q: QuantizationLevel)
    ensures
        quantize_value(x, q.step()) % q.step() == 0,
        quantize_wide(x, q.step()) % q.step() == 0,
{
    let w = q.step();
    lemma_step_divides_255(q);
    let k = if x % w <= w / 2 { x / w } else { x / w + 1 };
    assert((w * k) % w == 0) by (nonlinear_arith)
        requires
            w >= 1,
    ;
    let d = trunc_div(x, w);
    let k2 = if x - w * d <= w / 2 { d } else { d + 1 };
    assert((w * k2) % w == 0) by (nonlinear_arith)
        requires
            w >= 1,
    ;
}

/// At the finest level every byte is already representable.
pub proof fn lemma_finest_level_is_identity(x: u8)
    ensures
        quantize_value(x as int, QuantizationLevel::Q0.step()) == x,
        x.quantized(QuantizationLevel::Q0) == x,
{
    assert(255int / 254 == 1) by (nonlinear_arith);
}

impl Quantize for u8 {
    open spec fn quantized(&self, q: QuantizationLevel) -> u8 {
        quantize_value(*self as int, q.step()) as u8
    }

    fn quantize(&self, q: &QuantizationLevel) -> (r: u8) {
        let x = *self;
        let n = q.num_values();
        proof {
            lemma_step_divides_255(*q);
            lemma_quantize_value_in_range(x as int, q.step());
        }
        let width = 255 / (n - 1);
        let idx = if x % width <= width / 2 {
            x / width
        } else {
            x / width + 1
        };
        assert(width * idx == quantize_value(x as int, q.step()));
        width * idx
    }
}

impl Quantize for i32 {
    /// The sample as it is, negative or above 255 too, on the grid of the
    /// level; saturated into the range of `i32`.
    open spec fn quantized(&self, q: QuantizationLevel) -> i32 {
        sat_i32(quantize_wide(*self as int, q.step()))
    }

    fn quantize(&self, q: &QuantizationLevel) -> (r: i32) {
        let n = q.num_values();
        proof {
            lemma_step_divides_255(*q);
        }
        let w = (255 / (n - 1)) as i64;
        let a = *self as i64;
        let m = if a < 0 { -a } else { a };
        proof {
            assert(0 <= w * (m / w) <= m) by (nonlinear_arith)
                requires
                    w >= 1,
                    m >= 0,
            ;
        }
        let t = m / w;
        let d = if a < 0 { -t } else { t };
        proof {
            assert(w * (-t) == -(w * t)) by (nonlinear_arith);
        }
        let idx = if a - w * d <= w / 2 { d } else { d + 1 };
        proof {
            assert(w * (d + 1) == w * d + w) by (nonlinear_arith);
        }
        saturate_i32(w * idx)
    }
}

impl Quantize for RGB<i32> {
    open spec fn quantized(&self, q: QuantizationLevel) -> RGB<i32> {
        RGB(self.0.quantized(q), self.1.quantized(q), self.2.quantized(q))
    }

    fn quantize(&self, q: &QuantizationLevel) -> (r: RGB<i32>) {
        let RGB(r, g, b) = *self;
        RGB(r.quantize(q), g.quantize(q), b.quantize(q))
    }
}

} // verus!
