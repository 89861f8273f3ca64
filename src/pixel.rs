//! Three-channel pixels and their channel-wise arithmetic.
use vstd::prelude::*;
use crate::clamped::{Clamped, to_byte, trunc_div};

verus! {

/// `v` saturated into the range of `i32`.
pub open spec fn sat_i32(v: int) -> i32 {
    if v < i32::MIN {
        i32::MIN
    } else if v > i32::MAX {
        i32::MAX
    } else {
        v as i32
    }
}

/// A pixel of three channels in the order red, green, blue.
#[derive(Copy, Clone, Debug, PartialEq, Eq)]
pub struct RGB<T: Copy>(pub T, pub T, pub T);

pub(crate) fn saturate_i32(v: i64) -> (r: i32)
    ensures
        r == sat_i32(v as int),
{
    if v < i32::MIN as i64 {
        i32::MIN
    } else if v > i32::MAX as i64 {
        i32::MAX
    } else {
        v as i32
    }
}

fn div_channel(a: i32, k: i32) -> (r: i32)
    requires
        k != 0,
    ensures
        r == sat_i32(trunc_div(a as int, k as int)),
{
    let a = a as i64;
    let d = k as i64;
    let q = (if a < 0 { -a } else { a }) / (if d < 0 { -d } else { d });
    saturate_i32(if (a < 0) != (d < 0) { -q } else { q })
}

impl RGB<i32> {
    /// Channel-wise sum, saturated into the range of `i32`.
    pub open spec fn spec_add(self, rhs: Self) -> Self {
        RGB(sat_i32(self.0 + rhs.0), sat_i32(self.1 + rhs.1), sat_i32(self.2 + rhs.2))
    }

    /// Channel-wise difference, saturated into the range of `i32`.
    pub open spec fn spec_sub(self, rhs: Self) -> Self {
        RGB(sat_i32(self.0 - rhs.0), sat_i32(self.1 - rhs.1), sat_i32(self.2 - rhs.2))
    }

    /// Every channel times `k`, saturated into the range of `i32`.
    pub open spec fn spec_mul(self, k: i32) -> Self {
        RGB(sat_i32(self.0 * k), sat_i32(self.1 * k), sat_i32(self.2 * k))
    }

    /// Every channel divided by `k`, rounded toward zero and saturated into the range of `i32`.
    pub open spec fn spec_div(self, k: i32) -> Self {
        RGB(
            sat_i32(trunc_div(self.0 as int, k as int)),
            sat_i32(trunc_div(self.1 as int, k as int)),
            sat_i32(trunc_div(self.2 as int, k as int)),
        )
    }

    /// Every channel saturated into the byte range `[0, 255]`.
    pub open spec fn spec_clamped(self) -> Self {
        RGB(to_byte(self.0 as int) as i32, to_byte(self.1 as int) as i32, to_byte(self.2 as int) as i32)
    }

    pub fn clamped(self) -> (r: Self)
        ensures
            r == self.spec_clamped(),
    {
        let RGB(r, g, b) = self;
        RGB(
            Clamped(r as i64).clamped_value() as i32,
            Clamped(g as i64).clamped_value() as i32,
            Clamped(b as i64).clamped_value() as i32,
        )
    }

    pub fn add(self, rhs: Self) -> (r: Self)
        ensures
            r == self.spec_add(rhs),
    {
        let RGB(rs, gs, bs) = self;
        let RGB(ro, go, bo) = rhs;
        RGB(
            saturate_i32(rs as i64 + ro as i64),
            saturate_i32(gs as i64 + go as i64),
            saturate_i32(bs as i64 + bo as i64),
        )
    }

    pub fn sub(self, rhs: Self) -> (r: Self)
        ensures
            r == self.spec_sub(rhs),
    {
        let RGB(rs, gs, bs) = self;
        let RGB(ro, go, bo) = rhs;
        RGB(
            saturate_i32(rs as i64 - ro as i64),
            saturate_i32(gs as i64 - go as i64),
            saturate_i32(bs as i64 - bo as i64),
        )
    }

    pub fn mul(self, rhs: i32) -> (r: Self)
        ensures
            r == self.spec_mul(rhs),
    {
        let RGB(r, g, b) = self;
        proof {
            lemma_product_fits_i64(r, rhs);
            lemma_product_fits_i64(g, rhs);
            lemma_product_fits_i64(b, rhs);
        }
        RGB(
            saturate_i32(r as i64 * rhs as i64),
            saturate_i32(g as i64 * rhs as i64),
            saturate_i32(b as i64 * rhs as i64),
        )
    }

    pub fn div(self, rhs: i32) -> (r: Self)
        requires
            rhs != 0,
        ensures
            r == self.spec_div(rhs),
    {
        let RGB(r, g, b) = self;
        RGB(div_channel(r, rhs), div_channel(g, rhs), div_channel(b, rhs))
    }

    pub fn add_assign(&mut self, other: Self)
        ensures
            *final(self) == old(self).spec_add(other),
    {
        *self = self.add(other);
    }
}

proof fn lemma_product_fits_i64(a: i32, b: i32)
    ensures
        i64::MIN <= a * b <= i64::MAX,
{
    assert(-0x8000_0000 * 0x8000_0000 <= a * b <= 0x8000_0000 * 0x8000_0000) by (nonlinear_arith)
        requires
            -0x8000_0000 <= a < 0x8000_0000,
            -0x8000_0000 <= b < 0x8000_0000,
    ;
}

} // verus!
