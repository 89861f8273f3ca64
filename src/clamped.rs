//! A wide signed channel value that converts to a byte by saturation.
use vstd::prelude::*;

verus! {

/// `v` saturated into the byte range `[0, 255]`.
pub open spec fn to_byte(v: int) -> u8 {
    if v < 0 {
        0
    } else if v > 255 {
        255
    } else {
        v as u8
    }
}

/// `v` saturated into the range of `i64`.
pub open spec fn sat_i64(v: int) -> i64 {
    if v < i64::MIN {
        i64::MIN
    } else if v > i64::MAX {
        i64::MAX
    } else {
        v as i64
    }
}

/// The quotient of `a` by `k` rounded toward zero, as integer division in Rust rounds.
pub open spec fn trunc_div(a: int, k: int) -> int {
    let q = (if a < 0 { -a } else { a }) / (if k < 0 { -k } else { k });
    if (a < 0) != (k < 0) {
        -q
    } else {
        q
    }
}

/// A channel sample that may stray outside the byte range while errors are
/// being diffused, and is saturated into it when written out.
#[derive(Debug, Copy, Clone, PartialEq, Eq, Structural)]
pub struct Clamped(pub i64);

fn saturate_i64(v: i128) -> (r: i64)
    ensures
        r == sat_i64(v as int),
{
    if v < i64::MIN as i128 {
        i64::MIN
    } else if v > i64::MAX as i128 {
        i64::MAX
    } else {
        v as i64
    }
}

impl Clamped {
    /// The value saturated into `[0, 255]`.
    pub fn clamped_value(&self) -> (r: u8)
        ensures
            r == to_byte(self.0 as int),
    {
        let val = self.0;
        if val < 0 {
            0
        } else if val > 255 {
            255
        } else {
            val as u8
        }
    }

    /// The value as it is held, possibly outside `[0, 255]`.
    pub fn unclamped_value(&self) -> (r: i64)
        ensures
            r == self.0,
    {
        self.0
    }

    /// The sum, saturated into the range of `i64`.
    pub fn add(self, other: Self) -> (r: Self)
        ensures
            r.0 == sat_i64(self.0 + other.0),
    {
        Clamped(saturate_i64(self.0 as i128 + other.0 as i128))
    }

    /// The difference, saturated into the range of `i64`.
    pub fn sub(self, other: Self) -> (r: Self)
        ensures
            r.0 == sat_i64(self.0 - other.0),
    {
        Clamped(saturate_i64(self.0 as i128 - other.0 as i128))
    }

    /// The product with an integer scalar, saturated into the range of `i64`.
    pub fn mul(self, k: i64) -> (r: Self)
        ensures
            r.0 == sat_i64(self.0 * k),
    {
        assert(-0x8000_0000_0000_0000 * 0x8000_0000_0000_0000 <= self.0 * k <= 0x8000_0000_0000_0000
            * 0x8000_0000_0000_0000) by (nonlinear_arith)
            requires
                i64::MIN <= self.0 <= i64::MAX,
                i64::MIN <= k <= i64::MAX,
        ;
        Clamped(saturate_i64(self.0 as i128 * k as i128))
    }

    /// The quotient by a nonzero integer scalar, rounded toward zero and
    /// saturated into the range of `i64`.
    pub fn div(self, k: i64) -> (r: Self)
        requires
            k != 0,
        ensures
            r.0 == sat_i64(trunc_div(self.0 as int, k as int)),
    {
        let a = self.0 as i128;
        let d = k as i128;
        let q = (if a < 0 { -a } else { a }) / (if d < 0 { -d } else { d });
        Clamped(saturate_i64(if (a < 0) != (d < 0) { -q } else { q }))
    }
}

impl From<u8> for Clamped {
    fn from(x: u8) -> (r: Self) {
        Clamped(x as i64)
    }
}

impl vstd::std_specs::convert::FromSpecImpl<u8> for Clamped {
    open spec fn obeys_from_spec() -> bool {
        true
    }

    open spec fn from_spec(x: u8) -> Clamped {
        Clamped(x as i64)
    }
}

} // verus!
