use vstd::prelude::*;

verus! {

/// Bound on the numerator and denominator of a `Ratio`, so that scaling one by
/// a 32-bit pixel extent stays exact in 128 bits.
pub const RATIO_LIMIT: i128 = 10_000_000_000_000_000_000_000_000_000;

/// n / d rounded to the nearest integer, halves away from zero (d > 0).
pub open spec fn round_div(n: int, d: int) -> int
    recommends
        d > 0,
{
    if n >= 0 {
        (2 * n + d) / (2 * d)
    } else {
        -((-2 * n + d) / (2 * d))
    }
}

/// The value of a float-to-`u32` cast: negatives become 0, large values the maximum.
pub open spec fn saturate_u32(v: int) -> int {
    if v < 0 {
        0
    } else if v > u32::MAX {
        u32::MAX as int
    } else {
        v
    }
}

/// Exact rational number `num / den` with a positive denominator.
#[derive(Clone, Copy, Debug, PartialEq, Eq, Structural)]
pub struct Ratio {
    pub num: i128,
    pub den: i128,
}

/// The fraction n / d written with a positive denominator (d != 0).
pub open spec fn frac_of(n: int, d: int) -> (int, int) {
    if d < 0 {
        (-n, -d)
    } else {
        (n, d)
    }
}

impl Ratio {
    /// The ratio `num / den`, its sign carried by the numerator.
    pub fn new(num: i128, den: i128) -> (r: Ratio)
        requires
            den != 0,
            -RATIO_LIMIT <= num <= RATIO_LIMIT,
            -RATIO_LIMIT <= den <= RATIO_LIMIT,
        ensures
            (r.num as int, r.den as int) == frac_of(num as int, den as int),
            r.wf(),
    {
        if den < 0 {
            Ratio { num: -num, den: -den }
        } else {
            Ratio { num, den }
        }
    }

    pub open spec fn wf(&self) -> bool {
        0 < self.den <= RATIO_LIMIT && -RATIO_LIMIT <= self.num <= RATIO_LIMIT
    }

    /// The two ratios stand for the same rational number.
    pub open spec fn same_value(&self, other: Ratio) -> bool {
        self.num * other.den == other.num * self.den
    }

    /// The pixel index of this fraction of `extent` pixels: rounded to the
    /// nearest integer, halves away from zero, then saturated into `u32`.
    pub open spec fn pixel_spec(&self, extent: int) -> int {
        saturate_u32(round_div(self.num * extent, self.den as int))
    }

    pub fn to_pixel(&self, extent: u32) -> (r: u32)
        requires
            self.wf(),
        ensures
            r as int == self.pixel_spec(extent as int),
    {
        let n = self.num;
        let d = self.den;
        let e = extent as i128;
        proof {
            crate::vec3::lemma_abs_mul_le(n as int, e as int, RATIO_LIMIT as int, u32::MAX as int);
            assert(RATIO_LIMIT as int * u32::MAX as int <= 50_000_000_000_000_000_000_000_000_000_000_000_000int)
                by (nonlinear_arith);
        }
        let ne = n * e;
        let rounded: i128 = if ne >= 0 {
            (2 * ne + d) / (2 * d)
        } else {
            -((-2 * ne + d) / (2 * d))
        };
        proof {
            if ne >= 0 {
                assert(0 <= (2 * ne + d) / (2 * d) <= 2 * ne + d) by (nonlinear_arith)
                    requires ne >= 0, d > 0;
            } else {
                assert(0 <= (-2 * ne + d) / (2 * d) <= -2 * ne + d) by (nonlinear_arith)
                    requires ne < 0, d > 0;
            }
        }
        if rounded < 0 {
            0
        } else if rounded > u32::MAX as i128 {
            u32::MAX
        } else {
            rounded as u32
        }
    }
}

/// Rounding an exact multiple gives its quotient back.
pub proof fn lemma_round_div_exact(k: int, d: int)
    requires
        d > 0,
    ensures
        round_div(k * d, d) == k,
{
    if k >= 0 {
        assert((2 * (k * d) + d) / (2 * d) == k) by {
            assert(2 * (k * d) + d == k * (2 * d) + d) by (nonlinear_arith);
            vstd::arithmetic::div_mod::lemma_fundamental_div_mod_converse(
                2 * (k * d) + d, 2 * d, k, d);
        }
        assert(k * d >= 0) by (nonlinear_arith) requires k >= 0, d > 0;
    } else {
        assert(k * d < 0) by (nonlinear_arith) requires k < 0, d > 0;
        assert((-2 * (k * d) + d) / (2 * d) == -k) by {
            assert(-2 * (k * d) + d == (-k) * (2 * d) + d) by (nonlinear_arith);
            vstd::arithmetic::div_mod::lemma_fundamental_div_mod_converse(
                -2 * (k * d) + d, 2 * d, -k, d);
        }
    }
}

} // verus!
