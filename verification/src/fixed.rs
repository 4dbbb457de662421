//! Fixed-point numbers.
//!
//! Every real quantity of the engine (seconds, beats per minute, screen
//! units) is a [`Fixed`]: a signed count of millionths. Arithmetic rounds
//! toward negative infinity and saturates at the ends of the `i64` range, so
//! every operation is total and has an exact mathematical meaning.

use vstd::prelude::*;
use vstd::arithmetic::div_mod::lemma_fundamental_div_mod_converse;

verus! {

/// Raw units per whole: a `Fixed` counts millionths.
pub const SCALE: i64 = 1_000_000;

/// The `i64` nearest to `x`.
pub open spec fn saturate(x: int) -> i64 {
    if x < i64::MIN {
        i64::MIN
    } else if x > i64::MAX {
        i64::MAX
    } else {
        x as i64
    }
}

/// A quantity held as `raw` millionths.
#[derive(Clone, Copy, Debug, PartialEq, Eq, Structural)]
pub struct Fixed {
    pub raw: i64,
}

/// Floor of `a / b` for a positive divisor.
pub(crate) fn div_floor(a: i128, b: i128) -> (q: i128)
    requires
        b > 0,
    ensures
        q == a as int / b as int,
{
    if a >= 0 {
        a / b
    } else {
        let n: i128 = -(a + 1);
        let k: i128 = n / b;
        let r: Ghost<int> = Ghost(n as int % b as int);
        proof {
            assert(n as int == b as int * (n as int / b as int) + n as int % b as int) by {
                vstd::arithmetic::div_mod::lemma_fundamental_div_mod(n as int, b as int);
            }
            assert(a as int == (-(k as int) - 1) * b as int + (b as int - r@ - 1)) by (nonlinear_arith)
                requires
                    n as int == -(a as int) - 1,
                    n as int == b as int * k as int + r@,
            ;
            lemma_fundamental_div_mod_converse(
                a as int,
                b as int,
                -(k as int) - 1,
                b as int - r@ - 1,
            );
        }
        -k - 1
    }
}

/// The `Fixed` nearest to `x` raw units.
pub(crate) fn saturate_wide(x: i128) -> (r: Fixed)
    ensures
        r.raw == saturate(x as int),
{
    if x < i64::MIN as i128 {
        Fixed { raw: i64::MIN }
    } else if x > i64::MAX as i128 {
        Fixed { raw: i64::MAX }
    } else {
        Fixed { raw: x as i64 }
    }
}

impl Fixed {
    /// The quantity zero.
    pub open spec fn spec_zero() -> Fixed {
        Fixed { raw: 0 }
    }

    /// The whole number `n`.
    pub open spec fn spec_from_int(n: int) -> Fixed {
        Fixed { raw: saturate(n * SCALE) }
    }

    /// Sum, saturated.
    pub open spec fn spec_add(self, rhs: Fixed) -> Fixed {
        Fixed { raw: saturate(self.raw + rhs.raw) }
    }

    /// Difference, saturated.
    pub open spec fn spec_sub(self, rhs: Fixed) -> Fixed {
        Fixed { raw: saturate(self.raw - rhs.raw) }
    }

    /// Product, rounded down to a millionth and saturated.
    pub open spec fn spec_mul(self, rhs: Fixed) -> Fixed {
        Fixed { raw: saturate((self.raw * rhs.raw) / (SCALE as int)) }
    }

    /// Quotient, rounded down to a millionth and saturated. Dividing by zero
    /// gives the end of the range on the side of the dividend, and zero for
    /// zero.
    pub open spec fn spec_div(self, rhs: Fixed) -> Fixed {
        if rhs.raw == 0 {
            if self.raw > 0 {
                Fixed { raw: i64::MAX }
            } else if self.raw < 0 {
                Fixed { raw: i64::MIN }
            } else {
                Fixed { raw: 0 }
            }
        } else if rhs.raw > 0 {
            Fixed { raw: saturate((self.raw * SCALE) / (rhs.raw as int)) }
        } else {
            Fixed { raw: saturate((-(self.raw * SCALE)) / (-(rhs.raw as int))) }
        }
    }

    /// Negation, saturated.
    pub open spec fn spec_neg(self) -> Fixed {
        Fixed { raw: saturate(-self.raw) }
    }

    /// The larger of the two.
    pub open spec fn spec_max(self, rhs: Fixed) -> Fixed {
        if self.raw >= rhs.raw {
            self
        } else {
            rhs
        }
    }

    /// The quantity zero.
    pub fn zero() -> (r: Fixed)
        ensures
            r == Fixed::spec_zero(),
    {
        Fixed { raw: 0 }
    }

    /// The quantity of `raw` millionths.
    pub fn from_raw(raw: i64) -> (r: Fixed)
        ensures
            r.raw == raw,
    {
        Fixed { raw }
    }

    /// The whole number `n`.
    pub fn from_int(n: i32) -> (r: Fixed)
        ensures
            r == Fixed::spec_from_int(n as int),
            r.raw == n * SCALE,
    {
        Fixed { raw: (n as i64) * SCALE }
    }

    /// Sum, saturated.
    pub fn add(self, rhs: Fixed) -> (r: Fixed)
        ensures
            r == self.spec_add(rhs),
    {
        saturate_wide(self.raw as i128 + rhs.raw as i128)
    }

    /// Difference, saturated.
    pub fn sub(self, rhs: Fixed) -> (r: Fixed)
        ensures
            r == self.spec_sub(rhs),
    {
        saturate_wide(self.raw as i128 - rhs.raw as i128)
    }

    /// Product, rounded down to a millionth and saturated.
    pub fn mul(self, rhs: Fixed) -> (r: Fixed)
        ensures
            r == self.spec_mul(rhs),
    {
        let a: i128 = self.raw as i128;
        let b: i128 = rhs.raw as i128;
        assert(-0x4000_0000_0000_0000_0000_0000_0000_0000 <= a * b
            <= 0x4000_0000_0000_0000_0000_0000_0000_0000) by (nonlinear_arith)
            requires
                -0x8000_0000_0000_0000 <= a <= 0x8000_0000_0000_0000,
                -0x8000_0000_0000_0000 <= b <= 0x8000_0000_0000_0000,
        ;
        saturate_wide(div_floor(a * b, SCALE as i128))
    }

    /// Quotient, rounded down to a millionth and saturated; by zero, the end
    /// of the range on the side of the dividend.
    pub fn div(self, rhs: Fixed) -> (r: Fixed)
        ensures
            r == self.spec_div(rhs),
    {
        let n: i128 = self.raw as i128 * (SCALE as i128);
        if rhs.raw == 0 {
            if self.raw > 0 {
                Fixed { raw: i64::MAX }
            } else if self.raw < 0 {
                Fixed { raw: i64::MIN }
            } else {
                Fixed { raw: 0 }
            }
        } else if rhs.raw > 0 {
            saturate_wide(div_floor(n, rhs.raw as i128))
        } else {
            saturate_wide(div_floor(-n, -(rhs.raw as i128)))
        }
    }

    /// Negation, saturated.
    pub fn neg(self) -> (r: Fixed)
        ensures
            r == self.spec_neg(),
    {
        saturate_wide(-(self.raw as i128))
    }

    /// The larger of the two.
    pub fn max(self, rhs: Fixed) -> (r: Fixed)
        ensures
            r == self.spec_max(rhs),
    {
        if self.raw >= rhs.raw {
            self
        } else {
            rhs
        }
    }

    /// Whether `self` is less than `rhs`.
    pub fn lt(self, rhs: Fixed) -> (r: bool)
        ensures
            r == (self.raw < rhs.raw),
    {
        self.raw < rhs.raw
    }

    /// Whether `self` is at most `rhs`.
    pub fn le(self, rhs: Fixed) -> (r: bool)
        ensures
            r == (self.raw <= rhs.raw),
    {
        self.raw <= rhs.raw
    }
}

} // verus!
