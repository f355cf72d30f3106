//! Decimal fixed-point numbers with six fractional digits.
//!
//! Every quantity of the simulation (lengths, durations in seconds, speeds,
//! direction cosines) is a [`Fixed`]. Arithmetic saturates at the ends of the
//! representable range, and products are rounded toward zero.

use vstd::prelude::*;

verus! {

/// Number of raw units in one whole unit.
pub const SCALE: i64 = 1_000_000;

/// A signed fixed-point number: `raw` counts millionths.
#[derive(Clone, Copy, Debug, PartialEq, Eq, Structural)]
pub struct Fixed {
    pub raw: i64,
}

/// An angle, held as its cosine and its sine.
#[derive(Clone, Copy, Debug, PartialEq, Eq, Structural)]
pub struct Angle {
    pub cos: Fixed,
    pub sin: Fixed,
}

/// The representable value nearest to `x`.
pub open spec fn saturate(x: int) -> int {
    if x < i64::MIN as int {
        i64::MIN as int
    } else if x > i64::MAX as int {
        i64::MAX as int
    } else {
        x
    }
}

/// The quotient `p / d`, rounded toward zero.
pub open spec fn div_toward_zero(p: int, d: int) -> int
    recommends
        d > 0,
{
    if p >= 0 {
        p / d
    } else {
        -((-p) / d)
    }
}

fn saturate_wide(x: i128) -> (r: i64)
    ensures
        r as int == saturate(x as int),
{
    if x < i64::MIN as i128 {
        i64::MIN
    } else if x > i64::MAX as i128 {
        i64::MAX
    } else {
        x as i64
    }
}

impl Fixed {
    /// The sum, or the end of the range that it lies beyond.
    pub open spec fn sum(self, rhs: Fixed) -> Fixed {
        Fixed { raw: saturate(self.raw + rhs.raw) as i64 }
    }

    /// The difference, or the end of the range that it lies beyond.
    pub open spec fn difference(self, rhs: Fixed) -> Fixed {
        Fixed { raw: saturate(self.raw - rhs.raw) as i64 }
    }

    /// The product rounded toward zero, or the end of the range that it lies
    /// beyond.
    pub open spec fn product(self, rhs: Fixed) -> Fixed {
        Fixed { raw: saturate(div_toward_zero(self.raw * rhs.raw, SCALE as int)) as i64 }
    }

    /// The value limited to the interval from `low` to `high`.
    pub open spec fn clamped(self, low: Fixed, high: Fixed) -> Fixed
        recommends
            low.raw <= high.raw,
    {
        if self.raw < low.raw {
            low
        } else if self.raw > high.raw {
            high
        } else {
            self
        }
    }

    /// The number with the given raw value.
    pub fn from_raw(raw: i64) -> (r: Fixed)
        ensures
            r.raw == raw,
    {
        Fixed { raw }
    }

    /// The number of seconds that `micros` microseconds are, or the greatest
    /// number if there are more.
    pub fn from_micros(micros: u64) -> (r: Fixed)
        ensures
            r.raw as int == saturate(micros as int),
    {
        if micros > i64::MAX as u64 {
            Fixed { raw: i64::MAX }
        } else {
            Fixed { raw: micros as i64 }
        }
    }

    /// Saturating sum.
    pub fn plus(self, rhs: Fixed) -> (r: Fixed)
        ensures
            r == self.sum(rhs),
    {
        Fixed { raw: saturate_wide(self.raw as i128 + rhs.raw as i128) }
    }

    /// Saturating difference.
    pub fn minus(self, rhs: Fixed) -> (r: Fixed)
        ensures
            r == self.difference(rhs),
    {
        Fixed { raw: saturate_wide(self.raw as i128 - rhs.raw as i128) }
    }

    /// Saturating product, rounded toward zero.
    pub fn times(self, rhs: Fixed) -> (r: Fixed)
        ensures
            r == self.product(rhs),
    {
        let a: i128 = self.raw as i128;
        let b: i128 = rhs.raw as i128;
        assert(-0x4000_0000_0000_0000_0000_0000_0000_0000 <= a * b
            <= 0x4000_0000_0000_0000_0000_0000_0000_0000) by (nonlinear_arith)
            requires
                -0x8000_0000_0000_0000 <= a <= 0x8000_0000_0000_0000,
                -0x8000_0000_0000_0000 <= b <= 0x8000_0000_0000_0000,
        ;
        let wide: i128 = a * b;
        Fixed { raw: saturate_wide(wide / (SCALE as i128)) }
    }

    /// The value limited to the interval from `low` to `high`.
    pub fn clamp(self, low: Fixed, high: Fixed) -> (r: Fixed)
        requires
            low.raw <= high.raw,
        ensures
            r == self.clamped(low, high),
    {
        if self.raw < low.raw {
            low
        } else if self.raw > high.raw {
            high
        } else {
            self
        }
    }
}

} // verus!
