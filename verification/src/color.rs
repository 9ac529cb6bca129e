//! Colors as non-negative fixed-point channels: `UNIT` is full intensity,
//! emitters may exceed it up to `CLIMIT`.

use vstd::prelude::*;
use crate::math::UNIT;

verus! {

/// Largest channel value a texture or emitter may carry (1024 times
/// full intensity).
pub const CLIMIT: i64 = 1048576;

#[derive(Clone, Copy, Debug, PartialEq, Eq, Structural)]
pub struct Color {
    pub r: i64,
    pub g: i64,
    pub b: i64,
}

/// Channels are non-negative and at most `m`.
pub open spec fn color_le(c: Color, m: int) -> bool {
    &&& 0 <= c.r <= m
    &&& 0 <= c.g <= m
    &&& 0 <= c.b <= m
}

/// One channel of the attenuation product, `a` scaled by `UNIT`.
pub open spec fn tint_channel(a: int, c: int) -> int {
    (a * c) / (UNIT as int)
}

impl Color {
    pub fn new(r: i64, g: i64, b: i64) -> (c: Color)
        ensures c.r == r && c.g == g && c.b == b,
    {
        Color { r, g, b }
    }

    pub fn black() -> (c: Color)
        ensures
            c.r == 0 && c.g == 0 && c.b == 0,
            color_le(c, 0),
    {
        Color { r: 0, g: 0, b: 0 }
    }

    pub fn white() -> (c: Color)
        ensures
            c.r == UNIT && c.g == UNIT && c.b == UNIT,
            color_le(c, UNIT as int),
    {
        Color { r: UNIT, g: UNIT, b: UNIT }
    }

    /// Component-wise sum.
    pub fn add(&self, o: &Color) -> (c: Color)
        requires
            self.r + o.r <= i64::MAX,
            self.g + o.g <= i64::MAX,
            self.b + o.b <= i64::MAX,
            color_le(*self, i64::MAX as int),
            color_le(*o, i64::MAX as int),
        ensures
            c.r == self.r + o.r,
            c.g == self.g + o.g,
            c.b == self.b + o.b,
    {
        Color { r: self.r + o.r, g: self.g + o.g, b: self.b + o.b }
    }

    /// Tints `c` by the attenuation `self` (each channel of `self` at
    /// most `UNIT`, so tinting never brightens).
    pub fn tint(&self, c: &Color) -> (t: Color)
        requires
            color_le(*self, UNIT as int),
            color_le(*c, 0x1_0000_0000_0000i64 as int),
        ensures
            t.r == tint_channel(self.r as int, c.r as int),
            t.g == tint_channel(self.g as int, c.g as int),
            t.b == tint_channel(self.b as int, c.b as int),
            t.r <= c.r && t.g <= c.g && t.b <= c.b,
            color_le(t, 0x1_0000_0000_0000i64 as int),
    {
        let t = Color {
            r: Self::tint1(self.r, c.r),
            g: Self::tint1(self.g, c.g),
            b: Self::tint1(self.b, c.b),
        };
        t
    }

    fn tint1(a: i64, c: i64) -> (t: i64)
        requires
            0 <= a <= UNIT,
            0 <= c <= 0x1_0000_0000_0000i64,
        ensures
            t == tint_channel(a as int, c as int),
            0 <= t <= c,
    {
        proof {
            assert(0 <= a * c <= 0x400_0000_0000_0000i64) by (nonlinear_arith)
                requires 0 <= a <= UNIT, 0 <= c <= 0x1_0000_0000_0000i64, UNIT == 1024;
        }
        let p = a * c;
        let t = ((p as u64) / (UNIT as u64)) as i64;
        proof {
            vstd::arithmetic::div_mod::lemma_fundamental_div_mod(p as int, UNIT as int);
            vstd::arithmetic::div_mod::lemma_mod_bound(p as int, UNIT as int);
            assert((a * c) / (UNIT as int) <= c) by (nonlinear_arith)
                requires
                    0 <= a <= UNIT,
                    0 <= c,
                    UNIT == 1024,
                    a * c == (UNIT as int) * ((a * c) / (UNIT as int)) + (a * c) % (UNIT as int),
                    0 <= (a * c) % (UNIT as int) < UNIT as int,
            ;
        }
        t
    }
}

} // verus!
