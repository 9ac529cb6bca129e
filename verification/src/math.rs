//! Fixed-point scale, coordinate bounds, and exact integer primitives
//! (floor division, integer square root) that the geometry is built on.

use vstd::prelude::*;

verus! {

/// One in the fixed-point scale: 1024 sub-units per world unit.
pub const UNIT: i64 = 1024;
/// Largest coordinate magnitude allowed for scene geometry
/// (vertices, centers, radii): 128 world units.
pub const CMAX: i64 = 131072;
/// Largest magnitude allowed for a ray direction component: 8 units.
pub const DMAX: i64 = 8192;
/// Largest magnitude allowed for a ray origin component: 2048 units.
pub const PMAX: i64 = 2097152;
/// Largest magnitude allowed for bounding-box corner components.
pub const BMAX: i64 = 4194304;
/// Bound on the numerator magnitude and denominator of a ray-parameter
/// rational; cross-multiplying two such rationals stays within `i128`.
pub const RMAX: i64 = 0x1000_0000_0000_0000;

pub open spec fn iabs(x: int) -> int {
    if x < 0 { -x } else { x }
}

/// Floor division: the unique `q` with `b * q <= a < b * (q + 1)`.
/// For a positive divisor this agrees with euclidean division on `int`.
pub fn fdiv(a: i128, b: i128) -> (q: i128)
    requires
        1 <= b,
        -0x1000_0000_0000_0000_0000_0000_0000_0000i128 < a,
        b < 0x1000_0000_0000_0000_0000_0000_0000_0000i128,
    ensures
        b * q <= a < b * (q + 1),
        iabs(q as int) <= iabs(a as int),
        q == (a as int) / (b as int),
{
    let q = if a >= 0 {
        let ua = a as u128;
        let ub = b as u128;
        let q0 = ua / ub;
        let q = q0 as i128;
        proof {
            assert(ua as int == (ub as int) * (q0 as int) + (ua as int) % (ub as int)) by {
                vstd::arithmetic::div_mod::lemma_fundamental_div_mod(ua as int, ub as int);
            }
            assert(b * q <= a < b * (q + 1)) by (nonlinear_arith)
                requires
                    a as int == (b as int) * (q as int) + (ua as int) % (ub as int),
                    0 <= (ua as int) % (ub as int) < ub as int,
                    ub == b,
                    q >= 0,
                    a >= 0,
            ;
            assert(q <= a) by (nonlinear_arith)
                requires b * q <= a, b >= 1, q >= 0, a >= 0,
            ;
        }
        q
    } else {
        let ua = (-a) as u128;
        let ub = b as u128;
        let q0 = (ua - 1) / ub + 1;
        let q = -(q0 as i128);
        proof {
            let uam1 = (ua - 1) as u128;
            assert(uam1 as int == (ub as int) * ((uam1 as int) / (ub as int)) + (uam1 as int) % (ub as int)) by {
                vstd::arithmetic::div_mod::lemma_fundamental_div_mod(uam1 as int, ub as int);
            }
            assert(b * q <= a < b * (q + 1)) by (nonlinear_arith)
                requires
                    (ua - 1) as int == (b as int) * ((q0 - 1) as int) + ((ua - 1) as int) % (b as int),
                    0 <= ((ua - 1) as int) % (b as int) < b as int,
                    q == -(q0 as int),
                    ua as int == -(a as int),
                    b >= 1,
                    a < 0,
                    ua >= 1,
            ;
            assert(-(q as int) <= ua as int) by (nonlinear_arith)
                requires b * q <= a, a < b * (q + 1), b >= 1, q <= 0, ua as int == -(a as int),
            ;
        }
        q
    };
    proof {
        vstd::arithmetic::div_mod::lemma_fundamental_div_mod(a as int, b as int);
        vstd::arithmetic::div_mod::lemma_mod_bound(a as int, b as int);
        assert(q == (a as int) / (b as int)) by (nonlinear_arith)
            requires
                b * q <= a < b * (q + 1),
                a as int == (b as int) * ((a as int) / (b as int)) + (a as int) % (b as int),
                0 <= (a as int) % (b as int) < b as int,
                b >= 1,
        ;
    }
    q
}

/// The integer square root: the largest `r` with `r * r <= n`.
pub open spec fn isqrt_spec(n: nat) -> nat
    decreases n,
{
    if n == 0 {
        0
    } else {
        let p = isqrt_spec((n - 1) as nat);
        if (p + 1) * (p + 1) <= n { p + 1 } else { p }
    }
}

pub proof fn lemma_isqrt_char(n: nat)
    ensures
        isqrt_spec(n) * isqrt_spec(n) <= n,
        n < (isqrt_spec(n) + 1) * (isqrt_spec(n) + 1),
    decreases n,
{
    if n == 0 {
        assert(isqrt_spec(n) == 0);
        assert(n < (isqrt_spec(n) + 1) * (isqrt_spec(n) + 1)) by (nonlinear_arith)
            requires isqrt_spec(n) == 0, n == 0;
    } else {
        lemma_isqrt_char((n - 1) as nat);
        let p = isqrt_spec((n - 1) as nat);
        assert(p * p <= n - 1);
        assert((n - 1) < (p + 1) * (p + 1));
        if (p + 1) * (p + 1) <= n {
            assert(isqrt_spec(n) == p + 1);
            assert(n < (isqrt_spec(n) + 1) * (isqrt_spec(n) + 1)) by (nonlinear_arith)
                requires isqrt_spec(n) == p + 1, (n - 1) < (p + 1) * (p + 1), n >= 1;
        } else {
            assert(isqrt_spec(n) == p);
            assert(n < (isqrt_spec(n) + 1) * (isqrt_spec(n) + 1)) by (nonlinear_arith)
                requires isqrt_spec(n) == p, !((p + 1) * (p + 1) <= n);
        }
    }
}

pub proof fn lemma_isqrt_unique(n: nat, r: nat)
    requires
        r * r <= n,
        n < (r + 1) * (r + 1),
    ensures
        r == isqrt_spec(n),
{
    lemma_isqrt_char(n);
    let s = isqrt_spec(n);
    if r < s {
        assert((r + 1) * (r + 1) <= s * s) by (nonlinear_arith)
            requires r + 1 <= s;
    }
    if s < r {
        assert((s + 1) * (s + 1) <= r * r) by (nonlinear_arith)
            requires s + 1 <= r;
    }
}

/// Binary search for the integer square root.
pub fn isqrt(n: u128) -> (r: u128)
    ensures
        r * r <= n,
        n < (r + 1) * (r + 1),
        r as nat == isqrt_spec(n as nat),
{
    let mut lo: u128 = 0;
    let mut hi: u128 = 0x1_0000_0000_0000_0000u128;
    proof {
        assert((hi as int * hi as int) > n as int) by (nonlinear_arith)
            requires
                hi == 0x1_0000_0000_0000_0000u128,
                n <= u128::MAX,
        ;
    }
    while lo + 1 < hi
        invariant
            lo < hi <= 0x1_0000_0000_0000_0000u128,
            lo * lo <= n,
            (n as int) < (hi as int) * (hi as int),
        decreases hi - lo,
    {
        let mid = lo + (hi - lo) / 2;
        proof {
            assert(mid as int * mid as int <= u128::MAX) by (nonlinear_arith)
                requires mid < 0x1_0000_0000_0000_0000u128;
        }
        if mid * mid <= n {
            lo = mid;
        } else {
            hi = mid;
        }
    }
    proof {
        lemma_isqrt_unique(n as nat, lo as nat);
    }
    lo
}

/// Clamps `x` into `[lo, hi]`.
pub open spec fn clamp_spec(x: int, lo: int, hi: int) -> int {
    if x < lo { lo } else if x > hi { hi } else { x }
}

pub fn clamp64(x: i64, lo: i64, hi: i64) -> (r: i64)
    requires
        lo <= hi,
    ensures
        r == clamp_spec(x as int, lo as int, hi as int),
{
    if x < lo { lo } else if x > hi { hi } else { x }
}

} // verus!
