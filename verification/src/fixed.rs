//! Fixed-point scale and the few integer helpers the rest of the crate shares.

use vstd::prelude::*;

verus! {

/// Number of stored units per whole unit of a real quantity.
pub const SCALE: i64 = 1_000_000_000;

/// Energy tolerance of the state-of-charge comparisons: 10^-6 MWh.
pub const EPSILON: i64 = 1_000;

/// Power tolerance of the allocator: 10^-6 MW.
pub const TOLERANCE: i64 = 1_000;

/// Largest magnitude accepted for a configured power, energy or ramp value:
/// 10^6 whole units.
pub const LIMIT: i64 = 1_000_000_000_000_000;

/// `x` limited to the closed interval from `lo` to `hi`.
pub open spec fn clamp(x: int, lo: int, hi: int) -> int {
    if x < lo {
        lo
    } else if x > hi {
        hi
    } else {
        x
    }
}

/// Magnitude of `x`.
pub open spec fn abs(x: int) -> int {
    if x < 0 {
        -x
    } else {
        x
    }
}

/// Quotient of `n` by a positive `d`, rounded toward zero.
pub open spec fn trunc_div(n: int, d: int) -> int {
    if n >= 0 {
        n / d
    } else {
        -((-n) / d)
    }
}

/// Executable `clamp` on wide integers.
pub fn clamp_wide(x: i128, lo: i128, hi: i128) -> (r: i128)
    requires
        lo <= hi,
    ensures
        r == clamp(x as int, lo as int, hi as int),
        lo <= r <= hi,
{
    if x < lo {
        lo
    } else if x > hi {
        hi
    } else {
        x
    }
}

/// Executable `trunc_div` on wide integers.
pub fn div_toward_zero(n: i128, d: i128) -> (r: i128)
    requires
        d > 0,
        n > i128::MIN,
    ensures
        r == trunc_div(n as int, d as int),
        abs(r as int) <= abs(n as int),
        d * abs(r as int) <= abs(n as int),
        n >= 0 ==> r >= 0,
        n <= 0 ==> r <= 0,
{
    if n >= 0 {
        let q: i128 = n / d;
        proof {
            lemma_quotient_bounds(n as int, d as int);
        }
        q
    } else {
        let m: i128 = -n;
        let q: i128 = m / d;
        proof {
            lemma_quotient_bounds(m as int, d as int);
        }
        -q
    }
}

/// A non-negative numerator divided by a positive divisor gives a quotient
/// between zero and the numerator.
pub proof fn lemma_quotient_bounds(n: int, d: int)
    by (nonlinear_arith)
    requires
        n >= 0,
        d > 0,
    ensures
        0 <= n / d <= n,
        d * (n / d) <= n,
        n < d * (n / d) + d,
{
}

} // verus!
