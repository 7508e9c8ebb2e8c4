//! Fixed-point scalar arithmetic.
//!
//! Every scalar quantity of this crate (coordinates, colours, ray
//! parameters) is a signed 64-bit integer counting multiples of
//! `1 / SCALE`.  All rounding is toward zero, and every operation states
//! its exact result over the mathematical integers.

use vstd::prelude::*;
use vstd::arithmetic::div_mod::*;
use vstd::arithmetic::mul::*;

verus! {

/// Raw units per whole unit: the value `SCALE` stands for 1.0.
pub const SCALE: i64 = 65536;

pub open spec fn abs_int(a: int) -> int {
    if a < 0 { -a } else { a }
}

/// Division rounded toward zero, defined for `q != 0`.
pub open spec fn div_tz(p: int, q: int) -> int {
    if (p < 0) != (q < 0) {
        -(abs_int(p) / abs_int(q))
    } else {
        abs_int(p) / abs_int(q)
    }
}

/// Fixed-point product: `(a * b) / SCALE`, rounded toward zero.
pub open spec fn fx_mul_spec(a: int, b: int) -> int {
    div_tz(a * b, SCALE as int)
}

/// Fixed-point quotient: `(a * SCALE) / b`, rounded toward zero.
pub open spec fn fx_div_spec(a: int, b: int) -> int {
    div_tz(a * SCALE, b)
}

/// The value is representable as an `i64` with room for negation.
pub open spec fn fx_fits(a: int) -> bool {
    abs_int(a) <= i64::MAX
}

/// `r` is the integer square root of `n`.
pub open spec fn is_isqrt(n: int, r: int) -> bool {
    0 <= r && r * r <= n && n < (r + 1) * (r + 1)
}

/// Integer square roots exist for every nonnegative argument.
pub proof fn lemma_isqrt_exists(n: int)
    requires
        n >= 0,
    ensures
        exists|r: int| #[trigger] is_isqrt(n, r),
    decreases n,
{
    if n == 0 {
        assert(is_isqrt(0, 0));
    } else {
        lemma_isqrt_exists(n - 1);
        let r = choose|r: int| #[trigger] is_isqrt(n - 1, r);
        if (r + 1) * (r + 1) <= n {
            assert((r + 2) * (r + 2) > n) by (nonlinear_arith)
                requires
                    is_isqrt(n - 1, r),
                    (r + 1) * (r + 1) <= n,
            ;
            assert(is_isqrt(n, r + 1));
        } else {
            assert(is_isqrt(n, r));
        }
    }
}

/// At most one integer square root exists.
pub proof fn lemma_isqrt_unique(n: int, r1: int, r2: int)
    requires
        is_isqrt(n, r1),
        is_isqrt(n, r2),
    ensures
        r1 == r2,
{
    assert(r1 == r2) by (nonlinear_arith)
        requires
            is_isqrt(n, r1),
            is_isqrt(n, r2),
    ;
}

/// The integer square root of `n`, for `n >= 0`.
pub open spec fn sqrt_tz(n: int) -> int {
    choose|r: int| #[trigger] is_isqrt(n, r)
}

pub proof fn lemma_sqrt_tz(n: int)
    requires
        n >= 0,
    ensures
        is_isqrt(n, sqrt_tz(n)),
{
    lemma_isqrt_exists(n);
}

/// The square root of the fixed-point value `x`: since `x` counts
/// `1 / SCALE` units, the result is the integer square root of
/// `x * SCALE`.
pub open spec fn fx_sqrt_spec(x: int) -> int {
    sqrt_tz(x * SCALE)
}

/// Magnitude of an `i64`, widened so that `i64::MIN` is representable.
fn abs_u128(a: i64) -> (r: u128)
    ensures
        r == abs_int(a as int),
{
    if a >= 0 {
        a as u128
    } else {
        (-(a as i128)) as u128
    }
}

/// Fixed-point multiplication with an exact contract.
pub fn fx_mul(a: i64, b: i64) -> (r: i64)
    requires
        fx_fits(fx_mul_spec(a as int, b as int)),
    ensures
        r as int == fx_mul_spec(a as int, b as int),
{
    let neg: bool = (a < 0) != (b < 0);
    let ma: u128 = abs_u128(a);
    let mb: u128 = abs_u128(b);
    proof {
        assert((ma as int) * (mb as int) <= u128::MAX) by (nonlinear_arith)
            requires
                0 <= ma <= 0x8000_0000_0000_0000u128,
                0 <= mb <= 0x8000_0000_0000_0000u128,
        ;
    }
    let m: u128 = ma * mb;
    proof {
        lemma_abs_mul(a as int, b as int);
    }
    let q: u128 = m / (SCALE as u128);
    proof {
        assert(q == abs_int((a as int) * (b as int)) / (SCALE as int));
        lemma_div_tz_abs((a as int) * (b as int), SCALE as int);
        if neg {
            assert(((a as int) * (b as int) < 0) || (a as int) * (b as int) == 0)
                by (nonlinear_arith)
                requires
                    ((a as int) < 0) != ((b as int) < 0),
            ;
        } else {
            assert((a as int) * (b as int) >= 0) by (nonlinear_arith)
                requires
                    !(((a as int) < 0) != ((b as int) < 0)),
            ;
        }
    }
    if neg {
        -(q as i64)
    } else {
        q as i64
    }
}

/// Fixed-point division with an exact contract; `b` must not be zero.
pub fn fx_div(a: i64, b: i64) -> (r: i64)
    requires
        b != 0,
        fx_fits(fx_div_spec(a as int, b as int)),
    ensures
        r as int == fx_div_spec(a as int, b as int),
{
    let neg: bool = (a < 0) != (b < 0);
    let ma: u128 = abs_u128(a);
    proof {
        assert(ma * 65536 <= u128::MAX) by (nonlinear_arith)
            requires
                0 <= ma <= 0x8000_0000_0000_0000u128,
        ;
    }
    let m: u128 = ma * (SCALE as u128);
    proof {
        lemma_abs_mul(a as int, SCALE as int);
    }
    let q: u128 = m / abs_u128(b);
    proof {
        assert(q == abs_int((a as int) * (SCALE as int)) / abs_int(b as int));
        lemma_div_tz_abs((a as int) * (SCALE as int), b as int);
        if (a < 0) != (b < 0) {
            assert(((a as int) * SCALE < 0) != ((b as int) < 0)) by (nonlinear_arith)
                requires
                    b != 0,
                    ((a as int) < 0) != ((b as int) < 0),
            ;
        } else {
            assert(!(((a as int) * SCALE < 0) != ((b as int) < 0))) by (nonlinear_arith)
                requires
                    b != 0,
                    !(((a as int) < 0) != ((b as int) < 0)),
            ;
        }
    }
    if neg {
        -(q as i64)
    } else {
        q as i64
    }
}

/// `|p / q|` is the quotient of the magnitudes.
proof fn lemma_div_tz_abs(p: int, q: int)
    requires
        q != 0,
    ensures
        abs_int(div_tz(p, q)) == abs_int(p) / abs_int(q),
        p >= 0 && q > 0 ==> div_tz(p, q) == abs_int(p) / abs_int(q),
{
    lemma_div_pos_is_pos(abs_int(p), abs_int(q));
}

/// The magnitude of a product is the product of the magnitudes.
proof fn lemma_abs_mul(a: int, b: int)
    ensures
        abs_int(a * b) == abs_int(a) * abs_int(b),
{
    assert(abs_int(a * b) == abs_int(a) * abs_int(b)) by (nonlinear_arith);
}

/// Integer square root of a 128-bit integer, by bisection.
pub fn isqrt_u128(n: u128) -> (r: u128)
    ensures
        is_isqrt(n as int, r as int),
{
    if n == 0 {
        return 0;
    }
    let mut lo: u128 = 0;
    let mut hi: u128 = 1u128 << 64;
    proof {
        assert((1u128 << 64) == 0x1_0000_0000_0000_0000) by (bit_vector);
        assert((hi as int) * (hi as int) > n as int) by (nonlinear_arith)
            requires
                hi == 0x1_0000_0000_0000_0000u128,
        ;
    }
    while lo + 1 < hi
        invariant
            0 <= lo < hi <= 0x1_0000_0000_0000_0000u128,
            (lo as int) * (lo as int) <= n as int,
            (n as int) < (hi as int) * (hi as int),
        decreases hi - lo,
    {
        let mid: u128 = lo + (hi - lo) / 2;
        proof {
            assert(lo < mid < hi);
            assert((mid as int) * (mid as int) < 0x1_0000_0000_0000_0000_0000_0000_0000_0000)
                by (nonlinear_arith)
                requires
                    0 < mid < 0x1_0000_0000_0000_0000u128,
            ;
        }
        let sq: u128 = mid * mid;
        if sq <= n {
            lo = mid;
        } else {
            hi = mid;
        }
    }
    proof {
        assert(is_isqrt(n as int, lo as int));
    }
    lo
}

/// Square root of a nonnegative fixed-point value, rounded down.
pub fn fx_sqrt(x: i64) -> (r: i64)
    requires
        x >= 0,
    ensures
        r as int == fx_sqrt_spec(x as int),
        r >= 0,
        (r as int) * (r as int) <= (x as int) * SCALE,
        (x as int) * SCALE < ((r as int) + 1) * ((r as int) + 1),
{
    proof {
        assert((x as u128) * 65536 <= u128::MAX) by (nonlinear_arith)
            requires
                0 <= (x as u128) <= 0x8000_0000_0000_0000u128,
        ;
    }
    let m: u128 = (x as u128) * (SCALE as u128);
    let q: u128 = isqrt_u128(m);
    proof {
        lemma_sqrt_tz((x as int) * SCALE);
        lemma_isqrt_unique((x as int) * SCALE, q as int, fx_sqrt_spec(x as int));
        assert((q as int) < 0x10000000000) by (nonlinear_arith)
            requires
                is_isqrt(m as int, q as int),
                m as int <= 0x7fffffffffffffffint * 65536,
        ;
    }
    q as i64
}

} // verus!
