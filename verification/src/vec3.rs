//! Three-component fixed-point vectors, used as points, directions and
//! colours.  Every operation mirrors an exact spec-level counterpart over
//! the view `(int, int, int)`.

use vstd::prelude::*;
use vstd::arithmetic::div_mod::*;
use crate::fixed::{
    SCALE, abs_int, div_tz, fx_div, fx_div_spec, fx_fits, fx_mul, fx_mul_spec, fx_sqrt,
    fx_sqrt_spec,
};
use crate::rng::random_fraction;

verus! {

#[derive(Clone, Copy, PartialEq, Eq, Structural, Debug)]
pub struct Vec3f {
    pub x: i64,
    pub y: i64,
    pub z: i64,
}

pub type Point3f = Vec3f;

pub type Colour = Vec3f;

impl View for Vec3f {
    type V = (int, int, int);

    open spec fn view(&self) -> (int, int, int) {
        (self.x as int, self.y as int, self.z as int)
    }
}

/// Cap for nearly-unit vectors: 2.0 in fixed point.  Normalization clamps
/// into this range, so rounding noise can never leave a "unit" vector
/// unbounded.
pub const UNIT_BOUND: i64 = 131072;

/// Largest magnitude a scene coordinate (sphere center, radius, camera
/// parameter) may have: 256 whole units.
pub const WORLD_BOUND: i64 = 16777216;

/// Largest magnitude a ray origin may have.
pub const ORIGIN_BOUND: i64 = 67108864;

/// Largest magnitude a ray direction component may have.
pub const DIR_BOUND: i64 = 134217728;

/// Components within `1/SCALE` of zero, the resolution of the
/// representation.
pub const NEAR_ZERO: i64 = 1;

pub open spec fn v_bounded(a: (int, int, int), m: int) -> bool {
    abs_int(a.0) <= m && abs_int(a.1) <= m && abs_int(a.2) <= m
}

/// All components within the representation's resolution of zero.
pub open spec fn v_nearly_zero(a: (int, int, int)) -> bool {
    abs_int(a.0) <= NEAR_ZERO && abs_int(a.1) <= NEAR_ZERO && abs_int(a.2) <= NEAR_ZERO
}

/// A colour whose channels lie in `[0, 1]`.
pub open spec fn colour_01(c: (int, int, int)) -> bool {
    0 <= c.0 <= SCALE && 0 <= c.1 <= SCALE && 0 <= c.2 <= SCALE
}

pub open spec fn v_add(a: (int, int, int), b: (int, int, int)) -> (int, int, int) {
    (a.0 + b.0, a.1 + b.1, a.2 + b.2)
}

pub open spec fn v_sub(a: (int, int, int), b: (int, int, int)) -> (int, int, int) {
    (a.0 - b.0, a.1 - b.1, a.2 - b.2)
}

pub open spec fn v_neg(a: (int, int, int)) -> (int, int, int) {
    (-a.0, -a.1, -a.2)
}

pub open spec fn v_scale(a: (int, int, int), s: int) -> (int, int, int) {
    (fx_mul_spec(a.0, s), fx_mul_spec(a.1, s), fx_mul_spec(a.2, s))
}

pub open spec fn v_mul(a: (int, int, int), b: (int, int, int)) -> (int, int, int) {
    (fx_mul_spec(a.0, b.0), fx_mul_spec(a.1, b.1), fx_mul_spec(a.2, b.2))
}

pub open spec fn v_div(a: (int, int, int), s: int) -> (int, int, int) {
    (fx_div_spec(a.0, s), fx_div_spec(a.1, s), fx_div_spec(a.2, s))
}

pub open spec fn v_dot(a: (int, int, int), b: (int, int, int)) -> int {
    div_tz(a.0 * b.0 + a.1 * b.1 + a.2 * b.2, SCALE as int)
}

pub open spec fn v_cross(a: (int, int, int), b: (int, int, int)) -> (int, int, int) {
    (
        fx_mul_spec(a.1, b.2) - fx_mul_spec(a.2, b.1),
        fx_mul_spec(a.2, b.0) - fx_mul_spec(a.0, b.2),
        fx_mul_spec(a.0, b.1) - fx_mul_spec(a.1, b.0),
    )
}

/// `min <= x <= max` clamped into the range (used by normalization).
pub open spec fn clamp_int(x: int, lo: int, hi: int) -> int {
    if x > hi { hi } else if x < lo { lo } else { x }
}

/// Normalization: divide by the fixed-point length, mapping the zero
/// vector to zero and clamping each component into `[-2, 2]` so that
/// rounding noise stays bounded.
pub open spec fn v_normalized(a: (int, int, int)) -> (int, int, int) {
    let len = fx_sqrt_spec(v_dot(a, a));
    if len == 0 {
        (0, 0, 0)
    } else {
        (
            clamp_int(fx_div_spec(a.0, len), -(UNIT_BOUND as int), UNIT_BOUND as int),
            clamp_int(fx_div_spec(a.1, len), -(UNIT_BOUND as int), UNIT_BOUND as int),
            clamp_int(fx_div_spec(a.2, len), -(UNIT_BOUND as int), UNIT_BOUND as int),
        )
    }
}

/// Mirror reflection about a surface normal: `d - 2 (d . n) n`.
pub open spec fn v_reflect(d: (int, int, int), n: (int, int, int)) -> (int, int, int) {
    v_sub(d, v_scale(n, 2 * v_dot(d, n)))
}

/// Snell refraction of a (nearly) unit direction `uv` at a surface with
/// normal `n` and refraction ratio `ratio`.
pub open spec fn v_refract(uv: (int, int, int), n: (int, int, int), ratio: int) -> (int, int, int) {
    let cos_theta = if -v_dot(uv, n) > SCALE as int { SCALE as int } else { -v_dot(uv, n) };
    let perp = v_scale(v_add(uv, v_scale(n, cos_theta)), ratio);
    let par = v_scale(n, -fx_sqrt_spec(abs_int(SCALE - v_dot(perp, perp))));
    v_add(perp, par)
}

/// Scaling by one is the identity: `fx_mul_spec(x, SCALE) == x`.
pub proof fn lemma_fx_mul_one(x: int)
    ensures
        fx_mul_spec(x, SCALE as int) == x,
        fx_mul_spec(SCALE as int, x) == x,
{
    assert(abs_int(x * SCALE) == abs_int(x) * (SCALE as int));
    lemma_div_multiples_vanish(abs_int(x), SCALE as int);
    assert(x * SCALE == SCALE * x) by (nonlinear_arith);
}

/// Refraction with ratio one of a direction exactly opposite an exact
/// unit normal bends nothing: the outgoing direction is the incoming
/// one.
pub proof fn lemma_refract_head_on(n: (int, int, int))
    requires
        v_dot(n, n) == SCALE as int,
    ensures
        v_refract(v_neg(n), n, SCALE as int) == v_neg(n),
{
    let uv = v_neg(n);
    assert(v_dot(uv, n) == -(SCALE as int)) by {
        assert((-n.0) * n.0 + (-n.1) * n.1 + (-n.2) * n.2 == -(n.0 * n.0 + n.1 * n.1 + n.2 * n.2))
            by (nonlinear_arith);
    }
    lemma_fx_mul_one(n.0);
    lemma_fx_mul_one(n.1);
    lemma_fx_mul_one(n.2);
    assert(v_scale(n, SCALE as int) == n);
    let cos_theta: int = SCALE as int;
    assert(v_add(uv, v_scale(n, cos_theta)) == (0int, 0int, 0int));
    lemma_fx_mul_one(0);
    assert(v_scale((0int, 0int, 0int), SCALE as int) == (0int, 0int, 0int));
    let perp = v_scale(v_add(uv, v_scale(n, cos_theta)), SCALE as int);
    assert(perp == (0int, 0int, 0int));
    assert(v_dot(perp, perp) == 0);
    assert(fx_sqrt_spec(SCALE as int) == SCALE as int) by {
        crate::fixed::lemma_sqrt_tz((SCALE as int) * (SCALE as int));
        assert(crate::fixed::is_isqrt((SCALE as int) * (SCALE as int), SCALE as int));
        crate::fixed::lemma_isqrt_unique(
            (SCALE as int) * (SCALE as int),
            fx_sqrt_spec(SCALE as int),
            SCALE as int,
        );
    }
    assert(fx_mul_spec(n.0, -(SCALE as int)) == -n.0) by {
        assert(n.0 * -(SCALE as int) == (-n.0) * (SCALE as int)) by (nonlinear_arith);
        lemma_fx_mul_one(-n.0);
    }
    assert(fx_mul_spec(n.1, -(SCALE as int)) == -n.1) by {
        assert(n.1 * -(SCALE as int) == (-n.1) * (SCALE as int)) by (nonlinear_arith);
        lemma_fx_mul_one(-n.1);
    }
    assert(fx_mul_spec(n.2, -(SCALE as int)) == -n.2) by {
        assert(n.2 * -(SCALE as int) == (-n.2) * (SCALE as int)) by (nonlinear_arith);
        lemma_fx_mul_one(-n.2);
    }
}

/// The defining bounds of truncating division by a positive divisor:
/// the quotient's magnitude times the divisor reaches at most the
/// dividend's magnitude, and one more divisor step passes it.
pub proof fn lemma_div_tz_char(p: int, q: int)
    requires
        q > 0,
    ensures
        abs_int(div_tz(p, q)) * q <= abs_int(p),
        abs_int(p) < (abs_int(div_tz(p, q)) + 1) * q,
{
    lemma_fundamental_div_mod(abs_int(p), q);
    lemma_mod_division_less_than_divisor(abs_int(p), q);
    lemma_div_pos_is_pos(abs_int(p), q);
    assert(abs_int(div_tz(p, q)) == abs_int(p) / q);
    assert(q * (abs_int(p) / q) == (abs_int(p) / q) * q) by (nonlinear_arith);
    assert((abs_int(p) / q + 1) * q == (abs_int(p) / q) * q + q) by (nonlinear_arith);
}

/// Normalizing a vector of length at least one half gives a nearly-unit
/// result: every component within two raw units of the unit range, and
/// the squared length within a few raw units of one.
#[verifier::rlimit(100)]
pub proof fn lemma_normalized_near_unit(a: (int, int, int))
    requires
        v_dot(a, a) >= 16384,
    ensures
        v_bounded(v_normalized(a), SCALE as int + 2),
        SCALE - 7 <= v_dot(v_normalized(a), v_normalized(a)) <= SCALE + 8,
{
    let sc = SCALE as int;
    let ls = v_dot(a, a);
    let bsum = a.0 * a.0 + a.1 * a.1 + a.2 * a.2;
    assert(a.0 * a.0 >= 0 && a.1 * a.1 >= 0 && a.2 * a.2 >= 0) by (nonlinear_arith);
    assert(ls == bsum / sc);
    lemma_fundamental_div_mod(bsum, sc);
    lemma_mod_division_less_than_divisor(bsum, sc);
    assert(ls * sc <= bsum < ls * sc + sc) by (nonlinear_arith)
        requires
            bsum == sc * (bsum / sc) + bsum % sc,
            0 <= bsum % sc < sc,
            ls == bsum / sc,
            sc == 65536,
    ;

    let len = fx_sqrt_spec(ls);
    crate::fixed::lemma_sqrt_tz(ls * sc);
    assert(len >= 32768) by (nonlinear_arith)
        requires
            len >= 0,
            ls * sc < (len + 1) * (len + 1),
            ls >= 16384,
            sc == 65536,
    ;

    // each pre-clamp component is within two raw units of the unit range
    let q0 = fx_div_spec(a.0, len);
    let q1 = fx_div_spec(a.1, len);
    let q2 = fx_div_spec(a.2, len);
    lemma_div_tz_char(a.0 * sc, len);
    lemma_div_tz_char(a.1 * sc, len);
    lemma_div_tz_char(a.2 * sc, len);
    assert(abs_int(a.0 * sc) == abs_int(a.0) * sc && abs_int(a.1 * sc) == abs_int(a.1) * sc
        && abs_int(a.2 * sc) == abs_int(a.2) * sc) by (nonlinear_arith)
        requires
            sc == 65536,
    ;
    assert(abs_int(a.0) <= len + 1 && abs_int(a.1) <= len + 1 && abs_int(a.2) <= len + 1)
        by (nonlinear_arith)
        requires
            a.0 * a.0 <= bsum,
            a.1 * a.1 <= bsum,
            a.2 * a.2 <= bsum,
            bsum < ls * sc + sc,
            ls * sc < (len + 1) * (len + 1),
            len >= 32768,
            sc == 65536,
    ;
    assert(abs_int(q0) <= sc + 2 && abs_int(q1) <= sc + 2 && abs_int(q2) <= sc + 2)
        by (nonlinear_arith)
        requires
            abs_int(q0) * len <= abs_int(a.0) * sc,
            abs_int(q1) * len <= abs_int(a.1) * sc,
            abs_int(q2) * len <= abs_int(a.2) * sc,
            abs_int(a.0) <= len + 1,
            abs_int(a.1) <= len + 1,
            abs_int(a.2) <= len + 1,
            len >= 32768,
            sc == 65536,
    ;
    let r = v_normalized(a);
    assert(r == (q0, q1, q2));

    // the squared length is within a few raw units of one
    let asum = q0 * q0 + q1 * q1 + q2 * q2;
    assert(q0 * q0 >= 0 && q1 * q1 >= 0 && q2 * q2 >= 0) by (nonlinear_arith);
    assert(q0 * q0 * (len * len) <= (a.0 * a.0) * (sc * sc)) by (nonlinear_arith)
        requires
            abs_int(q0) * len <= abs_int(a.0) * sc,
            len > 0,
            sc == 65536,
    ;
    assert(q1 * q1 * (len * len) <= (a.1 * a.1) * (sc * sc)) by (nonlinear_arith)
        requires
            abs_int(q1) * len <= abs_int(a.1) * sc,
            len > 0,
            sc == 65536,
    ;
    assert(q2 * q2 * (len * len) <= (a.2 * a.2) * (sc * sc)) by (nonlinear_arith)
        requires
            abs_int(q2) * len <= abs_int(a.2) * sc,
            len > 0,
            sc == 65536,
    ;
    assert(asum * (len * len) <= bsum * (sc * sc)) by (nonlinear_arith)
        requires
            asum == q0 * q0 + q1 * q1 + q2 * q2,
            bsum == a.0 * a.0 + a.1 * a.1 + a.2 * a.2,
            q0 * q0 * (len * len) <= (a.0 * a.0) * (sc * sc),
            q1 * q1 * (len * len) <= (a.1 * a.1) * (sc * sc),
            q2 * q2 * (len * len) <= (a.2 * a.2) * (sc * sc),
    ;
    assert(asum <= sc * sc + 8 * sc) by (nonlinear_arith)
        requires
            asum * (len * len) <= bsum * (sc * sc),
            bsum < ls * sc + sc,
            ls * sc < (len + 1) * (len + 1),
            len >= 32768,
            sc == 65536,
    ;
    assert((a.0 * a.0) * (sc * sc) <= (q0 * q0 + 2 * abs_int(q0) + 1) * (len * len))
        by (nonlinear_arith)
        requires
            abs_int(a.0) * sc < (abs_int(q0) + 1) * len,
            len > 0,
            sc == 65536,
    ;
    assert((a.1 * a.1) * (sc * sc) <= (q1 * q1 + 2 * abs_int(q1) + 1) * (len * len))
        by (nonlinear_arith)
        requires
            abs_int(a.1) * sc < (abs_int(q1) + 1) * len,
            len > 0,
            sc == 65536,
    ;
    assert((a.2 * a.2) * (sc * sc) <= (q2 * q2 + 2 * abs_int(q2) + 1) * (len * len))
        by (nonlinear_arith)
        requires
            abs_int(a.2) * sc < (abs_int(q2) + 1) * len,
            len > 0,
            sc == 65536,
    ;
    assert(bsum * (sc * sc) <= (len * len) * (asum + 2 * (abs_int(q0) + abs_int(q1) + abs_int(q2))
        + 3)) by (nonlinear_arith)
        requires
            (a.0 * a.0) * (sc * sc) <= (q0 * q0 + 2 * abs_int(q0) + 1) * (len * len),
            (a.1 * a.1) * (sc * sc) <= (q1 * q1 + 2 * abs_int(q1) + 1) * (len * len),
            (a.2 * a.2) * (sc * sc) <= (q2 * q2 + 2 * abs_int(q2) + 1) * (len * len),
            a.0 * a.0 + a.1 * a.1 + a.2 * a.2 == bsum,
            asum == q0 * q0 + q1 * q1 + q2 * q2,
    ;
    assert(asum >= sc * sc - 393231) by (nonlinear_arith)
        requires
            bsum * (sc * sc) <= (len * len) * (asum + 2 * (abs_int(q0) + abs_int(q1) + abs_int(
                q2,
            )) + 3),
            ls * sc <= bsum,
            len * len <= ls * sc,
            abs_int(q0) <= sc + 2,
            abs_int(q1) <= sc + 2,
            abs_int(q2) <= sc + 2,
            len >= 32768,
            sc == 65536,
    ;
    assert(v_dot(r, r) == asum / sc);
    lemma_div_is_ordered(sc * sc - 458752, asum, sc);
    lemma_div_is_ordered(asum, sc * sc + 8 * sc, sc);
    assert((sc * sc - 458752) / sc == sc - 7 && (sc * sc + 8 * sc) / sc == sc + 8)
        by (nonlinear_arith)
        requires
            sc == 65536,
    ;
}

/// A product of bounded factors is bounded by the product of the bounds.
pub proof fn lemma_abs_mul_le(a: int, b: int, ba: int, bb: int)
    requires
        abs_int(a) <= ba,
        abs_int(b) <= bb,
    ensures
        abs_int(a * b) <= ba * bb,
{
    assert(abs_int(a * b) <= ba * bb) by (nonlinear_arith)
        requires
            abs_int(a) <= ba,
            abs_int(b) <= bb,
    ;
}

/// Truncating division shrinks magnitudes: `|p / q| <= |p|` for `q != 0`,
/// and dividing by `SCALE` obeys the expected bound.
pub proof fn lemma_div_tz_le(p: int, q: int, bp: int)
    requires
        q != 0,
        abs_int(p) <= bp,
    ensures
        abs_int(div_tz(p, q)) <= bp / abs_int(q),
        abs_int(div_tz(p, q)) <= bp,
{
    lemma_div_pos_is_pos(abs_int(p), abs_int(q));
    lemma_div_is_ordered(abs_int(p), bp, abs_int(q));
    lemma_div_is_ordered_by_denominator(bp, 1, abs_int(q));
    lemma_div_basics(bp);
}

/// Bound for a fixed-point product.
pub proof fn lemma_fx_mul_bound(a: int, b: int, ba: int, bb: int)
    requires
        abs_int(a) <= ba,
        abs_int(b) <= bb,
    ensures
        abs_int(fx_mul_spec(a, b)) <= (ba * bb) / (SCALE as int),
        abs_int(fx_mul_spec(a, b)) <= ba * bb,
{
    lemma_abs_mul_le(a, b, ba, bb);
    lemma_div_tz_le(a * b, SCALE as int, ba * bb);
}

/// Bound for a fixed-point quotient with a nonzero divisor.
pub proof fn lemma_fx_div_bound(a: int, b: int, ba: int)
    requires
        b != 0,
        abs_int(a) <= ba,
        ba >= 0,
    ensures
        abs_int(fx_div_spec(a, b)) <= ba * (SCALE as int),
{
    lemma_abs_mul_le(a, SCALE as int, ba, SCALE as int);
    lemma_div_tz_le(a * (SCALE as int), b, ba * (SCALE as int));
}

/// Bound for a fixed-point quotient whose divisor is bounded away from
/// zero.
pub proof fn lemma_fx_div_denom(a: int, b: int, ba: int, lb: int)
    requires
        abs_int(a) <= ba,
        1 <= lb <= abs_int(b),
        0 <= ba,
    ensures
        abs_int(fx_div_spec(a, b)) <= (ba * (SCALE as int)) / lb,
{
    lemma_abs_mul_le(a, SCALE as int, ba, SCALE as int);
    lemma_div_pos_is_pos(abs_int(a * (SCALE as int)), abs_int(b));
    lemma_div_is_ordered(abs_int(a * (SCALE as int)), ba * (SCALE as int), abs_int(b));
    lemma_div_is_ordered_by_denominator(ba * (SCALE as int), lb, abs_int(b));
}

/// Bound for a dot product of bounded vectors.
pub proof fn lemma_v_dot_bound(a: (int, int, int), b: (int, int, int), ba: int, bb: int)
    requires
        v_bounded(a, ba),
        v_bounded(b, bb),
    ensures
        abs_int(v_dot(a, b)) <= (3 * ba * bb) / (SCALE as int),
        abs_int(v_dot(a, b)) <= 3 * ba * bb,
{
    lemma_abs_mul_le(a.0, b.0, ba, bb);
    lemma_abs_mul_le(a.1, b.1, ba, bb);
    lemma_abs_mul_le(a.2, b.2, ba, bb);
    assert(3 * ba * bb == (ba * bb) + (ba * bb) + (ba * bb)) by (nonlinear_arith);
    lemma_div_tz_le(a.0 * b.0 + a.1 * b.1 + a.2 * b.2, SCALE as int, 3 * ba * bb);
}

/// Scaling by a factor in `[0, 1]` keeps a nonnegative value between zero
/// and itself.
pub proof fn lemma_fx_mul_unit(c: int, a: int)
    requires
        0 <= c <= SCALE,
        0 <= a,
    ensures
        0 <= fx_mul_spec(c, a) <= a,
{
    assert(0 <= c * a <= (SCALE as int) * a) by (nonlinear_arith)
        requires
            0 <= c <= SCALE,
            0 <= a,
    ;
    lemma_div_pos_is_pos(c * a, SCALE as int);
    lemma_div_is_ordered(c * a, (SCALE as int) * a, SCALE as int);
    lemma_div_multiples_vanish(a, SCALE as int);
}

/// A fixed-point product grows with the magnitude of its second factor.
pub proof fn lemma_fx_mul_mono(a: int, x: int, w: int)
    requires
        abs_int(x) <= w,
    ensures
        abs_int(fx_mul_spec(a, x)) <= abs_int(fx_mul_spec(a, w)),
{
    assert(abs_int(a * x) <= abs_int(a * w)) by (nonlinear_arith)
        requires
            abs_int(x) <= w,
    ;
    assert(abs_int(fx_mul_spec(a, x)) == abs_int(a * x) / (SCALE as int)
        && abs_int(fx_mul_spec(a, w)) == abs_int(a * w) / (SCALE as int)) by {
        lemma_div_pos_is_pos(abs_int(a * x), SCALE as int);
        lemma_div_pos_is_pos(abs_int(a * w), SCALE as int);
    }
    lemma_div_is_ordered(abs_int(a * x), abs_int(a * w), SCALE as int);
}

/// The squared length of any vector is nonnegative.
pub proof fn lemma_v_dot_self_nonneg(a: (int, int, int))
    ensures
        v_dot(a, a) >= 0,
{
    assert(a.0 * a.0 >= 0 && a.1 * a.1 >= 0 && a.2 * a.2 >= 0) by (nonlinear_arith);
}

/// Truncating division by `SCALE` for wide intermediates, the primitive
/// under the dot product.
fn div_scale_i128(p: i128) -> (r: i64)
    requires
        abs_int(p as int) < 0x4000_0000_0000_0000_0000_0000_0000_0000,
        fx_fits(div_tz(p as int, SCALE as int)),
    ensures
        r as int == div_tz(p as int, SCALE as int),
{
    let neg: bool = p < 0;
    let m: u128 = if p >= 0 {
        p as u128
    } else {
        (-p) as u128
    };
    let q: u128 = m / 65536;
    proof {
        assert(q == abs_int(p as int) / (SCALE as int));
        lemma_div_pos_is_pos(abs_int(p as int), SCALE as int);
    }
    if neg {
        -(q as i64)
    } else {
        q as i64
    }
}

impl Vec3f {
    pub fn new(x: i64, y: i64, z: i64) -> (r: Vec3f)
        ensures
            r@ == (x as int, y as int, z as int),
    {
        Vec3f { x, y, z }
    }

    pub fn zero() -> (r: Vec3f)
        ensures
            r@ == (0int, 0int, 0int),
    {
        Vec3f { x: 0, y: 0, z: 0 }
    }

    pub fn x(&self) -> (r: i64)
        ensures
            r == self.x,
    {
        self.x
    }

    pub fn y(&self) -> (r: i64)
        ensures
            r == self.y,
    {
        self.y
    }

    pub fn z(&self) -> (r: i64)
        ensures
            r == self.z,
    {
        self.z
    }

    pub fn add(&self, o: &Vec3f) -> (r: Vec3f)
        requires
            fx_fits(self.x + o.x),
            fx_fits(self.y + o.y),
            fx_fits(self.z + o.z),
        ensures
            r@ == v_add(self@, o@),
    {
        Vec3f { x: self.x + o.x, y: self.y + o.y, z: self.z + o.z }
    }

    pub fn sub(&self, o: &Vec3f) -> (r: Vec3f)
        requires
            fx_fits(self.x - o.x),
            fx_fits(self.y - o.y),
            fx_fits(self.z - o.z),
        ensures
            r@ == v_sub(self@, o@),
    {
        Vec3f { x: self.x - o.x, y: self.y - o.y, z: self.z - o.z }
    }

    pub fn neg(&self) -> (r: Vec3f)
        requires
            fx_fits(self.x as int),
            fx_fits(self.y as int),
            fx_fits(self.z as int),
        ensures
            r@ == v_neg(self@),
    {
        Vec3f { x: -self.x, y: -self.y, z: -self.z }
    }

    /// Multiplication by a fixed-point scalar.
    pub fn scale(&self, s: i64) -> (r: Vec3f)
        requires
            fx_fits(fx_mul_spec(self.x as int, s as int)),
            fx_fits(fx_mul_spec(self.y as int, s as int)),
            fx_fits(fx_mul_spec(self.z as int, s as int)),
        ensures
            r@ == v_scale(self@, s as int),
    {
        Vec3f { x: fx_mul(self.x, s), y: fx_mul(self.y, s), z: fx_mul(self.z, s) }
    }

    /// Componentwise (Hadamard) product, the colour-attenuation operation.
    pub fn mul(&self, o: &Vec3f) -> (r: Vec3f)
        requires
            fx_fits(fx_mul_spec(self.x as int, o.x as int)),
            fx_fits(fx_mul_spec(self.y as int, o.y as int)),
            fx_fits(fx_mul_spec(self.z as int, o.z as int)),
        ensures
            r@ == v_mul(self@, o@),
    {
        Vec3f { x: fx_mul(self.x, o.x), y: fx_mul(self.y, o.y), z: fx_mul(self.z, o.z) }
    }

    /// Division by a nonzero fixed-point scalar.
    pub fn div(&self, s: i64) -> (r: Vec3f)
        requires
            s != 0,
            fx_fits(fx_div_spec(self.x as int, s as int)),
            fx_fits(fx_div_spec(self.y as int, s as int)),
            fx_fits(fx_div_spec(self.z as int, s as int)),
        ensures
            r@ == v_div(self@, s as int),
    {
        Vec3f { x: fx_div(self.x, s), y: fx_div(self.y, s), z: fx_div(self.z, s) }
    }

    pub fn dot(a: &Vec3f, b: &Vec3f) -> (r: i64)
        requires
            v_bounded(a@, 0x100_0000_0000),
            v_bounded(b@, 0x100_0000_0000),
            fx_fits(v_dot(a@, b@)),
        ensures
            r as int == v_dot(a@, b@),
    {
        proof {
            lemma_abs_mul_le(a.x as int, b.x as int, 0x100_0000_0000, 0x100_0000_0000);
            lemma_abs_mul_le(a.y as int, b.y as int, 0x100_0000_0000, 0x100_0000_0000);
            lemma_abs_mul_le(a.z as int, b.z as int, 0x100_0000_0000, 0x100_0000_0000);
        }
        let p: i128 = (a.x as i128) * (b.x as i128) + (a.y as i128) * (b.y as i128) + (a.z as i128)
            * (b.z as i128);
        div_scale_i128(p)
    }

    pub fn cross(a: &Vec3f, b: &Vec3f) -> (r: Vec3f)
        requires
            v_bounded(a@, 0x10_0000_0000),
            v_bounded(b@, 0x10_0000_0000),
        ensures
            r@ == v_cross(a@, b@),
    {
        proof {
            lemma_fx_mul_bound(a.y as int, b.z as int, 0x10_0000_0000, 0x10_0000_0000);
            lemma_fx_mul_bound(a.z as int, b.y as int, 0x10_0000_0000, 0x10_0000_0000);
            lemma_fx_mul_bound(a.z as int, b.x as int, 0x10_0000_0000, 0x10_0000_0000);
            lemma_fx_mul_bound(a.x as int, b.z as int, 0x10_0000_0000, 0x10_0000_0000);
            lemma_fx_mul_bound(a.x as int, b.y as int, 0x10_0000_0000, 0x10_0000_0000);
            lemma_fx_mul_bound(a.y as int, b.x as int, 0x10_0000_0000, 0x10_0000_0000);
        }
        Vec3f {
            x: fx_mul(a.y, b.z) - fx_mul(a.z, b.y),
            y: fx_mul(a.z, b.x) - fx_mul(a.x, b.z),
            z: fx_mul(a.x, b.y) - fx_mul(a.y, b.x),
        }
    }

    pub fn length_squared(&self) -> (r: i64)
        requires
            v_bounded(self@, 0x100_0000_0000),
            fx_fits(v_dot(self@, self@)),
        ensures
            r as int == v_dot(self@, self@),
            r >= 0,
    {
        proof {
            lemma_v_dot_self_nonneg(self@);
        }
        Vec3f::dot(self, self)
    }

    pub fn length(&self) -> (r: i64)
        requires
            v_bounded(self@, 0x100_0000_0000),
            fx_fits(v_dot(self@, self@)),
        ensures
            r as int == fx_sqrt_spec(v_dot(self@, self@)),
            r >= 0,
    {
        let ls = self.length_squared();
        fx_sqrt(ls)
    }

    /// The vector scaled to (nearly) unit length; zero stays zero and each
    /// component is clamped into `[-2, 2]` against rounding noise.
    pub fn normalized(&self) -> (r: Vec3f)
        requires
            v_bounded(self@, 0x40_0000_0000),
        ensures
            r@ == v_normalized(self@),
            v_bounded(r@, UNIT_BOUND as int),
            v_dot(self@, self@) >= 16384 ==> v_bounded(r@, SCALE as int + 2) && SCALE - 7 <= v_dot(
                r@,
                r@,
            ) <= SCALE + 8,
    {
        proof {
            lemma_v_dot_bound(self@, self@, 0x40_0000_0000, 0x40_0000_0000);
            lemma_v_dot_self_nonneg(self@);
            if v_dot(self@, self@) >= 16384 {
                lemma_normalized_near_unit(self@);
            }
        }
        let ls = self.length_squared();
        let len = fx_sqrt(ls);
        if len == 0 {
            Vec3f { x: 0, y: 0, z: 0 }
        } else {
            proof {
                lemma_fx_div_bound(self.x as int, len as int, 0x40_0000_0000);
                lemma_fx_div_bound(self.y as int, len as int, 0x40_0000_0000);
                lemma_fx_div_bound(self.z as int, len as int, 0x40_0000_0000);
            }
            Vec3f {
                x: clamp_unit(fx_div(self.x, len)),
                y: clamp_unit(fx_div(self.y, len)),
                z: clamp_unit(fx_div(self.z, len)),
            }
        }
    }

    /// Whether every component has magnitude at most `m`.
    pub fn bounded(&self, m: i64) -> (r: bool)
        requires
            m >= 0,
        ensures
            r == v_bounded(self@, m as int),
    {
        -m <= self.x && self.x <= m && -m <= self.y && self.y <= m && -m <= self.z && self.z <= m
    }

    /// All components within the representation's resolution of zero.
    pub fn is_nearly_zero(&self) -> (r: bool)
        ensures
            r == v_nearly_zero(self@),
    {
        -NEAR_ZERO <= self.x && self.x <= NEAR_ZERO && -NEAR_ZERO <= self.y && self.y <= NEAR_ZERO
            && -NEAR_ZERO <= self.z && self.z <= NEAR_ZERO
    }

    /// A vector with each component drawn uniformly from `[min, max]`.
    pub fn random(min: i64, max: i64) -> (r: Vec3f)
        requires
            min <= max,
            abs_int(min as int) <= 0x100_0000_0000,
            abs_int(max as int) <= 0x100_0000_0000,
        ensures
            min <= r.x <= max,
            min <= r.y <= max,
            min <= r.z <= max,
            min < max ==> r.x < max && r.y < max && r.z < max,
    {
        let range = max - min;
        Vec3f {
            x: min + random_scaled(range),
            y: min + random_scaled(range),
            z: min + random_scaled(range),
        }
    }

    /// A random vector of (nearly) unit length: rejection sampling over the
    /// cube `[-1, 1]^3`, keeping draws whose squared length lies in
    /// `(0, 1]`, then normalizing.  The number of draws is capped; if every
    /// draw is rejected the positive x axis is returned.
    pub fn random_orientation() -> (r: Vec3f)
        ensures
            v_bounded(r@, UNIT_BOUND as int),
            v_bounded(r@, SCALE as int + 2),
            SCALE - 7 <= v_dot(r@, r@) <= SCALE + 8,
            exists|v: (int, int, int)|
                {
                    &&& v_bounded(v, SCALE as int)
                    &&& 16384 <= v_dot(v, v) <= SCALE as int
                    &&& r@ == #[trigger] v_normalized(v)
                },
    {
        let mut tries: usize = 0;
        while tries < 64
            invariant
                tries <= 64,
            decreases 64 - tries,
        {
            let v = Vec3f::random(-SCALE, SCALE);
            proof {
                lemma_v_dot_bound(v@, v@, SCALE as int, SCALE as int);
            }
            let ls = v.length_squared();
            if 16384 <= ls && ls <= SCALE {
                let unit = v.normalized();
                proof {
                    assert(unit@ == v_normalized(v@));
                }
                return unit;
            }
            tries = tries + 1;
        }
        let fallback = Vec3f { x: SCALE, y: 0, z: 0 };
        proof {
            lemma_fx_mul_one(SCALE as int);
            assert(v_dot(fallback@, fallback@) == SCALE as int);
            assert(fx_sqrt_spec(SCALE as int) == SCALE as int) by {
                crate::fixed::lemma_sqrt_tz((SCALE as int) * (SCALE as int));
                assert(crate::fixed::is_isqrt((SCALE as int) * (SCALE as int), SCALE as int));
                crate::fixed::lemma_isqrt_unique(
                    (SCALE as int) * (SCALE as int),
                    fx_sqrt_spec(SCALE as int),
                    SCALE as int,
                );
            }
            assert(fx_div_spec(SCALE as int, SCALE as int) == SCALE as int);
            assert(fx_div_spec(0, SCALE as int) == 0);
            assert(fallback@ == v_normalized(fallback@));
            lemma_normalized_near_unit(fallback@);
        }
        fallback
    }

    /// Mirror reflection about `normal`.
    pub fn reflect(&self, normal: &Vec3f) -> (r: Vec3f)
        requires
            v_bounded(self@, DIR_BOUND as int),
            v_bounded(normal@, UNIT_BOUND as int),
        ensures
            r@ == v_reflect(self@, normal@),
            v_bounded(r@, 0x40_0000_0000),
    {
        proof {
            lemma_v_dot_bound(self@, normal@, DIR_BOUND as int, UNIT_BOUND as int);
            lemma_fx_mul_bound(
                normal.x as int,
                2 * v_dot(self@, normal@),
                UNIT_BOUND as int,
                2 * ((3 * (DIR_BOUND as int) * (UNIT_BOUND as int)) / (SCALE as int)),
            );
            lemma_fx_mul_bound(
                normal.y as int,
                2 * v_dot(self@, normal@),
                UNIT_BOUND as int,
                2 * ((3 * (DIR_BOUND as int) * (UNIT_BOUND as int)) / (SCALE as int)),
            );
            lemma_fx_mul_bound(
                normal.z as int,
                2 * v_dot(self@, normal@),
                UNIT_BOUND as int,
                2 * ((3 * (DIR_BOUND as int) * (UNIT_BOUND as int)) / (SCALE as int)),
            );
        }
        let d = Vec3f::dot(self, normal);
        let s = 2 * d;
        let scaled = normal.scale(s);
        self.sub(&scaled)
    }

    /// Snell refraction of a (nearly) unit direction about `normal` with
    /// the given refraction ratio.
    pub fn refract(&self, normal: &Vec3f, refractive_ratio: i64) -> (r: Vec3f)
        requires
            v_bounded(self@, UNIT_BOUND as int),
            v_bounded(normal@, UNIT_BOUND as int),
            0 < refractive_ratio <= 0x10_0000,
        ensures
            r@ == v_refract(self@, normal@, refractive_ratio as int),
            v_bounded(r@, DIR_BOUND as int),
    {
        proof {
            lemma_v_dot_bound(self@, normal@, UNIT_BOUND as int, UNIT_BOUND as int);
        }
        let d = Vec3f::dot(self, normal);
        let cos_theta: i64 = if -d > SCALE {
            SCALE
        } else {
            -d
        };
        proof {
            let ct = (cos_theta as int);
            assert(abs_int(ct) <= 786432);
            lemma_fx_mul_bound(normal.x as int, ct, UNIT_BOUND as int, 786432);
            lemma_fx_mul_bound(normal.y as int, ct, UNIT_BOUND as int, 786432);
            lemma_fx_mul_bound(normal.z as int, ct, UNIT_BOUND as int, 786432);
        }
        let n_cos = normal.scale(cos_theta);
        let summed = self.add(&n_cos);
        proof {
            assert(v_bounded(summed@, 1703936));
            lemma_fx_mul_bound(summed.x as int, refractive_ratio as int, 1703936, 0x10_0000);
            lemma_fx_mul_bound(summed.y as int, refractive_ratio as int, 1703936, 0x10_0000);
            lemma_fx_mul_bound(summed.z as int, refractive_ratio as int, 1703936, 0x10_0000);
        }
        let perp = summed.scale(refractive_ratio);
        proof {
            lemma_v_dot_bound(perp@, perp@, 27262976, 27262976);
        }
        let perp_ls = perp.length_squared();
        let rest: i64 = if SCALE >= perp_ls {
            SCALE - perp_ls
        } else {
            -(SCALE - perp_ls)
        };
        proof {
            assert(rest as int <= 34090000000);
        }
        let sq = fx_sqrt(rest);
        proof {
            assert((sq as int) * (sq as int) <= (rest as int) * SCALE);
            assert(sq <= 50000000) by (nonlinear_arith)
                requires
                    sq >= 0,
                    (sq as int) * (sq as int) <= (rest as int) * SCALE,
                    0 <= rest as int <= 34090000000,
            ;
            lemma_fx_mul_bound(normal.x as int, -(sq as int), UNIT_BOUND as int, 50000000);
            lemma_fx_mul_bound(normal.y as int, -(sq as int), UNIT_BOUND as int, 50000000);
            lemma_fx_mul_bound(normal.z as int, -(sq as int), UNIT_BOUND as int, 50000000);
        }
        let par = normal.scale(-sq);
        perp.add(&par)
    }
}

/// The decimal digits of a nonnegative integer, most significant first.
pub open spec fn dec_digits(n: int) -> Seq<char>
    decreases n,
{
    if n <= 9 {
        seq![digit_char(n)]
    } else {
        dec_digits(n / 10).push(digit_char(n % 10))
    }
}

pub open spec fn digit_char(d: int) -> char {
    if d == 0 {
        '0'
    } else if d == 1 {
        '1'
    } else if d == 2 {
        '2'
    } else if d == 3 {
        '3'
    } else if d == 4 {
        '4'
    } else if d == 5 {
        '5'
    } else if d == 6 {
        '6'
    } else if d == 7 {
        '7'
    } else if d == 8 {
        '8'
    } else {
        '9'
    }
}

/// Decimal text of an integer, with a leading minus sign if negative.
pub open spec fn dec_int(n: int) -> Seq<char> {
    if n < 0 {
        seq!['-'] + dec_digits(-n)
    } else {
        dec_digits(n)
    }
}

/// Three integers in decimal, separated by single spaces.
pub open spec fn triple_text(a: int, b: int, c: int) -> Seq<char> {
    dec_int(a) + seq![' '] + dec_int(b) + seq![' '] + dec_int(c)
}

/// A colour channel mapped to its display integer: scaled by 255 and
/// truncated, with no rounding and no upper clamp.
pub open spec fn channel_byte(v: int) -> int {
    div_tz(v * 255, SCALE as int)
}

/// Relies on the `format!` macro of std: integers render in decimal with
/// a leading minus sign if negative, here separated by single spaces.
#[verifier::external_body]
fn format_triple(a: i64, b: i64, c: i64) -> (s: String)
    ensures
        s@ == triple_text(a as int, b as int, c as int),
{
    format!("{} {} {}", a, b, c)
}

/// Scale a channel by 255 and truncate to its display integer.
fn scale_channel(v: i64) -> (r: i64)
    requires
        abs_int(v as int) <= 0x100_0000_0000,
    ensures
        r as int == channel_byte(v as int),
{
    proof {
        lemma_abs_mul_le(v as int, 255, 0x100_0000_0000, 255);
        lemma_div_tz_le((v as int) * 255, SCALE as int, 0x100_0000_0000int * 255);
    }
    div_scale_i128((v as i128) * 255)
}

impl Vec3f {
    /// The colour as one line of pixel text: each channel scaled by 255,
    /// truncated, and rendered in decimal.
    pub fn to_colour_string(&self) -> (s: String)
        requires
            v_bounded(self@, 0x100_0000_0000),
        ensures
            s@ == triple_text(
                channel_byte(self.x as int),
                channel_byte(self.y as int),
                channel_byte(self.z as int),
            ),
    {
        let r = scale_channel(self.x);
        let g = scale_channel(self.y);
        let b = scale_channel(self.z);
        format_triple(r, g, b)
    }
}

/// Clamp a scalar into the nearly-unit range `[-2, 2]`.
fn clamp_unit(c: i64) -> (r: i64)
    ensures
        r as int == clamp_int(c as int, -(UNIT_BOUND as int), UNIT_BOUND as int),
        abs_int(r as int) <= UNIT_BOUND as int,
{
    if c > UNIT_BOUND {
        UNIT_BOUND
    } else if c < -UNIT_BOUND {
        -UNIT_BOUND
    } else {
        c
    }
}

/// A uniform fixed-point draw from `[0, range]` (in fact `< range` unless
/// `range` is zero): `range` scaled by a random fraction.
fn random_scaled(range: i64) -> (r: i64)
    requires
        0 <= range <= 0x200_0000_0000,
    ensures
        0 <= r <= range,
        range > 0 ==> r < range,
{
    let f = random_fraction();
    proof {
        lemma_abs_mul_le(f as int, range as int, SCALE - 1, range as int);
        lemma_div_tz_le((f as int) * (range as int), SCALE as int, (SCALE - 1) * (range as int));
        assert((f as int) * (range as int) >= 0) by (nonlinear_arith)
            requires
                f >= 0,
                range >= 0,
        ;
        lemma_div_pos_is_pos((f as int) * (range as int), SCALE as int);
        assert((f as int) * (range as int) <= (SCALE as int) * (range as int)) by (nonlinear_arith)
            requires
                0 <= f <= SCALE,
                range >= 0,
        ;
        lemma_div_is_ordered((f as int) * (range as int), (SCALE as int) * (range as int), SCALE as int);
        lemma_div_multiples_vanish(range as int, SCALE as int);
        if range > 0 {
            assert((f as int) * (range as int) < (range as int) * (SCALE as int))
                by (nonlinear_arith)
                requires
                    0 <= f < SCALE,
                    range > 0,
            ;
            lemma_multiply_divide_lt((f as int) * (range as int), range as int, SCALE as int);
        }
    }
    fx_mul(f, range)
}

} // verus!
