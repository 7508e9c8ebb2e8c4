//! Sphere primitives and their ray intersection.
//!
//! The intersection solves the fixed-point quadratic
//! `|origin + t * direction - center|^2 = radius^2` and mirrors, step by
//! step, the spec function `sphere_hit_spec`.  Numerically degenerate
//! inputs (nonpositive radius, zero-length direction, out-of-range
//! intermediate values) are treated as a miss rather than propagated.

use vstd::prelude::*;
use crate::fixed::{
    abs_int, fx_div, fx_div_spec, fx_mul, fx_mul_spec, fx_sqrt, fx_sqrt_spec, is_isqrt, SCALE,
};
use crate::hittable::HitResult;
use crate::material::Material;
use crate::ray::{itv_surrounds, ray_at_spec, Interval, Ray, T_MAX};
use crate::vec3::{
    lemma_fx_div_bound, lemma_fx_mul_bound, lemma_fx_mul_one, lemma_v_dot_bound,
    lemma_v_dot_self_nonneg, v_bounded,
    v_div, v_dot, v_sub, Point3f, Vec3f, DIR_BOUND, ORIGIN_BOUND, UNIT_BOUND, WORLD_BOUND,
};

verus! {

#[derive(Clone, Copy, PartialEq, Debug)]
pub struct Sphere {
    pub center: Point3f,
    pub radius: i64,
    pub material: Material,
}

/// Geometry small enough for every intersection intermediate to fit.
pub open spec fn sphere_geometry_wf(s: Sphere) -> bool {
    &&& v_bounded(s.center@, WORLD_BOUND as int)
    &&& abs_int(s.radius as int) <= WORLD_BOUND as int
}

/// A ray the intersection may be asked about.
pub open spec fn ray_wf(r: Ray) -> bool {
    &&& v_bounded(r.origin@, ORIGIN_BOUND as int)
    &&& v_bounded(r.direction@, DIR_BOUND as int)
}

/// An interval the intersection may be asked about.
pub open spec fn itv_wf(i: Interval) -> bool {
    &&& abs_int(i.min as int) <= T_MAX as int
    &&& abs_int(i.max as int) <= T_MAX as int
}

/// The hit record at a chosen root, or nothing if the resulting point or
/// normal leaves the representable world (a degenerate miss).
pub open spec fn sphere_hit_at(s: Sphere, ray: Ray, root: int) -> Option<
    (int, (int, int, int), (int, int, int)),
> {
    let loc = ray_at_spec(ray.origin@, ray.direction@, root);
    let normal = v_div(v_sub(loc, s.center@), s.radius as int);
    if v_bounded(loc, ORIGIN_BOUND as int) && v_bounded(normal, UNIT_BOUND as int) {
        Some((root, loc, normal))
    } else {
        None
    }
}

/// The full intersection: quadratic coefficients, discriminant test,
/// preference for the smaller root, fallback to the larger one, then the
/// hit record.  Degenerate geometry (nonpositive radius or squared
/// direction length) misses.
pub open spec fn sphere_hit_spec(s: Sphere, ray: Ray, itv: Interval) -> Option<
    (int, (int, int, int), (int, int, int)),
> {
    let oc = v_sub(s.center@, ray.origin@);
    let a = v_dot(ray.direction@, ray.direction@);
    let h = v_dot(ray.direction@, oc);
    let c = v_dot(oc, oc) - fx_mul_spec(s.radius as int, s.radius as int);
    let disc = fx_mul_spec(h, h) - fx_mul_spec(a, c);
    if s.radius <= 0 || a <= 0 || disc < 0 {
        None
    } else {
        let sd = fx_sqrt_spec(disc);
        let root1 = fx_div_spec(h - sd, a);
        let root2 = fx_div_spec(h + sd, a);
        if itv_surrounds(itv, root1) {
            sphere_hit_at(s, ray, root1)
        } else if itv_surrounds(itv, root2) {
            sphere_hit_at(s, ray, root2)
        } else {
            None
        }
    }
}

/// No false hits for a receding ray: when the sphere's center is not
/// ahead of the ray (the direction and the offset to the center point
/// apart) and the origin is not inside the sphere, both quadratic roots
/// are nonpositive, so a forward interval accepts neither and the query
/// misses.
pub proof fn lemma_receding_sphere_misses(s: Sphere, ray: Ray, itv: Interval)
    requires
        itv.min >= 0,
        v_dot(ray.direction@, v_sub(s.center@, ray.origin@)) <= 0,
        v_dot(v_sub(s.center@, ray.origin@), v_sub(s.center@, ray.origin@)) >= fx_mul_spec(
            s.radius as int,
            s.radius as int,
        ),
    ensures
        sphere_hit_spec(s, ray, itv) is None,
{
    let oc = v_sub(s.center@, ray.origin@);
    let a = v_dot(ray.direction@, ray.direction@);
    let h = v_dot(ray.direction@, oc);
    let c = v_dot(oc, oc) - fx_mul_spec(s.radius as int, s.radius as int);
    let disc = fx_mul_spec(h, h) - fx_mul_spec(a, c);
    if s.radius <= 0 || a <= 0 || disc < 0 {
    } else {
        assert(h * h >= 0) by (nonlinear_arith);
        assert(a * c >= 0) by (nonlinear_arith)
            requires
                a > 0,
                c >= 0,
        ;
        vstd::arithmetic::div_mod::lemma_div_pos_is_pos(h * h, SCALE as int);
        vstd::arithmetic::div_mod::lemma_div_pos_is_pos(a * c, SCALE as int);
        assert(fx_mul_spec(h, h) == (h * h) / (SCALE as int));
        vstd::arithmetic::div_mod::lemma_fundamental_div_mod(h * h, SCALE as int);
        vstd::arithmetic::div_mod::lemma_mod_division_less_than_divisor(h * h, SCALE as int);
        assert(((h * h) / (SCALE as int)) * (SCALE as int) <= h * h) by (nonlinear_arith)
            requires
                h * h == (SCALE as int) * ((h * h) / (SCALE as int)) + (h * h) % (SCALE as int),
                (h * h) % (SCALE as int) >= 0,
        ;
        let sd = fx_sqrt_spec(disc);
        crate::fixed::lemma_sqrt_tz(disc * SCALE);
        assert(sd * sd <= disc * SCALE);
        assert(disc * SCALE <= fx_mul_spec(h, h) * SCALE) by (nonlinear_arith)
            requires
                disc <= fx_mul_spec(h, h),
        ;
        assert(sd <= -h) by (nonlinear_arith)
            requires
                sd >= 0,
                h <= 0,
                sd * sd <= ((h * h) / (SCALE as int)) * (SCALE as int),
                ((h * h) / (SCALE as int)) * (SCALE as int) <= h * h,
        ;
        assert(fx_div_spec(h - sd, a) <= 0) by {
            lemma_div_tz_nonpos((h - sd) * SCALE, a);
            assert((h - sd) * SCALE <= 0) by (nonlinear_arith)
                requires
                    h - sd <= 0,
            ;
        }
        assert(fx_div_spec(h + sd, a) <= 0) by {
            lemma_div_tz_nonpos((h + sd) * SCALE, a);
            assert((h + sd) * SCALE <= 0) by (nonlinear_arith)
                requires
                    h + sd <= 0,
            ;
        }
        assert(!itv_surrounds(itv, fx_div_spec(h - sd, a)));
        assert(!itv_surrounds(itv, fx_div_spec(h + sd, a)));
    }
}

/// Truncating division of a nonpositive value by a positive one is
/// nonpositive.
proof fn lemma_div_tz_nonpos(p: int, q: int)
    requires
        p <= 0,
        q > 0,
    ensures
        crate::fixed::div_tz(p, q) <= 0,
{
    vstd::arithmetic::div_mod::lemma_div_pos_is_pos(abs_int(p), abs_int(q));
}

/// Head-on intersection is exact: a ray from the origin aimed straight
/// down the negative z axis at a sphere centered `k` whole units away
/// with whole-unit radius `m` hits at parameter exactly `k - m` (the
/// distance to the near surface), at the near surface point, with the
/// exact unit outward normal pointing back along the ray.
pub proof fn lemma_head_on_hit(s: Sphere, ray: Ray, itv: Interval, k: int, m: int)
    requires
        ray.origin@ == (0int, 0int, 0int),
        ray.direction@ == (0int, 0int, -(SCALE as int)),
        s.center@ == (0int, 0int, -k * (SCALE as int)),
        s.radius == m * SCALE,
        0 < m < k <= 256,
        itv.min < (k - m) * (SCALE as int) < itv.max,
    ensures
        sphere_hit_spec(s, ray, itv) == Some(
            (
                (k - m) * (SCALE as int),
                (0int, 0int, -(k - m) * (SCALE as int)),
                (0int, 0int, SCALE as int),
            ),
        ),
{
    let sc = SCALE as int;
    let oc = v_sub(s.center@, ray.origin@);
    assert(oc == (0int, 0int, -k * sc));

    assert(forall|t: int| #[trigger] (0 * t) == 0) by (nonlinear_arith);

    let a = v_dot(ray.direction@, ray.direction@);
    assert((-sc) * (-sc) == sc * sc) by (nonlinear_arith);
    lemma_fx_mul_one(sc);
    assert(a == sc);

    let h = v_dot(ray.direction@, oc);
    assert((-sc) * (-k * sc) == (k * sc) * sc) by (nonlinear_arith);
    lemma_fx_mul_one(k * sc);
    assert(h == k * sc);

    let oc2 = v_dot(oc, oc);
    assert((-k * sc) * (-k * sc) == (k * k * sc) * sc) by (nonlinear_arith);
    lemma_fx_mul_one(k * k * sc);
    assert(oc2 == k * k * sc);

    let rr = fx_mul_spec(s.radius as int, s.radius as int);
    assert((m * sc) * (m * sc) == (m * m * sc) * sc) by (nonlinear_arith);
    lemma_fx_mul_one(m * m * sc);
    assert(rr == m * m * sc);

    let c = oc2 - rr;
    assert(c == (k * k - m * m) * sc) by (nonlinear_arith)
        requires
            oc2 == k * k * sc,
            rr == m * m * sc,
            c == oc2 - rr,
    ;

    let d1 = fx_mul_spec(h, h);
    assert((k * sc) * (k * sc) == (k * k * sc) * sc) by (nonlinear_arith);
    assert(d1 == k * k * sc);
    let d2 = fx_mul_spec(a, c);
    assert(sc * ((k * k - m * m) * sc) == ((k * k - m * m) * sc) * sc) by (nonlinear_arith);
    lemma_fx_mul_one((k * k - m * m) * sc);
    assert(d2 == (k * k - m * m) * sc);
    let disc = d1 - d2;
    assert(disc == m * m * sc) by (nonlinear_arith)
        requires
            d1 == k * k * sc,
            d2 == (k * k - m * m) * sc,
            disc == d1 - d2,
    ;
    assert(s.radius > 0) by (nonlinear_arith)
        requires
            s.radius == m * SCALE,
            0 < m,
    ;
    assert(disc >= 0) by (nonlinear_arith)
        requires
            disc == m * m * sc,
            0 < m,
            sc == 65536,
    ;

    let sd = fx_sqrt_spec(disc);
    assert((m * sc) * (m * sc) == disc * sc) by (nonlinear_arith)
        requires
            disc == m * m * sc,
            sc == 65536,
    ;
    assert(is_isqrt(disc * sc, m * sc)) by (nonlinear_arith)
        requires
            (m * sc) * (m * sc) == disc * sc,
            0 < m <= 256,
            sc == 65536,
    ;
    crate::fixed::lemma_sqrt_tz(disc * sc);
    crate::fixed::lemma_isqrt_unique(disc * sc, sd, m * sc);
    assert(sd == m * sc);

    let root1 = fx_div_spec(h - sd, a);
    assert(h - sd == (k - m) * sc) by (nonlinear_arith)
        requires
            h == k * sc,
            sd == m * sc,
    ;
    lemma_fx_mul_one((k - m) * sc);
    assert(root1 == (k - m) * sc);
    assert(itv_surrounds(itv, root1));

    let loc = ray_at_spec(ray.origin@, ray.direction@, root1);
    assert((-sc) * ((k - m) * sc) == (-(k - m) * sc) * sc) by (nonlinear_arith);
    lemma_fx_mul_one(-(k - m) * sc);
    assert(loc == (0int, 0int, -(k - m) * sc));

    let diff = v_sub(loc, s.center@);
    assert(diff == (0int, 0int, m * sc)) by (nonlinear_arith)
        requires
            loc == (0int, 0int, -(k - m) * sc),
            s.center@ == (0int, 0int, -k * sc),
            diff == v_sub(loc, s.center@),
    ;
    let normal = v_div(diff, s.radius as int);
    assert((m * sc) * sc == sc * (m * sc)) by (nonlinear_arith);
    assert(m * sc > 0) by (nonlinear_arith)
        requires
            0 < m,
            sc == 65536,
    ;
    vstd::arithmetic::div_mod::lemma_div_multiples_vanish(sc, m * sc);
    assert(fx_div_spec(m * sc, m * sc) == sc);
    assert(fx_div_spec(0, m * sc) == 0);
    assert(normal == (0int, 0int, sc));

    assert(abs_int(-(k - m) * sc) <= ORIGIN_BOUND as int) by (nonlinear_arith)
        requires
            0 < m < k <= 256,
            sc == 65536,
    ;
    assert(v_bounded(loc, ORIGIN_BOUND as int));
    assert(v_bounded(normal, UNIT_BOUND as int));
}

impl Sphere {
    pub fn new(x: i64, y: i64, z: i64, radius: i64, material: Material) -> (r: Sphere)
        ensures
            r.center@ == (x as int, y as int, z as int),
            r.radius == radius,
            r.material == material,
    {
        Sphere { center: Vec3f::new(x, y, z), radius, material }
    }

    /// The nearest intersection of `ray` with this sphere whose parameter
    /// lies strictly inside `interval`, exactly as `sphere_hit_spec`
    /// describes it.
    pub fn hit(&self, ray: &Ray, interval: &Interval) -> (r: Option<HitResult>)
        requires
            sphere_geometry_wf(*self),
            ray_wf(*ray),
            itv_wf(*interval),
        ensures
            match r {
                None => sphere_hit_spec(*self, *ray, *interval) is None,
                Some(hr) => {
                    &&& sphere_hit_spec(*self, *ray, *interval) == Some(
                        (hr.at as int, hr.location@, hr.normal@),
                    )
                    &&& hr.material == self.material
                    &&& v_bounded(hr.location@, ORIGIN_BOUND as int)
                    &&& v_bounded(hr.normal@, UNIT_BOUND as int)
                    &&& itv_surrounds(*interval, hr.at as int)
                },
            },
    {
        proof {
            lemma_v_dot_bound(ray.direction@, ray.direction@, DIR_BOUND as int, DIR_BOUND as int);
            lemma_v_dot_self_nonneg(ray.direction@);
        }
        let oc = self.center.sub(&ray.origin);
        let a = Vec3f::dot(&ray.direction, &ray.direction);
        proof {
            assert(v_bounded(oc@, 83886080));
            lemma_v_dot_bound(ray.direction@, oc@, DIR_BOUND as int, 83886080);
            lemma_v_dot_bound(oc@, oc@, 83886080, 83886080);
            lemma_v_dot_self_nonneg(oc@);
            lemma_fx_mul_bound(self.radius as int, self.radius as int, WORLD_BOUND as int, WORLD_BOUND as int);
        }
        let h = Vec3f::dot(&ray.direction, &oc);
        let oc2 = Vec3f::dot(&oc, &oc);
        let rr = fx_mul(self.radius, self.radius);
        let c = oc2 - rr;
        proof {
            assert(abs_int(h as int) <= 515396075520);
            assert(abs_int(c as int) <= 326417514496);
            lemma_fx_mul_bound(h as int, h as int, 515396075520, 515396075520);
            lemma_fx_mul_bound(a as int, c as int, 824633720832, 326417514496);
        }
        let d1 = fx_mul(h, h);
        let d2 = fx_mul(a, c);
        let disc = d1 - d2;
        if self.radius <= 0 || a <= 0 || disc < 0 {
            return None;
        }
        let sd = fx_sqrt(disc);
        proof {
            assert((sd as int) * (sd as int) <= (disc as int) * SCALE);
            assert(sd <= 800000000000i64) by (nonlinear_arith)
                requires
                    sd >= 0,
                    (sd as int) * (sd as int) <= (disc as int) * SCALE,
                    0 <= disc as int <= 8200000000000000000,
            ;
            lemma_fx_div_bound((h - sd) as int, a as int, 1315396075520);
            lemma_fx_div_bound((h + sd) as int, a as int, 1315396075520);
        }
        let root1 = fx_div(h - sd, a);
        let root = if interval.surrounds(root1) {
            root1
        } else {
            let root2 = fx_div(h + sd, a);
            if interval.surrounds(root2) {
                root2
            } else {
                return None;
            }
        };
        proof {
            assert(abs_int(root as int) <= T_MAX as int);
            lemma_fx_mul_bound(ray.direction.x as int, root as int, DIR_BOUND as int, T_MAX as int);
            lemma_fx_mul_bound(ray.direction.y as int, root as int, DIR_BOUND as int, T_MAX as int);
            lemma_fx_mul_bound(ray.direction.z as int, root as int, DIR_BOUND as int, T_MAX as int);
        }
        let location = ray.at(root);
        proof {
            assert(v_bounded(location@, 2199090364416));
            lemma_fx_div_bound((location.x - self.center.x) as int, self.radius as int, 2215867580416);
            lemma_fx_div_bound((location.y - self.center.y) as int, self.radius as int, 2215867580416);
            lemma_fx_div_bound((location.z - self.center.z) as int, self.radius as int, 2215867580416);
        }
        let diff = location.sub(&self.center);
        let normal = diff.div(self.radius);
        if location.bounded(ORIGIN_BOUND) && normal.bounded(UNIT_BOUND) {
            Some(HitResult { at: root, location, normal, material: self.material })
        } else {
            None
        }
    }
}

} // verus!
