//! Rays and parameter intervals.
//!
//! A ray is an origin plus an unnormalized direction; construction never
//! normalizes, so quadratic intersection code may rely on the squared
//! direction length.  An interval bounds acceptable ray parameters.

use vstd::prelude::*;
use crate::fixed::{fx_fits, fx_mul_spec};
use crate::vec3::{clamp_int, v_add, v_scale, Point3f, Vec3f};

verus! {

/// Lower bound of the forward ray interval: keeps scattered rays from
/// re-hitting their own origin surface (shadow acne).
pub const T_EPS: i64 = 16;

/// Upper bound of the forward ray interval: the far plane of the
/// fixed-point world.
pub const T_MAX: i64 = 1073741824;

#[derive(Clone, Copy, PartialEq, Eq, Structural, Debug)]
pub struct Ray {
    pub origin: Point3f,
    pub direction: Vec3f,
}

/// The point a ray reaches at parameter `t`.
pub open spec fn ray_at_spec(origin: (int, int, int), direction: (int, int, int), t: int) -> (
    int,
    int,
    int,
) {
    v_add(origin, v_scale(direction, t))
}

impl Ray {
    /// The direction is stored exactly as given: no normalization.
    pub fn new(origin: &Point3f, direction: &Vec3f) -> (r: Ray)
        ensures
            r.origin == *origin,
            r.direction == *direction,
    {
        Ray { origin: *origin, direction: *direction }
    }

    pub fn at(&self, time: i64) -> (p: Point3f)
        requires
            fx_fits(fx_mul_spec(self.direction.x as int, time as int)),
            fx_fits(fx_mul_spec(self.direction.y as int, time as int)),
            fx_fits(fx_mul_spec(self.direction.z as int, time as int)),
            fx_fits(self.origin.x + fx_mul_spec(self.direction.x as int, time as int)),
            fx_fits(self.origin.y + fx_mul_spec(self.direction.y as int, time as int)),
            fx_fits(self.origin.z + fx_mul_spec(self.direction.z as int, time as int)),
        ensures
            p@ == ray_at_spec(self.origin@, self.direction@, time as int),
    {
        let step = self.direction.scale(time);
        self.origin.add(&step)
    }
}

#[derive(Clone, Copy, PartialEq, Eq, Structural, Debug)]
pub struct Interval {
    pub min: i64,
    pub max: i64,
}

pub open spec fn itv_contains(i: Interval, v: int) -> bool {
    i.min <= v <= i.max
}

pub open spec fn itv_surrounds(i: Interval, v: int) -> bool {
    i.min < v < i.max
}

impl Interval {
    pub fn new(min: i64, max: i64) -> (r: Interval)
        ensures
            r.min == min,
            r.max == max,
    {
        Interval { min, max }
    }

    /// The forward interval used for every scene query: a small positive
    /// lower bound against self-intersection, a far plane above.
    pub fn forward() -> (r: Interval)
        ensures
            r.min == T_EPS,
            r.max == T_MAX,
    {
        Interval { min: T_EPS, max: T_MAX }
    }

    pub fn size(&self) -> (r: i64)
        requires
            fx_fits(self.max - self.min),
        ensures
            r == self.max - self.min,
    {
        self.max - self.min
    }

    /// Inclusive membership.
    pub fn contains(&self, value: i64) -> (r: bool)
        ensures
            r == itv_contains(*self, value as int),
    {
        self.min <= value && value <= self.max
    }

    /// Strict membership: both endpoints excluded.
    pub fn surrounds(&self, value: i64) -> (r: bool)
        ensures
            r == itv_surrounds(*self, value as int),
    {
        self.min < value && value < self.max
    }

    /// Saturate a value into the interval.
    pub fn clamp(&self, value: i64) -> (r: i64)
        ensures
            r as int == clamp_int(value as int, self.min as int, self.max as int),
    {
        if value > self.max {
            self.max
        } else if value < self.min {
            self.min
        } else {
            value
        }
    }
}

/// Interval semantics: `surrounds` is strict and excludes both endpoints,
/// `contains` is inclusive and admits both, and everything surrounded is
/// contained.
pub proof fn lemma_interval_semantics(i: Interval, v: int)
    ensures
        itv_surrounds(i, v) ==> itv_contains(i, v),
        !itv_surrounds(i, i.min as int),
        !itv_surrounds(i, i.max as int),
        i.min <= i.max ==> itv_contains(i, i.min as int) && itv_contains(i, i.max as int),
        itv_contains(i, v) && v != i.min && v != i.max ==> itv_surrounds(i, v),
{
}

} // verus!
