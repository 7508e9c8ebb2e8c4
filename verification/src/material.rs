//! The scattering model: Lambertian diffuse, metallic reflection with
//! fuzz, and dielectric refraction with Schlick reflectance.  Each
//! material turns a hit into an outgoing ray and an attenuation colour.
//!
//! Scattering draws randomness, so contracts state what holds of every
//! outcome: the outgoing ray starts at the hit point with a bounded
//! direction, the attenuation is exactly the material's, and the
//! deterministic decisions (total internal reflection, the Schlick
//! probability itself) are pinned down exactly.

use vstd::prelude::*;
use crate::fixed::{
    abs_int, fx_div, fx_div_spec, fx_mul, fx_mul_spec, fx_sqrt, fx_sqrt_spec, SCALE,
};
use crate::hittable::{hit_wf, HitResult};
use crate::ray::Ray;
use crate::rng::random_fraction;
use crate::vec3::{
    colour_01, lemma_fx_div_bound, lemma_fx_mul_bound, lemma_v_dot_bound, v_add, v_bounded,
    v_dot, v_neg, v_normalized, v_reflect, v_refract, v_scale, Colour, Vec3f, DIR_BOUND,
    UNIT_BOUND, WORLD_BOUND,
};
use vstd::arithmetic::div_mod::{
    lemma_div_is_ordered_by_denominator, lemma_div_pos_is_pos,
};

verus! {

#[derive(Clone, Copy, PartialEq, Debug)]
pub struct ScatterResult {
    pub scattered: bool,
    pub ray: Ray,
    pub attenuation: Colour,
}

#[derive(Clone, Copy, PartialEq, Debug)]
pub struct Lambertian {
    pub albedo: Colour,
}

#[derive(Clone, Copy, PartialEq, Debug)]
pub struct Metal {
    pub albedo: Colour,
    pub fuzz: i64,
}

#[derive(Clone, Copy, PartialEq, Debug)]
pub struct Dielectric {
    pub refractive_index: i64,
}

/// The closed set of materials a primitive may carry.
#[derive(Clone, Copy, PartialEq, Debug)]
pub enum Material {
    Lambertian(Lambertian),
    Metal(Metal),
    Dielectric(Dielectric),
}

/// Total internal reflection: the refraction ratio times the sine of the
/// incidence angle exceeds one.
pub open spec fn tir_spec(cos_theta: int, ratio: int) -> bool {
    fx_mul_spec(ratio, fx_sqrt_spec(SCALE - fx_mul_spec(cos_theta, cos_theta))) > SCALE as int
}

/// Schlick's reflectance approximation:
/// `r0 + (1 - r0) (1 - cos)^5` with `r0 = ((1 - ratio) / (1 + ratio))^2`.
pub open spec fn schlick_spec(cos_theta: int, ratio: int) -> int {
    let r0b = fx_div_spec(SCALE - ratio, SCALE + ratio);
    let r0 = fx_mul_spec(r0b, r0b);
    let omc = SCALE - cos_theta;
    let p5 = fx_mul_spec(
        fx_mul_spec(fx_mul_spec(fx_mul_spec(omc, omc), omc), omc),
        omc,
    );
    r0 + fx_mul_spec(SCALE - r0, p5)
}

/// The diffuse scatter direction for a drawn unit vector `u`: the
/// surface normal plus `u`, falling back to the normal alone exactly
/// when that sum is nearly zero.
pub open spec fn lambertian_direction(normal: (int, int, int), u: (int, int, int)) -> (
    int,
    int,
    int,
) {
    if crate::vec3::v_nearly_zero(v_add(normal, u)) {
        normal
    } else {
        v_add(normal, u)
    }
}

/// The metallic scatter direction for a drawn unit vector `u`: the
/// normalized mirror reflection perturbed by `u` scaled by the fuzz.
pub open spec fn metal_direction(
    in_dir: (int, int, int),
    normal: (int, int, int),
    fuzz: int,
    u: (int, int, int),
) -> (int, int, int) {
    v_add(v_normalized(v_reflect(in_dir, normal)), v_scale(u, fuzz))
}

/// The normal oriented to oppose the incoming ray.
pub open spec fn dielectric_oriented(normal: (int, int, int), in_dir: (int, int, int)) -> (
    int,
    int,
    int,
) {
    if v_dot(normal, in_dir) > 0 {
        v_neg(normal)
    } else {
        normal
    }
}

/// The refraction ratio: the index itself when exiting the medium, its
/// reciprocal when entering.
pub open spec fn dielectric_ratio(index: int, normal: (int, int, int), in_dir: (int, int, int)) -> int {
    if v_dot(normal, in_dir) > 0 {
        index
    } else {
        fx_div_spec(SCALE as int, index)
    }
}

/// The incidence cosine the dielectric decides on: the negated dot of
/// the unit direction with the oriented normal, clamped into `[0, 1]`.
pub open spec fn dielectric_cos(normal: (int, int, int), in_dir: (int, int, int)) -> int {
    crate::vec3::clamp_int(
        -v_dot(v_normalized(in_dir), dielectric_oriented(normal, in_dir)),
        0,
        SCALE as int,
    )
}

/// At head-on incidence the cosine is one, so Schlick's reflectance
/// collapses to its base term `r0 = ((1 - ratio) / (1 + ratio))^2`; in
/// particular a ratio of one reflects with probability zero, and there
/// is no total internal reflection.
pub proof fn lemma_schlick_head_on(ratio: int)
    requires
        0 < ratio <= 0x10_0000,
    ensures
        schlick_spec(SCALE as int, ratio) == fx_mul_spec(
            fx_div_spec((SCALE as int) - ratio, (SCALE as int) + ratio),
            fx_div_spec((SCALE as int) - ratio, (SCALE as int) + ratio),
        ),
        !tir_spec(SCALE as int, ratio),
        schlick_spec(SCALE as int, SCALE as int) == 0,
{
    assert(fx_mul_spec(0, 0) == 0);
    let r0 = fx_mul_spec(
        fx_div_spec((SCALE as int) - ratio, (SCALE as int) + ratio),
        fx_div_spec((SCALE as int) - ratio, (SCALE as int) + ratio),
    );
    assert(fx_mul_spec((SCALE as int) - r0, 0) == 0) by {
        assert(((SCALE as int) - r0) * 0 == 0) by (nonlinear_arith);
    }
    assert(fx_mul_spec(SCALE as int, SCALE as int) == SCALE as int) by {
        crate::vec3::lemma_fx_mul_one(SCALE as int);
    }
    assert(fx_sqrt_spec(0) == 0) by {
        crate::fixed::lemma_sqrt_tz(0);
        crate::fixed::lemma_isqrt_unique(0, fx_sqrt_spec(0), 0);
    }
    assert(fx_mul_spec(ratio, 0) == 0) by {
        assert(ratio * 0 == 0) by (nonlinear_arith);
    }
    assert(fx_div_spec(0, 2 * (SCALE as int)) == 0);
    assert(schlick_spec(SCALE as int, SCALE as int) == 0);
}

/// Schlick's reflectance, computed exactly as `schlick_spec` states it.
pub fn reflectance(cos_theta: i64, refractive_ratio: i64) -> (r: i64)
    requires
        0 <= cos_theta <= SCALE,
        0 < refractive_ratio <= 0x10_0000,
    ensures
        r as int == schlick_spec(cos_theta as int, refractive_ratio as int),
{
    proof {
        lemma_fx_div_bound((SCALE - refractive_ratio) as int, (SCALE + refractive_ratio) as int, 0x10_0000);
        lemma_fx_mul_bound(
            fx_div_spec((SCALE - refractive_ratio) as int, (SCALE + refractive_ratio) as int),
            fx_div_spec((SCALE - refractive_ratio) as int, (SCALE + refractive_ratio) as int),
            0x10_0000_0000,
            0x10_0000_0000,
        );
    }
    let r0b = fx_div(SCALE - refractive_ratio, SCALE + refractive_ratio);
    let r0 = fx_mul(r0b, r0b);
    let omc = SCALE - cos_theta;
    proof {
        lemma_fx_mul_bound(omc as int, omc as int, SCALE as int, SCALE as int);
        lemma_fx_mul_bound(fx_mul_spec(omc as int, omc as int), omc as int, SCALE as int, SCALE as int);
        lemma_fx_mul_bound(
            fx_mul_spec(fx_mul_spec(omc as int, omc as int), omc as int),
            omc as int,
            SCALE as int,
            SCALE as int,
        );
        lemma_fx_mul_bound(
            fx_mul_spec(fx_mul_spec(fx_mul_spec(omc as int, omc as int), omc as int), omc as int),
            omc as int,
            SCALE as int,
            SCALE as int,
        );
    }
    let p2 = fx_mul(omc, omc);
    let p3 = fx_mul(p2, omc);
    let p4 = fx_mul(p3, omc);
    let p5 = fx_mul(p4, omc);
    proof {
        assert(abs_int((SCALE as int) - (r0 as int)) <= 0x4000_0000_0000_0000);
        lemma_fx_mul_bound((SCALE as int) - (r0 as int), p5 as int, 0x4000_0000_0000_0000, SCALE as int);
    }
    r0 + fx_mul(SCALE - r0, p5)
}

impl Lambertian {
    pub fn new(albedo: Colour) -> (r: Lambertian)
        ensures
            r.albedo == albedo,
    {
        Lambertian { albedo }
    }

    /// Diffuse scattering: the outgoing direction is the surface normal
    /// plus a random unit vector (or the normal itself when that sum is
    /// nearly zero).  Always scatters; attenuation is the albedo.
    pub fn scatter(&self, in_ray: &Ray, hit_result: &HitResult) -> (r: ScatterResult)
        requires
            hit_wf(*hit_result),
        ensures
            r.scattered,
            r.attenuation == self.albedo,
            r.ray.origin == hit_result.location,
            v_bounded(r.ray.direction@, DIR_BOUND as int),
            exists|u: (int, int, int)|
                {
                    &&& v_bounded(u, UNIT_BOUND as int)
                    &&& r.ray.direction@ == #[trigger] lambertian_direction(hit_result.normal@, u)
                },
    {
        let u = Vec3f::random_orientation();
        let mut scatter_direction = hit_result.normal.add(&u);
        if scatter_direction.is_nearly_zero() {
            scatter_direction = hit_result.normal;
        }
        proof {
            assert(v_bounded(u@, UNIT_BOUND as int) && scatter_direction@ == lambertian_direction(
                hit_result.normal@,
                u@,
            ));
        }
        let scattered_ray = Ray::new(&hit_result.location, &scatter_direction);
        ScatterResult { scattered: true, ray: scattered_ray, attenuation: self.albedo }
    }
}

impl Metal {
    pub fn new(albedo: Colour, fuzz: i64) -> (r: Metal)
        ensures
            r.albedo == albedo,
            r.fuzz == fuzz,
    {
        Metal { albedo, fuzz }
    }

    /// Metallic scattering: mirror reflection, normalized, perturbed by a
    /// fuzz-scaled random unit vector.  Scatters exactly when the
    /// perturbed direction still points out of the surface.
    pub fn scatter(&self, in_ray: &Ray, hit_result: &HitResult) -> (r: ScatterResult)
        requires
            hit_wf(*hit_result),
            v_bounded(in_ray.direction@, DIR_BOUND as int),
            0 <= self.fuzz <= WORLD_BOUND,
        ensures
            r.attenuation == self.albedo,
            r.ray.origin == hit_result.location,
            v_bounded(r.ray.direction@, DIR_BOUND as int),
            r.scattered == (v_dot(r.ray.direction@, hit_result.normal@) > 0),
            exists|u: (int, int, int)|
                {
                    &&& v_bounded(u, UNIT_BOUND as int)
                    &&& r.ray.direction@ == #[trigger] metal_direction(
                        in_ray.direction@,
                        hit_result.normal@,
                        self.fuzz as int,
                        u,
                    )
                },
    {
        let reflected_direction = in_ray.direction.reflect(&hit_result.normal);
        let unit_reflected = reflected_direction.normalized();
        let u = Vec3f::random_orientation();
        proof {
            lemma_fx_mul_bound(u.x as int, self.fuzz as int, UNIT_BOUND as int, WORLD_BOUND as int);
            lemma_fx_mul_bound(u.y as int, self.fuzz as int, UNIT_BOUND as int, WORLD_BOUND as int);
            lemma_fx_mul_bound(u.z as int, self.fuzz as int, UNIT_BOUND as int, WORLD_BOUND as int);
        }
        let fuzz_step = u.scale(self.fuzz);
        let direction = unit_reflected.add(&fuzz_step);
        let scattered_ray = Ray::new(&hit_result.location, &direction);
        proof {
            lemma_v_dot_bound(
                scattered_ray.direction@,
                hit_result.normal@,
                33685504,
                UNIT_BOUND as int,
            );
        }
        let d = Vec3f::dot(&scattered_ray.direction, &hit_result.normal);
        proof {
            assert(v_bounded(u@, UNIT_BOUND as int) && scattered_ray.direction@ == metal_direction(
                in_ray.direction@,
                hit_result.normal@,
                self.fuzz as int,
                u@,
            ));
        }
        ScatterResult { scattered: d > 0, ray: scattered_ray, attenuation: self.albedo }
    }
}

impl Dielectric {
    pub fn new(refractive_index: i64) -> (r: Dielectric)
        ensures
            r.refractive_index == refractive_index,
    {
        Dielectric { refractive_index }
    }

    /// Whether the ray reflects instead of refracting: forced under total
    /// internal reflection, otherwise a draw against the Schlick
    /// reflectance.  When the reflectance is not positive the draw can
    /// never win, so the answer is deterministic.
    pub fn reflected(&self, cos_theta: i64, refractive_ratio: i64) -> (r: bool)
        requires
            0 <= cos_theta <= SCALE,
            0 < refractive_ratio <= 0x10_0000,
        ensures
            tir_spec(cos_theta as int, refractive_ratio as int) ==> r,
            !tir_spec(cos_theta as int, refractive_ratio as int) && schlick_spec(
                cos_theta as int,
                refractive_ratio as int,
            ) <= 0 ==> !r,
    {
        proof {
            lemma_fx_mul_bound(cos_theta as int, cos_theta as int, SCALE as int, SCALE as int);
            assert(fx_mul_spec(cos_theta as int, cos_theta as int) >= 0) by {
                assert((cos_theta as int) * (cos_theta as int) >= 0) by (nonlinear_arith);
                lemma_div_pos_is_pos((cos_theta as int) * (cos_theta as int), SCALE as int);
            }
        }
        let cos2 = fx_mul(cos_theta, cos_theta);
        let sin2 = SCALE - cos2;
        let sin = fx_sqrt(sin2);
        proof {
            assert(sin <= SCALE) by (nonlinear_arith)
                requires
                    sin >= 0,
                    (sin as int) * (sin as int) <= (sin2 as int) * SCALE,
                    sin2 <= SCALE,
            ;
            lemma_fx_mul_bound(refractive_ratio as int, sin as int, 0x10_0000, SCALE as int);
        }
        let scaled = fx_mul(refractive_ratio, sin);
        if scaled > SCALE {
            return true;
        }
        let probability = reflectance(cos_theta, refractive_ratio);
        let f = random_fraction();
        f < probability
    }

    /// Dielectric scattering: refract or reflect a unit incoming
    /// direction about the normal oriented against it.  Always scatters;
    /// attenuation is white.
    pub fn scatter(&self, in_ray: &Ray, hit_result: &HitResult) -> (r: ScatterResult)
        requires
            hit_wf(*hit_result),
            v_bounded(in_ray.direction@, DIR_BOUND as int),
            4096 <= self.refractive_index <= 0x10_0000,
        ensures
            r.scattered,
            r.attenuation@ == (SCALE as int, SCALE as int, SCALE as int),
            r.ray.origin == hit_result.location,
            v_bounded(r.ray.direction@, DIR_BOUND as int),
            ({
                let ud = v_normalized(in_ray.direction@);
                let oriented = dielectric_oriented(hit_result.normal@, in_ray.direction@);
                let ratio = dielectric_ratio(
                    self.refractive_index as int,
                    hit_result.normal@,
                    in_ray.direction@,
                );
                let cos = dielectric_cos(hit_result.normal@, in_ray.direction@);
                &&& (r.ray.direction@ == v_reflect(ud, oriented) || r.ray.direction@ == v_refract(
                    ud,
                    oriented,
                    ratio,
                ))
                &&& (tir_spec(cos, ratio) ==> r.ray.direction@ == v_reflect(ud, oriented))
                &&& (!tir_spec(cos, ratio) && schlick_spec(cos, ratio) <= 0
                    ==> r.ray.direction@ == v_refract(ud, oriented, ratio))
            }),
    {
        let attenuation = Vec3f::new(SCALE, SCALE, SCALE);
        proof {
            lemma_v_dot_bound(hit_result.normal@, in_ray.direction@, UNIT_BOUND as int, DIR_BOUND as int);
        }
        let internal = Vec3f::dot(&hit_result.normal, &in_ray.direction) > 0;

        let refractive_ratio = if internal {
            self.refractive_index
        } else {
            proof {
                lemma_fx_div_bound(SCALE as int, self.refractive_index as int, SCALE as int);
                assert((SCALE as int) * (SCALE as int) == 0x1_0000_0000int);
                lemma_div_pos_is_pos((SCALE as int) * (SCALE as int), self.refractive_index as int);
                lemma_div_is_ordered_by_denominator(
                    (SCALE as int) * (SCALE as int),
                    self.refractive_index as int,
                    0x10_0000,
                );
                lemma_div_is_ordered_by_denominator(
                    (SCALE as int) * (SCALE as int),
                    4096,
                    self.refractive_index as int,
                );
            }
            fx_div(SCALE, self.refractive_index)
        };
        let normal = if internal {
            hit_result.normal.neg()
        } else {
            hit_result.normal
        };
        let unit_direction = in_ray.direction.normalized();
        proof {
            lemma_v_dot_bound(unit_direction@, normal@, UNIT_BOUND as int, UNIT_BOUND as int);
        }
        let d = Vec3f::dot(&unit_direction, &normal);
        let capped: i64 = if -d > SCALE {
            SCALE
        } else {
            -d
        };
        // a normal so degenerate that the cosine goes negative is treated
        // as grazing incidence
        let cos_theta: i64 = if capped < 0 {
            0
        } else {
            capped
        };
        let result_direction = if self.reflected(cos_theta, refractive_ratio) {
            let out = unit_direction.reflect(&normal);
            proof {
                lemma_v_dot_bound(unit_direction@, normal@, UNIT_BOUND as int, UNIT_BOUND as int);
                lemma_fx_mul_bound(
                    normal.x as int,
                    2 * v_dot(unit_direction@, normal@),
                    UNIT_BOUND as int,
                    1572864,
                );
                lemma_fx_mul_bound(
                    normal.y as int,
                    2 * v_dot(unit_direction@, normal@),
                    UNIT_BOUND as int,
                    1572864,
                );
                lemma_fx_mul_bound(
                    normal.z as int,
                    2 * v_dot(unit_direction@, normal@),
                    UNIT_BOUND as int,
                    1572864,
                );
            }
            out
        } else {
            unit_direction.refract(&normal, refractive_ratio)
        };
        let ray = Ray::new(&hit_result.location, &result_direction);
        ScatterResult { scattered: true, ray, attenuation }
    }
}

impl Material {
    /// Parameters under which scattering keeps colours inside `[0, 1]`
    /// and all arithmetic in range.
    pub open spec fn wf(self) -> bool {
        match self {
            Material::Lambertian(l) => colour_01(l.albedo@),
            Material::Metal(m) => colour_01(m.albedo@) && 0 <= m.fuzz <= WORLD_BOUND,
            Material::Dielectric(d) => 4096 <= d.refractive_index <= 0x10_0000,
        }
    }

    /// The attenuation each material applies: its albedo, or white for a
    /// dielectric.
    pub open spec fn attenuation_spec(self) -> (int, int, int) {
        match self {
            Material::Lambertian(l) => l.albedo@,
            Material::Metal(m) => m.albedo@,
            Material::Dielectric(_) => (SCALE as int, SCALE as int, SCALE as int),
        }
    }

    /// Dispatch to the variant's scattering rule.
    pub fn scatter(&self, in_ray: &Ray, hit_result: &HitResult) -> (r: ScatterResult)
        requires
            self.wf(),
            hit_wf(*hit_result),
            v_bounded(in_ray.direction@, DIR_BOUND as int),
        ensures
            r.ray.origin == hit_result.location,
            v_bounded(r.ray.direction@, DIR_BOUND as int),
            r.attenuation@ == self.attenuation_spec(),
            colour_01(r.attenuation@),
            !(*self matches Material::Metal(_)) ==> r.scattered,
            *self matches Material::Metal(_) ==> r.scattered == (v_dot(
                r.ray.direction@,
                hit_result.normal@,
            ) > 0),
            *self matches Material::Lambertian(_) ==> exists|u: (int, int, int)|
                {
                    &&& v_bounded(u, UNIT_BOUND as int)
                    &&& r.ray.direction@ == #[trigger] lambertian_direction(hit_result.normal@, u)
                },
            *self matches Material::Metal(m) ==> exists|u: (int, int, int)|
                {
                    &&& v_bounded(u, UNIT_BOUND as int)
                    &&& r.ray.direction@ == #[trigger] metal_direction(
                        in_ray.direction@,
                        hit_result.normal@,
                        m.fuzz as int,
                        u,
                    )
                },
            *self matches Material::Dielectric(d) ==> ({
                let ud = v_normalized(in_ray.direction@);
                let oriented = dielectric_oriented(hit_result.normal@, in_ray.direction@);
                let ratio = dielectric_ratio(
                    d.refractive_index as int,
                    hit_result.normal@,
                    in_ray.direction@,
                );
                let cos = dielectric_cos(hit_result.normal@, in_ray.direction@);
                &&& (r.ray.direction@ == v_reflect(ud, oriented) || r.ray.direction@ == v_refract(
                    ud,
                    oriented,
                    ratio,
                ))
                &&& (tir_spec(cos, ratio) ==> r.ray.direction@ == v_reflect(ud, oriented))
                &&& (!tir_spec(cos, ratio) && schlick_spec(cos, ratio) <= 0
                    ==> r.ray.direction@ == v_refract(ud, oriented, ratio))
            }),
    {
        match self {
            Material::Lambertian(l) => l.scatter(in_ray, hit_result),
            Material::Metal(m) => m.scatter(in_ray, hit_result),
            Material::Dielectric(d) => d.scatter(in_ray, hit_result),
        }
    }
}

} // verus!
