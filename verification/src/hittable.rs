//! Hit records and the composite scene: an ordered collection of spheres
//! that reports the nearest accepted intersection.

use vstd::prelude::*;
use crate::material::Material;
use crate::ray::{Interval, Ray};
use crate::sphere::{itv_wf, ray_wf, sphere_geometry_wf, sphere_hit_spec, Sphere};
use crate::vec3::{v_bounded, Vec3f, ORIGIN_BOUND, UNIT_BOUND};

verus! {

/// What an intersection reports: the ray parameter, the hit point, the
/// outward normal, and the primitive's material.
#[derive(Clone, Copy, PartialEq, Debug)]
pub struct HitResult {
    pub at: i64,
    pub location: Vec3f,
    pub normal: Vec3f,
    pub material: Material,
}

/// A hit record whose point and normal are within the representable
/// world, as every record produced by an intersection is.
pub open spec fn hit_wf(h: HitResult) -> bool {
    &&& v_bounded(h.location@, ORIGIN_BOUND as int)
    &&& v_bounded(h.normal@, UNIT_BOUND as int)
}

/// The scene: an ordered collection of spheres.  Order never affects
/// which hit is nearest, only the tie between exactly equal distances
/// (the earlier primitive wins).
pub struct HittableArray {
    pub array: Vec<Sphere>,
}

pub open spec fn opt_idx(o: Option<int>) -> int {
    match o {
        Some(i) => i,
        None => 0,
    }
}

/// The ray parameter of a sphere's hit, where one exists.
pub open spec fn sphere_hit_t(s: Sphere, ray: Ray, itv: Interval) -> int {
    match sphere_hit_spec(s, ray, itv) {
        Some(h) => h.0,
        None => 0,
    }
}

/// The index of the sphere whose hit the scene reports: walking the
/// spheres in order, a new hit replaces the current one exactly when its
/// parameter is strictly smaller.
pub open spec fn array_hit_spec(s: Seq<Sphere>, ray: Ray, itv: Interval) -> Option<int>
    decreases s.len(),
{
    if s.len() == 0 {
        None
    } else {
        let prev = array_hit_spec(s.drop_last(), ray, itv);
        match sphere_hit_spec(s.last(), ray, itv) {
            None => prev,
            Some(h) => match prev {
                None => Some(s.len() - 1),
                Some(i) => if h.0 < sphere_hit_t(s[i], ray, itv) {
                    Some(s.len() - 1)
                } else {
                    Some(i)
                },
            },
        }
    }
}

/// The winning index is a real index and its sphere really hits.
pub proof fn lemma_array_hit_valid(s: Seq<Sphere>, ray: Ray, itv: Interval)
    requires
        array_hit_spec(s, ray, itv) is Some,
    ensures
        0 <= opt_idx(array_hit_spec(s, ray, itv)) < s.len(),
        sphere_hit_spec(s[opt_idx(array_hit_spec(s, ray, itv))], ray, itv) is Some,
    decreases s.len(),
{
    let prev = array_hit_spec(s.drop_last(), ray, itv);
    if prev is Some {
        lemma_array_hit_valid(s.drop_last(), ray, itv);
        assert(s.drop_last()[opt_idx(prev)] == s[opt_idx(prev)]);
    }
}

/// Nearest-hit selection: whenever some sphere is hit the scene reports a
/// hit, and the reported hit's ray parameter is no larger than that of
/// any sphere the ray hits.
pub proof fn lemma_nearest_hit(s: Seq<Sphere>, ray: Ray, itv: Interval, j: int)
    requires
        0 <= j < s.len(),
        sphere_hit_spec(s[j], ray, itv) is Some,
    ensures
        array_hit_spec(s, ray, itv) is Some,
        sphere_hit_t(s[opt_idx(array_hit_spec(s, ray, itv))], ray, itv) <= sphere_hit_t(
            s[j],
            ray,
            itv,
        ),
    decreases s.len(),
{
    let prev = array_hit_spec(s.drop_last(), ray, itv);
    if prev is Some {
        lemma_array_hit_valid(s.drop_last(), ray, itv);
        assert(s.drop_last()[opt_idx(prev)] == s[opt_idx(prev)]);
    }
    if j < s.len() - 1 {
        assert(s.drop_last()[j] == s[j]);
        lemma_nearest_hit(s.drop_last(), ray, itv, j);
    }
}

impl HittableArray {
    /// Every sphere's geometry is in range for intersection.
    pub open spec fn geometry_wf(self) -> bool {
        forall|i: int| 0 <= i < self.array@.len() ==> sphere_geometry_wf(#[trigger] self.array@[i])
    }

    /// Geometry in range and every material well-formed.
    pub open spec fn wf(self) -> bool {
        &&& self.geometry_wf()
        &&& forall|i: int|
            0 <= i < self.array@.len() ==> (#[trigger] self.array@[i]).material.wf()
    }

    pub fn new() -> (r: HittableArray)
        ensures
            r.array@.len() == 0,
    {
        HittableArray { array: Vec::new() }
    }

    pub fn add(&mut self, value: Sphere)
        ensures
            final(self).array@ == old(self).array@.push(value),
    {
        self.array.push(value);
    }

    /// The nearest accepted hit over all spheres, as `array_hit_spec`
    /// picks it: `None` exactly when no sphere is hit, otherwise the hit
    /// record of the winning sphere, with its material.
    pub fn hit(&self, ray: &Ray, interval: &Interval) -> (r: Option<HitResult>)
        requires
            self.geometry_wf(),
            ray_wf(*ray),
            itv_wf(*interval),
        ensures
            match r {
                None => array_hit_spec(self.array@, *ray, *interval) is None,
                Some(hr) => {
                    let win = array_hit_spec(self.array@, *ray, *interval);
                    &&& win is Some
                    &&& 0 <= opt_idx(win) < self.array@.len()
                    &&& sphere_hit_spec(self.array@[opt_idx(win)], *ray, *interval) == Some(
                        (hr.at as int, hr.location@, hr.normal@),
                    )
                    &&& hr.material == self.array@[opt_idx(win)].material
                    &&& hit_wf(hr)
                },
            },
    {
        let mut closest_result: Option<HitResult> = None;
        let n = self.array.len();
        let mut i: usize = 0;
        while i < n
            invariant
                n == self.array@.len(),
                0 <= i <= n,
                self.geometry_wf(),
                ray_wf(*ray),
                itv_wf(*interval),
                match closest_result {
                    None => array_hit_spec(self.array@.take(i as int), *ray, *interval) is None,
                    Some(hr) => {
                        let win = array_hit_spec(self.array@.take(i as int), *ray, *interval);
                        &&& win is Some
                        &&& 0 <= opt_idx(win) < i
                        &&& sphere_hit_spec(self.array@[opt_idx(win)], *ray, *interval) == Some(
                            (hr.at as int, hr.location@, hr.normal@),
                        )
                        &&& hr.material == self.array@[opt_idx(win)].material
                        &&& hit_wf(hr)
                    },
                },
            decreases n - i,
        {
            proof {
                assert(self.array@.take(i as int + 1).drop_last() =~= self.array@.take(i as int));
                assert(self.array@.take(i as int + 1).last() == self.array@[i as int]);
            }
            let sph = self.array[i];
            let result = sph.hit(ray, interval);
            if let Some(result) = result {
                match closest_result {
                    None => {
                        closest_result = Some(result);
                    },
                    Some(close) => {
                        if result.at < close.at {
                            closest_result = Some(result);
                        }
                    },
                }
            }
            i = i + 1;
        }
        proof {
            assert(self.array@.take(n as int) =~= self.array@);
        }
        closest_result
    }
}

} // verus!
