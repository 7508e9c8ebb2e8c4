//! The camera and path tracer: viewport geometry derived once from the
//! eye and look-at configuration, jittered primary rays, the recursive
//! ray-colour evaluation with a depth budget, and the per-pass
//! accumulation that parallel rendering sums.
//!
//! Threading and output are left to the caller: `render_iteration`
//! produces one full-frame pass, `add_images` merges passes, and
//! `average_image` scales by the sample count.

use vstd::prelude::*;
use vstd::arithmetic::div_mod::{lemma_div_is_ordered, lemma_div_pos_is_pos};
use crate::fixed::{
    abs_int, div_tz, fx_div, fx_div_spec, fx_fits, fx_mul, fx_mul_spec, fx_sqrt, fx_sqrt_spec,
    SCALE,
};
use crate::hittable::{array_hit_spec, opt_idx, HittableArray};
use crate::ray::{Interval, Ray};
use crate::rng::random_fraction;
use crate::vec3::{
    channel_byte, colour_01, lemma_fx_div_denom, lemma_fx_mul_bound, lemma_fx_mul_mono,
    lemma_fx_mul_unit, lemma_v_dot_bound, triple_text, v_add, v_bounded, v_cross, v_div,
    v_dot, v_mul, v_normalized,
    v_scale, v_sub, Colour, Vec3f, DIR_BOUND, ORIGIN_BOUND, UNIT_BOUND, WORLD_BOUND,
};

verus! {

/// Cap for every derived viewport vector and for the full pixel-grid
/// extent: half the direction budget, so that four such terms always fit.
pub const CAMERA_BOUND: i64 = 33554432;

/// Cap for a defocus-disk basis vector.
pub const DEFOCUS_BOUND: i64 = 8388608;

/// Largest image side length accepted at configuration time.
pub const MAX_IMAGE_DIM: usize = 32768;

/// One half, in fixed point.
pub const HALF: i64 = 32768;

/// Rejected camera configurations, each tied to exactly one condition.
#[derive(Clone, Copy, PartialEq, Eq, Structural, Debug)]
pub enum CameraError {
    /// An image dimension is zero.
    EmptyImage,
    /// An image dimension exceeds `MAX_IMAGE_DIM`.
    ImageTooLarge,
    /// The derived viewport geometry leaves the representable world.
    ViewportTooLarge,
    /// A zero sample or worker count, or a negative recursion depth.
    InvalidSampling,
}

#[derive(Debug, PartialEq)]
pub struct Camera {
    pub orientation: Ray,
    pub image_size: (usize, usize),
    pub pixel_topleft: Vec3f,
    pub pixel_delta: (Vec3f, Vec3f),
    pub defocus_delta: (Vec3f, Vec3f),
    pub samples: u32,
    pub sample_depth: i32,
    pub thread_count: u32,
    pub defocus_blur: i64,
}

/// The forward view direction, normalized.
pub open spec fn look_dir_spec(origin: (int, int, int), look_at: (int, int, int)) -> (
    int,
    int,
    int,
) {
    v_normalized(v_sub(look_at, origin))
}

/// The viewport basis: forward crossed with world up, then forward
/// crossed with that.
pub open spec fn viewport_x_spec(origin: (int, int, int), look_at: (int, int, int)) -> (
    int,
    int,
    int,
) {
    v_cross(look_dir_spec(origin, look_at), (0, SCALE as int, 0))
}

pub open spec fn viewport_y_spec(origin: (int, int, int), look_at: (int, int, int)) -> (
    int,
    int,
    int,
) {
    v_cross(look_dir_spec(origin, look_at), viewport_x_spec(origin, look_at))
}

/// Twice the tangent of the half field of view, scaled by the focus
/// distance: the viewport height at the focal plane.
pub open spec fn viewport_height_spec(tan_half_fov: int, focus_distance: int) -> int {
    2 * fx_mul_spec(tan_half_fov, focus_distance)
}

pub open spec fn viewport_width_spec(
    w: int,
    h: int,
    tan_half_fov: int,
    focus_distance: int,
) -> int {
    fx_mul_spec(viewport_height_spec(tan_half_fov, focus_distance), fx_div_spec(w * 65536, h * 65536))
}

/// The top-left pixel-grid anchor: one focus distance along the view
/// direction, offset back by half the viewport in both basis directions.
pub open spec fn pixel_topleft_spec(
    origin: (int, int, int),
    look_at: (int, int, int),
    w: int,
    h: int,
    tan_half_fov: int,
    focus_distance: int,
) -> (int, int, int) {
    let ld = look_dir_spec(origin, look_at);
    let vx = viewport_x_spec(origin, look_at);
    let vy = viewport_y_spec(origin, look_at);
    let vh = viewport_height_spec(tan_half_fov, focus_distance);
    let vw = viewport_width_spec(w, h, tan_half_fov, focus_distance);
    v_sub(
        v_sub(
            v_add(origin, v_scale(ld, focus_distance)),
            v_scale(v_scale(vy, HALF as int), vh),
        ),
        v_scale(v_scale(vx, HALF as int), vw),
    )
}

/// The per-pixel step along the horizontal viewport basis.
pub open spec fn pixel_delta_x_spec(
    origin: (int, int, int),
    look_at: (int, int, int),
    w: int,
    h: int,
    tan_half_fov: int,
    focus_distance: int,
) -> (int, int, int) {
    v_div(
        v_scale(
            viewport_x_spec(origin, look_at),
            viewport_width_spec(w, h, tan_half_fov, focus_distance),
        ),
        w * 65536,
    )
}

/// The per-pixel step along the vertical viewport basis.
pub open spec fn pixel_delta_y_spec(
    origin: (int, int, int),
    look_at: (int, int, int),
    h: int,
    tan_half_fov: int,
    focus_distance: int,
) -> (int, int, int) {
    v_div(
        v_scale(
            viewport_y_spec(origin, look_at),
            viewport_height_spec(tan_half_fov, focus_distance),
        ),
        h * 65536,
    )
}

/// The defocus-disk basis vectors: the viewport basis scaled by the
/// defocus radius.
pub open spec fn defocus_delta_x_spec(
    origin: (int, int, int),
    look_at: (int, int, int),
    tan_half_defocus: int,
    focus_distance: int,
) -> (int, int, int) {
    v_scale(viewport_x_spec(origin, look_at), fx_mul_spec(tan_half_defocus, focus_distance))
}

pub open spec fn defocus_delta_y_spec(
    origin: (int, int, int),
    look_at: (int, int, int),
    tan_half_defocus: int,
    focus_distance: int,
) -> (int, int, int) {
    v_scale(viewport_y_spec(origin, look_at), fx_mul_spec(tan_half_defocus, focus_distance))
}

/// The derived geometry fits the representable world: the pixel-grid
/// anchor, the full grid extents, and the defocus basis are all within
/// their caps.  Construction succeeds exactly on valid image sizes with
/// geometry satisfying this.
pub open spec fn camera_derived_ok(
    origin: (int, int, int),
    look_at: (int, int, int),
    w: int,
    h: int,
    tan_half_fov: int,
    tan_half_defocus: int,
    focus_distance: int,
) -> bool {
    &&& v_bounded(
        pixel_topleft_spec(origin, look_at, w, h, tan_half_fov, focus_distance),
        CAMERA_BOUND as int,
    )
    &&& v_bounded(
        v_scale(pixel_delta_x_spec(origin, look_at, w, h, tan_half_fov, focus_distance), w * 65536),
        CAMERA_BOUND as int,
    )
    &&& v_bounded(
        v_scale(pixel_delta_y_spec(origin, look_at, h, tan_half_fov, focus_distance), h * 65536),
        CAMERA_BOUND as int,
    )
    &&& v_bounded(
        defocus_delta_x_spec(origin, look_at, tan_half_defocus, focus_distance),
        DEFOCUS_BOUND as int,
    )
    &&& v_bounded(
        defocus_delta_y_spec(origin, look_at, tan_half_defocus, focus_distance),
        DEFOCUS_BOUND as int,
    )
}

/// A camera whose derived geometry keeps every primary ray inside the
/// world the intersection code can handle.
pub open spec fn camera_wf(c: Camera) -> bool {
    &&& 1 <= c.image_size.0 <= MAX_IMAGE_DIM
    &&& 1 <= c.image_size.1 <= MAX_IMAGE_DIM
    &&& v_bounded(c.orientation.origin@, WORLD_BOUND as int)
    &&& v_bounded(c.pixel_topleft@, CAMERA_BOUND as int)
    &&& v_bounded(
        v_scale(c.pixel_delta.0@, (c.image_size.0 as int) * 65536),
        CAMERA_BOUND as int,
    )
    &&& v_bounded(
        v_scale(c.pixel_delta.1@, (c.image_size.1 as int) * 65536),
        CAMERA_BOUND as int,
    )
    &&& v_bounded(c.defocus_delta.0@, DEFOCUS_BOUND as int)
    &&& v_bounded(c.defocus_delta.1@, DEFOCUS_BOUND as int)
    &&& 1 <= c.samples
    &&& 1 <= c.thread_count
}

/// The background a missed ray sees: white blended toward sky blue by
/// the clamped, normalized vertical direction component.
pub open spec fn sky_colour_spec(direction: (int, int, int)) -> (int, int, int) {
    let unit = v_normalized(direction);
    let a = crate::vec3::clamp_int(
        fx_mul_spec(unit.1 + SCALE, HALF as int),
        0,
        SCALE as int,
    );
    v_add(
        v_scale((SCALE as int, SCALE as int, SCALE as int), SCALE - a),
        v_scale((32768, 45875, SCALE as int), a),
    )
}

/// Gamma correction for display: the square root of a positive linear
/// value, zero otherwise.
pub open spec fn gamma_spec(v: int) -> int {
    if v > 0 {
        fx_sqrt_spec(v)
    } else {
        0
    }
}

/// The sum of a sequence of per-sample colour contributions, in order.
pub open spec fn layer_sum(ls: Seq<(int, int, int)>) -> (int, int, int)
    decreases ls.len(),
{
    if ls.len() == 0 {
        (0, 0, 0)
    } else {
        v_add(layer_sum(ls.drop_last()), ls.last())
    }
}

/// Per-worker totals summed across workers.
pub open spec fn groups_sum(gs: Seq<Seq<(int, int, int)>>) -> (int, int, int)
    decreases gs.len(),
{
    if gs.len() == 0 {
        (0, 0, 0)
    } else {
        v_add(groups_sum(gs.drop_last()), layer_sum(gs.last()))
    }
}

/// All workers' samples laid out serially, in worker order.
pub open spec fn concat_all(gs: Seq<Seq<(int, int, int)>>) -> Seq<(int, int, int)>
    decreases gs.len(),
{
    if gs.len() == 0 {
        Seq::empty()
    } else {
        concat_all(gs.drop_last()) + gs.last()
    }
}

/// The colour of one light path under a depth budget: the path is the
/// sequence of attenuations of its bounces followed by the colour found
/// at its end (the sky on a miss; black on absorption), and the budget
/// cuts the path to black when it has fewer levels than the path has
/// bounces.  This is the multiplicative structure `ray_colour` computes.
pub open spec fn path_colour(atten: Seq<(int, int, int)>, terminal: (int, int, int), depth: int) -> (
    int,
    int,
    int,
)
    decreases atten.len(),
{
    if depth <= 0 {
        (0, 0, 0)
    } else if atten.len() == 0 {
        terminal
    } else {
        v_mul(atten.first(), path_colour(atten.drop_first(), terminal, depth - 1))
    }
}

/// The colour a path ends on: black (absorption or an exhausted depth
/// budget) or the sky gradient of some representable direction.
pub open spec fn terminal_explained(t: (int, int, int)) -> bool {
    t == (0int, 0int, 0int) || exists|d: (int, int, int)|
        v_bounded(d, DIR_BOUND as int) && t == #[trigger] sky_colour_spec(d)
}

/// The colour is the path colour of some light path: `[0, 1]`
/// attenuations, one per bounce, ending on black or a sky gradient.
pub open spec fn pixel_explained(c: (int, int, int), depth: int) -> bool {
    exists|atten: Seq<(int, int, int)>, terminal: (int, int, int)|
        {
            &&& #[trigger] path_colour(atten, terminal, depth) == c
            &&& forall|i: int| 0 <= i < atten.len() ==> colour_01(#[trigger] atten[i])
            &&& colour_01(terminal)
            &&& terminal_explained(terminal)
        }
}

/// Scaling by a unit factor preserves order on nonnegative values.
proof fn lemma_fx_mul_unit_mono(c: int, x: int, y: int)
    requires
        0 <= c <= SCALE,
        0 <= x <= y,
    ensures
        fx_mul_spec(c, x) <= fx_mul_spec(c, y),
{
    assert(0 <= c * x <= c * y) by (nonlinear_arith)
        requires
            0 <= c <= SCALE,
            0 <= x <= y,
    ;
    lemma_div_pos_is_pos(c * x, SCALE as int);
    lemma_div_pos_is_pos(c * y, SCALE as int);
    lemma_div_is_ordered(c * x, c * y, SCALE as int);
}

/// Energy is conserved along a path: with every attenuation and the
/// terminal colour inside `[0, 1]`, the path's colour stays inside
/// `[0, 1]`, and deepening the depth budget can never darken it — each
/// bounce only attenuates, so a longer budget only ever replaces black
/// by a nonnegative colour.
pub proof fn lemma_depth_monotone(
    atten: Seq<(int, int, int)>,
    terminal: (int, int, int),
    d1: int,
    d2: int,
)
    requires
        d1 <= d2,
        forall|i: int| 0 <= i < atten.len() ==> colour_01(#[trigger] atten[i]),
        colour_01(terminal),
    ensures
        colour_01(path_colour(atten, terminal, d1)),
        colour_01(path_colour(atten, terminal, d2)),
        path_colour(atten, terminal, d1).0 <= path_colour(atten, terminal, d2).0,
        path_colour(atten, terminal, d1).1 <= path_colour(atten, terminal, d2).1,
        path_colour(atten, terminal, d1).2 <= path_colour(atten, terminal, d2).2,
    decreases atten.len(),
{
    if atten.len() == 0 || d2 <= 0 {
    } else {
        assert(colour_01(atten.first()));
        assert(forall|i: int|
            0 <= i < atten.drop_first().len() ==> colour_01(#[trigger] atten.drop_first()[i]));
        lemma_depth_monotone(atten.drop_first(), terminal, d1 - 1, d2 - 1);
        let r1 = path_colour(atten.drop_first(), terminal, d1 - 1);
        let r2 = path_colour(atten.drop_first(), terminal, d2 - 1);
        lemma_fx_mul_unit(atten.first().0, r2.0);
        lemma_fx_mul_unit(atten.first().1, r2.1);
        lemma_fx_mul_unit(atten.first().2, r2.2);
        lemma_fx_mul_unit(atten.first().0, r1.0);
        lemma_fx_mul_unit(atten.first().1, r1.1);
        lemma_fx_mul_unit(atten.first().2, r1.2);
        if d1 > 0 {
            lemma_fx_mul_unit_mono(atten.first().0, r1.0, r2.0);
            lemma_fx_mul_unit_mono(atten.first().1, r1.1, r2.1);
            lemma_fx_mul_unit_mono(atten.first().2, r1.2, r2.2);
        }
    }
}

/// Splitting a sample sequence anywhere and summing the parts separately
/// gives the same total as summing it whole.
pub proof fn lemma_sum_split(a: Seq<(int, int, int)>, b: Seq<(int, int, int)>)
    ensures
        layer_sum(a + b) == v_add(layer_sum(a), layer_sum(b)),
    decreases b.len(),
{
    if b.len() == 0 {
        assert(a + b =~= a);
    } else {
        lemma_sum_split(a, b.drop_last());
        assert((a + b).drop_last() =~= a + b.drop_last());
        assert((a + b).last() == b.last());
    }
}

/// Parallel-sum equivalence: summing each worker's samples and then the
/// worker totals equals summing all samples serially, exactly — integer
/// accumulation leaves nothing to rounding.
pub proof fn lemma_parallel_sum(gs: Seq<Seq<(int, int, int)>>)
    ensures
        groups_sum(gs) == layer_sum(concat_all(gs)),
    decreases gs.len(),
{
    if gs.len() == 0 {
        assert(concat_all(gs) =~= Seq::<(int, int, int)>::empty());
    } else {
        lemma_parallel_sum(gs.drop_last());
        lemma_sum_split(concat_all(gs.drop_last()), gs.last());
    }
}

impl Camera {
    /// Derive the viewport geometry from the eye, the look-at target, the
    /// tangent of half the vertical field of view, the tangent of half
    /// the defocus angle, and the focus distance.  Rejects empty or
    /// oversized images and geometry that leaves the representable world.
    #[verifier::rlimit(60)]
    pub fn new(
        image_size: (usize, usize),
        origin: Vec3f,
        look_at: Vec3f,
        tan_half_fov: i64,
        tan_half_defocus: i64,
        focus_distance: i64,
    ) -> (r: Result<Camera, CameraError>)
        requires
            v_bounded(origin@, WORLD_BOUND as int),
            v_bounded(look_at@, WORLD_BOUND as int),
            0 <= tan_half_fov <= 0x10_0000,
            0 <= tan_half_defocus <= SCALE,
            1 <= focus_distance <= WORLD_BOUND,
        ensures
            (r == Result::<Camera, CameraError>::Err(CameraError::EmptyImage)) <==> (
            image_size.0 == 0 || image_size.1 == 0),
            (r == Result::<Camera, CameraError>::Err(CameraError::ImageTooLarge)) <==> (
            image_size.0 >= 1 && image_size.1 >= 1 && (image_size.0 > MAX_IMAGE_DIM
                || image_size.1 > MAX_IMAGE_DIM)),
            (r == Result::<Camera, CameraError>::Err(CameraError::ViewportTooLarge)) <==> (1
                <= image_size.0 <= MAX_IMAGE_DIM && 1 <= image_size.1 <= MAX_IMAGE_DIM
                && !camera_derived_ok(
                origin@,
                look_at@,
                image_size.0 as int,
                image_size.1 as int,
                tan_half_fov as int,
                tan_half_defocus as int,
                focus_distance as int,
            )),
            r is Ok <==> (1 <= image_size.0 <= MAX_IMAGE_DIM && 1 <= image_size.1 <= MAX_IMAGE_DIM
                && camera_derived_ok(
                origin@,
                look_at@,
                image_size.0 as int,
                image_size.1 as int,
                tan_half_fov as int,
                tan_half_defocus as int,
                focus_distance as int,
            )),
            r is Ok ==> {
                let cam = r->Ok_0;
                let w = image_size.0 as int;
                let h = image_size.1 as int;
                &&& camera_wf(cam)
                &&& cam.image_size == image_size
                &&& cam.orientation.origin == origin
                &&& cam.orientation.direction@ == look_dir_spec(origin@, look_at@)
                &&& cam.pixel_topleft@ == pixel_topleft_spec(
                    origin@,
                    look_at@,
                    w,
                    h,
                    tan_half_fov as int,
                    focus_distance as int,
                )
                &&& cam.pixel_delta.0@ == pixel_delta_x_spec(
                    origin@,
                    look_at@,
                    w,
                    h,
                    tan_half_fov as int,
                    focus_distance as int,
                )
                &&& cam.pixel_delta.1@ == pixel_delta_y_spec(
                    origin@,
                    look_at@,
                    h,
                    tan_half_fov as int,
                    focus_distance as int,
                )
                &&& cam.defocus_delta.0@ == defocus_delta_x_spec(
                    origin@,
                    look_at@,
                    tan_half_defocus as int,
                    focus_distance as int,
                )
                &&& cam.defocus_delta.1@ == defocus_delta_y_spec(
                    origin@,
                    look_at@,
                    tan_half_defocus as int,
                    focus_distance as int,
                )
                &&& cam.samples == 10
                &&& cam.sample_depth == 20
                &&& cam.thread_count == 10
                &&& cam.defocus_blur == tan_half_defocus
            },
    {
        if image_size.0 == 0 || image_size.1 == 0 {
            return Err(CameraError::EmptyImage);
        }
        if image_size.0 > MAX_IMAGE_DIM || image_size.1 > MAX_IMAGE_DIM {
            return Err(CameraError::ImageTooLarge);
        }
        let w_fx: i64 = (image_size.0 as i64) * 65536;
        let h_fx: i64 = (image_size.1 as i64) * 65536;

        let look_offset = look_at.sub(&origin);
        let look_direction = look_offset.normalized();
        let look_up = Vec3f::new(0, SCALE, 0);

        let viewport_x = Vec3f::cross(&look_direction, &look_up);
        let viewport_y = Vec3f::cross(&look_direction, &viewport_x);
        proof {
            lemma_cross_bound(look_direction@, look_up@, UNIT_BOUND as int, SCALE as int);
            lemma_cross_bound(look_direction@, viewport_x@, UNIT_BOUND as int, 262144);
        }

        proof {
            lemma_fx_mul_bound(tan_half_fov as int, focus_distance as int, 0x10_0000, WORLD_BOUND as int);
        }
        let viewport_height: i64 = 2 * fx_mul(tan_half_fov, focus_distance);
        proof {
            lemma_fx_div_denom(w_fx as int, h_fx as int, 0x8000_0000, SCALE as int);
            lemma_fx_mul_bound(viewport_height as int, fx_div_spec(w_fx as int, h_fx as int), 0x2000_0000, 0x8000_0000);
        }
        let aspect = fx_div(w_fx, h_fx);
        let viewport_width = fx_mul(viewport_height, aspect);

        proof {
            lemma_fx_mul_bound(look_direction.x as int, focus_distance as int, UNIT_BOUND as int, WORLD_BOUND as int);
            lemma_fx_mul_bound(look_direction.y as int, focus_distance as int, UNIT_BOUND as int, WORLD_BOUND as int);
            lemma_fx_mul_bound(look_direction.z as int, focus_distance as int, UNIT_BOUND as int, WORLD_BOUND as int);
        }
        let forward_step = look_direction.scale(focus_distance);
        let eye_plane = origin.add(&forward_step);

        proof {
            lemma_scale_bound(viewport_y@, HALF as int, 1048576, SCALE as int);
            lemma_scale_bound(v_scale(viewport_y@, HALF as int), viewport_height as int, 1048576, 0x2000_0000);
            lemma_scale_bound(viewport_x@, HALF as int, 262144, SCALE as int);
            lemma_scale_bound(v_scale(viewport_x@, HALF as int), viewport_width as int, 262144, 0x1000_0000_0000);
        }
        let y_offset = viewport_y.scale(HALF).scale(viewport_height);
        let x_offset = viewport_x.scale(HALF).scale(viewport_width);
        let pixel_topleft = eye_plane.sub(&y_offset).sub(&x_offset);

        proof {
            lemma_scale_bound(viewport_x@, viewport_width as int, 262144, 0x1000_0000_0000);
            lemma_scale_bound(viewport_y@, viewport_height as int, 1048576, 0x2000_0000);
        }
        let sx = viewport_x.scale(viewport_width);
        let sy = viewport_y.scale(viewport_height);
        proof {
            lemma_div_vec_denom(sx@, w_fx as int, 0x4000_0000_0000, SCALE as int);
            lemma_div_vec_denom(sy@, h_fx as int, 0x4000_0000_0000, SCALE as int);
        }
        let pixel_delta_x = sx.div(w_fx);
        let pixel_delta_y = sy.div(h_fx);

        proof {
            lemma_fx_mul_bound(tan_half_defocus as int, focus_distance as int, SCALE as int, WORLD_BOUND as int);
        }
        let defocus_radius = fx_mul(tan_half_defocus, focus_distance);
        proof {
            lemma_scale_bound(viewport_x@, defocus_radius as int, 262144, WORLD_BOUND as int);
            lemma_scale_bound(viewport_y@, defocus_radius as int, 1048576, WORLD_BOUND as int);
        }
        let defocus_delta_x = viewport_x.scale(defocus_radius);
        let defocus_delta_y = viewport_y.scale(defocus_radius);

        proof {
            lemma_scale_bound(pixel_delta_x@, w_fx as int, 0x4000_0000_0000, 0x8000_0000);
            lemma_scale_bound(pixel_delta_y@, h_fx as int, 0x4000_0000_0000, 0x8000_0000);
        }
        let extent_x = pixel_delta_x.scale(w_fx);
        let extent_y = pixel_delta_y.scale(h_fx);

        proof {
            let w = image_size.0 as int;
            let h = image_size.1 as int;
            assert(pixel_topleft@ == pixel_topleft_spec(
                origin@,
                look_at@,
                w,
                h,
                tan_half_fov as int,
                focus_distance as int,
            ));
            assert(pixel_delta_x@ == pixel_delta_x_spec(
                origin@,
                look_at@,
                w,
                h,
                tan_half_fov as int,
                focus_distance as int,
            ));
            assert(pixel_delta_y@ == pixel_delta_y_spec(
                origin@,
                look_at@,
                h,
                tan_half_fov as int,
                focus_distance as int,
            ));
            assert(defocus_delta_x@ == defocus_delta_x_spec(
                origin@,
                look_at@,
                tan_half_defocus as int,
                focus_distance as int,
            ));
            assert(defocus_delta_y@ == defocus_delta_y_spec(
                origin@,
                look_at@,
                tan_half_defocus as int,
                focus_distance as int,
            ));
        }

        if !(pixel_topleft.bounded(CAMERA_BOUND) && extent_x.bounded(CAMERA_BOUND)
            && extent_y.bounded(CAMERA_BOUND) && defocus_delta_x.bounded(DEFOCUS_BOUND)
            && defocus_delta_y.bounded(DEFOCUS_BOUND)) {
            return Err(CameraError::ViewportTooLarge);
        }

        Ok(
            Camera {
                orientation: Ray::new(&origin, &look_direction),
                image_size,
                pixel_topleft,
                pixel_delta: (pixel_delta_x, pixel_delta_y),
                defocus_delta: (defocus_delta_x, defocus_delta_y),
                samples: 10,
                sample_depth: 20,
                thread_count: 10,
                defocus_blur: tan_half_defocus,
            },
        )
    }

    /// Configure the sampling surface: samples per worker, worker count
    /// and the recursion depth budget.  Zero counts would divide the
    /// accumulated image by zero, so they are rejected and the camera is
    /// left unchanged.
    pub fn configure_sampling(&mut self, samples: u32, thread_count: u32, sample_depth: i32) -> (r:
        Result<(), CameraError>)
        requires
            camera_wf(*old(self)),
        ensures
            r is Ok <==> (samples >= 1 && thread_count >= 1 && sample_depth >= 0),
            r is Err ==> r == Result::<(), CameraError>::Err(CameraError::InvalidSampling)
                && *final(self) == *old(self),
            r is Ok ==> {
                &&& camera_wf(*final(self))
                &&& final(self).samples == samples
                &&& final(self).thread_count == thread_count
                &&& final(self).sample_depth == sample_depth
                &&& final(self).orientation == old(self).orientation
                &&& final(self).image_size == old(self).image_size
                &&& final(self).pixel_topleft == old(self).pixel_topleft
                &&& final(self).pixel_delta == old(self).pixel_delta
                &&& final(self).defocus_delta == old(self).defocus_delta
                &&& final(self).defocus_blur == old(self).defocus_blur
            },
    {
        if samples < 1 || thread_count < 1 || sample_depth < 0 {
            return Err(CameraError::InvalidSampling);
        }
        self.samples = samples;
        self.thread_count = thread_count;
        self.sample_depth = sample_depth;
        Ok(())
    }

    /// A random unit-length direction within the hemisphere around
    /// `normal`: a random orientation, flipped when it points into the
    /// surface (an alternative diffuse model kept alongside the
    /// Lambertian one).
    pub fn random_on_hemisphere(normal: Vec3f) -> (r: Vec3f)
        requires
            v_bounded(normal@, UNIT_BOUND as int),
        ensures
            v_bounded(r@, UNIT_BOUND as int),
            v_bounded(r@, SCALE as int + 2),
            SCALE - 7 <= v_dot(r@, r@) <= SCALE + 8,
            v_dot(r@, normal@) >= 0,
    {
        let vector = Vec3f::random_orientation();
        proof {
            lemma_v_dot_bound(vector@, normal@, UNIT_BOUND as int, UNIT_BOUND as int);
            lemma_v_dot_neg(vector@, normal@);
            lemma_v_dot_neg_self(vector@);
        }
        let d = Vec3f::dot(&vector, &normal);
        if d >= 0 {
            vector
        } else {
            vector.neg()
        }
    }

    /// A random point offset within the defocus disk, or zero when the
    /// defocus angle is zero.  Draws are capped; if every draw falls
    /// outside the unit disk the eye itself is used.
    pub fn rand_defocus(&self) -> (r: Vec3f)
        requires
            camera_wf(*self),
        ensures
            v_bounded(r@, 2 * (DEFOCUS_BOUND as int)),
            self.defocus_blur <= 0 ==> r@ == (0int, 0int, 0int),
            exists|dx: int, dy: int|
                #![trigger v_scale(self.defocus_delta.0@, dx), v_scale(self.defocus_delta.1@, dy)]
                {
                    &&& abs_int(dx) <= SCALE
                    &&& abs_int(dy) <= SCALE
                    &&& fx_mul_spec(dx, dx) + fx_mul_spec(dy, dy) <= SCALE
                    &&& (r@ == v_add(
                        v_scale(self.defocus_delta.0@, dx),
                        v_scale(self.defocus_delta.1@, dy),
                    ) || r@ == (0int, 0int, 0int))
                },
    {
        proof {
            lemma_zero_draw_witness(self.defocus_delta.0@, self.defocus_delta.1@);
        }
        if self.defocus_blur <= 0 {
            return Vec3f::zero();
        }
        let mut tries: usize = 0;
        while tries < 64
            invariant
                camera_wf(*self),
                self.defocus_blur > 0,
                tries <= 64,
            decreases 64 - tries,
        {
            let dx = 2 * random_fraction() - SCALE;
            let dy = 2 * random_fraction() - SCALE;
            proof {
                lemma_fx_mul_bound(dx as int, dx as int, SCALE as int, SCALE as int);
                lemma_fx_mul_bound(dy as int, dy as int, SCALE as int, SCALE as int);
            }
            if fx_mul(dx, dx) + fx_mul(dy, dy) <= SCALE {
                proof {
                    lemma_scale_bound(self.defocus_delta.0@, dx as int, DEFOCUS_BOUND as int, SCALE as int);
                    lemma_scale_bound(self.defocus_delta.1@, dy as int, DEFOCUS_BOUND as int, SCALE as int);
                }
                let step_x = self.defocus_delta.0.scale(dx);
                let step_y = self.defocus_delta.1.scale(dy);
                proof {
                    assert(v_scale(self.defocus_delta.0@, dx as int) == step_x@);
                    assert(v_scale(self.defocus_delta.1@, dy as int) == step_y@);
                }
                return step_x.add(&step_y);
            }
            tries = tries + 1;
        }
        Vec3f::zero()
    }

    /// The jittered primary ray through pixel `(image_x, image_y)`: a
    /// box-filter jitter within the pixel, an origin on the defocus disk,
    /// and an unnormalized direction toward the pixel-grid point.
    pub fn get_ray(&self, image_x: usize, image_y: usize) -> (r: Ray)
        requires
            camera_wf(*self),
            image_x < self.image_size.0,
            image_y < self.image_size.1,
        ensures
            v_bounded(r.origin@, ORIGIN_BOUND as int),
            v_bounded(r.direction@, DIR_BOUND as int),
            exists|jx: int, jy: int, off: (int, int, int)|
                #![trigger
                    v_scale(self.pixel_delta.0@, (image_x as int) * 65536 + jx),
                    v_scale(self.pixel_delta.1@, (image_y as int) * 65536 + jy),
                    v_add(self.orientation.origin@, off)
                ]
                {
                    &&& -(HALF as int) <= jx < HALF as int
                    &&& -(HALF as int) <= jy < HALF as int
                    &&& v_bounded(off, 2 * (DEFOCUS_BOUND as int))
                    &&& (self.defocus_blur <= 0 ==> off == (0int, 0int, 0int))
                    &&& r.origin@ == v_add(self.orientation.origin@, off)
                    &&& r.direction@ == v_sub(
                        v_add(
                            v_add(
                                self.pixel_topleft@,
                                v_scale(self.pixel_delta.0@, (image_x as int) * 65536 + jx),
                            ),
                            v_scale(self.pixel_delta.1@, (image_y as int) * 65536 + jy),
                        ),
                        r.origin@,
                    )
                },
    {
        let jx = random_fraction() - HALF;
        let jy = random_fraction() - HALF;
        let xf: i64 = (image_x as i64) * 65536 + jx;
        let yf: i64 = (image_y as i64) * 65536 + jy;
        proof {
            lemma_jitter_scale(self.pixel_delta.0@, xf as int, (self.image_size.0 as int) * 65536, CAMERA_BOUND as int);
            lemma_jitter_scale(self.pixel_delta.1@, yf as int, (self.image_size.1 as int) * 65536, CAMERA_BOUND as int);
        }
        let step_x = self.pixel_delta.0.scale(xf);
        let step_y = self.pixel_delta.1.scale(yf);

        let offset = self.rand_defocus();
        let origin = self.orientation.origin.add(&offset);

        let grid = self.pixel_topleft.add(&step_x).add(&step_y);
        let direction = grid.sub(&origin);
        proof {
            assert(step_x@ == v_scale(self.pixel_delta.0@, (image_x as int) * 65536 + (jx as int)));
            assert(step_y@ == v_scale(self.pixel_delta.1@, (image_y as int) * 65536 + (jy as int)));
            assert(origin@ == v_add(self.orientation.origin@, offset@));
            assert(direction@ == v_sub(v_add(v_add(self.pixel_topleft@, step_x@), step_y@), origin@));
        }
        Ray::new(&origin, &direction)
    }

    /// The colour carried back along a ray: black once the depth budget
    /// is exhausted, the sky gradient on a miss, and otherwise the
    /// scattered colour attenuated by the material — so with a
    /// well-formed scene every channel stays within `[0, 1]`: a bounce
    /// can only attenuate, never amplify.
    pub fn ray_colour(&self, ray: &Ray, world: &HittableArray, depth: i32) -> (c: Colour)
        requires
            world.wf(),
            v_bounded(ray.origin@, ORIGIN_BOUND as int),
            v_bounded(ray.direction@, DIR_BOUND as int),
        ensures
            depth <= 0 ==> c@ == (0int, 0int, 0int),
            colour_01(c@),
            depth > 0 && array_hit_spec(
                world.array@,
                *ray,
                (Interval { min: crate::ray::T_EPS, max: crate::ray::T_MAX }),
            ) is None ==> c@ == sky_colour_spec(ray.direction@),
            pixel_explained(c@, depth as int),
            depth > 0 && array_hit_spec(
                world.array@,
                *ray,
                (Interval { min: crate::ray::T_EPS, max: crate::ray::T_MAX }),
            ) is Some ==> (c@ == (0int, 0int, 0int) || exists|
                atten: Seq<(int, int, int)>,
                terminal: (int, int, int),
            |
                {
                    &&& #[trigger] path_colour(atten, terminal, depth as int) == c@
                    &&& atten.len() > 0
                    &&& atten.first() == world.array@[opt_idx(
                        array_hit_spec(
                            world.array@,
                            *ray,
                            (Interval { min: crate::ray::T_EPS, max: crate::ray::T_MAX }),
                        ),
                    )].material.attenuation_spec()
                    &&& forall|i: int| 0 <= i < atten.len() ==> colour_01(#[trigger] atten[i])
                    &&& colour_01(terminal)
                    &&& terminal_explained(terminal)
                }),
        decreases depth,
    {
        if depth <= 0 {
            let black = Vec3f::zero();
            proof {
                assert(path_colour(Seq::<(int, int, int)>::empty(), (0int, 0int, 0int), depth as int)
                    == black@);
                assert(terminal_explained((0int, 0int, 0int)));
            }
            return black;
        }
        let forward = Interval::forward();
        let hit_result = world.hit(ray, &forward);
        match hit_result {
            None => {
                let unit = ray.direction.normalized();
                proof {
                    lemma_fx_mul_bound(unit.y as int + SCALE as int, HALF as int, 3 * (SCALE as int), HALF as int);
                }
                let a_raw = fx_mul(unit.y + SCALE, HALF);
                let span = Interval::new(0, SCALE);
                let a = span.clamp(a_raw);
                let white = Vec3f::new(SCALE, SCALE, SCALE);
                let blue = Vec3f::new(32768, 45875, SCALE);
                proof {
                    lemma_fx_mul_unit(SCALE as int, (SCALE - a) as int);
                    lemma_fx_mul_unit(32768, a as int);
                    lemma_fx_mul_unit(45875, a as int);
                    lemma_fx_mul_unit(SCALE as int, a as int);
                }
                let base = white.scale(SCALE - a);
                let tint = blue.scale(a);
                let sky = base.add(&tint);
                proof {
                    assert(path_colour(Seq::<(int, int, int)>::empty(), sky@, depth as int)
                        == sky@);
                    assert(sky@ == sky_colour_spec(ray.direction@));
                    assert(terminal_explained(sky@));
                }
                sky
            },
            Some(result) => {
                proof {
                    let win = array_hit_spec(world.array@, *ray, forward);
                    assert(world.array@[opt_idx(win)].material.wf());
                }
                let scatter_result = result.material.scatter(ray, &result);
                if scatter_result.scattered {
                    let rec = self.ray_colour(&scatter_result.ray, world, depth - 1);
                    proof {
                        lemma_fx_mul_unit(scatter_result.attenuation.x as int, rec.x as int);
                        lemma_fx_mul_unit(scatter_result.attenuation.y as int, rec.y as int);
                        lemma_fx_mul_unit(scatter_result.attenuation.z as int, rec.z as int);
                    }
                    let shaded = scatter_result.attenuation.mul(&rec);
                    proof {
                        let (tail, terminal): (Seq<(int, int, int)>, (int, int, int)) = choose|
                            tail: Seq<(int, int, int)>,
                            terminal: (int, int, int),
                        |
                            {
                                &&& #[trigger] path_colour(tail, terminal, depth as int - 1)
                                    == rec@
                                &&& forall|i: int|
                                    0 <= i < tail.len() ==> colour_01(#[trigger] tail[i])
                                &&& colour_01(terminal)
                                &&& terminal_explained(terminal)
                            };
                        let atten = seq![scatter_result.attenuation@] + tail;
                        assert(atten.first() == scatter_result.attenuation@);
                        assert(atten.drop_first() =~= tail);
                        assert(path_colour(atten, terminal, depth as int) == shaded@);
                        assert(forall|i: int|
                            0 <= i < atten.len() ==> colour_01(#[trigger] atten[i]));
                        let win = array_hit_spec(world.array@, *ray, forward);
                        assert(atten.first() == world.array@[opt_idx(
                            win,
                        )].material.attenuation_spec());
                        assert(atten.len() > 0);
                    }
                    shaded
                } else {
                    let black = Vec3f::zero();
                    proof {
                        assert(path_colour(
                            Seq::<(int, int, int)>::empty(),
                            (0int, 0int, 0int),
                            depth as int,
                        ) == black@);
                        assert(terminal_explained((0int, 0int, 0int)));
                    }
                    black
                }
            },
        }
    }

    /// Gamma correction of one channel for display.
    pub fn linear_to_gamma(value: i64) -> (r: i64)
        ensures
            r as int == gamma_spec(value as int),
    {
        if value > 0 {
            return fx_sqrt(value);
        }
        0
    }

    /// One pixel as display text: each channel gamma-corrected, scaled by
    /// 255 and truncated.
    pub fn to_colour(colour: Colour) -> (s: String)
        ensures
            s@ == triple_text(
                channel_byte(gamma_spec(colour.x as int)),
                channel_byte(gamma_spec(colour.y as int)),
                channel_byte(gamma_spec(colour.z as int)),
            ),
    {
        let r = Camera::linear_to_gamma(colour.x());
        let g = Camera::linear_to_gamma(colour.y());
        let b = Camera::linear_to_gamma(colour.z());
        proof {
            lemma_gamma_small(colour.x as int);
            lemma_gamma_small(colour.y as int);
            lemma_gamma_small(colour.z as int);
        }
        let rgb = Vec3f::new(r, g, b);
        rgb.to_colour_string()
    }

    /// One full-frame pass: a jittered primary ray per pixel, evaluated
    /// to the configured depth, in row-major order from the top left.
    pub fn render_iteration(&self, world: &HittableArray) -> (image: Vec<Colour>)
        requires
            camera_wf(*self),
            world.wf(),
        ensures
            image@.len() == (self.image_size.0 as int) * (self.image_size.1 as int),
            forall|i: int| 0 <= i < image@.len() ==> colour_01(#[trigger] image@[i]@),
            forall|i: int|
                0 <= i < image@.len() ==> pixel_explained(
                    (#[trigger] image@[i])@,
                    self.sample_depth as int,
                ),
    {
        let w = self.image_size.0;
        let h = self.image_size.1;
        let mut image: Vec<Colour> = Vec::new();
        let mut image_y: usize = 0;
        while image_y < h
            invariant
                camera_wf(*self),
                world.wf(),
                w == self.image_size.0,
                h == self.image_size.1,
                image_y <= h,
                image@.len() == (image_y as int) * (w as int),
                forall|i: int| 0 <= i < image@.len() ==> colour_01(#[trigger] image@[i]@),
                forall|i: int|
                    0 <= i < image@.len() ==> pixel_explained(
                        (#[trigger] image@[i])@,
                        self.sample_depth as int,
                    ),
            decreases h - image_y,
        {
            let mut image_x: usize = 0;
            while image_x < w
                invariant
                    camera_wf(*self),
                    world.wf(),
                    w == self.image_size.0,
                    h == self.image_size.1,
                    image_y < h,
                    image_x <= w,
                    image@.len() == (image_y as int) * (w as int) + image_x as int,
                    forall|i: int| 0 <= i < image@.len() ==> colour_01(#[trigger] image@[i]@),
                    forall|i: int|
                        0 <= i < image@.len() ==> pixel_explained(
                            (#[trigger] image@[i])@,
                            self.sample_depth as int,
                        ),
                decreases w - image_x,
            {
                let ray = self.get_ray(image_x, image_y);
                let colour = self.ray_colour(&ray, world, self.sample_depth);
                image.push(colour);
                image_x = image_x + 1;
            }
            proof {
                assert(((image_y as int) + 1) * (w as int) == (image_y as int) * (w as int) + (
                w as int)) by (nonlinear_arith);
            }
            image_y = image_y + 1;
        }
        proof {
            assert((h as int) * (w as int) == (w as int) * (h as int)) by (nonlinear_arith);
        }
        image
    }
}

/// Add one pass's layer into an accumulator, pixel by pixel.
pub fn add_images(acc: &mut Vec<Colour>, layer: &Vec<Colour>)
    requires
        old(acc)@.len() == layer@.len(),
        forall|i: int|
            0 <= i < layer@.len() ==> fx_fits((#[trigger] old(acc)@[i]).x + layer@[i].x) && fx_fits(
                old(acc)@[i].y + layer@[i].y,
            ) && fx_fits(old(acc)@[i].z + layer@[i].z),
    ensures
        final(acc)@.len() == old(acc)@.len(),
        forall|i: int|
            0 <= i < layer@.len() ==> (#[trigger] final(acc)@[i])@ == v_add(
                old(acc)@[i]@,
                layer@[i]@,
            ),
{
    let n = acc.len();
    let mut i: usize = 0;
    while i < n
        invariant
            n == acc@.len() == layer@.len(),
            i <= n,
            forall|j: int|
                0 <= j < n ==> fx_fits((#[trigger] old(acc)@[j]).x + layer@[j].x) && fx_fits(
                    old(acc)@[j].y + layer@[j].y,
                ) && fx_fits(old(acc)@[j].z + layer@[j].z),
            forall|j: int| 0 <= j < i ==> (#[trigger] acc@[j])@ == v_add(old(acc)@[j]@, layer@[j]@),
            forall|j: int| i <= j < n ==> #[trigger] acc@[j] == old(acc)@[j],
        decreases n - i,
    {
        let merged = acc[i].add(&layer[i]);
        acc.set(i, merged);
        i = i + 1;
    }
}

/// Truncating division of a channel by a positive whole sample count.
fn div_whole(c: i64, n: i64) -> (r: i64)
    requires
        n >= 1,
        fx_fits(c as int),
    ensures
        r as int == div_tz(c as int, n as int),
{
    let neg: bool = c < 0;
    let m: u64 = if c >= 0 {
        c as u64
    } else {
        ((-(c as i128)) as u64)
    };
    let q: u64 = m / (n as u64);
    proof {
        assert(q == abs_int(c as int) / (n as int));
        lemma_div_pos_is_pos(abs_int(c as int), n as int);
        lemma_div_is_ordered(abs_int(c as int), 0x7fff_ffff_ffff_ffff, n as int);
        vstd::arithmetic::div_mod::lemma_div_is_ordered_by_denominator(
            0x7fff_ffff_ffff_ffff,
            1,
            n as int,
        );
    }
    if neg {
        -(q as i64)
    } else {
        q as i64
    }
}

/// Scale an accumulated image by `1 / count`: the per-pixel average over
/// all samples.
pub fn average_image(image: &Vec<Colour>, count: i64) -> (r: Vec<Colour>)
    requires
        count >= 1,
        forall|i: int|
            0 <= i < image@.len() ==> fx_fits((#[trigger] image@[i]).x as int) && fx_fits(
                image@[i].y as int,
            ) && fx_fits(image@[i].z as int),
    ensures
        r@.len() == image@.len(),
        forall|i: int|
            0 <= i < image@.len() ==> (#[trigger] r@[i])@ == (
                div_tz(image@[i].x as int, count as int),
                div_tz(image@[i].y as int, count as int),
                div_tz(image@[i].z as int, count as int),
            ),
{
    let n = image.len();
    let mut out: Vec<Colour> = Vec::new();
    let mut i: usize = 0;
    while i < n
        invariant
            n == image@.len(),
            i <= n,
            count >= 1,
            forall|j: int|
                0 <= j < n ==> fx_fits((#[trigger] image@[j]).x as int) && fx_fits(
                    image@[j].y as int,
                ) && fx_fits(image@[j].z as int),
            out@.len() == i,
            forall|j: int|
                0 <= j < i ==> (#[trigger] out@[j])@ == (
                    div_tz(image@[j].x as int, count as int),
                    div_tz(image@[j].y as int, count as int),
                    div_tz(image@[j].z as int, count as int),
                ),
        decreases n - i,
    {
        let px = image[i];
        let scaled = Vec3f::new(div_whole(px.x, count), div_whole(px.y, count), div_whole(px.z, count));
        out.push(scaled);
        i = i + 1;
    }
    out
}

/// A gamma-corrected channel of a bounded value stays small enough to
/// display.
proof fn lemma_gamma_small(v: int)
    requires
        v <= 0x7fff_ffff_ffff_ffff,
    ensures
        0 <= gamma_spec(v) <= 0x100_0000_0000,
{
    if v > 0 {
        crate::fixed::lemma_sqrt_tz(v * SCALE);
        let r = fx_sqrt_spec(v);
        assert(r <= 0x100_0000_0000) by (nonlinear_arith)
            requires
                r >= 0,
                r * r <= v * (SCALE as int),
                v <= 0x7fff_ffff_ffff_ffff,
    ;
    }
}

/// The zero draw `(0, 0)` lies inside the unit disk and maps to the
/// zero offset: the witness behind every zero defocus result.
proof fn lemma_zero_draw_witness(d0: (int, int, int), d1: (int, int, int))
    ensures
        v_scale(d0, 0) == (0int, 0int, 0int),
        v_scale(d1, 0) == (0int, 0int, 0int),
        fx_mul_spec(0, 0) == 0,
        v_add((0int, 0int, 0int), (0int, 0int, 0int)) == (0int, 0int, 0int),
{
    assert(d0.0 * 0 == 0 && d0.1 * 0 == 0 && d0.2 * 0 == 0) by (nonlinear_arith);
    assert(d1.0 * 0 == 0 && d1.1 * 0 == 0 && d1.2 * 0 == 0) by (nonlinear_arith);
}

/// Negating a vector keeps its squared length.
proof fn lemma_v_dot_neg_self(a: (int, int, int))
    ensures
        v_dot(crate::vec3::v_neg(a), crate::vec3::v_neg(a)) == v_dot(a, a),
{
    assert((-a.0) * (-a.0) + (-a.1) * (-a.1) + (-a.2) * (-a.2) == a.0 * a.0 + a.1 * a.1 + a.2
        * a.2) by (nonlinear_arith);
}

/// Negating one side negates a dot product.
proof fn lemma_v_dot_neg(a: (int, int, int), b: (int, int, int))
    ensures
        v_dot(crate::vec3::v_neg(a), b) == -v_dot(a, b),
{
    assert((-a.0) * b.0 + (-a.1) * b.1 + (-a.2) * b.2 == -(a.0 * b.0 + a.1 * b.1 + a.2 * b.2))
        by (nonlinear_arith);
}

/// Componentwise bound for a cross product of bounded vectors.
proof fn lemma_cross_bound(a: (int, int, int), b: (int, int, int), ba: int, bb: int)
    requires
        v_bounded(a, ba),
        v_bounded(b, bb),
        0 <= ba,
        0 <= bb,
    ensures
        v_bounded(v_cross(a, b), 2 * ((ba * bb) / (SCALE as int))),
{
    lemma_fx_mul_bound(a.1, b.2, ba, bb);
    lemma_fx_mul_bound(a.2, b.1, ba, bb);
    lemma_fx_mul_bound(a.2, b.0, ba, bb);
    lemma_fx_mul_bound(a.0, b.2, ba, bb);
    lemma_fx_mul_bound(a.0, b.1, ba, bb);
    lemma_fx_mul_bound(a.1, b.0, ba, bb);
}

/// Componentwise bound for scaling a bounded vector.
proof fn lemma_scale_bound(a: (int, int, int), s: int, ba: int, bs: int)
    requires
        v_bounded(a, ba),
        abs_int(s) <= bs,
    ensures
        v_bounded(v_scale(a, s), (ba * bs) / (SCALE as int)),
{
    lemma_fx_mul_bound(a.0, s, ba, bs);
    lemma_fx_mul_bound(a.1, s, ba, bs);
    lemma_fx_mul_bound(a.2, s, ba, bs);
}

/// Componentwise bound for dividing a bounded vector by a scalar whose
/// magnitude is at least `lb`.
proof fn lemma_div_vec_denom(a: (int, int, int), s: int, ba: int, lb: int)
    requires
        1 <= lb <= abs_int(s),
        ba >= 0,
        v_bounded(a, ba),
    ensures
        v_bounded(v_div(a, s), (ba * (SCALE as int)) / lb),
{
    lemma_fx_div_denom(a.0, s, ba, lb);
    lemma_fx_div_denom(a.1, s, ba, lb);
    lemma_fx_div_denom(a.2, s, ba, lb);
}

/// Stepping along the pixel grid never leaves the guarded extent: the
/// jittered coordinate is at most the full width, so the step is at most
/// the full extent.
proof fn lemma_jitter_scale(d: (int, int, int), xf: int, wf: int, cap: int)
    requires
        abs_int(xf) <= wf,
        v_bounded(v_scale(d, wf), cap),
        0 <= cap,
    ensures
        v_bounded(v_scale(d, xf), cap),
{
    lemma_fx_mul_mono(d.0, xf, wf);
    lemma_fx_mul_mono(d.1, xf, wf);
    lemma_fx_mul_mono(d.2, xf, wf);
}

} // verus!