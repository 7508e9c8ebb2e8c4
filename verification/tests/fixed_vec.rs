use raytrace::fixed::{fx_div, fx_mul, fx_sqrt, isqrt_u128, SCALE};
use raytrace::ray::Interval;
use raytrace::vec3::Vec3f;

const S: i64 = SCALE;

#[test]
fn fixed_multiplication_is_exact() {
    assert_eq!(fx_mul(3 * S, 2 * S), 6 * S);
    assert_eq!(fx_mul(S / 2, S / 2), S / 4);
    assert_eq!(fx_mul(-3 * S / 2, S / 2), -3 * S / 4);
    assert_eq!(fx_mul(0, 12345), 0);
    // truncation is toward zero on both sides
    assert_eq!(fx_mul(1, 1), 0);
    assert_eq!(fx_mul(-1, 1), 0);
}

#[test]
fn fixed_division_is_exact() {
    assert_eq!(fx_div(S, 2 * S), S / 2);
    assert_eq!(fx_div(-S, 2 * S), -S / 2);
    assert_eq!(fx_div(3 * S, -2 * S), -3 * S / 2);
    assert_eq!(fx_div(1, S), 1);
}

#[test]
fn fixed_square_root_values() {
    assert_eq!(fx_sqrt(0), 0);
    assert_eq!(fx_sqrt(S), S);
    assert_eq!(fx_sqrt(4 * S), 2 * S);
    assert_eq!(fx_sqrt(S / 4), S / 2);
    // sqrt(2) rounds down to 92681/65536
    assert_eq!(fx_sqrt(2 * S), 92681);
}

#[test]
fn integer_square_root_characterization() {
    for n in [0u128, 1, 2, 3, 4, 15, 16, 17, 65535, 65536, 1 << 40] {
        let r = isqrt_u128(n);
        assert!(r * r <= n);
        assert!((r + 1) * (r + 1) > n);
    }
}

#[test]
fn vector_arithmetic_is_componentwise() {
    let a = Vec3f::new(S, 2 * S, -3 * S);
    let b = Vec3f::new(4 * S, -5 * S, 6 * S);
    let sum = a.add(&b);
    assert_eq!((sum.x, sum.y, sum.z), (5 * S, -3 * S, 3 * S));
    let diff = a.sub(&b);
    assert_eq!((diff.x, diff.y, diff.z), (-3 * S, 7 * S, -9 * S));
    let neg = a.neg();
    assert_eq!((neg.x, neg.y, neg.z), (-S, -2 * S, 3 * S));
    let scaled = a.scale(S / 2);
    assert_eq!((scaled.x, scaled.y, scaled.z), (S / 2, S, -3 * S / 2));
    let had = a.mul(&b);
    assert_eq!((had.x, had.y, had.z), (4 * S, -10 * S, -18 * S));
    let div = a.div(2 * S);
    assert_eq!((div.x, div.y, div.z), (S / 2, S, -3 * S / 2));
}

#[test]
fn dot_cross_and_length() {
    let a = Vec3f::new(S, 0, 0);
    let b = Vec3f::new(0, S, 0);
    assert_eq!(Vec3f::dot(&a, &b), 0);
    assert_eq!(Vec3f::dot(&a, &a), S);
    let c = Vec3f::cross(&a, &b);
    assert_eq!((c.x, c.y, c.z), (0, 0, S));
    let v = Vec3f::new(3 * S, 4 * S, 0);
    assert_eq!(v.length_squared(), 25 * S);
    assert_eq!(v.length(), 5 * S);
    let u = v.normalized();
    assert_eq!((u.x, u.y, u.z), (3 * S / 5, 4 * S / 5, 0));
}

#[test]
fn reflect_mirrors_about_the_normal() {
    let d = Vec3f::new(S, -S, 0);
    let n = Vec3f::new(0, S, 0);
    let r = d.reflect(&n);
    assert_eq!((r.x, r.y, r.z), (S, S, 0));
}

#[test]
fn nearly_zero_uses_the_resolution() {
    assert!(Vec3f::new(1, 0, -1).is_nearly_zero());
    assert!(!Vec3f::new(2, 0, 0).is_nearly_zero());
}

#[test]
fn random_vectors_stay_in_their_ranges() {
    for _ in 0..32 {
        let v = Vec3f::random(-S, S);
        assert!(-S <= v.x && v.x < S);
        assert!(-S <= v.y && v.y < S);
        assert!(-S <= v.z && v.z < S);
    }
}

#[test]
fn random_orientations_are_nearly_unit() {
    for _ in 0..32 {
        let u = Vec3f::random_orientation();
        assert!(u.x.abs() <= S + 2 && u.y.abs() <= S + 2 && u.z.abs() <= S + 2);
        let ls = u.length_squared();
        assert!(S - 7 <= ls && ls <= S + 8);
    }
}

#[test]
fn interval_semantics_are_inclusive_and_strict() {
    let i = Interval::new(0, 10);
    assert!(i.contains(0) && i.contains(10) && i.contains(5));
    assert!(!i.contains(-1) && !i.contains(11));
    assert!(!i.surrounds(0) && !i.surrounds(10));
    assert!(i.surrounds(1) && i.surrounds(9));
    assert_eq!(i.size(), 10);
    assert_eq!(i.clamp(-5), 0);
    assert_eq!(i.clamp(15), 10);
    assert_eq!(i.clamp(7), 7);
}

#[test]
fn forward_interval_excludes_zero() {
    // the forward range stands in for [epsilon, infinity): zero is out,
    // a small positive parameter is in
    let i = Interval::new(0, raytrace::ray::T_MAX);
    assert!(!i.surrounds(0));
    assert!(i.surrounds(7));
    let f = Interval::forward();
    assert!(!f.surrounds(0));
    assert!(f.surrounds(17));
}

#[test]
fn colour_strings_render_in_decimal() {
    let c = Vec3f::new(S / 2, S, 0);
    assert_eq!(c.to_colour_string(), "127 255 0");
    let d = Vec3f::new(-S / 2, 3 * S, 1);
    assert_eq!(d.to_colour_string(), "-127 765 0");
}
