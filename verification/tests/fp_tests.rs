//! Scalar fixed-point arithmetic, vectors and boxes.

use raytrace::fp::{fp_mul, fp_div, fp_sqrt, fp_sin, isqrt_u128, floor_divrem, FP_ONE, PI_FP};
use raytrace::vec3::Vec3;
use raytrace::aabb::{AABB, surrounding_box};
use raytrace::ray::Ray;

const S: i64 = 65536;

#[test]
fn fixed_point_products_round_toward_zero() {
    assert_eq!(fp_mul(S, S), S);
    assert_eq!(fp_mul(2 * S, 3 * S), 6 * S);
    assert_eq!(fp_mul(-2 * S, 3 * S), -6 * S);
    assert_eq!(fp_mul(S / 2, S / 2), S / 4);
    // 3/2 * 3/2 = 9/4, truncated in the last bit when odd
    assert_eq!(fp_mul(3, 3), 0);
    assert_eq!(fp_mul(-3, 3), 0);
}

#[test]
fn fixed_point_quotients() {
    assert_eq!(fp_div(S, 2 * S), S / 2);
    assert_eq!(fp_div(-S, 2 * S), -S / 2);
    assert_eq!(fp_div(6 * S, 3 * S), 2 * S);
    assert_eq!(fp_div(1, S), 1);
}

#[test]
fn integer_square_roots() {
    assert_eq!(isqrt_u128(0), 0);
    assert_eq!(isqrt_u128(1), 1);
    assert_eq!(isqrt_u128(3), 1);
    assert_eq!(isqrt_u128(4), 2);
    assert_eq!(isqrt_u128(1 << 32), 65536);
    assert_eq!(fp_sqrt(S), S);
    assert_eq!(fp_sqrt(4 * S), 2 * S);
    assert_eq!(fp_sqrt(S / 4), S / 2);
}

#[test]
fn floor_division_is_euclidean() {
    assert_eq!(floor_divrem(5, 2), (2, 1));
    assert_eq!(floor_divrem(-5, 2), (-3, 1));
    assert_eq!(floor_divrem(-4, 2), (-2, 0));
    assert_eq!(floor_divrem(-1, 65536), (-1, 65535));
}

#[test]
fn sine_half_wave() {
    assert_eq!(fp_sin(0), 0);
    assert_eq!(fp_sin(PI_FP), 0);
    // the peak of the half wave is one unit, within rounding
    assert_eq!(fp_sin(PI_FP / 2), 65535);
    // the second half wave is the mirror image
    assert_eq!(fp_sin(PI_FP / 2 + PI_FP), -65535);
    // one checker-grid argument, reduced modulo a turn
    assert_eq!(fp_sin(655360), -35632);
    // bounded everywhere
    for k in -20i64..20 {
        let v = fp_sin(k * 10000);
        assert!(-S <= v && v <= S);
    }
}

#[test]
fn vector_algebra() {
    let a = Vec3::new(S, 2 * S, 3 * S);
    let b = Vec3::new(4 * S, 5 * S, 6 * S);
    assert_eq!(a.add(&b), Vec3::new(5 * S, 7 * S, 9 * S));
    assert_eq!(b.sub(&a), Vec3::new(3 * S, 3 * S, 3 * S));
    assert_eq!(a.scale(2 * S), Vec3::new(2 * S, 4 * S, 6 * S));
    assert_eq!(a.cmul(&b), Vec3::new(4 * S, 10 * S, 18 * S));
    assert_eq!(a.dot(&b), 32 * S);
    // (1,0,0) x (0,1,0) = (0,0,1)
    let x = Vec3::new(S, 0, 0);
    let y = Vec3::new(0, S, 0);
    assert_eq!(x.cross(&y), Vec3::new(0, 0, S));
    assert_eq!(a.squared_len(), 14 * S);
    // |(3,4,0)| = 5
    let v = Vec3::new(3 * S, 4 * S, 0);
    assert_eq!(v.length(), 5 * S);
    assert_eq!(v.unit_vector(), Vec3::new(3 * S / 5, 4 * S / 5, 0));
    assert_eq!(Vec3::zero().unit_vector(), Vec3::zero());
}

#[test]
fn box_corners_are_normalized() {
    let a = AABB::new(Vec3::new(S, -S, 2 * S), Vec3::new(-S, S, 0));
    assert_eq!(a.min(), Vec3::new(-S, -S, 0));
    assert_eq!(a.max(), Vec3::new(S, S, 2 * S));
}

#[test]
fn box_hit_symmetric_under_corner_swap() {
    // the invariant is restored at construction, so the slab test gives
    // the same answer whichever way the corners were handed in
    let c1 = Vec3::new(-S, -S, -S);
    let c2 = Vec3::new(S, S, S);
    let fwd = AABB::new(c1, c2);
    let rev = AABB::new(c2, c1);
    let rays = [
        Ray::new(&Vec3::new(0, 0, -4 * S), &Vec3::new(0, 0, S), 0),
        Ray::new(&Vec3::new(0, 4 * S, 0), &Vec3::new(0, -S, 0), 0),
        Ray::new(&Vec3::new(4 * S, 4 * S, 0), &Vec3::new(0, -S, 0), 0),
        Ray::new(&Vec3::new(0, 0, -4 * S), &Vec3::new(0, S, 0), 0),
    ];
    for r in rays.iter() {
        assert_eq!(fwd.hit(r, 66, 1 << 30), rev.hit(r, 66, 1 << 30));
    }
    assert!(fwd.hit(&rays[0], 66, 1 << 30));
    assert!(!fwd.hit(&rays[2], 66, 1 << 30));
}

#[test]
fn surrounding_box_contains_both() {
    let a = AABB::new(Vec3::new(0, 0, 0), Vec3::new(S, S, S));
    let b = AABB::new(Vec3::new(-S, 2 * S, 0), Vec3::new(0, 3 * S, S));
    let u = surrounding_box(a, b);
    assert_eq!(u.min(), Vec3::new(-S, 0, 0));
    assert_eq!(u.max(), Vec3::new(S, 3 * S, S));
}
