//! Primitive intersections, the list scan and the hierarchy.

use raytrace::vec3::Vec3;
use raytrace::ray::Ray;
use raytrace::hitable::{Sphere, MovingSphere, XYRect, Object, HitableList};
use raytrace::bvh::BVHNode;
use raytrace::rng::Rng;

const S: i64 = 65536;
const EPS: i64 = 66;
const FAR: i64 = 1 << 30;

#[test]
fn sphere_hit_takes_the_near_root() {
    let sp = Sphere::new(Vec3::new(0, 0, 0), S, 0);
    let r = Ray::new(&Vec3::new(0, 0, -2 * S), &Vec3::new(0, 0, S), 0);
    let rec = sp.hit(&r, EPS, FAR).unwrap();
    assert_eq!(rec.t, S);
    assert_eq!(rec.p, Vec3::new(0, 0, -S));
    assert_eq!(rec.normal, Vec3::new(0, 0, -S));
    assert_eq!(rec.mat, 0);
    // the hit parameter lies strictly inside the queried interval
    assert!(EPS < rec.t && rec.t < FAR);
    // the hit point lies on the surface: |p - c|^2 equals r^2 exactly here
    let d = rec.p.sub(&sp.center);
    assert_eq!(d.squared_len(), S);
}

#[test]
fn sphere_miss_and_range_rejection() {
    let sp = Sphere::new(Vec3::new(0, 0, 0), S, 0);
    let miss = Ray::new(&Vec3::new(0, 4 * S, -2 * S), &Vec3::new(0, 0, S), 0);
    assert!(sp.hit(&miss, EPS, FAR).is_none());
    let r = Ray::new(&Vec3::new(0, 0, -2 * S), &Vec3::new(0, 0, S), 0);
    // both roots lie beyond a narrow interval
    assert!(sp.hit(&r, EPS, S / 2).is_none());
    // a zero-radius sphere is degenerate and never hits
    let degenerate = Sphere::new(Vec3::new(0, 0, 0), 0, 0);
    assert!(degenerate.hit(&r, EPS, FAR).is_none());
}

#[test]
fn moving_sphere_interpolates_its_centre() {
    let ms = MovingSphere::new(
        Vec3::new(0, 0, 0),
        Vec3::new(2 * S, 0, 0),
        0,
        S,
        S,
        0,
    );
    assert_eq!(ms.center(0), Vec3::new(0, 0, 0));
    assert_eq!(ms.center(S), Vec3::new(2 * S, 0, 0));
    assert_eq!(ms.center(S / 2), Vec3::new(S, 0, 0));
    // a ray at shutter close only meets the moved sphere
    let at_moved = Ray::new(&Vec3::new(2 * S, 0, -3 * S), &Vec3::new(0, 0, S), S);
    let rec = ms.hit(&at_moved, EPS, FAR).unwrap();
    assert_eq!(rec.t, 2 * S);
    let at_origin = Ray::new(&Vec3::new(2 * S, 0, -3 * S), &Vec3::new(0, 0, S), 0);
    assert!(ms.hit(&at_origin, EPS, FAR).is_none());
}

#[test]
fn rect_hit_solves_the_plane() {
    let rc = XYRect::new(-S, S, -S, S, 3 * S, 5);
    let r = Ray::new(&Vec3::new(0, 0, 0), &Vec3::new(0, 0, S), 0);
    let rec = rc.hit(&r, EPS, FAR).unwrap();
    assert_eq!(rec.t, 3 * S);
    assert_eq!(rec.p, Vec3::new(0, 0, 3 * S));
    assert_eq!(rec.normal, Vec3::new(0, 0, S));
    assert_eq!(rec.mat, 5);
    // the surface coordinates are the normalized in-plane position
    assert_eq!(rec.u, S / 2);
    assert_eq!(rec.v, S / 2);
    // outside the extent on x
    let wide = Ray::new(&Vec3::new(2 * S, 0, 0), &Vec3::new(0, 0, S), 0);
    assert!(rc.hit(&wide, EPS, FAR).is_none());
    // a zero-area rectangle never hits
    let flat = XYRect::new(S, S, -S, S, 3 * S, 5);
    assert!(flat.hit(&r, EPS, FAR).is_none());
}

#[test]
fn list_scan_returns_the_closest_hit() {
    let near = Object::Ball(Sphere::new(Vec3::new(0, 0, 2 * S), S / 2, 0));
    let far = Object::Ball(Sphere::new(Vec3::new(0, 0, 6 * S), S / 2, 1));
    let list = HitableList::new(vec![far, near]);
    let r = Ray::new(&Vec3::new(0, 0, 0), &Vec3::new(0, 0, S), 0);
    let rec = list.hit(&r, EPS, FAR).unwrap();
    assert_eq!(rec.mat, 0);
    assert_eq!(rec.t, 3 * S / 2);
    let empty = HitableList::new(vec![]);
    assert!(empty.hit(&r, EPS, FAR).is_none());
    assert!(empty.bounding_box().is_none());
    assert!(list.bounding_box().is_some());
}

fn demo_objects() -> Vec<Object> {
    let mut v: Vec<Object> = Vec::new();
    let mut k: usize = 0;
    for x in [-3i64, -1, 1, 3] {
        for z in [2i64, 5, 8] {
            v.push(Object::Ball(Sphere::new(Vec3::new(x * S, 0, z * S), S / 2, k)));
            k += 1;
        }
    }
    v.push(Object::Slab(XYRect::new(-4 * S, 4 * S, -S, S, 12 * S, k)));
    v.push(Object::Moving(MovingSphere::new(
        Vec3::new(0, 2 * S, 4 * S),
        Vec3::new(0, 3 * S, 4 * S),
        0,
        S,
        S / 2,
        k + 1,
    )));
    v
}

#[test]
fn bvh_agrees_with_linear_scan() {
    // the core accelerator property: for many rays over the same
    // primitives, traversal and the flat scan report the same hits at
    // the same parameter
    let objects = demo_objects();
    let list = HitableList::new(objects.clone());
    let mut rng = Rng::Seeded(99);
    let tree = BVHNode::new(objects, 0, S, &mut rng);
    let mut dirs: Vec<Vec3> = Vec::new();
    for dx in -2i64..3 {
        for dy in -2i64..3 {
            dirs.push(Vec3::new(dx * S / 2, dy * S / 2, S));
        }
    }
    let mut checked = 0;
    for ox in -4i64..5 {
        for oy in -2i64..3 {
            for d in dirs.iter() {
                for time in [0i64, S / 2, S] {
                    let r = Ray::new(&Vec3::new(ox * S, oy * S, -2 * S), d, time);
                    let a = list.hit(&r, EPS, FAR);
                    let b = tree.hit(&r, EPS, FAR);
                    assert_eq!(a.is_some(), b.is_some());
                    if let (Some(ra), Some(rb)) = (a, b) {
                        assert_eq!(ra.t, rb.t);
                        checked += 1;
                    }
                }
            }
        }
    }
    assert!(checked > 50);
}

#[test]
fn bvh_of_one_and_two() {
    let one = vec![Object::Ball(Sphere::new(Vec3::new(0, 0, 2 * S), S / 2, 0))];
    let mut rng = Rng::Seeded(1);
    let t1 = BVHNode::new(one, 0, S, &mut rng);
    let r = Ray::new(&Vec3::new(0, 0, 0), &Vec3::new(0, 0, S), 0);
    assert_eq!(t1.hit(&r, EPS, FAR).unwrap().t, 3 * S / 2);
    let two = vec![
        Object::Ball(Sphere::new(Vec3::new(0, 0, 2 * S), S / 2, 0)),
        Object::Ball(Sphere::new(Vec3::new(0, 0, 6 * S), S / 2, 1)),
    ];
    let t2 = BVHNode::new(two, 0, S, &mut rng);
    let rec = t2.hit(&r, EPS, FAR).unwrap();
    assert_eq!(rec.t, 3 * S / 2);
    assert_eq!(rec.mat, 0);
}
