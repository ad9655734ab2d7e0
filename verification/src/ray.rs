//! Parametric rays: origin, direction and a time stamp for motion blur.

use vstd::prelude::*;
use crate::vec3::{Vec3, V3i, vadd, vscale, bounded, in_range, lemma_prod_bound};

verus! {

/// The mathematical value of a ray.
pub ghost struct RayV {
    pub orig: V3i,
    pub dir: V3i,
    pub time: int,
}

/// A ray `origin + t * direction`, carrying the shutter time it samples.
#[derive(Clone, Copy, Debug)]
pub struct Ray {
    pub a: Vec3,
    pub b: Vec3,
    pub time: i64,
}

impl View for Ray {
    type V = RayV;

    open spec fn view(&self) -> RayV {
        RayV { orig: self.a@, dir: self.b@, time: self.time as int }
    }
}

/// Rays handed to intersection tests: coordinates within 2^36, times
/// within 2^31, so every intermediate product fits the fixed-point range.
pub open spec fn wf_ray(r: RayV) -> bool {
    bounded(r.orig, 0x10_0000_0000) && bounded(r.dir, 0x10_0000_0000) && in_range(
        r.time,
        0x8000_0000,
    )
}

impl Ray {
    pub fn new(a: &Vec3, b: &Vec3, ti: i64) -> (r: Ray)
        ensures
            r@.orig == a@,
            r@.dir == b@,
            r@.time == ti as int,
    {
        Ray { a: *a, b: *b, time: ti }
    }

    pub fn origin(&self) -> (r: &Vec3)
        ensures
            r@ == self@.orig,
    {
        &self.a
    }

    pub fn direction(&self) -> (r: &Vec3)
        ensures
            r@ == self@.dir,
    {
        &self.b
    }

    pub fn time(&self) -> (r: i64)
        ensures
            r as int == self@.time,
    {
        self.time
    }

    /// The point `origin + t * direction`.
    pub fn point_at_parameter(&self, t: i64) -> (r: Vec3)
        requires
            bounded(self@.orig, 0x2000_0000_0000_0000),
            bounded(self@.dir, 0x10_0000_0000),
            in_range(t as int, 0x1_0000_0000),
        ensures
            r@ == vadd(self@.orig, vscale(self@.dir, t as int)),
    {
        proof {
            lemma_prod_bound(self@.dir.x, t as int, 0x10_0000_0000, 0x1_0000_0000);
            lemma_prod_bound(self@.dir.y, t as int, 0x10_0000_0000, 0x1_0000_0000);
            lemma_prod_bound(self@.dir.z, t as int, 0x10_0000_0000, 0x1_0000_0000);
            crate::fp::lemma_fpmul_mag(self@.dir.x, t as int);
            crate::fp::lemma_fpmul_mag(self@.dir.y, t as int);
            crate::fp::lemma_fpmul_mag(self@.dir.z, t as int);
        }
        self.a.add(&self.b.scale(t))
    }
}

} // verus!
