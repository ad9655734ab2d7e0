//! Axis-aligned bounding boxes and the slab intersection test.

use vstd::prelude::*;
use crate::fp::{sdiv, FP_ONE, tdiv_i128, lemma_sdiv_mono};
use crate::vec3::{Vec3, V3i, bounded, in_range};
use crate::ray::{Ray, RayV};

verus! {

/// The mathematical value of a box.
pub ghost struct BoxV {
    pub min: V3i,
    pub max: V3i,
}

/// An axis-aligned box; construction normalizes the corners so that
/// `min <= max` holds on every axis.
#[derive(Clone, Copy, Debug)]
pub struct AABB {
    pub min: Vec3,
    pub max: Vec3,
}

impl View for AABB {
    type V = BoxV;

    open spec fn view(&self) -> BoxV {
        BoxV { min: self.min@, max: self.max@ }
    }
}

/// The box invariant: the corners are ordered on every axis.
pub open spec fn wf_box(b: BoxV) -> bool {
    b.min.x <= b.max.x && b.min.y <= b.max.y && b.min.z <= b.max.z
}

/// Coordinates small enough for the slab arithmetic.
pub open spec fn box_in_range(b: BoxV) -> bool {
    bounded(b.min, 0x10_0000_0000) && bounded(b.max, 0x10_0000_0000)
}

pub open spec fn imin(a: int, b: int) -> int {
    if a < b {
        a
    } else {
        b
    }
}

pub open spec fn imax(a: int, b: int) -> int {
    if a > b {
        a
    } else {
        b
    }
}

/// Componentwise-normalized box over two arbitrary corners.
pub open spec fn norm_box(a: V3i, b: V3i) -> BoxV {
    BoxV {
        min: V3i { x: imin(a.x, b.x), y: imin(a.y, b.y), z: imin(a.z, b.z) },
        max: V3i { x: imax(a.x, b.x), y: imax(a.y, b.y), z: imax(a.z, b.z) },
    }
}

/// The entry parameter of one slab: where the ray crosses the near plane.
/// A ray parallel to the slab contributes the query's own lower bound.
pub open spec fn axis_lo(mn: int, mx: int, o: int, d: int, t0: int) -> int {
    if d > 0 {
        sdiv((mn - o) * (FP_ONE as int), d)
    } else if d < 0 {
        sdiv((mx - o) * (FP_ONE as int), d)
    } else {
        t0
    }
}

/// The exit parameter of one slab.
pub open spec fn axis_hi(mn: int, mx: int, o: int, d: int, t1: int) -> int {
    if d > 0 {
        sdiv((mx - o) * (FP_ONE as int), d)
    } else if d < 0 {
        sdiv((mn - o) * (FP_ONE as int), d)
    } else {
        t1
    }
}

/// A parallel axis passes only if the origin lies inside the slab.
pub open spec fn axis_ok(mn: int, mx: int, o: int, d: int) -> bool {
    d != 0 || (mn <= o && o <= mx)
}

/// The slab test: the running `[t0, t1]` interval shrunk by all three
/// axis intervals must stay strictly nonempty.
pub open spec fn box_hit(b: BoxV, r: RayV, t0: int, t1: int) -> bool {
    let lo = imax(
        imax(axis_lo(b.min.x, b.max.x, r.orig.x, r.dir.x, t0), axis_lo(b.min.y, b.max.y, r.orig.y, r.dir.y, t0)),
        imax(axis_lo(b.min.z, b.max.z, r.orig.z, r.dir.z, t0), t0),
    );
    let hi = imin(
        imin(axis_hi(b.min.x, b.max.x, r.orig.x, r.dir.x, t1), axis_hi(b.min.y, b.max.y, r.orig.y, r.dir.y, t1)),
        imin(axis_hi(b.min.z, b.max.z, r.orig.z, r.dir.z, t1), t1),
    );
    axis_ok(b.min.x, b.max.x, r.orig.x, r.dir.x) && axis_ok(b.min.y, b.max.y, r.orig.y, r.dir.y)
        && axis_ok(b.min.z, b.max.z, r.orig.z, r.dir.z) && lo < hi
}

/// `outer` covers `inner` on every axis.
pub open spec fn box_contains(outer: BoxV, inner: BoxV) -> bool {
    outer.min.x <= inner.min.x && outer.min.y <= inner.min.y && outer.min.z <= inner.min.z
        && inner.max.x <= outer.max.x && inner.max.y <= outer.max.y && inner.max.z
        <= outer.max.z
}

/// The slab parameters of one axis, as `(lo, hi, ok)`.
fn slab(mn: i64, mx: i64, o: i64, d: i64, t0: i64, t1: i64) -> (r: (i64, i64, bool))
    requires
        in_range(mn as int, 0x10_0000_0000),
        in_range(mx as int, 0x10_0000_0000),
        in_range(o as int, 0x10_0000_0000),
    ensures
        r.0 == axis_lo(mn as int, mx as int, o as int, d as int, t0 as int),
        r.1 == axis_hi(mn as int, mx as int, o as int, d as int, t1 as int),
        r.2 == axis_ok(mn as int, mx as int, o as int, d as int),
{
    if d == 0 {
        (t0, t1, mn <= o && o <= mx)
    } else {
        proof {
            crate::vec3::lemma_prod_bound(
                mn as int - o as int,
                FP_ONE as int,
                0x20_0000_0000,
                0x1_0000,
            );
            crate::vec3::lemma_prod_bound(
                mx as int - o as int,
                FP_ONE as int,
                0x20_0000_0000,
                0x1_0000,
            );
        }
        let near: i128 = ((mn - o) as i128) * (FP_ONE as i128);
        let far: i128 = ((mx - o) as i128) * (FP_ONE as i128);
        let qa: i128 = tdiv_i128(near, d as i128);
        let qb: i128 = tdiv_i128(far, d as i128);
        if d > 0 {
            (qa as i64, qb as i64, true)
        } else {
            (qb as i64, qa as i64, true)
        }
    }
}

fn min_i64(a: i64, b: i64) -> (r: i64)
    ensures
        r as int == imin(a as int, b as int),
{
    if a < b {
        a
    } else {
        b
    }
}

fn max_i64(a: i64, b: i64) -> (r: i64)
    ensures
        r as int == imax(a as int, b as int),
{
    if a > b {
        a
    } else {
        b
    }
}

impl AABB {
    /// Builds a box over two corners, restoring the `min <= max`
    /// invariant by taking componentwise minima and maxima.
    pub fn new(a: Vec3, b: Vec3) -> (r: AABB)
        ensures
            r@ == norm_box(a@, b@),
            wf_box(r@),
    {
        AABB {
            min: Vec3 {
                x: min_i64(a.x, b.x),
                y: min_i64(a.y, b.y),
                z: min_i64(a.z, b.z),
            },
            max: Vec3 {
                x: max_i64(a.x, b.x),
                y: max_i64(a.y, b.y),
                z: max_i64(a.z, b.z),
            },
        }
    }

    pub fn min(&self) -> (r: Vec3)
        ensures
            r@ == self@.min,
    {
        self.min
    }

    pub fn max(&self) -> (r: Vec3)
        ensures
            r@ == self@.max,
    {
        self.max
    }

    /// The slab test: does the ray cross the box within `(tmin, tmax)`?
    pub fn hit(&self, r: &Ray, tmin: i64, tmax: i64) -> (res: bool)
        requires
            box_in_range(self@),
            bounded(r@.orig, 0x10_0000_0000),
        ensures
            res == box_hit(self@, r@, tmin as int, tmax as int),
    {
        let (lx, hx, okx) = slab(self.min.x, self.max.x, r.a.x, r.b.x, tmin, tmax);
        let (ly, hy, oky) = slab(self.min.y, self.max.y, r.a.y, r.b.y, tmin, tmax);
        let (lz, hz, okz) = slab(self.min.z, self.max.z, r.a.z, r.b.z, tmin, tmax);
        let lo = max_i64(max_i64(lx, ly), max_i64(lz, tmin));
        let hi = min_i64(min_i64(hx, hy), min_i64(hz, tmax));
        okx && oky && okz && lo < hi
    }
}

/// The smallest box containing both arguments.
pub fn surrounding_box(b0: AABB, b1: AABB) -> (r: AABB)
    ensures
        r@.min.x == imin(b0@.min.x, b1@.min.x),
        r@.min.y == imin(b0@.min.y, b1@.min.y),
        r@.min.z == imin(b0@.min.z, b1@.min.z),
        r@.max.x == imax(b0@.max.x, b1@.max.x),
        r@.max.y == imax(b0@.max.y, b1@.max.y),
        r@.max.z == imax(b0@.max.z, b1@.max.z),
        box_contains(r@, b0@),
        box_contains(r@, b1@),
        wf_box(b0@) ==> wf_box(r@),
{
    AABB {
        min: Vec3 {
            x: min_i64(b0.min.x, b1.min.x),
            y: min_i64(b0.min.y, b1.min.y),
            z: min_i64(b0.min.z, b1.min.z),
        },
        max: Vec3 {
            x: max_i64(b0.max.x, b1.max.x),
            y: max_i64(b0.max.y, b1.max.y),
            z: max_i64(b0.max.z, b1.max.z),
        },
    }
}

proof fn lemma_axis_widen(omn: int, omx: int, imn: int, imx: int, o: int, d: int, t0: int, t1: int)
    requires
        omn <= imn,
        imx <= omx,
    ensures
        axis_lo(omn, omx, o, d, t0) <= axis_lo(imn, imx, o, d, t0),
        axis_hi(imn, imx, o, d, t1) <= axis_hi(omn, omx, o, d, t1),
        axis_ok(imn, imx, o, d) ==> axis_ok(omn, omx, o, d),
{
    if d != 0 {
        lemma_sdiv_mono((omn - o) * (FP_ONE as int), (imn - o) * (FP_ONE as int), d);
        lemma_sdiv_mono((imx - o) * (FP_ONE as int), (omx - o) * (FP_ONE as int), d);
        assert((omn - o) * (FP_ONE as int) <= (imn - o) * (FP_ONE as int)) by (nonlinear_arith)
            requires
                omn <= imn,
        ;
        assert((imx - o) * (FP_ONE as int) <= (omx - o) * (FP_ONE as int)) by (nonlinear_arith)
            requires
                imx <= omx,
        ;
    }
}

/// Enlarging a box can only turn a miss into a hit, never the reverse:
/// any ray and range that hit a contained box also hit the container.
pub proof fn lemma_box_hit_widen(outer: BoxV, inner: BoxV, r: RayV, t0: int, t1: int)
    requires
        box_contains(outer, inner),
        box_hit(inner, r, t0, t1),
    ensures
        box_hit(outer, r, t0, t1),
{
    lemma_axis_widen(outer.min.x, outer.max.x, inner.min.x, inner.max.x, r.orig.x, r.dir.x, t0, t1);
    lemma_axis_widen(outer.min.y, outer.max.y, inner.min.y, inner.max.y, r.orig.y, r.dir.y, t0, t1);
    lemma_axis_widen(outer.min.z, outer.max.z, inner.min.z, inner.max.z, r.orig.z, r.dir.z, t0, t1);
}

/// The slab test does not care in which order a box's corners were
/// given: construction restores the invariant first, so `hit` is
/// symmetric under swapping the two corners.
pub proof fn lemma_hit_corner_swap(a: V3i, b: V3i, r: RayV, t0: int, t1: int)
    ensures
        box_hit(norm_box(a, b), r, t0, t1) == box_hit(norm_box(b, a), r, t0, t1),
{
    assert(norm_box(a, b) == norm_box(b, a));
}

} // verus!
