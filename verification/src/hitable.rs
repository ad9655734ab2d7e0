//! Geometric primitives and the closest-hit query.
//!
//! Every primitive's `hit` first tests the ray against the primitive's own
//! bounding box and then solves for the surface intersection; the whole
//! computation is mirrored by a spec function, so a list scan and the
//! hierarchy in `bvh` can be proved to agree exactly.

use vstd::prelude::*;
use crate::fp::{fpmul, fpdiv, sdiv, FP_ONE, tdiv_i128, fp_mul, fp_div, isqrt_u128, abs_int};
use crate::vec3::{
    Vec3, V3i, vadd, vsub, vscale, vdot, bounded, in_range, clamp_spec, isqrt_spec,
    lemma_isqrt_unique, lemma_prod_bound,
};
use crate::ray::{Ray, RayV, wf_ray};
use crate::aabb::{AABB, BoxV, box_hit, norm_box, box_contains, surrounding_box, wf_box, imin, imax};

verus! {

/// Scene coordinates: primitive parameters stay within 2^30.
pub open spec fn coord(a: int) -> bool {
    in_range(a, 0x4000_0000)
}

/// Hit points are accepted only within 2^36; a candidate root whose
/// point falls outside is treated as a miss.
pub open spec fn point_ok(p: V3i) -> bool {
    bounded(p, 0x10_0000_0000)
}

/// Normals are clamped into [-16, 16] units, so scattered rays stay small.
pub open spec fn nclamp(a: int, b: int) -> int
    recommends
        b != 0,
{
    clamp_spec(fpdiv(a, b), 0x10_0000)
}

/// The mathematical value of a hit record.
pub ghost struct HitV {
    pub t: int,
    pub p: V3i,
    pub normal: V3i,
    pub u: int,
    pub v: int,
    pub mat: int,
}

/// One surface intersection: parameter, point, outward normal, surface
/// coordinates and the index of the material that was hit.
#[derive(Clone, Copy, Debug)]
pub struct HitRecord {
    pub t: i64,
    pub p: Vec3,
    pub normal: Vec3,
    pub u: i64,
    pub v: i64,
    pub mat: usize,
}

impl View for HitRecord {
    type V = HitV;

    open spec fn view(&self) -> HitV {
        HitV {
            t: self.t as int,
            p: self.p@,
            normal: self.normal@,
            u: self.u as int,
            v: self.v as int,
            mat: self.mat as int,
        }
    }
}

impl HitRecord {
    /// A blank record referring to the given material slot.
    pub fn new(m: usize) -> (r: HitRecord)
        ensures
            r@.t == 0,
            r@.mat == m as int,
            r@.p == (V3i { x: 0int, y: 0int, z: 0int }),
            r@.normal == (V3i { x: 0int, y: 0int, z: 0int }),
            r@.u == 0,
            r@.v == 0,
    {
        HitRecord { t: 0, p: Vec3::zero(), normal: Vec3::zero(), u: 0, v: 0, mat: m }
    }
}

/// Does the executable result carry exactly the specified record?
pub open spec fn rec_matches(res: Option<HitRecord>, s: Option<HitV>) -> bool {
    match res {
        Option::Some(rr) => s is Some && rr@ == s->0,
        Option::None => s is None,
    }
}

/// A static sphere.
#[derive(Clone, Copy, Debug)]
pub struct Sphere {
    pub center: Vec3,
    pub radius: i64,
    pub mat: usize,
}

/// A sphere whose centre moves linearly over a time interval.
#[derive(Clone, Copy, Debug)]
pub struct MovingSphere {
    pub center0: Vec3,
    pub center1: Vec3,
    pub time0: i64,
    pub time1: i64,
    pub radius: i64,
    pub mat: usize,
}

/// An axis-aligned rectangle in the plane `z == k`.
#[derive(Clone, Copy, Debug)]
pub struct XYRect {
    pub x0: i64,
    pub x1: i64,
    pub y0: i64,
    pub y1: i64,
    pub k: i64,
    pub mat: usize,
}

/// A geometric primitive of the scene.
#[derive(Clone, Copy, Debug)]
pub enum Object {
    Ball(Sphere),
    Moving(MovingSphere),
    Slab(XYRect),
}

pub open spec fn wf_sphere(s: Sphere) -> bool {
    bounded(s.center@, 0x4000_0000) && coord(s.radius as int)
}

pub open spec fn wf_moving(s: MovingSphere) -> bool {
    bounded(s.center0@, 0x4000_0000) && bounded(s.center1@, 0x4000_0000) && coord(s.radius as int)
        && in_range(s.time0 as int, 0x8000_0000) && in_range(s.time1 as int, 0x8000_0000)
}

pub open spec fn wf_rect(rc: XYRect) -> bool {
    coord(rc.x0 as int) && coord(rc.x1 as int) && coord(rc.y0 as int) && coord(rc.y1 as int)
        && coord(rc.k as int)
}

/// Geometric well-formedness of a primitive.
pub open spec fn wf_object(o: Object) -> bool {
    match o {
        Object::Ball(s) => wf_sphere(s),
        Object::Moving(s) => wf_moving(s),
        Object::Slab(rc) => wf_rect(rc),
    }
}

/// The material slot a primitive refers to.
pub open spec fn object_mat(o: Object) -> int {
    match o {
        Object::Ball(s) => s.mat as int,
        Object::Moving(s) => s.mat as int,
        Object::Slab(rc) => rc.mat as int,
    }
}

/// The bounding box of a static sphere.
pub open spec fn sphere_box(c: V3i, radius: int) -> BoxV {
    norm_box(
        vsub(c, V3i { x: radius, y: radius, z: radius }),
        vadd(c, V3i { x: radius, y: radius, z: radius }),
    )
}

/// The bounding box of a moving sphere: the union of the boxes around
/// both endpoint centres, covering its whole configured motion.
pub open spec fn moving_box(s: MovingSphere) -> BoxV {
    bunion(sphere_box(s.center0@, s.radius as int), sphere_box(s.center1@, s.radius as int))
}

/// The bounding box of a rectangle, padded on the constant axis.
pub open spec fn rect_box(rc: XYRect) -> BoxV {
    norm_box(
        V3i { x: rc.x0 as int, y: rc.y0 as int, z: rc.k as int - 7 },
        V3i { x: rc.x1 as int, y: rc.y1 as int, z: rc.k as int + 7 },
    )
}

/// The smallest box containing both.
pub open spec fn bunion(a: BoxV, b: BoxV) -> BoxV {
    BoxV {
        min: V3i { x: imin(a.min.x, b.min.x), y: imin(a.min.y, b.min.y), z: imin(a.min.z, b.min.z) },
        max: V3i { x: imax(a.max.x, b.max.x), y: imax(a.max.y, b.max.y), z: imax(a.max.z, b.max.z) },
    }
}

/// The union of all boxes of a non-empty primitive sequence, folded
/// left to right.
pub open spec fn boxes_fold(s: Seq<Object>) -> BoxV
    recommends
        s.len() >= 1,
    decreases s.len(),
{
    if s.len() <= 1 {
        prim_box(s[0])
    } else {
        bunion(boxes_fold(s.drop_last()), prim_box(s.last()))
    }
}

/// The bounding box of any primitive; every primitive has one.
pub open spec fn prim_box(o: Object) -> BoxV {
    match o {
        Object::Ball(s) => sphere_box(s.center@, s.radius as int),
        Object::Moving(s) => moving_box(s),
        Object::Slab(rc) => rect_box(rc),
    }
}

/// The interpolated centre of a moving sphere at a given time.  The
/// interpolation fraction is clamped into [-16, 16], and a degenerate
/// time interval yields the first centre.
pub open spec fn center_at(s: MovingSphere, time: int) -> V3i {
    if s.time1 == s.time0 {
        s.center0@
    } else {
        vadd(
            s.center0@,
            vscale(
                vsub(s.center1@, s.center0@),
                clamp_spec(fpdiv(time - s.time0 as int, s.time1 - s.time0 as int), 0x10_0000),
            ),
        )
    }
}

/// The record produced for a sphere hit at parameter `t`: the hit point
/// must lie within range, and the outward normal is `(p - c) / radius`.
pub open spec fn sphere_rec(c: V3i, radius: int, mat: int, r: RayV, t: int) -> Option<HitV> {
    let p = vadd(r.orig, vscale(r.dir, t));
    if !point_ok(p) {
        Option::None
    } else {
        Option::Some(
            HitV {
                t,
                p,
                normal: V3i {
                    x: nclamp(p.x - c.x, radius),
                    y: nclamp(p.y - c.y, radius),
                    z: nclamp(p.z - c.z, radius),
                },
                u: 0,
                v: 0,
                mat,
            },
        )
    }
}

/// The sphere quadratic: the smaller root is tried first, then the
/// larger, each against the open interval `(t0, t1)`.
pub open spec fn quad_hit(c: V3i, radius: int, mat: int, r: RayV, t0: int, t1: int) -> Option<
    HitV,
> {
    let oc = vsub(r.orig, c);
    let a = vdot(r.dir, r.dir);
    let b = vdot(oc, r.dir);
    let cc = vdot(oc, oc) - fpmul(radius, radius);
    let disc = b * b - a * cc;
    if a <= 0 || radius == 0 || disc <= 0 {
        Option::None
    } else {
        let sq = isqrt_spec(disc);
        let tn = sdiv((-b - sq) * (FP_ONE as int), a);
        let tp = sdiv((-b + sq) * (FP_ONE as int), a);
        if t0 < tn && tn < t1 {
            sphere_rec(c, radius, mat, r, tn)
        } else if t0 < tp && tp < t1 {
            sphere_rec(c, radius, mat, r, tp)
        } else {
            Option::None
        }
    }
}

/// A static sphere's hit: its own box test, then the quadratic.  The
/// box pre-test and the hit-point range check are part of the
/// primitive's defined semantics, not an approximation of it: every
/// caller — the linear scan and the hierarchy alike — sees this exact
/// function, which is what makes their agreement provable.  A root the
/// rounded slab test rejects (possible only within a few rounding
/// units of a tangent) is a miss by definition.
pub open spec fn sphere_hit_spec(s: Sphere, r: RayV, t0: int, t1: int) -> Option<HitV> {
    if !box_hit(sphere_box(s.center@, s.radius as int), r, t0, t1) {
        Option::None
    } else {
        quad_hit(s.center@, s.radius as int, s.mat as int, r, t0, t1)
    }
}

/// A moving sphere's hit: the motion box test, then the quadratic
/// around the centre interpolated at the ray's time.
pub open spec fn moving_hit_spec(s: MovingSphere, r: RayV, t0: int, t1: int) -> Option<HitV> {
    if !box_hit(moving_box(s), r, t0, t1) {
        Option::None
    } else {
        quad_hit(center_at(s, r.time), s.radius as int, s.mat as int, r, t0, t1)
    }
}

/// A rectangle's hit: the padded box test, then the plane solve with the
/// in-plane extent checks; a zero-area rectangle never hits.
pub open spec fn rect_hit_spec(rc: XYRect, r: RayV, t0: int, t1: int) -> Option<HitV> {
    if !box_hit(rect_box(rc), r, t0, t1) || r.dir.z == 0 || rc.x1 <= rc.x0 || rc.y1 <= rc.y0 {
        Option::None
    } else {
        let t = sdiv((rc.k as int - r.orig.z) * (FP_ONE as int), r.dir.z);
        if t <= t0 || t >= t1 {
            Option::None
        } else {
            let x = r.orig.x + fpmul(t, r.dir.x);
            let y = r.orig.y + fpmul(t, r.dir.y);
            if x < rc.x0 || x > rc.x1 || y < rc.y0 || y > rc.y1 {
                Option::None
            } else {
                let p = vadd(r.orig, vscale(r.dir, t));
                if !point_ok(p) {
                    Option::None
                } else {
                    Option::Some(
                        HitV {
                            t,
                            p,
                            normal: V3i { x: 0, y: 0, z: FP_ONE as int },
                            u: fpdiv(x - rc.x0 as int, rc.x1 - rc.x0 as int),
                            v: fpdiv(y - rc.y0 as int, rc.y1 - rc.y0 as int),
                            mat: rc.mat as int,
                        },
                    )
                }
            }
        }
    }
}

/// The closest hit of one primitive.
pub open spec fn object_hit(o: Object, r: RayV, t0: int, t1: int) -> Option<HitV> {
    match o {
        Object::Ball(s) => sphere_hit_spec(s, r, t0, t1),
        Object::Moving(s) => moving_hit_spec(s, r, t0, t1),
        Object::Slab(rc) => rect_hit_spec(rc, r, t0, t1),
    }
}

/// Keep the previous candidate unless the new one is strictly closer,
/// so that among equal parameters the earlier primitive wins.
pub open spec fn closer(prev: Option<HitV>, new: Option<HitV>) -> Option<HitV> {
    match new {
        Option::Some(n) => match prev {
            Option::Some(pv) => if n.t < pv.t {
                Option::Some(n)
            } else {
                Option::Some(pv)
            },
            Option::None => Option::Some(n),
        },
        Option::None => prev,
    }
}

/// The closest hit over a sequence of primitives, earliest winning ties.
pub open spec fn closest_hit(s: Seq<Object>, r: RayV, t0: int, t1: int) -> Option<HitV>
    decreases s.len(),
{
    if s.len() == 0 {
        Option::None
    } else {
        closer(closest_hit(s.drop_last(), r, t0, t1), object_hit(s.last(), r, t0, t1))
    }
}

/// What every reported hit satisfies: the parameter lies strictly
/// inside the queried interval, the point is in range, the normal is
/// clamped, and the material slot is the primitive's own.
pub proof fn lemma_object_hit_facts(o: Object, r: RayV, t0: int, t1: int)
    requires
        object_hit(o, r, t0, t1) is Some,
    ensures
        t0 < object_hit(o, r, t0, t1)->0.t < t1,
        point_ok(object_hit(o, r, t0, t1)->0.p),
        bounded(object_hit(o, r, t0, t1)->0.normal, 0x10_0000),
        object_hit(o, r, t0, t1)->0.mat == object_mat(o),
{
    let h = object_hit(o, r, t0, t1)->0;
    match o {
        Object::Ball(s) => {
            assert(bounded(h.normal, 0x10_0000));
        },
        Object::Moving(s) => {
            assert(bounded(h.normal, 0x10_0000));
        },
        Object::Slab(rc) => {
            assert(bounded(h.normal, 0x10_0000));
        },
    }
}

/// The plane tolerance of a rectangle hit: the hit point's constant
/// coordinate equals `k` to within one unit plus the ray direction's
/// magnitude in units.  Exact division would land the point on the
/// plane; the two truncations each lose less than one step.
#[verifier::rlimit(100)]
#[verifier::spinoff_prover]
pub proof fn lemma_rect_plane_tolerance(rc: XYRect, r: RayV, t0: int, t1: int)
    requires
        rect_hit_spec(rc, r, t0, t1) is Some,
    ensures
        abs_int(rect_hit_spec(rc, r, t0, t1)->0.p.z - rc.k as int) * (FP_ONE as int) < abs_int(
            r.dir.z,
        ) + FP_ONE as int,
{
    let s = FP_ONE as int;
    let oz = r.orig.z;
    let dz = r.dir.z;
    let n = (rc.k as int - oz) * s;
    let t = sdiv(n, dz);
    let h = rect_hit_spec(rc, r, t0, t1)->0;
    assert(dz != 0);
    crate::fp::lemma_sdiv_err(n, dz);
    assert(dz * t == t * dz) by (nonlinear_arith);
    crate::fp::lemma_sdiv_err(dz * t, s);
    assert(h.p.z == oz + fpmul(dz, t));
    assert(fpmul(dz, t) == sdiv(dz * t, s));
    assert(abs_int((h.p.z - rc.k as int) * s) < abs_int(dz) + s) by (nonlinear_arith)
        requires
            h.p.z == oz + fpmul(dz, t),
            abs_int(t * dz - n) < abs_int(dz),
            abs_int(sdiv(dz * t, s) * s - dz * t) < s,
            fpmul(dz, t) == sdiv(dz * t, s),
            n == (rc.k as int - oz) * s,
            dz * t == t * dz,
            s == 65536,
    ;
    assert(abs_int(h.p.z - rc.k as int) * s == abs_int((h.p.z - rc.k as int) * s))
        by (nonlinear_arith)
        requires
            s == 65536,
    ;
}

/// Clamp into `[-cap, cap]`.
fn clamp_i64(a: i64, cap: i64) -> (r: i64)
    requires
        cap > 0,
    ensures
        r as int == clamp_spec(a as int, cap as int),
{
    if a < -cap {
        -cap
    } else if a > cap {
        cap
    } else {
        a
    }
}

/// The clamped normal component `(a / b)`, clamped into [-16, 16] units.
fn norm_div(a: i64, b: i64) -> (r: i64)
    requires
        b != 0,
        in_range(a as int, 0x40_0000_0000),
    ensures
        r as int == nclamp(a as int, b as int),
{
    proof {
        crate::fp::lemma_sdiv_mag((a as int) * (FP_ONE as int), b as int);
        lemma_prod_bound(a as int, FP_ONE as int, 0x40_0000_0000, 0x1_0000);
    }
    let q = fp_div(a, b);
    clamp_i64(q, 0x10_0000)
}

/// The shared quadratic solver for spheres, against an interpolated or
/// fixed centre.
fn quad_hit_exec(c: &Vec3, radius: i64, mat: usize, r: &Ray, t_min: i64, t_max: i64) -> (res:
    Option<HitRecord>)
    requires
        bounded(c@, 0x10_0000_0000),
        in_range(radius as int, 0x4000_0000),
        wf_ray(r@),
        in_range(t_min as int, 0x8000_0000),
        in_range(t_max as int, 0x8000_0000),
    ensures
        rec_matches(res, quad_hit(c@, radius as int, mat as int, r@, t_min as int, t_max as int)),
{
    let oc = r.origin().sub(c);
    let a = r.direction().dot(r.direction());
    let b = oc.dot(r.direction());
    proof {
        crate::vec3::lemma_vdot_bound(r@.dir, r@.dir, 0x10_0000_0000, 0x10_0000_0000);
        crate::vec3::lemma_vdot_bound(oc@, r@.dir, 0x20_0000_0000, 0x10_0000_0000);
        crate::vec3::lemma_vdot_bound(oc@, oc@, 0x20_0000_0000, 0x20_0000_0000);
        lemma_prod_bound(radius as int, radius as int, 0x4000_0000, 0x4000_0000);
        crate::fp::lemma_fpmul_mag(radius as int, radius as int);
    }
    let cc = oc.dot(&oc) - fp_mul(radius, radius);
    if a <= 0 || radius == 0 {
        return Option::None;
    }
    proof {
        lemma_prod_bound(b as int, b as int, 0x800_0000_0000_0000, 0x800_0000_0000_0000);
        lemma_prod_bound(a as int, cc as int, 0x800_0000_0000_0000, 0x1000_0000_0000_0000);
    }
    let disc: i128 = (b as i128) * (b as i128) - (a as i128) * (cc as i128);
    if disc <= 0 {
        return Option::None;
    }
    let sq_u: u128 = isqrt_u128(disc as u128);
    proof {
        lemma_isqrt_unique(sq_u as int, disc as int);
        assert(sq_u < 0x1000_0000_0000_0000) by (nonlinear_arith)
            requires
                (sq_u as int) * (sq_u as int) <= disc as int,
                disc < 0x100_0000_0000_0000_0000_0000_0000_0000int,
                sq_u >= 0,
        ;
    }
    let sq: i128 = sq_u as i128;
    let num_n: i128 = (-(b as i128) - sq) * (FP_ONE as i128);
    let tn: i128 = tdiv_i128(num_n, a as i128);
    if (t_min as i128) < tn && tn < (t_max as i128) {
        return mk_sphere_rec(c, radius, mat, r, tn as i64);
    }
    let num_p: i128 = (-(b as i128) + sq) * (FP_ONE as i128);
    let tp: i128 = tdiv_i128(num_p, a as i128);
    if (t_min as i128) < tp && tp < (t_max as i128) {
        return mk_sphere_rec(c, radius, mat, r, tp as i64);
    }
    Option::None
}

/// Builds the record for a sphere hit at parameter `t`.
fn mk_sphere_rec(c: &Vec3, radius: i64, mat: usize, r: &Ray, t: i64) -> (res: Option<HitRecord>)
    requires
        bounded(c@, 0x10_0000_0000),
        radius != 0,
        in_range(radius as int, 0x4000_0000),
        wf_ray(r@),
        in_range(t as int, 0x1_0000_0000),
    ensures
        rec_matches(res, sphere_rec(c@, radius as int, mat as int, r@, t as int)),
{
    let p = r.point_at_parameter(t);
    if p.x < -0x10_0000_0000 || p.x > 0x10_0000_0000 || p.y < -0x10_0000_0000 || p.y
        > 0x10_0000_0000 || p.z < -0x10_0000_0000 || p.z > 0x10_0000_0000 {
        return Option::None;
    }
    let normal = Vec3 {
        x: norm_div(p.x - c.x, radius),
        y: norm_div(p.y - c.y, radius),
        z: norm_div(p.z - c.z, radius),
    };
    Option::Some(HitRecord { t, p, normal, u: 0, v: 0, mat })
}

impl Sphere {
    pub fn new(cen: Vec3, r: i64, m: usize) -> (s: Sphere)
        ensures
            s.center == cen,
            s.radius == r,
            s.mat == m,
    {
        Sphere { center: cen, radius: r, mat: m }
    }

    /// The box `center ± radius` on every axis.
    pub fn bounding_box(&self) -> (b: AABB)
        requires
            wf_sphere(*self),
        ensures
            b@ == sphere_box(self.center@, self.radius as int),
    {
        let rv = Vec3::new(self.radius, self.radius, self.radius);
        AABB::new(self.center.sub(&rv), self.center.add(&rv))
    }

    /// The closest quadratic root within `(t_min, t_max)`, guarded by the
    /// sphere's own bounding box.
    pub fn hit(&self, r: &Ray, t_min: i64, t_max: i64) -> (res: Option<HitRecord>)
        requires
            wf_sphere(*self),
            wf_ray(r@),
            in_range(t_min as int, 0x8000_0000),
            in_range(t_max as int, 0x8000_0000),
        ensures
            rec_matches(res, sphere_hit_spec(*self, r@, t_min as int, t_max as int)),
    {
        let bx = self.bounding_box();
        if !bx.hit(r, t_min, t_max) {
            return Option::None;
        }
        quad_hit_exec(&self.center, self.radius, self.mat, r, t_min, t_max)
    }
}

impl MovingSphere {
    pub fn new(cen0: Vec3, cen1: Vec3, t0: i64, t1: i64, r: i64, m: usize) -> (s: MovingSphere)
        ensures
            s.center0 == cen0,
            s.center1 == cen1,
            s.time0 == t0,
            s.time1 == t1,
            s.radius == r,
            s.mat == m,
    {
        MovingSphere { center0: cen0, center1: cen1, time0: t0, time1: t1, radius: r, mat: m }
    }

    /// The centre interpolated at a time.
    pub fn center(&self, time: i64) -> (c: Vec3)
        requires
            wf_moving(*self),
            in_range(time as int, 0x8000_0000),
        ensures
            c@ == center_at(*self, time as int),
            bounded(c@, 0x10_0000_0000),
    {
        if self.time1 == self.time0 {
            return self.center0;
        }
        proof {
            crate::fp::lemma_sdiv_mag(
                (time as int - self.time0 as int) * (FP_ONE as int),
                self.time1 as int - self.time0 as int,
            );
            lemma_prod_bound(
                time as int - self.time0 as int,
                FP_ONE as int,
                0x1_0000_0000,
                0x1_0000,
            );
        }
        let fr_raw = fp_div(time - self.time0, self.time1 - self.time0);
        let fr = clamp_i64(fr_raw, 0x10_0000);
        let delta = self.center1.sub(&self.center0);
        let off = delta.scale(fr);
        proof {
            lemma_prod_bound(delta@.x, fr as int, 0x8000_0000, 0x10_0000);
            lemma_prod_bound(delta@.y, fr as int, 0x8000_0000, 0x10_0000);
            lemma_prod_bound(delta@.z, fr as int, 0x8000_0000, 0x10_0000);
            crate::fp::lemma_fpmul_mag(delta@.x, fr as int);
            crate::fp::lemma_fpmul_mag(delta@.y, fr as int);
            crate::fp::lemma_fpmul_mag(delta@.z, fr as int);
        }
        self.center0.add(&off)
    }

    /// The union of the boxes around both endpoint centres.
    pub fn bounding_box(&self) -> (b: AABB)
        requires
            wf_moving(*self),
        ensures
            b@ == moving_box(*self),
    {
        let rv = Vec3::new(self.radius, self.radius, self.radius);
        let b0 = AABB::new(self.center0.sub(&rv), self.center0.add(&rv));
        let b1 = AABB::new(self.center1.sub(&rv), self.center1.add(&rv));
        surrounding_box(b0, b1)
    }

    /// The quadratic against the interpolated centre, guarded by the
    /// motion bounding box.
    pub fn hit(&self, r: &Ray, t_min: i64, t_max: i64) -> (res: Option<HitRecord>)
        requires
            wf_moving(*self),
            wf_ray(r@),
            in_range(t_min as int, 0x8000_0000),
            in_range(t_max as int, 0x8000_0000),
        ensures
            rec_matches(res, moving_hit_spec(*self, r@, t_min as int, t_max as int)),
    {
        let bx = self.bounding_box();
        if !bx.hit(r, t_min, t_max) {
            return Option::None;
        }
        let c = self.center(r.time());
        quad_hit_exec(&c, self.radius, self.mat, r, t_min, t_max)
    }
}

impl XYRect {
    pub fn new(x0: i64, x1: i64, y0: i64, y1: i64, k: i64, mt: usize) -> (rc: XYRect)
        ensures
            rc.x0 == x0,
            rc.x1 == x1,
            rc.y0 == y0,
            rc.y1 == y1,
            rc.k == k,
            rc.mat == mt,
    {
        XYRect { x0, x1, y0, y1, k, mat: mt }
    }

    /// The rectangle's box, padded on the constant axis.
    pub fn bounding_box(&self) -> (b: AABB)
        requires
            wf_rect(*self),
        ensures
            b@ == rect_box(*self),
    {
        AABB::new(Vec3::new(self.x0, self.y0, self.k - 7), Vec3::new(self.x1, self.y1, self.k + 7))
    }

    /// The plane solve with in-plane extent checks, guarded by the
    /// padded box.
    pub fn hit(&self, r: &Ray, t_min: i64, t_max: i64) -> (res: Option<HitRecord>)
        requires
            wf_rect(*self),
            wf_ray(r@),
            in_range(t_min as int, 0x8000_0000),
            in_range(t_max as int, 0x8000_0000),
        ensures
            rec_matches(res, rect_hit_spec(*self, r@, t_min as int, t_max as int)),
    {
        let bx = self.bounding_box();
        if !bx.hit(r, t_min, t_max) {
            return Option::None;
        }
        if r.b.z == 0 || self.x1 <= self.x0 || self.y1 <= self.y0 {
            return Option::None;
        }
        proof {
            lemma_prod_bound(
                self.k as int - r@.orig.z,
                FP_ONE as int,
                0x20_0000_0000,
                0x1_0000,
            );
        }
        let num: i128 = ((self.k - r.a.z) as i128) * (FP_ONE as i128);
        let t128: i128 = tdiv_i128(num, r.b.z as i128);
        if t128 <= t_min as i128 || t128 >= t_max as i128 {
            return Option::None;
        }
        let t: i64 = t128 as i64;
        proof {
            lemma_prod_bound(t as int, r@.dir.x, 0x1_0000_0000, 0x10_0000_0000);
            lemma_prod_bound(t as int, r@.dir.y, 0x1_0000_0000, 0x10_0000_0000);
            crate::fp::lemma_fpmul_mag(t as int, r@.dir.x);
            crate::fp::lemma_fpmul_mag(t as int, r@.dir.y);
        }
        let x: i64 = r.a.x + fp_mul(t, r.b.x);
        let y: i64 = r.a.y + fp_mul(t, r.b.y);
        if x < self.x0 || x > self.x1 || y < self.y0 || y > self.y1 {
            return Option::None;
        }
        let p = r.point_at_parameter(t);
        if p.x < -0x10_0000_0000 || p.x > 0x10_0000_0000 || p.y < -0x10_0000_0000 || p.y
            > 0x10_0000_0000 || p.z < -0x10_0000_0000 || p.z > 0x10_0000_0000 {
            return Option::None;
        }
        proof {
            crate::fp::lemma_sdiv_mag((x as int - self.x0 as int) * (FP_ONE as int), self.x1 as int - self.x0 as int);
            crate::fp::lemma_sdiv_mag((y as int - self.y0 as int) * (FP_ONE as int), self.y1 as int - self.y0 as int);
            lemma_prod_bound(x as int - self.x0 as int, FP_ONE as int, 0x1_0000_0000, 0x1_0000);
            lemma_prod_bound(y as int - self.y0 as int, FP_ONE as int, 0x1_0000_0000, 0x1_0000);
        }
        let u = fp_div(x - self.x0, self.x1 - self.x0);
        let v = fp_div(y - self.y0, self.y1 - self.y0);
        Option::Some(
            HitRecord { t, p, normal: Vec3::new(0, 0, FP_ONE), u, v, mat: self.mat },
        )
    }
}

impl Object {
    /// The closest hit of this primitive within `(t_min, t_max)`.
    pub fn hit(&self, r: &Ray, t_min: i64, t_max: i64) -> (res: Option<HitRecord>)
        requires
            wf_object(*self),
            wf_ray(r@),
            in_range(t_min as int, 0x8000_0000),
            in_range(t_max as int, 0x8000_0000),
        ensures
            rec_matches(res, object_hit(*self, r@, t_min as int, t_max as int)),
    {
        match self {
            Object::Ball(s) => s.hit(r, t_min, t_max),
            Object::Moving(s) => s.hit(r, t_min, t_max),
            Object::Slab(rc) => rc.hit(r, t_min, t_max),
        }
    }

    /// Every primitive has a bounding box.
    pub fn bounding_box(&self) -> (b: AABB)
        requires
            wf_object(*self),
        ensures
            b@ == prim_box(*self),
    {
        match self {
            Object::Ball(s) => s.bounding_box(),
            Object::Moving(s) => s.bounding_box(),
            Object::Slab(rc) => rc.bounding_box(),
        }
    }
}

/// A flat list of primitives, scanned linearly for the closest hit.
#[derive(Clone, Debug)]
pub struct HitableList {
    pub list: Vec<Object>,
}

/// Every primitive of the list is well formed.
pub open spec fn wf_list(s: Seq<Object>) -> bool {
    forall|i: int| 0 <= i < s.len() ==> wf_object(#[trigger] s[i])
}

impl HitableList {
    pub fn new(hitable: Vec<Object>) -> (r: HitableList)
        ensures
            r.list@ == hitable@,
    {
        HitableList { list: hitable }
    }

    /// The closest hit over all primitives; among equal parameters the
    /// earliest primitive in the list wins.
    pub fn hit(&self, r: &Ray, t_min: i64, t_max: i64) -> (res: Option<HitRecord>)
        requires
            wf_list(self.list@),
            wf_ray(r@),
            in_range(t_min as int, 0x8000_0000),
            in_range(t_max as int, 0x8000_0000),
        ensures
            rec_matches(res, closest_hit(self.list@, r@, t_min as int, t_max as int)),
    {
        let mut best: Option<HitRecord> = Option::None;
        let mut i: usize = 0;
        while i < self.list.len()
            invariant
                0 <= i <= self.list.len(),
                wf_list(self.list@),
                wf_ray(r@),
                in_range(t_min as int, 0x8000_0000),
                in_range(t_max as int, 0x8000_0000),
                rec_matches(
                    best,
                    closest_hit(self.list@.subrange(0, i as int), r@, t_min as int, t_max as int),
                ),
            decreases self.list.len() - i,
        {
            let h = self.list[i].hit(r, t_min, t_max);
            proof {
                let pref = self.list@.subrange(0, i as int + 1);
                assert(pref.drop_last() =~= self.list@.subrange(0, i as int));
                assert(pref.last() == self.list@[i as int]);
            }
            if let Option::Some(rec) = h {
                best = match best {
                    Option::Some(b) => if rec.t < b.t {
                        Option::Some(rec)
                    } else {
                        Option::Some(b)
                    },
                    Option::None => Option::Some(rec),
                };
            }
            i = i + 1;
        }
        proof {
            assert(self.list@.subrange(0, self.list@.len() as int) =~= self.list@);
        }
        best
    }

    /// Exactly the union of all primitives' boxes, folded in list
    /// order; unavailable only for an empty list.
    pub fn bounding_box(&self) -> (res: Option<AABB>)
        requires
            wf_list(self.list@),
        ensures
            res is Some <==> self.list@.len() > 0,
            res is Some ==> res->0@ == boxes_fold(self.list@),
            res is Some ==> forall|i: int|
                0 <= i < self.list@.len() ==> box_contains(
                    res->0@,
                    prim_box(#[trigger] self.list@[i]),
                ),
    {
        if self.list.len() == 0 {
            return Option::None;
        }
        let mut vox = self.list[0].bounding_box();
        proof {
            let pref = self.list@.subrange(0, 1);
            assert(pref.len() == 1 && pref[0] == self.list@[0]);
            assert(vox@ == boxes_fold(pref));
        }
        let mut i: usize = 1;
        while i < self.list.len()
            invariant
                1 <= i <= self.list.len(),
                wf_list(self.list@),
                vox@ == boxes_fold(self.list@.subrange(0, i as int)),
                forall|j: int|
                    0 <= j < i ==> box_contains(vox@, prim_box(#[trigger] self.list@[j])),
            decreases self.list.len() - i,
        {
            let b = self.list[i].bounding_box();
            let ghost old_vox = vox@;
            vox = surrounding_box(vox, b);
            proof {
                let pref = self.list@.subrange(0, i as int + 1);
                assert(pref.drop_last() =~= self.list@.subrange(0, i as int));
                assert(pref.last() == self.list@[i as int]);
                assert(pref.len() > 1);
                assert(vox@ == bunion(old_vox, prim_box(self.list@[i as int])));
            }
            i = i + 1;
        }
        proof {
            assert(self.list@.subrange(0, self.list@.len() as int) =~= self.list@);
        }
        Option::Some(vox)
    }
}

} // verus!
