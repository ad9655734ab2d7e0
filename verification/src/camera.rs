//! The thin-lens camera: an orthonormal basis derived once from the
//! view parameters, a virtual screen scaled by the focus distance, an
//! aperture offset sampled on the unit disk, and a shutter-time sample.

use vstd::prelude::*;
use crate::fp::{fpmul, FP_ONE, fp_mul, abs_int};
use crate::vec3::{
    Vec3, V3i, vadd, vsub, vscale, vcross, vunit, vdot, bounded, in_range, lemma_prod_bound,
};
use crate::ray::{Ray, RayV, wf_ray};
use crate::rng::Rng;

verus! {

/// The derived camera state; immutable after construction and shared
/// read-only by every sampling call.
#[derive(Clone, Copy, Debug)]
pub struct Camera {
    pub origin: Vec3,
    pub lower_left_corner: Vec3,
    pub horizontal: Vec3,
    pub vertical: Vec3,
    pub u: Vec3,
    pub v: Vec3,
    pub w: Vec3,
    pub lens_radius: i64,
    pub time0: i64,
    pub time1: i64,
}

/// Field bounds under which every ray the camera makes is well formed.
pub open spec fn wf_camera(c: Camera) -> bool {
    bounded(c.origin@, 0x4000_0000) && bounded(c.lower_left_corner@, 0x2_0000_0000) && bounded(
        c.horizontal@,
        0x2_0000_0000,
    ) && bounded(c.vertical@, 0x2_0000_0000) && bounded(c.u@, 2 * FP_ONE as int) && bounded(
        c.v@,
        8 * FP_ONE as int,
    ) && bounded(c.w@, 2 * FP_ONE as int) && 0 <= c.lens_radius < 0x4000_0000 && in_range(
        c.time0 as int,
        0x8000_0000,
    ) && in_range(c.time1 as int, 0x8000_0000)
}

/// The point on the virtual screen that fractions `(s, t)` address,
/// relative to the lensed origin: the direction of the generated ray.
pub open spec fn screen_dir(c: Camera, s: int, t: int, off: V3i) -> V3i {
    vsub(
        vsub(
            vadd(vadd(c.lower_left_corner@, vscale(c.horizontal@, s)), vscale(c.vertical@, t)),
            c.origin@,
        ),
        off,
    )
}

/// The origin offset a lens sample `d` produces.
pub open spec fn lens_offset(c: Camera, d: V3i) -> V3i {
    vadd(
        vscale(c.u@, fpmul(d.x, c.lens_radius as int)),
        vscale(c.v@, fpmul(d.y, c.lens_radius as int)),
    )
}

/// What a generated primary ray is: for some lens sample inside the
/// unit disk, the ray starts at the origin shifted by that sample's
/// offset and aims at the screen point for fractions `(s, t)`, and its
/// time lies within the shutter interval.
pub open spec fn camera_ray_rel(c: Camera, s: int, t: int, r: RayV) -> bool {
    (exists|d: V3i|
        #![trigger lens_offset(c, d)]
        bounded(d, FP_ONE as int) && vdot(d, d) < FP_ONE as int && r.orig == vadd(
            c.origin@,
            lens_offset(c, d),
        ) && r.dir == screen_dir(c, s, t, lens_offset(c, d))) && (c.time0 <= c.time1
        ==> c.time0 as int <= r.time <= c.time1 as int)
}

/// A point sampled inside the unit disk by rejection; after too many
/// rejections the centre is returned.
pub fn random_in_unit_disk(rng: &mut Rng) -> (r: Vec3)
    ensures
        bounded(r@, FP_ONE as int),
        vdot(r@, r@) < FP_ONE as int,
        r@.z == 0,
{
    let mut tries: usize = 0;
    while tries < 64
        invariant
            tries <= 64,
        decreases 64 - tries,
    {
        let a = rng.next_unit();
        let b = rng.next_unit();
        let p = Vec3::new(2 * a - FP_ONE, 2 * b - FP_ONE, 0);
        if p.dot(&p) < FP_ONE {
            return p;
        }
        tries = tries + 1;
    }
    Vec3::zero()
}

/// Bounds all six products behind one fixed-point cross product.
proof fn lemma_cross_bound(a: V3i, b: V3i, ba: int, bb: int)
    requires
        bounded(a, ba),
        bounded(b, bb),
        0 <= ba,
        0 <= bb,
    ensures
        abs_int(vcross(a, b).x) * (FP_ONE as int) <= 2 * (ba * bb),
        abs_int(vcross(a, b).y) * (FP_ONE as int) <= 2 * (ba * bb),
        abs_int(vcross(a, b).z) * (FP_ONE as int) <= 2 * (ba * bb),
{
    lemma_prod_bound(a.y, b.z, ba, bb);
    lemma_prod_bound(a.z, b.y, ba, bb);
    lemma_prod_bound(a.z, b.x, ba, bb);
    lemma_prod_bound(a.x, b.z, ba, bb);
    lemma_prod_bound(a.x, b.y, ba, bb);
    lemma_prod_bound(a.y, b.x, ba, bb);
    crate::fp::lemma_fpmul_mag(a.y, b.z);
    crate::fp::lemma_fpmul_mag(a.z, b.y);
    crate::fp::lemma_fpmul_mag(a.z, b.x);
    crate::fp::lemma_fpmul_mag(a.x, b.z);
    crate::fp::lemma_fpmul_mag(a.x, b.y);
    crate::fp::lemma_fpmul_mag(a.y, b.x);
}

/// Bounds the three products behind one fixed-point scaling.
proof fn lemma_scale_bound(a: V3i, t: int, ba: int, bt: int)
    requires
        bounded(a, ba),
        in_range(t, bt),
        0 <= ba,
        0 <= bt,
    ensures
        abs_int(vscale(a, t).x) * (FP_ONE as int) <= ba * bt,
        abs_int(vscale(a, t).y) * (FP_ONE as int) <= ba * bt,
        abs_int(vscale(a, t).z) * (FP_ONE as int) <= ba * bt,
        -(ba * bt) <= a.x * t <= ba * bt,
        -(ba * bt) <= a.y * t <= ba * bt,
        -(ba * bt) <= a.z * t <= ba * bt,
{
    lemma_prod_bound(a.x, t, ba, bt);
    lemma_prod_bound(a.y, t, ba, bt);
    lemma_prod_bound(a.z, t, ba, bt);
    crate::fp::lemma_fpmul_mag(a.x, t);
    crate::fp::lemma_fpmul_mag(a.y, t);
    crate::fp::lemma_fpmul_mag(a.z, t);
}

impl Camera {
    /// Derives the camera basis and screen from look-from, look-at and
    /// up vectors.  The vertical field of view enters as the tangent of
    /// its half angle (`half_height`), in fixed point; `aspect` scales
    /// it to the half width.  The aperture's radius is half its
    /// diameter, and rays carry times within `[t0, t1]`.
    pub fn new(
        lookfrom: &Vec3,
        lookat: &Vec3,
        vup: &Vec3,
        half_height: i64,
        aspect: i64,
        aperture: i64,
        focus_dist: i64,
        t0: i64,
        t1: i64,
    ) -> (c: Camera)
        requires
            bounded(lookfrom@, 0x4000_0000),
            bounded(lookat@, 0x4000_0000),
            bounded(vup@, 0x4000_0000),
            in_range(half_height as int, 0x8_0000),
            in_range(aspect as int, 0x8_0000),
            0 <= aperture < 0x4000_0000,
            0 <= focus_dist < 0x200_0000,
            in_range(t0 as int, 0x8000_0000),
            in_range(t1 as int, 0x8000_0000),
        ensures
            c.origin == lookfrom,
            c.w@ == vunit(vsub(lookfrom@, lookat@)),
            c.u@ == vunit(vcross(vup@, vunit(vsub(lookfrom@, lookat@)))),
            c.v@ == vcross(
                vunit(vsub(lookfrom@, lookat@)),
                vunit(vcross(vup@, vunit(vsub(lookfrom@, lookat@)))),
            ),
            c.lens_radius as int == fpmul(aperture as int, (FP_ONE as int) / 2),
            c.time0 == t0,
            c.time1 == t1,
            c.horizontal@ == vscale(
                c.u@,
                2 * fpmul(fpmul(aspect as int, half_height as int), focus_dist as int),
            ),
            c.vertical@ == vscale(c.v@, 2 * fpmul(half_height as int, focus_dist as int)),
            c.lower_left_corner@ == vsub(
                vsub(
                    vsub(
                        lookfrom@,
                        vscale(
                            c.u@,
                            fpmul(fpmul(aspect as int, half_height as int), focus_dist as int),
                        ),
                    ),
                    vscale(c.v@, fpmul(half_height as int, focus_dist as int)),
                ),
                vscale(c.w@, focus_dist as int),
            ),
            wf_camera(c),
    {
        proof {
            lemma_prod_bound(aperture as int, (FP_ONE as int) / 2, 0x4000_0000, 0x8000);
            crate::fp::lemma_fpmul_mag(aperture as int, (FP_ONE as int) / 2);
        }
        let lens_radius = fp_mul(aperture, FP_ONE / 2);
        let w = lookfrom.sub(lookat).unit_vector();
        let cross_up_w = vup.cross(&w);
        proof {
            lemma_cross_bound(vup@, w@, 0x4000_0000, 0x2_0000);
        }
        let u = cross_up_w.unit_vector();
        let v = w.cross(&u);
        proof {
            lemma_cross_bound(w@, u@, 0x2_0000, 0x2_0000);
            lemma_prod_bound(aspect as int, half_height as int, 0x8_0000, 0x8_0000);
            crate::fp::lemma_fpmul_mag(aspect as int, half_height as int);
        }
        let half_width = fp_mul(aspect, half_height);
        proof {
            lemma_prod_bound(half_width as int, focus_dist as int, 0x40_0000, 0x200_0000);
            lemma_prod_bound(half_height as int, focus_dist as int, 0x8_0000, 0x200_0000);
            crate::fp::lemma_fpmul_mag(half_width as int, focus_dist as int);
            crate::fp::lemma_fpmul_mag(half_height as int, focus_dist as int);
        }
        let hw_f = fp_mul(half_width, focus_dist);
        let hh_f = fp_mul(half_height, focus_dist);
        proof {
            lemma_scale_bound(u@, hw_f as int, 0x2_0000, 0x8000_0000);
            lemma_scale_bound(v@, hh_f as int, 0x8_0000, 0x1000_0000);
            lemma_scale_bound(w@, focus_dist as int, 0x2_0000, 0x200_0000);
            lemma_scale_bound(u@, 2 * hw_f as int, 0x2_0000, 0x1_0000_0000);
            lemma_scale_bound(v@, 2 * hh_f as int, 0x8_0000, 0x2000_0000);
        }
        let u_hw = u.scale(hw_f);
        let v_hh = v.scale(hh_f);
        let w_f = w.scale(focus_dist);
        let lower_left_corner = lookfrom.sub(&u_hw).sub(&v_hh).sub(&w_f);
        let horizontal = u.scale(2 * hw_f);
        let vertical = v.scale(2 * hh_f);
        Camera {
            origin: *lookfrom,
            lower_left_corner,
            horizontal,
            vertical,
            u,
            v,
            w,
            lens_radius,
            time0: t0,
            time1: t1,
        }
    }

    /// One primary ray through screen fractions `(s, t)`.  The origin
    /// is offset by a lens sample scaled by the aperture radius, and
    /// the time is drawn uniformly from the shutter interval.  With a
    /// closed aperture (radius zero) the offset vanishes exactly: the
    /// ray then starts at the camera origin and aims at the screen
    /// point, whatever the random source returned.
    #[verifier::rlimit(100)]
    #[verifier::spinoff_prover]
    pub fn get_ray(&self, s: i64, t: i64, rng: &mut Rng) -> (r: Ray)
        requires
            wf_camera(*self),
            0 <= s <= FP_ONE,
            0 <= t <= FP_ONE,
        ensures
            wf_ray(r@),
            camera_ray_rel(*self, s as int, t as int, r@),
            self.lens_radius == 0 ==> r@.orig == self.origin@ && r@.dir == screen_dir(
                *self,
                s as int,
                t as int,
                V3i { x: 0, y: 0, z: 0 },
            ),
    {
        let rd = random_in_unit_disk(rng);
        proof {
            lemma_prod_bound(rd@.x, self.lens_radius as int, 0x1_0000, 0x4000_0000);
            lemma_prod_bound(rd@.y, self.lens_radius as int, 0x1_0000, 0x4000_0000);
            crate::fp::lemma_fpmul_mag(rd@.x, self.lens_radius as int);
            crate::fp::lemma_fpmul_mag(rd@.y, self.lens_radius as int);
        }
        let ox = fp_mul(rd.x, self.lens_radius);
        let oy = fp_mul(rd.y, self.lens_radius);
        proof {
            lemma_scale_bound(self.u@, ox as int, 0x2_0000, 0x4000_0000);
            lemma_scale_bound(self.v@, oy as int, 0x8_0000, 0x4000_0000);
        }
        let offset = self.u.scale(ox).add(&self.v.scale(oy));
        proof {
            lemma_scale_bound(self.horizontal@, s as int, 0x2_0000_0000, 0x1_0000);
            lemma_scale_bound(self.vertical@, t as int, 0x2_0000_0000, 0x1_0000);
        }
        let screen = self.lower_left_corner.add(&self.horizontal.scale(s)).add(
            &self.vertical.scale(t),
        );
        let dir = screen.sub(&self.origin).sub(&offset);
        let origin = self.origin.add(&offset);
        let dt = rng.next_unit();
        proof {
            lemma_prod_bound(
                self.time1 as int - self.time0 as int,
                dt as int,
                0x1_0000_0000,
                0x1_0000,
            );
            crate::fp::lemma_fpmul_mag(self.time1 as int - self.time0 as int, dt as int);
        }
        let time = self.time0 + fp_mul(self.time1 - self.time0, dt);
        proof {
            let delta = self.time1 as int - self.time0 as int;
            let f = fpmul(delta, dt as int);
            crate::fp::lemma_tdiv_mag(delta * (dt as int), FP_ONE as int);
            assert(abs_int(delta * (dt as int)) <= abs_int(delta) * (FP_ONE as int))
                by (nonlinear_arith)
                requires
                    0 <= dt < FP_ONE,
            ;
            if self.time0 <= self.time1 {
                assert(0 <= delta * (dt as int) <= delta * (FP_ONE as int)) by (nonlinear_arith)
                    requires
                        delta >= 0,
                        0 <= dt < FP_ONE,
                ;
                vstd::arithmetic::div_mod::lemma_div_is_ordered(
                    delta * (dt as int),
                    delta * (FP_ONE as int),
                    FP_ONE as int,
                );
                vstd::arithmetic::div_mod::lemma_div_multiples_vanish(delta, FP_ONE as int);
                assert(0 <= f <= delta);
            } else {
                assert(delta * (dt as int) <= 0) by (nonlinear_arith)
                    requires
                        delta < 0,
                        0 <= dt,
                ;
                assert(delta <= f <= 0);
            }
            if self.lens_radius == 0 {
                assert(rd@.x * 0 == 0 && rd@.y * 0 == 0) by (nonlinear_arith);
                crate::fp::lemma_fpmul_mag(rd@.x, 0);
                crate::fp::lemma_fpmul_mag(rd@.y, 0);
                assert(ox == 0 && oy == 0);
                assert(self.u@.x * 0 == 0 && self.u@.y * 0 == 0 && self.u@.z * 0 == 0 && self.v@.x
                    * 0 == 0 && self.v@.y * 0 == 0 && self.v@.z * 0 == 0) by (nonlinear_arith);
                crate::fp::lemma_fpmul_mag(self.u@.x, 0);
                crate::fp::lemma_fpmul_mag(self.u@.y, 0);
                crate::fp::lemma_fpmul_mag(self.u@.z, 0);
                crate::fp::lemma_fpmul_mag(self.v@.x, 0);
                crate::fp::lemma_fpmul_mag(self.v@.y, 0);
                crate::fp::lemma_fpmul_mag(self.v@.z, 0);
                assert(offset@.x == 0 && offset@.y == 0 && offset@.z == 0);
                assert(offset@ == (V3i { x: 0int, y: 0int, z: 0int }));
            }
            assert(bounded(rd@, FP_ONE as int) && vdot(rd@, rd@) < FP_ONE as int);
            assert(offset@ == lens_offset(*self, rd@));
        }
        Ray::new(&origin, &dir, time)
    }
}

} // verus!
