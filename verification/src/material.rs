//! Materials: diffuse scattering, light emission, and the inert filler.

use vstd::prelude::*;
use crate::fp::FP_ONE;
use crate::vec3::{Vec3, V3i, vadd, vdot, bounded};
use crate::ray::Ray;
use crate::hitable::HitRecord;
use crate::texture::{Texture, wf_texture, texture_value};
use crate::rng::Rng;

verus! {

/// A surface response: diffuse scattering, pure emission, or nothing.
pub enum Material {
    Lambertian(Texture),
    DiffuseLight(Texture),
    Inert,
}

pub open spec fn wf_material(m: Material) -> bool {
    match m {
        Material::Lambertian(t) => wf_texture(t),
        Material::DiffuseLight(t) => wf_texture(t),
        Material::Inert => true,
    }
}

/// Clamp a colour channel into `[0, 1]`: a physical albedo.  The
/// clamp is a deliberate tightening of the plain texture colour: an
/// attenuation above one would let radiance grow without bound down
/// the recursion, where the plain colour of every stock texture
/// already lies inside the unit cube.
pub open spec fn clamp01(a: int) -> int {
    if a < 0 {
        0
    } else if a > FP_ONE as int {
        FP_ONE as int
    } else {
        a
    }
}

/// The diffuse albedo: the texture colour, clamped channelwise.
pub open spec fn albedo(t: Texture, u: int, v: int, p: V3i) -> V3i {
    let c = texture_value(t, u, v, p);
    V3i { x: clamp01(c.x), y: clamp01(c.y), z: clamp01(c.z) }
}

/// What a material emits: lights return their texture colour, the
/// others black.
pub open spec fn emitted_spec(m: Material, u: int, v: int, p: V3i) -> V3i {
    match m {
        Material::DiffuseLight(t) => texture_value(t, u, v, p),
        _ => V3i { x: 0, y: 0, z: 0 },
    }
}

/// A sample strictly inside the unit sphere.
pub open spec fn in_unit_sphere(s: V3i) -> bool {
    bounded(s, FP_ONE as int) && vdot(s, s) < FP_ONE as int
}

/// A point sampled inside the unit sphere by rejection; after too many
/// rejections the centre is returned.
pub fn random_in_unit_sphere(rng: &mut Rng) -> (r: Vec3)
    ensures
        in_unit_sphere(r@),
{
    let mut tries: usize = 0;
    while tries < 64
        invariant
            tries <= 64,
        decreases 64 - tries,
    {
        let a = rng.next_unit();
        let b = rng.next_unit();
        let c = rng.next_unit();
        let p = Vec3::new(2 * a - FP_ONE, 2 * b - FP_ONE, 2 * c - FP_ONE);
        if p.squared_len() < FP_ONE {
            return p;
        }
        tries = tries + 1;
    }
    Vec3::zero()
}

fn clamp01_exec(a: i64) -> (r: i64)
    ensures
        r as int == clamp01(a as int),
{
    if a < 0 {
        0
    } else if a > FP_ONE {
        FP_ONE
    } else {
        a
    }
}

impl Material {
    /// Emitted light at a hit: lights return their texture's colour,
    /// everything else returns black.
    pub fn emitted(&self, u: i64, v: i64, p: &Vec3) -> (r: Vec3)
        requires
            wf_material(*self),
            bounded(p@, 0x10_0000_0000),
        ensures
            r@ == emitted_spec(*self, u as int, v as int, p@),
            bounded(r@, 0x4000_0000),
    {
        match self {
            Material::DiffuseLight(t) => t.value(u, v, p),
            _ => Vec3::zero(),
        }
    }

    /// Scattering.  A diffuse surface always scatters: the attenuation
    /// is the clamped texture colour and the new ray leaves the hit
    /// point toward the normal plus a unit-sphere sample, carrying the
    /// incoming ray's time.  Lights and the inert filler never scatter.
    pub fn scatter(&self, r_in: &Ray, rec: &HitRecord, rng: &mut Rng) -> (res: Option<(Vec3, Ray)>)
        requires
            wf_material(*self),
            bounded(rec.p@, 0x10_0000_0000),
            bounded(rec.normal@, 0x10_0000),
        ensures
            match *self {
                Material::Lambertian(t) => res is Some && {
                    let (att, sc) = res->0;
                    att@ == albedo(t, rec@.u, rec@.v, rec@.p) && sc@.orig == rec@.p && sc@.time
                        == r_in@.time && bounded(sc@.dir, 0x20_0000) && (exists|s: V3i|
                        in_unit_sphere(s) && sc@.dir == vadd(rec@.normal, s))
                },
                Material::DiffuseLight(_) => res is None,
                Material::Inert => res is None,
            },
    {
        match self {
            Material::Lambertian(t) => {
                let s = random_in_unit_sphere(rng);
                let dir = rec.normal.add(&s);
                let scattered = Ray::new(&rec.p, &dir, r_in.time());
                let c = t.value(rec.u, rec.v, &rec.p);
                let att = Vec3::new(clamp01_exec(c.x), clamp01_exec(c.y), clamp01_exec(c.z));
                proof {
                    assert(in_unit_sphere(s@) && scattered@.dir == vadd(rec@.normal, s@));
                }
                Option::Some((att, scattered))
            },
            _ => Option::None,
        }
    }
}

} // verus!
