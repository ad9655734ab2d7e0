//! Procedural textures: constant colour, a sine-grid checker, and the
//! marble-vein noise texture built on turbulence.

use vstd::prelude::*;
use crate::fp::{fpmul, FP_ONE, fp_mul, fp_sin, sin_fp, abs_int};
use crate::vec3::{Vec3, V3i, bounded, in_range, vscale, lemma_prod_bound};
use crate::perlin::{Perlin, wf_perlin, turb_acc};
use crate::rng::Rng;

verus! {

/// A colour field over surface coordinates and world position.
pub enum Texture {
    Constant(ConstantTexture),
    Checker(Box<CheckerTexture>),
    Noise(NoiseTexture),
}

/// A fixed colour.
#[derive(Clone, Copy, Debug)]
pub struct ConstantTexture {
    pub color: Vec3,
}

/// Alternates two sub-textures on the sign of a sine grid.
pub struct CheckerTexture {
    pub odd: Texture,
    pub even: Texture,
}

/// White scaled by a sine of depth plus turbulence: a marble vein.
#[derive(Clone, Debug)]
pub struct NoiseTexture {
    pub noise: Perlin,
    pub scale: i64,
}

pub open spec fn wf_texture(t: Texture) -> bool
    decreases t,
{
    match t {
        Texture::Constant(c) => bounded(c.color@, 0x4000_0000),
        Texture::Checker(b) => wf_texture(b.odd) && wf_texture(b.even),
        Texture::Noise(n) => wf_perlin(n.noise) && in_range(n.scale as int, 0x4000_0000),
    }
}

/// The marble-vein scalar: half of one plus the sine of `scale * z`
/// plus twenty times the turbulence of the doubled point.
pub open spec fn marble(n: NoiseTexture, p: V3i) -> int {
    fpmul(
        (FP_ONE as int) / 2,
        (FP_ONE as int) + sin_fp(
            fpmul(n.scale as int, p.z) + 20 * abs_int(
                turb_acc(n.noise, vscale(p, 2 * (FP_ONE as int)), 3, FP_ONE as int),
            ),
        ),
    )
}

/// The colour of a texture at surface coordinates and a world point.
/// Opaque: callers reason through it as a name; `Texture::value`
/// computes it.
#[verifier::opaque]
pub open spec fn texture_value(t: Texture, u: int, v: int, p: V3i) -> V3i
    decreases t,
{
    match t {
        Texture::Constant(c) => c.color@,
        Texture::Checker(b) => {
            let sines = fpmul(
                fpmul(sin_fp(10 * p.x), sin_fp(10 * p.y)),
                sin_fp(10 * p.z),
            );
            if sines < 0 {
                texture_value(b.odd, u, v, p)
            } else {
                texture_value(b.even, u, v, p)
            }
        },
        Texture::Noise(n) => {
            let g = marble(n, p);
            V3i { x: g, y: g, z: g }
        },
    }
}

impl ConstantTexture {
    pub fn new(c: Vec3) -> (t: ConstantTexture)
        ensures
            t.color == c,
    {
        ConstantTexture { color: c }
    }
}

impl CheckerTexture {
    pub fn new(t0: Texture, t1: Texture) -> (t: CheckerTexture)
        ensures
            t.odd == t0,
            t.even == t1,
    {
        CheckerTexture { odd: t0, even: t1 }
    }
}

impl NoiseTexture {
    /// Builds the texture with a freshly generated gradient table.
    pub fn new(sc: i64, rng: &mut Rng) -> (t: NoiseTexture)
        requires
            in_range(sc as int, 0x4000_0000),
        ensures
            t.scale == sc,
            wf_texture(Texture::Noise(t)),
    {
        NoiseTexture { noise: Perlin::new(rng), scale: sc }
    }
}

impl Texture {
    /// The colour at `(u, v)` and world point `p`; componentwise within
    /// the scene colour range.
    pub fn value(&self, u: i64, v: i64, p: &Vec3) -> (r: Vec3)
        requires
            wf_texture(*self),
            bounded(p@, 0x10_0000_0000),
        ensures
            r@ == texture_value(*self, u as int, v as int, p@),
            bounded(r@, 0x4000_0000),
        decreases *self,
    {
        proof {
            reveal_with_fuel(texture_value, 1);
        }
        match self {
            Texture::Constant(c) => c.color,
            Texture::Checker(b) => {
                let sx = fp_sin(10 * p.x);
                let sy = fp_sin(10 * p.y);
                let sz = fp_sin(10 * p.z);
                proof {
                    lemma_prod_bound(sx as int, sy as int, 0x1_0000, 0x1_0000);
                    crate::fp::lemma_tdiv_mag((sx as int) * (sy as int), FP_ONE as int);
                    lemma_prod_bound(fpmul(sx as int, sy as int), sz as int, 0x1_0000, 0x1_0000);
                }
                let sines = fp_mul(fp_mul(sx, sy), sz);
                if sines < 0 {
                    b.odd.value(u, v, p)
                } else {
                    b.even.value(u, v, p)
                }
            },
            Texture::Noise(n) => {
                let doubled = p.scale(2 * FP_ONE);
                proof {
                    crate::fp::lemma_fpmul_mag(p@.x, 2 * FP_ONE as int);
                    crate::fp::lemma_fpmul_mag(p@.y, 2 * FP_ONE as int);
                    crate::fp::lemma_fpmul_mag(p@.z, 2 * FP_ONE as int);
                    lemma_prod_bound(p@.x, 2 * FP_ONE as int, 0x10_0000_0000, 0x2_0000);
                    lemma_prod_bound(p@.y, 2 * FP_ONE as int, 0x10_0000_0000, 0x2_0000);
                    lemma_prod_bound(p@.z, 2 * FP_ONE as int, 0x10_0000_0000, 0x2_0000);
                }
                let tv = n.noise.turb(&doubled, 3);
                proof {
                    lemma_prod_bound(n.scale as int, p@.z, 0x4000_0000, 0x10_0000_0000);
                    crate::fp::lemma_fpmul_mag(n.scale as int, p@.z);
                }
                let arg = fp_mul(n.scale, p.z) + 20 * tv;
                let sv = fp_sin(arg);
                proof {
                    lemma_prod_bound(
                        (FP_ONE / 2) as int,
                        FP_ONE as int + sv as int,
                        0x8000,
                        0x2_0000,
                    );
                    crate::fp::lemma_tdiv_mag(
                        ((FP_ONE / 2) as int) * (FP_ONE as int + sv as int),
                        FP_ONE as int,
                    );
                }
                let g = fp_mul(FP_ONE / 2, FP_ONE + sv);
                Vec3::new(g, g, g)
            },
        }
    }
}

} // verus!
