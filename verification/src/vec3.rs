//! Three-component fixed-point vectors.
//!
//! `Vec3` carries scaled `i64` components; its mathematical model `V3i`
//! carries unbounded integers, so every operation has an exact meaning
//! (`vadd`, `vdot`, ...) stated over `fpmul` / `fpdiv` rounding.

use vstd::prelude::*;
use crate::fp::{fpmul, fpdiv, tdiv, is_isqrt, abs_int, fp_mul, fp_div, fp_sqrt, FP_ONE};

verus! {

/// The mathematical value of a `Vec3`: unbounded integer components.
pub ghost struct V3i {
    pub x: int,
    pub y: int,
    pub z: int,
}

/// A vector of three fixed-point scalars.
#[derive(Clone, Copy, Debug, PartialEq, Eq, Structural)]
pub struct Vec3 {
    pub x: i64,
    pub y: i64,
    pub z: i64,
}

pub open spec fn in_range(a: int, b: int) -> bool {
    -b <= a <= b
}

pub open spec fn bounded(v: V3i, b: int) -> bool {
    in_range(v.x, b) && in_range(v.y, b) && in_range(v.z, b)
}

pub open spec fn vadd(a: V3i, b: V3i) -> V3i {
    V3i { x: a.x + b.x, y: a.y + b.y, z: a.z + b.z }
}

pub open spec fn vsub(a: V3i, b: V3i) -> V3i {
    V3i { x: a.x - b.x, y: a.y - b.y, z: a.z - b.z }
}

pub open spec fn vscale(a: V3i, t: int) -> V3i {
    V3i { x: fpmul(a.x, t), y: fpmul(a.y, t), z: fpmul(a.z, t) }
}

pub open spec fn vcmul(a: V3i, b: V3i) -> V3i {
    V3i { x: fpmul(a.x, b.x), y: fpmul(a.y, b.y), z: fpmul(a.z, b.z) }
}

pub open spec fn vdot(a: V3i, b: V3i) -> int {
    fpmul(a.x, b.x) + fpmul(a.y, b.y) + fpmul(a.z, b.z)
}

pub open spec fn vcross(a: V3i, b: V3i) -> V3i {
    V3i {
        x: fpmul(a.y, b.z) - fpmul(a.z, b.y),
        y: fpmul(a.z, b.x) - fpmul(a.x, b.z),
        z: fpmul(a.x, b.y) - fpmul(a.y, b.x),
    }
}

/// The unique integer square root.
pub open spec fn isqrt_spec(n: int) -> int {
    choose|r: int| is_isqrt(r, n)
}

/// The fixed-point length of a vector.
pub open spec fn vlen(a: V3i) -> int {
    isqrt_spec(vdot(a, a) * (FP_ONE as int))
}

/// Clamp a scalar into `[-b, b]`.
pub open spec fn clamp_spec(a: int, b: int) -> int {
    if a < -b {
        -b
    } else if a > b {
        b
    } else {
        a
    }
}

/// The fixed-point unit vector: each component divided by the length,
/// clamped to twice the unit so the result is always small; the zero
/// vector (and any vector too short to measure) maps to zero.
pub open spec fn vunit(a: V3i) -> V3i {
    let l = vlen(a);
    if l <= 0 {
        V3i { x: 0, y: 0, z: 0 }
    } else {
        V3i {
            x: clamp_spec(fpdiv(a.x, l), 2 * FP_ONE as int),
            y: clamp_spec(fpdiv(a.y, l), 2 * FP_ONE as int),
            z: clamp_spec(fpdiv(a.z, l), 2 * FP_ONE as int),
        }
    }
}

pub proof fn lemma_isqrt_unique(r: int, n: int)
    requires
        is_isqrt(r, n),
    ensures
        r == isqrt_spec(n),
{
    let s = isqrt_spec(n);
    assert(is_isqrt(s, n)) by {
        assert(exists|q: int| is_isqrt(q, n)) by {
            assert(is_isqrt(r, n));
        }
    }
    assert(r == s) by (nonlinear_arith)
        requires
            is_isqrt(r, n),
            is_isqrt(s, n),
    ;
}

pub proof fn lemma_fpmul_sq_nonneg(a: int)
    ensures
        fpmul(a, a) >= 0,
        fpmul(a, a) <= a * a,
{
    assert(a * a >= 0) by (nonlinear_arith);
    vstd::arithmetic::div_mod::lemma_div_pos_is_pos(a * a, FP_ONE as int);
    vstd::arithmetic::div_mod::lemma_div_nonincreasing(a * a, FP_ONE as int);
}

impl View for Vec3 {
    type V = V3i;

    open spec fn view(&self) -> V3i {
        V3i { x: self.x as int, y: self.y as int, z: self.z as int }
    }
}

impl Vec3 {
    pub fn new(x: i64, y: i64, z: i64) -> (r: Vec3)
        ensures
            r@ == (V3i { x: x as int, y: y as int, z: z as int }),
    {
        Vec3 { x, y, z }
    }

    pub fn zero() -> (r: Vec3)
        ensures
            r@ == (V3i { x: 0int, y: 0int, z: 0int }),
    {
        Vec3 { x: 0, y: 0, z: 0 }
    }

    pub fn add(&self, o: &Vec3) -> (r: Vec3)
        requires
            bounded(self@, 0x2000_0000_0000_0000),
            bounded(o@, 0x2000_0000_0000_0000),
        ensures
            r@ == vadd(self@, o@),
    {
        Vec3 { x: self.x + o.x, y: self.y + o.y, z: self.z + o.z }
    }

    pub fn sub(&self, o: &Vec3) -> (r: Vec3)
        requires
            bounded(self@, 0x2000_0000_0000_0000),
            bounded(o@, 0x2000_0000_0000_0000),
        ensures
            r@ == vsub(self@, o@),
    {
        Vec3 { x: self.x - o.x, y: self.y - o.y, z: self.z - o.z }
    }

    pub fn scale(&self, t: i64) -> (r: Vec3)
        requires
            bounded(self@, 0x100_0000_0000),
            in_range(t as int, 0x40_0000_0000),
        ensures
            r@ == vscale(self@, t as int),
    {
        proof {
            lemma_prod_bound(self@.x, t as int, 0x100_0000_0000, 0x40_0000_0000);
            lemma_prod_bound(self@.y, t as int, 0x100_0000_0000, 0x40_0000_0000);
            lemma_prod_bound(self@.z, t as int, 0x100_0000_0000, 0x40_0000_0000);
        }
        Vec3 { x: fp_mul(self.x, t), y: fp_mul(self.y, t), z: fp_mul(self.z, t) }
    }

    pub fn cmul(&self, o: &Vec3) -> (r: Vec3)
        requires
            bounded(self@, 0x80_0000_0000),
            bounded(o@, 0x80_0000_0000),
        ensures
            r@ == vcmul(self@, o@),
    {
        proof {
            lemma_prod_bound(self@.x, o@.x, 0x80_0000_0000, 0x80_0000_0000);
            lemma_prod_bound(self@.y, o@.y, 0x80_0000_0000, 0x80_0000_0000);
            lemma_prod_bound(self@.z, o@.z, 0x80_0000_0000, 0x80_0000_0000);
        }
        Vec3 { x: fp_mul(self.x, o.x), y: fp_mul(self.y, o.y), z: fp_mul(self.z, o.z) }
    }

    pub fn dot(&self, o: &Vec3) -> (r: i64)
        requires
            bounded(self@, 0x40_0000_0000),
            bounded(o@, 0x40_0000_0000),
        ensures
            r == vdot(self@, o@),
    {
        proof {
            lemma_prod_bound(self@.x, o@.x, 0x40_0000_0000, 0x40_0000_0000);
            lemma_prod_bound(self@.y, o@.y, 0x40_0000_0000, 0x40_0000_0000);
            lemma_prod_bound(self@.z, o@.z, 0x40_0000_0000, 0x40_0000_0000);
            crate::fp::lemma_fpmul_mag(self@.x, o@.x);
            crate::fp::lemma_fpmul_mag(self@.y, o@.y);
            crate::fp::lemma_fpmul_mag(self@.z, o@.z);
        }
        fp_mul(self.x, o.x) + fp_mul(self.y, o.y) + fp_mul(self.z, o.z)
    }

    pub fn cross(&self, o: &Vec3) -> (r: Vec3)
        requires
            bounded(self@, 0x40_0000_0000),
            bounded(o@, 0x40_0000_0000),
        ensures
            r@ == vcross(self@, o@),
    {
        proof {
            lemma_prod_bound(self@.x, o@.x, 0x40_0000_0000, 0x40_0000_0000);
            lemma_prod_bound(self@.x, o@.y, 0x40_0000_0000, 0x40_0000_0000);
            lemma_prod_bound(self@.x, o@.z, 0x40_0000_0000, 0x40_0000_0000);
            lemma_prod_bound(self@.y, o@.x, 0x40_0000_0000, 0x40_0000_0000);
            lemma_prod_bound(self@.y, o@.z, 0x40_0000_0000, 0x40_0000_0000);
            lemma_prod_bound(self@.z, o@.x, 0x40_0000_0000, 0x40_0000_0000);
            lemma_prod_bound(self@.z, o@.y, 0x40_0000_0000, 0x40_0000_0000);
            crate::fp::lemma_fpmul_mag(self@.y, o@.z);
            crate::fp::lemma_fpmul_mag(self@.z, o@.y);
            crate::fp::lemma_fpmul_mag(self@.z, o@.x);
            crate::fp::lemma_fpmul_mag(self@.x, o@.z);
            crate::fp::lemma_fpmul_mag(self@.x, o@.y);
            crate::fp::lemma_fpmul_mag(self@.y, o@.x);
        }
        Vec3 {
            x: fp_mul(self.y, o.z) - fp_mul(self.z, o.y),
            y: fp_mul(self.z, o.x) - fp_mul(self.x, o.z),
            z: fp_mul(self.x, o.y) - fp_mul(self.y, o.x),
        }
    }

    pub fn squared_len(&self) -> (r: i64)
        requires
            bounded(self@, 0x40_0000_0000),
        ensures
            r == vdot(self@, self@),
            r >= 0,
    {
        proof {
            lemma_fpmul_sq_nonneg(self@.x);
            lemma_fpmul_sq_nonneg(self@.y);
            lemma_fpmul_sq_nonneg(self@.z);
        }
        self.dot(self)
    }

    pub fn length(&self) -> (r: i64)
        requires
            bounded(self@, 0x40_0000_0000),
        ensures
            r == vlen(self@),
            r >= 0,
    {
        let q = self.squared_len();
        let r = fp_sqrt(q);
        proof {
            lemma_isqrt_unique(r as int, vdot(self@, self@) * (FP_ONE as int));
        }
        r
    }

    pub fn unit_vector(&self) -> (r: Vec3)
        requires
            bounded(self@, 0x40_0000_0000),
        ensures
            r@ == vunit(self@),
            bounded(r@, 2 * FP_ONE as int),
    {
        let l = self.length();
        if l <= 0 {
            Vec3 { x: 0, y: 0, z: 0 }
        } else {
            Vec3 {
                x: clamped_div(self.x, l),
                y: clamped_div(self.y, l),
                z: clamped_div(self.z, l),
            }
        }
    }
}

/// Fixed-point quotient clamped to twice the unit.
fn clamped_div(a: i64, b: i64) -> (r: i64)
    requires
        b > 0,
        in_range(a as int, 0x40_0000_0000),
    ensures
        r == clamp_spec(fpdiv(a as int, b as int), 2 * FP_ONE as int),
        in_range(r as int, 2 * FP_ONE as int),
{
    proof {
        crate::fp::lemma_tdiv_mag(a as int * FP_ONE as int, b as int);
    }
    let q = fp_div(a, b);
    if q < -2 * FP_ONE {
        -2 * FP_ONE
    } else if q > 2 * FP_ONE {
        2 * FP_ONE
    } else {
        q
    }
}

/// A componentwise bound on the fixed-point dot product.
pub proof fn lemma_vdot_bound(a: V3i, b: V3i, ba: int, bb: int)
    requires
        bounded(a, ba),
        bounded(b, bb),
        0 <= ba,
        0 <= bb,
    ensures
        abs_int(vdot(a, b)) * (FP_ONE as int) <= 3 * (ba * bb),
{
    lemma_prod_bound(a.x, b.x, ba, bb);
    lemma_prod_bound(a.y, b.y, ba, bb);
    lemma_prod_bound(a.z, b.z, ba, bb);
    crate::fp::lemma_fpmul_mag(a.x, b.x);
    crate::fp::lemma_fpmul_mag(a.y, b.y);
    crate::fp::lemma_fpmul_mag(a.z, b.z);
    let f1 = fpmul(a.x, b.x);
    let f2 = fpmul(a.y, b.y);
    let f3 = fpmul(a.z, b.z);
    assert(abs_int(f1) * (FP_ONE as int) <= ba * bb) by (nonlinear_arith)
        requires
            abs_int(f1) * (FP_ONE as int) <= abs_int(a.x * b.x),
            -(ba * bb) <= a.x * b.x <= ba * bb,
    ;
    assert(abs_int(f2) * (FP_ONE as int) <= ba * bb) by (nonlinear_arith)
        requires
            abs_int(f2) * (FP_ONE as int) <= abs_int(a.y * b.y),
            -(ba * bb) <= a.y * b.y <= ba * bb,
    ;
    assert(abs_int(f3) * (FP_ONE as int) <= ba * bb) by (nonlinear_arith)
        requires
            abs_int(f3) * (FP_ONE as int) <= abs_int(a.z * b.z),
            -(ba * bb) <= a.z * b.z <= ba * bb,
    ;
    assert(abs_int(f1 + f2 + f3) <= abs_int(f1) + abs_int(f2) + abs_int(f3));
    assert(abs_int(f1 + f2 + f3) * (FP_ONE as int) <= (abs_int(f1) + abs_int(f2) + abs_int(f3)) * (
    FP_ONE as int)) by (nonlinear_arith)
        requires
            abs_int(f1 + f2 + f3) <= abs_int(f1) + abs_int(f2) + abs_int(f3),
    ;
}

pub proof fn lemma_prod_bound(a: int, b: int, ba: int, bb: int)
    requires
        in_range(a, ba),
        in_range(b, bb),
        0 <= ba,
        0 <= bb,
    ensures
        -(ba * bb) <= a * b <= ba * bb,
{
    assert(-(ba * bb) <= a * b <= ba * bb) by (nonlinear_arith)
        requires
            -ba <= a <= ba,
            -bb <= b <= bb,
            0 <= ba,
            0 <= bb,
    ;
}

} // verus!
