//! Gradient noise: a 256-entry table of unit-length gradients and three
//! shuffled index tables, combined by lattice hashing and smoothed
//! trilinear interpolation; `turb` sums octaves at doubled frequencies
//! and halved weights and takes the absolute value.

use vstd::prelude::*;
use crate::fp::{fpmul, FP_ONE, fp_mul, floor_divrem, abs_int};
use crate::vec3::{Vec3, V3i, vdot, bounded, in_range, lemma_prod_bound, vscale};
use crate::rng::Rng;

verus! {

/// The gradient and permutation tables; immutable once generated.
#[derive(Clone, Debug)]
pub struct Perlin {
    pub ranvec: Vec<Vec3>,
    pub perm_x: Vec<u8>,
    pub perm_y: Vec<u8>,
    pub perm_z: Vec<u8>,
}

/// The table of the indices 0 through 255, in order.
pub open spec fn ident_table() -> Seq<u8> {
    Seq::new(256, |i: int| i as u8)
}

/// Tables of the right size: the index tables are permutations of the
/// indices 0 through 255, and every gradient is componentwise within
/// one unit and of near-unit squared length.
pub open spec fn wf_perlin(p: Perlin) -> bool {
    p.ranvec@.len() == 256 && p.perm_x@.len() == 256 && p.perm_y@.len() == 256 && p.perm_z@.len()
        == 256 && p.perm_x@.to_multiset() == ident_table().to_multiset()
        && p.perm_y@.to_multiset() == ident_table().to_multiset()
        && p.perm_z@.to_multiset() == ident_table().to_multiset() && forall|i: int|
        0 <= i < 256 ==> bounded(#[trigger] p.ranvec@[i]@, FP_ONE as int) && FP_ONE as int - 80
            <= vdot(p.ranvec@[i]@, p.ranvec@[i]@) <= FP_ONE as int + 80
}

/// The gradient at a lattice corner: the three permutation tables are
/// indexed by the coordinates mod 256 and combined by bitwise xor.
pub open spec fn grad_at(p: Perlin, i: int, j: int, k: int) -> V3i {
    let px = p.perm_x@[i % 256];
    let py = p.perm_y@[j % 256];
    let pz = p.perm_z@[k % 256];
    p.ranvec@[((px ^ py) ^ pz) as int]@
}

/// The smoothing polynomial `t^2 (3 - 2 t)` in fixed point.
pub open spec fn smooth(u: int) -> int {
    fpmul(fpmul(u, u), 3 * (FP_ONE as int) - 2 * u)
}

/// The interpolation weight of one lattice side.
pub open spec fn wsel(d: int, uu: int) -> int {
    if d == 1 {
        uu
    } else {
        (FP_ONE as int) - uu
    }
}

/// One corner's contribution: the smoothed trilinear weight times the
/// dot product of the corner's gradient with the offset to the sample.
pub open spec fn corner_term(
    p: Perlin,
    i: int,
    j: int,
    k: int,
    u: int,
    v: int,
    w: int,
    di: int,
    dj: int,
    dk: int,
) -> int {
    let g = grad_at(p, i + di, j + dj, k + dk);
    let off = V3i {
        x: u - di * (FP_ONE as int),
        y: v - dj * (FP_ONE as int),
        z: w - dk * (FP_ONE as int),
    };
    fpmul(fpmul(fpmul(wsel(di, smooth(u)), wsel(dj, smooth(v))), wsel(dk, smooth(w))), vdot(g, off))
}

/// The noise value at a point: the sum over the eight surrounding
/// lattice corners, with `i = floor(x)` and `u = frac(x)` per axis.
pub open spec fn noise_at(p: Perlin, x: int, y: int, z: int) -> int {
    let s = FP_ONE as int;
    let i = x / s;
    let j = y / s;
    let k = z / s;
    let u = x % s;
    let v = y % s;
    let w = z % s;
    corner_term(p, i, j, k, u, v, w, 0, 0, 0) + corner_term(p, i, j, k, u, v, w, 0, 0, 1)
        + corner_term(p, i, j, k, u, v, w, 0, 1, 0) + corner_term(p, i, j, k, u, v, w, 0, 1, 1)
        + corner_term(p, i, j, k, u, v, w, 1, 0, 0) + corner_term(p, i, j, k, u, v, w, 1, 0, 1)
        + corner_term(p, i, j, k, u, v, w, 1, 1, 0) + corner_term(p, i, j, k, u, v, w, 1, 1, 1)
}

/// The signed turbulence sum: octaves of noise at doubled frequency and
/// halved weight.
pub open spec fn turb_acc(p: Perlin, pt: V3i, depth: int, weight: int) -> int
    decreases depth,
{
    if depth <= 0 {
        0
    } else {
        fpmul(weight, noise_at(p, pt.x, pt.y, pt.z)) + turb_acc(
            p,
            vscale(pt, 2 * (FP_ONE as int)),
            depth - 1,
            fpmul(weight, (FP_ONE as int) / 2),
        )
    }
}

/// The smoothed weight stays within `[0, 1]`: the fixed-point form of
/// `s^3 - u^2 (3 s - 2 u) == (s - u)^2 (s + 2 u) >= 0`.
proof fn lemma_smooth_range(u: int)
    requires
        0 <= u < FP_ONE as int,
    ensures
        0 <= smooth(u) <= FP_ONE as int,
{
    let s = FP_ONE as int;
    let q = fpmul(u, u);
    crate::vec3::lemma_fpmul_sq_nonneg(u);
    crate::fp::lemma_tdiv_mag(u * u, s);
    let c = 3 * s - 2 * u;
    assert(q * c >= 0) by (nonlinear_arith)
        requires
            q >= 0,
            c > 0,
    ;
    vstd::arithmetic::div_mod::lemma_div_pos_is_pos(q * c, s);
    assert(s * s * s - (u * u) * c == (s - u) * ((s - u) * (s + 2 * u))) by (nonlinear_arith)
        requires
            c == 3 * s - 2 * u,
    ;
    assert((s - u) * ((s - u) * (s + 2 * u)) >= 0) by (nonlinear_arith)
        requires
            0 <= u < s,
    ;
    assert(q * c * s <= (u * u) * c) by (nonlinear_arith)
        requires
            q * s <= u * u,
            c >= 0,
            s == 65536,
    ;
    assert(q * c <= s * s) by (nonlinear_arith)
        requires
            q * c * s <= (u * u) * c,
            (u * u) * c <= s * s * s,
            q * c >= 0,
            s == 65536,
    ;
    vstd::arithmetic::div_mod::lemma_div_is_ordered(q * c, s * s, s);
    assert(s * s / s == s) by {
        vstd::arithmetic::div_mod::lemma_div_multiples_vanish(s, s);
    }
    assert(smooth(u) == q * c / s);
}

/// One corner's contribution, scaled by the cube of the unit, stays
/// within its trilinear weight product times the dot-product cap.
proof fn lemma_corner_bound(wa: int, wb: int, wc: int, d: int, cap: int)
    requires
        0 <= wa <= FP_ONE as int,
        0 <= wb <= FP_ONE as int,
        0 <= wc <= FP_ONE as int,
        abs_int(d) <= cap,
        0 <= cap,
    ensures
        abs_int(fpmul(fpmul(fpmul(wa, wb), wc), d)) * ((FP_ONE as int) * ((FP_ONE as int) * (
        FP_ONE as int))) <= wa * (wb * (wc * cap)),
        -cap <= fpmul(fpmul(fpmul(wa, wb), wc), d) <= cap,
{
    let s = FP_ONE as int;
    let t1 = fpmul(wa, wb);
    let t2 = fpmul(t1, wc);
    let t3 = fpmul(t2, d);
    crate::fp::lemma_fpmul_mag(wa, wb);
    crate::fp::lemma_fpmul_mag(t1, wc);
    crate::fp::lemma_fpmul_mag(t2, d);
    crate::fp::lemma_tdiv_mag(wa * wb, s);
    crate::fp::lemma_tdiv_mag(t1 * wc, s);
    assert(wa * wb >= 0) by (nonlinear_arith)
        requires
            wa >= 0,
            wb >= 0,
    ;
    assert(t1 * wc >= 0) by (nonlinear_arith)
        requires
            t1 >= 0,
            wc >= 0,
    ;
    assert(abs_int(t3) * (s * (s * s)) <= wa * (wb * (wc * cap)) && -cap <= t3 <= cap)
        by (nonlinear_arith)
        requires
            s == 65536,
            0 <= wa <= s,
            0 <= wb <= s,
            0 <= wc <= s,
            0 <= cap,
            abs_int(d) <= cap,
            t1 >= 0,
            t2 >= 0,
            abs_int(t1) * s <= abs_int(wa * wb),
            abs_int(t2) * s <= abs_int(t1 * wc),
            abs_int(t3) * s <= abs_int(t2 * d),
            abs_int(t1) == t1,
            abs_int(t2) == t2,
            wa * wb >= 0,
            t1 * wc >= 0,
    ;
}

/// The eight trilinear weight products sum to exactly one, so the sum
/// of the corner contributions stays within the dot-product cap.
#[verifier::rlimit(100)]
#[verifier::spinoff_prover]
proof fn lemma_noise_sum(
    uu: int,
    vv: int,
    ww: int,
    cap: int,
    t0: int,
    t1: int,
    t2: int,
    t3: int,
    t4: int,
    t5: int,
    t6: int,
    t7: int,
)
    requires
        0 <= uu <= FP_ONE as int,
        0 <= vv <= FP_ONE as int,
        0 <= ww <= FP_ONE as int,
        0 <= cap,
        abs_int(t0) * ((FP_ONE as int) * ((FP_ONE as int) * (FP_ONE as int))) <= wsel(0, uu) * (
        wsel(0, vv) * (wsel(0, ww) * cap)),
        abs_int(t1) * ((FP_ONE as int) * ((FP_ONE as int) * (FP_ONE as int))) <= wsel(0, uu) * (
        wsel(0, vv) * (wsel(1, ww) * cap)),
        abs_int(t2) * ((FP_ONE as int) * ((FP_ONE as int) * (FP_ONE as int))) <= wsel(0, uu) * (
        wsel(1, vv) * (wsel(0, ww) * cap)),
        abs_int(t3) * ((FP_ONE as int) * ((FP_ONE as int) * (FP_ONE as int))) <= wsel(0, uu) * (
        wsel(1, vv) * (wsel(1, ww) * cap)),
        abs_int(t4) * ((FP_ONE as int) * ((FP_ONE as int) * (FP_ONE as int))) <= wsel(1, uu) * (
        wsel(0, vv) * (wsel(0, ww) * cap)),
        abs_int(t5) * ((FP_ONE as int) * ((FP_ONE as int) * (FP_ONE as int))) <= wsel(1, uu) * (
        wsel(0, vv) * (wsel(1, ww) * cap)),
        abs_int(t6) * ((FP_ONE as int) * ((FP_ONE as int) * (FP_ONE as int))) <= wsel(1, uu) * (
        wsel(1, vv) * (wsel(0, ww) * cap)),
        abs_int(t7) * ((FP_ONE as int) * ((FP_ONE as int) * (FP_ONE as int))) <= wsel(1, uu) * (
        wsel(1, vv) * (wsel(1, ww) * cap)),
    ensures
        -cap <= t0 + t1 + t2 + t3 + t4 + t5 + t6 + t7 <= cap,
{
    let s = FP_ONE as int;
    let a0 = s - uu;
    let a1 = uu;
    let b0 = s - vv;
    let b1 = vv;
    let c0 = s - ww;
    let c1 = ww;
    let inner = b0 * (c0 * cap) + b0 * (c1 * cap) + b1 * (c0 * cap) + b1 * (c1 * cap);
    assert(inner == s * (s * cap)) by (nonlinear_arith)
        requires
            inner == b0 * (c0 * cap) + b0 * (c1 * cap) + b1 * (c0 * cap) + b1 * (c1 * cap),
            b0 + b1 == s,
            c0 + c1 == s,
    ;
    assert(a0 * (b0 * (c0 * cap)) + a0 * (b0 * (c1 * cap)) + a0 * (b1 * (c0 * cap)) + a0 * (b1 * (
    c1 * cap)) == a0 * inner) by (nonlinear_arith)
        requires
            inner == b0 * (c0 * cap) + b0 * (c1 * cap) + b1 * (c0 * cap) + b1 * (c1 * cap),
    ;
    assert(a1 * (b0 * (c0 * cap)) + a1 * (b0 * (c1 * cap)) + a1 * (b1 * (c0 * cap)) + a1 * (b1 * (
    c1 * cap)) == a1 * inner) by (nonlinear_arith)
        requires
            inner == b0 * (c0 * cap) + b0 * (c1 * cap) + b1 * (c0 * cap) + b1 * (c1 * cap),
    ;
    assert(a0 * inner + a1 * inner == (s * (s * s)) * cap) by (nonlinear_arith)
        requires
            a0 + a1 == s,
            inner == s * (s * cap),
    ;
    assert(a0 * (b0 * (c0 * cap)) + a0 * (b0 * (c1 * cap)) + a0 * (b1 * (c0 * cap)) + a0 * (b1 * (
    c1 * cap)) + a1 * (b0 * (c0 * cap)) + a1 * (b0 * (c1 * cap)) + a1 * (b1 * (c0 * cap)) + a1 * (
    b1 * (c1 * cap)) == (s * (s * s)) * cap);
    let total = abs_int(t0) + abs_int(t1) + abs_int(t2) + abs_int(t3) + abs_int(t4) + abs_int(t5)
        + abs_int(t6) + abs_int(t7);
    assert(total * (s * (s * s)) <= (s * (s * s)) * cap) by (nonlinear_arith)
        requires
            abs_int(t0) * (s * (s * s)) <= a0 * (b0 * (c0 * cap)),
            abs_int(t1) * (s * (s * s)) <= a0 * (b0 * (c1 * cap)),
            abs_int(t2) * (s * (s * s)) <= a0 * (b1 * (c0 * cap)),
            abs_int(t3) * (s * (s * s)) <= a0 * (b1 * (c1 * cap)),
            abs_int(t4) * (s * (s * s)) <= a1 * (b0 * (c0 * cap)),
            abs_int(t5) * (s * (s * s)) <= a1 * (b0 * (c1 * cap)),
            abs_int(t6) * (s * (s * s)) <= a1 * (b1 * (c0 * cap)),
            abs_int(t7) * (s * (s * s)) <= a1 * (b1 * (c1 * cap)),
            a0 * (b0 * (c0 * cap)) + a0 * (b0 * (c1 * cap)) + a0 * (b1 * (c0 * cap)) + a0 * (b1 * (
            c1 * cap)) + a1 * (b0 * (c0 * cap)) + a1 * (b0 * (c1 * cap)) + a1 * (b1 * (c0 * cap))
                + a1 * (b1 * (c1 * cap)) == (s * (s * s)) * cap,
            total == abs_int(t0) + abs_int(t1) + abs_int(t2) + abs_int(t3) + abs_int(t4) + abs_int(
                t5,
            ) + abs_int(t6) + abs_int(t7),
    ;
    assert(total <= cap) by (nonlinear_arith)
        requires
            total * (s * (s * s)) <= (s * (s * s)) * cap,
            s == 65536,
            total >= 0,
    ;
}

/// The smoothed weight, computed.
fn smooth_exec(u: i64) -> (r: i64)
    requires
        0 <= u < FP_ONE,
    ensures
        r as int == smooth(u as int),
        0 <= r <= FP_ONE,
{
    proof {
        lemma_smooth_range(u as int);
        crate::fp::lemma_tdiv_mag(u as int * u as int, FP_ONE as int);
        lemma_prod_bound(u as int, u as int, 0x1_0000, 0x1_0000);
        lemma_prod_bound(
            fpmul(u as int, u as int),
            3 * (FP_ONE as int) - 2 * (u as int),
            0x1_0000,
            0x3_0000,
        );
    }
    fp_mul(fp_mul(u, u), 3 * FP_ONE - 2 * u)
}

impl Perlin {
    /// One corner's contribution at lattice offsets `(di, dj, dk)`.
    fn corner(
        &self,
        i: i64,
        j: i64,
        k: i64,
        u: i64,
        v: i64,
        w: i64,
        uu: i64,
        vv: i64,
        ww: i64,
        di: i64,
        dj: i64,
        dk: i64,
    ) -> (r: i64)
        requires
            wf_perlin(*self),
            -0x10_0000_0000_0000 < i < 0x10_0000_0000_0000,
            -0x10_0000_0000_0000 < j < 0x10_0000_0000_0000,
            -0x10_0000_0000_0000 < k < 0x10_0000_0000_0000,
            0 <= u < FP_ONE,
            0 <= v < FP_ONE,
            0 <= w < FP_ONE,
            uu == smooth(u as int),
            vv == smooth(v as int),
            ww == smooth(w as int),
            0 <= uu <= FP_ONE,
            0 <= vv <= FP_ONE,
            0 <= ww <= FP_ONE,
            di == 0 || di == 1,
            dj == 0 || dj == 1,
            dk == 0 || dk == 1,
        ensures
            r as int == corner_term(
                *self,
                i as int,
                j as int,
                k as int,
                u as int,
                v as int,
                w as int,
                di as int,
                dj as int,
                dk as int,
            ),
            abs_int(r as int) * ((FP_ONE as int) * ((FP_ONE as int) * (FP_ONE as int))) <= wsel(
                di as int,
                uu as int,
            ) * (wsel(dj as int, vv as int) * (wsel(dk as int, ww as int) * (3 * (FP_ONE as int)))),
            -3 * (FP_ONE as int) <= r <= 3 * (FP_ONE as int),
    {
        let (_, mx) = floor_divrem(i + di, 256);
        let (_, my) = floor_divrem(j + dj, 256);
        let (_, mz) = floor_divrem(k + dk, 256);
        let px = self.perm_x[mx as usize];
        let py = self.perm_y[my as usize];
        let pz = self.perm_z[mz as usize];
        let idx = ((px ^ py) ^ pz) as usize;
        let g = self.ranvec[idx];
        let off = Vec3::new(
            if di == 1 {
                u - FP_ONE
            } else {
                u
            },
            if dj == 1 {
                v - FP_ONE
            } else {
                v
            },
            if dk == 1 {
                w - FP_ONE
            } else {
                w
            },
        );
        let d = g.dot(&off);
        proof {
            crate::vec3::lemma_vdot_bound(g@, off@, FP_ONE as int, FP_ONE as int);
        }
        let wa = if di == 1 {
            uu
        } else {
            FP_ONE - uu
        };
        let wb = if dj == 1 {
            vv
        } else {
            FP_ONE - vv
        };
        let wc = if dk == 1 {
            ww
        } else {
            FP_ONE - ww
        };
        proof {
            lemma_corner_bound(wa as int, wb as int, wc as int, d as int, 3 * (FP_ONE as int));
            lemma_prod_bound(wa as int, wb as int, 0x1_0000, 0x1_0000);
            crate::fp::lemma_tdiv_mag(wa as int * wb as int, FP_ONE as int);
            lemma_prod_bound(fpmul(wa as int, wb as int), wc as int, 0x1_0000, 0x1_0000);
            crate::fp::lemma_tdiv_mag(fpmul(wa as int, wb as int) * wc as int, FP_ONE as int);
            lemma_prod_bound(
                fpmul(fpmul(wa as int, wb as int), wc as int),
                d as int,
                0x1_0000,
                0x3_0000,
            );
        }
        fp_mul(fp_mul(fp_mul(wa, wb), wc), d)
    }

    /// The noise value at a point; deterministic in the tables, and
    /// bounded by three units — the componentwise cap that unit-length
    /// gradients admit.
    pub fn noise(&self, p: &Vec3) -> (r: i64)
        requires
            wf_perlin(*self),
            bounded(p@, 0x1000_0000_0000),
        ensures
            r as int == noise_at(*self, p@.x, p@.y, p@.z),
            -3 * (FP_ONE as int) <= r <= 3 * (FP_ONE as int),
    {
        let (i, u) = floor_divrem(p.x, 65536);
        let (j, v) = floor_divrem(p.y, 65536);
        let (k, w) = floor_divrem(p.z, 65536);
        proof {
            vstd::arithmetic::div_mod::lemma_fundamental_div_mod(p@.x, 65536);
            vstd::arithmetic::div_mod::lemma_fundamental_div_mod(p@.y, 65536);
            vstd::arithmetic::div_mod::lemma_fundamental_div_mod(p@.z, 65536);
            assert(-0x10_0000_0000_0000 < i < 0x10_0000_0000_0000 && -0x10_0000_0000_0000 < j
                < 0x10_0000_0000_0000 && -0x10_0000_0000_0000 < k < 0x10_0000_0000_0000)
                by (nonlinear_arith)
                requires
                    p@.x == 65536 * (i as int) + (u as int),
                    p@.y == 65536 * (j as int) + (v as int),
                    p@.z == 65536 * (k as int) + (w as int),
                    0 <= u < 65536,
                    0 <= v < 65536,
                    0 <= w < 65536,
                    in_range(p@.x, 0x1000_0000_0000),
                    in_range(p@.y, 0x1000_0000_0000),
                    in_range(p@.z, 0x1000_0000_0000),
            ;
        }
        let uu = smooth_exec(u);
        let vv = smooth_exec(v);
        let ww = smooth_exec(w);
        let t0 = self.corner(i, j, k, u, v, w, uu, vv, ww, 0, 0, 0);
        let t1 = self.corner(i, j, k, u, v, w, uu, vv, ww, 0, 0, 1);
        let t2 = self.corner(i, j, k, u, v, w, uu, vv, ww, 0, 1, 0);
        let t3 = self.corner(i, j, k, u, v, w, uu, vv, ww, 0, 1, 1);
        let t4 = self.corner(i, j, k, u, v, w, uu, vv, ww, 1, 0, 0);
        let t5 = self.corner(i, j, k, u, v, w, uu, vv, ww, 1, 0, 1);
        let t6 = self.corner(i, j, k, u, v, w, uu, vv, ww, 1, 1, 0);
        let t7 = self.corner(i, j, k, u, v, w, uu, vv, ww, 1, 1, 1);
        proof {
            lemma_noise_sum(
                uu as int,
                vv as int,
                ww as int,
                3 * (FP_ONE as int),
                t0 as int,
                t1 as int,
                t2 as int,
                t3 as int,
                t4 as int,
                t5 as int,
                t6 as int,
                t7 as int,
            );
        }
        t0 + t1 + t2 + t3 + t4 + t5 + t6 + t7
    }

    /// Turbulence: the absolute value of `depth` octaves of noise, each
    /// at doubled frequency and halved weight.  Never negative.  The
    /// depth cap comes from the point bound: doubling a point within
    /// 2^37 seven times stays inside the noise sampler's 2^44 budget.
    #[verifier::rlimit(100)]
    #[verifier::spinoff_prover]
    pub fn turb(&self, p: &Vec3, depth: i32) -> (r: i64)
        requires
            wf_perlin(*self),
            bounded(p@, 0x20_0000_0000),
            0 <= depth <= 8,
        ensures
            r as int == abs_int(turb_acc(*self, p@, depth as int, FP_ONE as int)),
            0 <= r <= 6 * (FP_ONE as int),
    {
        let mut acc: i64 = 0;
        let mut temp_p: Vec3 = *p;
        let mut weight: i64 = FP_ONE;
        let mut rem: i32 = depth;
        let ghost mut fact: int = 1;
        while rem > 0
            invariant
                wf_perlin(*self),
                0 <= rem <= depth <= 8,
                fact >= 1,
                fact * pow2i(rem as int) <= pow2i(depth as int),
                bounded(temp_p@, 0x20_0000_0000 * fact),
                0 <= weight <= FP_ONE,
                in_range(acc as int, 6 * (FP_ONE as int) - 6 * (weight as int)),
                turb_acc(*self, p@, depth as int, FP_ONE as int) == acc as int + turb_acc(
                    *self,
                    temp_p@,
                    rem as int,
                    weight as int,
                ),
            decreases rem,
        {
            proof {
                lemma_pow2i_pos(rem as int - 1);
                lemma_pow2i_mono(depth as int, 8);
                assert(pow2i(8) == 256) by {
                    assert(pow2i(0) == 1);
                    assert(pow2i(1) == 2);
                    assert(pow2i(2) == 4);
                    assert(pow2i(3) == 8);
                    assert(pow2i(4) == 16);
                    assert(pow2i(5) == 32);
                    assert(pow2i(6) == 64);
                    assert(pow2i(7) == 128);
                }
                assert(pow2i(rem as int) == 2 * pow2i(rem as int - 1));
                assert(fact <= 128) by (nonlinear_arith)
                    requires
                        fact * pow2i(rem as int) <= pow2i(depth as int),
                        pow2i(rem as int) >= 2,
                        pow2i(depth as int) <= 256,
                        fact >= 1,
                ;
            }
            let n = self.noise(&temp_p);
            proof {
                crate::fp::lemma_fpmul_mag(weight as int, n as int);
                lemma_prod_bound(weight as int, n as int, 0x1_0000, 0x3_0000);
                assert(abs_int((weight as int) * (n as int)) <= (weight as int) * (3 * (
                FP_ONE as int))) by (nonlinear_arith)
                    requires
                        0 <= weight,
                        -3 * (FP_ONE as int) <= n <= 3 * (FP_ONE as int),
                ;
            }
            let c = fp_mul(weight, n);
            acc = acc + c;
            proof {
                assert(abs_int(c as int) * (FP_ONE as int) <= (weight as int) * (3 * (
                FP_ONE as int)));
                assert(abs_int(c as int) <= 3 * (weight as int)) by (nonlinear_arith)
                    requires
                        abs_int(c as int) * 65536 <= (weight as int) * (3 * 65536),
                ;
            }
            let old_w = weight;
            weight = fp_mul(weight, FP_ONE / 2);
            proof {
                crate::fp::lemma_tdiv_mag(old_w as int * 32768, FP_ONE as int);
                vstd::arithmetic::div_mod::lemma_div_denominator(old_w as int * 32768, 32768, 2);
                vstd::arithmetic::div_mod::lemma_div_multiples_vanish(old_w as int, 32768);
                assert(weight as int == (old_w as int) / 2);
                vstd::arithmetic::div_mod::lemma_div_pos_is_pos(old_w as int, 2);
                vstd::arithmetic::div_mod::lemma_remainder_lower(old_w as int, 2);
            }
            if rem > 1 {
                let ghost oldp = temp_p@;
                let ghost oldfact = fact;
                temp_p = double_vec(&temp_p);
                proof {
                    fact = fact * 2;
                    assert(pow2i(rem as int) == 2 * pow2i(rem as int - 1));
                    assert(fact * pow2i(rem as int - 1) <= pow2i(depth as int)) by (nonlinear_arith)
                        requires
                            fact == 2 * oldfact,
                            oldfact * pow2i(rem as int) <= pow2i(depth as int),
                            pow2i(rem as int) == 2 * pow2i(rem as int - 1),
                    ;
                }
            } else {
                proof {
                    lemma_pow2i_pos(rem as int - 1);
                    assert(pow2i(rem as int) == 2 * pow2i(rem as int - 1));
                    assert(fact * pow2i(rem as int - 1) <= fact * pow2i(rem as int))
                        by (nonlinear_arith)
                        requires
                            fact >= 1,
                            pow2i(rem as int) == 2 * pow2i(rem as int - 1),
                            pow2i(rem as int - 1) >= 1,
                    ;
                    assert(turb_acc(
                        *self,
                        vscale(temp_p@, 2 * (FP_ONE as int)),
                        rem as int - 1,
                        weight as int,
                    ) == 0);
                }
            }
            rem = rem - 1;
        }
        proof {
            assert(turb_acc(*self, temp_p@, 0, weight as int) == 0);
        }
        if acc < 0 {
            -acc
        } else {
            acc
        }
    }
}

/// A gradient sampled in the unit cube and normalized: componentwise
/// within one unit and of near-unit squared length.  A draw that
/// normalization leaves outside that budget (a degenerate raw vector,
/// in particular the zero vector) is redrawn; after too many redraws a
/// fixed unit gradient stands in.
fn random_gradient(rng: &mut Rng) -> (g: Vec3)
    ensures
        bounded(g@, FP_ONE as int),
        FP_ONE as int - 80 <= vdot(g@, g@) <= FP_ONE as int + 80,
{
    let mut tries: usize = 0;
    while tries < 64
        invariant
            tries <= 64,
        decreases 64 - tries,
    {
        let a = rng.next_unit();
        let b = rng.next_unit();
        let c = rng.next_unit();
        let raw = Vec3::new(2 * a - FP_ONE, 2 * b - FP_ONE, 2 * c - FP_ONE);
        let unit = raw.unit_vector();
        let g = Vec3::new(clamp_one(unit.x), clamp_one(unit.y), clamp_one(unit.z));
        let q = g.squared_len();
        if FP_ONE - 80 <= q && q <= FP_ONE + 80 {
            return g;
        }
        tries = tries + 1;
    }
    let fallback = Vec3::new(FP_ONE, 0, 0);
    proof {
        crate::fp::lemma_fpmul_mag(0, 0);
        assert(fpmul(0, 0) == 0);
        assert(fpmul(FP_ONE as int, FP_ONE as int) == FP_ONE as int) by {
            vstd::arithmetic::div_mod::lemma_div_multiples_vanish(FP_ONE as int, FP_ONE as int);
        }
    }
    fallback
}

fn clamp_one(x: i64) -> (r: i64)
    requires
        in_range(x as int, 0x1_0000_0000),
    ensures
        in_range(r as int, FP_ONE as int),
{
    if x < -FP_ONE {
        -FP_ONE
    } else if x > FP_ONE {
        FP_ONE
    } else {
        x
    }
}

/// Exchanges two table entries.
fn table_swap(p: &mut Vec<u8>, i: usize, j: usize)
    requires
        i < old(p)@.len(),
        j < old(p)@.len(),
    ensures
        final(p)@ == old(p)@.update(i as int, old(p)@[j as int]).update(
            j as int,
            old(p)@[i as int],
        ),
        final(p)@.len() == old(p)@.len(),
        final(p)@.to_multiset() == old(p)@.to_multiset(),
{
    broadcast use vstd::seq_lib::to_multiset_update;
    broadcast use vstd::multiset::group_multiset_axioms;

    let a = p[i];
    let b = p[j];
    let ghost s0 = p@;
    *vstd::std_specs::vec::vec_index_mut(p, i) = b;
    *vstd::std_specs::vec::vec_index_mut(p, j) = a;
    proof {
        let s2 = s0.update(i as int, s0[j as int]).update(j as int, s0[i as int]);
        assert(p@ =~= s2);
        if i == j {
            assert(s2 =~= s0);
        } else {
            s0.to_multiset_ensures();
            assert(s0.contains(s0[i as int]));
            assert(s0.contains(s0[j as int]));
            assert(s0.to_multiset().count(s0[i as int]) > 0);
            assert(s0.to_multiset().count(s0[j as int]) > 0);
            let s1 = s0.update(i as int, s0[j as int]);
            assert(s1.to_multiset() == s0.to_multiset().insert(s0[j as int]).remove(
                s0[i as int],
            ));
            assert(s1[j as int] == s0[j as int]);
            assert(s2.to_multiset() == s1.to_multiset().insert(s0[i as int]).remove(
                s1[j as int],
            ));
            vstd::assert_multisets_equal!(s2.to_multiset(), s0.to_multiset());
        }
    }
}

/// A Fisher–Yates shuffle of the table, driven by the random source;
/// the entries are preserved exactly, in some order.
pub fn permute(p: &mut Vec<u8>, rng: &mut Rng)
    ensures
        final(p)@.len() == old(p)@.len(),
        final(p)@.to_multiset() == old(p)@.to_multiset(),
{
    let n = p.len();
    if n == 0 {
        return ;
    }
    let mut i: usize = n - 1;
    while i > 0
        invariant
            0 <= i < n,
            p@.len() == n,
            p@.to_multiset() == old(p)@.to_multiset(),
        decreases i,
    {
        let t = (rng.next_u32() as usize) % (i + 1);
        table_swap(p, i, t);
        i = i - 1;
    }
}

/// A freshly shuffled permutation table: it holds exactly the indices
/// 0 through 255, each once, in some order.
pub fn perlin_generate_perm(rng: &mut Rng) -> (p: Vec<u8>)
    ensures
        p@.len() == 256,
        p@.to_multiset() == ident_table().to_multiset(),
{
    let mut p: Vec<u8> = Vec::new();
    let mut i: usize = 0;
    while i < 256
        invariant
            0 <= i <= 256,
            p@.len() == i,
            forall|j: int| 0 <= j < i ==> p@[j] == j as u8,
        decreases 256 - i,
    {
        p.push(i as u8);
        i = i + 1;
    }
    proof {
        assert(p@ =~= ident_table());
    }
    permute(&mut p, rng);
    p
}

/// The table of 256 unit gradients.
fn perlin_generate(rng: &mut Rng) -> (v: Vec<Vec3>)
    ensures
        v@.len() == 256,
        forall|i: int|
            0 <= i < 256 ==> bounded(#[trigger] v@[i]@, FP_ONE as int) && FP_ONE as int - 80
                <= vdot(v@[i]@, v@[i]@) <= FP_ONE as int + 80,
{
    let mut v: Vec<Vec3> = Vec::new();
    let mut i: usize = 0;
    while i < 256
        invariant
            0 <= i <= 256,
            v@.len() == i,
            forall|j: int|
                0 <= j < i ==> bounded(#[trigger] v@[j]@, FP_ONE as int) && FP_ONE as int - 80
                    <= vdot(v@[j]@, v@[j]@) <= FP_ONE as int + 80,
        decreases 256 - i,
    {
        let g = random_gradient(rng);
        v.push(g);
        i = i + 1;
    }
    v
}

impl Perlin {
    /// Generates the gradient table and the three permutation tables.
    pub fn new(rng: &mut Rng) -> (p: Perlin)
        ensures
            wf_perlin(p),
    {
        Perlin {
            ranvec: perlin_generate(rng),
            perm_x: perlin_generate_perm(rng),
            perm_y: perlin_generate_perm(rng),
            perm_z: perlin_generate_perm(rng),
        }
    }
}

/// Doubles a vector exactly; scaling by two loses nothing to rounding.
fn double_vec(v: &Vec3) -> (r: Vec3)
    requires
        bounded(v@, 0x1000_0000_0000_0000),
    ensures
        r@ == vscale(v@, 2 * (FP_ONE as int)),
{
    proof {
        lemma_fpmul_double(v@.x);
        lemma_fpmul_double(v@.y);
        lemma_fpmul_double(v@.z);
    }
    Vec3 { x: 2 * v.x, y: 2 * v.y, z: 2 * v.z }
}

/// Powers of two.
pub open spec fn pow2i(n: int) -> int
    decreases n,
{
    if n <= 0 {
        1
    } else {
        2 * pow2i(n - 1)
    }
}

proof fn lemma_pow2i_pos(n: int)
    ensures
        pow2i(n) >= 1,
    decreases n,
{
    if n > 0 {
        lemma_pow2i_pos(n - 1);
    }
}

proof fn lemma_pow2i_mono(a: int, b: int)
    requires
        a <= b,
    ensures
        pow2i(a) <= pow2i(b),
    decreases b,
{
    lemma_pow2i_pos(a);
    if a < b && b > 0 {
        lemma_pow2i_mono(a, b - 1);
        lemma_pow2i_pos(b - 1);
    }
}

/// Scaling by two in fixed point is exact.
proof fn lemma_fpmul_double(x: int)
    ensures
        fpmul(x, 2 * (FP_ONE as int)) == 2 * x,
{
    let s = FP_ONE as int;
    assert(x * (2 * s) == (2 * x) * s) by (nonlinear_arith);
    if x >= 0 {
        vstd::arithmetic::div_mod::lemma_div_multiples_vanish(2 * x, s);
    } else {
        vstd::arithmetic::div_mod::lemma_div_multiples_vanish(-(2 * x), s);
        assert(-(x * (2 * s)) == (-(2 * x)) * s) by (nonlinear_arith);
    }
}

} // verus!
