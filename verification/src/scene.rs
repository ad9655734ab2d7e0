//! The scene root, the recursive radiance integrator, and the
//! per-sample and per-pixel stages of the render pipeline.
//!
//! Rendering itself is a pure loop over pixels and samples; a caller
//! that spreads the per-sample calls over workers computes exactly the
//! same values, because every sample is a function of the scene, the
//! camera and its own random draws.

use vstd::prelude::*;
use crate::fp::{fpmul, fpdiv, tdiv, FP_ONE, fp_div, fp_sqrt, tdiv_i128};
use crate::vec3::{
    Vec3, V3i, vadd, vscale, vunit, bounded, in_range, isqrt_spec, lemma_isqrt_unique,
    lemma_prod_bound,
};
use crate::ray::{Ray, RayV, wf_ray};
use crate::aabb::AABB;
use crate::hitable::{
    Object, HitRecord, rec_matches, object_hit, closest_hit, object_mat, wf_list, HitableList,
    point_ok, lemma_object_hit_facts, boxes_fold, HitV,
};
use crate::bvh::{BVHNode, prims_of, wf_tree, tree_box, lemma_closest_props};
use crate::material::{Material, wf_material, emitted_spec, albedo, in_unit_sphere};
use crate::camera::{Camera, wf_camera, camera_ray_rel};
use crate::vec3::vcmul;
use crate::rng::Rng;

verus! {

/// The self-intersection guard: hits nearer than about 0.001 are ignored.
pub const EPS: i64 = 66;

/// The far limit of every radiance query.
pub const T_MAX: i64 = 0x4000_0000;

/// The ceiling on the recursion: at most this many bounces.
pub const MAX_DEPTH: u32 = 50;

/// The top of the scene graph: a flat list or a hierarchy.
pub enum Hitable {
    List(HitableList),
    Tree(BVHNode),
}

/// The primitives a scene root answers for, in query order.
pub open spec fn scene_prims(h: Hitable) -> Seq<Object> {
    match h {
        Hitable::List(l) => l.list@,
        Hitable::Tree(b) => prims_of(b),
    }
}

pub open spec fn wf_hitable(h: Hitable) -> bool {
    match h {
        Hitable::List(l) => wf_list(l.list@),
        Hitable::Tree(b) => wf_tree(b),
    }
}

impl Hitable {
    /// The closest hit within `(t_min, t_max)`: whether the root is a
    /// list or a hierarchy, the result is the closest hit of a linear
    /// scan over its primitives.
    pub fn hit(&self, r: &Ray, t_min: i64, t_max: i64) -> (res: Option<HitRecord>)
        requires
            wf_hitable(*self),
            wf_ray(r@),
            in_range(t_min as int, 0x8000_0000),
            in_range(t_max as int, 0x8000_0000),
        ensures
            rec_matches(res, closest_hit(scene_prims(*self), r@, t_min as int, t_max as int)),
    {
        match self {
            Hitable::List(l) => l.hit(r, t_min, t_max),
            Hitable::Tree(b) => b.hit(r, t_min, t_max),
        }
    }

    /// The root's bounding box: a hierarchy answers with its own box,
    /// a list with the exact union fold of its primitives' boxes,
    /// unavailable exactly when the list is empty.
    pub fn bounding_box(&self) -> (res: Option<AABB>)
        requires
            wf_hitable(*self),
        ensures
            *self matches Hitable::Tree(b) ==> res is Some && res->0@ == tree_box(b),
            *self matches Hitable::List(l) ==> ((res is Some <==> l.list@.len() > 0) && (
            res is Some ==> res->0@ == boxes_fold(l.list@))),
    {
        match self {
            Hitable::List(l) => l.bounding_box(),
            Hitable::Tree(b) => Option::Some(b.bounding_box()),
        }
    }
}

/// Every primitive refers to a material slot below `n`.
pub open spec fn mats_ok(s: Seq<Object>, n: int) -> bool {
    forall|i: int| 0 <= i < s.len() ==> object_mat(#[trigger] s[i]) < n
}

/// A scene: the material arena and the root of the geometry.
pub struct Scene {
    pub materials: Vec<Material>,
    pub world: Hitable,
}

pub open spec fn wf_scene(s: Scene) -> bool {
    wf_hitable(s.world) && mats_ok(scene_prims(s.world), s.materials@.len() as int) && (forall|
        i: int,
    |
        0 <= i < s.materials@.len() ==> wf_material(#[trigger] s.materials@[i]))
}

impl Scene {
    pub fn new(materials: Vec<Material>, world: Hitable) -> (s: Scene)
        ensures
            s.materials == materials,
            s.world == world,
    {
        Scene { materials, world }
    }
}

/// A scene hit refers to a valid material slot, lies strictly inside
/// the query interval, and carries a bounded point and normal.
pub proof fn lemma_scene_hit_facts(s: Seq<Object>, n: int, r: RayV, t0: int, t1: int)
    requires
        mats_ok(s, n),
        closest_hit(s, r, t0, t1) is Some,
    ensures
        t0 < closest_hit(s, r, t0, t1)->0.t < t1,
        point_ok(closest_hit(s, r, t0, t1)->0.p),
        bounded(closest_hit(s, r, t0, t1)->0.normal, 0x10_0000),
        0 <= closest_hit(s, r, t0, t1)->0.mat < n,
{
    lemma_closest_props(s, r, t0, t1);
    let i = choose|i: int|
        0 <= i < s.len() && object_hit(#[trigger] s[i], r, t0, t1) == closest_hit(s, r, t0, t1);
    lemma_object_hit_facts(s[i], r, t0, t1);
}

/// The background: white blended toward sky blue by the upward
/// component of the unit direction.
pub open spec fn sky_spec(r: RayV) -> V3i {
    let ud = vunit(r.dir);
    let tt = fpmul((FP_ONE as int) / 2, ud.y + FP_ONE as int);
    vadd(
        vscale(V3i { x: FP_ONE as int, y: FP_ONE as int, z: FP_ONE as int }, FP_ONE as int - tt),
        vscale(V3i { x: 32768, y: 45875, z: FP_ONE as int }, tt),
    )
}

/// The background colour of a ray that escapes the scene.
fn sky(r: &Ray) -> (c: Vec3)
    requires
        wf_ray(r@),
    ensures
        c@ == sky_spec(r@),
        bounded(c@, 0x4000_0000),
{
    let ud = r.direction().unit_vector();
    proof {
        lemma_prod_bound((FP_ONE / 2) as int, ud@.y + FP_ONE as int, 0x8000, 0x3_0000);
        crate::fp::lemma_fpmul_mag((FP_ONE / 2) as int, ud@.y + FP_ONE as int);
    }
    let tt = crate::fp::fp_mul(FP_ONE / 2, ud.y + FP_ONE);
    let white = Vec3::new(FP_ONE, FP_ONE, FP_ONE);
    let blue = Vec3::new(32768, 45875, FP_ONE);
    proof {
        lemma_prod_bound(FP_ONE as int, FP_ONE as int - tt as int, 0x1_0000, 0x4_0000);
        lemma_prod_bound(FP_ONE as int, tt as int, 0x1_0000, 0x4_0000);
        crate::fp::lemma_fpmul_mag(FP_ONE as int, FP_ONE as int - tt as int);
        crate::fp::lemma_fpmul_mag(FP_ONE as int, tt as int);
        crate::fp::lemma_fpmul_mag(32768, tt as int);
        crate::fp::lemma_fpmul_mag(45875, tt as int);
        lemma_prod_bound(32768, tt as int, 0x8000, 0x4_0000);
        lemma_prod_bound(45875, tt as int, 0xB333, 0x4_0000);
    }
    white.scale(FP_ONE - tt).add(&blue.scale(tt))
}

/// The ray a diffuse bounce scatters into: from the hit point, toward
/// the normal plus a unit-sphere sample, at the incoming ray's time.
pub open spec fn scat_ray(h: HitV, time: int, smp: V3i) -> RayV {
    RayV { orig: h.p, dir: vadd(h.normal, smp), time }
}

/// What the integrator computes, up to the unit-sphere draws: on a
/// miss, exactly the sky gradient; on a hit, the material's emitted
/// light, plus — for a diffuse surface below the bounce cap — the
/// albedo times a radiance of the scattered ray for some draw.
#[verifier::opaque]
pub open spec fn radiance_rel(scene: Scene, r: RayV, depth: int, c: V3i) -> bool
    decreases 50 - depth,
{
    let ch = closest_hit(scene_prims(scene.world), r, EPS as int, T_MAX as int);
    if ch is None {
        c == sky_spec(r)
    } else {
        let h = ch->0;
        let m = scene.materials@[h.mat];
        if m is Lambertian && depth < 50 {
            exists|smp: V3i, c2: V3i|
                #![trigger scat_ray(h, r.time, smp), vcmul(albedo(m->Lambertian_0, h.u, h.v, h.p), c2)]
                in_unit_sphere(smp) && radiance_rel(scene, scat_ray(h, r.time, smp), depth + 1, c2)
                    && c == vadd(
                    emitted_spec(m, h.u, h.v, h.p),
                    vcmul(albedo(m->Lambertian_0, h.u, h.v, h.p), c2),
                )
        } else {
            c == emitted_spec(m, h.u, h.v, h.p)
        }
    }
}

/// A missed ray satisfies the relation with exactly the sky gradient.
proof fn lemma_rel_miss(scene: Scene, r: RayV, depth: int, c: V3i)
    requires
        closest_hit(scene_prims(scene.world), r, EPS as int, T_MAX as int) is None,
        c == sky_spec(r),
    ensures
        radiance_rel(scene, r, depth, c),
{
    reveal_with_fuel(radiance_rel, 1);
}

/// A hit whose material does not scatter here — a light, the inert
/// filler, or any material at the bounce cap — satisfies the relation
/// with exactly the emitted light.
proof fn lemma_rel_hit_plain(scene: Scene, r: RayV, depth: int, c: V3i)
    requires
        closest_hit(scene_prims(scene.world), r, EPS as int, T_MAX as int) is Some,
        ({
            let h = closest_hit(scene_prims(scene.world), r, EPS as int, T_MAX as int)->0;
            let m = scene.materials@[h.mat];
            (depth >= 50 || !(m is Lambertian)) && c == emitted_spec(m, h.u, h.v, h.p)
        }),
    ensures
        radiance_rel(scene, r, depth, c),
{
    reveal_with_fuel(radiance_rel, 1);
}

/// A diffuse bounce below the cap satisfies the relation with the
/// emitted light plus the albedo times a related scattered radiance.
#[verifier::rlimit(100)]
#[verifier::spinoff_prover]
proof fn lemma_rel_hit_scatter(
    scene: Scene,
    r: RayV,
    depth: int,
    smp: V3i,
    c2: V3i,
    c: V3i,
)
    requires
        depth < 50,
        closest_hit(scene_prims(scene.world), r, EPS as int, T_MAX as int) is Some,
        ({
            let h = closest_hit(scene_prims(scene.world), r, EPS as int, T_MAX as int)->0;
            let m = scene.materials@[h.mat];
            m is Lambertian && in_unit_sphere(smp) && radiance_rel(
                scene,
                scat_ray(h, r.time, smp),
                depth + 1,
                c2,
            ) && c == vadd(
                emitted_spec(m, h.u, h.v, h.p),
                vcmul(albedo(m->Lambertian_0, h.u, h.v, h.p), c2),
            )
        }),
    ensures
        radiance_rel(scene, r, depth, c),
{
    reveal_with_fuel(radiance_rel, 1);
    let h = closest_hit(scene_prims(scene.world), r, EPS as int, T_MAX as int)->0;
    let m = scene.materials@[h.mat];
    assert(in_unit_sphere(smp) && radiance_rel(scene, scat_ray(h, r.time, smp), depth + 1, c2)
        && c == vadd(
        emitted_spec(m, h.u, h.v, h.p),
        vcmul(albedo(m->Lambertian_0, h.u, h.v, h.p), c2),
    ));
}

/// The radiance carried back along a ray: emitted light at the hit,
/// plus the attenuated radiance of the scattered ray, up to the bounce
/// cap; a ray that escapes returns the sky gradient, exactly.
#[verifier::rlimit(100)]
#[verifier::spinoff_prover]
pub fn color(r: &Ray, scene: &Scene, depth: u32, rng: &mut Rng) -> (c: Vec3)
    requires
        wf_scene(*scene),
        wf_ray(r@),
        depth <= MAX_DEPTH,
    ensures
        bounded(c@, (51 - depth as int) * 0x4000_0000),
        radiance_rel(*scene, r@, depth as int, c@),
        closest_hit(scene_prims(scene.world), r@, EPS as int, T_MAX as int) is None ==> c@
            == sky_spec(r@),
    decreases MAX_DEPTH - depth,
{
    let hit = scene.world.hit(r, EPS, T_MAX);
    match hit {
        Option::None => {
            let c = sky(r);
            proof {
                lemma_rel_miss(*scene, r@, depth as int, c@);
            }
            c
        },
        Option::Some(rec) => {
            proof {
                lemma_scene_hit_facts(
                    scene_prims(scene.world),
                    scene.materials@.len() as int,
                    r@,
                    EPS as int,
                    T_MAX as int,
                );
            }
            let m = &scene.materials[rec.mat];
            let emitted = m.emitted(rec.u, rec.v, &rec.p);
            if depth < MAX_DEPTH {
                match m.scatter(r, &rec, rng) {
                    Option::Some((att, scattered)) => {
                        let rc = color(&scattered, scene, depth + 1, rng);
                        proof {
                            let bt = (50 - depth as int) * 0x4000_0000;
                            lemma_prod_bound(att@.x, rc@.x, 0x1_0000, bt);
                            lemma_prod_bound(att@.y, rc@.y, 0x1_0000, bt);
                            lemma_prod_bound(att@.z, rc@.z, 0x1_0000, bt);
                            crate::fp::lemma_fpmul_mag(att@.x, rc@.x);
                            crate::fp::lemma_fpmul_mag(att@.y, rc@.y);
                            crate::fp::lemma_fpmul_mag(att@.z, rc@.z);
                        }
                        let out = emitted.add(&att.cmul(&rc));
                        proof {
                            let h = closest_hit(
                                scene_prims(scene.world),
                                r@,
                                EPS as int,
                                T_MAX as int,
                            )->0;
                            let smp = choose|smp: V3i|
                                in_unit_sphere(smp) && scattered@.dir == vadd(h.normal, smp);
                            assert(scattered@ == scat_ray(h, r@.time, smp));
                            lemma_rel_hit_scatter(
                                *scene,
                                r@,
                                depth as int,
                                smp,
                                rc@,
                                out@,
                            );
                        }
                        out
                    },
                    Option::None => {
                        proof {
                            lemma_rel_hit_plain(*scene, r@, depth as int, emitted@);
                        }
                        emitted
                    },
                }
            } else {
                proof {
                    lemma_rel_hit_plain(*scene, r@, depth as int, emitted@);
                }
                emitted
            }
        },
    }
}

/// The screen fraction addressed by sub-pixel draw `d` in pixel `i`
/// of `n`: `(i + d) / n` in fixed point.
pub open spec fn frac_spec(i: int, d: int, n: int) -> int {
    fpdiv(i * (FP_ONE as int) + d, n * (FP_ONE as int))
}

/// What one radiance sample of pixel `(i, j)` is: for some sub-pixel
/// jitter pair, a camera ray through the jittered fractions whose
/// integrated radiance the sample equals.
pub open spec fn sample_rel(
    scene: Scene,
    cam: Camera,
    i: int,
    j: int,
    nx: int,
    ny: int,
    c: V3i,
) -> bool {
    exists|du: int, dv: int, rr: RayV|
        #![trigger camera_ray_rel(cam, frac_spec(i, du, nx), frac_spec(j, dv, ny), rr)]
        0 <= du < FP_ONE && 0 <= dv < FP_ONE && camera_ray_rel(
            cam,
            frac_spec(i, du, nx),
            frac_spec(j, dv, ny),
            rr,
        ) && radiance_rel(scene, rr, 0, c)
}

/// One radiance sample for pixel `(i, j)` of an `nx` by `ny` image:
/// the screen fractions are jittered inside the pixel, the camera
/// makes the ray, the integrator estimates its radiance.
pub fn get_color(i: i64, j: i64, nx: i64, ny: i64, cam: &Camera, scene: &Scene, rng: &mut Rng) -> (c:
    Vec3)
    requires
        wf_camera(*cam),
        wf_scene(*scene),
        0 < nx <= 16384,
        0 < ny <= 16384,
        0 <= i < nx,
        0 <= j < ny,
    ensures
        bounded(c@, 51 * 0x4000_0000int),
        sample_rel(*scene, *cam, i as int, j as int, nx as int, ny as int, c@),
{
    let du = rng.next_unit();
    let dv = rng.next_unit();
    let u = pixel_fraction(i, du, nx);
    let v = pixel_fraction(j, dv, ny);
    let ray = cam.get_ray(u, v, rng);
    let c = color(&ray, scene, 0, rng);
    proof {
        assert(u as int == frac_spec(i as int, du as int, nx as int));
        assert(v as int == frac_spec(j as int, dv as int, ny as int));
        assert(camera_ray_rel(
            *cam,
            frac_spec(i as int, du as int, nx as int),
            frac_spec(j as int, dv as int, ny as int),
            ray@,
        ));
    }
    c
}

/// The screen fraction of sub-pixel offset `d` inside pixel `i` of `n`:
/// `(i + d) / n` in fixed point, always within `[0, 1]`.
fn pixel_fraction(i: i64, d: i64, n: i64) -> (u: i64)
    requires
        0 < n <= 16384,
        0 <= i < n,
        0 <= d < FP_ONE,
    ensures
        u as int == fpdiv(i as int * FP_ONE as int + d as int, n as int * FP_ONE as int),
        0 <= u <= FP_ONE,
{
    let num: i64 = i * FP_ONE + d;
    let den: i64 = n * FP_ONE;
    proof {
        let s = FP_ONE as int;
        let nm = num as int;
        let dn = den as int;
        crate::fp::lemma_sdiv_mag(nm * s, dn);
        lemma_prod_bound(nm, s, 0x4000_0000, 0x1_0000);
        assert(nm * s <= dn * s) by (nonlinear_arith)
            requires
                nm <= dn,
                s > 0,
        ;
        crate::fp::lemma_tdiv_mono(nm * s, dn * s, dn);
        vstd::arithmetic::div_mod::lemma_div_multiples_vanish(s, dn);
        assert(tdiv(dn * s, dn) == s) by {
            assert(dn * s == s * dn) by (nonlinear_arith);
        }
        vstd::arithmetic::div_mod::lemma_div_pos_is_pos(nm * s, dn);
        assert(nm * s >= 0) by (nonlinear_arith)
            requires
                nm >= 0,
                s > 0,
        ;
    }
    fp_div(num, den)
}

/// One resolved output channel: the accumulated radiance averaged over
/// the sample count, clamped at black, square-root tone-mapped, and
/// scaled by 255.99.
pub open spec fn pixel_channel(c: int, ns: int) -> int {
    let avg = tdiv(c, ns);
    let cl = if avg < 0 {
        0
    } else {
        avg
    };
    tdiv(25599 * isqrt_spec(cl * (FP_ONE as int)), 100 * (FP_ONE as int))
}

/// Resolves one accumulated pixel into display channels.
pub fn get_pixel(col: &Vec3, ns: i64) -> (rgb: (u32, u32, u32))
    requires
        ns >= 1,
        bounded(col@, 0x20_0000_0000_0000),
    ensures
        rgb.0 as int == pixel_channel(col@.x, ns as int),
        rgb.1 as int == pixel_channel(col@.y, ns as int),
        rgb.2 as int == pixel_channel(col@.z, ns as int),
{
    (resolve_channel(col.x, ns), resolve_channel(col.y, ns), resolve_channel(col.z, ns))
}

fn resolve_channel(c: i64, ns: i64) -> (r: u32)
    requires
        ns >= 1,
        in_range(c as int, 0x20_0000_0000_0000),
    ensures
        r as int == pixel_channel(c as int, ns as int),
{
    let avg: i64 = tdiv_i128(c as i128, ns as i128) as i64;
    let cl: i64 = if avg < 0 {
        0
    } else {
        avg
    };
    let sq: i64 = fp_sqrt(cl);
    proof {
        lemma_isqrt_unique(sq as int, cl as int * (FP_ONE as int));
        assert(sq as int * (sq as int) <= 0x20_0000_0000_0000 * 0x1_0000int);
        assert(sq < 0x40_0000_0000) by (nonlinear_arith)
            requires
                (sq as int) * (sq as int) <= 0x20_0000_0000_0000 * 0x1_0000int,
                sq >= 0,
        ;
    }
    let num: i128 = 25599 * (sq as i128);
    let r: i128 = tdiv_i128(num, 100 * (FP_ONE as i128));
    proof {
        crate::fp::lemma_tdiv_mag(num as int, 100 * (FP_ONE as int));
        vstd::arithmetic::div_mod::lemma_div_pos_is_pos(num as int, 100 * (FP_ONE as int));
    }
    r as u32
}

/// What `k` accumulated samples of pixel `(i, j)` are: zero for none,
/// else a previous accumulation plus one more related sample.
pub open spec fn samples_sum_rel(
    scene: Scene,
    cam: Camera,
    i: int,
    j: int,
    nx: int,
    ny: int,
    k: int,
    col: V3i,
) -> bool
    decreases k,
{
    if k <= 0 {
        col == (V3i { x: 0, y: 0, z: 0 })
    } else {
        exists|prev: V3i, smp: V3i|
            #![trigger vadd(prev, smp)]
            samples_sum_rel(scene, cam, i, j, nx, ny, k - 1, prev) && sample_rel(
                scene,
                cam,
                i,
                j,
                nx,
                ny,
                smp,
            ) && col == vadd(prev, smp)
    }
}

/// What one resolved pixel is: `ns` accumulated radiance samples of
/// pixel `(i, j)`, averaged, tone-mapped and scaled channelwise.
pub open spec fn pixel_rel(
    scene: Scene,
    cam: Camera,
    i: int,
    j: int,
    nx: int,
    ny: int,
    ns: int,
    px: (u32, u32, u32),
) -> bool {
    exists|col: V3i|
        #![trigger samples_sum_rel(scene, cam, i, j, nx, ny, ns, col)]
        samples_sum_rel(scene, cam, i, j, nx, ny, ns, col) && px.0 == pixel_channel(col.x, ns)
            && px.1 == pixel_channel(col.y, ns) && px.2 == pixel_channel(col.z, ns)
}

/// Renders the whole image in raster order (top row first), `ns`
/// jittered samples per pixel, sequentially: entry `row * nx + i` is
/// the resolved pixel of column `i` in the row `ny - 1 - row` of the
/// screen.  Spreading the same per-sample calls over a worker pool
/// resolves the same pixels, since each sample depends only on its own
/// draws.
pub fn render(scene: &Scene, cam: &Camera, nx: i64, ny: i64, ns: i64, rng: &mut Rng) -> (img: Vec<
    (u32, u32, u32),
>)
    requires
        wf_camera(*cam),
        wf_scene(*scene),
        0 < nx <= 4096,
        0 < ny <= 4096,
        1 <= ns <= 65536,
    ensures
        img@.len() == nx * ny,
        forall|r2: int, i2: int|
            0 <= r2 < ny && 0 <= i2 < nx ==> pixel_rel(
                *scene,
                *cam,
                i2,
                ny - 1 - r2,
                nx as int,
                ny as int,
                ns as int,
                #[trigger] img@[r2 * (nx as int) + i2],
            ),
{
    let mut img: Vec<(u32, u32, u32)> = Vec::new();
    let mut row: i64 = 0;
    while row < ny
        invariant
            0 <= row <= ny,
            img@.len() == row * nx,
            wf_camera(*cam),
            wf_scene(*scene),
            0 < nx <= 4096,
            0 < ny <= 4096,
            1 <= ns <= 65536,
            forall|r2: int, i2: int|
                0 <= r2 < row && 0 <= i2 < nx ==> pixel_rel(
                    *scene,
                    *cam,
                    i2,
                    ny - 1 - r2,
                    nx as int,
                    ny as int,
                    ns as int,
                    #[trigger] img@[r2 * (nx as int) + i2],
                ),
        decreases ny - row,
    {
        let j = ny - 1 - row;
        let mut i: i64 = 0;
        while i < nx
            invariant
                0 <= i <= nx,
                0 <= row < ny,
                j == ny - 1 - row,
                img@.len() == row * nx + i,
                wf_camera(*cam),
                wf_scene(*scene),
                0 < nx <= 4096,
                0 < ny <= 4096,
                1 <= ns <= 65536,
                forall|r2: int, i2: int|
                    0 <= r2 < ny && 0 <= i2 < nx && (r2 < row || (r2 == row && i2 < i))
                        ==> pixel_rel(
                        *scene,
                        *cam,
                        i2,
                        ny - 1 - r2,
                        nx as int,
                        ny as int,
                        ns as int,
                        #[trigger] img@[r2 * (nx as int) + i2],
                    ),
            decreases nx - i,
        {
            let mut col = Vec3::zero();
            let mut k: i64 = 0;
            while k < ns
                invariant
                    0 <= k <= ns,
                    bounded(col@, (k as int) * (51 * 0x4000_0000int)),
                    samples_sum_rel(
                        *scene,
                        *cam,
                        i as int,
                        j as int,
                        nx as int,
                        ny as int,
                        k as int,
                        col@,
                    ),
                    wf_camera(*cam),
                    wf_scene(*scene),
                    0 < nx <= 4096,
                    0 < ny <= 4096,
                    1 <= ns <= 65536,
                    0 <= i < nx,
                    0 <= j < ny,
                decreases ns - k,
            {
                let sample = get_color(i, j, nx, ny, cam, scene, rng);
                let ghost prev = col@;
                col = col.add(&sample);
                proof {
                    assert(vadd(prev, sample@) == col@);
                }
                k = k + 1;
            }
            let px = get_pixel(&col, ns);
            proof {
                assert(samples_sum_rel(
                    *scene,
                    *cam,
                    i as int,
                    j as int,
                    nx as int,
                    ny as int,
                    ns as int,
                    col@,
                ));
                assert(pixel_rel(
                    *scene,
                    *cam,
                    i as int,
                    j as int,
                    nx as int,
                    ny as int,
                    ns as int,
                    px,
                ));
            }
            let ghost old_img = img@;
            img.push(px);
            proof {
                assert(img@ =~= old_img.push(px));
                assert forall|r2: int, i2: int|
                    0 <= r2 < ny && 0 <= i2 < nx && (r2 < row || (r2 == row && i2 < i + 1))
                        implies pixel_rel(
                    *scene,
                    *cam,
                    i2,
                    ny - 1 - r2,
                    nx as int,
                    ny as int,
                    ns as int,
                    #[trigger] img@[r2 * (nx as int) + i2],
                ) by {
                    if r2 == row && i2 == i as int {
                        assert(r2 * (nx as int) + i2 == old_img.len());
                        assert(img@[r2 * (nx as int) + i2] == px);
                    } else {
                        assert(r2 * (nx as int) + i2 < old_img.len()) by (nonlinear_arith)
                            requires
                                0 <= r2,
                                0 <= i2 < nx as int,
                                r2 < row as int || (r2 == row as int && i2 < i as int),
                                old_img.len() == (row as int) * (nx as int) + (i as int),
                                0 < nx,
                                0 <= i,
                        ;
                        assert(img@[r2 * (nx as int) + i2] == old_img[r2 * (nx as int) + i2]);
                    }
                }
            }
            i = i + 1;
        }
        proof {
            assert((row + 1) * nx == row * nx + nx) by (nonlinear_arith);
        }
        row = row + 1;
    }
    proof {
        assert((ny as int) * (nx as int) == (nx as int) * (ny as int)) by (nonlinear_arith);
    }
    img
}

} // verus!
