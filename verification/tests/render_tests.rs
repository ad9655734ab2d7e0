//! Noise, textures, the camera, the integrator and the render loop.

use raytrace::vec3::Vec3;
use raytrace::ray::Ray;
use raytrace::hitable::{Sphere, Object, HitableList};
use raytrace::perlin::{Perlin, perlin_generate_perm, permute};
use raytrace::texture::{Texture, ConstantTexture, CheckerTexture, NoiseTexture};
use raytrace::material::Material;
use raytrace::camera::Camera;
use raytrace::scene::{Scene, Hitable, color, get_color, get_pixel, render};
use raytrace::rng::Rng;

const S: i64 = 65536;

#[test]
fn noise_is_bounded_and_deterministic() {
    let mut rng = Rng::Seeded(11);
    let per = Perlin::new(&mut rng);
    let pts = [
        Vec3::new(0, 0, 0),
        Vec3::new(S / 3, 2 * S / 3, 7 * S / 5),
        Vec3::new(-5 * S, 13 * S / 2, -21 * S / 4),
        Vec3::new(1000 * S, -1000 * S, 999 * S),
    ];
    for p in pts.iter() {
        let n1 = per.noise(p);
        let n2 = per.noise(p);
        assert_eq!(n1, n2);
        assert!(-3 * S <= n1 && n1 <= 3 * S);
    }
}

#[test]
fn turbulence_is_never_negative() {
    let mut rng = Rng::Seeded(23);
    let per = Perlin::new(&mut rng);
    for k in -8i64..8 {
        let p = Vec3::new(k * S / 2, k * k * S / 4, -k * S / 3);
        let t = per.turb(&p, 3);
        assert!(t >= 0);
        assert!(t <= 6 * S);
        assert_eq!(per.turb(&p, 0), 0);
    }
}

#[test]
fn permutation_tables_keep_their_entries() {
    let mut rng = Rng::Seeded(5);
    let p = perlin_generate_perm(&mut rng);
    assert_eq!(p.len(), 256);
    let mut sorted = p.clone();
    sorted.sort();
    for (i, v) in sorted.iter().enumerate() {
        assert_eq!(*v as usize, i);
    }
    let mut q: Vec<u8> = (0..=255).collect();
    permute(&mut q, &mut rng);
    let mut qs = q.clone();
    qs.sort();
    for (i, v) in qs.iter().enumerate() {
        assert_eq!(*v as usize, i);
    }
}

#[test]
fn constant_and_checker_textures() {
    let red = Vec3::new(S, 0, 0);
    let green = Vec3::new(0, S, 0);
    let c = Texture::Constant(ConstantTexture::new(red));
    assert_eq!(c.value(0, 0, &Vec3::new(5 * S, -3 * S, S)), red);
    let check = Texture::Checker(Box::new(CheckerTexture::new(
        Texture::Constant(ConstantTexture::new(red)),
        Texture::Constant(ConstantTexture::new(green)),
    )));
    // at a point with all three sines positive, the even texture shows
    let even_p = Vec3::new(6553, 6553, 6553);
    assert_eq!(check.value(0, 0, &even_p), green);
    // with exactly one sine negative, the odd texture shows
    let odd_p = Vec3::new(22937, 6553, 6553);
    assert_eq!(check.value(0, 0, &odd_p), red);
}

#[test]
fn marble_texture_is_gray_within_unit() {
    let mut rng = Rng::Seeded(3);
    let n = Texture::Noise(NoiseTexture::new(4 * S, &mut rng));
    for k in 0i64..6 {
        let p = Vec3::new(k * S, k * S / 3, k * S / 2);
        let v = n.value(0, 0, &p);
        assert_eq!(v.x, v.y);
        assert_eq!(v.y, v.z);
        assert!(0 <= v.x && v.x <= S);
    }
}

#[test]
fn lights_emit_and_do_not_scatter() {
    let glow = Texture::Constant(ConstantTexture::new(Vec3::new(4 * S, 4 * S, 4 * S)));
    let light = Material::DiffuseLight(glow);
    let p = Vec3::new(0, 0, 0);
    assert_eq!(light.emitted(0, 0, &p), Vec3::new(4 * S, 4 * S, 4 * S));
    let mut rng = Rng::Seeded(17);
    let r = Ray::new(&Vec3::new(0, 0, -S), &Vec3::new(0, 0, S), 0);
    let rec = Sphere::new(Vec3::new(0, 0, 0), S, 0).hit(&r, 66, 1 << 30).unwrap();
    assert!(light.scatter(&r, &rec, &mut rng).is_none());
    assert!(Material::Inert.scatter(&r, &rec, &mut rng).is_none());
    assert_eq!(Material::Inert.emitted(0, 0, &p), Vec3::zero());
}

#[test]
fn lambertian_scatters_from_the_hit_point() {
    let gray = Texture::Constant(ConstantTexture::new(Vec3::new(S / 2, S / 2, S / 2)));
    let mat = Material::Lambertian(gray);
    let mut rng = Rng::Seeded(29);
    let r = Ray::new(&Vec3::new(0, 0, -3 * S), &Vec3::new(0, 0, S), 123);
    let rec = Sphere::new(Vec3::new(0, 0, 0), S, 0).hit(&r, 66, 1 << 30).unwrap();
    let (att, scattered) = mat.scatter(&r, &rec, &mut rng).unwrap();
    assert_eq!(att, Vec3::new(S / 2, S / 2, S / 2));
    assert_eq!(scattered.a, rec.p);
    assert_eq!(scattered.time(), 123);
    // the scattered direction is the normal plus a unit-sphere sample
    let s = scattered.b.sub(&rec.normal);
    assert!(s.squared_len() < S);
}

fn overhead_camera(aperture: i64) -> Camera {
    // looking straight down the y axis from above the scene
    Camera::new(
        &Vec3::new(0, 5 * S, 0),
        &Vec3::new(0, 0, 0),
        &Vec3::new(S, 0, 0),
        11556,  // tan of half a 20-degree field of view
        3 * S / 2,
        aperture,
        10 * S,
        0,
        S,
    )
}

#[test]
fn closed_aperture_rays_ignore_the_lens_sample() {
    // with aperture zero the centre ray is a fixed function of the
    // camera alone: two different random sources give the same ray
    let cam = overhead_camera(0);
    let mut rng1 = Rng::Seeded(1);
    let mut rng2 = Rng::Seeded(987654321);
    let r1 = cam.get_ray(S / 2, S / 2, &mut rng1);
    let r2 = cam.get_ray(S / 2, S / 2, &mut rng2);
    assert_eq!(r1.a, cam.origin);
    assert_eq!(r2.a, cam.origin);
    assert_eq!(r1.b, r2.b);
    // the centre ray aims at the middle of the virtual screen
    let centre = cam.lower_left_corner.add(&cam.horizontal.scale(S / 2)).add(
        &cam.vertical.scale(S / 2),
    );
    assert_eq!(r1.b, centre.sub(&cam.origin));
    // an open aperture keeps the shutter time inside the interval
    let wide = overhead_camera(S / 4);
    let r3 = wide.get_ray(S / 2, S / 2, &mut rng1);
    assert!(0 <= r3.time() && r3.time() <= S);
}

fn big_sphere_scene() -> Scene {
    let gray = Texture::Constant(ConstantTexture::new(Vec3::new(S / 2, S / 2, S / 2)));
    let materials = vec![Material::Lambertian(gray)];
    let world = Hitable::List(HitableList::new(vec![Object::Ball(Sphere::new(
        Vec3::new(0, -1000 * S, 0),
        1000 * S,
        0,
    ))]));
    Scene::new(materials, world)
}

#[test]
fn big_sphere_under_the_sky() {
    // one large diffuse sphere below the origin: a ray straight down is
    // attenuated gray, a ray straight up sees exactly the sky gradient
    let scene = big_sphere_scene();
    let mut rng = Rng::Seeded(41);
    let down = Ray::new(&Vec3::new(0, 5 * S, 0), &Vec3::new(0, -S, 0), 0);
    let c = color(&down, &scene, 0, &mut rng);
    assert!(0 <= c.x && c.x <= 36000);
    assert!(0 <= c.y && c.y <= 36000);
    assert!(0 <= c.z && c.z <= 36000);
    let up = Ray::new(&Vec3::new(0, 5 * S, 0), &Vec3::new(0, S, 0), 0);
    let sky = color(&up, &scene, 0, &mut rng);
    assert_eq!(sky, Vec3::new(32768, 45875, S));
    // a sideways ray also misses and shades between white and blue
    let side = Ray::new(&Vec3::new(0, 5 * S, 0), &Vec3::new(S, 0, 0), 0);
    let mid = color(&side, &scene, 0, &mut rng);
    assert_eq!(mid, Vec3::new(S - 16384, S - 9831, S));
}

#[test]
fn render_covers_the_image_in_raster_order() {
    let scene = big_sphere_scene();
    let cam = overhead_camera(0);
    let mut rng = Rng::Seeded(7);
    let img = render(&scene, &cam, 2, 2, 1, &mut rng);
    assert_eq!(img.len(), 4);
    for px in img.iter() {
        assert!(px.0 < 512 && px.1 < 512 && px.2 < 512);
    }
}

#[test]
fn seeded_renders_reproduce_exactly() {
    // the determinism behind pool-size independence: with the same
    // seeded stream, the whole render is a pure function of its inputs
    let scene = big_sphere_scene();
    let cam = overhead_camera(S / 8);
    let mut rng1 = Rng::Seeded(7);
    let mut rng2 = Rng::Seeded(7);
    let img1 = render(&scene, &cam, 3, 2, 4, &mut rng1);
    let img2 = render(&scene, &cam, 3, 2, 4, &mut rng2);
    assert_eq!(img1, img2);
    let mut rng3 = Rng::Seeded(8);
    let img3 = render(&scene, &cam, 3, 2, 4, &mut rng3);
    assert_eq!(img3.len(), img1.len());
}

#[test]
fn pixels_resolve_with_gamma() {
    // a full-brightness channel maps to 255, a quarter to 127
    assert_eq!(get_pixel(&Vec3::new(S, S / 4, 0), 1), (255, 127, 0));
    // averaging over samples divides first: two samples of one unit
    assert_eq!(get_pixel(&Vec3::new(2 * S, 0, 0), 2), (255, 0, 0));
    // negative accumulations clamp to black
    assert_eq!(get_pixel(&Vec3::new(-S, 0, 0), 1), (0, 0, 0));
}

#[test]
fn per_sample_work_unit_is_bounded() {
    let scene = big_sphere_scene();
    let cam = overhead_camera(0);
    let mut rng = Rng::Seeded(13);
    let c = get_color(0, 0, 2, 2, &cam, &scene, &mut rng);
    assert!(c.x.abs() <= 51 * (1 << 30));
}
