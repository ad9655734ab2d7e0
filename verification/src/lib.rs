//! A path-tracing render core over fixed-point arithmetic.
//!
//! Scene geometry (spheres, moving spheres, axis-aligned rectangles), a
//! bounding-volume-hierarchy accelerator, materials, procedural textures
//! with gradient noise, a thin-lens camera and the recursive radiance
//! integrator, all specified and verified over scaled 64-bit integers.

pub mod fp;
pub mod rng;
pub mod vec3;
pub mod ray;
pub mod aabb;
pub mod hitable;
pub mod bvh;
pub mod perlin;
pub mod texture;
pub mod material;
pub mod camera;
pub mod scene;
