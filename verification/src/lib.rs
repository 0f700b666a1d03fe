//! A physically motivated path-tracing core on fixed-point numbers: geometric
//! primitives, bounding boxes, a bounding-volume hierarchy, diffuse materials
//! and a Monte-Carlo integrator with next-event estimation and Russian
//! roulette.
//!
//! A scene is filled with primitives, its tree is built once, and then rays
//! are cast through the pixels of the picture:
//!
//! 1. [`scene::Scene::add_obj`] takes spheres, triangles and meshes;
//! 2. [`scene::Scene::build_bvh`] builds the hierarchy of boxes over them;
//! 3. [`render::render`] averages, for every pixel, the radiance along a
//!    number of random paths.
//!
//! All numbers are [`fixed::Fixed`]: 64 bits, of which 32 hold the fraction.
pub mod bound;
pub mod bvh;
pub mod bvh_proofs;
pub mod fixed;
pub mod global;
pub mod intersection;
pub mod light;
pub mod material;
pub mod mesh_file;
pub mod obj_loader;
pub mod objects;
pub mod rasterizer;
pub mod ray;
pub mod render;
pub mod sah;
pub mod scene;
pub mod trig;
pub mod vector;

pub use crate::bound::{union, union_point, Bound3};
pub use crate::bvh::{BVHAccel, BVHBuildNode, BVHPrimitiveInfo, SplitMethod};
pub use crate::fixed::Fixed;
pub use crate::global::{clamp, get_random_float, solve_quadratic};
pub use crate::intersection::Intersection;
pub use crate::light::{AreaLight, Light};
pub use crate::material::{Material, MaterialType};
pub use crate::objects::sphere::Sphere;
pub use crate::objects::triangle::{MeshTriangle, Triangle};
pub use crate::objects::{DegenerateGeometryError, Object, SampleDraws, Shape};
pub use crate::ray::Ray;
pub use crate::render::{cast_ray, fresnel, render, shade, trace, HitPayload, PathDraws};
pub use crate::sah::SAHAccel;
pub use crate::scene::{Scene, SceneNotBuiltError};
pub use crate::vector::{v3max, v3min, Vector3};
