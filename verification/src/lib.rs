//! Exact-arithmetic core of a path-tracing renderer.
//!
//! Geometry lives on an integer coordinate grid; ray parameters are exact
//! rationals. On this substrate the intersection structures — axis-aligned
//! bounding boxes, primitives, the flat scene list and the bounding-volume
//! hierarchy — carry proved contracts: the slab test decides exactly whether
//! the ray passes through the box, and both the linear scan and the BVH
//! return the nearest hit.

pub mod vec3;
pub mod interval;
pub mod rat;
pub mod ray;
pub mod aabb;
pub mod plane;
pub mod hittable;
pub mod hittable_list;
pub mod bvh_node;
pub mod color;
pub mod onb;
pub mod pdf;
pub mod texture;
pub mod material;
pub mod sphere;
pub mod camera;
