//! A path tracer's geometric core on an integer lattice: exact ray, box and
//! triangle predicates, a median-split bounding-volume hierarchy, light
//! selection by area, and the bookkeeping of the renderer.

pub mod bounds3;
pub mod bvh;
pub mod integrator;
pub mod intersection;
pub mod material;
pub mod mesh;
pub mod ratio;
pub mod ray;
pub mod renderer;
pub mod sampling;
pub mod scene;
pub mod shader;
pub mod sort;
pub mod triangle;
pub mod vector;
