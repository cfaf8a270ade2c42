//! The decision core of a ray tracer: which crossing of a ray is seen, which
//! media bound it, which secondary rays are followed and with what budget.
//!
//! Every number of the scene is a binary64 value held by its bit pattern. The
//! library orders, compares and negates such values exactly; sums, products and
//! roots are formed by the caller and handed in.
//!
//! - `scalar`, `exact`: numbers by their bit pattern; their order, their
//!   exact value, the tolerance.
//! - `tuple`, `colour`, `matrix`, `canvas`: points and directions, colours,
//!   transforms and square matrices, the pixel grid.
//! - `rays`, `lights`, `patterns`, `materials`, `primitives`: what a scene is
//!   made of.
//! - `intersections`, `precomp`: the crossings of a ray, the hit among them,
//!   and the hit prepared for shading.
//! - `world`: the scene, and what a ray through it calls for.

pub mod canvas;
pub mod colour;
pub mod exact;
pub mod intersections;
pub mod lights;
pub mod materials;
pub mod matrix;
pub mod patterns;
pub mod precomp;
pub mod primitives;
pub mod rays;
pub mod scalar;
pub mod tuple;
pub mod world;
