//! Icosphere generation: triangulated approximations of the unit sphere,
//! built from a regular icosahedron by repeated four-way face subdivision.
//!
//! Coordinates are fixed-point integers: `geom::SCALE` plays the role of
//! unit length, so every vertex `v` of every produced mesh satisfies
//! `|v|^2 == SCALE^2` up to the small tolerance `geom::NORM_TOL`.

pub mod geom;
pub mod laws;
pub mod sphere;
