//! Procedural vector drawing: stroke and oval tessellation into triangle
//! meshes, and per-frame tasks that animate shared scene parameters.
//!
//! All geometry is fixed point: a coordinate of `ONE` is one unit of the
//! canvas, angles are fractions of a turn scaled by `ONE`.
pub mod geometry;
pub mod mesh_builder;
pub mod paper;
pub mod easing;
pub mod flower;
pub mod particle;
