//! Wireframe geometry: dense matrices, drawable line segments, scenes and
//! the edge structure of simple solids.
pub mod matrix;
pub mod solid;
pub mod transformations;
