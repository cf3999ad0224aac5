//! Contour extraction over a triangulated finite-element mesh.
//!
//! The mesh is described by integer data: node coordinates in grid units,
//! element connectivity, and one integer sample of the scalar field per node.
//! Thresholds are exact rationals, so classification and interpolation are
//! carried out without rounding.
//!
//! - `mesh`: splitting elements into triangles.
//! - `contour`: classifying nodes and triangles against a threshold, and the
//!   isoline segments of one threshold.
//! - `levels`: the field's range and the evenly spaced thresholds over it.
//! - `heat`: the colour of a triangle on the field's range.
//! - `plotter`: a mesh with its boundary markers and solution.
//! - `input`: the line formats of the index files.
pub mod contour;
pub mod heat;
pub mod input;
pub mod levels;
pub mod mesh;
pub mod plotter;
