//! Detection of geometric divergence between two polyline datasets describing
//! the same trail: a named reference dataset and a flat comparison dataset.
//!
//! Coordinates are fixed-point geographic positions: longitude and latitude in
//! units of 1e-7 degrees. Distances are great-circle distances in integer
//! millimeters. The great-circle metric itself is supplied by an outside
//! crate behind a trusted wrapper; everything built on top of it (projection
//! onto segments, the nearest-segment index, arc-length sampling, and the
//! contiguous-run divergence detector) is verified.

pub mod detect;
pub mod dist;
pub mod geom;
pub mod index;
pub mod osm;
pub mod pcta;
pub mod sample;
