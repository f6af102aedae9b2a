//! # NFP Library
//!
//! No Fit Polygon (NFP) algorithms for nesting and packing problems.
//! Polygons are `Vec<Point>` of `togo` points, the last vertex connecting
//! back to the first.
//!
//! The verified part of the library fixes which polygon pairs are refused,
//! how the Minkowski sum of two convex polygons is assembled before `togo`
//! takes its convex hull, which offsets are the candidate vertices of the
//! point-based NFP, and how a polygon becomes a closed chain of segments.
//! Coordinates are floating point numbers and are handled by `togo` only.

pub mod geometry;
pub mod nfp_convex;
pub mod nfp_points;
pub mod nfp_points_backup;
pub mod datagen;
pub mod prelude;

pub use togo::prelude::Point;
pub use togo::prelude::point;
pub use nfp_convex::{NFPConvex, NfpError};
pub use nfp_convex::to_arcline;
pub use datagen::DataGen;
