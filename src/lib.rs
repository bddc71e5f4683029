//! Exact closest-point-to-origin kernel for GJK-style distance queries.
//!
//! Points have integer coordinates in a space of dimension one to three, and
//! projections are computed exactly as rational points, so every contract is
//! stated over mathematical integers.
//!
//! - `vector`: dot products and the admissible range of coordinates.
//! - `fraction`: exact comparison of two fractions.
//! - `projection`: the mathematical model of the exhaustive face search.
//! - `brute_force_simplex`: the simplex that runs that search.
//! - `theorems`: what holds of every projection.
//! - `annotated_point`: points that carry the witnesses they came from.
//! - `minkowski_sum`: the support query of a sum or difference of two shapes.

pub mod fraction;
pub mod vector;
pub mod projection;
pub mod brute_force_simplex;
pub mod theorems;
pub mod annotated_point;
pub mod minkowski_sum;
