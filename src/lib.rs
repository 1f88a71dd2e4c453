//! Escape-time rendering of quadratic Julia sets: color mapping, the
//! escape-time counting protocol, raster assembly, the boundary-contraction
//! round logic and animation trajectories, each with a verified contract.

pub mod palette;
pub mod escape;
pub mod config;
pub mod raster;
pub mod schedule;
pub mod boundary;
pub mod trajectory;
