//! A grid-based, semi-Lagrangian incompressible-fluid solver on a fixed-size,
//! toroidal 2D grid of density/velocity samples.
//!
//! Scalar samples are signed 64-bit fixed-point numbers with 32 fractional
//! bits (see [`fixed`]), so that every arithmetic step has an exact,
//! machine-checked meaning.

pub mod fixed;
pub mod fluid;
pub mod laws;
pub mod timer;
