//! Verified index bookkeeping for finite-element discretizations and
//! Gaussian Markov random field assembly.
//!
//! The numerical kernels of the toolkit work in floating point; this crate
//! holds the parts whose correctness is a matter of indices and structure:
//! array layout conversion, grid topology and stencils, constraint
//! bookkeeping on degrees of freedom, block partitions and the argument
//! checks that decide which error a routine reports.

pub mod datasets;
pub mod dense;
pub mod grid;
pub mod layout;
pub mod linalg;
pub mod mat_scan;
pub mod mesh;
pub mod problems;
pub mod sparse;
pub mod spde;
