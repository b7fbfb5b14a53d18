//! Simplicial topology: simplices, skeletons, complexes and their incidence operators.

pub mod boundary;
pub mod complex;
pub mod handle;
pub mod incidence;
pub mod simplex;
pub mod skeleton;
