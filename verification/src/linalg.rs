//! Linear algebra on sparse matrices.

pub mod action_law;
pub mod adjugate_law;
pub mod algebra;
pub mod blocks;
pub mod csr;
pub mod dense;
pub mod matrix_law;
pub mod minor_law;
pub mod minors;
pub mod petsc;
pub mod petsc_files;
pub mod petsc_paths;
pub mod products;
pub mod ring;
pub mod scalar;
pub mod space_law;
pub mod sparse;
pub mod sums;
pub mod vec3;
pub mod vectors;
