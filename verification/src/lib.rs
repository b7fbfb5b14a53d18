//! Finite element exterior calculus on simplicial meshes: the combinatorial core.

pub mod assemble;
pub mod exterior;
pub mod fe;
pub mod fe_law;
pub mod io;
pub mod linalg;
pub mod mixed_bc_fields;
pub mod mixed_bc_hodge_laplacian_convergence;
pub mod numerals;
pub mod operators;
pub mod output;
pub mod problems;
pub mod reduction;
pub mod sparse_inverse_hodge_validation;
pub mod sparse_inverse_law;
pub mod text;
pub mod topology;
pub mod torus_convergence;
pub mod torus_fields;
pub mod whitney;
pub mod whitney_law;
pub mod whitney_mesh_law;
