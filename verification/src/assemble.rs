//! Assembly of Galerkin matrices and vectors, and elimination of their dofs.

pub mod boundary_conditions;
pub mod boundary_law;
pub mod boundary_terms;
pub mod dirichlet_law;
pub mod dofs;
pub mod elements;
pub mod fixed_dofs_law;
pub mod galerkin;
pub mod lumped_law;
pub mod nonconforming;
pub mod reconstruction_law;
pub mod scatter_law;
pub mod stabilization_law;
pub mod symmetry_law;
pub mod tolerance_law;
pub mod barycentric_dual;
pub mod barycentric_inverse;
