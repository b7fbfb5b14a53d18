//! Reduced systems of partial differential equations.

pub mod jacobian_law;
pub mod layout;
pub mod residual;
pub mod derivative_law;
pub mod elimination;
pub mod elimination_law;
pub mod mixed_galmats;
pub mod harmonic_law;
pub mod heat;
pub mod hodge_evp;
pub mod hodge_laplace;
pub mod hodge_transient;
pub mod laplace_beltrami;
pub mod linear_law;
pub mod lumped_law;
pub mod step_law;
pub mod transient;
pub mod transient_law;
pub mod reduced_linear;
pub mod hodge_operators;
pub mod flux_elements;
pub mod flux_law;
pub mod reluctivity;
pub mod schur_law;
pub mod nonlinear_magnetostatic;
pub mod tangent_law;
pub mod tetrahedra;
pub mod triangle_law;
pub mod probe;
pub mod probe_law;
pub mod affine;
pub mod vector_potential;
pub mod weighted_evp;
pub mod weighted_galmats;
pub mod eddy_current;
