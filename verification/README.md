# formoniq

Finite element exterior calculus on simplicial meshes: Whitney forms, their Galerkin matrices,
and the linear systems of Hodge-Laplace, heat, magnetostatic and eddy-current problems. The
library is written in Verus; what each function returns is stated in its contract and proved.

## Layout

- `src/topology`: simplices, skeletons, complexes, incidence, boundaries.
- `src/linalg`: the `Scalar` trait, dense and sparse matrices, PETSc files and arguments.
- `src/exterior.rs`, `src/whitney.rs`, `src/fe.rs`: forms, Whitney forms, norms and errors;
  `src/whitney_law.rs` and `src/whitney_mesh_law.rs`: what their derivatives are.
- `src/operators`: element matrices and vectors.
- `src/assemble`: assembly, boundary conditions, lumped and sparse inverse mass matrices.
- `src/problems`: layouts of dofs, systems and models of the problems.
- `src/io`: meshes from Gmsh files, and the texts of VTK and VTU files.
- `src/*_convergence.rs`, `src/*_fields.rs`, `src/sparse_inverse_hodge_validation.rs`: the
  convergence studies.
- `tests`: the library run on `f64` coefficients.
- `app`: ordinary Rust around the library: files, solvers, real coefficients, study loops.

## Coefficients

All numbers are of a type `T: Scalar`. Contracts name the operations of `T` in the order in which
they are carried out, so they also hold of floating point. Laws that relate several functions are
proof functions beside them, or in files whose names end in `_law.rs`. Those that need exact
arithmetic say so in their `requires`: `exact_ring`, `commutative_ring`.
