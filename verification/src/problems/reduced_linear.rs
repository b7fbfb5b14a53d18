//! Linear problems reduced to their active dofs.

use crate::assemble::barycentric_dual::config_fault;
use crate::assemble::barycentric_dual::BarycentricDualSparseInverseConfig;
use crate::assemble::barycentric_inverse::assemble_barycentric_dual_sparse_inverse_galmat_for_grade;
use crate::assemble::barycentric_inverse::{dual_fault, dual_inputs_fit, local_entries};
use crate::assemble::dofs::or_zero;
use crate::assemble::galerkin::{assemble_galmat, GalMat};
use crate::assemble::nonconforming::{blocks_match, dof_count, nc_supported, projected_entries};
use crate::assemble::nonconforming::assemble_whitney_projected_sparse_inverse_from_blocks;
use crate::assemble::symmetry_law::only_zero_is_zero;
use crate::io::fields::MeshCoords;
use crate::linalg::algebra::{
    diagonal_total, inverted_spec, matrix_times, nonzero_diagonal, product_terms, row_dot,
    row_total, scaled_nonzero, shape_text,
};
use crate::linalg::algebra::{
    add_sparse, diag_matrix, invert_diag, lumped_diag, matrix_diag, mul_vec, product,
    scale_matrix, scaled_identity, vector_negated, zero_vector,
};
use crate::linalg::csr::compressed;
use crate::linalg::csr::CsrMatrix;
use crate::linalg::dense::DenseMatrix;
use crate::linalg::ring::{commutative_ring, exact_ring};
use crate::linalg::scalar::Scalar;
use crate::linalg::sparse::{triplets_within, unset_before};
use crate::linalg::sparse::CooMatrix;
use crate::linalg::vectors::difference_of;
use crate::linalg::vectors::minus;
use crate::operators::elements::SimplexGeometry;
use crate::operators::reference::reference_fits;
use crate::operators::weights::ScalarWeight;
use crate::problems::elimination::{copy_of, part_of};
use crate::problems::hodge_evp::{galmats_of, mixed_elmats};
use crate::problems::hodge_laplace::is_source_system;
use crate::problems::laplace_beltrami::LaplaceBeltramiGalmats;
use crate::problems::layout::{
    bias_at, lifted, prescribed_value, prescribed_values_enter_as_bias, reduced_triplets,
};
use crate::problems::layout::{fixed_map, hard_dirichlet_bias, reduce_square_with_layout};
use crate::problems::mixed_galmats::{elmats_match, free_count, mass_entries};
use crate::problems::mixed_galmats::{count_free, MixedGalmats};
use crate::problems::schur_law::{eliminates_first, first_invertible, schur_system_eliminates};
use crate::problems::weighted_galmats::weighted_cells;
use crate::reduction::{
    ascending_indices, dof_indices, no_fault_means_ok, prescribed_dofs_fault, prescribed_ok,
};
use crate::reduction::{dof_flags, DofLayout, EssentialBoundarySpec, PrescribedDof};
use crate::text::decimal;
use crate::text::{owned, push_decimal};
use crate::topology::complex::Complex;
use crate::topology::simplex::Dim;
use vstd::prelude::*;
use vstd::string::*;

verus! {

/// How the inverse of a mass is approximated, with what the approximation is made of.
#[derive(Debug, Clone, Copy)]
pub enum MassInverseApproximation<'a, T> {
    /// The inverse of the row sums.
    RowSumLumped,
    /// The inverse of the blocks of the lumped mass around the vertices, projected.
    WhitneyProjected { vertex_dofs: &'a [Vec<usize>], inverse_blocks: &'a [DenseMatrix<T>] },
    /// Blocks around the vertices that come from the barycentric dual; there are none without
    /// coordinates.
    BarycentricDual {
        coords: Option<&'a MeshCoords<T>>,
        volumes: &'a [T],
        positive_definite: &'a [bool],
        config: BarycentricDualSparseInverseConfig<T>,
    },
    /// The inverse of the diagonal, which is exact for forms of the top degree.
    ExactTopDegreeDiagonal,
}

/// Why an approximation is not there for a grade.
pub open spec fn inverse_fault<T: Scalar>(
    topology: &Complex,
    grade: nat,
    approximation: MassInverseApproximation<T>,
) -> Option<Seq<char>> {
    let dim = topology.dimension() as nat;
    if grade > dim {
        Some(
            "mass inverse grade "@ + decimal(grade) + " exceeds mesh dimension "@ + decimal(dim),
        )
    } else {
        match approximation {
            MassInverseApproximation::RowSumLumped => None,
            MassInverseApproximation::WhitneyProjected { .. } => if grade == 0 || grade == dim {
                Some(
                    "Whitney-projected inverse requires 0 < grade < "@ + decimal(dim) + ", got "@
                        + decimal(grade),
                )
            } else {
                None
            },
            MassInverseApproximation::BarycentricDual {
                coords,
                volumes,
                positive_definite,
                config,
            } => match coords {
                None => Some("barycentric-dual inverse requires mesh coordinates"@),
                Some(coords) => dual_fault(
                    *topology,
                    *coords,
                    volumes@,
                    grade,
                    config,
                    positive_definite@,
                ),
            },
            MassInverseApproximation::ExactTopDegreeDiagonal => if grade != dim {
                Some(
                    "exact top-degree diagonal inverse requires grade "@ + decimal(dim)
                        + ", got "@ + decimal(grade),
                )
            } else {
                None
            },
        }
    }
}

/// What an approximation is made of belongs to the mesh.
pub open spec fn inverse_fits<T: Scalar>(
    topology: &Complex,
    grade: int,
    approximation: MassInverseApproximation<T>,
) -> bool {
    match approximation {
        MassInverseApproximation::WhitneyProjected { vertex_dofs, inverse_blocks } => 0 < grade
            < topology.dimension() ==> nc_supported(topology, grade) && blocks_match(
            vertex_dofs@,
            inverse_blocks@,
            dof_count(topology, grade),
        ),
        MassInverseApproximation::BarycentricDual {
            coords,
            volumes,
            positive_definite,
            config,
        } => match coords {
            None => true,
            Some(coords) => config_fault(
                topology.dimension() as nat,
                coords.dim as nat,
                grade as nat,
                config,
            ) is None ==> dual_inputs_fit(
                *topology,
                *coords,
                volumes@,
                grade,
                positive_definite@,
            ),
        },
        _ => true,
    }
}

/// The inverse of a list of values as a diagonal matrix.
pub open spec fn inverse_diagonal<T: Scalar>(values: Seq<T>) -> Seq<(usize, usize, T)> {
    nonzero_diagonal(Seq::new(values.len(), |i: int| inverted_spec(values[i])))
}

/// The approximate inverse.
pub open spec fn inverse_entries<T: Scalar>(
    topology: &Complex,
    grade: int,
    elmats: Seq<Vec<T>>,
    approximation: MassInverseApproximation<T>,
) -> Seq<(usize, usize, T)> {
    let mass = compressed(mass_entries(topology, grade, elmats));
    let n = topology.simplices(grade).len();
    match approximation {
        MassInverseApproximation::RowSumLumped => inverse_diagonal(
            Seq::new(n, |r: int| row_total(mass, r)),
        ),
        MassInverseApproximation::WhitneyProjected { vertex_dofs, inverse_blocks } => compressed(
            projected_entries(
                vertex_dofs@,
                inverse_blocks@,
                grade + 1,
                inverse_blocks@.len() as int,
            ),
        ),
        MassInverseApproximation::BarycentricDual { coords, volumes, config, .. } => compressed(
            local_entries(
                *topology,
                *coords->0,
                volumes@,
                grade as nat,
                config,
                topology.simplices(0).len() as int,
            ),
        ),
        MassInverseApproximation::ExactTopDegreeDiagonal => inverse_diagonal(
            Seq::new(n, |r: int| diagonal_total(mass, r)),
        ),
    }
}

/// The approximate inverse of the mass of a grade, of which the element matrices are given.
pub fn assemble_mass_inverse<T: Scalar>(
    topology: &Complex,
    grade: Dim,
    elmats: &Vec<Vec<T>>,
    approximation: &MassInverseApproximation<T>,
) -> (inverse: Result<CsrMatrix<T>, String>)
    requires
        topology.wf(),
        grade <= topology.dimension() ==> elmats_match(topology, grade as int, elmats@),
        inverse_fits(topology, grade as int, *approximation),
    ensures
        match inverse_fault(topology, grade as nat, *approximation) {
            Some(message) => inverse matches Err(text) && text@ == message,
            None => inverse matches Ok(m) && {
                &&& m.wf()
                &&& m.rows() == topology.simplices(grade as int).len()
                &&& m.cols() == topology.simplices(grade as int).len()
                &&& m.entries() == inverse_entries(topology, grade as int, elmats@, *approximation)
            },
        },
{
    let dim: Dim = topology.dim();
    if grade > dim {
        let mut text = owned("mass inverse grade ");
        push_decimal(&mut text, grade);
        text.append(" exceeds mesh dimension ");
        push_decimal(&mut text, dim);
        return Err(text);
    }
    let galmat: GalMat<T> = assemble_galmat(topology, grade, grade, elmats);
    let mass = CsrMatrix::from_coo(&galmat);
    match approximation {
        MassInverseApproximation::RowSumLumped => {
            let diag = lumped_diag(&mass);
            Ok(diag_matrix(invert_diag(diag.as_slice()).as_slice()))
        },
        MassInverseApproximation::WhitneyProjected { vertex_dofs, inverse_blocks } => {
            if grade == 0 || grade == dim {
                let mut text = owned("Whitney-projected inverse requires 0 < grade < ");
                push_decimal(&mut text, dim);
                text.append(", got ");
                push_decimal(&mut text, grade);
                return Err(text);
            }
            let projected: GalMat<T> = assemble_whitney_projected_sparse_inverse_from_blocks(
                topology,
                grade,
                *vertex_dofs,
                *inverse_blocks,
            );
            Ok(CsrMatrix::from_coo(&projected))
        },
        MassInverseApproximation::BarycentricDual {
            coords,
            volumes,
            positive_definite,
            config,
        } => match coords {
            None => Err(owned("barycentric-dual inverse requires mesh coordinates")),
            Some(coords) => match assemble_barycentric_dual_sparse_inverse_galmat_for_grade(
                topology,
                *coords,
                *volumes,
                grade,
                *config,
                *positive_definite,
            ) {
                Ok(dual) => Ok(CsrMatrix::from_coo(&dual)),
                Err(text) => Err(text),
            },
        },
        MassInverseApproximation::ExactTopDegreeDiagonal => {
            if grade != dim {
                let mut text = owned("exact top-degree diagonal inverse requires grade ");
                push_decimal(&mut text, dim);
                text.append(", got ");
                push_decimal(&mut text, grade);
                return Err(text);
            }
            let diag = matrix_diag(&mass);
            Ok(diag_matrix(invert_diag(diag.as_slice()).as_slice()))
        },
    }
}

/// The entries in a range of rows and a range of columns, counted from where these begin.
pub open spec fn window<T>(
    entries: Seq<(usize, usize, T)>,
    rows: (int, int),
    cols: (int, int),
) -> Seq<(usize, usize, T)>
    decreases entries.len(),
{
    if entries.len() == 0 {
        Seq::empty()
    } else {
        let before = window(entries.drop_last(), rows, cols);
        let (r, c, v) = entries.last();
        if rows.0 <= r < rows.1 && cols.0 <= c < cols.1 {
            before.push(((r - rows.0) as usize, (c - cols.0) as usize, v))
        } else {
            before
        }
    }
}

fn take_window<T: Scalar>(
    matrix: &CsrMatrix<T>,
    row_from: usize,
    nrows: usize,
    col_from: usize,
    ncols: usize,
) -> (m: CsrMatrix<T>)
    requires
        matrix.wf(),
        row_from + nrows <= usize::MAX,
        col_from + ncols <= usize::MAX,
    ensures
        m.wf(),
        m.rows() == nrows,
        m.cols() == ncols,
        m.entries() == compressed(
            window(
                matrix.entries(),
                (row_from as int, row_from + nrows),
                (col_from as int, col_from + ncols),
            ),
        ),
{
    let ghost rows = (row_from as int, row_from + nrows);
    let ghost cols = (col_from as int, col_from + ncols);
    let entries = matrix.triplets();
    let mut coo: CooMatrix<T> = CooMatrix::zeros(nrows, ncols);
    let mut i: usize = 0;
    proof {
        assert(entries@.take(0) =~= Seq::<(usize, usize, T)>::empty());
    }
    while i < entries.len()
        invariant
            i <= entries@.len(),
            row_from + nrows <= usize::MAX,
            col_from + ncols <= usize::MAX,
            rows == (row_from as int, row_from + nrows),
            cols == (col_from as int, col_from + ncols),
            coo.wf(),
            coo.rows() == nrows,
            coo.cols() == ncols,
            coo.entries() == window(entries@.take(i as int), rows, cols),
        decreases entries@.len() - i,
    {
        let (r, c, v): (usize, usize, T) = entries[i];
        proof {
            assert(entries@.take(i + 1).drop_last() =~= entries@.take(i as int));
            assert(entries@.take(i + 1).last() == entries@[i as int]);
        }
        if row_from <= r && r < row_from + nrows && col_from <= c && c < col_from + ncols {
            coo.push(r - row_from, c - col_from, v);
        }
        i = i + 1;
    }
    proof {
        assert(entries@.take(i as int) =~= entries@);
    }
    CsrMatrix::from_coo(&coo)
}

/// The four blocks of a mixed matrix; what lies beyond them is left out.
pub fn split_reduced_mixed_blocks<T: Scalar>(
    matrix: &CsrMatrix<T>,
    reduced_sigma_len: usize,
    reduced_u_len: usize,
) -> (blocks: (CsrMatrix<T>, CsrMatrix<T>, CsrMatrix<T>, CsrMatrix<T>))
    requires
        matrix.wf(),
        reduced_sigma_len + reduced_u_len <= usize::MAX,
    ensures
        ({
            let s = reduced_sigma_len as int;
            let u = reduced_u_len as int;
            let e = matrix.entries();
            &&& blocks.0.wf() && blocks.0.rows() == s && blocks.0.cols() == s
            &&& blocks.1.wf() && blocks.1.rows() == s && blocks.1.cols() == u
            &&& blocks.2.wf() && blocks.2.rows() == u && blocks.2.cols() == s
            &&& blocks.3.wf() && blocks.3.rows() == u && blocks.3.cols() == u
            &&& blocks.0.entries() == compressed(window(e, (0, s), (0, s)))
            &&& blocks.1.entries() == compressed(window(e, (0, s), (s, s + u)))
            &&& blocks.2.entries() == compressed(window(e, (s, s + u), (0, s)))
            &&& blocks.3.entries() == compressed(window(e, (s, s + u), (s, s + u)))
        }),
{
    let s: usize = reduced_sigma_len;
    let u: usize = reduced_u_len;
    (
        take_window(matrix, 0, s, 0, s),
        take_window(matrix, 0, s, s, u),
        take_window(matrix, s, u, 0, s),
        take_window(matrix, s, u, s, u),
    )
}

/// The two parts of a right-hand side.
pub fn split_reduced_rhs<T: Scalar>(
    rhs: &[T],
    reduced_sigma_len: usize,
    reduced_u_len: usize,
) -> (parts: (Vec<T>, Vec<T>))
    requires
        reduced_sigma_len + reduced_u_len <= rhs@.len(),
    ensures
        parts.0@ == rhs@.subrange(0, reduced_sigma_len as int),
        parts.1@ == rhs@.subrange(
            reduced_sigma_len as int,
            reduced_sigma_len + reduced_u_len,
        ),
{
    let n: usize = rhs.len();
    (
        part_of(rhs, 0, reduced_sigma_len),
        part_of(rhs, reduced_sigma_len, reduced_sigma_len + reduced_u_len),
    )
}

/// One block plus two others with an inverse between them, the last one negated.
pub open spec fn schur_complement<T: Scalar>(
    k: Seq<(usize, usize, T)>,
    a21: Seq<(usize, usize, T)>,
    inverse: Seq<(usize, usize, T)>,
    a12: Seq<(usize, usize, T)>,
) -> Seq<(usize, usize, T)> {
    compressed(
        k + compressed(
            product_terms(
                compressed(product_terms(a21, inverse)),
                scaled_nonzero(a12, T::one_spec().negated_spec()),
            ),
        ),
    )
}

pub(crate) fn complement<T: Scalar>(
    k: &CsrMatrix<T>,
    a21: &CsrMatrix<T>,
    inverse: &CsrMatrix<T>,
    a12: &CsrMatrix<T>,
) -> (m: CsrMatrix<T>)
    requires
        k.wf(),
        a21.wf(),
        inverse.wf(),
        a12.wf(),
        a21.rows() == k.rows(),
        a21.cols() == inverse.rows(),
        inverse.cols() == a12.rows(),
        a12.cols() == k.cols(),
    ensures
        m.wf(),
        m.rows() == k.rows(),
        m.cols() == k.cols(),
        m.entries() == schur_complement(
            k.entries(),
            a21.entries(),
            inverse.entries(),
            a12.entries(),
        ),
{
    let opposite = scale_matrix(a12, T::one().negated());
    let half = product(a21, inverse);
    add_sparse(k, &product(&half, &opposite))
}

/// The inverse of the row sums of the first block of a mixed matrix.
pub open spec fn first_block_inverse<T: Scalar>(mixed: Seq<(usize, usize, T)>, s: int) -> Seq<
    (usize, usize, T),
> {
    let mass = compressed(window(mixed, (0, s), (0, s)));
    inverse_diagonal(Seq::new(s as nat, |r: int| row_total(mass, r)))
}

/// The Schur complement of a mixed matrix with the row sums of its first block.
pub open spec fn schur_entries<T: Scalar>(mixed: Seq<(usize, usize, T)>, s: int, u: int) -> Seq<
    (usize, usize, T),
> {
    let k = compressed(window(mixed, (s, s + u), (s, s + u)));
    if s == 0 {
        k
    } else {
        schur_complement(
            k,
            compressed(window(mixed, (s, s + u), (0, s))),
            first_block_inverse(mixed, s),
            compressed(window(mixed, (0, s), (s, s + u))),
        )
    }
}

/// The right-hand side that belongs to the Schur complement.
pub open spec fn schur_rhs<T: Scalar>(
    mixed: Seq<(usize, usize, T)>,
    rhs: Seq<T>,
    s: int,
    u: int,
) -> Seq<T> {
    let rhs_u = rhs.subrange(s, s + u);
    if s == 0 {
        rhs_u
    } else {
        difference_of(
            rhs_u,
            matrix_times(
                compressed(window(mixed, (s, s + u), (0, s))),
                u as nat,
                matrix_times(first_block_inverse(mixed, s), s as nat, rhs.subrange(0, s)),
            ),
        )
    }
}

/// The system for the second unknown once the first is eliminated with the row sums of its
/// mass.
pub fn schur_reduce_eliminated_mixed_system<T: Scalar>(
    reduced_mixed: &CsrMatrix<T>,
    reduced_rhs: &[T],
    reduced_sigma_len: usize,
    reduced_u_len: usize,
) -> (system: (CsrMatrix<T>, Vec<T>))
    requires
        reduced_mixed.wf(),
        reduced_sigma_len + reduced_u_len <= reduced_rhs@.len(),
    ensures
        system.0.wf(),
        system.0.rows() == reduced_u_len,
        system.0.cols() == reduced_u_len,
        system.0.entries() == schur_entries(
            reduced_mixed.entries(),
            reduced_sigma_len as int,
            reduced_u_len as int,
        ),
        system.1@ == schur_rhs(
            reduced_mixed.entries(),
            reduced_rhs@,
            reduced_sigma_len as int,
            reduced_u_len as int,
        ),
        system.1@.len() == reduced_u_len,
        commutative_ring::<T>() && only_zero_is_zero::<T>() && triplets_within(
            reduced_mixed.entries(),
            reduced_sigma_len + reduced_u_len,
            reduced_sigma_len + reduced_u_len,
        ) && first_invertible(
            reduced_mixed.entries(),
            reduced_sigma_len as nat,
            reduced_u_len as nat,
        ) ==> eliminates_first(
            reduced_mixed.entries(),
            reduced_rhs@,
            system.0.entries(),
            system.1@,
            reduced_sigma_len as nat,
            reduced_u_len as nat,
        ),
{
    let n: usize = reduced_rhs.len();
    proof {
        if commutative_ring::<T>() && only_zero_is_zero::<T>() && triplets_within(
            reduced_mixed.entries(),
            reduced_sigma_len + reduced_u_len,
            reduced_sigma_len + reduced_u_len,
        ) && first_invertible(
            reduced_mixed.entries(),
            reduced_sigma_len as nat,
            reduced_u_len as nat,
        ) {
            schur_system_eliminates(
                reduced_mixed.entries(),
                reduced_rhs@,
                reduced_sigma_len as nat,
                reduced_u_len as nat,
            );
        }
    }
    let (mass_sigma, a12, a21, k_matrix) = split_reduced_mixed_blocks(
        reduced_mixed,
        reduced_sigma_len,
        reduced_u_len,
    );
    let (rhs_sigma, rhs_u): (Vec<T>, Vec<T>) = split_reduced_rhs(
        reduced_rhs,
        reduced_sigma_len,
        reduced_u_len,
    );
    if reduced_sigma_len == 0 {
        return (k_matrix, rhs_u);
    }
    let lumped = lumped_diag(&mass_sigma);
    let inverse = diag_matrix(invert_diag(lumped.as_slice()).as_slice());
    let schur = complement(&k_matrix, &a21, &inverse, &a12);
    let correction = mul_vec(&inverse, rhs_sigma.as_slice());
    let moved = mul_vec(&a21, correction.as_slice());
    (schur, minus(rhs_u.as_slice(), moved.as_slice()))
}

/// Which of `n` dofs are prescribed.
pub open spec fn prescribed_mask<T>(prescribed: Seq<PrescribedDof<T>>, n: nat) -> Seq<bool> {
    Seq::new(n, |i: int| dof_indices(prescribed).contains(i as usize))
}

/// The prescribed values of `n` dofs, zero elsewhere.
pub open spec fn prescribed_data<T: Scalar>(prescribed: Seq<PrescribedDof<T>>, n: nat) -> Seq<T> {
    Seq::new(n, |i: int| or_zero(prescribed_value(prescribed, i as usize)))
}

fn mask_of<T: Scalar>(prescribed: &[PrescribedDof<T>], n: usize) -> (mask: Vec<bool>)
    requires
        prescribed_ok(n as nat, prescribed@),
    ensures
        mask@ == prescribed_mask(prescribed@, n as nat),
{
    let mask = dof_flags(n, prescribed);
    proof {
        let expected = prescribed_mask(prescribed@, n as nat);
        assert forall|i: int| 0 <= i < n implies mask@[i] == expected[i] by {
            assert(mask@[(i as usize) as int] <==> dof_indices(prescribed@).contains(i as usize));
        }
        assert(mask@ =~= expected);
    }
    mask
}

fn data_of<T: Scalar>(prescribed: &[PrescribedDof<T>], n: usize) -> (data: Vec<T>)
    requires
        prescribed_ok(n as nat, prescribed@),
    ensures
        data@ == prescribed_data(prescribed@, n as nat),
{
    let map = fixed_map(n, prescribed);
    let mut data: Vec<T> = Vec::new();
    let mut i: usize = 0;
    while i < n
        invariant
            i <= n,
            map@.len() == n,
            forall|j: int|
                0 <= j < n ==> #[trigger] map@[j] == prescribed_value(prescribed@, j as usize),
            data@ =~= prescribed_data(prescribed@, n as nat).take(i as int),
        decreases n - i,
    {
        match map[i] {
            Some(value) => data.push(value),
            None => data.push(T::zero()),
        }
        i = i + 1;
    }
    data
}

proof fn lemma_ascending_count(active: Seq<usize>, mask: Seq<bool>, n: int)
    requires
        0 <= n <= mask.len(),
        mask.len() <= usize::MAX,
        ascending_indices(active),
        forall|j: int| 0 <= j < active.len() ==> (#[trigger] active[j]) < n,
        forall|v: usize| v < n ==> (#[trigger] active.contains(v) <==> !mask[v as int]),
    ensures
        active.len() == unset_before(mask, n),
    decreases n,
{
    if n == 0 {
        if active.len() > 0 {
            assert(active[0] < 0);
        }
    } else {
        let last = (n - 1) as usize;
        if !mask[n - 1] {
            assert(active.contains(last));
            let j = choose|j: int| 0 <= j < active.len() && active[j] == last;
            if j < active.len() - 1 {
                assert(active[j] < active[j + 1]);
            }
            let front = active.drop_last();
            assert forall|k: int| 0 <= k < front.len() implies (#[trigger] front[k]) < n - 1 by {
                assert(active[k] < active[j]);
            }
            assert forall|v: usize| v < n - 1 implies (#[trigger] front.contains(v)
                <==> !mask[v as int]) by {
                assert(active.contains(v) <==> !mask[v as int]);
                if active.contains(v) {
                    let k = choose|k: int| 0 <= k < active.len() && active[k] == v;
                    assert(front[k] == v);
                }
                if front.contains(v) {
                    let k = choose|k: int| 0 <= k < front.len() && front[k] == v;
                    assert(active[k] == v);
                }
            }
            lemma_ascending_count(front, mask, n - 1);
        } else {
            assert forall|k: int| 0 <= k < active.len() implies (#[trigger] active[k]) < n - 1 by {
                if active[k] == last {
                    assert(active.contains(last));
                }
            }
            lemma_ascending_count(active, mask, n - 1);
        }
    }
}

/// A layout has as many active dofs as it leaves free.
pub proof fn free_count_of_layout<T: Scalar>(layout: DofLayout<T>)
    requires
        layout.wf(),
        ascending_indices(layout.active_dofs@),
    ensures
        free_count(prescribed_mask(layout.prescribed_dofs@, layout.full_dimension as nat))
            == layout.active_dofs@.len(),
{
    let n = layout.full_dimension;
    let mask = prescribed_mask(layout.prescribed_dofs@, n as nat);
    assert forall|v: usize| v < n implies (#[trigger] layout.active_dofs@.contains(v)
        <==> !mask[v as int]) by {
        layout.active_or_prescribed(v);
    }
    lemma_ascending_count(layout.active_dofs@, mask, n as int);
}

/// The layout of a space with the given prescribed dofs.
pub open spec fn is_state_layout<T: Scalar>(
    layout: DofLayout<T>,
    n: nat,
    prescribed: Seq<PrescribedDof<T>>,
) -> bool {
    &&& layout.wf()
    &&& layout.full_dimension == n
    &&& layout.prescribed_dofs@ == prescribed
    &&& ascending_indices(layout.active_dofs@)
}

/// The layout of a space with the given prescribed dofs, all others active.
pub fn build_state_layout<T: Scalar>(full_dimension: usize, prescribed: &[PrescribedDof<T>]) -> (
layout: Result<DofLayout<T>, String>)
    ensures
        match prescribed_dofs_fault("layout"@, full_dimension as nat, prescribed@) {
            Some(message) => layout matches Err(text) && text@ == message,
            None => layout matches Ok(l) && is_state_layout(l, full_dimension as nat, prescribed@),
        },
{
    DofLayout::from_prescribed(full_dimension, copy_of(prescribed))
}

/// What the boundary conditions make of the dofs of a mixed problem: the layout of the second
/// unknown, and flags and values of both.
pub struct MixedBoundaryContext<T> {
    pub layout: DofLayout<T>,
    pub auxiliary_mask: Vec<bool>,
    pub auxiliary_data: Vec<T>,
    pub state_mask: Vec<bool>,
    pub state_data: Vec<T>,
}

impl<T: Scalar> MixedBoundaryContext<T> {
    /// The context of a problem and its boundary conditions.
    pub open spec fn is_of(&self, galmats: MixedGalmats<T>, boundary: EssentialBoundarySpec<T>) -> bool {
        let ns = galmats.mass_sigma.rows();
        let nu = galmats.mass_u.rows();
        &&& is_state_layout(self.layout, nu, boundary.state@)
        &&& prescribed_ok(ns, boundary.auxiliary@)
        &&& self.auxiliary_mask@ == prescribed_mask(boundary.auxiliary@, ns)
        &&& self.auxiliary_data@ == prescribed_data(boundary.auxiliary@, ns)
        &&& self.state_mask@ == prescribed_mask(boundary.state@, nu)
        &&& self.state_data@ == prescribed_data(boundary.state@, nu)
    }
}

/// The context of a mixed problem, if the boundary conditions are in order.
pub fn build_mixed_1form_boundary_context<T: Scalar>(
    galmats: &MixedGalmats<T>,
    boundary: &EssentialBoundarySpec<T>,
) -> (context: Result<MixedBoundaryContext<T>, String>)
    requires
        galmats.wf(),
    ensures
        match boundary.fault(galmats.mass_u.rows(), galmats.mass_sigma.rows()) {
            Some(message) => context matches Err(text) && text@ == message,
            None => context matches Ok(c) && c.is_of(*galmats, *boundary),
        },
{
    let ns: usize = galmats.sigma_len();
    let nu: usize = galmats.u_len();
    match boundary.validate(nu, ns) {
        Err(text) => return Err(text),
        Ok(_) => {},
    }
    proof {
        no_fault_means_ok("state"@, nu as nat, boundary.state@);
        no_fault_means_ok("auxiliary"@, ns as nat, boundary.auxiliary@);
        no_fault_means_ok("layout"@, nu as nat, boundary.state@);
    }
    let layout: DofLayout<T> = match build_state_layout(nu, boundary.state.as_slice()) {
        Err(text) => return Err(text),
        Ok(layout) => layout,
    };
    Ok(
        MixedBoundaryContext {
            layout,
            auxiliary_mask: mask_of(boundary.auxiliary.as_slice(), ns),
            auxiliary_data: data_of(boundary.auxiliary.as_slice(), ns),
            state_mask: mask_of(boundary.state.as_slice(), nu),
            state_data: data_of(boundary.state.as_slice(), nu),
        },
    )
}

/// The mixed system on the free dofs.
pub open spec fn is_context_system<T: Scalar>(
    system: (CsrMatrix<T>, Vec<T>),
    galmats: MixedGalmats<T>,
    boundary: EssentialBoundarySpec<T>,
    sigma_rhs: Seq<T>,
    u_rhs: Seq<T>,
) -> bool {
    let ns = galmats.mass_sigma.rows();
    let nu = galmats.mass_u.rows();
    is_source_system(
        system,
        galmats,
        sigma_rhs,
        u_rhs,
        Seq::empty(),
        prescribed_mask(boundary.auxiliary@, ns),
        prescribed_data(boundary.auxiliary@, ns),
        prescribed_mask(boundary.state@, nu),
        prescribed_data(boundary.state@, nu),
    )
}

/// How many dofs of the first unknown are free.
pub open spec fn free_sigma<T: Scalar>(
    galmats: MixedGalmats<T>,
    boundary: EssentialBoundarySpec<T>,
) -> int {
    free_count(prescribed_mask(boundary.auxiliary@, galmats.mass_sigma.rows())) as int
}

/// How many dofs of the second unknown are free.
pub open spec fn free_u<T: Scalar>(
    galmats: MixedGalmats<T>,
    boundary: EssentialBoundarySpec<T>,
) -> int {
    free_count(prescribed_mask(boundary.state@, galmats.mass_u.rows())) as int
}

pub(crate) fn context_system<T: Scalar>(
    galmats: &MixedGalmats<T>,
    context: &MixedBoundaryContext<T>,
    sigma_rhs: &[T],
    u_rhs: &[T],
    Ghost(boundary): Ghost<EssentialBoundarySpec<T>>,
) -> (system: (CsrMatrix<T>, Vec<T>))
    requires
        galmats.wf(),
        context.is_of(*galmats, boundary),
        sigma_rhs@.len() == galmats.mass_sigma.rows(),
        u_rhs@.len() == galmats.mass_u.rows(),
    ensures
        is_context_system(system, *galmats, boundary, sigma_rhs@, u_rhs@),
        system.1@.len() == free_sigma(*galmats, boundary) + free_u(*galmats, boundary),
{
    let mut sigma_part = copy_of(sigma_rhs);
    let mut u_part = copy_of(u_rhs);
    let none: [Vec<T>; 0] = [];
    proof {
        assert(none@ =~= Seq::<Vec<T>>::empty());
    }
    let system = galmats.mixed_hodge_laplacian_with_strong_bc_via_elimination(
        context.auxiliary_mask.as_slice(),
        context.auxiliary_data.as_slice(),
        context.state_mask.as_slice(),
        context.state_data.as_slice(),
        &mut sigma_part,
        &mut u_part,
        none.as_slice(),
    );
    proof {
        let parts = choose|parts: crate::problems::elimination::MixedSystem<T>|
            #[trigger] galmats.is_system(
                parts,
                context.auxiliary_mask@,
                context.auxiliary_data@,
                context.state_mask@,
                context.state_data@,
                sigma_rhs@,
                u_rhs@,
            ) && sigma_part@ == parts.free_sigma_rhs() && u_part@ == parts.free_u_rhs();
        parts.free_lengths();
        assert(system.1@ =~= sigma_part@ + u_part@);
        assert(system.1@ =~= parts.free_sigma_rhs() + parts.free_u_rhs() + Seq::<T>::empty());
    }
    system
}

/// The Schur complement of a mixed problem with its right-hand side.
pub open spec fn is_schur_system<T: Scalar>(
    schur: CsrMatrix<T>,
    rhs: Seq<T>,
    galmats: MixedGalmats<T>,
    boundary: EssentialBoundarySpec<T>,
    sigma_rhs: Seq<T>,
    u_rhs: Seq<T>,
) -> bool {
    let s = free_sigma(galmats, boundary);
    let u = free_u(galmats, boundary);
    &&& schur.wf()
    &&& schur.rows() == u
    &&& schur.cols() == u
    &&& rhs.len() == u
    &&& exists|system: (CsrMatrix<T>, Vec<T>)| #[trigger]
        is_context_system(system, galmats, boundary, sigma_rhs, u_rhs) && schur.entries()
            == schur_entries(system.0.entries(), s, u) && rhs == schur_rhs(
            system.0.entries(),
            system.1@,
            s,
            u,
        )
}

/// The right-hand side that belongs to the Schur complement of a mixed problem.
pub open spec fn is_schur_rhs<T: Scalar>(
    rhs: Seq<T>,
    galmats: MixedGalmats<T>,
    boundary: EssentialBoundarySpec<T>,
    sigma_rhs: Seq<T>,
    u_rhs: Seq<T>,
) -> bool {
    exists|schur: CsrMatrix<T>| #[trigger]
        is_schur_system(schur, rhs, galmats, boundary, sigma_rhs, u_rhs)
}

fn schur_reduced_mixed_system<T: Scalar>(
    galmats: &MixedGalmats<T>,
    context: &MixedBoundaryContext<T>,
    sigma_rhs: &[T],
    u_rhs: &[T],
    Ghost(boundary): Ghost<EssentialBoundarySpec<T>>,
) -> (schur: (CsrMatrix<T>, Vec<T>))
    requires
        galmats.wf(),
        context.is_of(*galmats, boundary),
        sigma_rhs@.len() == galmats.mass_sigma.rows(),
        u_rhs@.len() == galmats.mass_u.rows(),
    ensures
        is_schur_system(schur.0, schur.1@, *galmats, boundary, sigma_rhs@, u_rhs@),
{
    let system = context_system(galmats, context, sigma_rhs, u_rhs, Ghost(boundary));
    let reduced_sigma_len: usize = count_free(context.auxiliary_mask.as_slice());
    let reduced_u_len: usize = count_free(context.state_mask.as_slice());
    let schur = schur_reduce_eliminated_mixed_system(
        &system.0,
        system.1.as_slice(),
        reduced_sigma_len,
        reduced_u_len,
    );
    proof {
        assert(is_context_system(system, *galmats, boundary, sigma_rhs@, u_rhs@));
    }
    schur
}

/// The zero vector of a length.
pub open spec fn zeros_of<T: Scalar>(n: nat) -> Seq<T> {
    Seq::new(n, |i: int| T::zero_spec())
}

/// A linear problem on its active dofs: the residual is the operator applied to the state plus
/// the bias, the forcing and the flux through the boundary, each with its operator.
#[derive(Debug, Clone, PartialEq)]
pub struct ReducedLinearPdeAssembly<T> {
    pub operator: CsrMatrix<T>,
    pub residual_bias: Vec<T>,
    pub state_mass: CsrMatrix<T>,
    pub state_mass_inverse: Option<CsrMatrix<T>>,
    pub layout: DofLayout<T>,
    pub forcing_operator: CsrMatrix<T>,
    pub neumann_operator: CsrMatrix<T>,
}

impl<T: Scalar> ReducedLinearPdeAssembly<T> {
    /// Everything has the dimension of the active dofs.
    pub open spec fn wf(&self) -> bool {
        let n = self.layout.active_dofs@.len();
        &&& self.layout.wf()
        &&& self.operator.wf() && self.operator.rows() == n && self.operator.cols() == n
        &&& self.residual_bias@.len() == n
        &&& self.state_mass.wf() && self.state_mass.rows() == n && self.state_mass.cols() == n
        &&& self.state_mass_inverse matches Some(inverse) ==> inverse.wf() && inverse.rows() == n
            && inverse.cols() == n
        &&& self.forcing_operator.wf() && self.forcing_operator.rows() == n
            && self.forcing_operator.cols() == n
        &&& self.neumann_operator.wf() && self.neumann_operator.rows() == n
            && self.neumann_operator.cols() == n
    }

    /// Forcing and flux enter with the opposite sign and nothing else.
    pub open spec fn loads_subtract(&self) -> bool {
        let opposite = nonzero_diagonal(
            Seq::new(self.layout.active_dofs@.len(), |i: int| T::one_spec().negated_spec()),
        );
        &&& self.forcing_operator.entries() == opposite
        &&& self.neumann_operator.entries() == opposite
    }

    pub fn residual_dimension(&self) -> (n: usize)
        ensures
            n == self.operator.rows(),
    {
        self.operator.nrows()
    }

    pub fn state_dimension(&self) -> (n: usize)
        ensures
            n == self.operator.cols(),
    {
        self.operator.ncols()
    }
}

/// The matrix on the active dofs of a layout.
pub open spec fn on_active<T: Scalar>(
    reduced: CsrMatrix<T>,
    full: Seq<(usize, usize, T)>,
    layout: DofLayout<T>,
) -> bool {
    &&& reduced.wf()
    &&& reduced.rows() == layout.active_dofs@.len()
    &&& reduced.cols() == layout.active_dofs@.len()
    &&& reduced.entries() == compressed(reduced_triplets(full, layout.active_dofs@))
}

/// The message for boundary conditions that a problem with one unknown cannot have.
pub open spec fn auxiliary_fault() -> Seq<char> {
    "0-form systems do not support auxiliary boundary regions"@
}

/// Fails if there are conditions on the auxiliary unknown.
pub fn ensure_no_auxiliary_regions<T: Scalar>(boundary: &EssentialBoundarySpec<T>) -> (checked:
    Result<(), String>)
    ensures
        checked is Ok == (boundary.auxiliary@.len() == 0),
        checked matches Err(text) ==> text@ == auxiliary_fault(),
{
    if boundary.auxiliary.len() != 0 {
        return Err(owned("0-form systems do not support auxiliary boundary regions"));
    }
    Ok(())
}

/// What is wrong with the boundary conditions of a problem with one unknown.
pub open spec fn state_fault<T: Scalar>(boundary: EssentialBoundarySpec<T>, n: nat) -> Option<
    Seq<char>,
> {
    if boundary.auxiliary@.len() != 0 {
        Some(auxiliary_fault())
    } else {
        prescribed_dofs_fault("layout"@, n, boundary.state@)
    }
}

/// The Laplace-Beltrami problem on its active dofs: the prescribed values enter as a bias.
pub open spec fn is_reduced_laplace<T: Scalar>(
    a: ReducedLinearPdeAssembly<T>,
    stiffness: Seq<(usize, usize, T)>,
    mass: Seq<(usize, usize, T)>,
    n: nat,
    boundary: EssentialBoundarySpec<T>,
) -> bool {
    &&& a.wf()
    &&& a.loads_subtract()
    &&& is_state_layout(a.layout, n, boundary.state@)
    &&& triplets_within(stiffness, n as int, n as int)
    &&& on_active(a.operator, stiffness, a.layout)
    &&& on_active(a.state_mass, mass, a.layout)
    &&& a.state_mass_inverse is None
    &&& a.residual_bias@ == Seq::new(
        a.layout.active_dofs@.len(),
        |r: int| bias_at(stiffness, a.layout.active_dofs@, a.layout.prescribed_dofs@, r),
    )
}

/// The reduced problem is the full one: over coefficients that compute exactly, the operator
/// times a state plus the bias is what the full stiffness gives on the active dofs, with the
/// prescribed values in place.
pub proof fn reduced_laplace_acts_as_the_full_one<T: Scalar>(
    a: ReducedLinearPdeAssembly<T>,
    stiffness: Seq<(usize, usize, T)>,
    mass: Seq<(usize, usize, T)>,
    n: nat,
    boundary: EssentialBoundarySpec<T>,
    state: Seq<T>,
    r: int,
)
    requires
        exact_ring::<T>(),
        is_reduced_laplace(a, stiffness, mass, n, boundary),
        state.len() == a.layout.active_dofs@.len(),
        0 <= r < a.layout.active_dofs@.len(),
    ensures
        row_dot(
            stiffness,
            lifted(n, a.layout.active_dofs@, a.layout.prescribed_dofs@, state),
            a.layout.active_dofs@[r] as int,
        ) == row_dot(a.operator.entries(), state, r).plus_spec(a.residual_bias@[r]),
{
    prescribed_values_enter_as_bias(&a.layout, stiffness, &a.operator, state, r);
}

/// The state of the reduced problem has one value for each vertex without a prescribed one.
pub proof fn reduced_laplace_leaves_the_other_vertices<T: Scalar>(
    a: ReducedLinearPdeAssembly<T>,
    stiffness: Seq<(usize, usize, T)>,
    mass: Seq<(usize, usize, T)>,
    n: nat,
    boundary: EssentialBoundarySpec<T>,
)
    requires
        is_reduced_laplace(a, stiffness, mass, n, boundary),
    ensures
        a.operator.cols() == n - boundary.state@.len(),
        a.operator.rows() == n - boundary.state@.len(),
{
}

/// The Laplace-Beltrami problem on its active dofs: the prescribed values enter as a bias.
pub fn build_reduced_laplace_beltrami_system<T: Scalar>(
    topology: &Complex,
    elmats_stiffness: &Vec<Vec<T>>,
    elmats_mass: &Vec<Vec<T>>,
    boundary: &EssentialBoundarySpec<T>,
) -> (assembly: Result<ReducedLinearPdeAssembly<T>, String>)
    requires
        topology.wf(),
        elmats_match(topology, 0, elmats_stiffness@),
        elmats_match(topology, 0, elmats_mass@),
    ensures
        ({
            let n = topology.simplices(0).len();
            match state_fault(*boundary, n) {
                Some(message) => assembly matches Err(text) && text@ == message,
                None => assembly matches Ok(a) && is_reduced_laplace(
                    a,
                    compressed(mass_entries(topology, 0, elmats_stiffness@)),
                    compressed(mass_entries(topology, 0, elmats_mass@)),
                    n,
                    *boundary,
                ),
            }
        }),
{
    match ensure_no_auxiliary_regions(boundary) {
        Err(text) => return Err(text),
        Ok(_) => {},
    }
    let galmats = LaplaceBeltramiGalmats::compute(topology, elmats_stiffness, elmats_mass);
    let full_operator = galmats.stiffness_csr();
    let full_mass = galmats.mass_csr();
    let layout: DofLayout<T> = match build_state_layout(
        full_operator.nrows(),
        boundary.state.as_slice(),
    ) {
        Err(text) => return Err(text),
        Ok(layout) => layout,
    };
    let operator: CsrMatrix<T> = match reduce_square_with_layout(&full_operator, &layout) {
        Err(text) => return Err(text),
        Ok(m) => m,
    };
    let state_mass: CsrMatrix<T> = match reduce_square_with_layout(&full_mass, &layout) {
        Err(text) => return Err(text),
        Ok(m) => m,
    };
    let residual_bias = hard_dirichlet_bias(&full_operator, &layout);
    let n: usize = operator.nrows();
    let opposite = T::one().negated();
    Ok(
        ReducedLinearPdeAssembly {
            operator,
            residual_bias,
            state_mass,
            state_mass_inverse: None,
            layout,
            forcing_operator: scaled_identity(n, opposite),
            neumann_operator: scaled_identity(n, opposite),
        },
    )
}

/// Why a given inverse does not fit the second unknown.
pub open spec fn shape_fault<T: Scalar>(inverse: CsrMatrix<T>, n: nat) -> Option<Seq<char>> {
    if inverse.rows() != n || inverse.cols() != n {
        Some(
            "matrix reduction expected a "@ + shape_text(n, n) + " operator, got "@ + shape_text(
                inverse.rows(),
                inverse.cols(),
            ),
        )
    } else {
        None
    }
}

/// The values with the opposite sign.
pub open spec fn negated_values<T: Scalar>(values: Seq<T>) -> Seq<T> {
    Seq::new(values.len(), |i: int| values[i].negated_spec())
}

/// The Schur complement without right-hand sides: what the prescribed values leave on the
/// right enters the residual with the opposite sign.
pub open spec fn is_schur_operator<T: Scalar>(
    operator: CsrMatrix<T>,
    bias: Seq<T>,
    galmats: MixedGalmats<T>,
    boundary: EssentialBoundarySpec<T>,
) -> bool {
    let ns = galmats.mass_sigma.rows();
    let nu = galmats.mass_u.rows();
    exists|rhs: Seq<T>|
        is_schur_system(operator, rhs, galmats, boundary, zeros_of(ns), zeros_of(nu)) && bias
            == #[trigger] negated_values(rhs)
}

/// The mixed problem of one-forms on the active dofs of the second unknown: the first one is
/// eliminated with the row sums of its mass.
pub open spec fn is_reduced_hodge<T: Scalar>(
    a: ReducedLinearPdeAssembly<T>,
    galmats: MixedGalmats<T>,
    boundary: EssentialBoundarySpec<T>,
    state_mass_inverse: Seq<(usize, usize, T)>,
) -> bool {
    &&& a.wf()
    &&& a.loads_subtract()
    &&& is_state_layout(a.layout, galmats.mass_u.rows(), boundary.state@)
    &&& is_schur_operator(a.operator, a.residual_bias@, galmats, boundary)
    &&& on_active(a.state_mass, compressed(galmats.mass_u.entries()), a.layout)
    &&& a.state_mass_inverse matches Some(inverse) && on_active(
        inverse,
        state_mass_inverse,
        a.layout,
    )
}

/// The mixed problem of one-forms on the active dofs of the second unknown.
pub fn build_reduced_hodge_laplace_1form_system_with_galmats<T: Scalar>(
    galmats: &MixedGalmats<T>,
    boundary: &EssentialBoundarySpec<T>,
    state_mass_inverse: &CsrMatrix<T>,
) -> (assembly: Result<ReducedLinearPdeAssembly<T>, String>)
    requires
        galmats.wf(),
        state_mass_inverse.wf(),
    ensures
        ({
            let boundary_fault = boundary.fault(galmats.mass_u.rows(), galmats.mass_sigma.rows());
            let fault = if boundary_fault is Some {
                boundary_fault
            } else {
                shape_fault(*state_mass_inverse, galmats.mass_u.rows())
            };
            match fault {
                Some(message) => assembly matches Err(text) && text@ == message,
                None => assembly matches Ok(a) && is_reduced_hodge(
                    a,
                    *galmats,
                    *boundary,
                    state_mass_inverse.entries(),
                ),
            }
        }),
{
    let context: MixedBoundaryContext<T> = match build_mixed_1form_boundary_context(
        galmats,
        boundary,
    ) {
        Err(text) => return Err(text),
        Ok(context) => context,
    };
    let sigma_rhs = zero_vector::<T>(galmats.sigma_len());
    let u_rhs = zero_vector::<T>(galmats.u_len());
    let (operator, schur_rhs): (CsrMatrix<T>, Vec<T>) = schur_reduced_mixed_system(
        galmats,
        &context,
        sigma_rhs.as_slice(),
        u_rhs.as_slice(),
        Ghost(*boundary),
    );
    proof {
        assert(sigma_rhs@ =~= zeros_of::<T>(galmats.mass_sigma.rows()));
        assert(u_rhs@ =~= zeros_of::<T>(galmats.mass_u.rows()));
        free_count_of_layout(context.layout);
        assert(schur_rhs@.len() == free_u(*galmats, *boundary));
        assert(is_schur_system(
            operator,
            schur_rhs@,
            *galmats,
            *boundary,
            zeros_of(galmats.mass_sigma.rows()),
            zeros_of(galmats.mass_u.rows()),
        ));
    }
    let mass = galmats.mass_u_csr();
    let state_mass: CsrMatrix<T> = match reduce_square_with_layout(&mass, &context.layout) {
        Err(text) => return Err(text),
        Ok(m) => m,
    };
    let inverse: CsrMatrix<T> = match reduce_square_with_layout(
        state_mass_inverse,
        &context.layout,
    ) {
        Err(text) => return Err(text),
        Ok(m) => m,
    };
    let n: usize = state_mass.nrows();
    let opposite = T::one().negated();
    let residual_bias = vector_negated(schur_rhs.as_slice());
    let assembly = ReducedLinearPdeAssembly {
        operator,
        residual_bias,
        state_mass,
        state_mass_inverse: Some(inverse),
        layout: context.layout,
        forcing_operator: scaled_identity(n, opposite),
        neumann_operator: scaled_identity(n, opposite),
    };
    proof {
        assert(assembly.residual_bias@ =~= negated_values(schur_rhs@));
        assert(is_schur_operator(
            assembly.operator,
            assembly.residual_bias@,
            *galmats,
            *boundary,
        ));
    }
    Ok(assembly)
}

/// The mixed problem of one-forms, from the element matrices of the masses and the blocks of
/// the inverse of the lumped mass around the vertices.
pub fn build_reduced_hodge_laplace_1form_system<T: Scalar>(
    topology: &Complex,
    elmats_u: &Vec<Vec<T>>,
    elmats_sigma: &Vec<Vec<T>>,
    elmats_plus: &Vec<Vec<T>>,
    vertex_dofs: &[Vec<usize>],
    inverse_blocks: &[DenseMatrix<T>],
    boundary: &EssentialBoundarySpec<T>,
) -> (assembly: Result<ReducedLinearPdeAssembly<T>, String>)
    requires
        mixed_elmats(topology, 1, elmats_u@, elmats_sigma@, elmats_plus@),
        nc_supported(topology, 1),
        blocks_match(vertex_dofs@, inverse_blocks@, dof_count(topology, 1)),
    ensures
        match boundary.fault(topology.simplices(1).len(), topology.simplices(0).len()) {
            Some(message) => assembly matches Err(text) && text@ == message,
            None => assembly matches Ok(a) && exists|galmats: MixedGalmats<T>| #[trigger]
                galmats_of(galmats, topology, 1, elmats_u@, elmats_sigma@, elmats_plus@)
                    && is_reduced_hodge(
                    a,
                    galmats,
                    *boundary,
                    compressed(
                        projected_entries(
                            vertex_dofs@,
                            inverse_blocks@,
                            2,
                            inverse_blocks@.len() as int,
                        ),
                    ),
                ),
        },
{
    let galmats = MixedGalmats::compute(topology, 1, elmats_u, elmats_sigma, elmats_plus);
    proof {
        assert(galmats_of(galmats, topology, 1, elmats_u@, elmats_sigma@, elmats_plus@));
    }
    let projected: GalMat<T> = assemble_whitney_projected_sparse_inverse_from_blocks(
        topology,
        1,
        vertex_dofs,
        inverse_blocks,
    );
    let inverse = CsrMatrix::from_coo(&projected);
    build_reduced_hodge_laplace_1form_system_with_galmats(&galmats, boundary, &inverse)
}

/// The mixed problem of one-forms with a weight on each cell, and the given blocks of the inverse
/// of the weighted lumped mass around the vertices.
pub open spec fn is_weighted_hodge<T: Scalar>(
    assembly: ReducedLinearPdeAssembly<T>,
    topology: &Complex,
    geometries: Seq<SimplexGeometry<T>>,
    weights: Seq<ScalarWeight<T>>,
    vertex_dofs: Seq<Vec<usize>>,
    inverse_blocks: Seq<DenseMatrix<T>>,
    boundary: EssentialBoundarySpec<T>,
) -> bool {
    exists|galmats: MixedGalmats<T>| #[trigger]
        galmats.is_weighted_of(topology, 1, geometries, weights) && galmats.mass_u.rows()
            == topology.simplices(1).len() && is_reduced_hodge(
            assembly,
            galmats,
            boundary,
            compressed(
                projected_entries(vertex_dofs, inverse_blocks, 2, inverse_blocks.len() as int),
            ),
        )
}

/// The mixed problem of one-forms with a weight on each cell.
pub fn build_reduced_weighted_hodge_laplace_1form_system<T: Scalar>(
    topology: &Complex,
    geometries: &Vec<SimplexGeometry<T>>,
    weights: &Vec<ScalarWeight<T>>,
    vertex_dofs: &[Vec<usize>],
    inverse_blocks: &[DenseMatrix<T>],
    boundary: &EssentialBoundarySpec<T>,
) -> (assembly: Result<ReducedLinearPdeAssembly<T>, String>)
    requires
        weighted_cells(*topology, geometries@, weights@),
        nc_supported(topology, 1),
        reference_fits(topology.dimension() as nat, 0),
        reference_fits(topology.dimension() as nat, 1),
        reference_fits(topology.dimension() as nat, 2),
        topology.simplices(0).len() + topology.simplices(1).len() <= usize::MAX,
        blocks_match(vertex_dofs@, inverse_blocks@, dof_count(topology, 1)),
    ensures
        match boundary.fault(topology.simplices(1).len(), topology.simplices(0).len()) {
            Some(message) => assembly matches Err(text) && text@ == message,
            None => assembly matches Ok(a) && is_weighted_hodge(
                a,
                topology,
                geometries@,
                weights@,
                vertex_dofs@,
                inverse_blocks@,
                *boundary,
            ),
        },
{
    let galmats = MixedGalmats::compute_weighted(topology, 1, geometries, weights);
    let projected: GalMat<T> = assemble_whitney_projected_sparse_inverse_from_blocks(
        topology,
        1,
        vertex_dofs,
        inverse_blocks,
    );
    let inverse = CsrMatrix::from_coo(&projected);
    build_reduced_hodge_laplace_1form_system_with_galmats(&galmats, boundary, &inverse)
}

/// What is wrong with right-hand sides of a mixed problem.
pub open spec fn mixed_rhs_fault<T: Scalar>(
    galmats: MixedGalmats<T>,
    boundary: EssentialBoundarySpec<T>,
    sigma_rhs: Seq<T>,
    u_rhs: Seq<T>,
) -> Option<Seq<char>> {
    let ns = galmats.mass_sigma.rows();
    let nu = galmats.mass_u.rows();
    if sigma_rhs.len() != ns {
        Some(
            "sigma rhs length "@ + decimal(sigma_rhs.len()) + " must match sigma dimension "@
                + decimal(ns),
        )
    } else if u_rhs.len() != nu {
        Some(
            "u rhs length "@ + decimal(u_rhs.len()) + " must match state dimension "@ + decimal(
                nu,
            ),
        )
    } else {
        boundary.fault(nu, ns)
    }
}

/// The right-hand side of the reduced problem that belongs to right-hand sides of both
/// unknowns.
pub fn reduce_reduced_hodge_laplace_1form_rhs_with_galmats<T: Scalar>(
    galmats: &MixedGalmats<T>,
    boundary: &EssentialBoundarySpec<T>,
    sigma_rhs: &[T],
    u_rhs: &[T],
) -> (reduced: Result<Vec<T>, String>)
    requires
        galmats.wf(),
    ensures
        match mixed_rhs_fault(*galmats, *boundary, sigma_rhs@, u_rhs@) {
            Some(message) => reduced matches Err(text) && text@ == message,
            None => reduced matches Ok(rhs) && is_schur_rhs(
                rhs@,
                *galmats,
                *boundary,
                sigma_rhs@,
                u_rhs@,
            ),
        },
{
    if sigma_rhs.len() != galmats.sigma_len() {
        let mut text = owned("sigma rhs length ");
        push_decimal(&mut text, sigma_rhs.len());
        text.append(" must match sigma dimension ");
        push_decimal(&mut text, galmats.sigma_len());
        return Err(text);
    }
    if u_rhs.len() != galmats.u_len() {
        let mut text = owned("u rhs length ");
        push_decimal(&mut text, u_rhs.len());
        text.append(" must match state dimension ");
        push_decimal(&mut text, galmats.u_len());
        return Err(text);
    }
    let context: MixedBoundaryContext<T> = match build_mixed_1form_boundary_context(
        galmats,
        boundary,
    ) {
        Err(text) => return Err(text),
        Ok(context) => context,
    };
    let (schur, rhs): (CsrMatrix<T>, Vec<T>) = schur_reduced_mixed_system(
        galmats,
        &context,
        sigma_rhs,
        u_rhs,
        Ghost(*boundary),
    );
    proof {
        assert(is_schur_system(schur, rhs@, *galmats, *boundary, sigma_rhs@, u_rhs@));
    }
    Ok(rhs)
}

} // verus!
