//! The slots of the subsimplices of a reference simplex.

use crate::exterior::ExteriorGrade;
use crate::linalg::algebra::reciprocal;
use crate::linalg::dense::DenseMatrix;
use crate::linalg::scalar::Scalar;
use crate::operators::reference::{
    reference_fits, reference_sizes, standard_subsimps, standard_subsimps_spec,
};
use crate::topology::simplex::{binomial, simplex_views, Dim};
use vstd::prelude::*;

verus! {

/// The number of subsimplices of the reference simplex.
pub fn nc_local_nsimps(dim: Dim, grade: ExteriorGrade) -> (n: usize)
    requires
        grade < dim,
        reference_fits(dim as nat, grade as nat),
    ensures
        n == binomial((dim + 1) as nat, (grade + 1) as nat),
{
    proof {
        reference_sizes(dim as nat, grade as nat);
    }
    standard_subsimps(dim, grade).len()
}

/// The number of slots of all subsimplices.
pub fn nc_local_ndofs(dim: Dim, grade: ExteriorGrade) -> (n: usize)
    requires
        grade < dim,
        reference_fits(dim as nat, grade as nat),
    ensures
        n == (grade + 1) * binomial((dim + 1) as nat, (grade + 1) as nat),
{
    proof {
        reference_sizes(dim as nat, grade as nat);
    }
    (grade + 1) * nc_local_nsimps(dim, grade)
}

/// One in each slot of a subsimplex, in the column of the subsimplex.
pub open spec fn is_local_embedding<T: Scalar>(m: DenseMatrix<T>, nsimps: nat, slots: nat) -> bool {
    &&& m.wf()
    &&& m.rows() == slots * nsimps
    &&& m.cols() == nsimps
    &&& forall|d: int, s: int|
        0 <= d < slots * nsimps && 0 <= s < nsimps ==> #[trigger] m.at(d, s) == if d
            / slots as int == s {
            T::one_spec()
        } else {
            T::zero_spec()
        }
}

pub fn nc_local_embedding_matrix<T: Scalar>(dim: Dim, grade: ExteriorGrade) -> (m: DenseMatrix<T>)
    requires
        grade < dim,
        reference_fits(dim as nat, grade as nat),
    ensures
        is_local_embedding(
            m,
            binomial((dim + 1) as nat, (grade + 1) as nat),
            (grade + 1) as nat,
        ),
{
    let nsimps: usize = nc_local_nsimps(dim, grade);
    let ndofs: usize = nc_local_ndofs(dim, grade);
    let slots: usize = grade + 1;
    proof {
        assert(ndofs == slots * nsimps);
        assert(ndofs * nsimps <= ndofs * ndofs) by (nonlinear_arith)
            requires
                ndofs == slots * nsimps,
                slots >= 1,
        ;
    }
    let mut m = DenseMatrix::zeros(ndofs, nsimps);
    let mut d: usize = 0;
    while d < ndofs
        invariant
            d <= ndofs,
            slots == grade + 1,
            ndofs == slots * nsimps,
            m.wf(),
            m.rows() == ndofs,
            m.cols() == nsimps,
            forall|r: int, s: int|
                0 <= r < ndofs && 0 <= s < nsimps ==> #[trigger] m.at(r, s) == if r < d && r
                    / slots as int == s {
                    T::one_spec()
                } else {
                    T::zero_spec()
                },
        decreases ndofs - d,
    {
        let s: usize = d / slots;
        proof {
            assert(s < nsimps) by (nonlinear_arith)
                requires
                    s == d / slots,
                    d < slots * nsimps,
                    slots > 0,
            ;
        }
        m.set(d, s, T::one());
        d = d + 1;
    }
    m
}

/// The transpose of the embedding over the number of slots.
pub open spec fn is_local_projection<T: Scalar>(m: DenseMatrix<T>, nsimps: nat, slots: nat) -> bool {
    &&& m.wf()
    &&& m.rows() == nsimps
    &&& m.cols() == slots * nsimps
    &&& forall|s: int, d: int|
        0 <= s < nsimps && 0 <= d < slots * nsimps ==> #[trigger] m.at(s, d) == (if d
            / slots as int == s {
            T::one_spec()
        } else {
            T::zero_spec()
        }).times_spec(T::one_spec().over_spec(T::from_count_spec(slots)))
}

pub fn nc_local_projection_matrix<T: Scalar>(dim: Dim, grade: ExteriorGrade) -> (m: DenseMatrix<T>)
    requires
        grade < dim,
        reference_fits(dim as nat, grade as nat),
    ensures
        is_local_projection(
            m,
            binomial((dim + 1) as nat, (grade + 1) as nat),
            (grade + 1) as nat,
        ),
{
    let embedding: DenseMatrix<T> = nc_local_embedding_matrix(dim, grade);
    let ghost nsimps = binomial((dim + 1) as nat, (grade + 1) as nat);
    let ghost ndofs = (grade + 1) * nsimps;
    proof {
        reference_sizes(dim as nat, grade as nat);
        assert(ndofs * nsimps <= ndofs * ndofs) by (nonlinear_arith)
            requires
                ndofs == (grade + 1) * nsimps,
                nsimps >= 0,
        ;
    }
    let slots: u64 = grade as u64 + 1;
    let recip: T = reciprocal(slots);
    let transposed = embedding.transpose();
    let m = transposed.scaled(recip);
    proof {
        assert forall|s: int, d: int|
            0 <= s < nsimps && 0 <= d < ndofs implies #[trigger] m.at(s, d) == (if d / (grade + 1)
            == s {
            T::one_spec()
        } else {
            T::zero_spec()
        }).times_spec(recip) by {
            assert(transposed.at(s, d) == embedding.at(d, s));
        }
    }
    m
}

/// The vertex of a slot.
pub fn nc_local_dof_vertex(dim: Dim, grade: ExteriorGrade, local_dof: usize) -> (vertex: usize)
    requires
        grade < dim,
        reference_fits(dim as nat, grade as nat),
        local_dof < (grade + 1) * binomial((dim + 1) as nat, (grade + 1) as nat),
    ensures
        vertex == standard_subsimps_spec(dim as nat, grade as nat)[local_dof as int / (grade + 1)][
            local_dof as int % (grade + 1)],
{
    proof {
        reference_sizes(dim as nat, grade as nat);
    }
    let slots: usize = grade + 1;
    let simplices = standard_subsimps(dim, grade);
    let s: usize = local_dof / slots;
    proof {
        assert(s < simplices@.len()) by (nonlinear_arith)
            requires
                s == local_dof / slots,
                local_dof < slots * simplices@.len(),
                slots > 0,
        ;
        let sets = standard_subsimps_spec(dim as nat, grade as nat);
        assert(simplex_views(simplices@)[s as int] == simplices@[s as int]@);
        assert(sets[s as int].len() == slots);
    }
    simplices[s].vertices[local_dof % slots]
}

/// The embedding for edges.
pub fn nc1_local_embedding_matrix<T: Scalar>(dim: Dim) -> (m: DenseMatrix<T>)
    requires
        1 < dim,
        reference_fits(dim as nat, 1),
    ensures
        is_local_embedding(m, binomial((dim + 1) as nat, 2), 2),
{
    nc_local_embedding_matrix(dim, 1)
}

/// The projection for edges.
pub fn nc1_local_projection_matrix<T: Scalar>(dim: Dim) -> (m: DenseMatrix<T>)
    requires
        1 < dim,
        reference_fits(dim as nat, 1),
    ensures
        is_local_projection(m, binomial((dim + 1) as nat, 2), 2),
{
    nc_local_projection_matrix(dim, 1)
}

/// The vertex of a slot of an edge.
pub fn nc1_local_dof_vertex(dim: Dim, local_dof: usize) -> (vertex: usize)
    requires
        1 < dim,
        reference_fits(dim as nat, 1),
        local_dof < 2 * binomial((dim + 1) as nat, 2),
    ensures
        vertex == standard_subsimps_spec(dim as nat, 1)[local_dof as int / 2][local_dof as int % 2],
{
    nc_local_dof_vertex(dim, 1, local_dof)
}

/// The embedding for faces.
pub fn nc2_local_embedding_matrix<T: Scalar>(dim: Dim) -> (m: DenseMatrix<T>)
    requires
        2 < dim,
        reference_fits(dim as nat, 2),
    ensures
        is_local_embedding(m, binomial((dim + 1) as nat, 3), 3),
{
    nc_local_embedding_matrix(dim, 2)
}

/// The projection for faces.
pub fn nc2_local_projection_matrix<T: Scalar>(dim: Dim) -> (m: DenseMatrix<T>)
    requires
        2 < dim,
        reference_fits(dim as nat, 2),
    ensures
        is_local_projection(m, binomial((dim + 1) as nat, 3), 3),
{
    nc_local_projection_matrix(dim, 2)
}

} // verus!
