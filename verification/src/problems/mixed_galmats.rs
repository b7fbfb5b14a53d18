//! The matrices of the mixed Hodge-Laplace problem.

use crate::assemble::dofs::{kept_values, moved_to_rhs};
use crate::assemble::symmetry_law::only_zero_is_zero;
use crate::assemble::galerkin::galmat_entries;
use crate::assemble::galerkin::{assemble_galmat, GalMat};
use crate::linalg::algebra::{
    inverted_spec, negated_entries, product_terms, row_dot, row_total,
};
use crate::linalg::algebra::{add_sparse, invert_diag, lumped_diag, mul_vec, product};
use crate::linalg::blocks::{block_entries, block_heights, block_widths, shifted, sign_entries};
use crate::linalg::blocks::{block, push_shifted, sign_matrix};
use crate::linalg::csr::compressed;
use crate::linalg::csr::CsrMatrix;
use crate::linalg::ring::commutative_ring;
use crate::linalg::scalar::Scalar;
use crate::linalg::sparse::{restricted, transposed, unset_before, unset_before_bound};
use crate::linalg::sparse::CooMatrix;
use crate::problems::elimination::{fits, is_free_block, masked_pairs};
use crate::problems::elimination::{copy_of, MixedSystem};
use crate::problems::derivative_law::{
    derivative_and_adjoint_pair, sandwich_pairs_derivatives,
};
use crate::topology::complex::Complex;
use crate::topology::simplex::{binomial, Dim};
use vstd::prelude::*;

verus! {

/// The matrices of the mixed problem of a grade: the mass of the grade below, the derivative
/// from there, its adjoint, the derivative and its adjoint on the grade, and its mass. Where
/// there is no grade below or above, the matrices are empty.
#[derive(Debug)]
pub struct MixedGalmats<T> {
    pub mass_sigma: GalMat<T>,
    pub dif_sigma: GalMat<T>,
    pub codif_u: GalMat<T>,
    pub codifdif_u: GalMat<T>,
    pub mass_u: GalMat<T>,
}

/// One element matrix for each cell, with a value for each pair of subsimplices of a grade.
pub open spec fn elmats_match<T>(topology: &Complex, grade: int, elmats: Seq<Vec<T>>) -> bool {
    let n = binomial((topology.dimension() + 1) as nat, (grade + 1) as nat);
    &&& elmats.len() == topology.simplices(topology.dimension()).len()
    &&& forall|i: int| 0 <= i < elmats.len() ==> (#[trigger] elmats[i])@.len() == n * n
}

/// The mass of a grade.
pub open spec fn mass_entries<T: Scalar>(topology: &Complex, grade: int, elmats: Seq<Vec<T>>) -> Seq<
    (usize, usize, T),
> {
    galmat_entries(topology, grade, grade, elmats, elmats.len() as int)
}

/// The exterior derivative of a grade.
pub open spec fn derivative_entries<T: Scalar>(topology: &Complex, grade: int) -> Seq<
    (usize, usize, T),
> {
    sign_entries::<T>(transposed(topology.boundary_entries(grade + 1)))
}

/// The product of two matrices in coordinate form.
pub open spec fn coo_product<T: Scalar>(
    lhs: Seq<(usize, usize, T)>,
    rhs: Seq<(usize, usize, T)>,
) -> Seq<(usize, usize, T)> {
    compressed(product_terms(lhs, rhs))
}

/// How many flags are not set.
pub open spec fn free_count(mask: Seq<bool>) -> nat {
    unset_before(mask, mask.len() as int)
}

/// How many flags are not set.
pub fn count_free(mask: &[bool]) -> (n: usize)
    ensures
        n == free_count(mask@),
{
    let mut n: usize = 0;
    let mut i: usize = 0;
    while i < mask.len()
        invariant
            i <= mask@.len(),
            n == unset_before(mask@, i as int),
            n <= i,
        decreases mask@.len() - i,
    {
        if !mask[i] {
            n = n + 1;
        }
        i = i + 1;
    }
    n
}

/// Rows multiplied by factors; zeros are left out.
pub open spec fn scaled_rows<T: Scalar>(
    entries: Seq<(usize, usize, T)>,
    scales: Seq<T>,
) -> Seq<(usize, usize, T)>
    decreases entries.len(),
{
    if entries.len() == 0 {
        Seq::empty()
    } else {
        let before = scaled_rows(entries.drop_last(), scales);
        let (r, c, v) = entries.last();
        let value = v.times_spec(scales[r as int]);
        if value.is_zero_spec() {
            before
        } else {
            before.push((r, c, value))
        }
    }
}

/// The matrix with each row multiplied by a factor.
pub fn scale_rows<T: Scalar>(mat: &CsrMatrix<T>, row_scales: &[T]) -> (m: CsrMatrix<T>)
    requires
        mat.wf(),
        row_scales@.len() == mat.rows(),
    ensures
        m.wf(),
        m.rows() == mat.rows(),
        m.cols() == mat.cols(),
        m.entries() == compressed(scaled_rows(mat.entries(), row_scales@)),
{
    let triplets = mat.triplets();
    let mut coo: CooMatrix<T> = CooMatrix::zeros(mat.nrows(), mat.ncols());
    let mut i: usize = 0;
    proof {
        assert(triplets@.take(0) =~= Seq::<(usize, usize, T)>::empty());
    }
    while i < triplets.len()
        invariant
            i <= triplets@.len(),
            mat.wf(),
            row_scales@.len() == mat.rows(),
            triplets@ == mat.entries(),
            coo.wf(),
            coo.rows() == mat.rows(),
            coo.cols() == mat.cols(),
            coo.entries() == scaled_rows(triplets@.take(i as int), row_scales@),
        decreases triplets@.len() - i,
    {
        let (r, c, v): (usize, usize, T) = triplets[i];
        proof {
            let next = triplets@.take(i + 1);
            assert(next.drop_last() =~= triplets@.take(i as int));
            assert(next.last() == (r, c, v));
            assert(triplets@[i as int].0 < mat.rows() && triplets@[i as int].1 < mat.cols());
        }
        let scaled = v.times(row_scales[r]);
        if !scaled.is_zero() {
            coo.push(r, c, scaled);
        }
        i = i + 1;
    }
    proof {
        assert(triplets@.take(i as int) =~= triplets@);
    }
    CsrMatrix::from_coo(&coo)
}

/// A matrix without rows and columns.
pub open spec fn is_empty<T: Scalar>(m: CooMatrix<T>) -> bool {
    &&& m.rows() == 0
    &&& m.cols() == 0
    &&& m.entries() == Seq::<(usize, usize, T)>::empty()
}

impl<T: Scalar> MixedGalmats<T> {
    /// Shapes agree, and the system of both unknowns can be numbered.
    pub open spec fn wf(&self) -> bool {
        let ns = self.mass_sigma.rows();
        let nu = self.mass_u.rows();
        &&& self.mass_u.wf()
        &&& self.mass_u.cols() == nu
        &&& self.mass_sigma.wf()
        &&& self.mass_sigma.cols() == ns
        &&& fits(self.dif_sigma, nu, ns)
        &&& fits(self.codif_u, ns, nu)
        &&& fits(self.codifdif_u, nu, nu)
        &&& ns > 0 ==> self.dif_sigma.rows() == nu && self.dif_sigma.cols() == ns
        &&& ns > 0 ==> self.codif_u.rows() == ns && self.codif_u.cols() == nu
        &&& ns + nu <= usize::MAX
    }

    /// The other matrices are those of a mesh and a grade, made of the mass of the grade and
    /// the element matrices of the masses of its neighbours.
    pub open spec fn is_of(
        &self,
        topology: &Complex,
        grade: int,
        elmats_sigma: Seq<Vec<T>>,
        elmats_plus: Seq<Vec<T>>,
    ) -> bool {
        &&& grade > 0 ==> {
            let d = compressed(derivative_entries::<T>(topology, grade - 1));
            let dt = compressed(transposed(derivative_entries::<T>(topology, grade - 1)));
            let mass = compressed(self.mass_u.entries());
            &&& self.mass_sigma.rows() == topology.simplices(grade - 1).len()
            &&& self.mass_sigma.entries() == mass_entries(topology, grade - 1, elmats_sigma)
            &&& self.dif_sigma.rows() == topology.simplices(grade).len()
            &&& self.dif_sigma.cols() == topology.simplices(grade - 1).len()
            &&& self.codif_u.rows() == topology.simplices(grade - 1).len()
            &&& self.codif_u.cols() == topology.simplices(grade).len()
            &&& self.dif_sigma.entries() == coo_product(mass, d)
            &&& self.codif_u.entries() == coo_product(dt, mass)
        }
        &&& grade == 0 ==> is_empty(self.mass_sigma) && is_empty(self.dif_sigma) && is_empty(
            self.codif_u,
        )
        &&& grade < topology.dimension() ==> {
            let d = compressed(derivative_entries::<T>(topology, grade));
            let dt = compressed(transposed(derivative_entries::<T>(topology, grade)));
            let mass = compressed(mass_entries(topology, grade + 1, elmats_plus));
            &&& self.codifdif_u.rows() == topology.simplices(grade).len()
            &&& self.codifdif_u.cols() == topology.simplices(grade).len()
            &&& self.codifdif_u.entries() == coo_product(coo_product(dt, mass), d)
        }
        &&& grade == topology.dimension() ==> is_empty(self.codifdif_u)
    }

    /// The matrices of a grade, from the element matrices of the masses of the grade, of the
    /// grade below and of the grade above.
    pub fn compute(
        topology: &Complex,
        grade: Dim,
        elmats_u: &Vec<Vec<T>>,
        elmats_sigma: &Vec<Vec<T>>,
        elmats_plus: &Vec<Vec<T>>,
    ) -> (galmats: Self)
        requires
            topology.wf(),
            grade <= topology.dimension(),
            elmats_match(topology, grade as int, elmats_u@),
            grade > 0 ==> elmats_match(topology, grade - 1, elmats_sigma@),
            grade > 0 ==> topology.simplices(grade - 1).len() + topology.simplices(
                grade as int,
            ).len() <= usize::MAX,
            grade < topology.dimension() ==> elmats_match(topology, grade + 1, elmats_plus@),
        ensures
            galmats.wf(),
            galmats.mass_u.rows() == topology.simplices(grade as int).len(),
            galmats.mass_u.entries() == mass_entries(topology, grade as int, elmats_u@),
            galmats.is_of(topology, grade as int, elmats_sigma@, elmats_plus@),
            commutative_ring::<T>() ==> galmats.pairs_forms(topology, grade as int, elmats_plus@),
    {
        let dim: Dim = topology.dim();
        let mass_u: GalMat<T> = assemble_galmat(topology, grade, grade, elmats_u);
        let mass_u_csr = CsrMatrix::from_coo(&mass_u);
        let (mass_sigma, dif_sigma, codif_u): (GalMat<T>, GalMat<T>, GalMat<T>) = if grade > 0 {
            let mass_sigma: GalMat<T> = assemble_galmat(
                topology,
                grade - 1,
                grade - 1,
                elmats_sigma,
            );
            let exdif: CooMatrix<T> = sign_matrix(
                &topology.exterior_derivative_operator(grade - 1),
            );
            let exdif_csr = CsrMatrix::from_coo(&exdif);
            let exdif_t = CsrMatrix::from_coo(&exdif.transpose());
            let dif_sigma = CooMatrix::from_csr(&product(&mass_u_csr, &exdif_csr));
            let codif_u = CooMatrix::from_csr(&product(&exdif_t, &mass_u_csr));
            proof {
                if commutative_ring::<T>() {
                    derivative_and_adjoint_pair(
                        exdif.entries(),
                        mass_u.entries(),
                        exdif.cols(),
                        exdif.rows(),
                    );
                }
            }
            (mass_sigma, dif_sigma, codif_u)
        } else {
            (CooMatrix::zeros(0, 0), CooMatrix::zeros(0, 0), CooMatrix::zeros(0, 0))
        };
        let codifdif_u: GalMat<T> = if grade < dim {
            let mass_plus: GalMat<T> = assemble_galmat(
                topology,
                grade + 1,
                grade + 1,
                elmats_plus,
            );
            let ghost above = mass_plus;
            let mass_plus = CsrMatrix::from_coo(&mass_plus);
            let exdif: CooMatrix<T> = sign_matrix(&topology.exterior_derivative_operator(grade));
            proof {
                if commutative_ring::<T>() {
                    sandwich_pairs_derivatives(
                        exdif.entries(),
                        above.entries(),
                        exdif.cols(),
                        exdif.rows(),
                    );
                }
            }
            let exdif_csr = CsrMatrix::from_coo(&exdif);
            let exdif_t = CsrMatrix::from_coo(&exdif.transpose());
            let half = product(&exdif_t, &mass_plus);
            CooMatrix::from_csr(&product(&half, &exdif_csr))
        } else {
            CooMatrix::zeros(0, 0)
        };
        proof {
            topology.machine_sized_levels(grade as int);
        }
        MixedGalmats { mass_sigma, dif_sigma, codif_u, codifdif_u, mass_u }
    }

    pub fn sigma_len(&self) -> (n: usize)
        ensures
            n == self.mass_sigma.rows(),
    {
        self.mass_sigma.nrows()
    }

    pub fn u_len(&self) -> (n: usize)
        ensures
            n == self.mass_u.rows(),
    {
        self.mass_u.nrows()
    }

    pub fn mass_sigma(&self) -> (m: &GalMat<T>)
        ensures
            *m == self.mass_sigma,
    {
        &self.mass_sigma
    }

    pub fn dif_sigma(&self) -> (m: &GalMat<T>)
        ensures
            *m == self.dif_sigma,
    {
        &self.dif_sigma
    }

    pub fn codif_u(&self) -> (m: &GalMat<T>)
        ensures
            *m == self.codif_u,
    {
        &self.codif_u
    }

    pub fn codifdif_u(&self) -> (m: &GalMat<T>)
        ensures
            *m == self.codifdif_u,
    {
        &self.codifdif_u
    }

    pub fn mass_u(&self) -> (m: &GalMat<T>)
        ensures
            *m == self.mass_u,
    {
        &self.mass_u
    }

    /// The number of dofs of the first unknown that are not prescribed.
    pub fn free_sigma_len(&self, sigma_mask: &[bool]) -> (n: usize)
        requires
            sigma_mask@.len() == self.mass_sigma.rows(),
        ensures
            n == free_count(sigma_mask@),
    {
        count_free(sigma_mask)
    }

    /// The number of dofs of the second unknown that are not prescribed.
    pub fn free_u_len(&self, u_mask: &[bool]) -> (n: usize)
        requires
            u_mask@.len() == self.mass_u.rows(),
        ensures
            n == free_count(u_mask@),
    {
        count_free(u_mask)
    }

    pub fn mass_u_csr(&self) -> (m: CsrMatrix<T>)
        requires
            self.wf(),
        ensures
            m.wf(),
            m.rows() == self.mass_u.rows(),
            m.cols() == self.mass_u.cols(),
            m.entries() == compressed(self.mass_u.entries()),
    {
        CsrMatrix::from_coo(&self.mass_u)
    }

    /// The inverse of the lumped mass of the first unknown.
    pub open spec fn lumped_inverse(&self) -> Seq<T> {
        Seq::new(
            self.mass_sigma.rows(),
            |r: int| inverted_spec(row_total(compressed(self.mass_sigma.entries()), r)),
        )
    }

    /// The second unknown alone, with the first one eliminated by its lumped mass.
    pub fn hodge_laplacian_schur_complement_lumped(&self) -> (m: CsrMatrix<T>)
        requires
            self.wf(),
            self.mass_sigma.rows() == 0 || self.codifdif_u.rows() == self.mass_u.rows(),
        ensures
            m.wf(),
            m.rows() == self.codifdif_u.rows(),
            m.cols() == self.codifdif_u.cols(),
            self.mass_sigma.rows() == 0 ==> m.entries() == compressed(self.codifdif_u.entries()),
            self.mass_sigma.rows() > 0 ==> m.entries() == compressed(
                compressed(self.codifdif_u.entries()) + compressed(
                    product_terms(
                        compressed(self.dif_sigma.entries()),
                        compressed(
                            scaled_rows(
                                compressed(self.codif_u.entries()),
                                self.lumped_inverse(),
                            ),
                        ),
                    ),
                ),
            ),
            commutative_ring::<T>() && only_zero_is_zero::<T>() && self.mass_sigma.rows() > 0
                && self.lumps_invertibly() ==> self.eliminates_lumped(m.entries()),
    {
        let codifdif_u = CsrMatrix::from_coo(&self.codifdif_u);
        if self.mass_sigma.nrows() == 0 {
            return codifdif_u;
        }
        let mass_sigma = CsrMatrix::from_coo(&self.mass_sigma);
        let dif_sigma = CsrMatrix::from_coo(&self.dif_sigma);
        let codif_u = CsrMatrix::from_coo(&self.codif_u);
        let lumped = lumped_diag(&mass_sigma);
        let mass_sigma_inv = invert_diag(lumped.as_slice());
        proof {
            assert(mass_sigma_inv@ =~= self.lumped_inverse());
        }
        let codif_u_scaled = scale_rows(&codif_u, mass_sigma_inv.as_slice());
        let schur = product(&dif_sigma, &codif_u_scaled);
        let m = add_sparse(&codifdif_u, &schur);
        proof {
            if commutative_ring::<T>() && only_zero_is_zero::<T>() && self.lumps_invertibly() {
                self.lumped_elimination(m.entries());
            }
        }
        m
    }

    /// The blocks of the mixed problem.
    pub open spec fn is_mixed(&self, m: CooMatrix<T>) -> bool {
        exists|neg: CooMatrix<T>|
            neg.wf() && neg.rows() == self.codif_u.rows() && neg.cols() == self.codif_u.cols()
                && neg.entries() == negated_entries(self.codif_u.entries()) && m.entries()
                == #[trigger] block_entries(
                self.mass_sigma,
                neg,
                self.dif_sigma,
                self.codifdif_u,
            ) && m.rows() == block_heights(
                self.mass_sigma,
                neg,
                self.dif_sigma,
                self.codifdif_u,
            ).1 && m.cols() == block_widths(
                self.mass_sigma,
                neg,
                self.dif_sigma,
                self.codifdif_u,
            ).1
    }

    /// The matrix of the mixed problem.
    pub fn mixed_hodge_laplacian(&self) -> (m: CooMatrix<T>)
        requires
            self.wf(),
        ensures
            m.wf(),
            self.is_mixed(m),
            commutative_ring::<T>() ==> self.acts_mixed(m.entries()),
    {
        let neg = self.codif_u.neg();
        let m = block(&self.mass_sigma, &neg, &self.dif_sigma, &self.codifdif_u);
        proof {
            if commutative_ring::<T>() {
                self.mixed_blocks_act(m);
            }
        }
        m
    }

    /// The blocks of the mixed problem on the free dofs.
    pub open spec fn is_reduced(
        &self,
        m: CooMatrix<T>,
        sigma_mask: Seq<bool>,
        u_mask: Seq<bool>,
    ) -> bool {
        let s = sigma_mask;
        let u = self.derivative_mask(u_mask);
        exists|a: CooMatrix<T>, b: CooMatrix<T>, c: CooMatrix<T>, d: CooMatrix<T>|
            #![trigger block_entries(a, b, c, d)]
            {
                &&& is_free_block(a, self.mass_sigma, s, s)
                &&& is_negated_free_block(b, self.codif_u, s, u)
                &&& is_free_block(c, self.dif_sigma, u, s)
                &&& is_free_block(d, self.codifdif_u, u, u)
                &&& m.entries() == block_entries(a, b, c, d)
                &&& m.rows() == block_heights(a, b, c, d).1
                &&& m.cols() == block_widths(a, b, c, d).1
            }
    }

    /// The matrix of the mixed problem on the free dofs. Without a derivative on the second
    /// unknown all of its dofs count as free.
    pub fn reduced_mixed_hodge_laplacian(&self, sigma_mask: &[bool], u_mask: &[bool]) -> (m:
        CooMatrix<T>)
        requires
            self.wf(),
            sigma_mask@.len() == self.mass_sigma.rows(),
            u_mask@.len() == self.mass_u.rows(),
        ensures
            m.wf(),
            self.is_reduced(m, sigma_mask@, u_mask@),
    {
        let u_eff: Vec<bool> = if self.codifdif_u.nrows() == self.mass_u.nrows() {
            copy_of(u_mask)
        } else {
            no_flags(u_mask.len())
        };
        proof {
            assert(u_eff@ =~= self.derivative_mask(u_mask@));
            unset_before_bound(sigma_mask@, sigma_mask@.len() as int);
            unset_before_bound(u_eff@, u_eff@.len() as int);
        }
        let a = restrict_or_empty(&self.mass_sigma, sigma_mask, sigma_mask);
        let c = restrict_or_empty(&self.dif_sigma, u_eff.as_slice(), sigma_mask);
        let b = restrict_or_empty(&self.codif_u, sigma_mask, u_eff.as_slice()).neg();
        let d = restrict_or_empty(&self.codifdif_u, u_eff.as_slice(), u_eff.as_slice());
        let m = block(&a, &b, &c, &d);
        proof {
            assert(m.entries() == block_entries(a, b, c, d));
        }
        m
    }

    /// The prescribed dofs of the second unknown, none if there is no derivative on it.
    pub open spec fn derivative_mask(&self, u_mask: Seq<bool>) -> Seq<bool> {
        if self.codifdif_u.rows() == self.mass_u.rows() {
            u_mask
        } else {
            Seq::new(u_mask.len(), |i: int| false)
        }
    }
}

/// A block without the flagged rows and columns, negated.
pub open spec fn is_negated_free_block<T: Scalar>(
    reduced: CooMatrix<T>,
    m: CooMatrix<T>,
    rows: Seq<bool>,
    cols: Seq<bool>,
) -> bool {
    let kept = m.rows() == rows.len() && m.cols() == cols.len();
    &&& reduced.wf()
    &&& reduced.entries() == negated_entries(restricted(m.entries(), rows, cols))
    &&& reduced.rows() == (if kept {
        free_count(rows)
    } else {
        0
    })
    &&& reduced.cols() == (if kept {
        free_count(cols)
    } else {
        0
    })
}

/// Flags none of which is set.
pub fn no_flags(n: usize) -> (flags: Vec<bool>)
    ensures
        flags@ == Seq::new(n as nat, |i: int| false),
{
    let mut flags: Vec<bool> = Vec::new();
    let mut i: usize = 0;
    while i < n
        invariant
            i <= n,
            flags@ =~= Seq::new(i as nat, |j: int| false),
        decreases n - i,
    {
        flags.push(false);
        i = i + 1;
    }
    flags
}

/// A block without the flagged rows and columns; nothing if there is no block.
pub fn restrict_or_empty<T: Copy>(m: &CooMatrix<T>, rows: &[bool], cols: &[bool]) -> (reduced:
    CooMatrix<T>)
    requires
        fits(*m, rows@.len(), cols@.len()),
    ensures
        is_free_block(reduced, *m, rows@, cols@),
{
    if m.nrows() == rows.len() && m.ncols() == cols.len() {
        m.restrict(rows, cols)
    } else {
        proof {
            if m.entries().len() > 0 {
                assert(m.entries()[0].0 < m.rows());
            }
            assert(m.entries() =~= Seq::<(usize, usize, T)>::empty());
        }
        CooMatrix::zeros(0, 0)
    }
}

/// The first `n` products of two lists, added up from zero.
pub open spec fn dot_values<T: Scalar>(a: Seq<T>, b: Seq<T>, n: int) -> T
    decreases n,
{
    if n <= 0 {
        T::zero_spec()
    } else {
        dot_values(a, b, n - 1).plus_spec(a[n - 1].times_spec(b[n - 1]))
    }
}

/// The products of two lists, added up from zero.
pub fn dot_of<T: Scalar>(a: &[T], b: &[T]) -> (sum: T)
    requires
        a@.len() == b@.len(),
    ensures
        sum == dot_values(a@, b@, a@.len() as int),
{
    let mut sum = T::zero();
    let mut i: usize = 0;
    while i < a.len()
        invariant
            i <= a@.len(),
            a@.len() == b@.len(),
            sum == dot_values(a@, b@, i as int),
        decreases a@.len() - i,
    {
        sum = sum.plus(a[i].times(b[i]));
        i = i + 1;
    }
    sum
}

/// The mass of harmonic columns on the free dofs: row `r` of column `c`.
pub open spec fn harmonic_mass<T: Scalar>(
    mass: Seq<(usize, usize, T)>,
    harmonics: Seq<Vec<T>>,
    r: int,
    c: int,
) -> T {
    row_dot(mass, harmonics[c]@, r)
}

/// The mass of harmonic columns, row by row, behind `down` rows and `right` columns.
pub open spec fn harmonic_entries<T: Scalar>(
    mass: Seq<(usize, usize, T)>,
    harmonics: Seq<Vec<T>>,
    nrows: nat,
    down: nat,
    right: nat,
) -> Seq<(usize, usize, T)> {
    let n = harmonics.len() as int;
    Seq::new(
        nrows * harmonics.len(),
        |p: int|
            (
                (p / n + down) as usize,
                (p % n + right) as usize,
                harmonic_mass(mass, harmonics, p / n, p % n),
            ),
    )
}

/// The same entries with rows and columns interchanged.
pub open spec fn harmonic_rows<T: Scalar>(
    mass: Seq<(usize, usize, T)>,
    harmonics: Seq<Vec<T>>,
    nrows: nat,
    down: nat,
    right: nat,
) -> Seq<(usize, usize, T)> {
    transposed(harmonic_entries(mass, harmonics, nrows, down, right))
}

fn harmonic_columns<T: Scalar>(mass: &CsrMatrix<T>, harmonics: &[Vec<T>]) -> (columns: Vec<Vec<T>>)
    requires
        mass.wf(),
        forall|c: int|
            0 <= c < harmonics@.len() ==> (#[trigger] harmonics@[c])@.len() == mass.cols(),
    ensures
        columns@.len() == harmonics@.len(),
        forall|c: int|
            0 <= c < columns@.len() ==> (#[trigger] columns@[c])@ == Seq::new(
                mass.rows(),
                |r: int| harmonic_mass(mass.entries(), harmonics@, r, c),
            ),
{
    let mut columns: Vec<Vec<T>> = Vec::new();
    let mut c: usize = 0;
    while c < harmonics.len()
        invariant
            c <= harmonics@.len(),
            mass.wf(),
            forall|k: int|
                0 <= k < harmonics@.len() ==> (#[trigger] harmonics@[k])@.len() == mass.cols(),
            columns@.len() == c,
            forall|k: int|
                0 <= k < c ==> (#[trigger] columns@[k])@ == Seq::new(
                    mass.rows(),
                    |r: int| harmonic_mass(mass.entries(), harmonics@, r, k),
                ),
        decreases harmonics@.len() - c,
    {
        let column = mul_vec(mass, harmonics[c].as_slice());
        proof {
            assert(column@ =~= Seq::new(
                mass.rows(),
                |r: int| harmonic_mass(mass.entries(), harmonics@, r, c as int),
            ));
        }
        columns.push(column);
        c = c + 1;
    }
    columns
}

/// Appends harmonic columns, or rows, to a system.
fn push_harmonics<T: Scalar>(
    m: &mut CooMatrix<T>,
    columns: &[Vec<T>],
    nrows: usize,
    down: usize,
    right: usize,
    swap: bool,
    Ghost(mass): Ghost<Seq<(usize, usize, T)>>,
    Ghost(harmonics): Ghost<Seq<Vec<T>>>,
)
    requires
        old(m).wf(),
        columns@.len() == harmonics.len(),
        columns@.len() > 0,
        forall|c: int|
            0 <= c < columns@.len() ==> (#[trigger] columns@[c])@ == Seq::new(
                nrows as nat,
                |r: int| harmonic_mass(mass, harmonics, r, c),
            ),
        !swap ==> nrows + down <= old(m).rows() && columns@.len() + right <= old(m).cols(),
        swap ==> nrows + down <= old(m).cols() && columns@.len() + right <= old(m).rows(),
    ensures
        final(m).wf(),
        final(m).rows() == old(m).rows(),
        final(m).cols() == old(m).cols(),
        final(m).entries() == old(m).entries() + (if swap {
            harmonic_rows(mass, harmonics, nrows as nat, down as nat, right as nat)
        } else {
            harmonic_entries(mass, harmonics, nrows as nat, down as nat, right as nat)
        }),
{
    let ghost before = m.entries();
    let ghost height = m.rows();
    let ghost width = m.cols();
    let ghost added = if swap {
        harmonic_rows(mass, harmonics, nrows as nat, down as nat, right as nat)
    } else {
        harmonic_entries(mass, harmonics, nrows as nat, down as nat, right as nat)
    };
    let n: usize = columns.len();
    let bound: usize = m.nrows();
    let wide: usize = m.ncols();
    let mut r: usize = 0;
    proof {
        assert(0int * n == 0) by (nonlinear_arith);
        assert(before + added.take(0) =~= before);
    }
    while r < nrows
        invariant
            r <= nrows,
            n == columns@.len(),
            n == harmonics.len(),
            n > 0,
            bound == height,
            wide == width,
            forall|c: int|
                0 <= c < columns@.len() ==> (#[trigger] columns@[c])@ == Seq::new(
                    nrows as nat,
                    |r: int| harmonic_mass(mass, harmonics, r, c),
                ),
            !swap ==> nrows + down <= height && n + right <= width,
            swap ==> nrows + down <= width && n + right <= height,
            added == (if swap {
                harmonic_rows(mass, harmonics, nrows as nat, down as nat, right as nat)
            } else {
                harmonic_entries(mass, harmonics, nrows as nat, down as nat, right as nat)
            }),
            m.wf(),
            m.rows() == height,
            m.cols() == width,
            m.entries() == before + added.take(r * n),
        decreases nrows - r,
    {
        let mut c: usize = 0;
        while c < n
            invariant
                c <= n,
                r < nrows,
                n == columns@.len(),
                n == harmonics.len(),
                n > 0,
                bound == height,
                wide == width,
                forall|c: int|
                    0 <= c < columns@.len() ==> (#[trigger] columns@[c])@ == Seq::new(
                        nrows as nat,
                        |r: int| harmonic_mass(mass, harmonics, r, c),
                    ),
                !swap ==> nrows + down <= height && n + right <= width,
                swap ==> nrows + down <= width && n + right <= height,
                added == (if swap {
                    harmonic_rows(mass, harmonics, nrows as nat, down as nat, right as nat)
                } else {
                    harmonic_entries(mass, harmonics, nrows as nat, down as nat, right as nat)
                }),
                m.wf(),
                m.rows() == height,
                m.cols() == width,
                m.entries() == before + added.take(r * n + c),
            decreases n - c,
        {
            proof {
                assert(columns@[c as int]@.len() == nrows);
            }
            let v = columns[c][r];
            let ghost p = r * n + c;
            if swap {
                m.push(c + right, r + down, v);
            } else {
                m.push(r + down, c + right, v);
            }
            proof {
                assert(0 <= p < nrows * n) by (nonlinear_arith)
                    requires
                        p == r * n + c,
                        0 <= r < nrows,
                        0 <= c < n,
                ;
                vstd::arithmetic::div_mod::lemma_fundamental_div_mod_converse(
                    p,
                    n as int,
                    r as int,
                    c as int,
                );
                assert(added.len() == nrows * n);
                assert(v == harmonic_mass(mass, harmonics, r as int, c as int));
                assert(m.entries() =~= before + added.take(p + 1));
            }
            c = c + 1;
        }
        proof {
            assert(r * n + n == (r + 1) * n) by (nonlinear_arith);
        }
        r = r + 1;
    }
    proof {
        assert(added.len() == nrows * n);
        assert(added.take(nrows * n) =~= added);
    }
}

/// A matrix with rows and columns of zeros added below and to the right.
fn grown<T: Copy>(m: &CooMatrix<T>, rows: usize, cols: usize) -> (g: CooMatrix<T>)
    requires
        m.wf(),
        m.rows() + rows <= usize::MAX,
        m.cols() + cols <= usize::MAX,
    ensures
        g.wf(),
        g.rows() == m.rows() + rows,
        g.cols() == m.cols() + cols,
        g.entries() == m.entries(),
{
    let mut g: CooMatrix<T> = CooMatrix::zeros(m.nrows() + rows, m.ncols() + cols);
    push_shifted(&mut g, m, 0, 0);
    proof {
        let e = m.entries();
        assert forall|i: int| 0 <= i < e.len() implies (#[trigger] e[i].0 as nat + 0) as usize
            == e[i].0 by {}
        assert(shifted(e, 0, 0) =~= e);
        assert(g.entries() =~= e);
    }
    g
}

impl<T: Scalar> MixedGalmats<T> {
    /// What the prescribed dofs contribute to the harmonic constraint.
    pub open spec fn harmonic_rhs(
        &self,
        u_mask: Seq<bool>,
        u_data: Seq<T>,
        harmonics: Seq<Vec<T>>,
    ) -> Seq<T> {
        let moved = kept_values(
            Seq::new(
                self.mass_u.rows(),
                |r: int|
                    moved_to_rhs(
                        T::zero_spec(),
                        self.mass_u.entries(),
                        masked_pairs(u_mask, u_data),
                        r,
                    ),
            ),
            u_mask,
        );
        Seq::new(
            harmonics.len(),
            |c: int| dot_values(harmonics[c]@, moved, harmonics[c]@.len() as int),
        )
    }

    /// The mass of the second unknown on its free dofs.
    pub open spec fn free_mass_u(&self, u_mask: Seq<bool>) -> Seq<(usize, usize, T)> {
        compressed(restricted(self.mass_u.entries(), u_mask, u_mask))
    }

    /// The system on the free dofs, bordered by the harmonic constraint.
    pub open spec fn is_bordered_system(
        &self,
        entries: Seq<(usize, usize, T)>,
        nrows: nat,
        ncols: nat,
        sigma_mask: Seq<bool>,
        u_mask: Seq<bool>,
        harmonics: Seq<Vec<T>>,
        a: CooMatrix<T>,
        b: CooMatrix<T>,
        c: CooMatrix<T>,
        d: CooMatrix<T>,
    ) -> bool {
        let mass = self.free_mass_u(u_mask);
        let inner = block_entries(a, b, c, d);
        &&& is_free_block(a, self.mass_sigma, sigma_mask, sigma_mask)
        &&& is_negated_free_block(b, self.codif_u, sigma_mask, u_mask)
        &&& is_free_block(c, self.dif_sigma, u_mask, sigma_mask)
        &&& is_free_block(d, self.codifdif_u, u_mask, u_mask)
        &&& nrows == block_heights(a, b, c, d).1 + harmonics.len()
        &&& ncols == block_widths(a, b, c, d).1 + harmonics.len()
        &&& entries == compressed(
            if harmonics.len() > 0 {
                inner + harmonic_entries(
                    mass,
                    harmonics,
                    free_count(u_mask),
                    a.rows(),
                    a.rows() + d.rows(),
                ) + harmonic_rows(
                    mass,
                    harmonics,
                    free_count(u_mask),
                    a.rows(),
                    a.rows() + d.rows(),
                )
            } else {
                inner
            },
        )
    }
}

/// Negating the entries and leaving some out can be done in either order.
pub proof fn restricted_negated<T: Scalar>(
    entries: Seq<(usize, usize, T)>,
    rows: Seq<bool>,
    cols: Seq<bool>,
)
    ensures
        restricted(negated_entries(entries), rows, cols) == negated_entries(
            restricted(entries, rows, cols),
        ),
    decreases entries.len(),
{
    if entries.len() > 0 {
        restricted_negated(entries.drop_last(), rows, cols);
        assert(negated_entries(entries).drop_last() =~= negated_entries(entries.drop_last()));
        assert(restricted(negated_entries(entries), rows, cols) =~= negated_entries(
            restricted(entries, rows, cols),
        ));
    } else {
        assert(restricted(negated_entries(entries), rows, cols) =~= negated_entries(
            restricted(entries, rows, cols),
        ));
    }
}

impl<T: Scalar> MixedGalmats<T> {
    fn harmonic_rhs_of(&self, u_mask: &[bool], u_data: &[T], harmonics: &[Vec<T>]) -> (rhs: Vec<T>)
        requires
            self.wf(),
            u_mask@.len() == self.mass_u.rows(),
            u_data@.len() == self.mass_u.rows(),
            forall|c: int|
                0 <= c < harmonics@.len() ==> (#[trigger] harmonics@[c])@.len() == free_count(
                    u_mask@,
                ),
        ensures
            rhs@ == self.harmonic_rhs(u_mask@, u_data@, harmonics@),
    {
        let zeros = crate::linalg::algebra::zero_vector::<T>(u_mask.len());
        let none: [T; 0] = [];
        let no_mask: [bool; 0] = [];
        let empty: GalMat<T> = CooMatrix::zeros(0, 0);
        let system = MixedSystem {
            mass_sigma: &empty,
            codif_u_neg: &empty,
            dif_sigma: &empty,
            u_block: &self.mass_u,
            sigma_rhs: none.as_slice(),
            u_rhs: zeros.as_slice(),
            sigma_mask: no_mask.as_slice(),
            sigma_data: none.as_slice(),
            u_mask,
            u_data,
        };
        let (_, _, moved) = system.eliminate();
        let ghost whole = Seq::new(
            self.mass_u.rows(),
            |r: int|
                moved_to_rhs(
                    T::zero_spec(),
                    self.mass_u.entries(),
                    masked_pairs(u_mask@, u_data@),
                    r,
                ),
        );
        proof {
            let listed = Seq::new(
                zeros@.len(),
                |r: int|
                    moved_to_rhs(
                        moved_to_rhs(
                            zeros@[r],
                            self.mass_u.entries(),
                            masked_pairs(u_mask@, u_data@),
                            r,
                        ),
                        empty.entries(),
                        masked_pairs(no_mask@, none@),
                        r,
                    ),
            );
            assert(empty.entries() =~= Seq::<(usize, usize, T)>::empty());
            assert(listed =~= whole);
            assert(system.free_u_rhs() == kept_values(whole, u_mask@));
            crate::assemble::dofs::kept_values_positions(whole, u_mask@);
        }
        let mut rhs: Vec<T> = Vec::new();
        let mut c: usize = 0;
        while c < harmonics.len()
            invariant
                c <= harmonics@.len(),
                moved@ == kept_values(whole, u_mask@),
                moved@.len() == free_count(u_mask@),
                forall|k: int|
                    0 <= k < harmonics@.len() ==> (#[trigger] harmonics@[k])@.len() == free_count(
                        u_mask@,
                    ),
                rhs@.len() == c,
                forall|k: int|
                    0 <= k < c ==> #[trigger] rhs@[k] == dot_values(
                        harmonics@[k]@,
                        moved@,
                        harmonics@[k]@.len() as int,
                    ),
            decreases harmonics@.len() - c,
        {
            proof {
                assert(harmonics@[c as int]@.len() == free_count(u_mask@));
            }
            rhs.push(dot_of(harmonics[c].as_slice(), moved.as_slice()));
            c = c + 1;
        }
        proof {
            assert(rhs@ =~= self.harmonic_rhs(u_mask@, u_data@, harmonics@));
        }
        rhs
    }

    /// The mixed system as `MixedSystem::eliminate` takes it.
    pub open spec fn is_system(
        &self,
        system: MixedSystem<T>,
        sigma_mask: Seq<bool>,
        sigma_data: Seq<T>,
        u_mask: Seq<bool>,
        u_data: Seq<T>,
        sigma_rhs: Seq<T>,
        u_rhs: Seq<T>,
    ) -> bool {
        &&& system.wf()
        &&& *system.mass_sigma == self.mass_sigma
        &&& system.codif_u_neg.rows() == self.codif_u.rows()
        &&& system.codif_u_neg.cols() == self.codif_u.cols()
        &&& system.codif_u_neg.entries() == negated_entries(self.codif_u.entries())
        &&& *system.dif_sigma == self.dif_sigma
        &&& *system.u_block == self.codifdif_u
        &&& system.sigma_mask@ == sigma_mask
        &&& system.sigma_data@ == sigma_data
        &&& system.u_mask@ == u_mask
        &&& system.u_data@ == u_data
        &&& system.sigma_rhs@ == sigma_rhs
        &&& system.u_rhs@ == u_rhs
    }

    /// The system on the free dofs with the prescribed dofs eliminated, bordered by the
    /// harmonic constraint. The harmonic columns are given on the free dofs. The right-hand
    /// sides are left on the free dofs.
    #[verifier::rlimit(40)]
    pub fn mixed_hodge_laplacian_with_strong_bc_via_elimination(
        &self,
        sigma_mask: &[bool],
        sigma_data: &[T],
        u_mask: &[bool],
        u_data: &[T],
        sigma_rhs: &mut Vec<T>,
        u_rhs: &mut Vec<T>,
        harmonics: &[Vec<T>],
    ) -> (system: (CsrMatrix<T>, Vec<T>))
        requires
            self.wf(),
            sigma_mask@.len() == self.mass_sigma.rows(),
            sigma_data@.len() == self.mass_sigma.rows(),
            old(sigma_rhs)@.len() == self.mass_sigma.rows(),
            u_mask@.len() == self.mass_u.rows(),
            u_data@.len() == self.mass_u.rows(),
            old(u_rhs)@.len() == self.mass_u.rows(),
            forall|c: int|
                0 <= c < harmonics@.len() ==> (#[trigger] harmonics@[c])@.len() == free_count(
                    u_mask@,
                ),
            harmonics@.len() > 0 ==> self.mass_sigma.rows() > 0 || self.codifdif_u.rows()
                == self.mass_u.rows(),
            self.mass_sigma.rows() + self.mass_u.rows() + harmonics@.len() <= usize::MAX,
        ensures
            system.0.wf(),
            exists|a: CooMatrix<T>, b: CooMatrix<T>, c: CooMatrix<T>, d: CooMatrix<T>|
                #![trigger block_entries(a, b, c, d)]
                self.is_bordered_system(
                    system.0.entries(),
                    system.0.rows(),
                    system.0.cols(),
                    sigma_mask@,
                    u_mask@,
                    harmonics@,
                    a,
                    b,
                    c,
                    d,
                ),
            exists|parts: MixedSystem<T>|
                #[trigger] self.is_system(
                    parts,
                    sigma_mask@,
                    sigma_data@,
                    u_mask@,
                    u_data@,
                    old(sigma_rhs)@,
                    old(u_rhs)@,
                ) && final(sigma_rhs)@ == parts.free_sigma_rhs() && final(u_rhs)@
                    == parts.free_u_rhs(),
            system.1@ == final(sigma_rhs)@ + final(u_rhs)@ + (if harmonics@.len() > 0 {
                self.harmonic_rhs(u_mask@, u_data@, harmonics@)
            } else {
                Seq::empty()
            }),
    {
        let codif_u_neg = self.codif_u.neg();
        let old_sigma_rhs = copy_of(sigma_rhs.as_slice());
        let old_u_rhs = copy_of(u_rhs.as_slice());
        let parts = MixedSystem {
            mass_sigma: &self.mass_sigma,
            codif_u_neg: &codif_u_neg,
            dif_sigma: &self.dif_sigma,
            u_block: &self.codifdif_u,
            sigma_rhs: old_sigma_rhs.as_slice(),
            u_rhs: old_u_rhs.as_slice(),
            sigma_mask,
            sigma_data,
            u_mask,
            u_data,
        };
        let (inner, free_sigma, free_u): (CooMatrix<T>, Vec<T>, Vec<T>) = parts.eliminate();
        let ghost (a, b, c, d) = choose|
            a: CooMatrix<T>,
            b: CooMatrix<T>,
            c: CooMatrix<T>,
            d: CooMatrix<T>,
        |
            #![trigger block_entries(a, b, c, d)]
            parts.is_free_blocks(a, b, c, d) && inner.rows() == block_heights(a, b, c, d).1
                && inner.cols() == block_widths(a, b, c, d).1 && inner.entries() == block_entries(
                a,
                b,
                c,
                d,
            );
        proof {
            restricted_negated(self.codif_u.entries(), sigma_mask@, u_mask@);
            unset_before_bound(sigma_mask@, sigma_mask@.len() as int);
            unset_before_bound(u_mask@, u_mask@.len() as int);
            assert(is_negated_free_block(b, self.codif_u, sigma_mask@, u_mask@));
            assert(self.is_system(
                parts,
                sigma_mask@,
                sigma_data@,
                u_mask@,
                u_data@,
                old(sigma_rhs)@,
                old(u_rhs)@,
            ));
        }
        let nh: usize = harmonics.len();
        let mut rhs: Vec<T> = joined(free_sigma.as_slice(), free_u.as_slice());
        *sigma_rhs = free_sigma;
        *u_rhs = free_u;
        if nh == 0 {
            let matrix = CsrMatrix::from_coo(&inner);
            proof {
                assert(rhs@ + Seq::<T>::empty() =~= rhs@);
                assert(self.is_bordered_system(
                    matrix.entries(),
                    matrix.rows(),
                    matrix.cols(),
                    sigma_mask@,
                    u_mask@,
                    harmonics@,
                    a,
                    b,
                    c,
                    d,
                ));
            }
            return (matrix, rhs);
        }
        let harmonic_rhs = self.harmonic_rhs_of(u_mask, u_data, harmonics);
        rhs = joined(rhs.as_slice(), harmonic_rhs.as_slice());
        let reduced_mass = CsrMatrix::from_coo(&self.mass_u.restrict(u_mask, u_mask));
        let columns = harmonic_columns(&reduced_mass, harmonics);
        let nu: usize = count_free(u_mask);
        let reduced_sigma_len: usize = count_free(sigma_mask);
        let reduced_u_len: usize = if self.codifdif_u.nrows() == self.mass_u.nrows() {
            nu
        } else {
            0
        };
        proof {
            assert(a.rows() == reduced_sigma_len);
            assert(d.rows() == reduced_u_len);
        }
        let mut galmat = grown(&inner, nh, nh);
        push_harmonics(
            &mut galmat,
            columns.as_slice(),
            nu,
            reduced_sigma_len,
            reduced_sigma_len + reduced_u_len,
            false,
            Ghost(reduced_mass.entries()),
            Ghost(harmonics@),
        );
        push_harmonics(
            &mut galmat,
            columns.as_slice(),
            nu,
            reduced_sigma_len,
            reduced_sigma_len + reduced_u_len,
            true,
            Ghost(reduced_mass.entries()),
            Ghost(harmonics@),
        );
        let matrix = CsrMatrix::from_coo(&galmat);
        proof {
            assert(self.is_bordered_system(
                matrix.entries(),
                matrix.rows(),
                matrix.cols(),
                sigma_mask@,
                u_mask@,
                harmonics@,
                a,
                b,
                c,
                d,
            ));
        }
        (matrix, rhs)
    }
}

/// One list behind another.
pub fn joined<T: Copy>(a: &[T], b: &[T]) -> (all: Vec<T>)
    ensures
        all@ == a@ + b@,
{
    let mut all = copy_of(a);
    let mut i: usize = 0;
    while i < b.len()
        invariant
            i <= b@.len(),
            all@ =~= a@ + b@.take(i as int),
        decreases b@.len() - i,
    {
        all.push(b[i]);
        i = i + 1;
    }
    proof {
        assert(b@.take(i as int) =~= b@);
    }
    all
}

} // verus!
