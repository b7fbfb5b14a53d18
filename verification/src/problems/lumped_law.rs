//! What the lumped mass of the first unknown eliminates.

use crate::assemble::reconstruction_law::divides_exactly;
use crate::assemble::symmetry_law::only_zero_is_zero;
use crate::linalg::algebra::{
    inverted_spec, magnitude_spec, matrix_times, product_terms, reciprocal_spec, row_dot,
    DIAGONAL_RESOLUTION,
};
use crate::linalg::csr::compressed;
use crate::linalg::matrix_law::{
    ones, row_compressed, row_of_both, row_of_product, row_same, row_total_of_ones,
};
use crate::linalg::ring::{
    commutative_ring, ring_associates, ring_commutes, ring_distributes, ring_plus, ring_units,
};
use crate::linalg::scalar::Scalar;
use crate::linalg::sparse::triplets_within;
use crate::problems::mixed_galmats::{scaled_rows, MixedGalmats};
use crate::problems::step_law::quotient_is_product;
use vstd::prelude::*;

verus! {

/// A value of a diagonal that has an inverse and is not taken as zero.
pub open spec fn invertible<T: Scalar>(v: T) -> bool {
    &&& divides_exactly(v)
    &&& !magnitude_spec(v).is_below_spec(reciprocal_spec(DIAGONAL_RESOLUTION as nat))
}

/// A value of a diagonal times its inverse is one.
pub proof fn inverted_diagonal_is_inverse<T: Scalar>(v: T)
    requires
        commutative_ring::<T>(),
        invertible(v),
    ensures
        v.times_spec(inverted_spec(v)) == T::one_spec(),
        inverted_spec(v).times_spec(v) == T::one_spec(),
{
    quotient_is_product(v, v);
    ring_commutes(v, inverted_spec(v));
}

/// Factors of rows are factors of the products of the rows.
pub proof fn row_scaled<T: Scalar>(
    entries: Seq<(usize, usize, T)>,
    scales: Seq<T>,
    nrows: int,
    ncols: int,
    x: Seq<T>,
    r: int,
)
    requires
        commutative_ring::<T>(),
        only_zero_is_zero::<T>(),
        triplets_within(entries, nrows, ncols),
    ensures
        row_dot(scaled_rows(entries, scales), x, r) == scales[r].times_spec(
            row_dot(entries, x, r),
        ),
        triplets_within(scaled_rows(entries, scales), nrows, ncols),
    decreases entries.len(),
{
    let all = scaled_rows(entries, scales);
    if entries.len() == 0 {
        ring_units(scales[r]);
    } else {
        let front = entries.drop_last();
        let (row, col, v) = entries[entries.len() - 1];
        assert(row < nrows && col < ncols);
        assert(triplets_within(front, nrows, ncols)) by {
            assert forall|i: int| 0 <= i < front.len() implies (#[trigger] front[i]).0 < nrows
                && front[i].1 < ncols by {
                assert(front[i] == entries[i]);
            }
        }
        row_scaled(front, scales, nrows, ncols, x, r);
        let before = scaled_rows(front, scales);
        let value = v.times_spec(scales[row as int]);
        let a = x[col as int];
        ring_commutes(v, scales[row as int]);
        ring_associates(scales[row as int], v, a);
        ring_distributes(scales[r], row_dot(front, x, r), v.times_spec(a));
        ring_units(a);
        ring_plus(row_dot(before, x, r), a, a);
        if value.is_zero_spec() {
            assert(value == T::zero_spec());
        } else {
            assert(all == before.push((row, col, value)));
            assert(all.drop_last() =~= before);
            assert forall|i: int| 0 <= i < all.len() implies (#[trigger] all[i]).0 < nrows
                && all[i].1 < ncols by {
                if i < before.len() {
                    assert(all[i] == before[i]);
                }
            }
        }
    }
}

impl<T: Scalar> MixedGalmats<T> {
    /// The mass of a dof of the first unknown with all of its neighbours.
    pub open spec fn lumped_mass(&self, r: int) -> T {
        row_dot(self.mass_sigma.entries(), ones(self.mass_sigma.rows()), r)
    }

    /// The first unknown belongs to the second one by the lumped mass.
    pub open spec fn solves_lumped(&self, sigma: Seq<T>, u: Seq<T>) -> bool {
        &&& sigma.len() == self.mass_sigma.rows()
        &&& forall|r: int|
            0 <= r < self.mass_sigma.rows() ==> self.lumped_mass(r).times_spec(
                #[trigger] sigma[r],
            ) == row_dot(self.codif_u.entries(), u, r)
    }

    /// The lumped mass can be inverted.
    pub open spec fn lumps_invertibly(&self) -> bool {
        forall|r: int|
            0 <= r < self.mass_sigma.rows() ==> invertible(#[trigger] self.lumped_mass(r))
    }

    /// A matrix for the second unknown that does, on each of its values, what both derivatives
    /// do with the first unknown that belongs to it by the lumped mass.
    pub open spec fn eliminates_lumped(&self, m: Seq<(usize, usize, T)>) -> bool {
        forall|sigma: Seq<T>, u: Seq<T>, i: int|
            #![trigger self.solves_lumped(sigma, u), row_dot(m, u, i)]
            self.solves_lumped(sigma, u) ==> row_dot(m, u, i) == row_dot(
                self.codifdif_u.entries(),
                u,
                i,
            ).plus_spec(row_dot(self.dif_sigma.entries(), sigma, i))
    }

    /// The factors of the rows are the inverses of the lumped mass.
    pub proof fn lumped_inverse_is_inverse(&self, r: int)
        requires
            commutative_ring::<T>(),
            self.wf(),
            0 <= r < self.mass_sigma.rows(),
            invertible(self.lumped_mass(r)),
        ensures
            self.lumped_mass(r).times_spec(self.lumped_inverse()[r]) == T::one_spec(),
            self.lumped_inverse()[r].times_spec(self.lumped_mass(r)) == T::one_spec(),
    {
        let n = self.mass_sigma.rows();
        let mass = self.mass_sigma.entries();
        row_compressed(mass, n as int, n as int, ones(n), r);
        row_total_of_ones(compressed(mass), n as int, n, r);
        inverted_diagonal_is_inverse(self.lumped_mass(r));
    }

    /// Over coefficients that compute exactly, where the lumped mass can be inverted, the second
    /// unknown alone does what the mixed problem does with the lumped mass: for the first unknown
    /// that belongs to a second one, the matrix gives what both derivatives give.
    pub proof fn lumped_elimination(&self, m: Seq<(usize, usize, T)>)
        requires
            commutative_ring::<T>(),
            only_zero_is_zero::<T>(),
            self.wf(),
            self.mass_sigma.rows() > 0,
            self.codifdif_u.rows() == self.mass_u.rows(),
            self.lumps_invertibly(),
            m == compressed(
                compressed(self.codifdif_u.entries()) + compressed(
                    product_terms(
                        compressed(self.dif_sigma.entries()),
                        compressed(
                            scaled_rows(
                                compressed(self.codif_u.entries()),
                                self.lumped_inverse(),
                            ),
                        ),
                    ),
                ),
            ),
        ensures
            self.eliminates_lumped(m),
    {
        assert forall|sigma: Seq<T>, u: Seq<T>, i: int|
            #![trigger self.solves_lumped(sigma, u), row_dot(m, u, i)]
            self.solves_lumped(sigma, u) implies row_dot(m, u, i) == row_dot(
            self.codifdif_u.entries(),
            u,
            i,
        ).plus_spec(row_dot(self.dif_sigma.entries(), sigma, i)) by {
            self.lemma_eliminated_row(m, sigma, u, i);
        }
    }

    proof fn lemma_eliminated_row(
        &self,
        m: Seq<(usize, usize, T)>,
        sigma: Seq<T>,
        u: Seq<T>,
        i: int,
    )
        requires
            commutative_ring::<T>(),
            only_zero_is_zero::<T>(),
            self.wf(),
            self.mass_sigma.rows() > 0,
            self.codifdif_u.rows() == self.mass_u.rows(),
            self.lumps_invertibly(),
            self.solves_lumped(sigma, u),
            m == compressed(
                compressed(self.codifdif_u.entries()) + compressed(
                    product_terms(
                        compressed(self.dif_sigma.entries()),
                        compressed(
                            scaled_rows(
                                compressed(self.codif_u.entries()),
                                self.lumped_inverse(),
                            ),
                        ),
                    ),
                ),
            ),
        ensures
            row_dot(m, u, i) == row_dot(self.codifdif_u.entries(), u, i).plus_spec(
                row_dot(self.dif_sigma.entries(), sigma, i),
            ),
    {
        let ns = self.mass_sigma.rows();
        let (s, n) = (ns as int, self.mass_u.rows() as int);
        let second = self.codifdif_u.entries();
        let dif = self.dif_sigma.entries();
        let codif = self.codif_u.entries();
        let scales = self.lumped_inverse();
        row_compressed(second, n, n, u, i);
        row_compressed(dif, n, s, sigma, i);
        row_compressed(codif, s, n, u, i);
        let scaled = scaled_rows(compressed(codif), scales);
        row_scaled(compressed(codif), scales, s, n, u, i);
        row_compressed(scaled, s, n, u, i);
        let terms = product_terms(compressed(dif), compressed(scaled));
        row_of_product(compressed(dif), compressed(scaled), n, ns, n, u, i);
        row_compressed(terms, n, n, u, i);
        row_of_both(compressed(second), compressed(terms), n, n, u, i);
        let back = matrix_times(compressed(scaled), ns, u);
        assert forall|r: int| 0 <= r < s implies #[trigger] back[r] == sigma[r] by {
            row_compressed(scaled, s, n, u, r);
            row_scaled(compressed(codif), scales, s, n, u, r);
            row_compressed(codif, s, n, u, r);
            self.lumped_inverse_is_inverse(r);
            ring_associates(scales[r], self.lumped_mass(r), sigma[r]);
            ring_units(sigma[r]);
        }
        row_same(compressed(dif), n, s, back, sigma, i);
    }
}

} // verus!
