//! What the vectors of sampled forms stand for.

use crate::io::fields::Cochain;
use crate::io::sampling::{are_cell_pseudovectors, is_pseudovector};
use crate::linalg::dense::DenseMatrix;
use crate::linalg::ring::commutative_ring;
use crate::linalg::scalar::Scalar;
use crate::linalg::space_law::{form_on_pair, lemma_flux_through_parallelogram};
use crate::linalg::vec3::{cross3_spec, dot3_spec};
use crate::topology::complex::Complex;
use crate::whitney::barycenter_value;
use vstd::prelude::*;

verus! {

/// The value of a two-form on any two vectors is the flux of its vector through the
/// parallelogram that they span.
pub proof fn pseudovector_gives_the_flux<T: Scalar>(
    v: [T; 3],
    coeffs: Seq<T>,
    a: Seq<T>,
    b: Seq<T>,
)
    requires
        commutative_ring::<T>(),
        is_pseudovector(v, coeffs),
    ensures
        form_on_pair(coeffs, a, b) == dot3_spec(v@, cross3_spec(a, b)),
{
    lemma_flux_through_parallelogram(v@, coeffs, a, b);
}

/// The fluxes of vectors through parallelograms are the values of a Whitney form at the
/// barycenters of the cells.
pub open spec fn fluxes_are_of_form<T: Scalar>(
    vectors: Seq<[T; 3]>,
    cochain: Cochain<T>,
    topology: Complex,
    lifts: Seq<DenseMatrix<T>>,
) -> bool {
    &&& vectors.len() == lifts.len()
    &&& forall|i: int, a: Seq<T>, b: Seq<T>|
        0 <= i < vectors.len() ==> #[trigger] dot3_spec(vectors[i]@, cross3_spec(a, b))
            == form_on_pair(barycenter_value(cochain, topology, lifts[i], i), a, b)
}

/// The vectors that stand for a Whitney form on the cells have its values as their fluxes.
pub proof fn cell_pseudovectors_give_the_fluxes<T: Scalar>(
    vectors: Seq<[T; 3]>,
    cochain: Cochain<T>,
    topology: Complex,
    lifts: Seq<DenseMatrix<T>>,
)
    requires
        commutative_ring::<T>(),
        are_cell_pseudovectors(vectors, cochain, topology, lifts),
    ensures
        fluxes_are_of_form(vectors, cochain, topology, lifts),
{
    assert forall|i: int, a: Seq<T>, b: Seq<T>| 0 <= i < vectors.len() implies #[trigger] dot3_spec(
        vectors[i]@,
        cross3_spec(a, b),
    ) == form_on_pair(barycenter_value(cochain, topology, lifts[i], i), a, b) by {
        pseudovector_gives_the_flux(
            vectors[i],
            barycenter_value(cochain, topology, lifts[i], i),
            a,
            b,
        );
    }
}

} // verus!
