//! What the harmonic constraint of a mixed problem says.

use crate::assemble::dofs::{kept_values, kept_values_positions, moved_to_rhs};
use crate::linalg::algebra::{matrix_times, row_dot};
use crate::linalg::dense::{sum_products, sum_products_same};
use crate::linalg::matrix_law::{ring_cancels, row_compressed};
use crate::linalg::products::{products_commute, products_of_sums};
use crate::linalg::ring::{commutative_ring, ring_plus};
use crate::linalg::scalar::Scalar;
use crate::linalg::sparse::{restricted, transposed, unset_before, unset_before_bound};
use crate::problems::derivative_law::pairing;
use crate::problems::elimination::{all_values, masked_pairs};
use crate::problems::elimination_law::lemma_block_row;
use crate::problems::mixed_galmats::{
    dot_values, free_count, harmonic_entries, harmonic_mass, MixedGalmats,
};
use crate::sparse_inverse_law::lemma_restricted_within;
use vstd::prelude::*;

verus! {

/// The last row of harmonic entries, taken up to a column.
proof fn lemma_last_row<T: Scalar>(
    mass: Seq<(usize, usize, T)>,
    harmonics: Seq<Vec<T>>,
    k: nat,
    x: Seq<T>,
    c: int,
    m: nat,
)
    requires
        commutative_ring::<T>(),
        0 <= c < harmonics.len(),
        m <= harmonics.len(),
        (k + 1) * harmonics.len() <= usize::MAX,
        k + 1 <= usize::MAX,
        harmonics.len() <= usize::MAX,
    ensures
        ({
            let n = harmonics.len() as int;
            let all = harmonic_entries(mass, harmonics, k + 1, 0, 0);
            k * n + m <= all.len() && row_dot(transposed(all.take(k * n + m)), x, c) == (if c < m {
                row_dot(transposed(all.take(k * n)), x, c).plus_spec(
                    harmonic_mass(mass, harmonics, k as int, c).times_spec(x[k as int]),
                )
            } else {
                row_dot(transposed(all.take(k * n)), x, c)
            })
        }),
    decreases m,
{
    let n = harmonics.len() as int;
    let all = harmonic_entries(mass, harmonics, k + 1, 0, 0);
    assert((k + 1) * harmonics.len() == k * n + n) by (nonlinear_arith)
        requires
            n == harmonics.len(),
    ;
    if m > 0 {
        let l = (m - 1) as nat;
        lemma_last_row(mass, harmonics, k, x, c, l);
        let p = k * n + l;
        vstd::arithmetic::div_mod::lemma_fundamental_div_mod_converse(p, n, k as int, l as int);
        let (now, before) = (transposed(all.take(p + 1)), transposed(all.take(p)));
        assert(now.drop_last() =~= before);
        assert(now.last() == (l as usize, k as usize, harmonic_mass(
            mass,
            harmonics,
            k as int,
            l as int,
        )));
    }
}

/// A row of the transposed harmonic entries pairs the mass of the harmonic with the vector.
proof fn lemma_harmonic_row<T: Scalar>(
    mass: Seq<(usize, usize, T)>,
    harmonics: Seq<Vec<T>>,
    nrows: nat,
    x: Seq<T>,
    c: int,
)
    requires
        commutative_ring::<T>(),
        0 <= c < harmonics.len(),
        nrows * harmonics.len() <= usize::MAX,
        nrows <= usize::MAX,
        harmonics.len() <= usize::MAX,
    ensures
        row_dot(transposed(harmonic_entries(mass, harmonics, nrows, 0, 0)), x, c) == sum_products(
            |r: int| harmonic_mass(mass, harmonics, r, c),
            |r: int| x[r],
            nrows as int,
        ),
    decreases nrows,
{
    let n = harmonics.len() as int;
    let all = harmonic_entries(mass, harmonics, nrows, 0, 0);
    if nrows == 0 {
        assert(all.len() == 0);
        assert(transposed(all).len() == 0);
    } else {
        let k = (nrows - 1) as nat;
        assert(nrows * harmonics.len() == k * n + n) by (nonlinear_arith)
            requires
                nrows == k + 1,
                n == harmonics.len(),
        ;
        lemma_harmonic_row(mass, harmonics, k, x, c);
        lemma_last_row(mass, harmonics, k, x, c, harmonics.len());
        assert(all.take(k * n + n) =~= all);
        assert(all.take(k * n) =~= harmonic_entries(mass, harmonics, k, 0, 0));
    }
}

/// Every position on the free dofs is that of a dof.
proof fn lemma_dof_at(mask: Seq<bool>, n: int, k: int) -> (r: int)
    requires
        0 <= n <= mask.len(),
        0 <= k < unset_before(mask, n),
    ensures
        0 <= r < n,
        !mask[r],
        unset_before(mask, r) == k,
    decreases n,
{
    if k < unset_before(mask, n - 1) {
        lemma_dof_at(mask, n - 1, k)
    } else {
        n - 1
    }
}

proof fn lemma_dot_is_sum<T: Scalar>(a: Seq<T>, b: Seq<T>, n: int)
    ensures
        dot_values(a, b, n) == sum_products(|i: int| a[i], |i: int| b[i], n),
    decreases n,
{
    if n > 0 {
        lemma_dot_is_sum(a, b, n - 1);
    }
}

/// A matrix that pairs vectors in either order.
pub open spec fn pairs_symmetrically<T: Scalar>(m: Seq<(usize, usize, T)>, n: nat) -> bool {
    forall|x: Seq<T>, y: Seq<T>|
        x.len() == n && y.len() == n ==> #[trigger] pairing(x, matrix_times(m, n, y)) == pairing(
            y,
            matrix_times(m, n, x),
        )
}

/// The harmonic constraint is orthogonality: where its equation holds for the free values of the
/// second unknown, the mass of all values, the prescribed ones too, is orthogonal to the harmonic
/// form on the free dofs. The mass has to be symmetric there.
pub proof fn harmonic_constraint_is_orthogonality<T: Scalar>(
    galmats: MixedGalmats<T>,
    u_mask: Seq<bool>,
    u_data: Seq<T>,
    harmonics: Seq<Vec<T>>,
    free: Seq<T>,
    c: int,
)
    requires
        commutative_ring::<T>(),
        galmats.wf(),
        u_mask.len() == galmats.mass_u.rows(),
        u_mask.len() <= usize::MAX,
        free.len() == free_count(u_mask),
        0 <= c < harmonics.len() <= usize::MAX,
        harmonics[c]@.len() == free_count(u_mask),
        free_count(u_mask) * harmonics.len() <= usize::MAX,
        pairs_symmetrically(galmats.free_mass_u(u_mask), free_count(u_mask)),
        row_dot(
            transposed(
                harmonic_entries(
                    galmats.free_mass_u(u_mask),
                    harmonics,
                    free_count(u_mask),
                    0,
                    0,
                ),
            ),
            free,
            c,
        ) == galmats.harmonic_rhs(u_mask, u_data, harmonics)[c],
    ensures
        pairing(
            harmonics[c]@,
            kept_values(
                matrix_times(
                    galmats.mass_u.entries(),
                    u_mask.len(),
                    all_values(free, u_mask, u_data),
                ),
                u_mask,
            ),
        ) == T::zero_spec(),
{
    let nu = u_mask.len() as int;
    let nf = free_count(u_mask);
    let n = nf as int;
    let full = galmats.mass_u.entries();
    let plain = restricted(full, u_mask, u_mask);
    let mass = galmats.free_mass_u(u_mask);
    let h = harmonics[c]@;
    unset_before_bound(u_mask, nu);
    lemma_restricted_within(full, u_mask, u_mask);
    let all = all_values(free, u_mask, u_data);
    let image = matrix_times(full, u_mask.len(), all);
    let known = Seq::new(
        galmats.mass_u.rows(),
        |r: int| moved_to_rhs(T::zero_spec(), full, masked_pairs(u_mask, u_data), r),
    );
    let (w, moved) = (kept_values(image, u_mask), kept_values(known, u_mask));
    kept_values_positions(image, u_mask);
    kept_values_positions(known, u_mask);
    let y = matrix_times(mass, nf, free);
    let mh = matrix_times(mass, nf, h);
    lemma_harmonic_row(mass, harmonics, nf, free, c);
    sum_products_same(
        |r: int| harmonic_mass(mass, harmonics, r, c),
        |r: int| free[r],
        |r: int| mh[r],
        |r: int| free[r],
        n,
    );
    products_commute(|r: int| mh[r], |r: int| free[r], n);
    // pairing(free, M h) == pairing(h, M free)
    assert(pairing(free, mh) == pairing(h, y));
    lemma_dot_is_sum(h, moved, n);
    assert(pairing(h, y) == pairing(h, moved));
    let (hk, yk) = (|k: int| h[k], |k: int| y[k]);
    let (wk, mk) = (|k: int| w[k], |k: int| moved[k]);
    let both = |k: int| wk(k).plus_spec(mk(k));
    assert forall|k: int| 0 <= k < n implies yk(k) == #[trigger] both(k) by {
        let r = lemma_dof_at(u_mask, nu, k);
        lemma_block_row(T::zero_spec(), full, u_mask, u_mask, u_data, free, r);
        row_compressed(plain, n, n, free, k);
        let v = row_dot(plain, free, k);
        ring_plus(v, v, v);
        assert(w[unset_before(u_mask, r) as int] == image[r]);
        assert(moved[unset_before(u_mask, r) as int] == known[r]);
    }
    sum_products_same(hk, yk, hk, both, n);
    products_commute(hk, both, n);
    products_of_sums(wk, mk, hk, n);
    products_commute(wk, hk, n);
    products_commute(mk, hk, n);
    let (a, b) = (pairing(h, w), pairing(h, moved));
    assert(a.plus_spec(b) == b);
    ring_plus(T::zero_spec(), b, b);
    ring_plus(b, b, b);
    ring_cancels(a, T::zero_spec(), b);
}

} // verus!
