//! What norms, errors, rates and proxies are.

use crate::assemble::reconstruction_law::divides_exactly;
use crate::exterior::exterior_dim_spec;
use crate::fe::{energy, gap_square, graph_error};
use crate::io::fields::{Cochain, MeshCoords};
use crate::io::sampling::{edge_direction, edge_proxy, norm_squared};
use crate::linalg::algebra::matrix_times;
use crate::linalg::csr::compressed;
use crate::linalg::dense::{sum_products, sum_products_same};
use crate::linalg::matrix_law::{ring_cancels, ring_opposite_of_sum, row_compressed};
use crate::linalg::products::{products_commute, products_with_zeros};
use crate::linalg::ring::{
    commutative_ring, ring_associates, ring_commutes, ring_distributes, ring_minus, ring_moves,
    ring_negated, ring_plus, ring_two, ring_units, scalar_sum, scalar_sum_same,
};
use crate::linalg::scalar::Scalar;
use crate::linalg::sparse::triplets_within;
use crate::linalg::vectors::difference_of;
use crate::operators::elements::{gramian, scalar_mass, SimplexGeometry};
use crate::output::convergence_rate_spec;
use crate::problems::derivative_law::pairing;
use crate::problems::mixed_galmats::{dot_values, mass_entries};
use crate::problems::step_law::{counts_exactly, quotient_is_product};
use crate::sparse_inverse_hodge_validation::halving_rate;
use crate::topology::complex::Complex;
use vstd::prelude::*;

verus! {

/// The square of a root is what the root was taken of.
pub open spec fn root_is_exact<T: Scalar>(v: T) -> bool {
    v.square_root_spec().times_spec(v.square_root_spec()) == v
}

proof fn lemma_dot_is_pairing<T: Scalar>(a: Seq<T>, b: Seq<T>, n: int)
    ensures
        dot_values(a, b, n) == sum_products(|i: int| a[i], |i: int| b[i], n),
    decreases n,
{
    if n > 0 {
        lemma_dot_is_pairing(a, b, n - 1);
    }
}

/// The norm of a form, squared, pairs its values with what the mass makes of them.
pub proof fn norm_pairs_with_the_mass<T: Scalar>(
    fe: Cochain<T>,
    topology: Complex,
    elmats: Seq<Vec<T>>,
)
    requires
        commutative_ring::<T>(),
        triplets_within(
            mass_entries(&topology, fe.dim as int, elmats),
            fe.coeffs@.len() as int,
            fe.coeffs@.len() as int,
        ),
        ({
            let mass = mass_entries(&topology, fe.dim as int, elmats);
            root_is_exact(
                pairing(fe.coeffs@, matrix_times(mass, fe.coeffs@.len(), fe.coeffs@)),
            )
        }),
    ensures
        energy(fe, topology, elmats).times_spec(energy(fe, topology, elmats)) == pairing(
            fe.coeffs@,
            matrix_times(
                mass_entries(&topology, fe.dim as int, elmats),
                fe.coeffs@.len(),
                fe.coeffs@,
            ),
        ),
{
    let x = fe.coeffs@;
    let n = x.len() as int;
    let mass = mass_entries(&topology, fe.dim as int, elmats);
    let (a, b) = (matrix_times(compressed(mass), x.len(), x), matrix_times(mass, x.len(), x));
    assert forall|r: int| 0 <= r < n implies #[trigger] a[r] == b[r] by {
        row_compressed(mass, n, n, x, r);
    }
    assert(a =~= b);
    lemma_dot_is_pairing(x, b, n);
}

/// Lengths of the two sides of a right angle.
pub open spec fn hypot_is_exact<T: Scalar>(a: T, b: T) -> bool {
    a.hypot_spec(b).times_spec(a.hypot_spec(b)) == a.times_spec(a).plus_spec(b.times_spec(b))
}

/// The error in the graph norm, squared, is the sum of the squared errors of the form and of its
/// derivative.
pub proof fn graph_error_adds_squares<T: Scalar>(form: T, derivative: T)
    requires
        hypot_is_exact(form, derivative),
    ensures
        graph_error(form, derivative).times_spec(graph_error(form, derivative))
            == form.times_spec(form).plus_spec(derivative.times_spec(derivative)),
{
}

/// Values without a gap have no error.
pub proof fn no_gap_no_error<T: Scalar>(geometry: SimplexGeometry<T>, grade: nat, values: Seq<T>)
    requires
        commutative_ring::<T>(),
        values.len() == exterior_dim_spec(geometry.dim as nat, grade),
    ensures
        gap_square(geometry, grade, values, values) == T::zero_spec(),
{
    let n = values.len() as int;
    let z = T::zero_spec();
    let gap = |b: int, c: int| difference_of(values, values)[b];
    let g = gramian(geometry, grade);
    let right = |q: int| gap(q, 0);
    let left = |q: int| sum_products(|p: int| gap(p, 0), |p: int| g(p, q), n);
    assert forall|q: int| 0 <= q < n implies #[trigger] right(q) == z by {
        ring_plus(values[q], z, z);
        ring_minus(z, values[q]);
    }
    products_commute(left, right, n);
    products_with_zeros(right, left, n);
}

/// Logarithms of products are sums.
pub open spec fn logarithm_adds<T: Scalar>() -> bool {
    forall|a: T, b: T| #[trigger]
        a.times_spec(b).logarithm_spec() == a.logarithm_spec().plus_spec(b.logarithm_spec())
}

/// The rate counts powers of the mesh width: each factor of the mesh widths in the quotient of
/// the errors is one more.
pub proof fn rate_counts_powers<T: Scalar>(prev_h: T, prev_error: T, h: T, error: T, rest: T)
    requires
        commutative_ring::<T>(),
        logarithm_adds::<T>(),
        prev_error.over_spec(error) == prev_h.over_spec(h).times_spec(rest),
        divides_exactly(prev_h.over_spec(h).logarithm_spec()),
    ensures
        convergence_rate_spec(prev_h, prev_error, h, error) == T::one_spec().plus_spec(
            rest.logarithm_spec().over_spec(prev_h.over_spec(h).logarithm_spec()),
        ),
{
    let d = prev_h.over_spec(h).logarithm_spec();
    let l = rest.logarithm_spec();
    let e = T::one_spec().over_spec(d);
    assert(prev_h.over_spec(h).times_spec(rest).logarithm_spec() == d.plus_spec(l));
    quotient_is_product(d, d.plus_spec(l));
    quotient_is_product(d, l);
    ring_distributes(e, d, l);
}

/// The rate of halving counts halvings: each half in the quotient of the errors is one more.
pub proof fn halving_rate_counts_halves<T: Scalar>(current: T, previous: T, half: T, rest: T)
    requires
        commutative_ring::<T>(),
        logarithm_adds::<T>(),
        T::from_count_spec(2).times_spec(half) == T::one_spec(),
        current.over_spec(previous) == half.times_spec(rest),
        divides_exactly(T::from_count_spec(2).logarithm_spec()),
    ensures
        halving_rate(current, previous) == T::one_spec().plus_spec(
            rest.logarithm_spec().over_spec(
                T::from_count_spec(2).logarithm_spec(),
            ).negated_spec(),
        ),
{
    let z = T::zero_spec();
    let one = T::one_spec();
    let two = T::from_count_spec(2);
    let d = two.logarithm_spec();
    let l = rest.logarithm_spec();
    let e = one.over_spec(d);
    // the logarithm of one is zero
    ring_units(one);
    let lo = one.logarithm_spec();
    assert(one.times_spec(one).logarithm_spec() == lo.plus_spec(lo));
    ring_plus(z, lo, lo);
    ring_plus(lo, z, z);
    ring_cancels(lo, z, lo);
    let lh = half.logarithm_spec();
    assert(two.times_spec(half).logarithm_spec() == d.plus_spec(lh));
    assert(half.times_spec(rest).logarithm_spec() == lh.plus_spec(l));
    quotient_is_product(d, lh.plus_spec(l));
    quotient_is_product(d, l);
    ring_distributes(e, lh, l);
    // lh e == -1
    ring_distributes(e, d, lh);
    ring_units(e);
    let he = lh.times_spec(e);
    let le = l.times_spec(e);
    ring_commutes(d, e);
    assert(one.plus_spec(he) == z);
    ring_opposite_of_sum(he, le);
    let n = he.negated_spec();
    ring_negated(he, he);
    ring_plus(n, he, he);
    ring_cancels(n, one, he);
}

proof fn lemma_scaled_norm<T: Scalar>(v: Seq<T>, w: Seq<T>, c: T)
    requires
        commutative_ring::<T>(),
        w.len() == v.len(),
        forall|a: int| 0 <= a < v.len() ==> #[trigger] w[a] == v[a].times_spec(c),
    ensures
        norm_squared(w) == c.times_spec(c.times_spec(norm_squared(v))),
        sum_products(|a: int| w[a], |a: int| v[a], v.len() as int) == c.times_spec(
            norm_squared(v),
        ),
    decreases v.len(),
{
    if v.len() == 0 {
        ring_units(c);
    } else {
        let n = v.len() - 1;
        let (front, scaled) = (v.drop_last(), w.drop_last());
        assert forall|a: int| 0 <= a < front.len() implies #[trigger] scaled[a]
            == front[a].times_spec(c) by {
            assert(scaled[a] == w[a]);
        }
        lemma_scaled_norm(front, scaled, c);
        sum_products_same(
            |a: int| w[a],
            |a: int| v[a],
            |a: int| scaled[a],
            |a: int| front[a],
            n,
        );
        let x = v[n];
        assert(w[n] == x.times_spec(c));
        let s = norm_squared(front);
        let xx = x.times_spec(x);
        ring_commutes(x, c);
        ring_associates(c, x, c.times_spec(x));
        ring_moves(x, c, x);
        ring_associates(c, x, x);
        ring_distributes(c, s, xx);
        ring_distributes(c, c.times_spec(s), c.times_spec(xx));
    }
}

/// The proxy of a value on an edge points along the edge, and its length is the value: where the
/// length of the edge is exact and has an inverse, its product with the edge is the value times
/// the length, and its product with itself is the square of the value.
pub proof fn proxy_points_along_the_edge<T: Scalar>(
    coords: MeshCoords<T>,
    edge: Seq<usize>,
    value: T,
)
    requires
        commutative_ring::<T>(),
        root_is_exact(norm_squared(edge_direction(coords, edge))),
        divides_exactly(norm_squared(edge_direction(coords, edge)).square_root_spec()),
        T::zero_spec().is_below_spec(
            norm_squared(edge_direction(coords, edge)).square_root_spec(),
        ),
    ensures
        ({
            let direction = edge_direction(coords, edge);
            let length = norm_squared(direction).square_root_spec();
            let proxy = edge_proxy(coords, edge, value);
            &&& pairing(proxy, direction) == value.times_spec(length)
            &&& norm_squared(proxy) == value.times_spec(value)
        }),
{
    let direction = edge_direction(coords, edge);
    let s = norm_squared(direction);
    let r = s.square_root_spec();
    let proxy = edge_proxy(coords, edge, value);
    let c = value.over_spec(r);
    lemma_scaled_norm(direction, proxy, c);
    quotient_is_product(r, value);
    // c * (r * r) == value * r
    ring_associates(c, r, r);
    // c * (value * r) == value * (c * r) == value * value
    ring_moves(c, value, r);
}

/// A row of values of which one is counted twice.
proof fn lemma_row_of_mass<T: Scalar>(v: T, i: int, n: nat)
    requires
        commutative_ring::<T>(),
        counts_exactly::<T>(),
        0 <= i,
    ensures
        scalar_sum(
            n as int,
            |j: int|
                if i == j {
                    T::from_count_spec(2).times_spec(v)
                } else {
                    v
                },
        ) == (if i < n {
            T::from_count_spec(n + 1).times_spec(v)
        } else {
            T::from_count_spec(n).times_spec(v)
        }),
    decreases n,
{
    if n == 0 {
        ring_units(v);
    } else {
        let m = (n - 1) as nat;
        lemma_row_of_mass(v, i, m);
        assert(T::from_count_spec(m + 1) == T::from_count_spec(m).plus_spec(T::one_spec()));
        assert(T::from_count_spec(n + 1) == T::from_count_spec(n).plus_spec(T::one_spec()));
        ring_two::<T>();
        let (a, one) = (T::from_count_spec(m), T::one_spec());
        ring_distributes(v, a, one);
        ring_distributes(v, T::from_count_spec(n), one);
        ring_distributes(v, one, one);
        ring_units(v);
        ring_plus(a.times_spec(v), v, v);
    }
}

proof fn lemma_counts_multiply<T: Scalar>(a: nat, b: nat)
    requires
        commutative_ring::<T>(),
        counts_exactly::<T>(),
    ensures
        T::from_count_spec(a * b) == T::from_count_spec(a).times_spec(T::from_count_spec(b)),
    decreases a,
{
    if a == 0 {
        ring_units(T::from_count_spec(b));
    } else {
        let m = (a - 1) as nat;
        lemma_counts_multiply::<T>(m, b);
        assert(a * b == m * b + b) by (nonlinear_arith)
            requires
                a == m + 1,
        ;
        lemma_counts_add::<T>(m * b, b);
        assert(T::from_count_spec(m + 1) == T::from_count_spec(m).plus_spec(T::one_spec()));
        ring_distributes(T::from_count_spec(b), T::from_count_spec(m), T::one_spec());
        ring_units(T::from_count_spec(b));
    }
}

pub(crate) proof fn lemma_counts_add<T: Scalar>(a: nat, b: nat)
    requires
        commutative_ring::<T>(),
        counts_exactly::<T>(),
    ensures
        T::from_count_spec(a + b) == T::from_count_spec(a).plus_spec(T::from_count_spec(b)),
    decreases b,
{
    if b == 0 {
        ring_plus(T::from_count_spec(a), T::zero_spec(), T::zero_spec());
    } else {
        let m = (b - 1) as nat;
        lemma_counts_add::<T>(a, m);
        assert(T::from_count_spec((a + m) + 1) == T::from_count_spec(a + m).plus_spec(
            T::one_spec(),
        ));
        assert(T::from_count_spec(m + 1) == T::from_count_spec(m).plus_spec(T::one_spec()));
        assert((a + m) + 1 == a + b);
        ring_plus(T::from_count_spec(a), T::from_count_spec(m), T::one_spec());
    }
}

/// The products of a barycentric coordinate with all of them share the volume: as many times over
/// as there are vertices, a row of the mass adds up to the volume.
pub proof fn mass_row_shares_the_volume<T: Scalar>(volume: T, dim: nat, i: int)
    requires
        commutative_ring::<T>(),
        counts_exactly::<T>(),
        divides_exactly(T::from_count_spec((dim + 1) * (dim + 2))),
        0 <= i <= dim,
    ensures
        T::from_count_spec(dim + 1).times_spec(
            scalar_sum((dim + 1) as int, |j: int| scalar_mass(volume, dim, i, j)),
        ) == volume,
{
    let count = T::from_count_spec((dim + 1) * (dim + 2));
    let v = volume.over_spec(count);
    let (a, b) = (T::from_count_spec(dim + 1), T::from_count_spec(dim + 2));
    lemma_row_of_mass(v, i, dim + 1);
    let row = |j: int| scalar_mass(volume, dim, i, j);
    let plain = |j: int|
        if i == j {
            T::from_count_spec(2).times_spec(v)
        } else {
            v
        };
    scalar_sum_same((dim + 1) as int, row, plain);
    lemma_counts_multiply::<T>(dim + 1, dim + 2);
    ring_associates(a, b, v);
    quotient_is_product(count, volume);
}

} // verus!
