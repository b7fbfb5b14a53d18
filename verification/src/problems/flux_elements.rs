//! Assembly of residuals and Jacobians from elements on each of which the flux is constant.

use crate::linalg::algebra::{nonzero, row_total};
use crate::linalg::algebra::{csr_from_triplets, drop_zeros, zero_vector};
use crate::linalg::csr::compressed;
use crate::linalg::csr::CsrMatrix;
use crate::linalg::scalar::Scalar;
use crate::linalg::sparse::triplets_within;
use crate::problems::layout::reduced_position;
use crate::problems::layout::reduced_index_map;
use crate::reduction::DofLayout;
use crate::text::decimal;
use crate::text::{owned, push_decimal};
use vstd::prelude::*;
use vstd::string::*;

verus! {

/// An element with its dofs, its measure, and for each dof the flux of its shape function.
#[derive(Debug, Clone, PartialEq)]
pub struct FluxElement<T> {
    pub dofs: Vec<usize>,
    pub measure: T,
    pub shapes: Vec<Vec<T>>,
}

/// What the material makes of the flux on an element.
#[derive(Debug, Clone, PartialEq)]
pub struct MaterialPoint<T> {
    pub flux: Vec<T>,
    pub nu: T,
    pub dnu: T,
}

/// The inner product of the first `n` components, of which there is at least one.
pub open spec fn inner<T: Scalar>(a: Seq<T>, b: Seq<T>, n: int) -> T
    decreases n,
{
    if n <= 1 {
        a[0].times_spec(b[0])
    } else {
        inner(a, b, n - 1).plus_spec(a[n - 1].times_spec(b[n - 1]))
    }
}

/// The inner product of two vectors.
pub fn inner_product<T: Scalar>(a: &[T], b: &[T]) -> (r: T)
    requires
        a@.len() == b@.len(),
        a@.len() >= 1,
    ensures
        r == inner(a@, b@, a@.len() as int),
{
    let mut r = a[0].times(b[0]);
    let mut i: usize = 1;
    while i < a.len()
        invariant
            1 <= i <= a@.len(),
            a@.len() == b@.len(),
            r == inner(a@, b@, i as int),
        decreases a@.len() - i,
    {
        r = r.plus(a[i].times(b[i]));
        i = i + 1;
    }
    r
}

impl<T: Scalar> FluxElement<T> {
    /// There is a shape function with `dim` components for each dof, and dofs are below `ndofs`.
    pub open spec fn wf(&self, ndofs: int, dim: int) -> bool {
        &&& dim >= 1
        &&& self.shapes@.len() == self.dofs@.len()
        &&& forall|l: int| 0 <= l < self.dofs@.len() ==> (#[trigger] self.dofs@[l]) < ndofs
        &&& forall|l: int| 0 <= l < self.shapes@.len() ==> (#[trigger] self.shapes@[l])@.len() == dim
    }

    /// A component of the flux of a state, added up over the first `n` dofs.
    pub open spec fn flux_to(&self, state: Seq<T>, k: int, n: int) -> T
        decreases n,
    {
        if n <= 0 {
            T::zero_spec()
        } else {
            self.flux_to(state, k, n - 1).plus_spec(
                state[self.dofs@[n - 1] as int].times_spec(self.shapes@[n - 1]@[k]),
            )
        }
    }

    /// The flux of a state.
    pub open spec fn flux_spec(&self, state: Seq<T>, dim: nat) -> Seq<T> {
        Seq::new(dim, |k: int| self.flux_to(state, k, self.dofs@.len() as int))
    }

    /// The flux of a state.
    pub fn flux(&self, state: &[T], dim: usize) -> (flux: Vec<T>)
        requires
            self.wf(state@.len() as int, dim as int),
        ensures
            flux@ == self.flux_spec(state@, dim as nat),
    {
        let mut flux: Vec<T> = Vec::new();
        let mut k: usize = 0;
        while k < dim
            invariant
                k <= dim,
                self.wf(state@.len() as int, dim as int),
                flux@ =~= self.flux_spec(state@, dim as nat).take(k as int),
            decreases dim - k,
        {
            let mut sum = T::zero();
            let mut l: usize = 0;
            while l < self.dofs.len()
                invariant
                    l <= self.dofs@.len(),
                    k < dim,
                    self.wf(state@.len() as int, dim as int),
                    sum == self.flux_to(state@, k as int, l as int),
                decreases self.dofs@.len() - l,
            {
                proof {
                    assert(self.dofs@[l as int] < state@.len());
                    assert(self.shapes@[l as int]@.len() == dim);
                }
                sum = sum.plus(state[self.dofs[l]].times(self.shapes[l][k]));
                l = l + 1;
            }
            flux.push(sum);
            k = k + 1;
        }
        flux
    }
}

/// A flux, its reluctivity, and how this grows with the squared flux.
pub type PointValues<T> = (Seq<T>, T, T);

impl<T> View for MaterialPoint<T> {
    type V = PointValues<T>;

    open spec fn view(&self) -> PointValues<T> {
        (self.flux@, self.nu, self.dnu)
    }
}

/// The flux with its reluctivity.
pub open spec fn weighted<T: Scalar>(point: PointValues<T>) -> Seq<T> {
    Seq::new(point.0.len(), |k: int| point.1.times_spec(point.0[k]))
}

/// How a component of the weighted flux changes with a component of the flux.
pub open spec fn tangent_at<T: Scalar>(point: PointValues<T>, i: int, j: int) -> T {
    let growth = T::from_count_spec(2).times_spec(point.2).times_spec(point.0[i]).times_spec(
        point.0[j],
    );
    if i == j {
        point.1.plus_spec(growth)
    } else {
        growth
    }
}

/// A row of the tangent.
pub open spec fn tangent_row<T: Scalar>(point: PointValues<T>, i: int) -> Seq<T> {
    Seq::new(point.0.len(), |j: int| tangent_at(point, i, j))
}

/// The tangent applied to a vector.
pub open spec fn tangent_times<T: Scalar>(point: PointValues<T>, v: Seq<T>) -> Seq<T> {
    Seq::new(point.0.len(), |i: int| inner(tangent_row(point, i), v, point.0.len() as int))
}

/// The values at each point.
pub open spec fn point_values<T>(points: Seq<MaterialPoint<T>>) -> Seq<PointValues<T>> {
    Seq::new(points.len(), |e: int| points[e]@)
}

impl<T: Scalar> MaterialPoint<T> {
    fn weighted_flux(&self) -> (products: Vec<T>)
        ensures
            products@ == weighted(self@),
    {
        let mut products: Vec<T> = Vec::new();
        let mut k: usize = 0;
        while k < self.flux.len()
            invariant
                k <= self.flux@.len(),
                products@ =~= weighted(self@).take(k as int),
            decreases self.flux@.len() - k,
        {
            products.push(self.nu.times(self.flux[k]));
            k = k + 1;
        }
        products
    }

    fn apply_tangent(&self, v: &[T]) -> (out: Vec<T>)
        requires
            v@.len() == self.flux@.len(),
            v@.len() >= 1,
        ensures
            out@ == tangent_times(self@, v@),
    {
        let two = T::from_count(2);
        let mut out: Vec<T> = Vec::new();
        let mut i: usize = 0;
        while i < self.flux.len()
            invariant
                i <= self.flux@.len(),
                v@.len() == self.flux@.len(),
                v@.len() >= 1,
                two == T::from_count_spec(2),
                out@ =~= tangent_times(self@, v@).take(i as int),
            decreases self.flux@.len() - i,
        {
            let mut row: Vec<T> = Vec::new();
            let mut j: usize = 0;
            while j < self.flux.len()
                invariant
                    i < self.flux@.len(),
                    j <= self.flux@.len(),
                    two == T::from_count_spec(2),
                    row@ =~= tangent_row(self@, i as int).take(j as int),
                decreases self.flux@.len() - j,
            {
                let growth = two.times(self.dnu).times(self.flux[i]).times(self.flux[j]);
                if i == j {
                    row.push(self.nu.plus(growth));
                } else {
                    row.push(growth);
                }
                j = j + 1;
            }
            proof {
                assert(row@ =~= tangent_row(self@, i as int));
            }
            out.push(inner_product(row.as_slice(), v));
            i = i + 1;
        }
        out
    }
}

/// What a row of an element contributes to the residual.
pub open spec fn residual_value<T: Scalar>(
    element: FluxElement<T>,
    point: PointValues<T>,
    l: int,
) -> T {
    element.measure.times_spec(
        inner(weighted(point), element.shapes@[l]@, point.0.len() as int),
    )
}

/// What a row and a column of an element contribute to the Jacobian.
pub open spec fn jacobian_value<T: Scalar>(
    element: FluxElement<T>,
    point: PointValues<T>,
    l: int,
    m: int,
) -> T {
    element.measure.times_spec(
        inner(
            element.shapes@[l]@,
            tangent_times(point, element.shapes@[m]@),
            point.0.len() as int,
        ),
    )
}

/// The contributions of the first `n` rows of an element to the residual, by active dof.
pub open spec fn element_residual<T: Scalar>(
    element: FluxElement<T>,
    point: PointValues<T>,
    active: Seq<usize>,
    n: int,
) -> Seq<(usize, usize, T)>
    decreases n,
{
    if n <= 0 {
        Seq::empty()
    } else {
        let before = element_residual(element, point, active, n - 1);
        match reduced_position(active, element.dofs@[n - 1]) {
            Some(row) => before.push((row, 0usize, residual_value(element, point, n - 1))),
            None => before,
        }
    }
}

/// The contributions of the first `n` columns of a row of an element to the Jacobian.
pub open spec fn row_jacobian<T: Scalar>(
    element: FluxElement<T>,
    point: PointValues<T>,
    active: Seq<usize>,
    l: int,
    row: usize,
    n: int,
) -> Seq<(usize, usize, T)>
    decreases n,
{
    if n <= 0 {
        Seq::empty()
    } else {
        let before = row_jacobian(element, point, active, l, row, n - 1);
        match reduced_position(active, element.dofs@[n - 1]) {
            Some(col) => before.push((row, col, jacobian_value(element, point, l, n - 1))),
            None => before,
        }
    }
}

/// The contributions of the first `n` rows of an element to the Jacobian.
pub open spec fn element_jacobian<T: Scalar>(
    element: FluxElement<T>,
    point: PointValues<T>,
    active: Seq<usize>,
    n: int,
) -> Seq<(usize, usize, T)>
    decreases n,
{
    if n <= 0 {
        Seq::empty()
    } else {
        let before = element_jacobian(element, point, active, n - 1);
        match reduced_position(active, element.dofs@[n - 1]) {
            Some(row) => before + row_jacobian(
                element,
                point,
                active,
                n - 1,
                row,
                element.dofs@.len() as int,
            ),
            None => before,
        }
    }
}

/// The contributions of the first `n` elements to the residual.
pub open spec fn residual_terms<T: Scalar>(
    elements: Seq<FluxElement<T>>,
    points: Seq<PointValues<T>>,
    active: Seq<usize>,
    n: int,
) -> Seq<(usize, usize, T)>
    decreases n,
{
    if n <= 0 {
        Seq::empty()
    } else {
        residual_terms(elements, points, active, n - 1) + element_residual(
            elements[n - 1],
            points[n - 1],
            active,
            elements[n - 1].dofs@.len() as int,
        )
    }
}

/// The contributions of the first `n` elements to the Jacobian.
pub open spec fn jacobian_terms<T: Scalar>(
    elements: Seq<FluxElement<T>>,
    points: Seq<PointValues<T>>,
    active: Seq<usize>,
    n: int,
) -> Seq<(usize, usize, T)>
    decreases n,
{
    if n <= 0 {
        Seq::empty()
    } else {
        jacobian_terms(elements, points, active, n - 1) + element_jacobian(
            elements[n - 1],
            points[n - 1],
            active,
            elements[n - 1].dofs@.len() as int,
        )
    }
}

/// What is added up in each row.
pub open spec fn row_totals<T: Scalar>(terms: Seq<(usize, usize, T)>, n: nat) -> Seq<T> {
    Seq::new(n, |r: int| row_total(terms, r))
}

/// What is added up in each row.
pub fn totals_by_row<T: Scalar>(terms: &[(usize, usize, T)], n: usize) -> (totals: Vec<T>)
    requires
        forall|i: int| 0 <= i < terms@.len() ==> (#[trigger] terms@[i]).0 < n,
    ensures
        totals@ == row_totals(terms@, n as nat),
{
    let mut totals: Vec<T> = zero_vector(n);
    let mut i: usize = 0;
    proof {
        assert(terms@.take(0) =~= Seq::<(usize, usize, T)>::empty());
    }
    while i < terms.len()
        invariant
            i <= terms@.len(),
            forall|j: int| 0 <= j < terms@.len() ==> (#[trigger] terms@[j]).0 < n,
            totals@ =~= row_totals(terms@.take(i as int), n as nat),
        decreases terms@.len() - i,
    {
        let (r, _, v): (usize, usize, T) = terms[i];
        proof {
            assert(terms@[i as int].0 < n);
            assert(terms@.take(i + 1).drop_last() =~= terms@.take(i as int));
            assert(terms@.take(i + 1).last() == terms@[i as int]);
        }
        let before = totals[r];
        totals[r] = before.plus(v);
        i = i + 1;
    }
    proof {
        assert(terms@.take(i as int) =~= terms@);
    }
    totals
}

/// A matrix from contributions: what adds up to zero is left out.
pub open spec fn accumulated<T: Scalar>(terms: Seq<(usize, usize, T)>) -> Seq<(usize, usize, T)> {
    nonzero(compressed(nonzero(terms)))
}

/// A matrix from contributions: what adds up to zero is left out.
pub fn accumulate<T: Scalar>(nrows: usize, ncols: usize, terms: &[(usize, usize, T)]) -> (m:
    CsrMatrix<T>)
    requires
        triplets_within(terms@, nrows as int, ncols as int),
    ensures
        m.wf(),
        m.rows() == nrows,
        m.cols() == ncols,
        m.entries() == accumulated(terms@),
{
    drop_zeros(&csr_from_triplets(nrows, ncols, terms))
}

/// Elements of a space with `ndofs` dofs and the material at each of them.
pub open spec fn points_match<T: Scalar>(
    elements: Seq<FluxElement<T>>,
    points: Seq<MaterialPoint<T>>,
    ndofs: int,
    dim: int,
) -> bool {
    &&& elements.len() == points.len()
    &&& forall|e: int| 0 <= e < elements.len() ==> (#[trigger] elements[e]).wf(ndofs, dim)
    &&& forall|e: int| 0 <= e < points.len() ==> (#[trigger] points[e]).flux@.len() == dim
}

fn push_element_residual<T: Scalar>(
    element: &FluxElement<T>,
    point: &MaterialPoint<T>,
    map: &[Option<usize>],
    terms: &mut Vec<(usize, usize, T)>,
    nactive: usize,
    Ghost(active): Ghost<Seq<usize>>,
)
    requires
        element.wf(map@.len() as int, point.flux@.len() as int),
        forall|i: int|
            0 <= i < map@.len() ==> #[trigger] map@[i] == reduced_position(active, i as usize),
        forall|i: int| 0 <= i < map@.len() && (#[trigger] map@[i]) is Some ==> map@[i]->0 < nactive,
        forall|i: int| 0 <= i < old(terms)@.len() ==> (#[trigger] old(terms)@[i]).0 < nactive,
    ensures
        final(terms)@ == old(terms)@ + element_residual(
            *element,
            point@,
            active,
            element.dofs@.len() as int,
        ),
        forall|i: int| 0 <= i < final(terms)@.len() ==> (#[trigger] final(terms)@[i]).0 < nactive,
{
    let ghost start = terms@;
    let products = point.weighted_flux();
    let mut l: usize = 0;
    while l < element.dofs.len()
        invariant
            l <= element.dofs@.len(),
            element.wf(map@.len() as int, point.flux@.len() as int),
            products@ == weighted(point@),
            forall|i: int|
                0 <= i < map@.len() ==> #[trigger] map@[i] == reduced_position(active, i as usize),
            forall|i: int|
                0 <= i < map@.len() && (#[trigger] map@[i]) is Some ==> map@[i]->0 < nactive,
            terms@ =~= start + element_residual(*element, point@, active, l as int),
            forall|i: int| 0 <= i < terms@.len() ==> (#[trigger] terms@[i]).0 < nactive,
        decreases element.dofs@.len() - l,
    {
        let dof: usize = element.dofs[l];
        proof {
            assert(element.dofs@[l as int] < map@.len());
            assert(element.shapes@[l as int]@.len() == point.flux@.len());
            assert(map@[dof as int] == reduced_position(active, dof));
        }
        if let Some(row) = map[dof] {
            let value = element.measure.times(
                inner_product(products.as_slice(), element.shapes[l].as_slice()),
            );
            terms.push((row, 0, value));
        }
        l = l + 1;
    }
}

fn push_row_jacobian<T: Scalar>(
    element: &FluxElement<T>,
    point: &MaterialPoint<T>,
    map: &[Option<usize>],
    l: usize,
    row: usize,
    terms: &mut Vec<(usize, usize, T)>,
    nactive: usize,
    Ghost(active): Ghost<Seq<usize>>,
)
    requires
        element.wf(map@.len() as int, point.flux@.len() as int),
        l < element.dofs@.len(),
        row < nactive,
        forall|i: int|
            0 <= i < map@.len() ==> #[trigger] map@[i] == reduced_position(active, i as usize),
        forall|i: int| 0 <= i < map@.len() && (#[trigger] map@[i]) is Some ==> map@[i]->0 < nactive,
        triplets_within(old(terms)@, nactive as int, nactive as int),
    ensures
        final(terms)@ == old(terms)@ + row_jacobian(
            *element,
            point@,
            active,
            l as int,
            row,
            element.dofs@.len() as int,
        ),
        triplets_within(final(terms)@, nactive as int, nactive as int),
{
    let ghost start = terms@;
    let mut m: usize = 0;
    while m < element.dofs.len()
        invariant
            m <= element.dofs@.len(),
            l < element.dofs@.len(),
            row < nactive,
            element.wf(map@.len() as int, point.flux@.len() as int),
            forall|i: int|
                0 <= i < map@.len() ==> #[trigger] map@[i] == reduced_position(active, i as usize),
            forall|i: int|
                0 <= i < map@.len() && (#[trigger] map@[i]) is Some ==> map@[i]->0 < nactive,
            terms@ =~= start + row_jacobian(*element, point@, active, l as int, row, m as int),
            triplets_within(terms@, nactive as int, nactive as int),
        decreases element.dofs@.len() - m,
    {
        let dof: usize = element.dofs[m];
        proof {
            assert(element.dofs@[m as int] < map@.len());
            assert(element.shapes@[m as int]@.len() == point.flux@.len());
            assert(element.shapes@[l as int]@.len() == point.flux@.len());
            assert(map@[dof as int] == reduced_position(active, dof));
        }
        if let Some(col) = map[dof] {
            let changed = point.apply_tangent(element.shapes[m].as_slice());
            let value = element.measure.times(
                inner_product(element.shapes[l].as_slice(), changed.as_slice()),
            );
            terms.push((row, col, value));
        }
        m = m + 1;
    }
}

fn push_element_jacobian<T: Scalar>(
    element: &FluxElement<T>,
    point: &MaterialPoint<T>,
    map: &[Option<usize>],
    terms: &mut Vec<(usize, usize, T)>,
    nactive: usize,
    Ghost(active): Ghost<Seq<usize>>,
)
    requires
        element.wf(map@.len() as int, point.flux@.len() as int),
        forall|i: int|
            0 <= i < map@.len() ==> #[trigger] map@[i] == reduced_position(active, i as usize),
        forall|i: int| 0 <= i < map@.len() && (#[trigger] map@[i]) is Some ==> map@[i]->0 < nactive,
        triplets_within(old(terms)@, nactive as int, nactive as int),
    ensures
        final(terms)@ == old(terms)@ + element_jacobian(
            *element,
            point@,
            active,
            element.dofs@.len() as int,
        ),
        triplets_within(final(terms)@, nactive as int, nactive as int),
{
    let ghost start = terms@;
    let mut l: usize = 0;
    while l < element.dofs.len()
        invariant
            l <= element.dofs@.len(),
            element.wf(map@.len() as int, point.flux@.len() as int),
            forall|i: int|
                0 <= i < map@.len() ==> #[trigger] map@[i] == reduced_position(active, i as usize),
            forall|i: int|
                0 <= i < map@.len() && (#[trigger] map@[i]) is Some ==> map@[i]->0 < nactive,
            terms@ =~= start + element_jacobian(*element, point@, active, l as int),
            triplets_within(terms@, nactive as int, nactive as int),
        decreases element.dofs@.len() - l,
    {
        let dof: usize = element.dofs[l];
        proof {
            assert(element.dofs@[l as int] < map@.len());
            assert(map@[dof as int] == reduced_position(active, dof));
        }
        if let Some(row) = map[dof] {
            push_row_jacobian(element, point, map, l, row, terms, nactive, Ghost(active));
        }
        l = l + 1;
    }
}

/// The residual of the fluxes on the active dofs.
pub open spec fn flux_residual<T: Scalar>(
    elements: Seq<FluxElement<T>>,
    points: Seq<PointValues<T>>,
    active: Seq<usize>,
) -> Seq<T> {
    row_totals(residual_terms(elements, points, active, elements.len() as int), active.len())
}

/// The Jacobian of the fluxes between active dofs.
pub open spec fn flux_jacobian<T: Scalar>(
    elements: Seq<FluxElement<T>>,
    points: Seq<PointValues<T>>,
    active: Seq<usize>,
) -> Seq<(usize, usize, T)> {
    accumulated(jacobian_terms(elements, points, active, elements.len() as int))
}

/// The residual of the fluxes on the active dofs of a layout.
pub fn assemble_flux_residual<T: Scalar>(
    elements: &[FluxElement<T>],
    points: &[MaterialPoint<T>],
    layout: &DofLayout<T>,
    dim: usize,
) -> (residual: Vec<T>)
    requires
        layout.wf(),
        points_match(elements@, points@, layout.full_dimension as int, dim as int),
    ensures
        residual@ == flux_residual(elements@, point_values(points@), layout.active_dofs@),
{
    let map = reduced_index_map(layout);
    let n: usize = layout.reduced_dimension();
    let ghost active = layout.active_dofs@;
    let mut terms: Vec<(usize, usize, T)> = Vec::new();
    let mut e: usize = 0;
    while e < elements.len()
        invariant
            e <= elements@.len(),
            points_match(elements@, points@, map@.len() as int, dim as int),
            forall|i: int|
                0 <= i < map@.len() ==> #[trigger] map@[i] == reduced_position(active, i as usize),
            forall|i: int| 0 <= i < map@.len() && (#[trigger] map@[i]) is Some ==> map@[i]->0 < n,
            terms@ =~= residual_terms(elements@, point_values(points@), active, e as int),
            forall|i: int| 0 <= i < terms@.len() ==> (#[trigger] terms@[i]).0 < n,
        decreases elements@.len() - e,
    {
        proof {
            assert(elements@[e as int].wf(map@.len() as int, dim as int));
            assert(points@[e as int].flux@.len() == dim);
        }
        push_element_residual(
            &elements[e],
            &points[e],
            map.as_slice(),
            &mut terms,
            n,
            Ghost(active),
        );
        e = e + 1;
    }
    totals_by_row(terms.as_slice(), n)
}

/// The Jacobian of the fluxes between active dofs of a layout.
pub fn assemble_flux_jacobian<T: Scalar>(
    elements: &[FluxElement<T>],
    points: &[MaterialPoint<T>],
    layout: &DofLayout<T>,
    dim: usize,
) -> (jacobian: CsrMatrix<T>)
    requires
        layout.wf(),
        points_match(elements@, points@, layout.full_dimension as int, dim as int),
    ensures
        jacobian.wf(),
        jacobian.rows() == layout.active_dofs@.len(),
        jacobian.cols() == layout.active_dofs@.len(),
        jacobian.entries() == flux_jacobian(elements@, point_values(points@), layout.active_dofs@),
{
    let map = reduced_index_map(layout);
    let n: usize = layout.reduced_dimension();
    let ghost active = layout.active_dofs@;
    let mut terms: Vec<(usize, usize, T)> = Vec::new();
    let mut e: usize = 0;
    while e < elements.len()
        invariant
            e <= elements@.len(),
            points_match(elements@, points@, map@.len() as int, dim as int),
            forall|i: int|
                0 <= i < map@.len() ==> #[trigger] map@[i] == reduced_position(active, i as usize),
            forall|i: int| 0 <= i < map@.len() && (#[trigger] map@[i]) is Some ==> map@[i]->0 < n,
            terms@ =~= jacobian_terms(elements@, point_values(points@), active, e as int),
            triplets_within(terms@, n as int, n as int),
        decreases elements@.len() - e,
    {
        proof {
            assert(elements@[e as int].wf(map@.len() as int, dim as int));
            assert(points@[e as int].flux@.len() == dim);
        }
        push_element_jacobian(
            &elements[e],
            &points[e],
            map.as_slice(),
            &mut terms,
            n,
            Ghost(active),
        );
        e = e + 1;
    }
    accumulate(n, n, terms.as_slice())
}

/// What is wrong with a vector on the active dofs.
pub open spec fn vector_fault<T: Scalar>(
    name: Seq<char>,
    what: Seq<char>,
    values: Seq<T>,
    dimension: nat,
) -> Option<Seq<char>> {
    if values.len() != dimension {
        Some(
            name + what + " length "@ + decimal(values.len()) + " must match active dimension "@
                + decimal(dimension),
        )
    } else if !all_finite(values) {
        Some(name + what + " must contain only finite values"@)
    } else {
        None
    }
}

/// All values are finite.
pub open spec fn all_finite<T: Scalar>(values: Seq<T>) -> bool {
    forall|i: int| 0 <= i < values.len() ==> (#[trigger] values[i]).is_finite_spec()
}

fn finite_values<T: Scalar>(values: &[T]) -> (finite: bool)
    ensures
        finite == all_finite(values@),
{
    let mut i: usize = 0;
    while i < values.len()
        invariant
            i <= values@.len(),
            forall|j: int| 0 <= j < i ==> (#[trigger] values@[j]).is_finite_spec(),
        decreases values@.len() - i,
    {
        if !values[i].is_finite() {
            return false;
        }
        i = i + 1;
    }
    true
}

/// Fails unless a vector has a finite value for each active dof.
pub fn check_vector<T: Scalar>(name: &str, what: &str, values: &[T], dimension: usize) -> (checked:
    Result<(), String>)
    ensures
        match vector_fault(name@, what@, values@, dimension as nat) {
            Some(message) => checked matches Err(text) && text@ == message,
            None => checked is Ok,
        },
{
    if values.len() != dimension {
        let mut text = owned(name);
        text.append(what);
        text.append(" length ");
        push_decimal(&mut text, values.len());
        text.append(" must match active dimension ");
        push_decimal(&mut text, dimension);
        return Err(text);
    }
    if !finite_values(values) {
        let mut text = owned(name);
        text.append(what);
        text.append(" must contain only finite values");
        return Err(text);
    }
    Ok(())
}

} // verus!
