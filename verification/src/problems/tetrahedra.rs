//! Tetrahedra with the values and curls of their edge functions.

use crate::linalg::algebra::{reciprocal_spec, VALUE_RESOLUTION};
use crate::linalg::algebra::reciprocal;
use crate::exterior::exterior_dim_spec;
use crate::linalg::dense::DenseMatrix;
use crate::linalg::minors::{are_choices, is_matrix};
use crate::linalg::ring::commutative_ring;
use crate::linalg::scalar::Scalar;
use crate::linalg::space_law::{
    form_on_pair, form_on_vector, lemma_flux_through_parallelogram,
};
use crate::linalg::vec3::{cross3_spec, dot3_spec};
use crate::operators::quadrature_elements::{whitney_table, whitney_value, whitney_values};
use crate::operators::reference::{
    factorial_spec, reference_fits, reference_sizes, standard_subsimps, standard_subsimps_spec,
    wedge, wedge_of,
};
use crate::operators::weights::SimplexQuadRule;
use crate::problems::flux_elements::FluxElement;
use crate::text::{decimal, first_fault, first_fault_ends, first_fault_step};
use crate::text::{owned, push_decimal};
use crate::topology::complex::Complex;
use crate::topology::simplex::{binomial, simplex_views};
use crate::whitney::{
    dif_whitney_value, lift_form, lifted, low_degrees_fit, reference_barycenter,
};
use vstd::prelude::*;
use vstd::string::*;

verus! {

/// The volume and the barycenter of a cell, and for each of its edges the coefficients of the
/// edge function at the barycenter and of its derivative.
#[derive(Debug, Clone, PartialEq)]
pub struct CellForms<T> {
    pub volume: T,
    pub barycenter: [T; 3],
    pub one_forms: Vec<Vec<T>>,
    pub two_forms: Vec<Vec<T>>,
}

/// A tetrahedron in space: its volume and barycenter, and the maps that take one-forms and
/// two-forms of the reference simplex to space.
#[derive(Debug, Clone, PartialEq)]
pub struct CellGeometry<T> {
    pub volume: T,
    pub barycenter: [T; 3],
    pub lift_1: DenseMatrix<T>,
    pub lift_2: DenseMatrix<T>,
}

impl<T: Scalar> CellGeometry<T> {
    /// Both maps are between spaces of three dimensions.
    pub open spec fn wf(&self) -> bool {
        &&& self.lift_1.wf() && self.lift_1.rows() == 3 && self.lift_1.cols() == 3
        &&& self.lift_2.wf() && self.lift_2.rows() == 3 && self.lift_2.cols() == 3
    }

    /// The coefficients of an edge function at the barycenter.
    pub open spec fn edge_form(&self, edge: int) -> Seq<T> {
        let sets = standard_subsimps_spec(3, 1);
        lifted(
            self.lift_1,
            Seq::new(
                3,
                |b: int| whitney_value(3, sets[edge], reference_barycenter::<T>(3), b),
            ),
        )
    }

    /// The coefficients of the derivative of an edge function.
    pub open spec fn edge_derivative(&self, edge: int) -> Seq<T> {
        let sets = standard_subsimps_spec(3, 1);
        lifted(self.lift_2, Seq::new(3, |b: int| dif_whitney_value(3, sets[edge], b)))
    }
}

/// The numbers of edges of a tetrahedron, and of the basis forms of space.
pub proof fn forms_of_space()
    ensures
        reference_fits(3, 1),
        binomial(4, 2) == 6,
        exterior_dim_spec(3, 1) == 3,
        exterior_dim_spec(3, 2) == 3,
        factorial_spec(2) == 2,
{
    low_degrees_fit(3, 1);
    reveal_with_fuel(binomial, 6);
    reveal_with_fuel(factorial_spec, 3);
}

/// The values and derivatives of the edge functions of a tetrahedron.
pub fn cell_forms<T: Scalar>(geometry: &CellGeometry<T>) -> (forms: CellForms<T>)
    requires
        geometry.wf(),
    ensures
        forms.volume == geometry.volume,
        forms.barycenter == geometry.barycenter,
        forms_match(forms, 6),
        forall|e: int| 0 <= e < 6 ==> (#[trigger] forms.one_forms@[e])@ == geometry.edge_form(e),
        forall|e: int|
            0 <= e < 6 ==> (#[trigger] forms.two_forms@[e])@ == geometry.edge_derivative(e),
{
    let ghost sets = standard_subsimps_spec(3, 1);
    proof {
        forms_of_space();
        reference_sizes(3, 1);
    }
    let rule: SimplexQuadRule<T> = SimplexQuadRule::barycentric(3);
    let point = rule.points[0].as_slice();
    let ghost center = reference_barycenter::<T>(3);
    proof {
        assert(point@ =~= center);
    }
    let table = whitney_values(3, 1, point);
    let edges = standard_subsimps(3, 1);
    let scale = T::from_count(2);
    let mut one_forms: Vec<Vec<T>> = Vec::new();
    let mut two_forms: Vec<Vec<T>> = Vec::new();
    let mut e: usize = 0;
    while e < 6
        invariant
            e <= 6,
            geometry.wf(),
            sets == standard_subsimps_spec(3, 1),
            sets.len() == 6,
            edges@.len() == 6,
            simplex_views(edges@) == sets,
            are_choices(sets, 2, 4),
            center == reference_barycenter::<T>(3),
            is_matrix(table, 3, 6, whitney_table(3, 1, center)),
            exterior_dim_spec(3, 2) == 3,
            scale == T::from_count_spec(2),
            factorial_spec(2) == 2,
            one_forms@.len() == e,
            two_forms@.len() == e,
            forall|k: int|
                0 <= k < e ==> (#[trigger] one_forms@[k])@ == geometry.edge_form(k),
            forall|k: int|
                0 <= k < e ==> (#[trigger] two_forms@[k])@ == geometry.edge_derivative(k),
        decreases 6 - e,
    {
        proof {
            assert(sets[e as int] == edges@[e as int]@);
        }
        let wedge_coeffs: Vec<T> = wedge_of(3, edges[e].vertices.as_slice());
        let mut value: Vec<T> = Vec::new();
        let mut derivative: Vec<T> = Vec::new();
        let mut b: usize = 0;
        while b < 3
            invariant
                b <= 3,
                e < 6,
                sets == standard_subsimps_spec(3, 1),
                sets.len() == 6,
                sets[e as int].len() == 2,
                is_matrix(table, 3, 6, whitney_table(3, 1, center)),
                wedge_coeffs@ == wedge::<T>(3, sets[e as int]),
                wedge_coeffs@.len() == 3,
                scale == T::from_count_spec(2),
                factorial_spec(2) == 2,
                value@.len() == b,
                derivative@.len() == b,
                forall|k: int|
                    0 <= k < b ==> #[trigger] value@[k] == whitney_value(
                        3,
                        sets[e as int],
                        center,
                        k,
                    ),
                forall|k: int|
                    0 <= k < b ==> #[trigger] derivative@[k] == dif_whitney_value::<T>(
                        3,
                        sets[e as int],
                        k,
                    ),
            decreases 3 - b,
        {
            value.push(table.get(b, e));
            derivative.push(scale.times(wedge_coeffs[b]));
            b = b + 1;
        }
        proof {
            assert(value@ =~= Seq::new(3, |b: int| whitney_value(3, sets[e as int], center, b)));
            assert(derivative@ =~= Seq::new(
                3,
                |b: int| dif_whitney_value::<T>(3, sets[e as int], b),
            ));
        }
        one_forms.push(lift_form(&geometry.lift_1, &value));
        two_forms.push(lift_form(&geometry.lift_2, &derivative));
        e = e + 1;
    }
    CellForms { volume: geometry.volume, barycenter: geometry.barycenter, one_forms, two_forms }
}

/// A tetrahedron: the fluxes of its edge functions are their curls.
#[derive(Debug, Clone, PartialEq)]
pub struct TetrahedronElement<T> {
    pub element: FluxElement<T>,
    pub values: Vec<Vec<T>>,
    pub barycenter: [T; 3],
}

/// The vector of a one-form.
pub open spec fn one_form_vector<T: Scalar>(coeffs: Seq<T>) -> Seq<T> {
    seq![coeffs[0], coeffs[1], coeffs[2]]
}

/// The vector of a two-form.
pub open spec fn two_form_vector<T: Scalar>(coeffs: Seq<T>) -> Seq<T> {
    seq![coeffs[2], coeffs[1].negated_spec(), coeffs[0]]
}

/// The value of a two-form on any two vectors is the flux of its vector through the
/// parallelogram that they span; that of a one-form is the product with its vector.
pub proof fn curl_gives_the_flux<T: Scalar>(coeffs: Seq<T>, a: Seq<T>, b: Seq<T>)
    requires
        commutative_ring::<T>(),
    ensures
        form_on_pair(coeffs, a, b) == dot3_spec(two_form_vector(coeffs), cross3_spec(a, b)),
        form_on_vector(coeffs, a) == dot3_spec(one_form_vector(coeffs), a),
{
    lemma_flux_through_parallelogram(two_form_vector(coeffs), coeffs, a, b);
}

/// The vector of a one-form.
pub fn one_form_coeffs_to_vector<T: Scalar>(coeffs: &[T]) -> (vector: Vec<T>)
    requires
        coeffs@.len() == 3,
    ensures
        vector@ == one_form_vector(coeffs@),
        forall|a: Seq<T>| #[trigger] dot3_spec(vector@, a) == form_on_vector(coeffs@, a),
{
    let mut vector: Vec<T> = Vec::new();
    vector.push(coeffs[0]);
    vector.push(coeffs[1]);
    vector.push(coeffs[2]);
    proof {
        assert(vector@ =~= one_form_vector(coeffs@));
    }
    vector
}

/// The vector of a two-form.
pub fn two_form_coeffs_to_vector<T: Scalar>(coeffs: &[T]) -> (vector: Vec<T>)
    requires
        coeffs@.len() == 3,
    ensures
        vector@ == two_form_vector(coeffs@),
        commutative_ring::<T>() ==> forall|a: Seq<T>, b: Seq<T>| #[trigger]
            dot3_spec(vector@, cross3_spec(a, b)) == form_on_pair(coeffs@, a, b),
{
    let mut vector: Vec<T> = Vec::new();
    vector.push(coeffs[2]);
    vector.push(coeffs[1].negated());
    vector.push(coeffs[0]);
    proof {
        assert(vector@ =~= two_form_vector(coeffs@));
        if commutative_ring::<T>() {
            assert forall|a: Seq<T>, b: Seq<T>| #[trigger]
                dot3_spec(vector@, cross3_spec(a, b)) == form_on_pair(coeffs@, a, b) by {
                curl_gives_the_flux(coeffs@, a, b);
            }
        }
    }
    vector
}

/// What is wrong with the forms of an edge.
pub open spec fn form_fault<T: Scalar>(forms: CellForms<T>, l: int) -> Option<Seq<char>> {
    if forms.one_forms@[l]@.len() != 3 {
        Some(
            "expected three 1-form coefficients for a 3D Whitney value, found "@ + decimal(
                forms.one_forms@[l]@.len(),
            ),
        )
    } else if forms.two_forms@[l]@.len() != 3 {
        Some(
            "expected three 2-form coefficients for a 3D Whitney curl, found "@ + decimal(
                forms.two_forms@[l]@.len(),
            ),
        )
    } else {
        None
    }
}

/// What is wrong with a cell.
pub open spec fn tetrahedron_fault<T: Scalar>(
    name: Seq<char>,
    nvertices: nat,
    edges: Seq<usize>,
    forms: CellForms<T>,
) -> Option<Seq<char>> {
    let faulty = first_fault(Seq::new(edges.len(), |l: int| form_fault(forms, l)));
    if nvertices != 4 {
        Some(name + " expects tetrahedral cells"@)
    } else if !forms.volume.is_finite_spec() || forms.volume.is_at_most_spec(
        reciprocal_spec::<T>(VALUE_RESOLUTION as nat),
    ) {
        Some(name + " encountered a degenerate tetrahedron"@)
    } else if faulty is Some {
        faulty
    } else if edges.len() != 6 {
        Some("tetrahedral cells must have six edge dofs"@)
    } else {
        None
    }
}

/// The tetrahedron with the given edges and forms.
pub open spec fn is_tetrahedron<T: Scalar>(
    element: FluxElement<T>,
    values: Seq<Vec<T>>,
    edges: Seq<usize>,
    forms: CellForms<T>,
) -> bool {
    &&& element.dofs@ == edges
    &&& element.measure == forms.volume
    &&& element.shapes@.len() == edges.len()
    &&& values.len() == edges.len()
    &&& forall|l: int|
        0 <= l < edges.len() ==> (#[trigger] element.shapes@[l])@ == two_form_vector(
            forms.two_forms@[l]@,
        )
    &&& forall|l: int|
        0 <= l < edges.len() ==> (#[trigger] values[l])@ == one_form_vector(
            forms.one_forms@[l]@,
        )
}

/// There are forms for each edge.
pub open spec fn forms_match<T>(forms: CellForms<T>, nedges: nat) -> bool {
    &&& forms.one_forms@.len() == nedges
    &&& forms.two_forms@.len() == nedges
}

impl<T: Scalar> TetrahedronElement<T> {
    /// The tetrahedron with the given edges and forms, if it is not degenerate.
    pub fn from_cell(name: &str, nvertices: usize, edges: Vec<usize>, forms: &CellForms<T>) -> (
    tetrahedron: Result<Self, String>)
        requires
            forms_match(*forms, edges@.len()),
        ensures
            match tetrahedron_fault(name@, nvertices as nat, edges@, *forms) {
                Some(message) => tetrahedron matches Err(text) && text@ == message,
                None => tetrahedron matches Ok(t) && is_tetrahedron(
                    t.element,
                    t.values@,
                    edges@,
                    *forms,
                ) && t.barycenter == forms.barycenter,
            },
    {
        if nvertices != 4 {
            let mut text = owned(name);
            text.append(" expects tetrahedral cells");
            return Err(text);
        }
        if !forms.volume.is_finite() || forms.volume.is_at_most(reciprocal(VALUE_RESOLUTION)) {
            let mut text = owned(name);
            text.append(" encountered a degenerate tetrahedron");
            return Err(text);
        }
        let ghost faults = Seq::new(edges@.len(), |l: int| form_fault(*forms, l));
        let mut values: Vec<Vec<T>> = Vec::new();
        let mut shapes: Vec<Vec<T>> = Vec::new();
        let mut l: usize = 0;
        proof {
            first_fault_ends(faults);
        }
        while l < edges.len()
            invariant
                l <= edges@.len(),
                forms_match(*forms, edges@.len()),
                faults == Seq::new(edges@.len(), |i: int| form_fault(*forms, i)),
                first_fault(faults.take(l as int)) is None,
                nvertices == 4,
                forms.volume.is_finite_spec(),
                !forms.volume.is_at_most_spec(reciprocal_spec::<T>(VALUE_RESOLUTION as nat)),
                values@.len() == l,
                shapes@.len() == l,
                forall|i: int|
                    0 <= i < l ==> (#[trigger] shapes@[i])@ == two_form_vector(
                        forms.two_forms@[i]@,
                    ),
                forall|i: int|
                    0 <= i < l ==> (#[trigger] values@[i])@ == one_form_vector(
                        forms.one_forms@[i]@,
                    ),
            decreases edges@.len() - l,
        {
            proof {
                first_fault_step(faults, l as int);
            }
            if forms.one_forms[l].len() != 3 {
                let mut text = owned(
                    "expected three 1-form coefficients for a 3D Whitney value, found ",
                );
                push_decimal(&mut text, forms.one_forms[l].len());
                return Err(text);
            }
            if forms.two_forms[l].len() != 3 {
                let mut text = owned(
                    "expected three 2-form coefficients for a 3D Whitney curl, found ",
                );
                push_decimal(&mut text, forms.two_forms[l].len());
                return Err(text);
            }
            values.push(one_form_coeffs_to_vector(forms.one_forms[l].as_slice()));
            shapes.push(two_form_coeffs_to_vector(forms.two_forms[l].as_slice()));
            l = l + 1;
        }
        proof {
            first_fault_ends(faults);
        }
        if edges.len() != 6 {
            return Err(owned("tetrahedral cells must have six edge dofs"));
        }
        Ok(
            TetrahedronElement {
                element: FluxElement { dofs: edges, measure: forms.volume, shapes },
                values,
                barycenter: forms.barycenter,
            },
        )
    }
}

/// What is wrong with the cells of a mesh in space.
pub open spec fn tetrahedra_fault<T: Scalar>(
    name: Seq<char>,
    empty: Seq<char>,
    topology: &Complex,
    forms: Seq<CellForms<T>>,
) -> Option<Seq<char>> {
    let cells = topology.simplices(3);
    let faulty = first_fault(
        Seq::new(
            cells.len(),
            |i: int|
                tetrahedron_fault(name, cells[i].len(), topology.subsimplices(3, i, 1), forms[i]),
        ),
    );
    if faulty is Some {
        faulty
    } else if cells.len() == 0 {
        Some(empty)
    } else {
        None
    }
}

/// There are forms for each cell of a mesh in space.
pub open spec fn cell_forms_match<T>(topology: &Complex, forms: Seq<CellForms<T>>) -> bool {
    &&& forms.len() == topology.simplices(3).len()
    &&& forall|i: int| 0 <= i < forms.len() ==> forms_match(#[trigger] forms[i], 6)
}

/// The tetrahedra of a mesh, with values and barycenters in lists of their own.
#[derive(Debug, Clone, PartialEq)]
pub struct Tetrahedra<T> {
    pub elements: Vec<FluxElement<T>>,
    pub values: Vec<Vec<Vec<T>>>,
    pub barycenters: Vec<[T; 3]>,
}

impl<T: Scalar> Tetrahedra<T> {
    /// The lists have the same length; elements have dofs below `ndofs`, and a value of three
    /// components for each of them.
    pub open spec fn wf(&self, ndofs: int) -> bool {
        &&& self.values@.len() == self.elements@.len()
        &&& self.barycenters@.len() == self.elements@.len()
        &&& forall|e: int|
            0 <= e < self.elements@.len() ==> (#[trigger] self.elements@[e]).wf(ndofs, 3)
        &&& forall|e: int|
            0 <= e < self.elements@.len() ==> values_fit(
                (#[trigger] self.values@[e])@,
                self.elements@[e].dofs@.len(),
            )
    }

    /// The tetrahedra are those of a mesh.
    pub open spec fn is_of(&self, topology: &Complex, forms: Seq<CellForms<T>>) -> bool {
        let n = topology.simplices(3).len();
        &&& self.elements@.len() == n
        &&& self.values@.len() == n
        &&& self.barycenters@.len() == n
        &&& forall|i: int|
            0 <= i < n ==> is_tetrahedron(
                #[trigger] self.elements@[i],
                self.values@[i]@,
                topology.subsimplices(3, i, 1),
                forms[i],
            )
        &&& forall|i: int| 0 <= i < n ==> (#[trigger] self.barycenters@[i]) == forms[i].barycenter
    }
}

/// There is a value of three components for each dof.
pub open spec fn values_fit<T>(values: Seq<Vec<T>>, ndofs: nat) -> bool {
    &&& values.len() == ndofs
    &&& forall|l: int| 0 <= l < ndofs ==> (#[trigger] values[l])@.len() == 3
}

/// The tetrahedra of a mesh in space.
pub fn tetrahedra<T: Scalar>(
    name: &str,
    empty: &str,
    topology: &Complex,
    forms: &[CellForms<T>],
) -> (outcome: Result<Tetrahedra<T>, String>)
    requires
        topology.wf(),
        topology.dimension() == 3,
        cell_forms_match(topology, forms@),
    ensures
        match tetrahedra_fault(name@, empty@, topology, forms@) {
            Some(message) => outcome matches Err(text) && text@ == message,
            None => outcome matches Ok(t) && t.is_of(topology, forms@) && t.wf(
                topology.simplices(1).len() as int,
            ),
        },
{
    let ghost cells = topology.simplices(3);
    let ghost faults = Seq::new(
        cells.len(),
        |i: int|
            tetrahedron_fault(name@, cells[i].len(), topology.subsimplices(3, i, 1), forms@[i]),
    );
    let n: usize = topology.nsimplices(3);
    let mut all: Tetrahedra<T> = Tetrahedra {
        elements: Vec::new(),
        values: Vec::new(),
        barycenters: Vec::new(),
    };
    let mut i: usize = 0;
    proof {
        first_fault_ends(faults);
    }
    while i < n
        invariant
            i <= n,
            n == cells.len(),
            cells == topology.simplices(3),
            faults == Seq::new(
                cells.len(),
                |j: int|
                    tetrahedron_fault(
                        name@,
                        cells[j].len(),
                        topology.subsimplices(3, j, 1),
                        forms@[j],
                    ),
            ),
            topology.wf(),
            topology.dimension() == 3,
            cell_forms_match(topology, forms@),
            first_fault(faults.take(i as int)) is None,
            all.elements@.len() == i,
            all.values@.len() == i,
            all.barycenters@.len() == i,
            forall|j: int|
                0 <= j < i ==> is_tetrahedron(
                    #[trigger] all.elements@[j],
                    all.values@[j]@,
                    topology.subsimplices(3, j, 1),
                    forms@[j],
                ),
            forall|j: int|
                0 <= j < i ==> (#[trigger] all.barycenters@[j]) == forms@[j].barycenter,
            all.wf(topology.simplices(1).len() as int),
        decreases n - i,
    {
        let cell = topology.simplex_at(3, i);
        let edges = topology.subsimplex_indices(3, i, 1);
        proof {
            first_fault_step(faults, i as int);
            topology.simplex_facts(3);
            assert(cells[i as int].len() == 4);
            crate::topology::simplex::combinations_count(cells[i as int], 2);
            assert(binomial(4, 2) == 6) by {
                reveal_with_fuel(binomial, 5);
            }
            assert(forms_match(forms@[i as int], 6));
        }
        let ghost members = edges@;
        match TetrahedronElement::from_cell(name, cell.vertices.len(), edges, &forms[i]) {
            Err(text) => return Err(text),
            Ok(tetrahedron) => {
                let ghost before = all;
                proof {
                    assert forall|l: int| 0 <= l < members.len() implies (
                    #[trigger] tetrahedron.element.dofs@[l]) < topology.simplices(1).len() by {
                        assert(members[l] < topology.simplices(1).len());
                    }
                    assert(tetrahedron.element.wf(topology.simplices(1).len() as int, 3));
                    assert(values_fit(tetrahedron.values@, members.len()));
                }
                all.elements.push(tetrahedron.element);
                all.values.push(tetrahedron.values);
                all.barycenters.push(tetrahedron.barycenter);
                proof {
                    assert forall|j: int| 0 <= j < i + 1 implies is_tetrahedron(
                        #[trigger] all.elements@[j],
                        all.values@[j]@,
                        topology.subsimplices(3, j, 1),
                        forms@[j],
                    ) by {
                        if j < i {
                            assert(all.elements@[j] == before.elements@[j]);
                            assert(all.values@[j] == before.values@[j]);
                        }
                    }
                    assert forall|j: int| 0 <= j < i + 1 implies (
                    #[trigger] all.barycenters@[j]) == forms@[j].barycenter by {
                        if j < i {
                            assert(all.barycenters@[j] == before.barycenters@[j]);
                        }
                    }
                    assert forall|j: int| 0 <= j < i + 1 implies values_fit(
                        (#[trigger] all.values@[j])@,
                        all.elements@[j].dofs@.len(),
                    ) by {
                        if j < i {
                            assert(all.values@[j] == before.values@[j]);
                            assert(all.elements@[j] == before.elements@[j]);
                        }
                    }
                }
            },
        }
        i = i + 1;
    }
    proof {
        first_fault_ends(faults);
    }
    if n == 0 {
        return Err(owned(empty));
    }
    Ok(all)
}

} // verus!
