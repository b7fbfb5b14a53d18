//! The nonlinear magnetostatic problem in space: the unknown is the vector potential, a
//! one-form on the edges, with a Coulomb gauge that is taken from the linear problem.

use crate::assemble::nonconforming::{blocks_match, dof_count, nc_supported};
use crate::io::fields::MeshCoords;
use crate::linalg::algebra::{negated_entries, reciprocal_spec, significant, VALUE_RESOLUTION};
use crate::linalg::algebra::{add_sparse, sparse_difference, zero_vector};
use crate::linalg::csr::compressed;
use crate::linalg::csr::CsrMatrix;
use crate::linalg::dense::DenseMatrix;
use crate::linalg::ring::exact_difference;
use crate::linalg::scalar::Scalar;
use crate::linalg::sparse::triplets_within;
use crate::linalg::vectors::difference_of;
use crate::linalg::vectors::minus;
use crate::operators::elements::SimplexGeometry;
use crate::operators::weights::integral;
use crate::operators::weights::{averaged_cell_weight, ScalarWeight, SimplexQuadRule};
use crate::problems::affine::with_affine_term;
use crate::problems::affine::add_sparse_affine_residual;
use crate::problems::flux_elements::{
    accumulated, flux_jacobian, flux_residual, inner, vector_fault,
};
use crate::problems::flux_elements::{
    accumulate, assemble_flux_jacobian, assemble_flux_residual, check_vector, inner_product,
    FluxElement,
};
use crate::problems::layout::{lifted, reduced_position};
use crate::problems::layout::{lift_reduced_with_layout, reduced_index_map};
use crate::problems::nonlinear_magnetostatic::{
    config_source_fault, config_source_values, dimension_fault, vertex_count_fault,
};
use crate::problems::nonlinear_magnetostatic::{
    check_dimension, check_vertex_count, config_source, NonlinearMagnetostaticAssemblyConfig,
};
use crate::problems::probe::{
    probed_jacobian, probed_residual, selected_fault, selected_within,
};
use crate::problems::probe::{check_selected, probe_weak_residual};
use crate::problems::reduced_linear::{is_state_layout, is_weighted_hodge, zeros_of};
use crate::problems::reduced_linear::{
    build_reduced_weighted_hodge_laplace_1form_system, build_state_layout,
    ReducedLinearPdeAssembly,
};
use crate::problems::reluctivity::{flux_squared, material_values};
use crate::problems::reluctivity::{material_points, SpatialReluctivity};
use crate::problems::residual::is_evaluation;
use crate::problems::residual::{ResidualEvaluation, ResidualModel};
use crate::problems::tetrahedra::{cell_forms_match, tetrahedra_fault};
use crate::problems::tetrahedra::{tetrahedra, CellForms, Tetrahedra};
use crate::problems::weighted_galmats::cells_match;
use crate::reduction::{ascending_indices, dof_indices, prescribed_dofs_fault};
use crate::reduction::{DofLayout, PrescribedDof};
use crate::text::{decimal, first_fault, first_fault_ends, first_fault_step};
use crate::text::{owned, push_decimal};
use crate::topology::complex::Complex;
use crate::whitney::low_degrees_fit;
use vstd::prelude::*;
use vstd::string::*;

verus! {

/// The state on all edges.
pub open spec fn full_state<T: Scalar>(layout: DofLayout<T>, state: Seq<T>) -> Seq<T> {
    lifted(
        layout.full_dimension as nat,
        layout.active_dofs@,
        layout.prescribed_dofs@,
        state,
    )
}

/// The residual of the curls of a state.
pub open spec fn curl_residual<T: Scalar, M: SpatialReluctivity<T>>(
    material: M,
    cells: Tetrahedra<T>,
    layout: DofLayout<T>,
    state: Seq<T>,
) -> Seq<T> {
    flux_residual(
        cells.elements@,
        material_values(
            material,
            cells.elements@,
            cells.barycenters@,
            full_state(layout, state),
            3,
        ),
        layout.active_dofs@,
    )
}

/// The Jacobian of the curls of a state.
pub open spec fn curl_jacobian<T: Scalar, M: SpatialReluctivity<T>>(
    material: M,
    cells: Tetrahedra<T>,
    layout: DofLayout<T>,
    state: Seq<T>,
) -> Seq<(usize, usize, T)> {
    flux_jacobian(
        cells.elements@,
        material_values(
            material,
            cells.elements@,
            cells.barycenters@,
            full_state(layout, state),
            3,
        ),
        layout.active_dofs@,
    )
}

/// The residual of the curls of a state and its Jacobian.
pub fn assemble_3d_curl_source_free<T: Scalar, M: SpatialReluctivity<T>>(
    material: &M,
    cells: &Tetrahedra<T>,
    layout: &DofLayout<T>,
    reduced_state: &[T],
) -> (evaluation: ResidualEvaluation<T>)
    requires
        layout.wf(),
        cells.wf(layout.full_dimension as int),
        reduced_state@.len() == layout.active_dofs@.len(),
    ensures
        is_evaluation(
            evaluation,
            curl_residual(*material, *cells, *layout, reduced_state@),
            curl_jacobian(*material, *cells, *layout, reduced_state@),
            layout.active_dofs@.len(),
            layout.active_dofs@.len(),
        ),
{
    let n: usize = layout.reduced_dimension();
    let full: Vec<T> = match lift_reduced_with_layout(layout, reduced_state) {
        Ok(full) => full,
        Err(_) => zero_vector(n),
    };
    let points = material_points(
        material,
        cells.elements.as_slice(),
        cells.barycenters.as_slice(),
        full.as_slice(),
        3,
    );
    ResidualEvaluation {
        residual: assemble_flux_residual(
            cells.elements.as_slice(),
            points.as_slice(),
            layout,
            3,
        ),
        jacobian: assemble_flux_jacobian(
            cells.elements.as_slice(),
            points.as_slice(),
            layout,
            3,
        ),
    }
}

/// The residual of the curls of a state.
pub fn assemble_3d_curl_source_free_residual<T: Scalar, M: SpatialReluctivity<T>>(
    material: &M,
    cells: &Tetrahedra<T>,
    layout: &DofLayout<T>,
    reduced_state: &[T],
) -> (residual: Vec<T>)
    requires
        layout.wf(),
        cells.wf(layout.full_dimension as int),
        reduced_state@.len() == layout.active_dofs@.len(),
    ensures
        residual@ == curl_residual(*material, *cells, *layout, reduced_state@),
        residual@.len() == layout.active_dofs@.len(),
{
    let n: usize = layout.reduced_dimension();
    let full: Vec<T> = match lift_reduced_with_layout(layout, reduced_state) {
        Ok(full) => full,
        Err(_) => zero_vector(n),
    };
    let points = material_points(
        material,
        cells.elements.as_slice(),
        cells.barycenters.as_slice(),
        full.as_slice(),
        3,
    );
    assemble_flux_residual(cells.elements.as_slice(), points.as_slice(), layout, 3)
}

/// What is wrong with the sensitivities of an element.
pub open spec fn sensitivity_fault<T: Scalar>(
    outcome: Result<Vec<T>, String>,
    parameter_count: nat,
) -> Option<Seq<char>> {
    match outcome {
        Err(text) => Some(text@),
        Ok(columns) => if columns@.len() != parameter_count {
            Some(
                "material sensitivity callback returned "@ + decimal(columns@.len())
                    + " columns, expected "@ + decimal(parameter_count),
            )
        } else {
            None
        },
    }
}

/// What the first `n` sensitivities contribute to a row.
pub open spec fn parameter_terms<T: Scalar>(row: usize, factor: T, columns: Seq<T>, n: int) -> Seq<
    (usize, usize, T),
>
    decreases n,
{
    if n <= 0 {
        Seq::empty()
    } else {
        parameter_terms(row, factor, columns, n - 1).push(
            (row, (n - 1) as usize, factor.times_spec(columns[n - 1])),
        )
    }
}

/// What a row of an element contributes for a unit of reluctivity.
pub open spec fn row_factor<T: Scalar>(element: FluxElement<T>, flux: Seq<T>, l: int) -> T {
    element.measure.times_spec(inner(flux, element.shapes@[l]@, 3))
}

/// What the first `n` rows of an element contribute to the sensitivities.
pub open spec fn element_sensitivity<T: Scalar>(
    element: FluxElement<T>,
    flux: Seq<T>,
    active: Seq<usize>,
    columns: Seq<T>,
    n: int,
) -> Seq<(usize, usize, T)>
    decreases n,
{
    if n <= 0 {
        Seq::empty()
    } else {
        let before = element_sensitivity(element, flux, active, columns, n - 1);
        let factor = row_factor(element, flux, n - 1);
        match reduced_position(active, element.dofs@[n - 1]) {
            Some(row) => if factor.is_zero_spec() {
                before
            } else {
                before + parameter_terms(row, factor, columns, columns.len() as int)
            },
            None => before,
        }
    }
}

/// What the first `n` elements contribute to the sensitivities.
pub open spec fn sensitivity_terms<T: Scalar>(
    elements: Seq<FluxElement<T>>,
    full: Seq<T>,
    active: Seq<usize>,
    outcomes: Seq<Result<Vec<T>, String>>,
    n: int,
) -> Seq<(usize, usize, T)>
    decreases n,
{
    if n <= 0 {
        Seq::empty()
    } else {
        sensitivity_terms(elements, full, active, outcomes, n - 1) + element_sensitivity(
            elements[n - 1],
            elements[n - 1].flux_spec(full, 3),
            active,
            outcomes[n - 1]->Ok_0@,
            elements[n - 1].dofs@.len() as int,
        )
    }
}

fn push_element_sensitivity<T: Scalar>(
    element: &FluxElement<T>,
    flux: &[T],
    map: &[Option<usize>],
    columns: &Vec<T>,
    terms: &mut Vec<(usize, usize, T)>,
    nactive: usize,
    Ghost(active): Ghost<Seq<usize>>,
)
    requires
        element.wf(map@.len() as int, 3),
        flux@.len() == 3,
        forall|i: int|
            0 <= i < map@.len() ==> #[trigger] map@[i] == reduced_position(active, i as usize),
        forall|i: int| 0 <= i < map@.len() && (#[trigger] map@[i]) is Some ==> map@[i]->0 < nactive,
        triplets_within(old(terms)@, nactive as int, columns@.len() as int),
    ensures
        final(terms)@ == old(terms)@ + element_sensitivity(
            *element,
            flux@,
            active,
            columns@,
            element.dofs@.len() as int,
        ),
        triplets_within(final(terms)@, nactive as int, columns@.len() as int),
{
    let ghost start = terms@;
    let mut l: usize = 0;
    while l < element.dofs.len()
        invariant
            l <= element.dofs@.len(),
            element.wf(map@.len() as int, 3),
            flux@.len() == 3,
            forall|i: int|
                0 <= i < map@.len() ==> #[trigger] map@[i] == reduced_position(active, i as usize),
            forall|i: int|
                0 <= i < map@.len() && (#[trigger] map@[i]) is Some ==> map@[i]->0 < nactive,
            triplets_within(terms@, nactive as int, columns@.len() as int),
            terms@ =~= start + element_sensitivity(*element, flux@, active, columns@, l as int),
        decreases element.dofs@.len() - l,
    {
        let dof: usize = element.dofs[l];
        proof {
            assert(element.dofs@[l as int] < map@.len());
            assert(element.shapes@[l as int]@.len() == 3);
            assert(map@[dof as int] == reduced_position(active, dof));
        }
        if let Some(row) = map[dof] {
            let factor = element.measure.times(
                inner_product(flux, element.shapes[l].as_slice()),
            );
            if !factor.is_zero() {
                let ghost before = terms@;
                let mut p: usize = 0;
                while p < columns.len()
                    invariant
                        p <= columns@.len(),
                        row < nactive,
                        triplets_within(terms@, nactive as int, columns@.len() as int),
                        terms@ =~= before + parameter_terms(row, factor, columns@, p as int),
                    decreases columns@.len() - p,
                {
                    terms.push((row, p, factor.times(columns[p])));
                    p = p + 1;
                }
            }
        }
        l = l + 1;
    }
}

/// The magnetostatic problem in space on its active edges.
#[derive(Debug, Clone)]
pub struct ReducedVectorPotentialMagnetostatic3d<T, M> {
    pub material: M,
    pub layout: DofLayout<T>,
    pub source: Vec<T>,
    pub cells: Tetrahedra<T>,
    pub boundary_edge_dofs: Vec<usize>,
    pub hodge_coulomb_operator: CsrMatrix<T>,
    pub hodge_coulomb_bias: Vec<T>,
    pub state_mass: CsrMatrix<T>,
    pub state_mass_inverse: Option<CsrMatrix<T>>,
}

impl<T: Scalar, M: SpatialReluctivity<T>> ReducedVectorPotentialMagnetostatic3d<T, M> {
    /// Everything belongs to the active edges.
    pub open spec fn wf(&self) -> bool {
        let n = self.layout.active_dofs@.len();
        &&& self.layout.wf()
        &&& self.source@.len() == n
        &&& self.cells.wf(self.layout.full_dimension as int)
        &&& self.hodge_coulomb_operator.wf()
        &&& self.hodge_coulomb_operator.rows() == n
        &&& self.hodge_coulomb_operator.cols() == n
        &&& self.hodge_coulomb_bias@.len() == n
        &&& self.state_mass_inverse matches Some(inverse) ==> inverse.wf() && inverse.rows() == n
            && inverse.cols() == n
    }

    /// The residual without the source for another material.
    pub open spec fn source_free_with<N: SpatialReluctivity<T>>(
        &self,
        material: N,
        state: Seq<T>,
    ) -> Seq<T> {
        with_affine_term(
            curl_residual(material, self.cells, self.layout, state),
            self.hodge_coulomb_operator.entries(),
            self.hodge_coulomb_bias@,
            state,
        )
    }

    /// The Jacobian for another material.
    pub open spec fn jacobian_with<N: SpatialReluctivity<T>>(
        &self,
        material: N,
        state: Seq<T>,
    ) -> Seq<(usize, usize, T)> {
        compressed(
            curl_jacobian(material, self.cells, self.layout, state)
                + self.hodge_coulomb_operator.entries(),
        )
    }

    pub fn reduced_dimension(&self) -> (n: usize)
        ensures
            n == self.layout.active_dofs@.len(),
    {
        self.layout.reduced_dimension()
    }

    pub fn layout(&self) -> (layout: &DofLayout<T>)
        ensures
            *layout == self.layout,
    {
        &self.layout
    }

    pub fn material(&self) -> (material: &M)
        ensures
            *material == self.material,
    {
        &self.material
    }

    pub fn source(&self) -> (source: &[T])
        ensures
            source@ == self.source@,
    {
        self.source.as_slice()
    }

    pub fn num_elements(&self) -> (n: usize)
        ensures
            n == self.cells.elements@.len(),
    {
        self.cells.elements.len()
    }

    pub fn boundary_edge_dofs(&self) -> (dofs: &[usize])
        ensures
            dofs@ == self.boundary_edge_dofs@,
    {
        self.boundary_edge_dofs.as_slice()
    }

    /// No edge is fixed by the gauge.
    pub fn gauge_edge_dofs(&self) -> (dofs: Vec<usize>)
        ensures
            dofs@.len() == 0,
    {
        Vec::new()
    }

    pub fn state_mass(&self) -> (mass: &CsrMatrix<T>)
        ensures
            *mass == self.state_mass,
    {
        &self.state_mass
    }

    pub fn state_mass_inverse(&self) -> (inverse: Option<&CsrMatrix<T>>)
        ensures
            match inverse {
                Some(m) => self.state_mass_inverse == Some(*m),
                None => self.state_mass_inverse is None,
            },
    {
        match &self.state_mass_inverse {
            Some(m) => Some(m),
            None => None,
        }
    }

    /// The problem with another source, if this has a finite value for each active edge.
    pub fn with_source(self, source: Vec<T>) -> (model: Result<Self, String>)
        requires
            self.wf(),
        ensures
            match vector_fault(
                "3D magnetostatic"@,
                " reduced source"@,
                source@,
                self.layout.active_dofs@.len(),
            ) {
                Some(message) => model matches Err(text) && text@ == message,
                None => model matches Ok(m) && m.wf() && m.source == source && m.material
                    == self.material && m.layout == self.layout && m.cells == self.cells
                    && m.boundary_edge_dofs == self.boundary_edge_dofs && m.hodge_coulomb_operator
                    == self.hodge_coulomb_operator && m.hodge_coulomb_bias
                    == self.hodge_coulomb_bias && m.state_mass == self.state_mass
                    && m.state_mass_inverse == self.state_mass_inverse,
            },
    {
        match check_vector(
            "3D magnetostatic",
            " reduced source",
            source.as_slice(),
            self.layout.reduced_dimension(),
        ) {
            Err(text) => return Err(text),
            Ok(_) => {},
        }
        Ok(
            ReducedVectorPotentialMagnetostatic3d {
                material: self.material,
                layout: self.layout,
                source,
                cells: self.cells,
                boundary_edge_dofs: self.boundary_edge_dofs,
                hodge_coulomb_operator: self.hodge_coulomb_operator,
                hodge_coulomb_bias: self.hodge_coulomb_bias,
                state_mass: self.state_mass,
                state_mass_inverse: self.state_mass_inverse,
            },
        )
    }

    /// The problem without the gauge; all else stays.
    pub fn without_coulomb_gauge(self) -> (model: Self)
        requires
            self.wf(),
        ensures
            model.wf(),
            model.hodge_coulomb_operator.entries() == Seq::<(usize, usize, T)>::empty(),
            model.hodge_coulomb_bias@ == zeros_of::<T>(self.layout.active_dofs@.len()),
            model.material == self.material,
            model.layout == self.layout,
            model.source == self.source,
            model.cells == self.cells,
            model.boundary_edge_dofs == self.boundary_edge_dofs,
            model.state_mass == self.state_mass,
            model.state_mass_inverse == self.state_mass_inverse,
    {
        let n: usize = self.layout.reduced_dimension();
        ReducedVectorPotentialMagnetostatic3d {
            material: self.material,
            layout: self.layout,
            source: self.source,
            cells: self.cells,
            boundary_edge_dofs: self.boundary_edge_dofs,
            hodge_coulomb_operator: CsrMatrix::zeros(n, n),
            hodge_coulomb_bias: zero_vector(n),
            state_mass: self.state_mass,
            state_mass_inverse: self.state_mass_inverse,
        }
    }

    fn assemble_source_free_with_material<N: SpatialReluctivity<T>>(
        &self,
        material: &N,
        reduced_state: &[T],
    ) -> (outcome: Result<ResidualEvaluation<T>, String>)
        requires
            self.wf(),
        ensures
            match self.state_fault(reduced_state@) {
                Some(message) => outcome matches Err(text) && text@ == message,
                None => outcome matches Ok(e) && is_evaluation(
                    e,
                    self.source_free_with(*material, reduced_state@),
                    self.jacobian_with(*material, reduced_state@),
                    self.layout.active_dofs@.len(),
                    self.layout.active_dofs@.len(),
                ),
            },
    {
        match check_vector(
            "3D magnetostatic",
            " state",
            reduced_state,
            self.layout.reduced_dimension(),
        ) {
            Err(text) => return Err(text),
            Ok(_) => {},
        }
        let curl = assemble_3d_curl_source_free(
            material,
            &self.cells,
            &self.layout,
            reduced_state,
        );
        let jacobian = add_sparse(&curl.jacobian, &self.hodge_coulomb_operator);
        let mut residual: Vec<T> = curl.residual;
        add_sparse_affine_residual(
            &mut residual,
            &self.hodge_coulomb_operator,
            self.hodge_coulomb_bias.as_slice(),
            reduced_state,
        );
        Ok(ResidualEvaluation { residual, jacobian })
    }

    fn assemble_source_free_residual_with_material<N: SpatialReluctivity<T>>(
        &self,
        material: &N,
        reduced_state: &[T],
    ) -> (outcome: Result<Vec<T>, String>)
        requires
            self.wf(),
        ensures
            match self.state_fault(reduced_state@) {
                Some(message) => outcome matches Err(text) && text@ == message,
                None => outcome matches Ok(residual) && residual@ == self.source_free_with(
                    *material,
                    reduced_state@,
                ) && residual@.len() == self.layout.active_dofs@.len(),
            },
    {
        match check_vector(
            "3D magnetostatic",
            " state",
            reduced_state,
            self.layout.reduced_dimension(),
        ) {
            Err(text) => return Err(text),
            Ok(_) => {},
        }
        let mut residual = assemble_3d_curl_source_free_residual(
            material,
            &self.cells,
            &self.layout,
            reduced_state,
        );
        add_sparse_affine_residual(
            &mut residual,
            &self.hodge_coulomb_operator,
            self.hodge_coulomb_bias.as_slice(),
            reduced_state,
        );
        Ok(residual)
    }

    /// The residual without the source and its Jacobian.
    pub fn source_free_residual_and_jacobian(&self, reduced_state: &[T]) -> (outcome: Result<
        ResidualEvaluation<T>,
        String,
    >)
        requires
            self.wf(),
        ensures
            match self.state_fault(reduced_state@) {
                Some(message) => outcome matches Err(text) && text@ == message,
                None => outcome matches Ok(e) && is_evaluation(
                    e,
                    self.source_free_with(self.material, reduced_state@),
                    self.jacobian_spec(reduced_state@),
                    self.layout.active_dofs@.len(),
                    self.layout.active_dofs@.len(),
                ),
            },
    {
        self.assemble_source_free_with_material(&self.material, reduced_state)
    }

    /// The residual without the source.
    pub fn source_free_residual(&self, reduced_state: &[T]) -> (outcome: Result<Vec<T>, String>)
        requires
            self.wf(),
        ensures
            match self.state_fault(reduced_state@) {
                Some(message) => outcome matches Err(text) && text@ == message,
                None => outcome matches Ok(residual) && residual@ == self.source_free_with(
                    self.material,
                    reduced_state@,
                ),
            },
    {
        self.assemble_source_free_residual_with_material(&self.material, reduced_state)
    }

    /// The source for which a state solves the problem.
    pub fn manufactured_source(&self, reduced_state: &[T]) -> (source: Result<Vec<T>, String>)
        requires
            self.wf(),
        ensures
            match self.state_fault(reduced_state@) {
                Some(message) => source matches Err(text) && text@ == message,
                None => source matches Ok(s) && s@ == self.source_free_with(
                    self.material,
                    reduced_state@,
                ),
            },
    {
        match self.source_free_residual_and_jacobian(reduced_state) {
            Err(text) => Err(text),
            Ok(evaluation) => Ok(evaluation.residual),
        }
    }

    /// The residual for another material.
    pub fn residual_with_material<N: SpatialReluctivity<T>>(
        &self,
        material: &N,
        reduced_state: &[T],
    ) -> (outcome: Result<Vec<T>, String>)
        requires
            self.wf(),
        ensures
            match self.state_fault(reduced_state@) {
                Some(message) => outcome matches Err(text) && text@ == message,
                None => outcome matches Ok(residual) && residual@ == difference_of(
                    self.source_free_with(*material, reduced_state@),
                    self.source@,
                ),
            },
    {
        match self.assemble_source_free_residual_with_material(material, reduced_state) {
            Err(text) => Err(text),
            Ok(residual) => Ok(minus(residual.as_slice(), self.source.as_slice())),
        }
    }

    /// The residual and the Jacobian for another material.
    pub fn residual_and_jacobian_with_material<N: SpatialReluctivity<T>>(
        &self,
        material: &N,
        reduced_state: &[T],
    ) -> (outcome: Result<ResidualEvaluation<T>, String>)
        requires
            self.wf(),
        ensures
            match self.state_fault(reduced_state@) {
                Some(message) => outcome matches Err(text) && text@ == message,
                None => outcome matches Ok(e) && is_evaluation(
                    e,
                    difference_of(
                        self.source_free_with(*material, reduced_state@),
                        self.source@,
                    ),
                    self.jacobian_with(*material, reduced_state@),
                    self.layout.active_dofs@.len(),
                    self.layout.active_dofs@.len(),
                ),
            },
    {
        match self.assemble_source_free_with_material(material, reduced_state) {
            Err(text) => Err(text),
            Ok(evaluation) => {
                let residual = minus(evaluation.residual.as_slice(), self.source.as_slice());
                Ok(ResidualEvaluation { residual, jacobian: evaluation.jacobian })
            },
        }
    }

    /// The squared flux of a state on each element.
    pub fn flux_squares(&self, reduced_state: &[T]) -> (squares: Result<Vec<T>, String>)
        requires
            self.wf(),
        ensures
            match self.state_fault(reduced_state@) {
                Some(message) => squares matches Err(text) && text@ == message,
                None => squares matches Ok(values) && values@ == Seq::new(
                    self.cells.elements@.len(),
                    |e: int|
                        flux_squared(
                            self.cells.elements@[e],
                            full_state(self.layout, reduced_state@),
                            3,
                        ),
                ),
            },
    {
        let n: usize = self.layout.reduced_dimension();
        match check_vector("3D magnetostatic", " state", reduced_state, n) {
            Err(text) => return Err(text),
            Ok(_) => {},
        }
        let full: Vec<T> = match lift_reduced_with_layout(&self.layout, reduced_state) {
            Ok(full) => full,
            Err(text) => return Err(text),
        };
        let mut squares: Vec<T> = Vec::new();
        let mut e: usize = 0;
        while e < self.cells.elements.len()
            invariant
                e <= self.cells.elements@.len(),
                self.cells.wf(full@.len() as int),
                squares@ =~= Seq::new(
                    e as nat,
                    |i: int| flux_squared(self.cells.elements@[i], full@, 3),
                ),
            decreases self.cells.elements@.len() - e,
        {
            proof {
                assert(self.cells.elements@[e as int].wf(full@.len() as int, 3));
            }
            let flux = self.cells.elements[e].flux(full.as_slice(), 3);
            squares.push(inner_product(flux.as_slice(), flux.as_slice()));
            e = e + 1;
        }
        Ok(squares)
    }

    /// How the residual changes with parameters of the material, from how the reluctivity of
    /// each element changes with them.
    pub fn material_sensitivity_columns_with_material(
        &self,
        reduced_state: &[T],
        parameter_count: usize,
        sensitivities: &[Result<Vec<T>, String>],
    ) -> (columns: Result<CsrMatrix<T>, String>)
        requires
            self.wf(),
            sensitivities@.len() == self.cells.elements@.len(),
        ensures
            ({
                let state = self.state_fault(reduced_state@);
                let fault = if state is Some {
                    state
                } else {
                    first_fault(
                        Seq::new(
                            sensitivities@.len(),
                            |e: int| sensitivity_fault(sensitivities@[e], parameter_count as nat),
                        ),
                    )
                };
                match fault {
                    Some(message) => columns matches Err(text) && text@ == message,
                    None => columns matches Ok(m) && m.wf() && m.rows()
                        == self.layout.active_dofs@.len() && m.cols() == parameter_count
                        && m.entries() == accumulated(
                        sensitivity_terms(
                            self.cells.elements@,
                            full_state(self.layout, reduced_state@),
                            self.layout.active_dofs@,
                            sensitivities@,
                            self.cells.elements@.len() as int,
                        ),
                    ),
                }
            }),
    {
        let n: usize = self.layout.reduced_dimension();
        match check_vector("3D magnetostatic", " state", reduced_state, n) {
            Err(text) => return Err(text),
            Ok(_) => {},
        }
        let full: Vec<T> = match lift_reduced_with_layout(&self.layout, reduced_state) {
            Ok(full) => full,
            Err(text) => return Err(text),
        };
        let map = reduced_index_map(&self.layout);
        let ghost active = self.layout.active_dofs@;
        let ghost faults = Seq::new(
            sensitivities@.len(),
            |e: int| sensitivity_fault(sensitivities@[e], parameter_count as nat),
        );
        let mut terms: Vec<(usize, usize, T)> = Vec::new();
        let mut e: usize = 0;
        proof {
            first_fault_ends(faults);
        }
        while e < self.cells.elements.len()
            invariant
                e <= self.cells.elements@.len(),
                sensitivities@.len() == self.cells.elements@.len(),
                self.state_fault(reduced_state@) is None,
                faults == Seq::new(
                    sensitivities@.len(),
                    |i: int| sensitivity_fault(sensitivities@[i], parameter_count as nat),
                ),
                first_fault(faults.take(e as int)) is None,
                full@ == full_state(self.layout, reduced_state@),
                active == self.layout.active_dofs@,
                map@.len() == full@.len(),
                self.cells.wf(full@.len() as int),
                forall|i: int|
                    0 <= i < map@.len() ==> #[trigger] map@[i] == reduced_position(
                        active,
                        i as usize,
                    ),
                forall|i: int|
                    0 <= i < map@.len() && (#[trigger] map@[i]) is Some ==> map@[i]->0 < n,
                triplets_within(terms@, n as int, parameter_count as int),
                terms@ =~= sensitivity_terms(
                    self.cells.elements@,
                    full@,
                    active,
                    sensitivities@,
                    e as int,
                ),
            decreases self.cells.elements@.len() - e,
        {
            let element = &self.cells.elements[e];
            proof {
                assert(self.cells.elements@[e as int].wf(full@.len() as int, 3));
                first_fault_step(faults, e as int);
            }
            let flux = element.flux(full.as_slice(), 3);
            match &sensitivities[e] {
                Err(text) => return Err(owned(text.as_str())),
                Ok(columns) => {
                    if columns.len() != parameter_count {
                        let mut text = owned("material sensitivity callback returned ");
                        push_decimal(&mut text, columns.len());
                        text.append(" columns, expected ");
                        push_decimal(&mut text, parameter_count);
                        return Err(text);
                    }
                    push_element_sensitivity(
                        element,
                        flux.as_slice(),
                        map.as_slice(),
                        columns,
                        &mut terms,
                        n,
                        Ghost(active),
                    );
                },
            }
            e = e + 1;
        }
        proof {
            first_fault_ends(faults);
        }
        Ok(accumulate(n, parameter_count, terms.as_slice()))
    }

    /// The values on all edges.
    pub fn lift_reduced_state(&self, reduced_state: &[T]) -> (full: Result<Vec<T>, String>)
        requires
            self.wf(),
        ensures
            full is Ok <==> reduced_state@.len() == self.layout.active_dofs@.len(),
            match full {
                Ok(full) => full@ == full_state(self.layout, reduced_state@),
                Err(e) => e@ == "reduced vector length "@ + decimal(reduced_state@.len())
                    + " does not match layout active dimension "@ + decimal(
                    self.layout.active_dofs@.len(),
                ),
            },
    {
        lift_reduced_with_layout(&self.layout, reduced_state)
    }

    /// The source only shifts the residual: the derivative is that of the problem with any other
    /// source, and the residual is what the state leaves without a source, less the source.
    pub proof fn source_only_shifts(&self, other: Self, state: Seq<T>)
        requires
            other == (Self { source: other.source, ..*self }),
        ensures
            self.jacobian_spec(state) == other.jacobian_spec(state),
            self.residual_spec(state) == difference_of(
                self.source_free_with(self.material, state),
                self.source@,
            ),
            other.residual_spec(state) == difference_of(
                self.source_free_with(self.material, state),
                other.source@,
            ),
    {
    }

    /// With the source that is manufactured for a state, the residual of the state vanishes, and
    /// the derivative is that of the problem without or with another source. This holds for
    /// coefficients with exact differences.
    pub proof fn manufactured_source_solves(&self, other: Self, state: Seq<T>)
        requires
            exact_difference::<T>(),
            other == (Self { source: other.source, ..*self }),
            self.source@ == self.source_free_with(self.material, state),
        ensures
            self.residual_spec(state) == zeros_of::<T>(self.layout.active_dofs@.len()),
            self.jacobian_spec(state) == other.jacobian_spec(state),
    {
        let r = self.source_free_with(self.material, state);
        assert forall|i: int| 0 <= i < r.len() implies self.residual_spec(state)[i]
            == T::zero_spec() by {
            assert(r[i].minus_spec(r[i]) == T::zero_spec());
        }
        assert(self.residual_spec(state) =~= zeros_of::<T>(self.layout.active_dofs@.len()));
    }
}

impl<T: Scalar, M: SpatialReluctivity<T>> ResidualModel<
    T,
> for ReducedVectorPotentialMagnetostatic3d<T, M> {
    open spec fn valid(&self) -> bool {
        self.wf()
    }

    open spec fn state_dim(&self) -> nat {
        self.layout.active_dofs@.len()
    }

    open spec fn residual_dim(&self) -> nat {
        self.layout.active_dofs@.len()
    }

    open spec fn state_fault(&self, state: Seq<T>) -> Option<Seq<char>> {
        vector_fault("3D magnetostatic"@, " state"@, state, self.layout.active_dofs@.len())
    }

    open spec fn residual_spec(&self, state: Seq<T>) -> Seq<T> {
        difference_of(self.source_free_with(self.material, state), self.source@)
    }

    open spec fn jacobian_spec(&self, state: Seq<T>) -> Seq<(usize, usize, T)> {
        self.jacobian_with(self.material, state)
    }

    fn state_dimension(&self) -> (n: usize) {
        self.layout.reduced_dimension()
    }

    fn residual_dimension(&self) -> (n: usize) {
        self.layout.reduced_dimension()
    }

    fn residual(&self, state: &[T]) -> (outcome: Result<Vec<T>, String>) {
        self.residual_with_material(&self.material, state)
    }

    fn residual_and_jacobian(&self, state: &[T]) -> (outcome: Result<
        ResidualEvaluation<T>,
        String,
    >) {
        proof {
            assert(self.state_dim() == self.layout.active_dofs@.len());
            assert(self.residual_dim() == self.layout.active_dofs@.len());
        }
        self.residual_and_jacobian_with_material(&self.material, state)
    }
}

/// The residual of the problem in space at the barycenters of chosen cells.
#[derive(Debug, Clone)]
pub struct LocalMagneticStrongProbe3d<'a, T, M> {
    pub model: &'a ReducedVectorPotentialMagnetostatic3d<T, M>,
    pub selected_cells: Vec<usize>,
    pub state_mass_inverse: &'a CsrMatrix<T>,
}

/// Why there is no probe.
pub open spec fn magnetic_probe_fault<T: Scalar, M: SpatialReluctivity<T>>(
    model: ReducedVectorPotentialMagnetostatic3d<T, M>,
    selected: Seq<usize>,
) -> Option<Seq<char>> {
    let faulty = selected_fault("local magnetic"@, selected, model.cells.elements@.len());
    if faulty is Some {
        faulty
    } else if model.state_mass_inverse is None {
        Some(
            "local magnetic strong probes require the FEEC projected sparse 1-form mass inverse"@,
        )
    } else {
        None
    }
}

impl<'a, T: Scalar, M: SpatialReluctivity<T>> LocalMagneticStrongProbe3d<'a, T, M> {
    /// The model is in order, the chosen cells are there, and the residual can be numbered.
    pub open spec fn wf(&self) -> bool {
        let n = self.model.layout.active_dofs@.len();
        &&& self.model.wf()
        &&& selected_within(self.selected_cells@, self.model.cells.elements@.len())
        &&& 3 * self.selected_cells@.len() <= usize::MAX
        &&& self.state_mass_inverse.wf()
        &&& self.state_mass_inverse.rows() == n
        &&& self.state_mass_inverse.cols() == n
    }

    /// The probe of chosen cells, if these are there and none is chosen twice.
    pub fn from_vector_potential_model(
        model: &'a ReducedVectorPotentialMagnetostatic3d<T, M>,
        selected_cells: Vec<usize>,
    ) -> (probe: Result<Self, String>)
        requires
            model.wf(),
            3 * selected_cells@.len() <= usize::MAX,
        ensures
            match magnetic_probe_fault(*model, selected_cells@) {
                Some(message) => probe matches Err(text) && text@ == message,
                None => probe matches Ok(p) && p.wf() && *p.model == *model && p.selected_cells
                    == selected_cells && model.state_mass_inverse == Some(*p.state_mass_inverse),
            },
    {
        match check_selected(
            "local magnetic",
            selected_cells.as_slice(),
            model.cells.elements.len(),
        ) {
            Err(text) => return Err(text),
            Ok(_) => {},
        }
        match &model.state_mass_inverse {
            None => Err(
                owned(
                    "local magnetic strong probes require the FEEC projected sparse 1-form mass inverse",
                ),
            ),
            Some(inverse) => Ok(
                LocalMagneticStrongProbe3d { model, selected_cells, state_mass_inverse: inverse },
            ),
        }
    }

    pub fn selected_cells(&self) -> (cells: &[usize])
        ensures
            cells@ == self.selected_cells@,
    {
        self.selected_cells.as_slice()
    }

    pub fn cell_count(&self) -> (n: usize)
        ensures
            n == self.model.cells.elements@.len(),
    {
        self.model.cells.elements.len()
    }

    pub fn reduced_dimension(&self) -> (n: usize)
        ensures
            n == self.model.layout.active_dofs@.len(),
    {
        self.model.layout.reduced_dimension()
    }
}

impl<'a, T: Scalar, M: SpatialReluctivity<T>> ResidualModel<
    T,
> for LocalMagneticStrongProbe3d<'a, T, M> {
    open spec fn valid(&self) -> bool {
        self.wf()
    }

    open spec fn state_dim(&self) -> nat {
        self.model.layout.active_dofs@.len()
    }

    open spec fn residual_dim(&self) -> nat {
        3 * self.selected_cells@.len()
    }

    open spec fn state_fault(&self, state: Seq<T>) -> Option<Seq<char>> {
        vector_fault(
            "local magnetic strong probe"@,
            " state"@,
            state,
            self.model.layout.active_dofs@.len(),
        )
    }

    open spec fn residual_spec(&self, state: Seq<T>) -> Seq<T> {
        probed_residual(
            self.model.cells,
            self.selected_cells@,
            self.model.layout,
            self.state_mass_inverse.entries(),
            self.model.residual_spec(state),
        )
    }

    open spec fn jacobian_spec(&self, state: Seq<T>) -> Seq<(usize, usize, T)> {
        probed_jacobian(
            self.model.cells,
            self.selected_cells@,
            self.model.layout,
            self.state_mass_inverse.entries(),
            self.model.jacobian_spec(state),
        )
    }

    fn state_dimension(&self) -> (n: usize) {
        self.model.layout.reduced_dimension()
    }

    fn residual_dimension(&self) -> (n: usize) {
        3 * self.selected_cells.len()
    }

    fn residual_and_jacobian(&self, state: &[T]) -> (outcome: Result<
        ResidualEvaluation<T>,
        String,
    >) {
        match check_vector(
            "local magnetic strong probe",
            " state",
            state,
            self.model.layout.reduced_dimension(),
        ) {
            Err(text) => return Err(text),
            Ok(_) => {},
        }
        proof {
            assert(self.model.state_fault(state@) is None);
            assert(self.state_dim() == self.model.layout.active_dofs@.len());
            assert(self.residual_dim() == 3 * self.selected_cells@.len());
            assert(self.model.state_dim() == self.model.layout.active_dofs@.len());
            assert(self.model.residual_dim() == self.model.layout.active_dofs@.len());
        }
        match self.model.residual_and_jacobian(state) {
            Err(text) => Err(text),
            Ok(weak) => {
                proof {
                    assert(weak.jacobian.entries() == self.model.jacobian_spec(state@));
                    assert(self.jacobian_spec(state@) == probed_jacobian(
                        self.model.cells,
                        self.selected_cells@,
                        self.model.layout,
                        self.state_mass_inverse.entries(),
                        self.model.jacobian_spec(state@),
                    ));
                }
                probe_weak_residual(
                    &self.model.cells,
                    self.selected_cells.as_slice(),
                    &self.model.layout,
                    self.state_mass_inverse,
                    &weak,
                )
            },
        }
    }
}

/// The geometries of the cells, and blocks of the inverse of the lumped mass with the reference
/// reluctivity around the vertices.
pub struct LinearHodgeCells<'a, T> {
    pub geometries: &'a Vec<SimplexGeometry<T>>,
    pub vertex_dofs: &'a [Vec<usize>],
    pub inverse_blocks: &'a [DenseMatrix<T>],
}

impl<'a, T: Scalar> LinearHodgeCells<'a, T> {
    /// The cells belong to a mesh in space.
    pub open spec fn wf(&self, topology: &Complex) -> bool {
        topology.dimension() == 3 ==> {
            &&& cells_match(*topology, self.geometries@)
            &&& nc_supported(topology, 1)
            &&& topology.simplices(0).len() + topology.simplices(1).len() <= usize::MAX
            &&& blocks_match(self.vertex_dofs@, self.inverse_blocks@, dof_count(topology, 1))
        }
    }
}

/// The weight of a cell in the linear problem: the reluctivity at rest at the barycenter,
/// averaged by the rule with that point.
pub open spec fn rest_weight<T: Scalar, M: SpatialReluctivity<T>>(
    material: M,
    forms: CellForms<T>,
) -> ScalarWeight<T> {
    ScalarWeight {
        value: integral(
            seq![T::one_spec()],
            seq![material.linear_reference_spec(forms.barycenter@)],
            T::one_spec(),
        ),
    }
}

/// The weights of the cells in the linear problem.
pub open spec fn rest_weights<T: Scalar, M: SpatialReluctivity<T>>(
    material: M,
    forms: Seq<CellForms<T>>,
) -> Seq<ScalarWeight<T>> {
    Seq::new(forms.len(), |i: int| rest_weight(material, forms[i]))
}

fn reference_weights<T: Scalar, M: SpatialReluctivity<T>>(material: &M, forms: &[CellForms<T>]) -> (
weights: Vec<ScalarWeight<T>>)
    ensures
        weights@ == rest_weights(*material, forms@),
{
    let rule: SimplexQuadRule<T> = SimplexQuadRule::barycentric(3);
    let mut weights: Vec<ScalarWeight<T>> = Vec::new();
    let mut i: usize = 0;
    while i < forms.len()
        invariant
            i <= forms@.len(),
            rule.wf(),
            rule.weights@ == seq![T::one_spec()],
            weights@ =~= rest_weights(*material, forms@).take(i as int),
        decreases forms@.len() - i,
    {
        let value = [material.linear_reference_reluctivity(forms[i].barycenter)];
        let weight: ScalarWeight<T> = averaged_cell_weight(&rule, value.as_slice()).weight;
        proof {
            let at = material.linear_reference_spec(forms@[i as int].barycenter@);
            assert(value@ =~= seq![at]);
            assert(weight == rest_weight(*material, forms@[i as int]));
        }
        weights.push(weight);
        i = i + 1;
    }
    weights
}

/// Why there is no magnetostatic problem in space.
pub open spec fn vector_model_fault<T: Scalar, M: SpatialReluctivity<T>>(
    topology: &Complex,
    coords: MeshCoords<T>,
    forms: Seq<CellForms<T>>,
    config: NonlinearMagnetostaticAssemblyConfig<T, M>,
) -> Option<Seq<char>> {
    let nv = topology.simplices(0).len();
    let ne = topology.simplices(1).len();
    let free = (ne - config.boundary.state@.len()) as nat;
    let material = config.material.fault();
    let topology_dim = dimension_fault(
        "3D vector-potential magnetostatic model requires topology dimension 3, got "@,
        topology.dimension() as nat,
        3,
    );
    let coords_dim = dimension_fault(
        "3D vector-potential magnetostatic model requires coordinate dimension 3, got "@,
        coords.dim as nat,
        3,
    );
    let vertices = vertex_count_fault(coords.coords@.len(), nv);
    let layout = prescribed_dofs_fault("layout"@, ne, config.boundary.state@);
    let source = config_source_fault("3D magnetostatic"@, config.source, free);
    let cells = tetrahedra_fault(
        "3D vector-potential magnetostatic assembly"@,
        "3D vector-potential magnetostatic model requires at least one tetrahedron"@,
        topology,
        forms,
    );
    if material is Some {
        material
    } else if topology_dim is Some {
        topology_dim
    } else if coords_dim is Some {
        coords_dim
    } else if vertices is Some {
        vertices
    } else if layout is Some {
        layout
    } else if source is Some {
        source
    } else if cells is Some {
        cells
    } else {
        config.boundary.fault(ne, nv)
    }
}

/// The gauge: what the linear problem has beyond the curls of the zero state.
pub open spec fn is_gauged<T: Scalar, M: SpatialReluctivity<T>>(
    model: ReducedVectorPotentialMagnetostatic3d<T, M>,
    linear: ReducedLinearPdeAssembly<T>,
) -> bool {
    let zero = zeros_of::<T>(model.layout.active_dofs@.len());
    &&& model.hodge_coulomb_operator.entries() == significant(
        compressed(
            linear.operator.entries() + negated_entries(
                curl_jacobian(model.material, model.cells, model.layout, zero),
            ),
        ),
        reciprocal_spec(VALUE_RESOLUTION as nat),
    )
    &&& model.hodge_coulomb_bias@ == difference_of(
        linear.residual_bias@,
        curl_residual(model.material, model.cells, model.layout, zero),
    )
    &&& model.state_mass == linear.state_mass
    &&& model.state_mass_inverse == linear.state_mass_inverse
}

proof fn lemma_same_members(a: Seq<usize>, b: Seq<usize>)
    requires
        ascending_indices(a),
        ascending_indices(b),
        forall|v: usize| #[trigger] a.contains(v) <==> b.contains(v),
    ensures
        a == b,
    decreases a.len(),
{
    if a.len() == 0 {
        if b.len() > 0 {
            assert(b.contains(b[0]));
            assert(a.contains(b[0]));
        }
        assert(a =~= b);
    } else {
        let x = a.last();
        assert(a[a.len() - 1] == x);
        assert(a.contains(x));
        assert(b.contains(x));
        let j = choose|j: int| 0 <= j < b.len() && b[j] == x;
        let y = b.last();
        assert(b[b.len() - 1] == y);
        assert(b.contains(y));
        assert(a.contains(y));
        let k = choose|k: int| 0 <= k < a.len() && a[k] == y;
        if j < b.len() - 1 {
            assert(b[j] < b[b.len() - 1]);
            if k < a.len() - 1 {
                assert(a[k] < a[a.len() - 1]);
            }
        }
        assert(x == y);
        assert forall|v: usize| #[trigger] a.drop_last().contains(v) implies b.drop_last().contains(
            v,
        ) by {
            let i = choose|i: int| 0 <= i < a.len() - 1 && a.drop_last()[i] == v;
            assert(a[i] < a[a.len() - 1]);
            assert(a.contains(a[i]));
            assert(b.contains(v));
            let l = choose|l: int| 0 <= l < b.len() && b[l] == v;
            assert(b.drop_last()[l] == v);
        }
        assert forall|v: usize| #[trigger] b.drop_last().contains(v) implies a.drop_last().contains(
            v,
        ) by {
            let i = choose|i: int| 0 <= i < b.len() - 1 && b.drop_last()[i] == v;
            assert(b[i] < b[b.len() - 1]);
            assert(b.contains(b[i]));
            assert(a.contains(v));
            let l = choose|l: int| 0 <= l < a.len() && a[l] == v;
            assert(a.drop_last()[l] == v);
        }
        assert forall|v: usize| #[trigger]
            a.drop_last().contains(v) <==> b.drop_last().contains(v) by {}
        lemma_same_members(a.drop_last(), b.drop_last());
        assert(a =~= a.drop_last().push(x));
        assert(b =~= b.drop_last().push(y));
    }
}

/// The prescribed dofs of a space leave one layout.
pub proof fn state_layout_unique<T: Scalar>(
    a: DofLayout<T>,
    b: DofLayout<T>,
    n: nat,
    prescribed: Seq<PrescribedDof<T>>,
)
    requires
        is_state_layout(a, n, prescribed),
        is_state_layout(b, n, prescribed),
    ensures
        a.active_dofs@ == b.active_dofs@,
{
    assert forall|v: usize| #[trigger]
        a.active_dofs@.contains(v) <==> b.active_dofs@.contains(v) by {
        if v < n {
            a.active_or_prescribed(v);
            b.active_or_prescribed(v);
        } else {
            if a.active_dofs@.contains(v) {
                let i = choose|i: int| 0 <= i < a.active_dofs@.len() && a.active_dofs@[i] == v;
                assert(a.active_dofs@[i] < n);
            }
            if b.active_dofs@.contains(v) {
                let i = choose|i: int| 0 <= i < b.active_dofs@.len() && b.active_dofs@[i] == v;
                assert(b.active_dofs@[i] < n);
            }
        }
    }
    lemma_same_members(a.active_dofs@, b.active_dofs@);
}

fn prescribed_indices<T: Scalar>(prescribed: &[PrescribedDof<T>]) -> (dofs: Vec<usize>)
    ensures
        dofs@ == dof_indices(prescribed@),
{
    let mut dofs: Vec<usize> = Vec::new();
    let mut i: usize = 0;
    while i < prescribed.len()
        invariant
            i <= prescribed@.len(),
            dofs@ =~= dof_indices(prescribed@).take(i as int),
        decreases prescribed@.len() - i,
    {
        dofs.push(prescribed[i].index);
        i = i + 1;
    }
    dofs
}

/// The magnetostatic problem in space, made of a linear problem with its gauge.
pub open spec fn is_vector_model<T: Scalar, M: SpatialReluctivity<T>>(
    model: ReducedVectorPotentialMagnetostatic3d<T, M>,
    topology: &Complex,
    forms: Seq<CellForms<T>>,
    geometry: LinearHodgeCells<T>,
    config: NonlinearMagnetostaticAssemblyConfig<T, M>,
    linear: ReducedLinearPdeAssembly<T>,
) -> bool {
    &&& model.wf()
    &&& model.material == config.material
    &&& is_state_layout(model.layout, topology.simplices(1).len(), config.boundary.state@)
    &&& model.source@ == config_source_values(config.source, model.layout.active_dofs@.len())
    &&& model.cells.is_of(topology, forms)
    &&& model.boundary_edge_dofs@ == dof_indices(config.boundary.state@)
    &&& is_weighted_hodge(
        linear,
        topology,
        geometry.geometries@,
        rest_weights(config.material, forms),
        geometry.vertex_dofs@,
        geometry.inverse_blocks@,
        config.boundary,
    )
    &&& is_gauged(model, linear)
}

/// The magnetostatic problem in space on its active edges.
pub fn build_reduced_vector_potential_magnetostatic_3d<T: Scalar, M: SpatialReluctivity<T>>(
    topology: &Complex,
    coords: &MeshCoords<T>,
    forms: &[CellForms<T>],
    geometry: &LinearHodgeCells<T>,
    config: NonlinearMagnetostaticAssemblyConfig<T, M>,
) -> (model: Result<ReducedVectorPotentialMagnetostatic3d<T, M>, String>)
    requires
        topology.wf(),
        coords.dim == 3 ==> geometry.wf(topology),
        topology.dimension() == 3 && coords.dim == 3 ==> cell_forms_match(topology, forms@),
    ensures
        match vector_model_fault(topology, *coords, forms@, config) {
            Some(message) => model matches Err(text) && text@ == message,
            None => model matches Ok(m) && exists|linear: ReducedLinearPdeAssembly<T>| #[trigger]
                is_vector_model(m, topology, forms@, *geometry, config, linear),
        },
{
    match config.material.validate() {
        Err(text) => return Err(text),
        Ok(_) => {},
    }
    match check_dimension(
        "3D vector-potential magnetostatic model requires topology dimension 3, got ",
        topology.dim(),
        3,
    ) {
        Err(text) => return Err(text),
        Ok(_) => {},
    }
    match check_dimension(
        "3D vector-potential magnetostatic model requires coordinate dimension 3, got ",
        coords.dim(),
        3,
    ) {
        Err(text) => return Err(text),
        Ok(_) => {},
    }
    match check_vertex_count(coords.nvertices(), topology.nsimplices(0)) {
        Err(text) => return Err(text),
        Ok(_) => {},
    }
    let layout: DofLayout<T> = match build_state_layout(
        topology.nsimplices(1),
        config.boundary.state.as_slice(),
    ) {
        Err(text) => return Err(text),
        Ok(layout) => layout,
    };
    let boundary_edge_dofs = prescribed_indices(layout.prescribed_dofs.as_slice());
    let n: usize = layout.reduced_dimension();
    let source: Vec<T> = match config_source("3D magnetostatic", config.source, n) {
        Err(text) => return Err(text),
        Ok(source) => source,
    };
    let cells: Tetrahedra<T> = match tetrahedra(
        "3D vector-potential magnetostatic assembly",
        "3D vector-potential magnetostatic model requires at least one tetrahedron",
        topology,
        forms,
    ) {
        Err(text) => return Err(text),
        Ok(cells) => cells,
    };
    let zero_state = zero_vector::<T>(n);
    let curl = assemble_3d_curl_source_free(
        &config.material,
        &cells,
        &layout,
        zero_state.as_slice(),
    );
    let weights = reference_weights(&config.material, forms);
    proof {
        low_degrees_fit(3, 0);
        low_degrees_fit(3, 1);
        low_degrees_fit(3, 2);
    }
    let linear: ReducedLinearPdeAssembly<T> = match
        build_reduced_weighted_hodge_laplace_1form_system(
        topology,
        geometry.geometries,
        &weights,
        geometry.vertex_dofs,
        geometry.inverse_blocks,
        &config.boundary,
    ) {
        Err(text) => return Err(text),
        Ok(linear) => linear,
    };
    proof {
        assert(is_weighted_hodge(
            linear,
            topology,
            geometry.geometries@,
            weights@,
            geometry.vertex_dofs@,
            geometry.inverse_blocks@,
            config.boundary,
        ));
        state_layout_unique(
            layout,
            linear.layout,
            topology.simplices(1).len(),
            config.boundary.state@,
        );
        assert(zero_state@ =~= zeros_of::<T>(n as nat));
    }
    let hodge_coulomb_operator: CsrMatrix<T> = match sparse_difference(
        &linear.operator,
        &curl.jacobian,
    ) {
        Err(text) => return Err(text),
        Ok(operator) => operator,
    };
    let hodge_coulomb_bias = minus(linear.residual_bias.as_slice(), curl.residual.as_slice());
    let ghost whole = linear;
    let model = ReducedVectorPotentialMagnetostatic3d {
        material: config.material,
        layout,
        source,
        cells,
        boundary_edge_dofs,
        hodge_coulomb_operator,
        hodge_coulomb_bias,
        state_mass: linear.state_mass,
        state_mass_inverse: linear.state_mass_inverse,
    };
    proof {
        assert(is_gauged(model, whole));
        assert(is_vector_model(model, topology, forms@, *geometry, config, whole));
    }
    Ok(model)
}

} // verus!
